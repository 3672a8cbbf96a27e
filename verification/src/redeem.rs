//! Redeeming what has been won.
use crate::text::{at, begins, optional, starts_with};
use vstd::prelude::*;
use vstd::string::StringExecFns;

verus! {

/// What to redeem.
#[derive(Debug)]
pub enum RedeemPlan {
    /// One condition.
    One { condition_id: String },
    /// All conditions that the exchange tells of the wallet.
    All { wallet: String },
}

/// What a plan holds.
pub enum RedeemPlanView {
    One { condition_id: Seq<char> },
    All { wallet: Seq<char> },
}

impl View for RedeemPlan {
    type V = RedeemPlanView;

    open spec fn view(&self) -> RedeemPlanView {
        match self {
            RedeemPlan::One { condition_id } => RedeemPlanView::One { condition_id: condition_id@ },
            RedeemPlan::All { wallet } => RedeemPlanView::All { wallet: wallet@ },
        }
    }
}

/// The id of a condition with the mark of a hexadecimal number before it.
pub open spec fn marked_id(s: Seq<char>) -> Seq<char> {
    if starts_with(s, "0x"@) {
        s
    } else {
        "0x"@ + s
    }
}

/// The id of a condition with the mark of a hexadecimal number before it.
pub fn mark_id(condition_id: &str) -> (r: String)
    ensures
        r@ == marked_id(condition_id@),
{
    if begins(condition_id, "0x") {
        String::from_str(condition_id)
    } else {
        let mut r: String = String::from_str("0x");
        r.append(condition_id);
        r
    }
}

/// An id that has the mark gets no second one.
pub proof fn law_id_is_marked_once(s: Seq<char>)
    ensures
        starts_with(marked_id(s), "0x"@),
        marked_id(marked_id(s)) == marked_id(s),
{
    let marked = "0x"@ + s;
    assert(marked.subrange(0, "0x"@.len() as int) =~= "0x"@);
    assert(at(marked, "0x"@, 0));
}

/// What to redeem: the condition that was asked for, or all of them. There is no
/// plan without a wallet.
pub fn plan_redeem(wallet: &Option<String>, condition_id: &Option<String>) -> (r: Option<
    RedeemPlan,
>)
    ensures
        r is Some <==> wallet is Some,
        r matches Some(plan) ==> plan@ == (match optional(*condition_id) {
            Some(id) => RedeemPlanView::One { condition_id: marked_id(id) },
            None => RedeemPlanView::All { wallet: wallet->0@ },
        }),
{
    match wallet {
        Some(wallet) => match condition_id {
            Some(id) => Some(RedeemPlan::One { condition_id: mark_id(id.as_str()) }),
            None => Some(RedeemPlan::All { wallet: wallet.clone() }),
        },
        None => None,
    }
}

/// How many conditions were redeemed and how many could not be.
#[derive(Debug, Clone, Copy, PartialEq, Eq, Structural)]
pub struct RedeemTally {
    pub ok_count: u32,
    pub fail_count: u32,
}

impl RedeemTally {
    /// Nothing has been tried.
    pub fn new() -> (r: RedeemTally)
        ensures
            r.ok_count == 0,
            r.fail_count == 0,
    {
        RedeemTally { ok_count: 0, fail_count: 0 }
    }

    /// Counts a condition that was redeemed, or one that could not be.
    pub fn note(&mut self, redeemed: bool)
        requires
            old(self).ok_count < u32::MAX,
            old(self).fail_count < u32::MAX,
        ensures
            final(self).ok_count == old(self).ok_count + if redeemed {
                1int
            } else {
                0
            },
            final(self).fail_count == old(self).fail_count + if redeemed {
                0int
            } else {
                1
            },
    {
        if redeemed {
            self.ok_count = self.ok_count + 1;
        } else {
            self.fail_count = self.fail_count + 1;
        }
    }
}

} // verus!
