//! Decimal numbers, as the exchange writes prices.
use crate::binary64::{nearest, unit, Binary64};
use vstd::arithmetic::power::pow;
use vstd::prelude::*;

verus! {

/// The number `mantissa / 10^scale`.
#[derive(Debug, Clone, Copy, PartialEq, Eq, Structural)]
pub struct Decimal {
    pub mantissa: i128,
    pub scale: u32,
}

/// The mantissa and the scale of the decimal number that a text writes.
pub uninterp spec fn decimal_of_text(s: Seq<char>) -> Option<(i128, u32)>;

impl Decimal {
    /// What a mantissa of 96 bits and a scale of at most 28 can write.
    pub open spec fn wf(self) -> bool {
        -0x1_0000_0000_0000_0000_0000_0000 < self.mantissa < 0x1_0000_0000_0000_0000_0000_0000
            && self.scale <= 28
    }

    pub open spec fn zero() -> Decimal {
        Decimal { mantissa: 0, scale: 0 }
    }

    /// The binary64 number nearest to this one.
    pub open spec fn nearest_binary64(self) -> Binary64 {
        nearest(
            self.mantissa < 0,
            if self.mantissa < 0 {
                -self.mantissa * unit()
            } else {
                self.mantissa * unit()
            },
            pow(10, self.scale as nat),
        )
    }
}

/// What a text writes, as a decimal number.
pub open spec fn decimal_in(s: Seq<char>) -> Option<Decimal> {
    match decimal_of_text(s) {
        Some((mantissa, scale)) => Some(Decimal { mantissa, scale }),
        None => None,
    }
}

/// `rust_decimal::Decimal::from_str_exact`. The result depends on the text
/// alone; the mantissa has at most 96 bits and the scale is at most 28.
#[verifier::external_body]
pub(crate) fn read_decimal(s: &str) -> (r: Option<Decimal>)
    ensures
        match r {
            Some(d) => decimal_of_text(s@) == Some((d.mantissa, d.scale)),
            None => decimal_of_text(s@) is None,
        },
        r matches Some(d) ==> d.wf(),
{
    match rust_decimal::Decimal::from_str_exact(s) {
        Ok(d) => Some(Decimal { mantissa: d.mantissa(), scale: d.scale() }),
        Err(_) => None,
    }
}

/// `10^n`.
fn power_of_ten(n: u32) -> (r: u128)
    requires
        n <= 28,
    ensures
        r == pow(10, n as nat),
        0 < r < 0x1_0000_0000_0000_0000_0000_0000_0000,
{
    let mut r: u128 = 1;
    let mut i: u32 = 0;
    proof {
        vstd::arithmetic::power::lemma_pow0(10);
        lemma_ten_to_28();
    }
    while i < n
        invariant
            i <= n <= 28,
            r == pow(10, i as nat),
            0 < r <= pow(10, 28),
            pow(10, 28) == 10_000_000_000_000_000_000_000_000_000,
        decreases n - i,
    {
        proof {
            reveal(pow);
            vstd::arithmetic::power::lemma_pow_increases(10, (i + 1) as nat, 28);
        }
        r = 10 * r;
        i = i + 1;
    }
    r
}

proof fn lemma_ten_to_28()
    ensures
        pow(10, 28) == 10_000_000_000_000_000_000_000_000_000,
{
    vstd::arithmetic::power::lemma_pow1(10);
    vstd::arithmetic::power::lemma_pow_adds(10, 1, 1);
    assert(pow(10, 2) == 100);
    vstd::arithmetic::power::lemma_pow_adds(10, 2, 1);
    vstd::arithmetic::power::lemma_pow_adds(10, 2, 2);
    assert(pow(10, 4) == 10_000);
    vstd::arithmetic::power::lemma_pow_adds(10, 4, 3);
    assert(pow(10, 7) == 10_000_000);
    vstd::arithmetic::power::lemma_pow_adds(10, 7, 7);
    assert(pow(10, 14) == 100_000_000_000_000);
    vstd::arithmetic::power::lemma_pow_adds(10, 14, 14);
}

impl Decimal {
    /// The binary64 number nearest to this one: what reading the digits of the
    /// number gives.
    pub fn to_binary64(self) -> (r: Binary64)
        requires
            self.wf(),
        ensures
            r == self.nearest_binary64(),
    {
        let den: u128 = power_of_ten(self.scale);
        if self.mantissa < 0 {
            Binary64::from_ratio(true, (-self.mantissa) as u128, den)
        } else {
            Binary64::from_ratio(false, self.mantissa as u128, den)
        }
    }
}

} // verus!
