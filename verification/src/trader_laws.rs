//! What holds of a trader over several purchases, markets and periods.
use crate::binary64::{
    abs, at_most, floored, law_maximum_bounds, law_nearest_is_exact, law_product_commutes,
    law_zero_plus, lemma_parts, lemma_pow2_constants, lemma_zero, less, nearest_magnitude, product,
    quotient, ratio, sum, unit, whole, Binary64, BINADE, INFINITE,
};
use crate::binary64_laws::{
    law_nearest_increases, lemma_nearest, lemma_unit, lemma_whole, lemma_with_sign, lemma_within,
};
use crate::decimal::Decimal;
use crate::models::TokenView;
use crate::order_laws::{
    law_order_size_spends_amount, law_ordered_shares_are_close, law_ordered_shares_are_finite,
    law_recorded_cost_adds_up, lemma_hundredths, orders_shares, uses_amount, within_amount, CLOSE,
};
use crate::strategy::{
    min_order_notional, opposite, order_amount, rising, trend_of, zero, Position, Settings, Side,
    WaveState,
};
use crate::strategy_laws::{
    law_order_amount_is_enough, lemma_base_is_amount, lemma_product_with_positive,
};
use crate::text::{decimal, is_digit, lemma_decimal_reads_back};
use crate::trader::{
    actual_pnl, market_key, settlement, BuyView, SettlementView, SnapshotView, TradeView,
    TraderView,
};
use vstd::arithmetic::div_mod::lemma_fundamental_div_mod_converse;
use vstd::arithmetic::power::{lemma_pow_positive, pow};
use vstd::arithmetic::power2::{lemma2_to64, lemma2_to64_rest, lemma_pow2_adds};
use vstd::prelude::*;

verus! {

/// No two markets, and no two periods of a market, are kept under one key.
pub proof fn law_market_key_is_unique(id1: Seq<char>, period1: u64, id2: Seq<char>, period2: u64)
    requires
        market_key(id1, period1) == market_key(id2, period2),
    ensures
        id1 == id2,
        period1 == period2,
{
    let d1 = decimal(period1 as nat);
    let d2 = decimal(period2 as nat);
    let k1 = market_key(id1, period1);
    let k2 = market_key(id2, period2);
    lemma_decimal_reads_back(period1 as nat);
    lemma_decimal_reads_back(period2 as nat);
    reveal_strlit(":");
    assert(":"@.len() == 1 && ":"@[0] == ':');
    assert(k1[id1.len() as int] == ':');
    assert(k2[id2.len() as int] == ':');
    assert(k1.len() == id1.len() + 1 + d1.len());
    assert(k2.len() == id2.len() + 1 + d2.len());
    // Behind the last colon there are digits only.
    if id1.len() < id2.len() {
        let i = id2.len() - id1.len() - 1;
        assert(k1[id2.len() as int] == d1[i]);
        assert(is_digit(d1[i]));
    }
    if id2.len() < id1.len() {
        let i = id1.len() - id2.len() - 1;
        assert(k2[id1.len() as int] == d2[i]);
        assert(is_digit(d2[i]));
    }
    assert(id1 =~= k1.take(id1.len() as int));
    assert(id2 =~= k2.take(id2.len() as int));
    assert(d1 =~= k1.skip(id1.len() as int + 1));
    assert(d2 =~= k2.skip(id2.len() as int + 1));
}

/// A snapshot changes nothing but the prices seen of its own market in its own
/// period, and the time of the last purchase. What is held and what has been
/// earned stay as they are.
pub proof fn law_snapshot_changes_its_market_only(
    t: TraderView,
    s: SnapshotView,
    now: u64,
    one_shot: bool,
)
    ensures
        ({
            let after = t.plan(s, now, one_shot).0;
            &&& after.trades == t.trades
            &&& after.wave_state == t.wave_state
            &&& after.closure_checked == t.closure_checked
            &&& after.total_profit == t.total_profit
            &&& after.period_profit == t.period_profit
            &&& forall|key: Seq<char>| key != s.key() ==> after.history(key) == t.history(key)
        }),
{
}

/// A purchase changes what is held of one side of one market in one period, and
/// nothing of the other side, of other markets or of other periods. No profit is
/// counted yet.
pub proof fn law_purchase_changes_its_side_only(
    t: TraderView,
    b: BuyView,
    id: Seq<char>,
    period: u64,
)
    ensures
        ({
            let own = market_key(b.condition_id, b.period_timestamp);
            let other = opposite(b.side);
            let after = t.finished(b);
            &&& after.total_profit == t.total_profit
            &&& after.period_profit == t.period_profit
            &&& after.position(own).shares(other) == t.position(own).shares(other)
            &&& after.position(own).avg_price(other) == t.position(own).avg_price(other)
            &&& after.position(own).shares(b.side) == sum(t.position(own).shares(b.side), b.size)
            &&& (id != b.condition_id || period != b.period_timestamp) ==> {
                let key = market_key(id, period);
                &&& after.position(key) == t.position(key)
                &&& after.wave(key) == t.wave(key)
            }
        }),
{
    if id != b.condition_id || period != b.period_timestamp {
        if market_key(id, period) == market_key(b.condition_id, b.period_timestamp) {
            law_market_key_is_unique(id, period, b.condition_id, b.period_timestamp);
        }
    }
}

/// After a purchase no other one is set out for the same market in the same
/// period until the cooldown is over, whether or not the first was made.
pub proof fn law_cooldown_holds(
    t: TraderView,
    s: SnapshotView,
    now: u64,
    later: SnapshotView,
    later_now: u64,
    one_shot: bool,
)
    requires
        t.plan(s, now, one_shot).1 is Some,
        later.condition_id == s.condition_id,
        later.period == s.period,
        later_now < now + t.cooldown(later),
    ensures
        ({
            let (after, buy) = t.plan(s, now, one_shot);
            &&& after.plan(later, later_now, one_shot).1 is None
            &&& after.finished(buy->0).plan(later, later_now, one_shot).1 is None
        }),
{
}

/// The number nearest to a decimal number of the exchange is finite.
proof fn lemma_decimal_is_finite(d: Decimal)
    requires
        d.wf(),
    ensures
        d.nearest_binary64().is_finite(),
{
    let top = Binary64 { bits: 0x45f0_0000_0000_0000 };
    let m = if d.mantissa < 0 {
        -d.mantissa
    } else {
        d.mantissa as int
    };
    let n = m * unit();
    let p = pow(10, d.scale as nat);
    lemma_unit();
    lemma_pow_positive(10, d.scale as nat);
    // 2^96.
    lemma_pow2_constants();
    lemma2_to64();
    lemma2_to64_rest();
    lemma_fundamental_div_mod_converse(top.magnitude(), BINADE as int, 1119, 0);
    lemma_pow2_adds(52, 1118);
    lemma_pow2_adds(96, 1074);
    lemma_pow2_adds(64, 32);
    let c = 0x1_0000_0000_0000_0000_0000_0000int;
    assert(top.size() == c * unit());
    law_nearest_is_exact(top);
    assert(0 <= n && n * 1 <= (c * unit()) * p) by (nonlinear_arith)
        requires
            n == m * unit(),
            0 <= m <= c,
            unit() > 0,
            p >= 1,
    {
        assert(n <= c * unit());
        assert(c * unit() * p >= c * unit());
    }
    lemma_nearest(d.mantissa < 0, n, p);
    lemma_nearest(false, c * unit(), 1);
    law_nearest_increases(n, p, c * unit(), 1);
    lemma_with_sign(d.mantissa < 0, nearest_magnitude(n, p));
    lemma_with_sign(false, nearest_magnitude(c * unit(), 1));
}

/// On a snapshot that can be traded on, more than nothing is ordered.
pub proof fn law_order_is_not_empty(t: TraderView, s: SnapshotView, side: Side, one_shot: bool)
    requires
        s.wf(),
        t.tradable(s, one_shot),
    ensures
        less(zero(), t.size(s, side)),
{
    let ask = s.ask(side);
    let amount = t.amount(s);
    lemma_zero();
    lemma_whole(100);
    law_order_amount_is_enough(t.settings, s.time_remaining);
    law_maximum_bounds(order_amount(t.settings, s.time_remaining), min_order_notional());
    assert(!at_most(ask, zero()));
    let price = match side {
        Side::Up => s.up,
        Side::Down => s.down,
    };
    assert(price is Some);
    lemma_decimal_is_finite(price->0.ask_price());
    lemma_within(ask);
    lemma_parts(ask.magnitude());
    lemma_quotient_is_number(amount, ask);
    let q = quotient(amount, ask);
    lemma_product_with_positive(whole(100), q);
    law_product_commutes(q, whole(100));
    let x = product(q, whole(100));
    lemma_floored_is_number(x);
    lemma_quotient_is_number(floored(x), whole(100));
}

proof fn lemma_quotient_is_number(a: Binary64, b: Binary64)
    requires
        !a.is_nan(),
        b.is_finite(),
        b.magnitude() > 0,
    ensures
        !quotient(a, b).is_nan(),
{
    lemma_unit();
    lemma_within(a);
    lemma_parts(b.magnitude());
    lemma_with_sign(a.negative() != b.negative(), INFINITE as int);
    assert(a.size() * unit() >= 0) by (nonlinear_arith)
        requires
            a.size() >= 0,
            unit() > 0,
    ;
    lemma_nearest(a.negative() != b.negative(), a.size() * unit(), b.size());
}

proof fn lemma_floored_is_number(a: Binary64)
    requires
        !a.is_nan(),
    ensures
        !floored(a).is_nan(),
{
    let u = unit();
    lemma_unit();
    lemma_within(a);
    let x = a.size() / u;
    let y = (a.size() + u - 1) / u;
    assert(x >= 0 && y >= 0) by {
        vstd::arithmetic::div_mod::lemma_div_pos_is_pos(a.size(), u);
        vstd::arithmetic::div_mod::lemma_div_pos_is_pos(a.size() + u - 1, u);
    }
    assert(x * u >= 0 && y * u >= 0) by (nonlinear_arith)
        requires
            x >= 0,
            y >= 0,
            u > 0,
    ;
    lemma_nearest(false, x * u, 1);
    lemma_nearest(true, y * u, 1);
}

/// Where one purchase in a period is enough, no other one follows it: once the
/// first is made, every later snapshot of that market in that period leaves the
/// trader as it is.
pub proof fn law_one_purchase_in_a_period(
    t: TraderView,
    s: SnapshotView,
    now: u64,
    later: SnapshotView,
    later_now: u64,
)
    requires
        s.wf(),
        !t.trades.contains_key(s.key()),
        t.plan(s, now, true).1 is Some,
        later.condition_id == s.condition_id,
        later.period == s.period,
    ensures
        ({
            let (planned, buy) = t.plan(s, now, true);
            let after = planned.finished(buy->0);
            after.plan(later, later_now, true) == (after, None::<BuyView>)
        }),
{
    let (planned, buy) = t.plan(s, now, true);
    let after = planned.finished(buy->0);
    let side = buy->0.side;
    law_order_is_not_empty(t, s, side, true);
    assert(buy->0.size == t.size(s, side));
    assert(planned.position(s.key()) == Position::empty());
    law_zero_plus(buy->0.size);
    assert(after.position(s.key()).shares(side) == buy->0.size);
    assert(later.key() == s.key());
    assert(after.position(later.key()).is_held());
}

/// A condition is settled at most once until the next period begins.
pub proof fn law_condition_is_settled_once(
    t: TraderView,
    key: Seq<char>,
    pnl: Binary64,
    later_key: Seq<char>,
    now: u64,
)
    requires
        t.trades.contains_key(key),
        t.trades.contains_key(later_key),
        t.trades[later_key].condition_id == t.trades[key].condition_id,
    ensures
        !t.settled(key, pnl).due(key, now),
        !t.settled(key, pnl).due(later_key, now),
{
}

/// What a settled trade has earned is the profit that was told for the side
/// that won.
pub proof fn law_settled_profit_is_the_expected_one(trade: TradeView, side: Side)
    ensures
        actual_pnl(trade, Some(side)) == trade.position.pnl_if_wins(side),
{
}

/// A simulation tells the same winner, payout and profit as trading in earnest.
pub proof fn law_simulation_tells_the_same_profit(trade: TradeView, tokens: Seq<TokenView>)
    ensures
        settlement(trade, tokens, true) == (SettlementView {
            redeem: None,
            ..settlement(trade, tokens, false)
        }),
{
}

/// Settling a trade adds what it has earned to both profits and leaves all other
/// trades as they are.
pub proof fn law_settling_leaves_other_trades(
    t: TraderView,
    key: Seq<char>,
    pnl: Binary64,
    other: Seq<char>,
)
    requires
        other != key,
    ensures
        t.settled(key, pnl).total_profit == sum(t.total_profit, pnl),
        t.settled(key, pnl).period_profit == sum(t.period_profit, pnl),
        t.settled(key, pnl).position(key) == Position::empty(),
        t.settled(key, pnl).position(other) == t.position(other),
{
}

/// The price is within the limits that are set.
pub open spec fn in_band(t: TraderView, price: Binary64) -> bool {
    at_most(t.settings.min_side_price, price) && at_most(price, t.settings.max_side_price)
}

/// A snapshot calls for one purchase at most, of one side, at the ask of that side,
/// which is within the limits. Its shares are whole hundredths that spend the amount
/// of the order, up to rounding, and the shares that are ordered are these, rounded to
/// ten-thousandths. Nothing is bought where no ask is within the limits,
/// and nothing is ordered in a simulation.
pub proof fn law_purchase_is_within_limits(
    t: TraderView,
    s: SnapshotView,
    now: u64,
    one_shot: bool,
)
    requires
        s.wf(),
    ensures
        t.plan(s, now, one_shot).1 matches Some(b) ==> {
            &&& b.price == s.ask(b.side)
            &&& in_band(t, b.price)
            &&& b.size == t.size(s, b.side)
            &&& less(zero(), b.size)
            &&& b.order_shares is None <==> t.simulation_mode
            &&& b.size.is_finite() ==> within_amount(b.size, b.price, t.amount(s)) && uses_amount(
                b.size,
                b.price,
                t.amount(s),
            )
            &&& b.size.is_finite() ==> exists|cents: int|
                cents > 0 && b.size == #[trigger] ratio(cents, 100)
            &&& b.order_shares matches Some(n) ==> b.size.is_finite() ==> {
                &&& at_most(b.size, whole(0x2_0000_0000_0000)) ==> n.is_finite()
                &&& n.is_finite() ==> !n.negative() && orders_shares(n, b.size)
            }
        },
        !in_band(t, s.ask(Side::Up)) && !in_band(t, s.ask(Side::Down)) ==> t.plan(
            s,
            now,
            one_shot,
        ).1 is None,
{
    if let Some(b) = t.plan(s, now, one_shot).1 {
        let side = b.side;
        law_order_is_not_empty(t, s, side, one_shot);
        lemma_ask_is_finite(s, side);
        lemma_amount_is_positive(t, s);
        if b.size.is_finite() {
            law_order_size_spends_amount(t.amount(s), s.ask(side));
            let cents = choose|cents: int| cents > 0 && b.size == #[trigger] ratio(cents, 100);
            lemma_hundredths(cents);
            if let Some(n) = b.order_shares {
                if at_most(b.size, whole(0x2_0000_0000_0000)) {
                    law_ordered_shares_are_finite(b.size);
                }
                if n.is_finite() {
                    law_ordered_shares_are_close(b.size);
                }
            }
        }
    }
}

/// The ask of a side is a finite number.
pub proof fn lemma_ask_is_finite(s: SnapshotView, side: Side)
    requires
        s.wf(),
    ensures
        s.ask(side).is_finite(),
        !at_most(s.ask(side), zero()) ==> less(zero(), s.ask(side)),
{
    lemma_zero();
    let price = match side {
        Side::Up => s.up,
        Side::Down => s.down,
    };
    if let Some(p) = price {
        lemma_decimal_is_finite(p.ask_price());
    }
}

/// The amount of an order is above zero.
proof fn lemma_amount_is_positive(t: TraderView, s: SnapshotView)
    ensures
        less(zero(), t.amount(s)),
{
    let least = min_order_notional();
    lemma_zero();
    lemma_base_is_amount(Settings { order_amount_usdc: None, ..t.settings });
    lemma_within(least);
    lemma_parts(least.magnitude());
    law_order_amount_is_enough(t.settings, s.time_remaining);
    law_maximum_bounds(order_amount(t.settings, s.time_remaining), least);
}

/// A side that goes on rising is bought a second time, where purchases do not stop
/// after the first, the cooldown is over and the other side cannot be locked; the
/// other side is not bought.
pub proof fn law_rising_side_is_bought_twice(
    t: TraderView,
    s: SnapshotView,
    now: u64,
    later: SnapshotView,
    later_now: u64,
    side: Side,
)
    requires
        s.wf(),
        later.wf(),
        later.key() == s.key(),
        // Nothing is held and nothing has been bought.
        !t.trades.contains_key(s.key()),
        !t.wave_state.contains_key(s.key()),
        t.tradable(s, false),
        !t.cooling(s, now),
        in_band(t, s.ask(side)),
        trend_of(t.seen(s, now).history(s.key())) == rising(side),
        ({
            let after = t.plan(s, now, false).0.finished(t.plan(s, now, false).1->0);
            &&& after.tradable(later, false)
            &&& !after.cooling(later, later_now)
            &&& in_band(t, later.ask(side))
            &&& trend_of(after.seen(later, later_now).history(later.key())) == rising(side)
            &&& !(after.outlook(later, opposite(side)).can_lock && in_band(
                t,
                later.ask(opposite(side)),
            ))
        }),
    ensures
        ({
            let (planned, first) = t.plan(s, now, false);
            let after = planned.finished(first->0);
            let second = after.plan(later, later_now, false).1;
            &&& first matches Some(b) && b.side == side && !b.lock && b.price == s.ask(side)
            &&& second matches Some(b) && b.side == side && !b.lock && b.price == later.ask(side)
            &&& after.position(s.key()).shares(side) == t.size(s, side)
            &&& after.position(s.key()).shares(opposite(side)) == zero()
        }),
{
    let seen = t.seen(s, now);
    let (planned, first) = t.plan(s, now, false);
    lemma_zero();
    assert(seen.position(s.key()) == Position::empty());
    assert(seen.wave(s.key()) == WaveState::start());
    assert(!seen.cooling(s, now));
    assert(first is Some && first->0.side == side && !first->0.lock);
    let b = first->0;
    law_order_is_not_empty(t, s, side, false);
    assert(b.size == t.size(s, side));
    law_zero_plus(b.size);
    let after = planned.finished(b);
    assert(after.position(s.key()).shares(side) == b.size);
    assert(after.position(s.key()).shares(opposite(side)) == zero());
    let again = after.seen(later, later_now);
    assert(again.position(later.key()) == after.position(s.key()));
    assert(again.wave(later.key()).buys(side) == 1);
    assert(!again.cooling(later, later_now));
    assert(again.outlook(later, opposite(side)) == after.outlook(later, opposite(side)));
}

/// What is recorded of a purchase: the token of its side, the shares added, and a
/// cost that adds up, up to rounding.
pub proof fn law_recorded_trade_adds_up(
    t: TraderView,
    condition_id: Seq<char>,
    period: u64,
    duration: u64,
    side: Side,
    token_id: Seq<char>,
    shares: Binary64,
    price: Binary64,
)
    requires
        ({
            let key = market_key(condition_id, period);
            let before = t.position(key);
            let after = before.bought(side, shares, price);
            &&& !before.shares(side).negative() && before.shares(side).is_finite()
            &&& !before.avg_price(side).negative() && before.avg_price(side).is_finite()
            &&& less(zero(), shares) && shares.is_finite()
            &&& less(zero(), price) && price.is_finite()
            &&& after.shares(side).is_finite() && after.avg_price(side).is_finite()
        }),
    ensures
        ({
            let key = market_key(condition_id, period);
            let before = t.position(key);
            let after = t.recorded(
                condition_id,
                period,
                duration,
                side,
                token_id,
                shares,
                price,
            );
            let n = after.position(key).shares(side);
            let a = after.position(key).avg_price(side);
            let cost = before.shares(side).size() * before.avg_price(side).size() + shares.size()
                * price.size();
            &&& after.trades[key].token_id(side) == Some(token_id)
            &&& n == sum(before.shares(side), shares)
            &&& CLOSE * abs(a.size() * n.size() - cost) <= cost + BINADE * (unit() + n.size())
        }),
{
    let key = market_key(condition_id, period);
    law_recorded_cost_adds_up(t.position(key), side, shares, price);
}

} // verus!
