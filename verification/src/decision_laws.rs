//! When each side is bought, told by what is held, what is asked and where the
//! prices are going.
use crate::binary64::{
    at_most, difference, equals, law_maximum_bounds, law_sum_commutes, law_zero_plus, lemma_parts,
    lemma_zero, less, maximum, nearest, negation, product, quotient, ratio, sum, unit, whole,
    Binary64,
};
use crate::binary64_laws::{
    law_nearest_increases, lemma_nearest, lemma_rest_of_one, lemma_unit, lemma_whole,
    lemma_with_sign, lemma_within,
};
use crate::order_laws::in_cents;
use crate::strategy::{
    base_amount, decision, history_after, opposite, order_amount, outlook, pair_cost, trend_of,
    wave_after, Decision, Outlook, Position, Settings, Side, Tick, Trend, WaveState,
};
use crate::strategy_laws::{law_order_amount_is_enough, lemma_base_is_amount, of_side};
use vstd::prelude::*;

verus! {

/// The price of the side is rising.
pub open spec fn rises(trend: Trend, side: Side) -> bool {
    match side {
        Side::Up => trend is UpRising,
        Side::Down => trend is DownRising,
    }
}

/// The price of one of the sides is falling.
pub open spec fn falls(trend: Trend) -> bool {
    trend is UpFalling || trend is DownFalling
}

/// How often a side was bought since the last lock.
pub open spec fn times_bought(wave: WaveState, side: Side) -> u32 {
    match side {
        Side::Up => wave.buys_up_since_lock,
        Side::Down => wave.buys_down_since_lock,
    }
}

/// The side is bought, completing pairs.
pub open spec fn locks(d: Decision, bought: Side) -> bool {
    d matches Decision::Buy { side, lock } && side == bought && lock
}

/// The side is bought, not to complete pairs.
pub open spec fn adds(d: Decision, bought: Side) -> bool {
    d matches Decision::Buy { side, lock } && side == bought && !lock
}

/// The outcome in which the first side wins is worse than the other.
pub open spec fn is_worse(own: Outlook, other: Outlook) -> bool {
    less(own.pnl_if_wins, other.pnl_if_wins)
}

/// Nothing is bought where neither price is within the limits, and what is bought is
/// bought at a price within them.
pub proof fn law_price_must_be_accepted(up: Outlook, down: Outlook, trend: Trend, wave: WaveState)
    ensures
        !up.price_ok && !down.price_ok ==> decision(up, down, trend, wave) is Hold,
        decision(up, down, trend, wave) matches Decision::Buy { side, lock } ==> of_side(
            up,
            down,
            side,
        ).price_ok,
{
}

/// With nothing held and a side rising, that side alone is bought, while it was
/// bought fewer than twice and its price is accepted; the other side's price and
/// the level of both do not matter.
pub proof fn law_nothing_held_and_rising(
    up: Outlook,
    down: Outlook,
    trend: Trend,
    wave: WaveState,
    side: Side,
)
    requires
        equals(up.shares, whole(0)),
        equals(down.shares, whole(0)),
        rises(trend, side),
    ensures
        adds(decision(up, down, trend, wave), side) <==> of_side(up, down, side).price_ok
            && times_bought(wave, side) < 2,
        !adds(decision(up, down, trend, wave), side) ==> decision(up, down, trend, wave) is Hold,
{
}

/// With nothing held and no side rising, the side with the higher ask is bought, up
/// at equal asks, while that was done fewer than four times and its price is
/// accepted.
pub proof fn law_nothing_held_and_not_rising(
    up: Outlook,
    down: Outlook,
    trend: Trend,
    wave: WaveState,
)
    requires
        equals(up.shares, whole(0)),
        equals(down.shares, whole(0)),
        !rises(trend, Side::Up),
        !rises(trend, Side::Down),
    ensures
        adds(decision(up, down, trend, wave), Side::Up) <==> at_most(down.ask, up.ask)
            && up.price_ok && wave.flat_buys_since_lock < 4,
        adds(decision(up, down, trend, wave), Side::Down) <==> !at_most(down.ask, up.ask)
            && down.price_ok && wave.flat_buys_since_lock < 4,
        !locks(decision(up, down, trend, wave), Side::Up),
        !locks(decision(up, down, trend, wave), Side::Down),
{
}

/// With one side held: the other is locked exactly where it can be and its price is
/// accepted. Else the other is opened where it rises, its outcome is the worse one
/// and it was bought fewer than eight times; and the held one is bought again where
/// it rises and was bought fewer than three times. Nothing else is bought.
pub proof fn law_one_side_held(
    up: Outlook,
    down: Outlook,
    trend: Trend,
    wave: WaveState,
    held: Side,
)
    requires
        less(whole(0), of_side(up, down, held).shares),
        equals(of_side(up, down, opposite(held)).shares, whole(0)),
    ensures
        ({
            let own = of_side(up, down, held);
            let other = of_side(up, down, opposite(held));
            let d = decision(up, down, trend, wave);
            let can = other.can_lock && other.price_ok;
            &&& locks(d, opposite(held)) <==> can
            &&& adds(d, opposite(held)) <==> !other.can_lock && other.price_ok && rises(
                trend,
                opposite(held),
            ) && is_worse(other, own) && times_bought(wave, opposite(held)) < 8
            &&& adds(d, held) <==> !can && rises(trend, held) && own.price_ok && times_bought(
                wave,
                held,
            ) < 3
            &&& !locks(d, held)
        }),
{
    lemma_zero();
}

/// With both sides held, the smaller one is locked exactly where it can be and its
/// price is accepted, wherever the prices are going.
pub proof fn law_both_held_lock(
    up: Outlook,
    down: Outlook,
    trend: Trend,
    wave: WaveState,
    side: Side,
)
    requires
        less(whole(0), up.shares),
        less(whole(0), down.shares),
    ensures
        ({
            let own = of_side(up, down, side);
            let other = of_side(up, down, opposite(side));
            locks(decision(up, down, trend, wave), side) <==> less(own.shares, other.shares)
                && own.can_lock && own.price_ok
        }),
{
}

/// No side is locked.
pub open spec fn no_lock(d: Decision) -> bool {
    !locks(d, Side::Up) && !locks(d, Side::Down)
}

/// With both sides held and none locked, a rising side is bought where its price is
/// accepted, it was bought fewer than eight times, and either it cannot be locked and
/// its outcome is the worse one, or a pair costs 1.02 at most. The other is not.
pub proof fn law_both_held_and_rising(
    up: Outlook,
    down: Outlook,
    trend: Trend,
    wave: WaveState,
    side: Side,
)
    requires
        less(whole(0), up.shares),
        less(whole(0), down.shares),
        no_lock(decision(up, down, trend, wave)),
        rises(trend, side),
    ensures
        ({
            let own = of_side(up, down, side);
            let other = of_side(up, down, opposite(side));
            let d = decision(up, down, trend, wave);
            &&& adds(d, side) <==> own.price_ok && times_bought(wave, side) < 8 && ((!own.can_lock
                && is_worse(own, other)) || at_most(own.cost_per_pair, ratio(102, 100)))
            &&& !adds(d, opposite(side))
        }),
{
}

/// A side is bought to better a loss.
pub open spec fn betters(own: Outlook, other: Outlook, bought: u32) -> bool {
    less(own.pnl_if_wins, whole(0)) && is_worse(own, other) && own.price_ok && at_most(
        own.cost_per_pair,
        ratio(102, 100),
    ) && bought < 8
}

/// With both sides held, none locked and a price falling, a side whose outcome is a
/// loss and the worse one is bought while a pair costs 1.02 at most and it was bought
/// fewer than eight times. Else the side whose price does not fall is bought, while
/// it was bought fewer than three times.
pub proof fn law_both_held_and_falling(
    up: Outlook,
    down: Outlook,
    trend: Trend,
    wave: WaveState,
    side: Side,
)
    requires
        less(whole(0), up.shares),
        less(whole(0), down.shares),
        no_lock(decision(up, down, trend, wave)),
        falls(trend),
    ensures
        ({
            let own = of_side(up, down, side);
            let other = of_side(up, down, opposite(side));
            let d = decision(up, down, trend, wave);
            let better_own = betters(own, other, times_bought(wave, side));
            let better_other = betters(other, own, times_bought(wave, opposite(side)));
            let follows = match side {
                Side::Up => trend is DownFalling,
                Side::Down => trend is UpFalling,
            };
            adds(d, side) <==> better_own || (!better_other && follows && own.price_ok
                && times_bought(wave, side) < 3)
        }),
{
}

/// With both sides held, none locked and the prices standing, nothing is bought.
pub proof fn law_both_held_and_standing(up: Outlook, down: Outlook, wave: WaveState)
    requires
        less(whole(0), up.shares),
        less(whole(0), down.shares),
        no_lock(decision(up, down, Trend::Flat, wave)),
    ensures
        decision(up, down, Trend::Flat, wave) is Hold,
{
}

/// The trend seen with the sides exchanged.
pub open spec fn mirrored_trend(trend: Trend) -> Trend {
    match trend {
        Trend::UpRising => Trend::DownRising,
        Trend::DownRising => Trend::UpRising,
        Trend::Flat => Trend::Flat,
        Trend::DownFalling => Trend::UpFalling,
        Trend::UpFalling => Trend::DownFalling,
    }
}

/// The counts with the sides exchanged.
pub open spec fn mirrored_wave(wave: WaveState) -> WaveState {
    WaveState {
        buys_up_since_lock: wave.buys_down_since_lock,
        buys_down_since_lock: wave.buys_up_since_lock,
        flat_buys_since_lock: wave.flat_buys_since_lock,
    }
}

/// The decision with the sides exchanged.
pub open spec fn mirrored(d: Decision) -> Decision {
    match d {
        Decision::Hold => Decision::Hold,
        Decision::Buy { side, lock } => Decision::Buy { side: opposite(side), lock },
    }
}

/// The two sides are treated alike: with everything about them exchanged, the other
/// side is bought. (At equal asks, with nothing held and no side rising, up is.)
pub proof fn law_sides_are_treated_alike(
    up: Outlook,
    down: Outlook,
    trend: Trend,
    wave: WaveState,
)
    requires
        less(up.ask, down.ask) || less(down.ask, up.ask),
    ensures
        decision(down, up, mirrored_trend(trend), mirrored_wave(wave)) == mirrored(
            decision(up, down, trend, wave),
        ),
{
}

/// What a side looks like to the decision. The price is accepted within the limits,
/// ends included. After a purchase the side has its shares and those bought, and has
/// cost what they cost and what is paid. There are as many pairs as the smaller of
/// the two sides has shares, and a pair costs what this side has cost and what the
/// paired shares of the other have, shared among the pairs. A lock completes pairs
/// with what is held of the other side at no more than the accepted cost.
pub proof fn law_outlook(
    settings: Settings,
    position: Position,
    side: Side,
    ask: Binary64,
    size: Binary64,
)
    ensures
        ({
            let o = outlook(settings, position, side, ask, size);
            let (n, a, m, b) = match side {
                Side::Up => (
                    position.up_shares,
                    position.up_avg_price,
                    position.down_shares,
                    position.down_avg_price,
                ),
                Side::Down => (
                    position.down_shares,
                    position.down_avg_price,
                    position.up_shares,
                    position.up_avg_price,
                ),
            };
            let spent = sum(
                product(position.up_shares, position.up_avg_price),
                product(position.down_shares, position.down_avg_price),
            );
            &&& o.ask == ask
            &&& o.shares == n
            &&& o.price_ok <==> at_most(settings.min_side_price, ask) && at_most(
                ask,
                settings.max_side_price,
            )
            &&& o.shares_after == sum(n, size)
            &&& o.cost_after == sum(product(n, a), product(size, ask))
            &&& !o.shares_after.is_nan() && !m.is_nan() ==> at_most(o.pairs_after, o.shares_after)
                && at_most(o.pairs_after, m)
            &&& o.pairs_after == o.shares_after || o.pairs_after == m
            &&& less(whole(0), o.pairs_after) && !m.is_nan() ==> o.cost_per_pair == quotient(
                sum(product(o.pairs_after, b), o.cost_after),
                o.pairs_after,
            )
            &&& !less(whole(0), o.pairs_after) ==> o.cost_per_pair.bits == 0x7fef_ffff_ffff_ffff
            &&& o.can_lock <==> less(whole(0), m) && less(whole(0), o.pairs_after) && at_most(
                o.cost_per_pair,
                settings.cost_per_pair_max,
            )
            &&& o.pnl_if_wins == difference(n, spent)
        }),
{
    let o = outlook(settings, position, side, ask, size);
    law_sum_commutes(
        o.cost_after,
        product(o.pairs_after, position.avg_price(opposite(side))),
    );
}

/// A purchase is counted for its side, three times at most, and where nothing was
/// held and no side was rising also as a purchase without a trend, four times at
/// most. The count of the other side stays. A lock starts all counts anew.
pub proof fn law_purchase_is_counted(
    wave: WaveState,
    side: Side,
    lock: bool,
    trend: Trend,
    no_position: bool,
)
    ensures
        ({
            let after = wave_after(wave, side, lock, trend, no_position);
            let own = times_bought(wave, side);
            let flat = wave.flat_buys_since_lock;
            &&& lock ==> times_bought(after, Side::Up) == 0 && times_bought(after, Side::Down) == 0
                && after.flat_buys_since_lock == 0
            &&& !lock ==> {
                &&& times_bought(after, side) == (if own < 3 {
                    own + 1
                } else {
                    3
                })
                &&& times_bought(after, opposite(side)) == times_bought(wave, opposite(side))
                &&& after.flat_buys_since_lock == (if !no_position || rises(trend, Side::Up)
                    || rises(trend, Side::Down) {
                    flat as int
                } else if flat < 4 {
                    flat + 1
                } else {
                    4
                })
            }
        }),
{
}

/// A move is a trend. Of four prices or more, a side that has gone up by 0.005 at
/// least, and by no less than the other, is rising, up where both have, whatever the
/// level of the prices. Where no side is rising, one that has gone down by 0.005 at
/// least, and by no less than the other, is falling, down where both have. There is no
/// trend only where neither has moved that far or fewer than four prices are known.
pub proof fn law_move_is_a_trend(history: Seq<Tick>)
    ensures
        ({
            let up = difference(history.last().up, history[0].up);
            let down = difference(history.last().down, history[0].down);
            let t = ratio(5, 1000);
            let known = history.len() >= 4;
            let up_rises = known && at_most(t, up) && at_most(down, up);
            let down_rises = known && at_most(t, down) && at_most(up, down);
            let down_falls = known && at_most(down, negation(t)) && at_most(down, up);
            let up_falls = known && at_most(up, negation(t)) && at_most(up, down);
            &&& trend_of(history) is UpRising <==> up_rises
            &&& trend_of(history) is DownRising <==> down_rises && !up_rises
            &&& trend_of(history) is DownFalling <==> down_falls && !up_rises && !down_rises
            &&& trend_of(history) is UpFalling <==> up_falls && !up_rises && !down_rises
                && !down_falls
        }),
{
}

/// Where neither move is to be told from a number, there is a trend exactly where a
/// side has moved by the threshold: up or down by 0.005 at least.
pub proof fn law_no_trend_means_no_move(history: Seq<Tick>)
    requires
        history.len() >= 4,
        !difference(history.last().up, history[0].up).is_nan(),
        !difference(history.last().down, history[0].down).is_nan(),
    ensures
        ({
            let up = difference(history.last().up, history[0].up);
            let down = difference(history.last().down, history[0].down);
            let t = ratio(5, 1000);
            trend_of(history) is Flat <==> !at_most(t, up) && !at_most(t, down) && !at_most(
                up,
                negation(t),
            ) && !at_most(down, negation(t))
        }),
{
    let t = ratio(5, 1000);
    lemma_unit();
    lemma_nearest(false, 5 * unit(), 1000);
    lemma_with_sign(!t.negative(), t.magnitude());
}

/// A run of prices ends in the newest one, keeps those before it in their order, and
/// holds five at most.
pub proof fn law_newest_prices_are_kept(history: Seq<Tick>, tick: Tick)
    ensures
        ({
            let after = history_after(history, tick);
            let n = history.len() as int;
            let k = after.len() as int;
            &&& after.last() == tick
            &&& k == (if n < 5 {
                n + 1
            } else {
                5
            })
            &&& forall|i: int| 0 < i < k ==> #[trigger] after[k - 1 - i] == history[n - i]
        }),
{
}

/// The whole amount of an order is the one that is set, where that is above 1.1, and
/// 1.1 elsewhere.
pub proof fn law_whole_amount(settings: Settings)
    ensures
        settings.order_amount_usdc matches Some(v) ==> less(ratio(11, 10), v) ==> base_amount(
            settings,
        ) == v,
        settings.order_amount_usdc matches Some(v) ==> !less(whole(0), v) ==> base_amount(settings)
            == ratio(11, 10),
        settings.order_amount_usdc is None ==> base_amount(settings) == ratio(11, 10),
        settings.order_amount_usdc matches Some(v) ==> at_most(v, ratio(11, 10)) ==> equals(
            base_amount(settings),
            ratio(11, 10),
        ),
{
    let least = ratio(11, 10);
    lemma_unit();
    lemma_nearest(false, 11 * unit(), 10);
    lemma_zero();
    lemma_base_is_amount(
        Settings { order_amount_usdc: None, ..settings },
    );
    lemma_within(least);
}

/// While amounts are reduced, an order is never below the least amount that is set,
/// also where that is above the whole amount, nor below 1.1.
pub proof fn law_least_amount_is_kept(settings: Settings, secs: u64)
    requires
        secs < settings.size_reduce_after_secs,
    ensures
        !settings.size_min_amount_usdc.is_nan() ==> at_most(
            settings.size_min_amount_usdc,
            order_amount(settings, secs),
        ),
        at_most(ratio(11, 10), order_amount(settings, secs)),
{
    law_order_amount_is_enough(settings, secs);
    law_reduced_amount_is_largest(settings, secs);
}

/// While amounts are reduced, what is ordered is the largest of three: the least
/// amount that is set, 1.1, and a part of the whole amount, in cents. That part is the
/// least ratio, and of the rest as much as there is time left of the time in which
/// amounts are reduced.
pub proof fn law_reduced_amount_is_largest(settings: Settings, secs: u64)
    requires
        secs < settings.size_reduce_after_secs,
    ensures
        ({
            let r = settings.size_min_ratio;
            let left = quotient(whole(secs as int), whole(settings.size_reduce_after_secs as int));
            let part = sum(r, product(difference(whole(1), r), left));
            let cents = in_cents(product(base_amount(settings), part));
            let least = settings.size_min_amount_usdc;
            let amount = order_amount(settings, secs);
            &&& amount == cents || amount == least || amount == ratio(11, 10)
            &&& !cents.is_nan() ==> at_most(cents, amount)
            &&& !least.is_nan() ==> at_most(least, amount)
            &&& at_most(ratio(11, 10), amount)
        }),
{
    let r = settings.size_min_ratio;
    let left = quotient(whole(secs as int), whole(settings.size_reduce_after_secs as int));
    let part = sum(r, product(difference(whole(1), r), left));
    let cents = in_cents(product(base_amount(settings), part));
    let larger = maximum(cents, settings.size_min_amount_usdc);
    law_order_amount_is_enough(settings, secs);
    assert(!ratio(11, 10).is_nan());
    law_maximum_bounds(larger, ratio(11, 10));
    if !cents.is_nan() || !settings.size_min_amount_usdc.is_nan() {
        law_maximum_bounds(cents, settings.size_min_amount_usdc);
    }
}

/// At the very end of the market the least ratio of the whole amount is ordered, in
/// cents, or what is larger of the least amounts.
pub proof fn law_least_ratio_at_the_end(settings: Settings)
    requires
        settings.size_reduce_after_secs > 0,
        less(whole(0), settings.size_min_ratio),
        at_most(settings.size_min_ratio, whole(1)),
        settings.size_min_ratio.is_finite(),
    ensures
        ({
            let cents = in_cents(
                product(base_amount(settings), settings.size_min_ratio),
            );
            let least = settings.size_min_amount_usdc;
            let amount = order_amount(settings, 0);
            &&& amount == cents || amount == least || amount == ratio(11, 10)
            &&& !cents.is_nan() ==> at_most(cents, amount)
        }),
{
    let r = settings.size_min_ratio;
    let rest = difference(whole(1), r);
    let window = whole(settings.size_reduce_after_secs as int);
    lemma_zero();
    lemma_unit();
    lemma_rest_of_one(r);
    lemma_whole(settings.size_reduce_after_secs);
    lemma_within(window);
    lemma_within(rest);
    lemma_parts(window.magnitude());
    let none = quotient(whole(0), window);
    assert(0 * unit() == 0);
    lemma_nearest(false, 0, window.size());
    lemma_nothing(window.size());
    assert(none == whole(0));
    assert(rest.size() * 0 == 0) by (nonlinear_arith);
    lemma_nothing(unit());
    assert(product(rest, none) == whole(0));
    law_zero_plus(r);
    law_sum_commutes(r, whole(0));
    law_reduced_amount_is_largest(settings, 0);
}

/// Zero is rounded to zero.
proof fn lemma_nothing(d: int)
    requires
        d > 0,
    ensures
        nearest(false, 0, d) == whole(0),
{
    lemma_unit();
    assert(0 * unit() == 0);
    law_nearest_increases(0, d, 0, 1);
    law_nearest_increases(0, 1, 0, d);
}

/// Without a time in which amounts are reduced, and before it begins, the whole amount
/// is ordered.
pub proof fn law_amount_is_whole(settings: Settings, secs: u64)
    requires
        settings.size_reduce_after_secs == 0 || secs >= settings.size_reduce_after_secs,
    ensures
        order_amount(settings, secs) == base_amount(settings),
{
}

/// The pairs of a position are worth what they cost only with the cost of both of
/// their halves: per pair that is at least the average price of the other side.
pub proof fn law_pair_costs_both_halves(
    cost_after: Binary64,
    shares_after: Binary64,
    other_shares: Binary64,
    other_avg: Binary64,
)
    requires
        less(whole(0), shares_after),
        less(whole(0), other_shares),
    ensures
        ({
            let pairs = if less(other_shares, shares_after) {
                other_shares
            } else {
                shares_after
            };
            pair_cost(cost_after, shares_after, pairs, other_shares, other_avg) == quotient(
                sum(cost_after, product(pairs, other_avg)),
                pairs,
            )
        }),
{
}

} // verus!
