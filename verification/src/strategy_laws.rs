//! What holds of the rules by which one side of a market is bought.
use crate::binary64::{
    abs, at_most, difference, equals, law_maximum_bounds, law_nearest_is_exact,
    law_product_commutes, lemma_parts, lemma_pow2_constants, lemma_scaled_increases, lemma_zero,
    less, maximum, nearest_magnitude, negation, product, quotient, rounded, sum, unit, whole,
    Binary64, BINADE, INFINITE,
};
use crate::binary64_laws::{
    law_maximum_increases, law_nearest_increases, law_product_increases, law_quotient_increases,
    law_rounded_increases, law_sum_increases, law_whole_increases, lemma_nearest, lemma_one,
    lemma_rest_of_one, lemma_unit, lemma_whole, lemma_with_sign, lemma_within,
};
use crate::strategy::{
    amount_part, base_amount, decision, history_after, min_order_notional, opposite, order_amount,
    outlook, rising, trend_of, trend_threshold, wave_after, zero, Decision, Outlook, Position,
    Settings, Side, Tick, Trend, WaveState, MAX_FLAT_BUYS_NO_POSITION, MAX_REBALANCE_BUYS,
    MAX_RISING_BUYS_NO_POSITION, PRICE_HISTORY_LEN,
};
use vstd::arithmetic::div_mod::lemma_fundamental_div_mod_converse;
use vstd::arithmetic::power2::{lemma2_to64, lemma_pow2_adds, pow2};
use vstd::prelude::*;

verus! {

/// The outlook of a side, of the two.
pub open spec fn of_side(up: Outlook, down: Outlook, side: Side) -> Outlook {
    match side {
        Side::Up => up,
        Side::Down => down,
    }
}

/// A side is only bought at a price within the limits.
pub proof fn law_bought_price_is_within_limits(
    settings: Settings,
    position: Position,
    up_ask: Binary64,
    down_ask: Binary64,
    up_size: Binary64,
    down_size: Binary64,
    trend: Trend,
    wave: WaveState,
)
    ensures
        decision(
            outlook(settings, position, Side::Up, up_ask, up_size),
            outlook(settings, position, Side::Down, down_ask, down_size),
            trend,
            wave,
        ) matches Decision::Buy { side, lock } ==> {
            let ask = match side {
                Side::Up => up_ask,
                Side::Down => down_ask,
            };
            at_most(settings.min_side_price, ask) && at_most(ask, settings.max_side_price)
        },
{
}

/// A lock is bought only where the other side is held and a pair then costs no
/// more than is accepted.
pub proof fn law_lock_is_within_cost(
    settings: Settings,
    position: Position,
    up_ask: Binary64,
    down_ask: Binary64,
    up_size: Binary64,
    down_size: Binary64,
    trend: Trend,
    wave: WaveState,
)
    ensures
        ({
            let up = outlook(settings, position, Side::Up, up_ask, up_size);
            let down = outlook(settings, position, Side::Down, down_ask, down_size);
            decision(up, down, trend, wave) matches Decision::Buy { side, lock } ==> lock ==> {
                &&& less(zero(), position.shares(opposite(side)))
                &&& at_most(of_side(up, down, side).cost_per_pair, settings.cost_per_pair_max)
            }
        }),
{
}

/// Without a position the rising side is bought, so long as it has been bought
/// fewer than twice.
pub proof fn law_rising_side_is_bought_first(
    up: Outlook,
    down: Outlook,
    side: Side,
    wave: WaveState,
)
    requires
        equals(up.shares, zero()),
        equals(down.shares, zero()),
        of_side(up, down, side).price_ok,
    ensures
        decision(up, down, rising(side), wave) == (if wave.buys(side)
            < MAX_RISING_BUYS_NO_POSITION {
            Decision::Buy { side, lock: false }
        } else {
            Decision::Hold
        }),
{
}

/// Without a position and with no side rising, the side with the higher price
/// is bought where that price is within the limits, so long as that has been done
/// fewer than four times. The other side is never bought.
pub proof fn law_higher_side_is_bought_without_trend(
    up: Outlook,
    down: Outlook,
    trend: Trend,
    wave: WaveState,
)
    requires
        equals(up.shares, zero()),
        equals(down.shares, zero()),
        trend != Trend::UpRising,
        trend != Trend::DownRising,
    ensures
        ({
            let higher = if at_most(down.ask, up.ask) {
                Side::Up
            } else {
                Side::Down
            };
            decision(up, down, trend, wave) == (if wave.flat_buys_since_lock
                < MAX_FLAT_BUYS_NO_POSITION && of_side(up, down, higher).price_ok {
                Decision::Buy { side: higher, lock: false }
            } else {
                Decision::Hold
            })
        }),
{
}

/// While only one side is held, a lock with the other side comes before all
/// else.
pub proof fn law_lock_comes_first(
    up: Outlook,
    down: Outlook,
    held: Side,
    trend: Trend,
    wave: WaveState,
)
    requires
        less(zero(), of_side(up, down, held).shares),
        equals(of_side(up, down, opposite(held)).shares, zero()),
        of_side(up, down, opposite(held)).can_lock,
        of_side(up, down, opposite(held)).price_ok,
    ensures
        decision(up, down, trend, wave) == (Decision::Buy { side: opposite(held), lock: true }),
{
}

/// While only one side is held and the other cannot be locked, the other is
/// opened when it rises and its outcome is the worse one.
pub proof fn law_rising_worse_side_is_opened(
    up: Outlook,
    down: Outlook,
    held: Side,
    wave: WaveState,
)
    requires
        less(zero(), of_side(up, down, held).shares),
        equals(of_side(up, down, opposite(held)).shares, zero()),
        !of_side(up, down, opposite(held)).can_lock,
        of_side(up, down, opposite(held)).price_ok,
        less(
            of_side(up, down, opposite(held)).pnl_if_wins,
            of_side(up, down, held).pnl_if_wins,
        ),
        wave.buys(opposite(held)) < MAX_REBALANCE_BUYS,
    ensures
        decision(up, down, rising(opposite(held)), wave) == (Decision::Buy {
            side: opposite(held),
            lock: false,
        }),
{
}

/// While both sides are held and the prices do not move, nothing but a lock is
/// bought.
pub proof fn law_no_move_only_locks(up: Outlook, down: Outlook, wave: WaveState)
    requires
        less(zero(), up.shares),
        less(zero(), down.shares),
    ensures
        decision(up, down, Trend::Flat, wave) matches Decision::Buy { side, lock } ==> lock,
{
}

/// The counts keep to their limits, and a lock starts them anew.
pub proof fn law_counts_keep_to_limits(
    wave: WaveState,
    side: Side,
    lock: bool,
    trend: Trend,
    no_position: bool,
)
    requires
        wave.wf(),
    ensures
        wave_after(wave, side, lock, trend, no_position).wf(),
        lock ==> wave_after(wave, side, lock, trend, no_position) == WaveState::start(),
        !lock ==> wave_after(wave, side, lock, trend, no_position).buys(opposite(side))
            == wave.buys(opposite(side)),
{
}

/// A run of prices keeps the newest ones, the last of them at its end.
pub proof fn law_history_keeps_newest(history: Seq<Tick>, tick: Tick)
    requires
        history.len() <= PRICE_HISTORY_LEN,
    ensures
        history_after(history, tick).len() == if history.len() < PRICE_HISTORY_LEN {
            history.len() + 1
        } else {
            history.len()
        },
        history_after(history, tick).last() == tick,
        forall|i: int|
            0 <= i < history_after(history, tick).len() - 1 ==> history_after(history, tick)[i]
                == history[i + history.len() + 1 - history_after(history, tick).len()],
{
}

/// Fewer than four prices make no trend.
pub proof fn law_few_prices_make_no_trend(history: Seq<Tick>)
    requires
        history.len() < 4,
    ensures
        trend_of(history) == Trend::Flat,
{
}

/// Prices that end where they began make no trend.
pub proof fn law_same_prices_make_no_trend(history: Seq<Tick>)
    requires
        history.len() > 0,
        history[0].up.is_finite(),
        history[0].down.is_finite(),
        history.last().up == history[0].up,
        history.last().down == history[0].down,
    ensures
        trend_of(history) == Trend::Flat,
{
    lemma_no_difference(history[0].up);
    lemma_no_difference(history[0].down);
    lemma_threshold();
}

/// A trend is a move of the threshold at least: the side that is said to rise
/// has risen by that, and the side that is said to fall has fallen by that.
pub proof fn law_trend_is_a_move(history: Seq<Tick>)
    ensures
        ({
            let up = difference(history.last().up, history[0].up);
            let down = difference(history.last().down, history[0].down);
            match trend_of(history) {
                Trend::UpRising => at_most(trend_threshold(), up) && at_most(down, up),
                Trend::DownRising => at_most(trend_threshold(), down) && at_most(up, down),
                Trend::DownFalling => at_most(down, negation(trend_threshold())) && at_most(
                    down,
                    up,
                ),
                Trend::UpFalling => at_most(up, negation(trend_threshold())) && at_most(up, down),
                Trend::Flat => true,
            }
        }),
{
}

/// A finite number less itself is zero.
proof fn lemma_no_difference(a: Binary64)
    requires
        a.is_finite(),
    ensures
        !difference(a, a).is_nan(),
        difference(a, a).value() == 0,
{
    lemma_with_sign(!a.negative(), a.magnitude());
    lemma_with_sign(false, 0);
    lemma_within(a);
}

/// The threshold is above zero.
proof fn lemma_threshold()
    ensures
        trend_threshold().value() > 0,
        negation(trend_threshold()).value() < 0,
{
    let t = nearest_magnitude(5 * unit(), 1000);
    let half = Binary64 { bits: 0x3f70_0000_0000_0000 };
    lemma_unit();
    lemma_nearest(false, 5 * unit(), 1000);
    lemma_whole(1);
    // A positive number that is not above the threshold: 2^-8.
    lemma_fundamental_div_mod_converse(half.magnitude(), BINADE as int, 1015, 0);
    lemma_pow2_constants();
    lemma_pow2_adds(52, 1014);
    lemma_pow2_adds(8, 1066);
    lemma2_to64();
    assert(half.size() == pow2(1066));
    law_nearest_is_exact(half);
    law_nearest_increases(half.size(), 1, 5 * unit(), 1000);
    lemma_with_sign(false, t);
    lemma_parts(t);
    lemma_with_sign(true, t);
}

proof fn lemma_min_order()
    ensures
        !min_order_notional().is_nan(),
        !min_order_notional().negative(),
{
    lemma_unit();
    lemma_nearest(false, 11 * unit(), 10);
}

/// An order is never below the least amount that the exchange takes.
pub proof fn law_order_amount_is_enough(settings: Settings, secs: u64)
    ensures
        at_most(min_order_notional(), base_amount(settings)),
        at_most(min_order_notional(), order_amount(settings, secs)),
{
    lemma_min_order();
    if let Some(v) = settings.order_amount_usdc {
        law_maximum_bounds(v, min_order_notional());
    }
    let part = product(base_amount(settings), amount_part(settings, secs));
    let amount = quotient(rounded(product(part, whole(100))), whole(100));
    law_maximum_bounds(
        maximum(amount, settings.size_min_amount_usdc),
        min_order_notional(),
    );
}

/// Before the end of the market is near the whole amount is ordered.
pub proof fn law_whole_amount_before_end(settings: Settings, secs: u64)
    requires
        secs >= settings.size_reduce_after_secs,
    ensures
        order_amount(settings, secs) == base_amount(settings),
{
}

/// The nearer the end of the market, the smaller the order: once amounts are
/// reduced, with less time left no more is ordered.
pub proof fn law_reduced_amount_shrinks(settings: Settings, secs: u64, more_secs: u64)
    requires
        secs <= more_secs < settings.size_reduce_after_secs,
        settings.size_min_ratio.is_finite(),
        at_most(settings.size_min_ratio, whole(1)),
        settings.order_amount_usdc matches Some(v) ==> v.is_finite(),
    ensures
        at_most(order_amount(settings, secs), order_amount(settings, more_secs)),
{
    let window = whole(settings.size_reduce_after_secs as int);
    lemma_whole(settings.size_reduce_after_secs);
    lemma_whole(secs);
    lemma_whole(more_secs);
    lemma_whole(100);
    law_whole_increases(secs as int, more_secs as int);
    // The part of the time that is left.
    let q1 = quotient(whole(secs as int), window);
    let q2 = quotient(whole(more_secs as int), window);
    law_quotient_increases(whole(secs as int), whole(more_secs as int), window);
    // The part of the amount that is ordered.
    let rest = difference(whole(1), settings.size_min_ratio);
    lemma_rest_of_one(settings.size_min_ratio);
    lemma_quotient_of_wholes(secs, settings.size_reduce_after_secs);
    lemma_quotient_of_wholes(more_secs, settings.size_reduce_after_secs);
    lemma_product_is_number(rest, q1);
    lemma_product_is_number(rest, q2);
    law_product_increases(rest, q1, q2);
    let p1 = product(rest, q1);
    let p2 = product(rest, q2);
    lemma_sum_is_number(settings.size_min_ratio, p1);
    lemma_sum_is_number(settings.size_min_ratio, p2);
    law_sum_increases(settings.size_min_ratio, p1, p2);
    let a1 = amount_part(settings, secs);
    let a2 = amount_part(settings, more_secs);
    // The amount, in cents.
    let base = base_amount(settings);
    lemma_base_is_amount(settings);
    lemma_product_with_positive(base, a1);
    lemma_product_with_positive(base, a2);
    law_product_increases(base, a1, a2);
    let x1 = product(base, a1);
    let x2 = product(base, a2);
    lemma_product_with_positive(whole(100), x1);
    lemma_product_with_positive(whole(100), x2);
    law_product_commutes(x1, whole(100));
    law_product_commutes(x2, whole(100));
    law_product_increases(whole(100), x1, x2);
    law_rounded_increases(product(x1, whole(100)), product(x2, whole(100)));
    let r1 = rounded(product(x1, whole(100)));
    let r2 = rounded(product(x2, whole(100)));
    law_quotient_increases(r1, r2, whole(100));
    let m1 = quotient(r1, whole(100));
    let m2 = quotient(r2, whole(100));
    law_maximum_increases(m1, m2, settings.size_min_amount_usdc);
    law_maximum_increases(
        maximum(m1, settings.size_min_amount_usdc),
        maximum(m2, settings.size_min_amount_usdc),
        min_order_notional(),
    );
}

/// The quotient of two whole numbers, the first not the larger, is at most 1.
pub proof fn lemma_quotient_of_wholes(n: u64, d: u64)
    requires
        n <= d,
        d > 0,
    ensures
        quotient(whole(n as int), whole(d as int)).is_finite(),
        at_most(quotient(whole(n as int), whole(d as int)), whole(1)),
{
    let a = whole(n as int);
    let b = whole(d as int);
    lemma_whole(n);
    lemma_whole(d);
    lemma_unit();
    lemma_within(a);
    lemma_within(b);
    law_whole_increases(n as int, d as int);
    lemma_parts(b.magnitude());
    lemma_one();
    let x = a.size() * unit();
    assert(0 <= x && x * 1 <= (1 * unit()) * b.size()) by (nonlinear_arith)
        requires
            x == a.size() * unit(),
            0 <= a.size() <= b.size(),
            unit() > 0,
    ;
    lemma_nearest(false, x, b.size());
    lemma_nearest(false, 1 * unit(), 1);
    law_nearest_increases(x, b.size(), 1 * unit(), 1);
    lemma_with_sign(false, nearest_magnitude(x, b.size()));
    lemma_with_sign(false, nearest_magnitude(1 * unit(), 1));
    let m = nearest_magnitude(x, b.size());
    if m < nearest_magnitude(1 * unit(), 1) {
        lemma_scaled_increases(m, nearest_magnitude(1 * unit(), 1));
    }
}

/// The product of two finite numbers is a number.
pub proof fn lemma_product_is_number(a: Binary64, b: Binary64)
    requires
        a.is_finite(),
        b.is_finite(),
    ensures
        !product(a, b).is_nan(),
{
    lemma_unit();
    lemma_within(a);
    lemma_within(b);
    assert(a.size() * b.size() >= 0) by (nonlinear_arith)
        requires
            a.size() >= 0,
            b.size() >= 0,
    ;
    lemma_nearest(a.negative() != b.negative(), a.size() * b.size(), unit());
}

/// The product of a positive finite number and a number is a number.
pub proof fn lemma_product_with_positive(a: Binary64, b: Binary64)
    requires
        a.is_finite(),
        a.magnitude() > 0,
        !b.is_nan(),
    ensures
        !product(a, b).is_nan(),
{
    if b.is_finite() {
        lemma_product_is_number(a, b);
    } else {
        lemma_with_sign(a.negative() != b.negative(), INFINITE as int);
    }
}

/// The sum of a finite number and a number is a number.
pub proof fn lemma_sum_is_number(a: Binary64, b: Binary64)
    requires
        a.is_finite(),
        !b.is_nan(),
    ensures
        !sum(a, b).is_nan(),
{
    let v = a.value() + b.value();
    if b.is_finite() {
        lemma_nearest(v < 0, abs(v), 1);
        lemma_with_sign(a.negative() && b.negative(), 0);
    }
}

/// The whole amount of an order is a positive finite number.
pub proof fn lemma_base_is_amount(settings: Settings)
    requires
        settings.order_amount_usdc matches Some(v) ==> v.is_finite(),
    ensures
        base_amount(settings).is_finite(),
        base_amount(settings).magnitude() > 0,
        !base_amount(settings).negative(),
{
    lemma_zero();
    lemma_unit();
    lemma_whole(1);
    lemma_whole(2);
    let least = nearest_magnitude(11 * unit(), 10);
    lemma_nearest(false, 11 * unit(), 10);
    lemma_nearest(false, 1 * unit(), 1);
    lemma_nearest(false, 2 * unit(), 1);
    law_nearest_increases(1 * unit(), 1, 11 * unit(), 10);
    law_nearest_increases(11 * unit(), 10, 2 * unit(), 1);
    lemma_with_sign(false, least);
    lemma_with_sign(false, nearest_magnitude(1 * unit(), 1));
    lemma_with_sign(false, nearest_magnitude(2 * unit(), 1));
    if let Some(v) = settings.order_amount_usdc {
        lemma_within(v);
        lemma_parts(v.magnitude());
    }
}

} // verus!
