//! What holds of amounts and sizes of orders, and of what is recorded of them.
use crate::binary64::{
    abs, at_most, difference, floored, law_nearest_is_exact, law_product_commutes, law_zero_plus,
    lemma_parts, lemma_pow2_constants, lemma_zero, less, maximum, nearest, nearest_magnitude,
    product, quotient, ratio, rounded, scaled, sum, unit, whole, Binary64, BINADE, INFINITE,
    SIGNIFICANDS,
};
use crate::binary64_laws::{
    law_floor_is_exact, law_nearest_increases, law_nearest_of_same_fraction, law_parts_make_one,
    law_product_increases, law_quotient_increases, law_round_is_close, law_rounded_increases,
    law_rounding_is_close, law_sum_increases, law_times_one, lemma_exact, lemma_hundred,
    lemma_nearest, lemma_one, lemma_rest_of_one, lemma_unit, lemma_whole, lemma_with_sign,
    lemma_within,
};
use crate::strategy::{
    amount_part, base_amount, order_amount, order_size, zero, Position, Settings, Side,
};
use crate::strategy_laws::{
    law_order_amount_is_enough, law_reduced_amount_shrinks, lemma_base_is_amount,
    lemma_product_is_number, lemma_product_with_positive, lemma_quotient_of_wholes,
    lemma_sum_is_number,
};
use crate::trader::ordered_shares;
use vstd::arithmetic::power2::{lemma_pow2_adds, lemma_pow2_pos, pow2};
use vstd::prelude::*;

verus! {

/// `2^51`: three roundings together are off by less than one part in it.
pub const CLOSE: u64 = 0x8_0000_0000_0000;

/// The shares of an order cost no more than its amount, up to rounding.
pub open spec fn within_amount(size: Binary64, ask: Binary64, amount: Binary64) -> bool {
    size.size() * ask.size() * CLOSE <= amount.size() * unit() * (CLOSE + 1)
}

/// A hundredth of a share more would cost more than the amount, up to rounding.
pub open spec fn uses_amount(size: Binary64, ask: Binary64, amount: Binary64) -> bool {
    100 * (amount.size() * unit()) * (CLOSE - 1) < (100 * size.size() + unit()) * ask.size() * CLOSE
}

/// `unit` is large.
pub proof fn lemma_unit_is_large()
    ensures
        unit() >= 1000 * SIGNIFICANDS,
{
    lemma_pow2_constants();
    lemma_pow2_adds(53, 1021);
    lemma_pow2_adds(10, 1011);
    lemma_pow2_pos(1011);
    vstd::arithmetic::power2::lemma2_to64();
    assert(pow2(1021) >= 1024) by (nonlinear_arith)
        requires
            pow2(1021) == 1024 * pow2(1011),
            pow2(1011) >= 1,
    ;
    assert(unit() >= 1000 * SIGNIFICANDS) by (nonlinear_arith)
        requires
            unit() == SIGNIFICANDS * pow2(1021),
            pow2(1021) >= 1024,
    ;
}

/// A finite result is the rounded one, not an infinity.
pub proof fn lemma_finite(negative: bool, n: int, d: int)
    requires
        n >= 0,
        d > 0,
        nearest(negative, n, d).is_finite(),
    ensures
        nearest_magnitude(n, d) < INFINITE,
        nearest(negative, n, d).size() == scaled(nearest_magnitude(n, d)),
        nearest(negative, n, d).negative() == negative,
{
    lemma_nearest(negative, n, d);
    lemma_with_sign(negative, nearest_magnitude(n, d));
}

proof fn lemma_three_roundings_up(e: int, t: int)
    requires
        t >= 1,
        e == 4 * t,
    ensures
        (e + 1) * (e + 1) * (e + 1) * t <= e * e * e * (t + 1),
{
    assert((e + 1) * (e + 1) * (e + 1) * t <= e * e * e * (t + 1)) by (nonlinear_arith)
        requires
            t >= 1,
            e == 4 * t,
    {
        let c = t * t * t;
        assert((e + 1) * (e + 1) == 16 * (t * t) + 8 * t + 1);
        assert((16 * (t * t) + 8 * t + 1) * (e + 1) == 64 * c + 48 * (t * t) + 12 * t + 1);
        assert((64 * c + 48 * (t * t) + 12 * t + 1) * t == 64 * (c * t) + 48 * c + 12 * (t * t)
            + t);
        assert(e * e * e == 64 * c);
        assert(64 * c * (t + 1) == 64 * (c * t) + 64 * c);
        assert(t * t >= t);
        assert(c >= t * t);
    }
}

proof fn lemma_three_roundings_down(e: int, t: int)
    requires
        t >= 1,
        e == 4 * t,
    ensures
        (e - 1) * (e - 1) * (e - 1) * t >= e * e * e * (t - 1),
{
    assert((e - 1) * (e - 1) * (e - 1) * t >= e * e * e * (t - 1)) by (nonlinear_arith)
        requires
            t >= 1,
            e == 4 * t,
    {
        let c = t * t * t;
        assert((e - 1) * (e - 1) == 16 * (t * t) - 8 * t + 1);
        assert((16 * (t * t) - 8 * t + 1) * (e - 1) == 64 * c - 48 * (t * t) + 12 * t - 1);
        assert((64 * c - 48 * (t * t) + 12 * t - 1) * t == 64 * (c * t) - 48 * c + 12 * (t * t)
            - t);
        assert(e * e * e == 64 * c);
        assert(64 * c * (t - 1) == 64 * (c * t) - 64 * c);
        assert(t * t >= t);
        assert(c >= 0);
    }
}

pub proof fn lemma_abs_scales(x: int, u: int)
    requires
        u > 0,
    ensures
        abs(x * u) == abs(x) * u,
{
    assert((-x) * u == -(x * u)) by (nonlinear_arith);
    assert(x >= 0 ==> x * u >= 0) by (nonlinear_arith)
        requires
            u > 0,
    ;
    assert(x < 0 ==> x * u < 0) by (nonlinear_arith)
        requires
            u > 0,
    ;
}

/// `e` times a distance bounds both differences.
proof fn lemma_abs_bounds(x: int, y: int, e: int, b: int)
    requires
        e >= 0,
        e * abs(x - y) <= b,
    ensures
        e * (x - y) <= b,
        e * (y - x) <= b,
{
    assert(e * (x - y) <= e * abs(x - y) && e * (y - x) <= e * abs(x - y)) by (nonlinear_arith)
        requires
            e >= 0,
            x - y <= abs(x - y),
            y - x <= abs(x - y),
    ;
}

/// What is off by one part in `e` lies between these.
proof fn lemma_close(x: int, y: int, e: int)
    requires
        e >= 0,
        e * abs(x - y) <= y,
    ensures
        e * x <= (e + 1) * y,
        e * x >= (e - 1) * y,
{
    lemma_abs_bounds(x, y, e, y);
    assert(e * (x - y) == e * x - e * y) by (nonlinear_arith);
    assert(e * (y - x) == e * y - e * x) by (nonlinear_arith);
    assert((e + 1) * y == e * y + y) by (nonlinear_arith);
    assert((e - 1) * y == e * y - y) by (nonlinear_arith);
}

/// The chain of three roundings from an amount to a size, upwards.
proof fn lemma_chain_up(au: int, k: int, q: int, x: int, f: int, s: int, e: int, t: int)
    requires
        t >= 1,
        e == 4 * t,
        au >= 0,
        k >= 0,
        e * (q * k) <= (e + 1) * au,
        e * x <= (e + 1) * (100 * q),
        f <= x,
        e * (100 * s) <= (e + 1) * f,
    ensures
        s * k * t <= au * (t + 1),
{
    lemma_three_roundings_up(e, t);
    let g = e + 1;
    // 100 s e <= g f <= g x, and so on.
    assert(e * (100 * s) <= g * x) by (nonlinear_arith)
        requires
            e * (100 * s) <= g * f,
            f <= x,
            g >= 0,
    ;
    assert(e * e * (100 * s) <= g * g * (100 * q)) by (nonlinear_arith)
        requires
            e * (100 * s) <= g * x,
            e * x <= g * (100 * q),
            e >= 0,
            g >= 0,
    {
        assert(e * (e * (100 * s)) <= e * (g * x));
        assert(e * (g * x) == g * (e * x));
        assert(g * (e * x) <= g * (g * (100 * q)));
    }
    assert(e * e * s <= g * g * q) by (nonlinear_arith)
        requires
            e * e * (100 * s) <= g * g * (100 * q),
    ;
    assert(e * e * e * (s * k) <= g * g * g * au) by (nonlinear_arith)
        requires
            e * e * s <= g * g * q,
            e * (q * k) <= g * au,
            e >= 0,
            g >= 0,
            k >= 0,
    {
        assert((e * e * s) * (e * k) <= (g * g * q) * (e * k));
        assert((e * e * s) * (e * k) == e * e * e * (s * k));
        assert((g * g * q) * (e * k) == (g * g) * (e * (q * k)));
        assert((g * g) * (e * (q * k)) <= (g * g) * (g * au));
        assert((g * g) * (g * au) == g * g * g * au);
    }
    let c = e * e * e;
    assert(c > 0) by (nonlinear_arith)
        requires
            c == e * e * e,
            e > 0,
    ;
    assert(c * (s * k * t) <= c * (au * (t + 1))) by (nonlinear_arith)
        requires
            c * (s * k) <= g * g * g * au,
            g * g * g * t <= c * (t + 1),
            t >= 1,
            au >= 0,
    {
        assert(c * (s * k) * t <= g * g * g * au * t);
        assert(g * g * g * au * t == (g * g * g * t) * au);
        assert((g * g * g * t) * au <= (c * (t + 1)) * au);
    }
    assert(s * k * t <= au * (t + 1)) by (nonlinear_arith)
        requires
            c * (s * k * t) <= c * (au * (t + 1)),
            c > 0,
    ;
}

/// The chain of three roundings from an amount to a size, downwards.
proof fn lemma_chain_down(
    au: int,
    k: int,
    q: int,
    x: int,
    f: int,
    s: int,
    u: int,
    e: int,
    t: int,
)
    requires
        t >= 1,
        e == 4 * t,
        au >= 0,
        k > 0,
        u > 0,
        e * (q * k) >= (e - 1) * au,
        e * x >= (e - 1) * (100 * q),
        x < f + u,
        e * (100 * s) >= (e - 1) * f,
    ensures
        100 * au * (t - 1) < (100 * s + u) * k * t,
{
    lemma_three_roundings_down(e, t);
    let g = e - 1;
    let w = 100 * s + u;
    assert(e * w > g * x) by (nonlinear_arith)
        requires
            e * (100 * s) >= g * f,
            x < f + u,
            g > 0,
            e == g + 1,
            u > 0,
            w == 100 * s + u,
    {
        assert(e * w == e * (100 * s) + e * u);
        assert(g * (f + u) == g * f + g * u);
        assert(g * x < g * (f + u));
        assert(g * u < e * u);
    }
    assert(e * e * w > g * g * (100 * q)) by (nonlinear_arith)
        requires
            e * w > g * x,
            e * x >= g * (100 * q),
            e > 0,
            g > 0,
    {
        assert(e * (e * w) > e * (g * x));
        assert(e * (g * x) == g * (e * x));
        assert(g * (e * x) >= g * (g * (100 * q)));
    }
    assert(e * e * e * (w * k) > g * g * g * (100 * au)) by (nonlinear_arith)
        requires
            e * e * w > g * g * (100 * q),
            e * (q * k) >= g * au,
            e > 0,
            g > 0,
            k > 0,
    {
        assert(e * k > 0);
        assert((e * e * w) * (e * k) > (g * g * (100 * q)) * (e * k));
        assert((e * e * w) * (e * k) == e * e * e * (w * k));
        assert((g * g * (100 * q)) * (e * k) == (100 * (g * g)) * (e * (q * k)));
        assert((100 * (g * g)) * (e * (q * k)) >= (100 * (g * g)) * (g * au));
        assert((100 * (g * g)) * (g * au) == g * g * g * (100 * au));
    }
    let c = e * e * e;
    assert(c > 0) by (nonlinear_arith)
        requires
            c == e * e * e,
            e > 0,
    ;
    assert(c * (100 * au * (t - 1)) < c * (w * k * t)) by (nonlinear_arith)
        requires
            c * (w * k) > g * g * g * (100 * au),
            g * g * g * t >= c * (t - 1),
            t >= 1,
            au >= 0,
    {
        assert(c * (w * k) * t > g * g * g * (100 * au) * t);
        assert(g * g * g * (100 * au) * t == (g * g * g * t) * (100 * au));
        assert((g * g * g * t) * (100 * au) >= (c * (t - 1)) * (100 * au));
    }
    assert(100 * au * (t - 1) < w * k * t) by (nonlinear_arith)
        requires
            c * (100 * au * (t - 1)) < c * (w * k * t),
            c > 0,
    ;
}

/// An order that is made spends its amount: its shares are whole hundredths, cost
/// no more than the amount, and one hundredth more would cost more, up to the
/// rounding of the three operations that the size is computed with.
pub proof fn law_order_size_spends_amount(amount: Binary64, ask: Binary64)
    requires
        less(zero(), amount),
        less(zero(), ask),
        ask.is_finite(),
        order_size(amount, ask).is_finite(),
        less(zero(), order_size(amount, ask)),
    ensures
        within_amount(order_size(amount, ask), ask, amount),
        uses_amount(order_size(amount, ask), ask, amount),
        exists|cents: int| cents > 0 && order_size(amount, ask) == #[trigger] ratio(cents, 100),
{
    let u = unit();
    let e = SIGNIFICANDS as int;
    let t = CLOSE as int;
    let a = amount.size();
    let k = ask.size();
    let h = whole(100);
    lemma_unit();
    lemma_unit_is_large();
    lemma_hundred();
    lemma_zero();
    lemma_within(amount);
    lemma_within(ask);
    lemma_parts(ask.magnitude());
    lemma_parts(amount.magnitude());
    let q = quotient(amount, ask);
    let x = product(q, h);
    let f = floored(x);
    let s = order_size(amount, ask);
    // Every step is finite, since the last one is.
    lemma_with_sign(false, INFINITE as int);
    let au = a * u;
    assert(au >= 0) by (nonlinear_arith)
        requires
            au == a * u,
            a >= 0,
            u > 0,
    ;
    lemma_nearest(false, au, k);
    lemma_with_sign(false, nearest_magnitude(au, k));
    assert(!q.is_nan() && !q.negative());
    assert(amount.is_infinite() ==> q.is_infinite());
    assert(q.is_infinite() ==> x.is_infinite());
    assert(x.is_infinite() ==> f.is_infinite());
    assert(f.is_infinite() ==> s.is_infinite());
    lemma_finite(false, au, k);
    lemma_within(q);
    let qh = q.size() * h.size();
    assert(qh == 100 * q.size() * u && qh >= 0) by (nonlinear_arith)
        requires
            qh == q.size() * h.size(),
            h.size() == 100 * u,
            q.size() >= 0,
            u > 0,
    ;
    lemma_nearest(false, qh, u);
    lemma_with_sign(false, nearest_magnitude(qh, u));
    assert(x.is_finite() && !x.negative());
    lemma_finite(false, qh, u);
    lemma_within(x);
    law_floor_is_exact(x);
    lemma_within(f);
    let fu = f.size() * u;
    assert(fu >= 0) by (nonlinear_arith)
        requires
            fu == f.size() * u,
            f.size() >= 0,
            u > 0,
    ;
    lemma_nearest(false, fu, h.size());
    lemma_finite(false, fu, h.size());
    // Something is ordered, so there is a whole share among the hundred-fold.
    let m = x.size() / u;
    if m <= 0 {
        assert(m * u <= 0) by (nonlinear_arith)
            requires
                m <= 0,
                u > 0,
        ;
        assert(fu == 0) by (nonlinear_arith)
            requires
                fu == f.size() * u,
                f.size() == 0,
        ;
    }
    assert(m >= 1);
    assert(f.size() >= u) by (nonlinear_arith)
        requires
            f.size() == m * u,
            m >= 1,
            u > 0,
    ;
    // None of the results is among the smallest numbers.
    law_rounding_is_close(qh, u);
    let q100 = 100 * q.size();
    assert(x.size() * u - qh == (x.size() - q100) * u) by (nonlinear_arith)
        requires
            qh == q100 * u,
    ;
    lemma_abs_bounds(x.size() * u, qh, e, qh + BINADE * u);
    assert(e * (x.size() - q100) <= q100 + BINADE) by (nonlinear_arith)
        requires
            e * (x.size() * u - qh) <= qh + BINADE * u,
            x.size() * u - qh == (x.size() - q100) * u,
            qh == q100 * u,
            u > 0,
    {
        assert(e * ((x.size() - q100) * u) == (e * (x.size() - q100)) * u);
        assert(qh + BINADE * u == (q100 + BINADE) * u);
    }
    assert(q100 >= BINADE);
    assert(qh >= BINADE * u) by (nonlinear_arith)
        requires
            qh == q100 * u,
            q100 >= BINADE,
            u > 0,
    ;
    lemma_abs_scales(x.size() - q100, u);
    assert(e * abs(x.size() - q100) <= q100) by (nonlinear_arith)
        requires
            e * abs(x.size() * u - qh) <= qh,
            abs(x.size() * u - qh) == abs(x.size() - q100) * u,
            qh == q100 * u,
            u > 0,
    {
        assert(e * (abs(x.size() - q100) * u) == (e * abs(x.size() - q100)) * u);
    }
    law_rounding_is_close(au, k);
    lemma_abs_bounds(q.size() * k, au, e, au + BINADE * k);
    if au < BINADE * k {
        assert(q.size() < BINADE + 2) by (nonlinear_arith)
            requires
                e * (q.size() * k - au) <= au + BINADE * k,
                au < BINADE * k,
                k > 0,
                e == 2 * BINADE,
        {
            assert(e * (q.size() * k) <= e * au + au + BINADE * k);
            assert(e * au < e * (BINADE * k));
            assert(e * (q.size() * k) < e * (BINADE * k) + e * k);
            assert(e * (q.size() * k) < e * ((BINADE + 1) * k));
        }
        assert(false);
    }
    law_rounding_is_close(fu, h.size());
    let s100 = 100 * s.size();
    assert(s.size() * h.size() == s100 * u) by (nonlinear_arith)
        requires
            h.size() == 100 * u,
            s100 == 100 * s.size(),
    ;
    assert(fu >= BINADE * h.size()) by (nonlinear_arith)
        requires
            fu == f.size() * u,
            h.size() == 100 * u,
            f.size() >= 100 * BINADE,
            u > 0,
    ;
    assert(s100 * u - fu == (s100 - f.size()) * u) by (nonlinear_arith)
        requires
            fu == f.size() * u,
    ;
    lemma_abs_scales(s100 - f.size(), u);
    assert(e * abs(s100 - f.size()) <= f.size()) by (nonlinear_arith)
        requires
            e * abs(s100 * u - fu) <= fu,
            abs(s100 * u - fu) == abs(s100 - f.size()) * u,
            fu == f.size() * u,
            u > 0,
    {
        assert(e * (abs(s100 - f.size()) * u) == (e * abs(s100 - f.size())) * u);
    }
    lemma_close(q.size() * k, au, e);
    lemma_close(x.size(), q100, e);
    lemma_close(s100, f.size(), e);
    lemma_chain_up(au, k, q.size(), x.size(), f.size(), s.size(), e, t);
    lemma_chain_down(au, k, q.size(), x.size(), f.size(), s.size(), u, e, t);
    // Whole hundredths.
    assert(fu == (m * u) * u);
    law_nearest_of_same_fraction(m * u, 100, u);
    assert(abs(m) * u == m * u);
    assert(s == ratio(m, 100));
}

/// Of two numbers that are not negative, the sum is off by one part in `2^53`.
pub proof fn lemma_sum_close(a: Binary64, b: Binary64)
    requires
        !a.negative(),
        !b.negative(),
        a.is_finite(),
        b.is_finite(),
        sum(a, b).is_finite(),
    ensures
        !sum(a, b).negative(),
        SIGNIFICANDS * abs(sum(a, b).size() - (a.size() + b.size())) <= a.size() + b.size(),
{
    let v = a.size() + b.size();
    lemma_within(a);
    lemma_within(b);
    if v == 0 {
        lemma_with_sign(false, 0);
        lemma_parts(0);
    } else {
        lemma_finite(false, v, 1);
        law_rounding_is_close(v, 1);
        let off = abs(scaled(nearest_magnitude(v, 1)) - v);
        assert(SIGNIFICANDS * off <= v + BINADE);
        if v < BINADE {
            assert(off == 0);
        }
    }
}

/// A product of numbers that are not negative.
pub proof fn lemma_product_close(a: Binary64, b: Binary64)
    requires
        !a.negative(),
        !b.negative(),
        a.is_finite(),
        b.is_finite(),
        product(a, b).is_finite(),
    ensures
        !product(a, b).negative(),
        a.size() * b.size() >= 0,
        SIGNIFICANDS * abs(product(a, b).size() * unit() - a.size() * b.size()) <= a.size()
            * b.size() + BINADE * unit(),
{
    lemma_unit();
    lemma_within(a);
    lemma_within(b);
    let n = a.size() * b.size();
    assert(n >= 0) by (nonlinear_arith)
        requires
            n == a.size() * b.size(),
            a.size() >= 0,
            b.size() >= 0,
    ;
    lemma_finite(false, n, unit());
    law_rounding_is_close(n, unit());
}

/// How far the recorded cost can be off, from the four roundings it goes through.
proof fn lemma_cost_chain(
    na: int,
    sp: int,
    c: int,
    p: int,
    total: int,
    shares: int,
    avg_shares: int,
    u: int,
    b: int,
    e: int,
    t: int,
)
    requires
        t >= 1000,
        e == 4 * t,
        b == 2 * t,
        na >= 0,
        sp >= 0,
        c >= 0,
        p >= 0,
        u > 0,
        shares > 0,
        e * abs(c * u - na) <= na + b * u,
        e * abs(p * u - sp) <= sp + b * u,
        e * abs(total - (c + p)) <= c + p,
        e * abs(avg_shares - total * u) <= total * u + b * shares,
    ensures
        t * abs(avg_shares - (na + sp)) <= (na + sp) + b * (u + shares),
{
    let x = na + sp;
    let cu = c * u;
    let pu = p * u;
    let tu = total * u;
    lemma_abs_scales(total - (c + p), u);
    assert((total - (c + p)) * u == tu - (cu + pu)) by (nonlinear_arith)
        requires
            tu == total * u,
            cu == c * u,
            pu == p * u,
    ;
    assert(e * abs(tu - (cu + pu)) <= cu + pu) by (nonlinear_arith)
        requires
            e * abs(total - (c + p)) <= c + p,
            abs(tu - (cu + pu)) == abs(total - (c + p)) * u,
            cu == c * u,
            pu == p * u,
            u > 0,
    {
        assert(e * abs(total - (c + p)) * u <= (c + p) * u);
    }
    lemma_abs_bounds(cu, na, e, na + b * u);
    lemma_abs_bounds(pu, sp, e, sp + b * u);
    lemma_abs_bounds(tu, cu + pu, e, cu + pu);
    lemma_abs_bounds(avg_shares, tu, e, tu + b * shares);
    let bu = b * u;
    let bs = b * shares;
    let d1 = (cu + pu) - x;
    let d2 = tu - (cu + pu);
    let d3 = avg_shares - tu;
    assert(e * (cu - na) + e * (pu - sp) == e * d1) by (nonlinear_arith)
        requires
            d1 == (cu + pu) - (na + sp),
    ;
    assert(e * (na - cu) + e * (sp - pu) == e * (-d1)) by (nonlinear_arith)
        requires
            d1 == (cu + pu) - (na + sp),
    ;
    lemma_chain_sum(x, d1, d2, d3, bu, bs, u, e, t);
    assert(b * (u + shares) == bu + bs) by (nonlinear_arith)
        requires
            bu == b * u,
            bs == b * shares,
    ;
}

/// Three differences, each within its own part, together.
proof fn lemma_chain_sum(
    x: int,
    d1: int,
    d2: int,
    d3: int,
    bu: int,
    bs: int,
    u: int,
    e: int,
    t: int,
)
    requires
        t >= 1000,
        e == 4 * t,
        x >= 0,
        u > 0,
        bu == 2 * t * u,
        bs >= 0,
        e * d1 <= x + 2 * bu,
        e * (-d1) <= x + 2 * bu,
        e * d2 <= x + d1,
        e * (-d2) <= x + d1,
        e * d3 <= x + d1 + d2 + bs,
        e * (-d3) <= x + d1 + d2 + bs,
    ensures
        t * abs(d1 + d2 + d3) <= x + bu + bs,
{
    // d1 and d2 are small beside what they are part of.
    assert(bu == 2 * (t * u)) by (nonlinear_arith)
        requires
            bu == 2 * t * u,
    ;
    assert(t * u >= 1000 * u) by (nonlinear_arith)
        requires
            t >= 1000,
            u > 0,
    ;
    assert(e * d1 == 4 * (t * d1) && e * (-d1) == -4 * (t * d1)) by (nonlinear_arith)
        requires
            e == 4 * t,
    ;
    assert(e * d2 == 4 * (t * d2) && e * (-d2) == -4 * (t * d2)) by (nonlinear_arith)
        requires
            e == 4 * t,
    ;
    assert(e * d3 == 4 * (t * d3) && e * (-d3) == -4 * (t * d3)) by (nonlinear_arith)
        requires
            e == 4 * t,
    ;
    assert(4000 * d1 <= x + 2 * bu && -4000 * d1 <= x + 2 * bu) by (nonlinear_arith)
        requires
            t >= 1000,
            4 * (t * d1) <= x + 2 * bu,
            -4 * (t * d1) <= x + 2 * bu,
            x + 2 * bu >= 0,
    {
        if d1 >= 0 {
            assert(t * d1 >= 1000 * d1);
        } else {
            assert(t * (-d1) >= 1000 * (-d1));
        }
    }
    assert(4000 * d2 <= x + d1 && -4000 * d2 <= x + d1) by (nonlinear_arith)
        requires
            t >= 1000,
            4 * (t * d2) <= x + d1,
            -4 * (t * d2) <= x + d1,
    {
        if d2 >= 0 {
            assert(t * d2 >= 1000 * d2);
        } else {
            assert(t * (-d2) >= 1000 * (-d2));
        }
    }
    assert(t * (d1 + d2 + d3) == t * d1 + t * d2 + t * d3) by (nonlinear_arith);
    let d = d1 + d2 + d3;
    assert(t * (-d) == -(t * d)) by (nonlinear_arith);
}

/// The average of two prices, weighted, with the shares rounded too.
proof fn lemma_average_chain(
    v: int,
    lo: int,
    hi: int,
    x: int,
    shares: int,
    avg: int,
    slack: int,
    e: int,
    t: int,
    h: int,
)
    requires
        h >= 10,
        t == 2 * h,
        e == 4 * t,
        v >= 0,
        0 <= lo <= hi,
        v * lo <= x <= v * hi,
        shares > 0,
        slack >= 0,
        e * abs(shares - v) <= v,
        t * abs(avg * shares - x) <= x + slack,
    ensures
        (h - 1) * (lo * shares) <= h * (avg * shares) + slack,
        h * (avg * shares) <= (h + 1) * (hi * shares) + slack,
{
    let y = avg * shares;
    lemma_close(shares, v, e);
    lemma_abs_bounds(y, x, t, x + slack);
    assert(t * (y - x) == t * y - t * x && t * (x - y) == t * x - t * y) by (nonlinear_arith);
    assert((t - 1) * x == t * x - x && (t + 1) * x == t * x + x) by (nonlinear_arith);
    // Upwards and downwards: the shares stand for `v` up to one part in `e`.
    let ls = lo * shares;
    let hs = hi * shares;
    assert(e * ls <= (e + 1) * x) by (nonlinear_arith)
        requires
            e * shares <= (e + 1) * v,
            ls == lo * shares,
            v * lo <= x,
            lo >= 0,
            e >= 0,
    {
        assert((e * shares) * lo <= ((e + 1) * v) * lo);
        assert((e + 1) * (v * lo) <= (e + 1) * x);
    }
    assert(e * hs >= (e - 1) * x) by (nonlinear_arith)
        requires
            e * shares >= (e - 1) * v,
            hs == hi * shares,
            v * hi >= x,
            hi >= 0,
            e >= 1,
    {
        assert((e * shares) * hi >= ((e - 1) * v) * hi);
        assert((e - 1) * (v * hi) >= (e - 1) * x);
    }
    assert(v * lo >= 0) by (nonlinear_arith)
        requires
            v >= 0,
            lo >= 0,
    ;
    assert(ls >= 0) by (nonlinear_arith)
        requires
            ls == lo * shares,
            lo >= 0,
            shares > 0,
    ;
    assert(hs >= 0) by (nonlinear_arith)
        requires
            hs == hi * shares,
            hi >= 0,
            shares > 0,
    ;
    assert((t - 1) * x >= (t - 2) * ls) by (nonlinear_arith)
        requires
            e * ls <= (e + 1) * x,
            e == 4 * t,
            t >= 20,
            ls >= 0,
    {
        assert((t - 1) * ((e + 1) * x) >= (t - 1) * (e * ls));
        assert((t - 1) * e == 4 * (t * t) - 4 * t);
        assert((e + 1) * (t - 2) == 4 * (t * t) - 7 * t - 2);
        assert((t - 1) * (e * ls) == ((t - 1) * e) * ls);
        assert(((t - 1) * e) * ls >= ((e + 1) * (t - 2)) * ls);
        assert((e + 1) * ((t - 1) * x) >= (e + 1) * ((t - 2) * ls));
    }
    assert((t + 1) * x <= (t + 2) * hs) by (nonlinear_arith)
        requires
            e * hs >= (e - 1) * x,
            e == 4 * t,
            t >= 20,
            hs >= 0,
    {
        assert((t + 1) * ((e - 1) * x) <= (t + 1) * (e * hs));
        assert((t + 1) * e == 4 * (t * t) + 4 * t);
        assert((e - 1) * (t + 2) == 4 * (t * t) + 7 * t - 2);
        assert((t + 1) * (e * hs) == ((t + 1) * e) * hs);
        assert(((t + 1) * e) * hs <= ((e - 1) * (t + 2)) * hs);
        assert((e - 1) * ((t + 1) * x) <= (e - 1) * ((t + 2) * hs));
    }
    assert(t * y == 2 * (h * y) && (t - 2) * ls == 2 * ((h - 1) * ls) && (t + 2) * hs == 2 * ((h
        + 1) * hs)) by (nonlinear_arith)
        requires
            t == 2 * h,
    ;
}

/// What is recorded of a side adds up: after a purchase its shares times its
/// average price are what they were before and what the purchase cost, and the
/// average lies between the old one and the price, up to rounding. (The last terms
/// are half of the smallest number for each rounding.)
pub proof fn law_recorded_cost_adds_up(
    position: Position,
    side: Side,
    size: Binary64,
    price: Binary64,
)
    requires
        !position.shares(side).negative(),
        !position.avg_price(side).negative(),
        position.shares(side).is_finite(),
        position.avg_price(side).is_finite(),
        less(zero(), size),
        less(zero(), price),
        size.is_finite(),
        price.is_finite(),
        position.bought(side, size, price).shares(side).is_finite(),
        position.bought(side, size, price).avg_price(side).is_finite(),
    ensures
        ({
            let n = position.shares(side).size();
            let a = position.avg_price(side).size();
            let after = position.bought(side, size, price);
            let shares = after.shares(side).size();
            let avg = after.avg_price(side).size();
            let cost = n * a + size.size() * price.size();
            let slack = BINADE * (unit() + shares);
            let low = if n == 0 || price.size() < a {
                price.size()
            } else {
                a
            };
            let high = if n == 0 || price.size() > a {
                price.size()
            } else {
                a
            };
            &&& CLOSE * abs(avg * shares - cost) <= cost + slack
            &&& (CLOSE / 2 - 1) * (low * shares) <= (CLOSE / 2) * (avg * shares) + slack
            &&& (CLOSE / 2) * (avg * shares) <= (CLOSE / 2 + 1) * (high * shares) + slack
            &&& position.shares(side) == zero() ==> after.shares(side) == size
        }),
{
    let u = unit();
    let e = SIGNIFICANDS as int;
    let t = CLOSE as int;
    let b = BINADE as int;
    let held = position.shares(side);
    let average = position.avg_price(side);
    let n = held.size();
    let a = average.size();
    let after = position.bought(side, size, price);
    let all = after.shares(side);
    let avg = after.avg_price(side);
    let cost = position.cost(side);
    let paid = product(size, price);
    let total = sum(cost, paid);
    lemma_unit();
    lemma_zero();
    lemma_within(held);
    lemma_within(average);
    lemma_within(size);
    lemma_within(price);
    if held == zero() {
        law_zero_plus(size);
    }
    lemma_sum_close(held, size);
    lemma_within(all);
    // Something is held afterwards.
    let v = n + size.size();
    if all.size() == 0 {
        assert(abs(0 - v) == v);
        assert(e * v <= v) by (nonlinear_arith)
            requires
                e * abs(all.size() - v) <= v,
                abs(all.size() - v) == v,
        ;
        assert(false) by (nonlinear_arith)
            requires
                e * v <= v,
                e >= 2,
                v >= 1,
        ;
    }
    lemma_parts(all.magnitude());
    assert(less(zero(), all));
    assert(avg == quotient(total, all));
    // Every step is finite, since the last one is.
    lemma_with_sign(false, INFINITE as int);
    let na = n * a;
    let sp = size.size() * price.size();
    assert(na >= 0 && sp >= 0) by (nonlinear_arith)
        requires
            na == n * a,
            sp == size.size() * price.size(),
            n >= 0,
            a >= 0,
            size.size() >= 0,
            price.size() >= 0,
    ;
    lemma_nearest(false, na, u);
    lemma_nearest(false, sp, u);
    assert(!cost.is_nan() && !cost.negative() && !paid.is_nan() && !paid.negative());
    assert(cost.is_infinite() || paid.is_infinite() ==> total.is_infinite());
    if total.is_infinite() {
        assert(avg.is_infinite());
    }
    if total.is_nan() {
        lemma_within(cost);
        lemma_within(paid);
        lemma_nearest(false, cost.size() + paid.size(), 1);
        lemma_with_sign(false, 0);
    }
    assert(total.is_finite() && cost.is_finite() && paid.is_finite());
    lemma_product_close(held, average);
    lemma_product_close(size, price);
    lemma_sum_close(cost, paid);
    lemma_within(cost);
    lemma_within(paid);
    lemma_within(total);
    let tu = total.size() * u;
    assert(tu >= 0) by (nonlinear_arith)
        requires
            tu == total.size() * u,
            total.size() >= 0,
            u > 0,
    ;
    lemma_finite(false, tu, all.size());
    law_rounding_is_close(tu, all.size());
    lemma_cost_chain(
        na,
        sp,
        cost.size(),
        paid.size(),
        total.size(),
        all.size(),
        avg.size() * all.size(),
        u,
        b,
        e,
        t,
    );
    // The average.
    let x = na + sp;
    let low = if n == 0 || price.size() < a {
        price.size()
    } else {
        a
    };
    let high = if n == 0 || price.size() > a {
        price.size()
    } else {
        a
    };
    assert(v * low <= x <= v * high) by (nonlinear_arith)
        requires
            v == n + size.size(),
            x == n * a + size.size() * price.size(),
            n == 0 || (low <= a <= high),
            low <= price.size() <= high,
            n >= 0,
            size.size() >= 0,
    {
        assert(v * low == n * low + size.size() * low);
        assert(v * high == n * high + size.size() * high);
        assert(n == 0 || n * low <= n * a <= n * high);
        assert(size.size() * low <= size.size() * price.size() <= size.size() * high);
    }
    let slack = b * (u + all.size());
    assert(slack >= 0) by (nonlinear_arith)
        requires
            slack == b * (u + all.size()),
            b > 0,
            u > 0,
            all.size() > 0,
    ;
    lemma_average_chain(v, low, high, x, all.size(), avg.size(), slack, e, t, t / 2);
}

/// An amount rounded to cents.
pub open spec fn in_cents(amount: Binary64) -> Binary64 {
    quotient(rounded(product(amount, whole(100))), whole(100))
}

/// An amount rounded to cents is off by half a cent at most, but for the rounding
/// of the two operations around it.
pub proof fn law_cents_are_close(amount: Binary64)
    requires
        amount.is_finite(),
        at_most(whole(1), amount),
        in_cents(amount).is_finite(),
    ensures
        CLOSE * abs(100 * in_cents(amount).size() - 100 * amount.size()) <= (CLOSE / 2) * unit()
            + 100 * amount.size() + unit(),
{
    let u = unit();
    let e = SIGNIFICANDS as int;
    let t = CLOSE as int;
    let h = whole(100);
    let a = amount.size();
    lemma_unit();
    lemma_unit_is_large();
    lemma_hundred();
    lemma_one();
    lemma_within(amount);
    lemma_with_sign(false, INFINITE as int);
    let x = product(amount, h);
    let r = rounded(x);
    let c = in_cents(amount);
    let a100 = 100 * a;
    let n = a * h.size();
    assert(n == a100 * u && n >= BINADE * u) by (nonlinear_arith)
        requires
            n == a * h.size(),
            h.size() == 100 * u,
            a100 == 100 * a,
            a >= BINADE,
            u > 0,
    ;
    lemma_nearest(false, n, u);
    lemma_with_sign(false, nearest_magnitude(n, u));
    assert(x.is_infinite() ==> r.is_infinite());
    assert(r.is_infinite() ==> c.is_infinite());
    lemma_finite(false, n, u);
    law_rounding_is_close(n, u);
    lemma_abs_scales(x.size() - a100, u);
    assert(x.size() * u - n == (x.size() - a100) * u) by (nonlinear_arith)
        requires
            n == a100 * u,
    ;
    assert(e * abs(x.size() - a100) <= a100) by (nonlinear_arith)
        requires
            e * (abs(x.size() - a100) * u) <= a100 * u,
            u > 0,
    {
        assert((e * abs(x.size() - a100)) * u <= a100 * u);
    }
    lemma_close(x.size(), a100, e);
    law_round_is_close(x);
    lemma_within(r);
    let ru = r.size() * u;
    // What is rounded to cents is not among the smallest numbers.
    assert(x.size() >= 50 * a) by (nonlinear_arith)
        requires
            e * x.size() >= (e - 1) * (100 * a),
            e >= 2,
            a >= 0,
    {
        assert(2 * (e - 1) >= e);
        assert((e - 1) * (100 * a) >= e * (50 * a)) by (nonlinear_arith)
            requires
                2 * (e - 1) >= e,
                a >= 0,
        ;
        assert(e * x.size() >= e * (50 * a));
    }
    assert(r.size() >= 100 * BINADE);
    assert(ru >= BINADE * h.size() && ru >= 0) by (nonlinear_arith)
        requires
            ru == r.size() * u,
            h.size() == 100 * u,
            r.size() >= 100 * BINADE,
            u > 0,
    ;
    lemma_finite(false, ru, h.size());
    law_rounding_is_close(ru, h.size());
    let c100 = 100 * c.size();
    assert(c.size() * h.size() == c100 * u) by (nonlinear_arith)
        requires
            h.size() == 100 * u,
            c100 == 100 * c.size(),
    ;
    lemma_abs_scales(c100 - r.size(), u);
    assert(c100 * u - ru == (c100 - r.size()) * u) by (nonlinear_arith)
        requires
            ru == r.size() * u,
    ;
    assert(e * abs(c100 - r.size()) <= r.size()) by (nonlinear_arith)
        requires
            e * (abs(c100 - r.size()) * u) <= r.size() * u,
            u > 0,
    {
        assert((e * abs(c100 - r.size())) * u <= r.size() * u);
    }
    // Together.
    let d1 = abs(x.size() - a100);
    let d2 = abs(r.size() - x.size());
    let d3 = abs(c100 - r.size());
    assert(abs(c100 - a100) <= d1 + d2 + d3);
    assert(r.size() <= 2 * a100) by {
        assert(x.size() <= a100 + d1);
        assert(d1 <= a100 / 2) by (nonlinear_arith)
            requires
                e * d1 <= a100,
                e >= 2,
                d1 >= 0,
        ;
        assert(u <= a);
    }
    assert(t * abs(c100 - a100) <= (t / 2) * u + a100 + u) by (nonlinear_arith)
        requires
            abs(c100 - a100) <= d1 + d2 + d3,
            e * d1 <= a100,
            2 * d2 <= u,
            e * d3 <= 2 * a100,
            e == 4 * t,
            t == 2 * (t / 2),
            t > 0,
            a100 >= 0,
            u > 0,
    {
        assert(t * abs(c100 - a100) <= t * (d1 + d2 + d3));
        assert(t * (d1 + d2 + d3) == t * d1 + t * d2 + t * d3);
        assert(4 * (t * d1) <= a100);
        assert(4 * (t * d3) <= 2 * a100);
        assert(t * d2 == (t / 2) * (2 * d2));
        assert((t / 2) * (2 * d2) <= (t / 2) * u);
    }
}

/// The shares that are ordered for shares that were worked out: no further from them
/// than half a ten-thousandth of a share, up to rounding.
pub open spec fn orders_shares(ordered: Binary64, size: Binary64) -> bool {
    CLOSE * abs(10000 * ordered.size() - 10000 * size.size()) <= (CLOSE / 2) * unit() + 10000
        * size.size() + unit()
}

/// The number 10000.
proof fn lemma_ten_thousand()
    ensures
        whole(10000).is_finite(),
        !whole(10000).negative(),
        whole(10000).magnitude() > 0,
        whole(10000).size() == 10000 * unit(),
{
    lemma_unit();
    lemma_whole(10000);
    lemma_nearest(false, 10000 * unit(), 1);
    lemma_with_sign(false, nearest_magnitude(10000 * unit(), 1));
    lemma_exact(10000, 1074);
}

/// A number of hundredths above zero is not among the smallest numbers.
pub proof fn lemma_hundredths(cents: int)
    requires
        cents > 0,
        ratio(cents, 100).is_finite(),
    ensures
        !ratio(cents, 100).negative(),
        200 * ratio(cents, 100).size() >= unit(),
{
    let u = unit();
    let n = cents * u;
    lemma_unit();
    lemma_unit_is_large();
    assert(n >= u) by (nonlinear_arith)
        requires
            n == cents * u,
            cents >= 1,
            u > 0,
    ;
    lemma_finite(false, n, 100);
    law_rounding_is_close(n, 100);
    let c = ratio(cents, 100);
    lemma_within(c);
    lemma_close(c.size() * 100, n, SIGNIFICANDS as int);
    assert(2 * (c.size() * 100) >= n) by (nonlinear_arith)
        requires
            SIGNIFICANDS * (c.size() * 100) >= (SIGNIFICANDS - 1) * n,
            n >= 0,
    ;
}

/// The shares that are ordered are those that were worked out, to within half a
/// ten-thousandth, but for the rounding of the two operations around it.
pub proof fn law_ordered_shares_are_close(size: Binary64)
    requires
        size.is_finite(),
        !size.negative(),
        200 * size.size() >= unit(),
        ordered_shares(size).is_finite(),
    ensures
        !ordered_shares(size).negative(),
        orders_shares(ordered_shares(size), size),
{
    let u = unit();
    let e = SIGNIFICANDS as int;
    let t = CLOSE as int;
    let h = whole(10000);
    let a = size.size();
    lemma_unit();
    lemma_unit_is_large();
    lemma_ten_thousand();
    lemma_within(size);
    lemma_with_sign(false, INFINITE as int);
    let x = product(size, h);
    let r = rounded(x);
    let c = ordered_shares(size);
    let a1 = 10000 * a;
    let n = a * h.size();
    assert(n == a1 * u && n >= BINADE * u) by (nonlinear_arith)
        requires
            n == a * h.size(),
            h.size() == 10000 * u,
            a1 == 10000 * a,
            a >= BINADE,
            u > 0,
    ;
    lemma_nearest(false, n, u);
    lemma_with_sign(false, nearest_magnitude(n, u));
    assert(x.is_infinite() ==> r.is_infinite());
    assert(r.is_infinite() ==> c.is_infinite());
    lemma_finite(false, n, u);
    law_rounding_is_close(n, u);
    lemma_abs_scales(x.size() - a1, u);
    assert(x.size() * u - n == (x.size() - a1) * u) by (nonlinear_arith)
        requires
            n == a1 * u,
    ;
    assert(e * abs(x.size() - a1) <= a1) by (nonlinear_arith)
        requires
            e * (abs(x.size() - a1) * u) <= a1 * u,
            u > 0,
    {
        assert((e * abs(x.size() - a1)) * u <= a1 * u);
    }
    lemma_close(x.size(), a1, e);
    law_round_is_close(x);
    lemma_within(r);
    let ru = r.size() * u;
    // What is rounded is not among the smallest numbers.
    assert(x.size() >= 5000 * a) by (nonlinear_arith)
        requires
            e * x.size() >= (e - 1) * (10000 * a),
            e >= 2,
            a >= 0,
    {
        assert(2 * (e - 1) >= e);
        assert((e - 1) * (10000 * a) >= e * (5000 * a)) by (nonlinear_arith)
            requires
                2 * (e - 1) >= e,
                a >= 0,
        ;
        assert(e * x.size() >= e * (5000 * a));
    }
    assert(r.size() >= 10000 * BINADE);
    assert(ru >= BINADE * h.size() && ru >= 0) by (nonlinear_arith)
        requires
            ru == r.size() * u,
            h.size() == 10000 * u,
            r.size() >= 10000 * BINADE,
            u > 0,
    ;
    lemma_finite(false, ru, h.size());
    law_rounding_is_close(ru, h.size());
    let c1 = 10000 * c.size();
    assert(c.size() * h.size() == c1 * u) by (nonlinear_arith)
        requires
            h.size() == 10000 * u,
            c1 == 10000 * c.size(),
    ;
    lemma_abs_scales(c1 - r.size(), u);
    assert(c1 * u - ru == (c1 - r.size()) * u) by (nonlinear_arith)
        requires
            ru == r.size() * u,
    ;
    assert(e * abs(c1 - r.size()) <= r.size()) by (nonlinear_arith)
        requires
            e * (abs(c1 - r.size()) * u) <= r.size() * u,
            u > 0,
    {
        assert((e * abs(c1 - r.size())) * u <= r.size() * u);
    }
    let d1 = abs(x.size() - a1);
    let d2 = abs(r.size() - x.size());
    let d3 = abs(c1 - r.size());
    assert(abs(c1 - a1) <= d1 + d2 + d3);
    assert(r.size() <= 2 * a1) by {
        assert(x.size() <= a1 + d1);
        assert(d1 <= a1 / 2) by (nonlinear_arith)
            requires
                e * d1 <= a1,
                e >= 2,
                d1 >= 0,
        ;
    }
    assert(t * abs(c1 - a1) <= (t / 2) * u + a1 + u) by (nonlinear_arith)
        requires
            abs(c1 - a1) <= d1 + d2 + d3,
            e * d1 <= a1,
            2 * d2 <= u,
            e * d3 <= 2 * a1,
            e == 4 * t,
            t == 2 * (t / 2),
            t > 0,
            a1 >= 0,
            u > 0,
    {
        assert(t * abs(c1 - a1) <= t * (d1 + d2 + d3));
        assert(t * (d1 + d2 + d3) == t * d1 + t * d2 + t * d3);
        assert(4 * (t * d1) <= a1);
        assert(4 * (t * d3) <= 2 * a1);
        assert(t * d2 == (t / 2) * (2 * d2));
        assert((t / 2) * (2 * d2) <= (t / 2) * u);
    }
}

/// Of up to `2^49` shares a finite number is ordered.
pub proof fn law_ordered_shares_are_finite(size: Binary64)
    requires
        at_most(size, whole(0x2_0000_0000_0000)),
        size.is_finite(),
        !size.negative(),
        200 * size.size() >= unit(),
    ensures
        ordered_shares(size).is_finite(),
{
    let u = unit();
    let h = whole(10000);
    let a = size.size();
    let m = 0x2_0000_0000_0000int;
    let top = 10000 * m;
    lemma_unit();
    lemma_unit_is_large();
    lemma_ten_thousand();
    lemma_within(size);
    lemma_whole(m as u64);
    lemma_nearest(false, m * u, 1);
    lemma_with_sign(false, nearest_magnitude(m * u, 1));
    lemma_exact(m, 1074);
    assert(abs(m) * u == m * u);
    assert(a <= m * u);
    lemma_whole(top as u64);
    assert(abs(top) * u == top * u);
    let n = a * h.size();
    assert(n >= 0 && n * 1 <= (top * u) * u && top * u >= 0) by (nonlinear_arith)
        requires
            n == a * h.size(),
            h.size() == 10000 * u,
            0 <= a <= m * u,
            top == 10000 * m,
            m >= 0,
            u > 0,
    ;
    lemma_nearest(false, n, u);
    lemma_nearest(false, top * u, 1);
    lemma_with_sign(false, nearest_magnitude(n, u));
    lemma_with_sign(false, nearest_magnitude(top * u, 1));
    law_nearest_increases(n, u, top * u, 1);
    let x = product(size, h);
    law_round_is_close(x);
    let r = rounded(x);
    lemma_within(r);
    let ru = r.size() * u;
    let d = 10000 * u;
    assert(ru >= 0 && d > 0 && ru * 1 <= r.size() * d) by (nonlinear_arith)
        requires
            ru == r.size() * u,
            d == 10000 * u,
            r.size() >= 0,
            u > 0,
    ;
    lemma_nearest(false, ru, d);
    lemma_with_sign(false, nearest_magnitude(ru, d));
    lemma_nearest(false, r.size(), 1);
    lemma_with_sign(false, nearest_magnitude(r.size(), 1));
    law_nearest_is_exact(r);
    law_nearest_increases(ru, d, r.size(), 1);
}

/// No more is ordered than the whole amount, in cents: the order only gets smaller
/// towards the end of the market, unless the least amount that is set is above the
/// whole one.
pub proof fn law_order_amount_is_at_most_whole(settings: Settings, secs: u64)
    requires
        settings.size_min_ratio.is_finite(),
        at_most(zero(), settings.size_min_ratio),
        at_most(settings.size_min_ratio, whole(1)),
        settings.order_amount_usdc matches Some(v) ==> v.is_finite(),
        !less(base_amount(settings), settings.size_min_amount_usdc),
    ensures
        at_most(
            order_amount(settings, secs),
            maximum(base_amount(settings), in_cents(base_amount(settings))),
        ),
{
    let base = base_amount(settings);
    lemma_base_is_amount(settings);
    law_order_amount_is_enough(settings, secs);
    lemma_within(base);
    if settings.size_reduce_after_secs > 0 && secs < settings.size_reduce_after_secs {
        let r = settings.size_min_ratio;
        let rest = difference(whole(1), r);
        let q = quotient(whole(secs as int), whole(settings.size_reduce_after_secs as int));
        lemma_quotient_of_wholes(secs, settings.size_reduce_after_secs);
        lemma_rest_of_one(r);
        lemma_one();
        lemma_hundred();
        // The part of the amount is at most 1.
        lemma_product_is_number(rest, q);
        law_times_one(rest);
        law_product_increases(rest, q, whole(1));
        lemma_sum_is_number(r, product(rest, q));
        lemma_sum_is_number(r, rest);
        law_sum_increases(r, product(rest, q), rest);
        law_parts_make_one(r);
        let part = amount_part(settings, secs);
        assert(at_most(part, whole(1)));
        // So the amount is at most the whole one.
        lemma_product_with_positive(base, part);
        law_times_one(base);
        law_product_increases(base, part, whole(1));
        let x = product(base, part);
        lemma_product_with_positive(whole(100), x);
        lemma_product_with_positive(whole(100), base);
        law_product_commutes(x, whole(100));
        law_product_commutes(base, whole(100));
        law_product_increases(whole(100), x, base);
        law_rounded_increases(product(x, whole(100)), product(base, whole(100)));
        law_quotient_increases(
            rounded(product(x, whole(100))),
            rounded(product(base, whole(100))),
            whole(100),
        );
    }
}

/// With less time left no more is ordered, up to rounding to cents, on both sides
/// of the moment from which amounts are reduced. Where the whole amount is one in
/// cents, this holds to the last digit.
pub proof fn law_order_amount_shrinks(settings: Settings, secs: u64, more_secs: u64)
    requires
        secs <= more_secs,
        settings.size_min_ratio.is_finite(),
        at_most(zero(), settings.size_min_ratio),
        at_most(settings.size_min_ratio, whole(1)),
        settings.order_amount_usdc matches Some(v) ==> v.is_finite(),
        !less(base_amount(settings), settings.size_min_amount_usdc),
    ensures
        ({
            let base = base_amount(settings);
            let less_time = order_amount(settings, secs);
            let more_time = order_amount(settings, more_secs);
            &&& at_most(less_time, maximum(more_time, in_cents(base)))
            &&& at_most(more_time, maximum(base, in_cents(base)))
            &&& at_most(in_cents(base), base) ==> at_most(less_time, more_time) && at_most(
                more_time,
                base,
            )
        }),
{
    law_order_amount_is_at_most_whole(settings, secs);
    law_order_amount_is_at_most_whole(settings, more_secs);
    law_order_amount_is_enough(settings, secs);
    law_order_amount_is_enough(settings, more_secs);
    if more_secs < settings.size_reduce_after_secs {
        law_reduced_amount_shrinks(settings, secs, more_secs);
    }
}

} // verus!
