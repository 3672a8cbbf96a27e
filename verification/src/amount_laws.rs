//! How the amount of an order falls towards the end of a market, and what pairs cost once
//! they are locked.
use crate::binary64::{
    abs, at_most, difference, law_nearest_is_exact, law_product_commutes, lemma_parts,
    lemma_scaled_increases, lemma_zero, less, nearest, nearest_magnitude, negation, product,
    quotient, ratio, rounded, sum, unit, whole, with_sign, Binary64, BINADE, INFINITE, SIGNIFICANDS,
};
use crate::binary64_laws::{
    law_nearest_increases, law_nearest_of_same_fraction, law_parts_make_one, law_product_increases,
    law_quotient_increases, law_round_is_close, law_rounded_increases, law_rounding_is_close,
    law_sum_increases, law_times_one, lemma_exact, lemma_hundred, lemma_nearest, lemma_one,
    lemma_rest_of_one, lemma_unit, lemma_whole, lemma_with_sign, lemma_within,
};
use crate::decision_laws::{law_outlook, law_reduced_amount_is_largest};
use crate::order_laws::{
    in_cents, law_cents_are_close, lemma_abs_scales, lemma_finite, lemma_product_close,
    lemma_sum_close, lemma_unit_is_large, CLOSE,
};
use crate::strategy::{base_amount, opposite, order_amount, outlook, Position, Settings, Side};
use crate::strategy_laws::{
    law_order_amount_is_enough, lemma_base_is_amount, lemma_product_is_number,
    lemma_product_with_positive, lemma_quotient_of_wholes, lemma_sum_is_number,
};
use vstd::prelude::*;

verus! {

/// A bound on a number bounds its multiples.
proof fn lemma_scaled_bound(x: int, bound: int, e: int, c: int)
    requires
        e * abs(x) <= bound,
        c >= 0,
    ensures
        e * abs(x * c) <= bound * c,
{
    if c == 0 {
        assert(x * 0 == 0 && bound * 0 == 0) by (nonlinear_arith);
    } else {
        lemma_abs_scales(x, c);
    }
    assert(e * (abs(x) * c) <= bound * c) by (nonlinear_arith)
        requires
            e * abs(x) <= bound,
            c >= 0,
    {
        assert((e * abs(x)) * c <= bound * c);
    }
}

/// How far the part of an amount can be off: `s` of `w` seconds are left, `r` is the least
/// ratio, and the time that is left, the rest of the ratio, their product and the sum are
/// each rounded.
proof fn lemma_part_chain(
    s: int,
    w: int,
    r: int,
    l: int,
    d: int,
    p: int,
    t: int,
    u: int,
    e: int,
)
    requires
        0 <= s < w,
        0 <= r <= u,
        0 <= d <= u,
        u > 0,
        e > 0,
        e * abs(l * w - s * u) <= 2 * (w * u),
        e * abs(d - (u - r)) <= 2 * u,
        e * abs(p * u - d * l) <= 2 * (u * u),
        e * abs(t - (r + p)) <= 3 * u,
    ensures
        e * abs(t * w - (r * w + (u - r) * s)) <= 9 * (u * w),
{
    let v = u - r;
    let x1 = p * u - d * l;
    let x2 = l * w - s * u;
    let x3 = d - v;
    let x4 = t - (r + p);
    let y = p * w - v * s;
    let uuw = u * u * w;
    assert(x1 * w == (p * w) * u - (d * l) * w) by (nonlinear_arith)
        requires
            x1 == p * u - d * l,
    ;
    assert(x2 * d == (d * l) * w - (d * s) * u) by (nonlinear_arith)
        requires
            x2 == l * w - s * u,
    ;
    assert(x3 * (s * u) == (d * s) * u - (v * s) * u) by (nonlinear_arith)
        requires
            x3 == d - v,
    ;
    assert(y * u == (p * w) * u - (v * s) * u) by (nonlinear_arith)
        requires
            y == p * w - v * s,
    ;
    lemma_scaled_bound(x1, 2 * (u * u), e, w);
    lemma_scaled_bound(x2, 2 * (w * u), e, d);
    assert(s * u >= 0) by (nonlinear_arith)
        requires
            s >= 0,
            u > 0,
    ;
    lemma_scaled_bound(x3, 2 * u, e, s * u);
    assert(2 * (u * u) * w == 2 * uuw && 2 * (w * u) * d <= 2 * uuw && 2 * u * (s * u) <= 2 * uuw)
        by (nonlinear_arith)
        requires
            uuw == u * u * w,
            0 <= d <= u,
            0 <= s < w,
            u > 0,
    {
        assert((w * u) * d <= (w * u) * u);
        assert((u * u) * s <= (u * u) * w);
    }
    assert(e * abs(y * u) <= e * abs(x1 * w) + e * abs(x2 * d) + e * abs(x3 * (s * u)))
        by (nonlinear_arith)
        requires
            y * u == x1 * w + x2 * d + x3 * (s * u),
            e > 0,
    {
        assert(abs(y * u) <= abs(x1 * w) + abs(x2 * d) + abs(x3 * (s * u)));
    }
    lemma_abs_scales(y, u);
    let uw = u * w;
    assert(e * abs(y) <= 6 * uw) by (nonlinear_arith)
        requires
            e * (abs(y) * u) <= 6 * uuw,
            uuw == u * u * w,
            uw == u * w,
            u > 0,
    {
        assert((e * abs(y)) * u <= (6 * uw) * u);
    }
    lemma_scaled_bound(x4, 3 * u, e, w);
    let z = t * w - (r * w + v * s);
    assert(z == x4 * w + y) by (nonlinear_arith)
        requires
            z == t * w - (r * w + v * s),
            x4 == t - (r + p),
            y == p * w - v * s,
    ;
    assert(e * abs(z) <= e * abs(x4 * w) + e * abs(y)) by (nonlinear_arith)
        requires
            z == x4 * w + y,
            e > 0,
    {
        assert(abs(z) <= abs(x4 * w) + abs(y));
    }
    assert(3 * u * w == 3 * uw) by (nonlinear_arith)
        requires
            uw == u * w,
    ;
}

/// A whole number of at most 53 bits is exact.
proof fn lemma_exact_whole(n: u64)
    requires
        n < SIGNIFICANDS,
    ensures
        whole(n as int).is_finite(),
        !whole(n as int).negative(),
        whole(n as int).size() == n * unit(),
{
    let m = n as int;
    let u = unit();
    lemma_unit();
    lemma_whole(n);
    assert(m * u >= 0) by (nonlinear_arith)
        requires
            m >= 0,
            u > 0,
    ;
    lemma_nearest(false, m * u, 1);
    lemma_with_sign(false, nearest_magnitude(m * u, 1));
    lemma_exact(m, 1074);
}

/// The time that is left, as a part of the time in which amounts are reduced.
proof fn lemma_time_left(secs: u64, window: u64)
    requires
        secs < window < SIGNIFICANDS,
    ensures
        ({
            let l = quotient(whole(secs as int), whole(window as int));
            &&& l.is_finite()
            &&& !l.negative()
            &&& 0 <= l.size() <= unit()
            &&& SIGNIFICANDS * abs(l.size() * window - secs * unit()) <= 2 * (window * unit())
        }),
{
    let u = unit();
    let e = SIGNIFICANDS as int;
    let s = secs as int;
    let w = window as int;
    let l = quotient(whole(s), whole(w));
    lemma_unit();
    lemma_unit_is_large();
    lemma_one();
    lemma_exact_whole(secs);
    lemma_exact_whole(window);
    lemma_whole(window);
    lemma_quotient_of_wholes(secs, window);
    let n = s * u * u;
    let d = w * u;
    assert(n >= 0 && d > 0) by (nonlinear_arith)
        requires
            n == s * u * u,
            d == w * u,
            s >= 0,
            w > 0,
            u > 0,
    ;
    lemma_parts(0);
    lemma_finite(false, n, d);
    lemma_nearest(false, n, d);
    lemma_within(l);
    law_rounding_is_close(n, d);
    let x = l.size() * w - s * u;
    assert(l.size() * d - n == x * u) by (nonlinear_arith)
        requires
            x == l.size() * w - s * u,
            n == s * u * u,
            d == w * u,
    ;
    lemma_abs_scales(x, u);
    assert(e * abs(x) <= 2 * (w * u)) by (nonlinear_arith)
        requires
            e * (abs(x) * u) <= n + BINADE * d,
            n == s * u * u,
            d == w * u,
            0 <= s < w,
            BINADE <= u,
            u > 0,
    {
        assert(s * u * u <= w * u * u) by (nonlinear_arith)
            requires
                0 <= s < w,
                u > 0,
        ;
        assert(BINADE * (w * u) <= u * (w * u)) by (nonlinear_arith)
            requires
                BINADE <= u,
                w > 0,
                u > 0,
        ;
        assert(u * (w * u) == w * u * u) by (nonlinear_arith);
        assert((e * abs(x)) * u <= (2 * (w * u)) * u);
    }
}

/// What is left of 1 behind a ratio.
proof fn lemma_rest_is_close(r: Binary64)
    requires
        r.is_finite(),
        !r.negative(),
        at_most(r, whole(1)),
    ensures
        ({
            let d = difference(whole(1), r);
            &&& d.is_finite()
            &&& !d.negative()
            &&& 0 <= d.size() <= unit()
            &&& 0 <= r.size() <= unit()
            &&& SIGNIFICANDS * abs(d.size() - (unit() - r.size())) <= 2 * unit()
        }),
{
    let u = unit();
    let d = difference(whole(1), r);
    let v = u - r.size();
    lemma_unit();
    lemma_unit_is_large();
    lemma_one();
    lemma_rest_of_one(r);
    lemma_within(r);
    lemma_within(d);
    lemma_with_sign(!r.negative(), r.magnitude());
    assert(whole(1).value() + negation(r).value() == v);
    if v == 0 {
        lemma_with_sign(false, 0);
        lemma_parts(0);
    } else {
        lemma_finite(false, v, 1);
        law_rounding_is_close(v, 1);
        // Not above 1, which is exact.
        lemma_nearest(false, v, 1);
        lemma_nearest(false, u, 1);
        law_nearest_increases(v, 1, u, 1);
        lemma_exact(1, 1074);
        law_nearest_is_exact(whole(1));
        lemma_with_sign(false, nearest_magnitude(v, 1));
        lemma_with_sign(false, nearest_magnitude(u, 1));
        if d.magnitude() < whole(1).magnitude() {
            lemma_scaled_increases(d.magnitude(), whole(1).magnitude());
        }
    }
}

/// The part of an amount that is ordered with `secs` of `window` seconds left.
pub open spec fn ordered_part(r: Binary64, secs: u64, window: u64) -> Binary64 {
    sum(
        r,
        product(difference(whole(1), r), quotient(whole(secs as int), whole(window as int))),
    )
}

/// The part of an amount is near the exact one, and at most 1.
proof fn lemma_part_is_close(r: Binary64, secs: u64, window: u64)
    requires
        secs < window < SIGNIFICANDS,
        r.is_finite(),
        !r.negative(),
        at_most(r, whole(1)),
    ensures
        ({
            let t = ordered_part(r, secs, window);
            &&& t.is_finite()
            &&& !t.negative()
            &&& 0 <= t.size() <= unit()
            &&& SIGNIFICANDS * abs(
                t.size() * window - (r.size() * window + (unit() - r.size()) * secs),
            ) <= 9 * (unit() * window)
        }),
{
    let u = unit();
    let e = SIGNIFICANDS as int;
    let l = quotient(whole(secs as int), whole(window as int));
    let d = difference(whole(1), r);
    let p = product(d, l);
    let t = sum(r, p);
    lemma_unit();
    lemma_unit_is_large();
    lemma_one();
    lemma_time_left(secs, window);
    lemma_quotient_of_wholes(secs, window);
    lemma_rest_is_close(r);
    lemma_product_is_number(d, l);
    law_times_one(d);
    law_product_increases(d, l, whole(1));
    let n = d.size() * l.size();
    assert(0 <= n <= u * u) by (nonlinear_arith)
        requires
            n == d.size() * l.size(),
            0 <= d.size() <= u,
            0 <= l.size() <= u,
    ;
    lemma_nearest(false, n, u);
    lemma_with_sign(false, nearest_magnitude(n, u));
    lemma_within(p);
    assert(p.size() <= d.size());
    assert(p.is_finite()) by {
        if p.is_infinite() {
            lemma_within(d);
        }
    }
    lemma_product_close(d, l);
    assert(e * abs(p.size() * u - n) <= 2 * (u * u)) by (nonlinear_arith)
        requires
            e * abs(p.size() * u - n) <= n + BINADE * u,
            n <= u * u,
            BINADE <= u,
            u > 0,
    ;
    lemma_zero();
    lemma_within(r);
    assert(at_most(whole(0), r));
    lemma_sum_is_number(r, p);
    lemma_sum_is_number(r, d);
    law_sum_increases(r, p, d);
    law_parts_make_one(r);
    lemma_within(t);
    lemma_nearest(false, r.size() + p.size(), 1);
    lemma_with_sign(false, 0);
    assert(!t.negative());
    assert(t.size() <= u);
    assert(t.is_finite()) by {
        if t.is_infinite() {
            lemma_within(whole(1));
        }
    }
    lemma_sum_close(r, p);
    lemma_part_chain(
        secs as int,
        window as int,
        r.size(),
        l.size(),
        d.size(),
        p.size(),
        t.size(),
        u,
        e,
    );
}

/// How far a part of an amount can be off, and what is told of it in cents.
proof fn lemma_amount_chain(
    a: int,
    part: int,
    t: int,
    x: int,
    c: int,
    w: int,
    u: int,
    e: int,
    k: int,
)
    requires
        e * abs(t * w - part) <= 9 * (u * w),
        e * abs(x * u - a * t) <= 2 * (a * u),
        k * abs(100 * c - 100 * x) <= (k / 2) * u + 100 * x + u,
        e == 4 * k,
        k > 0,
        x <= a,
        a >= 0,
        u > 0,
        w > 0,
    ensures
        k * abs(100 * (c * (w * u)) - 100 * (a * part)) <= ((k / 2) * u + 400 * a + u) * (w * u),
{
    let y1 = x * u - a * t;
    let y2 = t * w - part;
    let y3 = 100 * c - 100 * x;
    let wu = w * u;
    let z = x * wu - a * part;
    assert(z == y1 * w + y2 * a) by {
        assert(y1 * w == x * (w * u) - (a * t) * w) by (nonlinear_arith)
            requires
                y1 == x * u - a * t,
        ;
        assert(y2 * a == (a * t) * w - a * part) by (nonlinear_arith)
            requires
                y2 == t * w - part,
        ;
    }
    lemma_scaled_bound(y1, 2 * (a * u), e, w);
    lemma_scaled_bound(y2, 9 * (u * w), e, a);
    let awu = a * wu;
    assert(2 * (a * u) * w == 2 * awu && 9 * (u * w) * a == 9 * awu) by (nonlinear_arith)
        requires
            awu == a * wu,
            wu == w * u,
    ;
    assert(e * abs(z) <= e * abs(y1 * w) + e * abs(y2 * a)) by (nonlinear_arith)
        requires
            z == y1 * w + y2 * a,
            e > 0,
    {
        assert(abs(z) <= abs(y1 * w) + abs(y2 * a));
    }
    assert(e * abs(z) <= 11 * awu);
    assert(wu > 0) by (nonlinear_arith)
        requires
            wu == w * u,
            w > 0,
            u > 0,
    ;
    let bound = (k / 2) * u + 100 * x + u;
    lemma_scaled_bound(y3, bound, k, wu);
    let q = 100 * (c * wu) - 100 * (a * part);
    assert(y3 * wu == 100 * (c * wu) - 100 * (x * wu)) by (nonlinear_arith)
        requires
            y3 == 100 * c - 100 * x,
    ;
    assert(q == y3 * wu + 100 * z);
    assert(k * abs(q) <= k * abs(y3 * wu) + 100 * (k * abs(z))) by (nonlinear_arith)
        requires
            q == y3 * wu + 100 * z,
            k > 0,
    {
        assert(abs(q) <= abs(y3 * wu) + 100 * abs(z));
    }
    assert(4 * (k * abs(z)) == e * abs(z)) by (nonlinear_arith)
        requires
            e == 4 * k,
    ;
    let full = (k / 2) * u + 400 * a + u;
    assert(bound * wu + 275 * awu <= full * wu) by (nonlinear_arith)
        requires
            bound == (k / 2) * u + 100 * x + u,
            full == (k / 2) * u + 400 * a + u,
            awu == a * wu,
            x <= a,
            a >= 0,
            wu > 0,
    {
        assert(bound + 275 * a <= full);
        assert((bound + 275 * a) * wu <= full * wu) by (nonlinear_arith)
            requires
                bound + 275 * a <= full,
                wu > 0,
        ;
        assert((bound + 275 * a) * wu == bound * wu + 275 * (a * wu)) by (nonlinear_arith);
    }
}

/// What is less than 1 is not more than 1 in cents.
proof fn lemma_small_in_cents(x: Binary64)
    requires
        x.is_finite(),
        at_most(x, whole(1)),
        !x.negative(),
    ensures
        at_most(in_cents(x), whole(1)),
{
    lemma_one();
    lemma_hundred();
    lemma_within(x);
    let h = whole(100);
    law_product_commutes(x, h);
    lemma_product_with_positive(h, x);
    law_times_one(h);
    lemma_product_with_positive(h, whole(1));
    law_product_increases(h, x, whole(1));
    law_rounded_increases(product(x, h), h);
    let r = rounded(h);
    law_round_is_close(h);
    law_quotient_increases(rounded(product(x, h)), r, h);
    lemma_hundred_cents();
}

/// A hundred cents are 1.
proof fn lemma_hundred_cents()
    ensures
        quotient(rounded(whole(100)), whole(100)).value() == whole(1).value(),
        !quotient(rounded(whole(100)), whole(100)).is_nan(),
{
    let u = unit();
    let h = whole(100);
    lemma_unit();
    lemma_one();
    lemma_hundred();
    assert(h.size() == 100 * u);
    assert((2 * h.size() + u) / (2 * u) == 100) by {
        vstd::arithmetic::div_mod::lemma_fundamental_div_mod_converse(
            2 * h.size() + u,
            2 * u,
            100,
            u,
        );
    }
    assert(rounded(h) == h);
    let n = h.size() * u;
    assert(n == u * h.size() && n >= 0) by (nonlinear_arith)
        requires
            n == h.size() * u,
            h.size() == 100 * u,
            u > 0,
    ;
    lemma_nearest(false, n, h.size());
    law_nearest_of_same_fraction(u, 1, h.size());
    assert(1 * h.size() == h.size());
    lemma_nearest(false, u, 1);
    assert(whole(1) == nearest(false, u, 1)) by {
        assert(abs(1) == 1 && 1 * u == u);
    }
}

/// While amounts are reduced, what is ordered above the least amounts is in proportion to
/// the time that is left: of the whole amount, the least ratio and that part of the rest
/// which the time left is of the time in which amounts are reduced. It is off by half a
/// cent at most, but for rounding.
pub proof fn law_amount_falls_with_time(settings: Settings, secs: u64)
    requires
        secs < settings.size_reduce_after_secs < SIGNIFICANDS,
        settings.size_min_ratio.is_finite(),
        !settings.size_min_ratio.negative(),
        at_most(settings.size_min_ratio, whole(1)),
        settings.order_amount_usdc matches Some(v) ==> v.is_finite(),
        order_amount(settings, secs).is_finite(),
        !at_most(order_amount(settings, secs), settings.size_min_amount_usdc),
        !at_most(order_amount(settings, secs), ratio(11, 10)),
    ensures
        ({
            let window = settings.size_reduce_after_secs as int;
            let r = settings.size_min_ratio.size();
            let all = base_amount(settings).size();
            let part = r * window + (unit() - r) * secs;
            let off = 100 * (order_amount(settings, secs).size() * (window * unit())) - 100 * (all
                * part);
            CLOSE * abs(off) <= ((CLOSE / 2) * unit() + 400 * all + unit()) * (window * unit())
        }),
{
    let u = unit();
    let e = SIGNIFICANDS as int;
    let window = settings.size_reduce_after_secs;
    let r = settings.size_min_ratio;
    let base = base_amount(settings);
    let t = ordered_part(r, secs, window);
    let x = product(base, t);
    let c = order_amount(settings, secs);
    lemma_unit();
    lemma_unit_is_large();
    lemma_one();
    lemma_base_is_amount(settings);
    lemma_within(base);
    lemma_part_is_close(r, secs, window);
    law_reduced_amount_is_largest(settings, secs);
    law_order_amount_is_enough(settings, secs);
    lemma_least_is_above_one(settings);
    // The reduced amount is finite, and at most the whole one.
    lemma_product_is_number(base, t);
    law_times_one(base);
    law_product_increases(base, t, whole(1));
    let n = base.size() * t.size();
    assert(0 <= n <= base.size() * u) by (nonlinear_arith)
        requires
            n == base.size() * t.size(),
            0 <= t.size() <= u,
            base.size() >= 0,
    ;
    lemma_nearest(false, n, u);
    lemma_with_sign(false, nearest_magnitude(n, u));
    lemma_within(x);
    assert(x.is_finite());
    assert(!at_most(c, c) || c == in_cents(x));
    lemma_product_close(base, t);
    assert(e * abs(x.size() * u - n) <= 2 * (base.size() * u)) by (nonlinear_arith)
        requires
            e * abs(x.size() * u - n) <= n + BINADE * u,
            n <= base.size() * u,
            BINADE <= base.size(),
            u > 0,
    ;
    if at_most(x, whole(1)) {
        lemma_small_in_cents(x);
    }
    law_cents_are_close(x);
    lemma_amount_chain(
        base.size(),
        r.size() * window + (u - r.size()) * secs,
        t.size(),
        x.size(),
        c.size(),
        window as int,
        u,
        e,
        CLOSE as int,
    );
}

/// The least amount that the exchange takes is above 1.
proof fn lemma_least_is_above_one(settings: Settings)
    ensures
        less(whole(1), ratio(11, 10)),
        ratio(11, 10).is_finite(),
{
    let u = unit();
    lemma_unit();
    lemma_unit_is_large();
    lemma_one();
    lemma_base_is_amount(Settings { order_amount_usdc: None, ..settings });
    lemma_nearest(false, 11 * u, 10);
    law_rounding_is_close(11 * u, 10);
    lemma_with_sign(false, nearest_magnitude(11 * u, 10));
}

/// Four roundings, each of which takes off one part in `e` at most.
proof fn lemma_lock_chain(
    na: int,
    zk: int,
    pb: int,
    m1: int,
    m2: int,
    m3: int,
    c: int,
    s: int,
    q: int,
    p: int,
    u: int,
    e: int,
    b: int,
)
    requires
        e == 2 * b,
        b > 0,
        u > 0,
        p >= 0,
        na >= 0,
        zk >= 0,
        pb >= 0,
        m1 >= 0,
        m2 >= 0,
        m3 >= 0,
        c >= 0,
        s >= 0,
        (e - 1) * na <= e * (m1 * u) + b * u,
        (e - 1) * zk <= e * (m2 * u) + b * u,
        (e - 1) * pb <= e * (m3 * u) + b * u,
        (e - 1) * (m1 + m2) <= e * c,
        (e - 1) * (m3 + c) <= e * s,
        (e - 1) * (s * u) <= e * (q * p) + b * p,
    ensures
        2 * ((e - 1) * (e - 1) * (e - 1) * (e - 1)) * (na + zk + pb) <= (e * e * e * e) * (2 * (q
            * p) + p + 3 * u),
{
    let f = e - 1;
    let all = na + zk + pb;
    let m = m1 + m2 + m3;
    assert(f * all <= e * (m * u) + 3 * (b * u)) by (nonlinear_arith)
        requires
            f * na <= e * (m1 * u) + b * u,
            f * zk <= e * (m2 * u) + b * u,
            f * pb <= e * (m3 * u) + b * u,
            all == na + zk + pb,
            m == m1 + m2 + m3,
    {
        assert(f * all == f * na + f * zk + f * pb);
        assert(e * (m * u) == e * (m1 * u) + e * (m2 * u) + e * (m3 * u));
    }
    assert(f * m <= e * (m3 + c)) by (nonlinear_arith)
        requires
            f * (m1 + m2) <= e * c,
            m == m1 + m2 + m3,
            m3 >= 0,
            f == e - 1,
    {
        assert(f * m == f * (m1 + m2) + f * m3);
        assert(f * m3 <= e * m3);
    }
    // Twice with one rounding more.
    let bu = b * u;
    assert(bu > 0) by (nonlinear_arith)
        requires
            bu == b * u,
            b > 0,
            u > 0,
    ;
    let k = m3 + c;
    let x1 = f * all;
    assert(f * x1 <= e * (e * (k * u)) + 3 * (f * bu)) by (nonlinear_arith)
        requires
            x1 <= e * (m * u) + 3 * bu,
            f * m <= e * k,
            f >= 0,
            e > 0,
            u > 0,
    {
        assert(f * x1 <= f * (e * (m * u) + 3 * bu)) by (nonlinear_arith)
            requires
                x1 <= e * (m * u) + 3 * bu,
                f >= 0,
        ;
        assert(f * (e * (m * u) + 3 * bu) == (f * m) * (e * u) + 3 * (f * bu)) by (nonlinear_arith);
        assert(e * u > 0) by (nonlinear_arith)
            requires
                e > 0,
                u > 0,
        ;
        assert((f * m) * (e * u) <= (e * k) * (e * u)) by (nonlinear_arith)
            requires
                f * m <= e * k,
                e * u > 0,
        ;
        assert((e * k) * (e * u) == e * (e * (k * u))) by (nonlinear_arith);
    }
    let x2 = f * x1;
    let su = s * u;
    assert(f * (k * u) <= e * su) by (nonlinear_arith)
        requires
            f * k <= e * s,
            su == s * u,
            u > 0,
    {
        assert((f * k) * u <= (e * s) * u);
    }
    let ee = e * e;
    assert(ee > 0) by (nonlinear_arith)
        requires
            ee == e * e,
            e > 0,
    ;
    assert(f * x2 <= ee * (e * su) + 3 * (f * f * bu)) by (nonlinear_arith)
        requires
            x2 <= e * (e * (k * u)) + 3 * (f * bu),
            f * (k * u) <= e * su,
            ee == e * e,
            ee > 0,
            f >= 0,
    {
        let ku = k * u;
        assert(f * x2 <= f * (e * (e * ku) + 3 * (f * bu))) by (nonlinear_arith)
            requires
                x2 <= e * (e * ku) + 3 * (f * bu),
                f >= 0,
        ;
        assert(f * (e * (e * ku) + 3 * (f * bu)) == ee * (f * ku) + 3 * (f * f * bu))
            by (nonlinear_arith)
            requires
                ee == e * e,
        ;
        assert(ee * (f * ku) <= ee * (e * su)) by (nonlinear_arith)
            requires
                f * ku <= e * su,
                ee > 0,
        ;
    }
    let x3 = f * x2;
    let eee = ee * e;
    assert(eee > 0) by (nonlinear_arith)
        requires
            eee == ee * e,
            ee > 0,
            e > 0,
    ;
    let qp = q * p;
    let bp = b * p;
    assert(f * x3 <= eee * (e * qp + bp) + 3 * (f * f * f * bu)) by (nonlinear_arith)
        requires
            x3 <= ee * (e * su) + 3 * (f * f * bu),
            f * su <= e * qp + bp,
            eee == ee * e,
            eee > 0,
            f >= 0,
    {
        assert(f * x3 <= f * (ee * (e * su) + 3 * (f * f * bu))) by (nonlinear_arith)
            requires
                x3 <= ee * (e * su) + 3 * (f * f * bu),
                f >= 0,
        ;
        assert(f * (ee * (e * su) + 3 * (f * f * bu)) == eee * (f * su) + 3 * (f * f * f * bu))
            by (nonlinear_arith)
            requires
                eee == ee * e,
        ;
        assert(eee * (f * su) <= eee * (e * qp + bp)) by (nonlinear_arith)
            requires
                f * su <= e * qp + bp,
                eee > 0,
        ;
    }
    let fff = f * f * f;
    assert(0 <= fff <= eee) by {
        assert(0 <= f * f <= ee) by (nonlinear_arith)
            requires
                ee == e * e,
                f == e - 1,
                f >= 0,
        ;
        let ff = f * f;
        assert(0 <= ff * f <= ee * e) by (nonlinear_arith)
            requires
                0 <= ff <= ee,
                f == e - 1,
                f >= 0,
        ;
    }
    assert(fff * bu <= eee * bu) by (nonlinear_arith)
        requires
            fff <= eee,
            bu > 0,
    ;
    assert(2 * (eee * (e * qp + bp) + 3 * (eee * bu)) == (eee * e) * (2 * qp + p + 3 * u))
        by (nonlinear_arith)
        requires
            e == 2 * b,
            bp == b * p,
            bu == b * u,
    {
        assert(2 * (eee * (e * qp + bp) + 3 * (eee * bu)) == eee * (2 * (e * qp) + 2 * bp + 6
            * bu)) by (nonlinear_arith);
        assert(2 * bp == e * p && 6 * bu == 3 * (e * u)) by (nonlinear_arith)
            requires
                e == 2 * b,
                bp == b * p,
                bu == b * u,
        ;
        assert(2 * (e * qp) + e * p + 3 * (e * u) == e * (2 * qp + p + 3 * u)) by (nonlinear_arith);
        assert(eee * (e * (2 * qp + p + 3 * u)) == (eee * e) * (2 * qp + p + 3 * u))
            by (nonlinear_arith);
    }
    assert(f * x3 == (f * f * f * f) * all) by (nonlinear_arith)
        requires
            x3 == f * x2,
            x2 == f * x1,
            x1 == f * all,
    ;
    assert(2 * (f * f * f * f) * all == 2 * ((f * f * f * f) * all)) by (nonlinear_arith);
    assert(eee * e == e * e * e * e) by (nonlinear_arith)
        requires
            eee == ee * e,
            ee == e * e,
    ;
}

/// A number that is not negative.
pub open spec fn is_amount(a: Binary64) -> bool {
    a.is_finite() && !a.negative()
}

/// Where a side can be locked, what it has cost with the purchase, and what the paired
/// shares of the other side have cost, is together no more than the accepted cost for
/// each pair, but for four roundings and the smallest numbers.
pub proof fn law_locked_pairs_keep_to_cost(
    settings: Settings,
    position: Position,
    side: Side,
    ask: Binary64,
    size: Binary64,
)
    requires
        is_amount(position.up_shares),
        is_amount(position.down_shares),
        is_amount(position.up_avg_price),
        is_amount(position.down_avg_price),
        is_amount(ask),
        is_amount(size),
        is_amount(settings.cost_per_pair_max),
        outlook(settings, position, side, ask, size).can_lock,
    ensures
        ({
            let pairs = outlook(settings, position, side, ask, size).pairs_after.size();
            let (n, a, b) = match side {
                Side::Up => (
                    position.up_shares.size(),
                    position.up_avg_price.size(),
                    position.down_avg_price.size(),
                ),
                Side::Down => (
                    position.down_shares.size(),
                    position.down_avg_price.size(),
                    position.up_avg_price.size(),
                ),
            };
            let e = SIGNIFICANDS as int;
            let spent = n * a + size.size() * ask.size() + pairs * b;
            2 * ((e - 1) * (e - 1) * (e - 1) * (e - 1)) * spent <= (e * e * e * e) * (2 * (
            settings.cost_per_pair_max.size() * pairs) + pairs + 3 * unit())
        }),
{
    let o = outlook(settings, position, side, ask, size);
    let other = opposite(side);
    let n = position.shares(side);
    let a = position.avg_price(side);
    let m = position.shares(other);
    let b = position.avg_price(other);
    let p = o.pairs_after;
    let u = unit();
    let e = SIGNIFICANDS as int;
    law_outlook(settings, position, side, ask, size);
    lemma_zero();
    lemma_unit();
    lemma_within(n);
    lemma_within(m);
    lemma_within(a);
    lemma_within(b);
    lemma_within(ask);
    lemma_within(size);
    lemma_within(settings.cost_per_pair_max);
    let m1 = product(n, a);
    let m2 = product(size, ask);
    let m3 = product(p, b);
    let c = o.cost_after;
    let s = sum(m3, c);
    let q = o.cost_per_pair;
    // Every step has a finite result, or the last would be infinite.
    lemma_is_number(n, a);
    lemma_is_number(size, ask);
    lemma_sum_is_amount(m1, m2);
    lemma_sum_is_amount(n, size);
    assert(!p.is_nan() && less(whole(0), p));
    lemma_within(p);
    assert(p.is_finite());
    assert(!p.negative());
    lemma_is_number(p, b);
    lemma_sum_is_amount(m3, c);
    lemma_parts(0);
    lemma_with_sign(false, INFINITE as int);
    assert(s.is_finite()) by {
        if s.is_infinite() {
            assert(q == with_sign(false, INFINITE as int));
            lemma_within(q);
            lemma_within(settings.cost_per_pair_max);
            assert(!at_most(q, settings.cost_per_pair_max));
        }
    }
    lemma_sum_close(m3, c);
    lemma_sum_close(m1, m2);
    lemma_product_close(n, a);
    lemma_product_close(size, ask);
    lemma_product_close(p, b);
    lemma_within(s);
    lemma_within(c);
    lemma_within(m1);
    lemma_within(m2);
    lemma_within(m3);
    let su = s.size() * u;
    assert(su >= 0) by (nonlinear_arith)
        requires
            su == s.size() * u,
            s.size() >= 0,
            u > 0,
    ;
    lemma_nearest(false, su, p.size());
    lemma_within(q);
    assert(q.is_finite());
    lemma_finite(false, su, p.size());
    law_rounding_is_close(su, p.size());
    let max = settings.cost_per_pair_max.size();
    assert(q.size() <= max);
    lemma_at_least(m1.size() * u, n.size() * a.size(), e, BINADE * u);
    lemma_at_least(m2.size() * u, size.size() * ask.size(), e, BINADE * u);
    lemma_at_least(m3.size() * u, p.size() * b.size(), e, BINADE * u);
    lemma_at_least(c.size(), m1.size() + m2.size(), e, 0);
    lemma_at_least(s.size(), m3.size() + c.size(), e, 0);
    lemma_at_least(q.size() * p.size(), su, e, BINADE * p.size());
    assert(q.size() * p.size() <= max * p.size()) by (nonlinear_arith)
        requires
            q.size() <= max,
            p.size() >= 0,
    ;
    assert(e * (q.size() * p.size()) <= e * (max * p.size())) by (nonlinear_arith)
        requires
            q.size() * p.size() <= max * p.size(),
            e > 0,
    ;
    lemma_lock_chain(
        n.size() * a.size(),
        size.size() * ask.size(),
        p.size() * b.size(),
        m1.size(),
        m2.size(),
        m3.size(),
        c.size(),
        s.size(),
        max,
        p.size(),
        u,
        e,
        BINADE as int,
    );
}

/// A result near to an exact one is not far below it.
proof fn lemma_at_least(x: int, y: int, e: int, tiny: int)
    requires
        e * abs(x - y) <= y + tiny,
        e > 0,
    ensures
        (e - 1) * y <= e * x + tiny,
{
    assert((e - 1) * y <= e * x + tiny) by (nonlinear_arith)
        requires
            e * abs(x - y) <= y + tiny,
            e > 0,
    {
        assert(y - x <= abs(x - y));
        assert(e * (y - x) <= e * abs(x - y));
        assert(e * (y - x) == e * y - e * x);
        assert((e - 1) * y == e * y - y);
    }
}

/// The product of two numbers that are not negative is one too.
proof fn lemma_is_number(a: Binary64, b: Binary64)
    requires
        is_amount(a),
        is_amount(b),
    ensures
        !product(a, b).is_nan(),
        !product(a, b).negative(),
{
    lemma_unit();
    lemma_within(a);
    lemma_within(b);
    let n = a.size() * b.size();
    assert(n >= 0) by (nonlinear_arith)
        requires
            n == a.size() * b.size(),
            a.size() >= 0,
            b.size() >= 0,
    ;
    lemma_nearest(false, n, unit());
}

/// The sum of two numbers that are not negative is one too, and finite only where both
/// are.
proof fn lemma_sum_is_amount(a: Binary64, b: Binary64)
    requires
        !a.is_nan(),
        !b.is_nan(),
        !a.negative(),
        !b.negative(),
    ensures
        !sum(a, b).is_nan(),
        !sum(a, b).negative(),
        sum(a, b).is_finite() ==> a.is_finite() && b.is_finite(),
{
    let v = a.value() + b.value();
    lemma_within(a);
    lemma_within(b);
    lemma_with_sign(false, 0);
    lemma_nearest(false, v, 1);
}

} // verus!
