//! What holds of the numbers of the binary64 format and of the operations on
//! them.
use crate::binary64::{
    abs, at_most, binade, difference, exponent, floored, half_even, law_nearest_is_exact,
    lemma_binade, lemma_half_even_scale, lemma_parts, lemma_pow2_0, lemma_pow2_constants,
    lemma_pow2_monotonic, lemma_scaled_increases, lemma_whole_size, lemma_zero, maximum, nearest,
    nearest_magnitude, negation, product, quotient, rounded, scaled, significand, sum, unit, whole,
    with_sign, Binary64, BINADE, INFINITE, SIGNIFICANDS,
};
use vstd::arithmetic::div_mod::{
    lemma_div_is_ordered, lemma_fundamental_div_mod, lemma_fundamental_div_mod_converse,
    lemma_mod_bound,
};
use vstd::arithmetic::power2::{lemma_pow2_adds, lemma_pow2_pos, lemma_pow2_unfold, pow2};
use vstd::prelude::*;

verus! {

/// Between which powers of two `n / d` lies.
proof fn lemma_binade_bounds(n: int, d: int)
    requires
        n >= 0,
        d > 0,
    ensures
        n < SIGNIFICANDS * d * pow2(binade(n, d)),
        binade(n, d) > 0 ==> n >= SIGNIFICANDS * d * pow2((binade(n, d) - 1) as nat),
    decreases n - d,
{
    lemma_pow2_0();
    let b = binade(n, d);
    if n < SIGNIFICANDS * d {
        assert(b == 0);
        assert(SIGNIFICANDS * d * pow2(b) == SIGNIFICANDS * d) by (nonlinear_arith)
            requires
                pow2(b) == 1,
        ;
    } else {
        let k = binade(n, 2 * d);
        lemma_binade_bounds(n, 2 * d);
        assert(b == k + 1);
        lemma_pow2_unfold(b);
        let x = pow2(k) as int;
        assert(n < SIGNIFICANDS * d * pow2(b)) by (nonlinear_arith)
            requires
                n < SIGNIFICANDS * (2 * d) * x,
                pow2(b) == 2 * x,
        ;
        if k > 0 {
            lemma_pow2_unfold(k);
            let y = pow2((k - 1) as nat) as int;
            assert(n >= SIGNIFICANDS * d * x) by (nonlinear_arith)
                requires
                    n >= SIGNIFICANDS * (2 * d) * y,
                    x == 2 * y,
            ;
        } else {
            assert(SIGNIFICANDS * d * x == SIGNIFICANDS * d) by (nonlinear_arith)
                requires
                    x == 1,
            ;
        }
        assert(k == (b - 1) as nat);
    }
}

/// The integer nearest to `n / d` is no further from it than another one.
proof fn lemma_half_even_is_nearest(n: int, d: int, j: int)
    requires
        n >= 0,
        d > 0,
    ensures
        abs(half_even(n, d) * d - n) <= abs(j * d - n),
        2 * abs(half_even(n, d) * d - n) <= d,
{
    let q = n / d;
    let r = n % d;
    lemma_fundamental_div_mod(n, d);
    lemma_mod_bound(n, d);
    assert(q * d == d * q) by (nonlinear_arith);
    assert((q + 1) * d == q * d + d) by (nonlinear_arith);
    if j <= q {
        assert(j * d <= q * d) by (nonlinear_arith)
            requires
                j <= q,
                d > 0,
        ;
    } else {
        assert(j * d >= (q + 1) * d) by (nonlinear_arith)
            requires
                j >= q + 1,
                d > 0,
        ;
    }
}

/// A larger fraction is rounded to an integer that is not smaller.
proof fn lemma_half_even_increases(x: int, y: int, d: int)
    requires
        0 <= x <= y,
        d > 0,
    ensures
        half_even(x, d) <= half_even(y, d),
{
    lemma_fundamental_div_mod(x, d);
    lemma_fundamental_div_mod(y, d);
    lemma_div_is_ordered(x, y, d);
}

/// The significand to which `n / d` is rounded: a full one, except among the
/// smallest numbers.
proof fn lemma_rounded_significand(n: int, d: int)
    requires
        n >= 0,
        d > 0,
    ensures
        ({
            let k = binade(n, d);
            let m = half_even(n, d * pow2(k));
            &&& d * pow2(k) > 0
            &&& 0 <= m <= SIGNIFICANDS
            &&& k > 0 ==> m >= BINADE
        }),
{
    let k = binade(n, d);
    let dk = d * pow2(k);
    lemma_binade_bounds(n, d);
    lemma_pow2_pos(k);
    assert(dk > 0 && SIGNIFICANDS * d * pow2(k) == SIGNIFICANDS * dk) by (nonlinear_arith)
        requires
            dk == d * pow2(k),
            d > 0,
            pow2(k) > 0,
    ;
    lemma_half_even_increases(n, SIGNIFICANDS * dk, dk);
    lemma_fundamental_div_mod_converse(SIGNIFICANDS * dk, dk, SIGNIFICANDS as int, 0);
    lemma_half_even_increases(0, n, dk);
    lemma_fundamental_div_mod_converse(0, dk, 0, 0);
    if k > 0 {
        let j = (k - 1) as nat;
        lemma_pow2_unfold(k);
        assert(SIGNIFICANDS * d * pow2(j) == BINADE * dk) by (nonlinear_arith)
            requires
                dk == d * pow2(k),
                pow2(k) == 2 * pow2(j),
                SIGNIFICANDS == 2 * BINADE,
        ;
        lemma_half_even_increases(BINADE * dk, n, dk);
        lemma_fundamental_div_mod_converse(BINADE * dk, dk, BINADE as int, 0);
    }
}

/// What a binade and a significand stand for together.
proof fn lemma_scaled_of_parts(k: nat, m: int)
    requires
        0 <= m <= SIGNIFICANDS,
        k > 0 ==> m >= BINADE,
    ensures
        scaled(k * BINADE + m) == m * pow2(k),
{
    let x = k * BINADE + m;
    if m < BINADE {
        assert(k == 0);
        assert(x == m) by (nonlinear_arith)
            requires
                x == k * BINADE + m,
                k == 0,
        ;
    } else if m < SIGNIFICANDS {
        assert(x == (k + 1) * BINADE + (m - BINADE)) by (nonlinear_arith)
            requires
                x == k * BINADE + m,
        ;
        lemma_fundamental_div_mod_converse(x, BINADE as int, (k + 1) as int, m - BINADE);
        assert((k + 1) * BINADE >= BINADE) by (nonlinear_arith);
        assert(exponent(x) == k);
    } else {
        assert(x == (k + 2) * BINADE) by (nonlinear_arith)
            requires
                x == k * BINADE + m,
                m == 2 * BINADE,
        ;
        assert((k + 2) * BINADE >= BINADE) by (nonlinear_arith);
        lemma_fundamental_div_mod_converse(x, BINADE as int, (k + 2) as int, 0);
        assert(exponent(x) == k + 1);
        lemma_pow2_unfold((k + 1) as nat);
        assert(x - (k + 1) * BINADE == BINADE) by (nonlinear_arith)
            requires
                x == (k + 2) * BINADE,
        ;
        assert(BINADE * (2 * pow2(k)) == m * pow2(k)) by (nonlinear_arith)
            requires
                m == 2 * BINADE,
        ;
    }
}

/// A fraction that is not smaller is rounded to a number that is not smaller.
pub proof fn law_nearest_increases(n1: int, d1: int, n2: int, d2: int)
    requires
        n1 >= 0,
        n2 >= 0,
        d1 > 0,
        d2 > 0,
        n1 * d2 <= n2 * d1,
    ensures
        0 <= nearest_magnitude(n1, d1) <= nearest_magnitude(n2, d2) <= INFINITE,
{
    let k1 = binade(n1, d1);
    let k2 = binade(n2, d2);
    let p1 = pow2(k1) as int;
    let p2 = pow2(k2) as int;
    let m1 = half_even(n1, d1 * p1);
    let m2 = half_even(n2, d2 * p2);
    lemma_binade_bounds(n1, d1);
    lemma_binade_bounds(n2, d2);
    lemma_rounded_significand(n1, d1);
    lemma_rounded_significand(n2, d2);
    lemma_pow2_pos(k1);
    lemma_pow2_pos(k2);
    assert(k1 * BINADE >= 0 && k2 * BINADE >= 0) by (nonlinear_arith);
    if k1 > k2 {
        // Then the first fraction is the larger one.
        let j = (k1 - 1) as nat;
        let x = pow2(j) as int;
        lemma_pow2_monotonic(k2, j);
        assert(n1 * d2 > n2 * d1) by (nonlinear_arith)
            requires
                n1 >= SIGNIFICANDS * d1 * x,
                n2 < SIGNIFICANDS * d2 * p2,
                0 < p2 <= x,
                d1 > 0,
                d2 > 0,
        {
            assert(n1 * d2 >= SIGNIFICANDS * d1 * x * d2);
            assert(n2 * d1 < SIGNIFICANDS * d2 * p2 * d1);
            assert(SIGNIFICANDS * (d1 * d2) * x >= SIGNIFICANDS * (d1 * d2) * p2);
            assert(SIGNIFICANDS * d1 * x * d2 == SIGNIFICANDS * (d1 * d2) * x);
            assert(SIGNIFICANDS * d2 * p2 * d1 == SIGNIFICANDS * (d1 * d2) * p2);
        }
    } else if k1 == k2 {
        let c = d1 * d2 * p1;
        lemma_half_even_scale(n1, d1 * p1, d2);
        lemma_half_even_scale(n2, d2 * p2, d1);
        assert((d1 * p1) * d2 == c && (d2 * p2) * d1 == c) by (nonlinear_arith)
            requires
                c == d1 * d2 * p1,
                p1 == p2,
        ;
        assert(n1 * d2 >= 0) by (nonlinear_arith)
            requires
                n1 >= 0,
                d2 > 0,
        ;
        lemma_half_even_increases(n1 * d2, n2 * d1, c);
    } else {
        assert(k2 * BINADE >= (k1 + 1) * BINADE) by (nonlinear_arith)
            requires
                k2 >= k1 + 1,
        ;
        assert((k1 + 1) * BINADE == k1 * BINADE + BINADE) by (nonlinear_arith);
    }
}

/// The number that an operation returns is nearest to its exact result: no
/// finite number of the same sign is nearer.
pub proof fn law_nearest_is_nearest(n: int, d: int, other: Binary64)
    requires
        n >= 0,
        d > 0,
        nearest_magnitude(n, d) < INFINITE,
        other.is_finite(),
    ensures
        abs(scaled(nearest_magnitude(n, d)) * d - n) <= abs(other.size() * d - n),
{
    let k = binade(n, d);
    let p = pow2(k) as int;
    let dk = d * p;
    let m = half_even(n, dk);
    lemma_binade_bounds(n, d);
    lemma_rounded_significand(n, d);
    lemma_scaled_of_parts(k, m);
    assert(m * p * d == m * dk) by (nonlinear_arith)
        requires
            dk == d * p,
    ;
    let x = other.magnitude();
    let e = exponent(x);
    let s = significand(x);
    let y = pow2(e) as int;
    lemma_parts(x);
    lemma_pow2_pos(e);
    lemma_pow2_pos(k);
    if e >= k {
        // The other number is a whole multiple of the same power of two.
        let t = (e - k) as nat;
        lemma_pow2_adds(t, k);
        let j = s * pow2(t);
        assert(s * y * d == j * dk) by (nonlinear_arith)
            requires
                y == pow2(t) * p,
                j == s * pow2(t),
                dk == d * p,
        ;
        lemma_half_even_is_nearest(n, dk, j);
    } else {
        // The other number lies below the binade.
        let h = (k - 1) as nat;
        lemma_pow2_unfold(k);
        lemma_pow2_monotonic(e, h);
        let z = pow2(h) as int;
        assert(s * y * d <= BINADE * dk) by (nonlinear_arith)
            requires
                0 <= s <= SIGNIFICANDS,
                0 < y <= z,
                d > 0,
                dk == d * p,
                p == 2 * z,
                SIGNIFICANDS == 2 * BINADE,
        {
            assert(s * y <= SIGNIFICANDS * z);
            assert(s * y * d <= SIGNIFICANDS * z * d);
        }
        assert(BINADE * dk <= n) by (nonlinear_arith)
            requires
                n >= SIGNIFICANDS * d * z,
                dk == d * p,
                p == 2 * z,
                SIGNIFICANDS == 2 * BINADE,
        ;
        lemma_half_even_is_nearest(n, dk, BINADE as int);
    }
}

/// `n` with a sign.
pub open spec fn signed(negative: bool, n: int) -> int {
    if negative {
        -n
    } else {
        n
    }
}

proof fn lemma_signed_product(negative: bool, c: int, n: int)
    ensures
        signed(negative, c * n) == c * signed(negative, n),
        signed(negative, n * c) == signed(negative, n) * c,
{
    assert(c * (-n) == -(c * n) && (-n) * c == -(n * c)) by (nonlinear_arith);
}

pub proof fn lemma_with_sign(negative: bool, magnitude: int)
    requires
        0 <= magnitude <= INFINITE,
    ensures
        with_sign(negative, magnitude).negative() == negative,
        with_sign(negative, magnitude).magnitude() == magnitude,
        !with_sign(negative, magnitude).is_nan(),
        with_sign(negative, magnitude).value() == signed(negative, scaled(magnitude)),
        scaled(magnitude) >= 0,
        magnitude == 0 ==> with_sign(negative, magnitude).value() == 0,
{
    lemma_parts(magnitude);
}

/// What is nearest to a fraction is a number, and has the sign it was given.
pub proof fn lemma_nearest(negative: bool, n: int, d: int)
    requires
        n >= 0,
        d > 0,
    ensures
        0 <= nearest_magnitude(n, d) <= INFINITE,
        !nearest(negative, n, d).is_nan(),
        nearest(negative, n, d).negative() == negative,
        nearest(negative, n, d).value() == signed(negative, scaled(nearest_magnitude(n, d))),
        scaled(nearest_magnitude(n, d)) >= 0,
        n == 0 ==> nearest(negative, n, d).value() == 0,
{
    law_nearest_increases(n, d, n, d);
    lemma_with_sign(negative, nearest_magnitude(n, d));
    if n == 0 {
        assert(binade(n, d) == 0);
        lemma_pow2_0();
        assert(d * pow2(0) == d) by (nonlinear_arith)
            requires
                pow2(0) == 1,
        ;
        lemma_fundamental_div_mod_converse(0, d, 0, 0);
        assert(0 * BINADE == 0) by (nonlinear_arith);
        assert(nearest_magnitude(n, d) == 0);
    }
}

/// Of two fractions with signs, the one that is not larger is rounded to a
/// number that is not larger.
pub proof fn law_nearest_keeps_order(
    negative1: bool,
    n1: int,
    d1: int,
    negative2: bool,
    n2: int,
    d2: int,
)
    requires
        n1 >= 0,
        n2 >= 0,
        d1 > 0,
        d2 > 0,
        signed(negative1, n1) * d2 <= signed(negative2, n2) * d1,
    ensures
        at_most(nearest(negative1, n1, d1), nearest(negative2, n2, d2)),
{
    lemma_nearest(negative1, n1, d1);
    lemma_nearest(negative2, n2, d2);
    let m1 = nearest_magnitude(n1, d1);
    let m2 = nearest_magnitude(n2, d2);
    if !negative1 && !negative2 {
        law_nearest_increases(n1, d1, n2, d2);
        if m1 < m2 {
            lemma_scaled_increases(m1, m2);
        }
    } else if negative1 && negative2 {
        assert(n2 * d1 <= n1 * d2) by (nonlinear_arith)
            requires
                (-n1) * d2 <= (-n2) * d1,
        ;
        law_nearest_increases(n2, d2, n1, d1);
        if m2 < m1 {
            lemma_scaled_increases(m2, m1);
        }
    } else if negative2 {
        assert(n1 == 0 && n2 == 0) by (nonlinear_arith)
            requires
                n1 * d2 <= (-n2) * d1,
                n1 >= 0,
                n2 >= 0,
                d1 > 0,
                d2 > 0,
        ;
    }
}

pub proof fn lemma_unit()
    ensures
        unit() > 0,
{
    lemma_pow2_pos(1074);
}

/// The value of a finite sum is that of the number nearest to the exact sum.
proof fn lemma_sum_value(a: Binary64, b: Binary64)
    requires
        a.is_finite(),
        b.is_finite(),
    ensures
        ({
            let v = a.value() + b.value();
            &&& !sum(a, b).is_nan()
            &&& sum(a, b).value() == nearest(v < 0, abs(v), 1).value()
        }),
{
    let v = a.value() + b.value();
    lemma_nearest(v < 0, abs(v), 1);
    lemma_with_sign(a.negative() && b.negative(), 0);
}

/// How far a number lies from zero, an infinity the furthest.
pub proof fn lemma_within(a: Binary64)
    requires
        !a.is_nan(),
    ensures
        0 <= a.size() <= scaled(INFINITE as int),
        a.is_finite() ==> a.size() < scaled(INFINITE as int),
        a.is_infinite() ==> a.size() == scaled(INFINITE as int),
        scaled(INFINITE as int) > 0,
{
    lemma_parts(a.magnitude());
    lemma_parts(INFINITE as int);
    if a.is_finite() {
        lemma_scaled_increases(a.magnitude(), INFINITE as int);
    }
}

/// Adding a number that is not larger gives a sum that is not larger.
pub proof fn law_sum_increases(a: Binary64, b: Binary64, c: Binary64)
    requires
        at_most(b, c),
        !sum(a, b).is_nan(),
        !sum(a, c).is_nan(),
    ensures
        at_most(sum(a, b), sum(a, c)),
{
    lemma_within(a);
    lemma_within(b);
    lemma_within(c);
    lemma_within(sum(a, b));
    lemma_within(sum(a, c));
    if a.is_finite() && b.is_finite() {
        lemma_sum_value(a, b);
    }
    if a.is_finite() && c.is_finite() {
        lemma_sum_value(a, c);
    }
    if a.is_finite() && b.is_finite() && c.is_finite() {
        let v = a.value() + b.value();
        let w = a.value() + c.value();
        law_nearest_keeps_order(v < 0, abs(v), 1, w < 0, abs(w), 1);
    }
}

/// Multiplying with a number that is not negative keeps the order.
pub proof fn law_product_increases(a: Binary64, b: Binary64, c: Binary64)
    requires
        !a.negative(),
        at_most(b, c),
        !product(a, b).is_nan(),
        !product(a, c).is_nan(),
    ensures
        at_most(product(a, b), product(a, c)),
{
    lemma_unit();
    lemma_within(a);
    lemma_within(b);
    lemma_within(c);
    lemma_with_sign(b.negative(), INFINITE as int);
    lemma_with_sign(c.negative(), INFINITE as int);
    let x = a.size() * b.size();
    let y = a.size() * c.size();
    assert(x >= 0 && y >= 0) by (nonlinear_arith)
        requires
            x == a.size() * b.size(),
            y == a.size() * c.size(),
            a.size() >= 0,
            b.size() >= 0,
            c.size() >= 0,
    ;
    lemma_nearest(b.negative(), x, unit());
    lemma_nearest(c.negative(), y, unit());
    lemma_within(product(a, b));
    lemma_within(product(a, c));
    if a.is_infinite() {
        lemma_parts(b.magnitude());
        lemma_parts(c.magnitude());
    } else if b.is_finite() && c.is_finite() {
        lemma_signed_product(b.negative(), a.size(), b.size());
        lemma_signed_product(c.negative(), a.size(), c.size());
        assert(signed(b.negative(), x) * unit() <= signed(c.negative(), y) * unit())
            by (nonlinear_arith)
            requires
                x == a.size() * b.size(),
                y == a.size() * c.size(),
                signed(b.negative(), b.size()) <= signed(c.negative(), c.size()),
                signed(b.negative(), x) == a.size() * signed(b.negative(), b.size()),
                signed(c.negative(), y) == a.size() * signed(c.negative(), c.size()),
                a.size() >= 0,
                unit() > 0,
        {
            assert(a.size() * signed(b.negative(), b.size()) <= a.size() * signed(
                c.negative(),
                c.size(),
            ));
        }
        law_nearest_keeps_order(b.negative(), x, unit(), c.negative(), y, unit());
    }
}

/// Dividing by a positive finite number keeps the order.
pub proof fn law_quotient_increases(a: Binary64, b: Binary64, c: Binary64)
    requires
        at_most(a, b),
        !c.negative(),
        c.is_finite(),
        c.magnitude() > 0,
    ensures
        at_most(quotient(a, c), quotient(b, c)),
{
    lemma_unit();
    lemma_within(a);
    lemma_within(b);
    lemma_within(c);
    lemma_parts(c.magnitude());
    lemma_with_sign(a.negative(), INFINITE as int);
    lemma_with_sign(b.negative(), INFINITE as int);
    let x = a.size() * unit();
    let y = b.size() * unit();
    assert(x >= 0 && y >= 0) by (nonlinear_arith)
        requires
            x == a.size() * unit(),
            y == b.size() * unit(),
            a.size() >= 0,
            b.size() >= 0,
            unit() > 0,
    ;
    lemma_nearest(a.negative(), x, c.size());
    lemma_nearest(b.negative(), y, c.size());
    lemma_within(nearest(a.negative(), x, c.size()));
    lemma_within(nearest(b.negative(), y, c.size()));
    if a.is_finite() && b.is_finite() {
        let d = c.size();
        lemma_signed_product(a.negative(), unit(), a.size());
        lemma_signed_product(b.negative(), unit(), b.size());
        assert(signed(a.negative(), x) * d <= signed(b.negative(), y) * d) by (nonlinear_arith)
            requires
                signed(a.negative(), a.size()) <= signed(b.negative(), b.size()),
                signed(a.negative(), x) == signed(a.negative(), a.size()) * unit(),
                signed(b.negative(), y) == signed(b.negative(), b.size()) * unit(),
                d > 0,
                unit() > 0,
        {
            assert(signed(a.negative(), a.size()) * unit() <= signed(b.negative(), b.size())
                * unit());
        }
        law_nearest_keeps_order(a.negative(), x, d, b.negative(), y, d);
    }
}

/// Rounding to whole numbers keeps the order.
pub proof fn law_rounded_increases(a: Binary64, b: Binary64)
    requires
        at_most(a, b),
    ensures
        at_most(rounded(a), rounded(b)),
{
    let u = unit();
    lemma_unit();
    lemma_within(a);
    lemma_within(b);
    let x = (2 * a.size() + u) / (2 * u);
    let y = (2 * b.size() + u) / (2 * u);
    lemma_div_is_ordered(0, 2 * a.size() + u, 2 * u);
    lemma_div_is_ordered(0, 2 * b.size() + u, 2 * u);
    lemma_fundamental_div_mod_converse(0, 2 * u, 0, 0);
    assert(x * u >= 0 && y * u >= 0) by (nonlinear_arith)
        requires
            x >= 0,
            y >= 0,
            u > 0,
    ;
    lemma_nearest(a.negative(), x * u, 1);
    lemma_nearest(b.negative(), y * u, 1);
    lemma_within(rounded(a));
    lemma_within(rounded(b));
    if a.is_finite() && b.is_finite() {
        if a.size() <= b.size() {
            lemma_div_is_ordered(2 * a.size() + u, 2 * b.size() + u, 2 * u);
            assert(x * u <= y * u) by (nonlinear_arith)
                requires
                    x <= y,
                    u > 0,
            ;
        }
        if b.size() <= a.size() {
            lemma_div_is_ordered(2 * b.size() + u, 2 * a.size() + u, 2 * u);
            assert(y * u <= x * u) by (nonlinear_arith)
                requires
                    y <= x,
                    u > 0,
            ;
        }
        if !a.negative() && b.negative() {
            // Both are zero.
            lemma_fundamental_div_mod_converse(u, 2 * u, 0, u);
            assert(x * u == 0 && y * u == 0) by (nonlinear_arith)
                requires
                    x == 0,
                    y == 0,
            ;
        }
        law_nearest_keeps_order(a.negative(), x * u, 1, b.negative(), y * u, 1);
    }
}

/// A whole number that is not larger is the nearest to one that is not larger.
pub proof fn law_whole_increases(m: int, n: int)
    requires
        0 <= m <= n,
    ensures
        at_most(whole(m), whole(n)),
        !whole(m).negative(),
{
    lemma_unit();
    assert(0 <= m * unit() <= n * unit()) by (nonlinear_arith)
        requires
            0 <= m <= n,
            unit() > 0,
    ;
    law_nearest_keeps_order(false, m * unit(), 1, false, n * unit(), 1);
    lemma_nearest(false, m * unit(), 1);
}

/// The numbers 1 and `2^64`.
pub proof fn lemma_one()
    ensures
        whole(1) == (Binary64 { bits: 0x3ff0_0000_0000_0000 }),
        whole(1).is_finite(),
        !whole(1).negative(),
        whole(1).value() == unit(),
        whole(0x1_0000_0000_0000_0000) == (Binary64 { bits: 0x43f0_0000_0000_0000 }),
{
    let one = Binary64 { bits: 0x3ff0_0000_0000_0000 };
    let top = Binary64 { bits: 0x43f0_0000_0000_0000 };
    lemma_pow2_constants();
    vstd::arithmetic::power2::lemma2_to64_rest();
    lemma_fundamental_div_mod_converse(one.magnitude(), BINADE as int, 1023, 0);
    lemma_fundamental_div_mod_converse(top.magnitude(), BINADE as int, 1087, 0);
    lemma_pow2_adds(52, 1022);
    lemma_pow2_adds(52, 1086);
    lemma_pow2_adds(64, 1074);
    assert(one.size() == unit());
    assert(top.size() == 0x1_0000_0000_0000_0000 * unit());
    law_nearest_is_exact(one);
    law_nearest_is_exact(top);
    assert(1 * unit() == unit());
}

/// A whole number of 64 bits is finite, and above zero unless it is zero.
pub proof fn lemma_whole(n: u64)
    ensures
        whole(n as int).is_finite(),
        !whole(n as int).negative(),
        n > 0 ==> whole(n as int).magnitude() > 0,
{
    let m = n as int;
    let top = 0x1_0000_0000_0000_0000int;
    lemma_unit();
    lemma_one();
    assert(0 <= m * unit() <= top * unit()) by (nonlinear_arith)
        requires
            0 <= m <= top,
            unit() > 0,
    ;
    lemma_nearest(false, m * unit(), 1);
    lemma_nearest(false, 1 * unit(), 1);
    lemma_nearest(false, top * unit(), 1);
    law_nearest_increases(m * unit(), 1, top * unit(), 1);
    lemma_with_sign(false, nearest_magnitude(m * unit(), 1));
    lemma_with_sign(false, nearest_magnitude(1 * unit(), 1));
    lemma_with_sign(false, nearest_magnitude(top * unit(), 1));
    if n > 0 {
        assert(1 * unit() <= m * unit()) by (nonlinear_arith)
            requires
                m >= 1,
                unit() > 0,
        ;
        law_nearest_increases(1 * unit(), 1, m * unit(), 1);
    }
}

/// One more than the largest number is rounded to a finite one.
proof fn lemma_past_largest()
    ensures
        nearest_magnitude(scaled(INFINITE - 1) + unit(), 1) < INFINITE,
{
    let m = SIGNIFICANDS - 1;
    let p = pow2(2045) as int;
    let n = scaled(INFINITE - 1) + unit();
    lemma_unit();
    lemma_pow2_0();
    lemma_fundamental_div_mod_converse(INFINITE - 1, BINADE as int, 2046, BINADE - 1);
    assert(scaled(INFINITE - 1) == m * p);
    lemma_pow2_unfold(2045);
    vstd::arithmetic::power2::lemma_pow2_strictly_increases(1074, 2044);
    let h = pow2(2044) as int;
    assert(SIGNIFICANDS * 1 * p == SIGNIFICANDS * p && SIGNIFICANDS * 1 * h == SIGNIFICANDS * h)
        by (nonlinear_arith);
    assert(n < SIGNIFICANDS * p && n >= SIGNIFICANDS * h) by (nonlinear_arith)
        requires
            n == m * p + unit(),
            m == SIGNIFICANDS - 1,
            0 < unit() < h,
            p == 2 * h,
    ;
    lemma_binade(n, 1, 2045);
    assert(1 * p == p);
    lemma_fundamental_div_mod_converse(n, p, m, unit());
}

/// `1 - a` is a number that is not negative, where `a` is at most 1.
pub proof fn lemma_rest_of_one(a: Binary64)
    requires
        a.is_finite(),
        at_most(a, whole(1)),
    ensures
        difference(whole(1), a).is_finite(),
        !difference(whole(1), a).negative(),
{
    let b = negation(a);
    let v = whole(1).value() + b.value();
    lemma_one();
    lemma_unit();
    lemma_within(a);
    lemma_with_sign(!a.negative(), a.magnitude());
    lemma_nearest(false, v, 1);
    lemma_past_largest();
    if a.magnitude() < INFINITE - 1 {
        lemma_scaled_increases(a.magnitude(), INFINITE - 1);
    }
    law_nearest_increases(v, 1, scaled(INFINITE - 1) + unit(), 1);
    lemma_with_sign(false, nearest_magnitude(v, 1));
    lemma_with_sign(false, 0);
}

/// The larger of two numbers does not fall where one of them does not.
pub proof fn law_maximum_increases(a: Binary64, b: Binary64, c: Binary64)
    requires
        at_most(a, b),
    ensures
        at_most(maximum(a, c), maximum(b, c)),
{
}

/// Rounding is off by less than one part in `2^53`, but among the smallest numbers
/// by half of the smallest.
pub proof fn law_rounding_is_close(n: int, d: int)
    requires
        n >= 0,
        d > 0,
        nearest_magnitude(n, d) < INFINITE,
    ensures
        SIGNIFICANDS * abs(scaled(nearest_magnitude(n, d)) * d - n) <= n + BINADE * d,
        n >= BINADE * d ==> SIGNIFICANDS * abs(scaled(nearest_magnitude(n, d)) * d - n) <= n,
{
    let k = binade(n, d);
    let p = pow2(k) as int;
    let dk = d * p;
    let m = half_even(n, dk);
    lemma_binade_bounds(n, d);
    lemma_rounded_significand(n, d);
    lemma_scaled_of_parts(k, m);
    lemma_half_even_is_nearest(n, dk, 0);
    let off = abs(m * dk - n);
    assert(m * p * d == m * dk) by (nonlinear_arith)
        requires
            dk == d * p,
    ;
    if k > 0 {
        let h = pow2((k - 1) as nat) as int;
        lemma_pow2_unfold(k);
        assert(SIGNIFICANDS * d * h == BINADE * dk) by (nonlinear_arith)
            requires
                dk == d * p,
                p == 2 * h,
                SIGNIFICANDS == 2 * BINADE,
        ;
        assert(BINADE * d >= 0) by (nonlinear_arith)
            requires
                d > 0,
        ;
    } else {
        lemma_pow2_0();
        assert(dk == d) by (nonlinear_arith)
            requires
                dk == d * p,
                p == 1,
        ;
    }
}

/// A whole multiple of a power of two with at most 53 bits before it is a number of
/// the format.
pub proof fn lemma_exact(c: int, j: nat)
    requires
        0 <= c < SIGNIFICANDS,
        nearest_magnitude(c * pow2(j), 1) < INFINITE,
    ensures
        scaled(nearest_magnitude(c * pow2(j), 1)) == c * pow2(j),
{
    let n = c * pow2(j);
    lemma_pow2_pos(j);
    assert(0 <= n < SIGNIFICANDS * pow2(j)) by (nonlinear_arith)
        requires
            n == c * pow2(j),
            0 <= c < SIGNIFICANDS,
            pow2(j) > 0,
    ;
    let k = binade(n, 1);
    let p = pow2(k) as int;
    lemma_binade_bounds(n, 1);
    lemma_rounded_significand(n, 1);
    lemma_pow2_pos(k);
    if k > j {
        lemma_pow2_monotonic(j, (k - 1) as nat);
        assert(SIGNIFICANDS * 1 * pow2((k - 1) as nat) >= SIGNIFICANDS * pow2(j))
            by (nonlinear_arith)
            requires
                pow2((k - 1) as nat) >= pow2(j),
        ;
    }
    let t = (j - k) as nat;
    lemma_pow2_adds(t, k);
    let m = c * pow2(t);
    assert(n == m * p && 1 * p == p) by (nonlinear_arith)
        requires
            n == c * pow2(j),
            m == c * pow2(t),
            pow2(j) == pow2(t) * p,
    ;
    lemma_fundamental_div_mod_converse(n, p, m, 0);
    assert(half_even(n, 1 * p) == m);
    lemma_scaled_of_parts(k, m);
}

/// A fraction is rounded the same in other terms.
pub proof fn law_nearest_of_same_fraction(n: int, d: int, c: int)
    requires
        n >= 0,
        d > 0,
        c > 0,
    ensures
        nearest_magnitude(n * c, d * c) == nearest_magnitude(n, d),
{
    assert(n * c >= 0 && d * c > 0 && (n * c) * d == n * (d * c)) by (nonlinear_arith)
        requires
            n >= 0,
            d > 0,
            c > 0,
    ;
    law_nearest_increases(n * c, d * c, n, d);
    law_nearest_increases(n, d, n * c, d * c);
}

/// Rounding down to a whole number is exact: what is left is less than 1.
pub proof fn law_floor_is_exact(a: Binary64)
    requires
        a.is_finite(),
        !a.negative(),
    ensures
        floored(a).is_finite(),
        !floored(a).negative(),
        floored(a).size() == a.size() / unit() * unit(),
        floored(a).size() <= a.size() < floored(a).size() + unit(),
{
    let u = unit();
    let x = a.size();
    lemma_unit();
    lemma_within(a);
    lemma_fundamental_div_mod(x, u);
    lemma_mod_bound(x, u);
    let m = x / u;
    assert(m * u == u * m) by (nonlinear_arith);
    assert(m >= 0) by {
        vstd::arithmetic::div_mod::lemma_div_pos_is_pos(x, u);
    }
    assert(m * u >= 0) by (nonlinear_arith)
        requires
            m >= 0,
            u > 0,
    ;
    lemma_nearest(false, m * u, 1);
    lemma_with_sign(false, nearest_magnitude(m * u, 1));
    law_nearest_increases(m * u, 1, x, 1);
    law_nearest_is_exact(a);
    lemma_nearest(false, x, 1);
    lemma_with_sign(false, nearest_magnitude(x, 1));
    let k = exponent(a.magnitude());
    if k >= 1074 {
        lemma_whole_size(a);
        assert(m * u == x);
        assert(nearest_magnitude(x, 1) == a.magnitude());
    } else {
        lemma_parts(a.magnitude());
        lemma_pow2_monotonic(k, 1074);
        assert(m < SIGNIFICANDS) by (nonlinear_arith)
            requires
                u * m <= x,
                x == significand(a.magnitude()) * pow2(k),
                0 <= significand(a.magnitude()) < SIGNIFICANDS,
                0 < pow2(k) <= u,
        {
            assert(significand(a.magnitude()) * pow2(k) <= significand(a.magnitude()) * u);
            assert(u * m <= significand(a.magnitude()) * u);
        }
        lemma_exact(m, 1074);
    }
}

/// The number 100.
pub proof fn lemma_hundred()
    ensures
        whole(100).is_finite(),
        !whole(100).negative(),
        whole(100).magnitude() > 0,
        whole(100).size() == 100 * unit(),
{
    lemma_unit();
    lemma_whole(100);
    lemma_nearest(false, 100 * unit(), 1);
    lemma_with_sign(false, nearest_magnitude(100 * unit(), 1));
    lemma_exact(100, 1074);
}

/// Rounding to a whole number is off by a half at most; a half is rounded up.
pub proof fn law_round_is_close(a: Binary64)
    requires
        a.is_finite(),
        !a.negative(),
    ensures
        !rounded(a).negative(),
        rounded(a).is_finite(),
        2 * abs(rounded(a).size() - a.size()) <= unit(),
        2 * (a.size() - rounded(a).size()) < unit(),
{
    let u = unit();
    let x = a.size();
    lemma_unit();
    lemma_within(a);
    let n = 2 * x + u;
    let m = n / (2 * u);
    lemma_fundamental_div_mod(n, 2 * u);
    lemma_mod_bound(n, 2 * u);
    vstd::arithmetic::div_mod::lemma_div_pos_is_pos(n, 2 * u);
    assert(2 * u * m == 2 * (m * u)) by (nonlinear_arith);
    assert(m * u >= 0) by (nonlinear_arith)
        requires
            m >= 0,
            u > 0,
    ;
    lemma_nearest(false, m * u, 1);
    lemma_with_sign(false, nearest_magnitude(m * u, 1));
    let k = exponent(a.magnitude());
    if k >= 1074 {
        lemma_whole_size(a);
        law_nearest_is_exact(a);
    } else {
        lemma_parts(a.magnitude());
        lemma_pow2_unfold(1074);
        lemma_pow2_monotonic(k, 1073);
        let h = pow2(1073) as int;
        assert(m < SIGNIFICANDS) by (nonlinear_arith)
            requires
                2 * (m * u) <= 2 * x + u,
                x == significand(a.magnitude()) * pow2(k),
                0 <= significand(a.magnitude()) < SIGNIFICANDS,
                0 < pow2(k) <= h,
                u == 2 * h,
                SIGNIFICANDS == 2 * BINADE,
                BINADE > 2,
        {
            assert(significand(a.magnitude()) * pow2(k) <= significand(a.magnitude()) * h);
            assert(x <= (SIGNIFICANDS - 1) * h);
            assert(4 * (m * h) <= 2 * ((SIGNIFICANDS - 1) * h) + 2 * h);
            assert(2 * (m * h) <= SIGNIFICANDS * h);
        }
        lemma_whole(m as u64);
        lemma_exact(m, 1074);
        assert(whole(m) == nearest(false, m * u, 1)) by {
            assert(abs(m) * u == m * u);
        }
    }
}

/// A number times 1 is that number.
pub proof fn law_times_one(a: Binary64)
    requires
        a.is_finite(),
    ensures
        product(a, whole(1)) == a,
{
    lemma_one();
    lemma_unit();
    lemma_within(a);
    law_nearest_of_same_fraction(a.size(), 1, unit());
    assert(1 * unit() == unit());
    law_nearest_is_exact(a);
}

/// A part of 1 and the rest of it make 1 at most, rounding included.
pub proof fn law_parts_make_one(a: Binary64)
    requires
        a.is_finite(),
        at_most(whole(0), a),
        at_most(a, whole(1)),
    ensures
        at_most(sum(a, difference(whole(1), a)), whole(1)),
{
    let u = unit();
    let e = SIGNIFICANDS as int;
    let rest = difference(whole(1), a);
    let x = a.value();
    let v = u - x;
    lemma_unit();
    lemma_one();
    lemma_within(a);
    lemma_zero();
    lemma_with_sign(!a.negative(), a.magnitude());
    lemma_rest_of_one(a);
    lemma_with_sign(false, 0);
    lemma_nearest(false, v, 1);
    lemma_parts(0);
    // The rest is off by half a step at 1.
    let half = pow2(1021) as int;
    lemma_pow2_constants();
    lemma_pow2_adds(53, 1021);
    lemma_pow2_adds(52, 1022);
    lemma_pow2_unfold(1022);
    assert(u == e * half);
    assert(rest.size() <= v + half) by {
        if v > 0 {
            lemma_with_sign(false, nearest_magnitude(v, 1));
            law_rounding_is_close(v, 1);
            let off = rest.size() - v;
            let bound = e * abs(off);
            assert(e * off <= bound) by (nonlinear_arith)
                requires
                    bound == e * abs(off),
                    off <= abs(off),
                    e > 0,
            ;
            if v >= BINADE {
                assert(off <= half) by (nonlinear_arith)
                    requires
                        e * off <= e * half,
                        e > 0,
                ;
            } else {
                assert(e * off < 2 * e);
                assert(off <= 1) by (nonlinear_arith)
                    requires
                        e * off < 2 * e,
                        e > 0,
                ;
                lemma_pow2_pos(1021);
            }
        } else {
            lemma_pow2_pos(1021);
        }
    }
    // What is half a step above 1 is rounded to 1.
    let n = u + half;
    let p = pow2(1022) as int;
    lemma_pow2_pos(1021);
    assert(e * 1 * p == e * p && e * 1 * half == e * half) by (nonlinear_arith);
    lemma_binade(n, 1, 1022);
    assert(1 * p == p);
    assert(n == p * BINADE + half && half < p);
    assert(BINADE * p == p * BINADE) by (nonlinear_arith);
    lemma_fundamental_div_mod_converse(n, p, BINADE as int, half);
    assert(half_even(n, 1 * p) == BINADE);
    assert(nearest_magnitude(n, 1) == whole(1).magnitude());
    let w = a.value() + rest.value();
    assert(0 <= w <= n);
    lemma_sum_value(a, rest);
    lemma_nearest(false, w, 1);
    law_nearest_increases(w, 1, n, 1);
    let m = nearest_magnitude(w, 1);
    if m < whole(1).magnitude() {
        lemma_scaled_increases(m, whole(1).magnitude());
    }
}

} // verus!
