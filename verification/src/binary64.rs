//! Binary floating-point numbers of 64 bits (the binary64 format of IEEE 754),
//! held by their bit pattern and computed on with integers.
//!
//! Every finite number of the format is a whole multiple of `2^-1074`, so the
//! value of one is given here as an integer: how many times `2^-1074` it is.
//! An operation returns the number of the format that is nearest to the exact
//! result, and of two that are equally near the one whose last bit is 0.
use vstd::arithmetic::div_mod::{
    lemma_fundamental_div_mod, lemma_fundamental_div_mod_converse, lemma_mod_bound,
};
use vstd::arithmetic::power2::{
    lemma_pow2_adds, lemma_pow2_pos, lemma_pow2_strictly_increases, lemma_pow2_unfold, pow2,
};
use vstd::prelude::*;

verus! {

/// The sign bit.
pub const SIGN_BIT: u64 = 0x8000_0000_0000_0000;

/// The magnitude of an infinity; a larger magnitude is not a number.
pub const INFINITE: u64 = 0x7ff0_0000_0000_0000;

/// The pattern of the result that is not a number.
pub const NOT_A_NUMBER: u64 = 0x7ff8_0000_0000_0000;

/// `2^52`: how many numbers a binade holds.
pub const BINADE: u64 = 0x10_0000_0000_0000;

/// `2^53`: one more than the largest significand.
pub const SIGNIFICANDS: u64 = 0x20_0000_0000_0000;

/// A number of the binary64 format.
#[derive(Debug, Clone, Copy, PartialEq, Eq, Structural)]
pub struct Binary64 {
    /// The sign bit, eleven bits of exponent and fifty-two of significand.
    pub bits: u64,
}

/// The exponent of a magnitude, counted from that of the smallest numbers.
pub open spec fn exponent(magnitude: int) -> nat {
    if magnitude < BINADE {
        0
    } else {
        (magnitude / BINADE as int - 1) as nat
    }
}

/// The significand of a magnitude.
pub open spec fn significand(magnitude: int) -> int {
    magnitude - exponent(magnitude) * BINADE
}

/// What a magnitude stands for, as a multiple of `2^-1074`.
pub open spec fn scaled(magnitude: int) -> int {
    significand(magnitude) * pow2(exponent(magnitude))
}

impl Binary64 {
    pub open spec fn negative(self) -> bool {
        self.bits >= SIGN_BIT
    }

    /// The bits but for the sign.
    pub open spec fn magnitude(self) -> int {
        if self.negative() {
            self.bits - SIGN_BIT
        } else {
            self.bits as int
        }
    }

    pub open spec fn is_nan(self) -> bool {
        self.magnitude() > INFINITE
    }

    pub open spec fn is_infinite(self) -> bool {
        self.magnitude() == INFINITE
    }

    pub open spec fn is_finite(self) -> bool {
        self.magnitude() < INFINITE
    }

    /// The value without its sign, as a multiple of `2^-1074`. Of an infinity
    /// it is the power of two that follows the largest number.
    pub open spec fn size(self) -> int {
        scaled(self.magnitude())
    }

    /// The value, as a multiple of `2^-1074`.
    pub open spec fn value(self) -> int {
        if self.negative() {
            -self.size()
        } else {
            self.size()
        }
    }
}

/// How many times `2^-1074` goes into 1.
pub open spec fn unit() -> int {
    pow2(1074) as int
}

/// The integer nearest to `n / d`, the even one of two that are equally near.
pub open spec fn half_even(n: int, d: int) -> int {
    let q = n / d;
    let r = n % d;
    if 2 * r < d || (2 * r == d && q % 2 == 0) {
        q
    } else {
        q + 1
    }
}

/// The least `k` for which `n / d` is below `2^53` times `2^k`.
pub open spec fn binade(n: int, d: int) -> nat
    decreases n - d,
{
    if d <= 0 || n < SIGNIFICANDS * d {
        0
    } else {
        1 + binade(n, 2 * d)
    }
}

/// The magnitude nearest to `n / d` times `2^-1074`.
pub open spec fn nearest_magnitude(n: int, d: int) -> int {
    let k = binade(n, d);
    let m = k * BINADE + half_even(n, d * pow2(k));
    if m < INFINITE {
        m
    } else {
        INFINITE as int
    }
}

pub open spec fn with_sign(negative: bool, magnitude: int) -> Binary64 {
    Binary64 {
        bits: if negative {
            (SIGN_BIT + magnitude) as u64
        } else {
            magnitude as u64
        },
    }
}

/// The number nearest to `n / d` times `2^-1074`, with the given sign.
pub open spec fn nearest(negative: bool, n: int, d: int) -> Binary64 {
    with_sign(negative, nearest_magnitude(n, d))
}

pub open spec fn nan() -> Binary64 {
    Binary64 { bits: NOT_A_NUMBER }
}

pub open spec fn abs(i: int) -> int {
    if i < 0 {
        -i
    } else {
        i
    }
}

/// `a + b`. A sum of zero is positive unless both are negative.
pub open spec fn sum(a: Binary64, b: Binary64) -> Binary64 {
    let v = a.value() + b.value();
    if a.is_nan() || b.is_nan() {
        nan()
    } else if a.is_infinite() {
        if b.is_infinite() && a.negative() != b.negative() {
            nan()
        } else {
            a
        }
    } else if b.is_infinite() {
        b
    } else if v == 0 {
        with_sign(a.negative() && b.negative(), 0)
    } else {
        nearest(v < 0, abs(v), 1)
    }
}

/// `-a`.
pub open spec fn negation(a: Binary64) -> Binary64 {
    with_sign(!a.negative(), a.magnitude())
}

/// `a - b`.
pub open spec fn difference(a: Binary64, b: Binary64) -> Binary64 {
    sum(a, negation(b))
}

/// `a * b`.
pub open spec fn product(a: Binary64, b: Binary64) -> Binary64 {
    let negative = a.negative() != b.negative();
    if a.is_nan() || b.is_nan() {
        nan()
    } else if a.is_infinite() || b.is_infinite() {
        if a.magnitude() == 0 || b.magnitude() == 0 {
            nan()
        } else {
            with_sign(negative, INFINITE as int)
        }
    } else {
        nearest(negative, a.size() * b.size(), unit())
    }
}

/// `a / b`.
pub open spec fn quotient(a: Binary64, b: Binary64) -> Binary64 {
    let negative = a.negative() != b.negative();
    if a.is_nan() || b.is_nan() {
        nan()
    } else if a.is_infinite() {
        if b.is_infinite() {
            nan()
        } else {
            with_sign(negative, INFINITE as int)
        }
    } else if b.is_infinite() {
        with_sign(negative, 0)
    } else if b.magnitude() == 0 {
        if a.magnitude() == 0 {
            nan()
        } else {
            with_sign(negative, INFINITE as int)
        }
    } else {
        nearest(negative, a.size() * unit(), b.size())
    }
}

/// `a < b`; false of what is not a number.
pub open spec fn less(a: Binary64, b: Binary64) -> bool {
    !a.is_nan() && !b.is_nan() && a.value() < b.value()
}

/// `a <= b`; false of what is not a number.
pub open spec fn at_most(a: Binary64, b: Binary64) -> bool {
    !a.is_nan() && !b.is_nan() && a.value() <= b.value()
}

/// `a == b`; false of what is not a number, true of the two zeros.
pub open spec fn equals(a: Binary64, b: Binary64) -> bool {
    !a.is_nan() && !b.is_nan() && a.value() == b.value()
}

/// The larger of the two; what is not a number is passed over.
pub open spec fn maximum(a: Binary64, b: Binary64) -> Binary64 {
    if a.is_nan() || less(a, b) {
        b
    } else {
        a
    }
}

/// The smaller of the two; what is not a number is passed over.
pub open spec fn minimum(a: Binary64, b: Binary64) -> Binary64 {
    if a.is_nan() || less(b, a) {
        b
    } else {
        a
    }
}

/// The greatest whole number that is not above `a`.
pub open spec fn floored(a: Binary64) -> Binary64 {
    if !a.is_finite() {
        a
    } else if a.negative() {
        nearest(true, (a.size() + unit() - 1) / unit() * unit(), 1)
    } else {
        nearest(false, a.size() / unit() * unit(), 1)
    }
}

/// The whole number nearest to `a`, the one further from zero of two that are
/// equally near.
pub open spec fn rounded(a: Binary64) -> Binary64 {
    if !a.is_finite() {
        a
    } else {
        nearest(a.negative(), (2 * a.size() + unit()) / (2 * unit()) * unit(), 1)
    }
}

/// `n / d`.
pub open spec fn ratio(n: int, d: int) -> Binary64 {
    nearest(n < 0, abs(n) * unit(), d)
}

/// The whole number `n`.
pub open spec fn whole(n: int) -> Binary64 {
    ratio(n, 1)
}

pub proof fn lemma_half_even_scale(n: int, d: int, c: int)
    requires
        n >= 0,
        d > 0,
        c > 0,
    ensures
        half_even(n * c, d * c) == half_even(n, d),
        d * c > 0,
{
    let q = n / d;
    let r = n % d;
    lemma_fundamental_div_mod(n, d);
    assert(n * c == q * (d * c) + r * c) by (nonlinear_arith)
        requires
            n == d * q + r,
    ;
    assert(0 <= r * c < d * c) by (nonlinear_arith)
        requires
            0 <= r < d,
            c > 0,
    ;
    lemma_fundamental_div_mod_converse(n * c, d * c, q, r * c);
    assert((2 * r < d) == (2 * (r * c) < d * c)) by (nonlinear_arith)
        requires
            c > 0,
    ;
    assert((2 * r == d) == (2 * (r * c) == d * c)) by (nonlinear_arith)
        requires
            c > 0,
    ;
}

/// Rounding `(m + g / u) / w`, where `g / u` is less than 1.
proof fn lemma_half_even_parts(m: int, g: int, u: int, w: int)
    requires
        m >= 0,
        w > 0,
        0 <= g < u,
        g > 0 ==> w % 2 == 0,
    ensures
        half_even(m * u + g, w * u) == if g == 0 {
            half_even(m, w)
        } else if 2 * (m % w) < w {
            m / w
        } else {
            m / w + 1
        },
{
    if g == 0 {
        lemma_half_even_scale(m, w, u);
    } else {
        let q = m / w;
        let r = m % w;
        lemma_fundamental_div_mod(m, w);
        let rest = r * u + g;
        assert(m * u + g == q * (w * u) + rest) by (nonlinear_arith)
            requires
                m == w * q + r,
                rest == r * u + g,
        ;
        assert(0 <= rest < w * u) by (nonlinear_arith)
            requires
                0 <= r < w,
                0 <= g < u,
                rest == r * u + g,
        ;
        lemma_fundamental_div_mod_converse(m * u + g, w * u, q, rest);
        if 2 * r < w {
            assert(2 * r + 2 <= w);
            assert(2 * rest < w * u) by (nonlinear_arith)
                requires
                    2 * r + 2 <= w,
                    0 < g < u,
                    rest == r * u + g,
            ;
        } else {
            assert(2 * rest > w * u) by (nonlinear_arith)
                requires
                    2 * r >= w,
                    0 < g < u,
                    rest == r * u + g,
            ;
        }
    }
}

pub proof fn lemma_binade(n: int, d: int, k: nat)
    requires
        n >= 0,
        d > 0,
        n < SIGNIFICANDS * d * pow2(k),
        k > 0 ==> n >= SIGNIFICANDS * d * pow2((k - 1) as nat),
    ensures
        binade(n, d) == k,
    decreases k,
{
    lemma_pow2_pos(k);
    if k == 0 {
        lemma_pow2_0();
    } else {
        let j = (k - 1) as nat;
        lemma_pow2_pos(j);
        lemma_pow2_unfold(k);
        assert(n >= SIGNIFICANDS * d) by (nonlinear_arith)
            requires
                n >= SIGNIFICANDS * d * pow2(j),
                pow2(j) >= 1,
                d > 0,
        ;
        assert(SIGNIFICANDS * (2 * d) * pow2(j) == SIGNIFICANDS * d * (2 * pow2(j)))
            by (nonlinear_arith);
        if j > 0 {
            let i = (j - 1) as nat;
            lemma_pow2_unfold(j);
            assert(SIGNIFICANDS * (2 * d) * pow2(i) == SIGNIFICANDS * d * (2 * pow2(i)))
                by (nonlinear_arith);
        }
        lemma_binade(n, 2 * d, j);
    }
}

pub proof fn lemma_pow2_0()
    ensures
        pow2(0) == 1,
{
    vstd::arithmetic::power2::lemma2_to64();
}

pub proof fn lemma_pow2_constants()
    ensures
        pow2(52) == BINADE,
        pow2(53) == SIGNIFICANDS,
{
    vstd::arithmetic::power2::lemma2_to64();
    vstd::arithmetic::power2::lemma2_to64_rest();
}

pub proof fn lemma_pow2_monotonic(i: nat, j: nat)
    requires
        i <= j,
    ensures
        0 < pow2(i) <= pow2(j),
{
    lemma_pow2_pos(i);
    if i < j {
        lemma_pow2_strictly_increases(i, j);
    }
}

/// That `n / d` is `m` times `2^(a - b)`, or, where `inexact`, lies strictly
/// between that and `m + 1` times as much.
spec fn stands_for(n: int, d: int, m: int, a: nat, b: nat, inexact: bool) -> bool {
    let u = d * pow2(a);
    if inexact {
        m * u < n * pow2(b) < (m + 1) * u
    } else {
        n * pow2(b) == m * u
    }
}

/// The binade and the rounded significand of what `m`, `a` and `b` stand for.
proof fn lemma_rounding(n: int, d: int, m: int, a: nat, b: nat, inexact: bool, s: nat, k: nat)
    requires
        n >= 0,
        d > 0,
        m >= 0,
        stands_for(n, d, m, a, b, inexact),
        inexact ==> m >= SIGNIFICANDS,
        m < pow2(53 + s),
        s > 0 ==> m >= pow2((52 + s) as nat),
        k == if a + s >= b { a + s - b } else { 0 },
        a + s > b && s == 0 ==> m >= BINADE,
    ensures
        binade(n, d) == k,
        k + b >= a + s,
        ({
            let t = (k + b - a) as nat;
            let w = pow2(t) as int;
            half_even(n, d * pow2(k)) == if !inexact {
                half_even(m, w)
            } else if 2 * (m % w) < w {
                m / w
            } else {
                m / w + 1
            }
        }),
{
    let u = d * pow2(a);
    let t = (k + b - a) as nat;
    let w = pow2(t) as int;
    lemma_pow2_pos(a);
    lemma_pow2_pos(b);
    lemma_pow2_pos(t);
    lemma_pow2_pos(k);
    lemma_pow2_constants();
    assert(u > 0) by (nonlinear_arith)
        requires
            u == d * pow2(a),
            d > 0,
            pow2(a) > 0,
    ;
    // The exponents on both sides.
    lemma_pow2_adds(t, a);
    lemma_pow2_adds(k, b);
    assert(pow2(t) * pow2(a) == pow2(k) * pow2(b)) by {
        assert(t + a == k + b);
    }
    let g = n * pow2(b) - m * u;
    assert(0 <= g < u && (g > 0 <==> inexact)) by (nonlinear_arith)
        requires
            inexact ==> m * u < n * pow2(b) < (m + 1) * u,
            !inexact ==> n * pow2(b) == m * u,
            g == n * pow2(b) - m * u,
            u > 0,
    ;
    // The binade.
    assert(n < SIGNIFICANDS * d * pow2(k)) by {
        lemma_pow2_adds(53, s);
        lemma_pow2_monotonic(s, t);
        let x = pow2(s) as int;
        let y = pow2(k) as int;
        let z = pow2(b) as int;
        assert(n * z < SIGNIFICANDS * x * u) by (nonlinear_arith)
            requires
                n * z == m * u + g,
                0 <= g < u,
                m + 1 <= SIGNIFICANDS * x,
        ;
        assert(SIGNIFICANDS * x * u <= SIGNIFICANDS * d * y * z) by (nonlinear_arith)
            requires
                0 < x <= w,
                u == d * pow2(a),
                w * pow2(a) == y * z,
                d > 0,
                pow2(a) > 0,
        {
            assert(x * u <= w * u);
            assert(w * u == d * (w * pow2(a)));
            assert(d * (y * z) == d * y * z);
        }
        assert(n < SIGNIFICANDS * d * y) by (nonlinear_arith)
            requires
                n * z < SIGNIFICANDS * d * y * z,
                z > 0,
        ;
    }
    if k > 0 {
        let j = (k - 1) as nat;
        let y = pow2(j) as int;
        let z = pow2(b) as int;
        lemma_pow2_unfold(k);
        assert(t == s);
        assert(2 * m >= SIGNIFICANDS * w) by {
            if s > 0 {
                lemma_pow2_adds(52, s);
                assert(pow2((52 + s) as nat) == BINADE * w);
                assert(2 * m >= 2 * (BINADE * w));
            } else {
                lemma_pow2_0();
            }
        }
        assert(n >= SIGNIFICANDS * d * y) by (nonlinear_arith)
            requires
                n * z >= m * u,
                2 * m >= SIGNIFICANDS * w,
                u == d * pow2(a),
                w * pow2(a) == 2 * y * z,
                d > 0,
                pow2(a) > 0,
                z > 0,
        {
            assert(2 * (n * z) >= 2 * m * u);
            assert(2 * m * u >= SIGNIFICANDS * w * u);
            assert(w * u == d * (w * pow2(a)));
            assert(SIGNIFICANDS * (w * u) == SIGNIFICANDS * d * (2 * y * z));
            assert(SIGNIFICANDS * d * (2 * y * z) == 2 * (SIGNIFICANDS * d * y * z));
            assert(n * z >= SIGNIFICANDS * d * y * z);
        }
    }
    lemma_binade(n, d, k);
    // The significand.
    let dk = d * pow2(k);
    assert(dk > 0) by (nonlinear_arith)
        requires
            dk == d * pow2(k),
            d > 0,
            pow2(k) > 0,
    ;
    lemma_half_even_scale(n, dk, pow2(b) as int);
    assert(dk * pow2(b) == w * u) by (nonlinear_arith)
        requires
            dk == d * pow2(k),
            u == d * pow2(a),
            w * pow2(a) == pow2(k) * pow2(b),
    ;
    if inexact {
        assert(w % 2 == 0) by {
            if s == 0 {
                assert(m < pow2(53));
            }
            assert(t > 0);
            lemma_pow2_unfold(t);
        }
    }
    lemma_half_even_parts(m, g, u, w);
}

proof fn lemma_pow2_120()
    ensures
        pow2(120) == 0x100_0000_0000_0000_0000_0000_0000_0000,
{
    vstd::arithmetic::power2::lemma2_to64();
    vstd::arithmetic::power2::lemma2_to64_rest();
    lemma_pow2_adds(64, 56);
}

/// `2^t`.
fn power_of_two(t: u32) -> (r: u128)
    requires
        t <= 120,
    ensures
        r == pow2(t as nat),
        r <= 0x100_0000_0000_0000_0000_0000_0000_0000,
{
    let mut r: u128 = 1;
    let mut i: u32 = 0;
    proof {
        lemma_pow2_0();
        lemma_pow2_120();
    }
    while i < t
        invariant
            i <= t <= 120,
            r == pow2(i as nat),
            r <= pow2(120),
            pow2(120) == 0x100_0000_0000_0000_0000_0000_0000_0000,
        decreases t - i,
    {
        proof {
            lemma_pow2_unfold((i + 1) as nat);
            lemma_pow2_monotonic((i + 1) as nat, 120);
        }
        r = 2 * r;
        i = i + 1;
    }
    r
}

/// The number nearest to what `m` and the exponent `e` stand for.
fn pack(
    negative: bool,
    m: u128,
    e: i32,
    inexact: bool,
    Ghost(n): Ghost<int>,
    Ghost(d): Ghost<int>,
    Ghost(a): Ghost<nat>,
    Ghost(b): Ghost<nat>,
) -> (r: Binary64)
    requires
        n >= 0,
        d > 0,
        m < 0x100_0000_0000_0000_0000_0000_0000_0000,
        inexact ==> m >= SIGNIFICANDS,
        e == a - b,
        -3900 <= e <= 3900,
        stands_for(n, d, m as int, a, b, inexact),
    ensures
        r == nearest(negative, n, d),
{
    let mut m: u128 = m;
    let mut e: i32 = e;
    let ghost mut a = a;
    while m < BINADE as u128 && e > 0
        invariant
            n >= 0,
            d > 0,
            m < 0x100_0000_0000_0000_0000_0000_0000_0000,
            inexact ==> m >= SIGNIFICANDS,
            e == a - b,
            -3900 <= e <= 3900,
            stands_for(n, d, m as int, a, b, inexact),
        decreases e,
    {
        proof {
            lemma_pow2_unfold(a);
            let x = pow2((a - 1) as nat) as int;
            assert(m * (d * (2 * x)) == (2 * m) * (d * x)) by (nonlinear_arith);
            a = (a - 1) as nat;
        }
        m = 2 * m;
        e = e - 1;
    }
    proof {
        lemma_pow2_0();
        lemma_pow2_120();
        lemma_pow2_constants();
    }
    let mut s: u32 = 0;
    let mut top: u128 = m;
    while top >= SIGNIFICANDS as u128
        invariant
            m < pow2(120),
            pow2(52) == BINADE,
            pow2(53) == SIGNIFICANDS,
            s <= 68,
            s > 0 ==> top >= BINADE,
            top * pow2(s as nat) <= m < (top + 1) * pow2(s as nat),
        decreases top,
    {
        proof {
            let x = pow2(s as nat) as int;
            let h = (top / 2) as int;
            lemma_pow2_unfold((s + 1) as nat);
            lemma_pow2_pos(s as nat);
            assert(h * (2 * x) <= m < (h + 1) * (2 * x)) by (nonlinear_arith)
                requires
                    top * x <= m < (top + 1) * x,
                    2 * h <= top <= 2 * h + 1,
                    x > 0,
            ;
            if s >= 68 {
                lemma_pow2_monotonic(120, (52 + s) as nat);
                lemma_pow2_adds(52, s as nat);
                assert(m >= BINADE * x) by (nonlinear_arith)
                    requires
                        top * x <= m,
                        top >= BINADE,
                        x > 0,
                ;
            }
        }
        top = top / 2;
        s = s + 1;
    }
    proof {
        let x = pow2(s as nat) as int;
        lemma_pow2_pos(s as nat);
        lemma_pow2_adds(53, s as nat);
        lemma_pow2_adds(52, s as nat);
        assert(m < SIGNIFICANDS * x) by (nonlinear_arith)
            requires
                m < (top + 1) * x,
                top + 1 <= SIGNIFICANDS,
                x > 0,
        ;
        if s > 0 {
            assert(m >= BINADE * x) by (nonlinear_arith)
                requires
                    top * x <= m,
                    top >= BINADE,
                    x > 0,
            ;
        }
    }
    let k: i32 = if e + (s as i32) >= 0 {
        e + (s as i32)
    } else {
        0
    };
    let t: u32 = (k - e) as u32;
    proof {
        lemma_rounding(n, d, m as int, a, b, inexact, s as nat, k as nat);
    }
    let q: u128;
    if t > 120 {
        q = 0;
        proof {
            let w = pow2(t as nat) as int;
            lemma_pow2_monotonic(121, t as nat);
            lemma_pow2_unfold(121);
            vstd::arithmetic::div_mod::lemma_small_mod(m as nat, w as nat);
            vstd::arithmetic::div_mod::lemma_basic_div(m as int, w);
        }
    } else {
        let w: u128 = power_of_two(t);
        proof {
            lemma_pow2_pos(t as nat);
        }
        let f: u128 = m / w;
        let r: u128 = m % w;
        proof {
            lemma_pow2_monotonic(s as nat, t as nat);
            let x = pow2(s as nat) as int;
            lemma_fundamental_div_mod(m as int, w as int);
            lemma_pow2_adds(53, s as nat);
            assert(f < SIGNIFICANDS) by (nonlinear_arith)
                requires
                    m == w * f + r,
                    r >= 0,
                    m < SIGNIFICANDS * x,
                    0 < x <= w,
            ;
        }
        let up: bool = if inexact {
            2 * r >= w
        } else {
            !(2 * r < w || (2 * r == w && f % 2 == 0))
        };
        q = if up {
            f + 1
        } else {
            f
        };
    }
    let magnitude: u64 = (k as u64) * BINADE + (q as u64);
    let magnitude: u64 = if magnitude < INFINITE {
        magnitude
    } else {
        INFINITE
    };
    Binary64 {
        bits: if negative {
            SIGN_BIT + magnitude
        } else {
            magnitude
        },
    }
}

proof fn lemma_pow2_112()
    ensures
        pow2(112) == 0x1_0000_0000_0000_0000_0000_0000_0000,
{
    vstd::arithmetic::power2::lemma2_to64();
    vstd::arithmetic::power2::lemma2_to64_rest();
    lemma_pow2_adds(64, 48);
}

/// The number nearest to `num / den` times `2^e`.
fn pack_ratio(
    negative: bool,
    num: u128,
    den: u128,
    e: i32,
    Ghost(n): Ghost<int>,
    Ghost(d): Ghost<int>,
    Ghost(a): Ghost<nat>,
    Ghost(b): Ghost<nat>,
) -> (r: Binary64)
    requires
        n >= 0,
        d > 0,
        num < 0x1_0000_0000_0000_0000_0000_0000_0000,
        0 < den < 0x1_0000_0000_0000_0000_0000_0000_0000,
        e == a - b,
        -3700 <= e <= 3700,
        n * pow2(b) * den == num * (d * pow2(a)),
    ensures
        r == nearest(negative, n, d),
{
    let ghost u = d * pow2(a);
    if num == 0 {
        proof {
            lemma_pow2_pos(b);
            assert(n * pow2(b) == 0 * u) by (nonlinear_arith)
                requires
                    n * pow2(b) * den == 0 * u,
                    den > 0,
            ;
        }
        return pack(negative, 0, e, false, Ghost(n), Ghost(d), Ghost(a), Ghost(b));
    }
    let mut q: u128 = num / den;
    let mut r: u128 = num % den;
    let mut j: i32 = 0;
    proof {
        lemma_fundamental_div_mod(num as int, den as int);
        lemma_pow2_0();
        lemma_pow2_112();
        lemma_pow2_constants();
        assert(q <= num) by (nonlinear_arith)
            requires
                num == den * q + r,
                r >= 0,
                den >= 1,
                q >= 0,
        ;
        assert(num * 1 == q * den + r) by (nonlinear_arith)
            requires
                num == den * q + r,
        ;
    }
    while q < SIGNIFICANDS as u128
        invariant
            num > 0,
            0 < den < 0x1_0000_0000_0000_0000_0000_0000_0000,
            0 <= j <= 165,
            num * pow2(j as nat) == q * den + r,
            r < den,
            q < 0x1_0000_0000_0000_0000_0000_0000_0000,
            pow2(112) == 0x1_0000_0000_0000_0000_0000_0000_0000,
            pow2(53) == SIGNIFICANDS,
        decreases 165 - j,
    {
        proof {
            let x = pow2(j as nat) as int;
            lemma_pow2_pos(j as nat);
            lemma_pow2_unfold((j + 1) as nat);
            lemma_pow2_adds(53, 112);
            assert(x < pow2(165)) by (nonlinear_arith)
                requires
                    num * x == q * den + r,
                    r < den,
                    q + 1 <= SIGNIFICANDS,
                    den < pow2(112),
                    num >= 1,
                    x > 0,
                    pow2(165) == SIGNIFICANDS * pow2(112),
            {
                assert(x <= num * x);
                assert(q * den + r < (q + 1) * den);
                assert((q + 1) * den <= SIGNIFICANDS * den);
            }
            if j >= 165 {
                lemma_pow2_monotonic(165, j as nat);
            }
            assert(num * (2 * x) == 2 * q * den + 2 * r) by (nonlinear_arith)
                requires
                    num * x == q * den + r,
            ;
            assert(2 * q * den == (2 * q) * den && (2 * q + 1) * den == (2 * q) * den + den)
                by (nonlinear_arith);
        }
        if 2 * r >= den {
            r = 2 * r - den;
            q = 2 * q + 1;
        } else {
            r = 2 * r;
            q = 2 * q;
        }
        j = j + 1;
    }
    let ghost c = (b + j) as nat;
    proof {
        let x = pow2(j as nat) as int;
        let y = pow2(b) as int;
        let z = pow2(c) as int;
        lemma_pow2_pos(a);
        lemma_pow2_adds(b, j as nat);
        assert(u > 0) by (nonlinear_arith)
            requires
                u == d * pow2(a),
                d > 0,
                pow2(a) > 0,
        ;
        assert(n * z * den == (q * den + r) * u) by (nonlinear_arith)
            requires
                z == y * x,
                n * y * den == num * u,
                num * x == q * den + r,
        {
            assert(n * (y * x) * den == (n * y * den) * x);
            assert(num * u * x == (num * x) * u);
        }
        if r == 0 {
            assert(n * z == q * u) by (nonlinear_arith)
                requires
                    n * z * den == (q * den + 0) * u,
                    den > 0,
            {
                assert(q * den * u == q * u * den);
            }
        } else {
            assert(q * u < n * z < (q + 1) * u) by (nonlinear_arith)
                requires
                    n * z * den == (q * den + r) * u,
                    0 < r < den,
                    u > 0,
            {
                assert(q * den * u == q * u * den);
                assert((q + 1) * u * den == q * u * den + den * u);
                assert((q * den + r) * u == q * u * den + r * u);
                assert(0 < r * u < den * u);
            }
        }
    }
    pack(negative, q, e - j, r != 0, Ghost(n), Ghost(d), Ghost(a), Ghost(c))
}

pub proof fn lemma_parts(magnitude: int)
    requires
        0 <= magnitude,
    ensures
        0 <= significand(magnitude) < SIGNIFICANDS,
        exponent(magnitude) > 0 ==> significand(magnitude) >= BINADE,
        magnitude < INFINITE ==> exponent(magnitude) <= 2045,
        magnitude == 0 <==> significand(magnitude) == 0,
        scaled(magnitude) >= 0,
        magnitude > 0 ==> scaled(magnitude) > 0,
        magnitude == 0 ==> scaled(magnitude) == 0,
{
    lemma_fundamental_div_mod(magnitude, BINADE as int);
    lemma_mod_bound(magnitude, BINADE as int);
    let m = significand(magnitude);
    let x = pow2(exponent(magnitude)) as int;
    lemma_pow2_pos(exponent(magnitude));
    assert(m >= 0 ==> m * x >= 0) by (nonlinear_arith)
        requires
            x > 0,
    ;
    assert(m > 0 ==> m * x > 0) by (nonlinear_arith)
        requires
            x > 0,
    ;
}

/// The significand and the exponent of a magnitude.
fn parts(magnitude: u64) -> (r: (u64, i32))
    requires
        magnitude < INFINITE,
    ensures
        r.0 == significand(magnitude as int),
        r.1 == exponent(magnitude as int),
        0 <= r.1 <= 2045,
        r.0 < SIGNIFICANDS,
        r.1 > 0 ==> r.0 >= BINADE,
{
    proof {
        lemma_parts(magnitude as int);
        lemma_fundamental_div_mod(magnitude as int, BINADE as int);
    }
    if magnitude < BINADE {
        (magnitude, 0)
    } else {
        let e: u64 = magnitude / BINADE - 1;
        (magnitude - e * BINADE, e as i32)
    }
}

impl Binary64 {
    fn is_below_zero(self) -> (r: bool)
        ensures
            r == self.negative(),
    {
        self.bits >= SIGN_BIT
    }

    fn unsigned(self) -> (r: u64)
        ensures
            r == self.magnitude(),
    {
        if self.bits >= SIGN_BIT {
            self.bits - SIGN_BIT
        } else {
            self.bits
        }
    }

    fn signed(negative: bool, magnitude: u64) -> (r: Binary64)
        requires
            magnitude < SIGN_BIT,
        ensures
            r == with_sign(negative, magnitude as int),
    {
        Binary64 {
            bits: if negative {
                SIGN_BIT + magnitude
            } else {
                magnitude
            },
        }
    }

    /// `self * other`.
    pub fn times(self, other: Binary64) -> (r: Binary64)
        ensures
            r == product(self, other),
    {
        let x: u64 = self.unsigned();
        let y: u64 = other.unsigned();
        let negative: bool = self.is_below_zero() != other.is_below_zero();
        if x > INFINITE || y > INFINITE {
            return Binary64 { bits: NOT_A_NUMBER };
        }
        if x == INFINITE || y == INFINITE {
            return if x == 0 || y == 0 {
                Binary64 { bits: NOT_A_NUMBER }
            } else {
                Binary64::signed(negative, INFINITE)
            };
        }
        let (m1, k1) = parts(x);
        let (m2, k2) = parts(y);
        let ghost p1 = pow2(k1 as nat) as int;
        let ghost p2 = pow2(k2 as nat) as int;
        proof {
            lemma_parts(x as int);
            lemma_parts(y as int);
            lemma_pow2_pos(1074);
            assert(0 <= m1 * m2 < 0x400_0000_0000_0000_0000_0000_0000) by (nonlinear_arith)
                requires
                    0 <= m1 < SIGNIFICANDS,
                    0 <= m2 < SIGNIFICANDS,
            ;
            lemma_pow2_adds(k1 as nat, k2 as nat);
            assert(self.size() * other.size() >= 0) by (nonlinear_arith)
                requires
                    self.size() >= 0,
                    other.size() >= 0,
            ;
            assert((m1 * p1) * (m2 * p2) * unit() == (m1 * m2) * (unit() * (p1 * p2)))
                by (nonlinear_arith);
        }
        let m: u128 = (m1 as u128) * (m2 as u128);
        pack(
            negative,
            m,
            k1 + k2 - 1074,
            false,
            Ghost(self.size() * other.size()),
            Ghost(unit()),
            Ghost((k1 + k2) as nat),
            Ghost(1074),
        )
    }

    /// `self / other`.
    pub fn over(self, other: Binary64) -> (r: Binary64)
        ensures
            r == quotient(self, other),
    {
        let x: u64 = self.unsigned();
        let y: u64 = other.unsigned();
        let negative: bool = self.is_below_zero() != other.is_below_zero();
        if x > INFINITE || y > INFINITE {
            return Binary64 { bits: NOT_A_NUMBER };
        }
        if x == INFINITE {
            return if y == INFINITE {
                Binary64 { bits: NOT_A_NUMBER }
            } else {
                Binary64::signed(negative, INFINITE)
            };
        }
        if y == INFINITE {
            return Binary64::signed(negative, 0);
        }
        if y == 0 {
            return if x == 0 {
                Binary64 { bits: NOT_A_NUMBER }
            } else {
                Binary64::signed(negative, INFINITE)
            };
        }
        let (m1, k1) = parts(x);
        let (m2, k2) = parts(y);
        let ghost p1 = pow2(k1 as nat) as int;
        let ghost p2 = pow2(k2 as nat) as int;
        proof {
            lemma_parts(x as int);
            lemma_parts(y as int);
            lemma_pow2_pos(1074);
            lemma_pow2_adds(k1 as nat, 1074);
            assert(self.size() * unit() >= 0) by (nonlinear_arith)
                requires
                    self.size() >= 0,
                    unit() >= 0,
            ;
            assert(((m1 * p1) * unit()) * p2 * m2 == m1 * ((m2 * p2) * (p1 * unit())))
                by (nonlinear_arith);
        }
        pack_ratio(
            negative,
            m1 as u128,
            m2 as u128,
            k1 + 1074 - k2,
            Ghost(self.size() * unit()),
            Ghost(other.size()),
            Ghost((k1 + 1074) as nat),
            Ghost(k2 as nat),
        )
    }

    /// `num / den`.
    pub fn from_ratio(negative: bool, num: u128, den: u128) -> (r: Binary64)
        requires
            num < 0x1_0000_0000_0000_0000_0000_0000_0000,
            0 < den < 0x1_0000_0000_0000_0000_0000_0000_0000,
        ensures
            r == nearest(negative, num * unit(), den as int),
            !negative ==> r == ratio(num as int, den as int),
            negative && num > 0 ==> r == ratio(-num, den as int),
    {
        proof {
            lemma_pow2_0();
            lemma_pow2_pos(1074);
            assert(num * unit() >= 0) by (nonlinear_arith)
                requires
                    unit() >= 0,
                    num >= 0,
            ;
            assert(num * unit() * 1 * den == num * (den * unit())) by (nonlinear_arith);
        }
        pack_ratio(
            negative,
            num,
            den,
            1074,
            Ghost(num * unit()),
            Ghost(den as int),
            Ghost(1074),
            Ghost(0),
        )
    }

    /// The whole number `n`.
    pub fn from_u64(n: u64) -> (r: Binary64)
        ensures
            r == whole(n as int),
    {
        Binary64::from_ratio(false, n as u128, 1)
    }
}

/// A larger magnitude stands for a larger value.
pub proof fn lemma_scaled_increases(x: int, y: int)
    requires
        0 <= x < y,
    ensures
        scaled(x) < scaled(y),
        exponent(x) <= exponent(y),
{
    lemma_parts(x);
    lemma_parts(y);
    lemma_fundamental_div_mod(x, BINADE as int);
    lemma_fundamental_div_mod(y, BINADE as int);
    lemma_mod_bound(x, BINADE as int);
    lemma_mod_bound(y, BINADE as int);
    let kx = exponent(x);
    let ky = exponent(y);
    let px = pow2(kx) as int;
    let py = pow2(ky) as int;
    lemma_pow2_pos(kx);
    if kx == ky {
        assert(significand(x) * px < significand(y) * px) by (nonlinear_arith)
            requires
                significand(x) < significand(y),
                px > 0,
        ;
    } else {
        lemma_pow2_unfold((kx + 1) as nat);
        lemma_pow2_monotonic((kx + 1) as nat, ky);
        assert(significand(x) * px < significand(y) * py) by (nonlinear_arith)
            requires
                significand(x) < SIGNIFICANDS,
                significand(y) >= BINADE,
                px > 0,
                py >= 2 * px,
        ;
    }
}

pub proof fn lemma_value_order(a: Binary64, b: Binary64)
    requires
        !a.is_nan(),
        !b.is_nan(),
    ensures
        a.magnitude() < b.magnitude() <==> a.size() < b.size(),
        a.magnitude() == b.magnitude() <==> a.size() == b.size(),
        a.size() >= 0,
        a.size() == 0 <==> a.magnitude() == 0,
{
    lemma_parts(a.magnitude());
    if a.magnitude() < b.magnitude() {
        lemma_scaled_increases(a.magnitude(), b.magnitude());
    } else if b.magnitude() < a.magnitude() {
        lemma_scaled_increases(b.magnitude(), a.magnitude());
    }
}

/// The number nearest to the sum, or to the difference, of two finite
/// magnitudes, the first not the smaller.
fn combine(negative: bool, subtract: bool, x: u64, y: u64) -> (r: Binary64)
    requires
        y <= x < INFINITE,
    ensures
        r == nearest(
            negative,
            if subtract {
                scaled(x as int) - scaled(y as int)
            } else {
                scaled(x as int) + scaled(y as int)
            },
            1,
        ),
{
    let ghost n = if subtract {
        scaled(x as int) - scaled(y as int)
    } else {
        scaled(x as int) + scaled(y as int)
    };
    let (m1, k1) = parts(x);
    let (m2, k2) = parts(y);
    let ghost p1 = pow2(k1 as nat) as int;
    let ghost p2 = pow2(k2 as nat) as int;
    proof {
        lemma_parts(x as int);
        lemma_parts(y as int);
        if y < x {
            lemma_scaled_increases(y as int, x as int);
        }
        assert(n >= 0);
        lemma_pow2_0();
        lemma_pow2_pos(k2 as nat);
    }
    if k1 - k2 <= 64 {
        let t: u32 = (k1 - k2) as u32;
        let w: u128 = power_of_two(t);
        proof {
            vstd::arithmetic::power2::lemma2_to64();
            lemma_pow2_monotonic(t as nat, 64);
            lemma_pow2_adds(t as nat, k2 as nat);
            assert(0 <= m1 * w < 0x20_0000_0000_0000_0000_0000_0000_0000) by (nonlinear_arith)
                requires
                    0 <= m1 < SIGNIFICANDS,
                    0 < w <= 0x1_0000_0000_0000_0000,
            ;
            assert((m1 * w) * p2 == m1 * (w * p2)) by (nonlinear_arith);
            assert((m1 * w + m2) * p2 == (m1 * w) * p2 + m2 * p2) by (nonlinear_arith);
            assert((m1 * w - m2) * p2 == (m1 * w) * p2 - m2 * p2) by (nonlinear_arith);
            assert(m1 * w < m2 ==> (m1 * w) * p2 < m2 * p2) by (nonlinear_arith)
                requires
                    p2 > 0,
            ;
            assert(m1 * w >= m2);
        }
        let high: u128 = (m1 as u128) * w;
        let m: u128 = if subtract {
            high - m2 as u128
        } else {
            high + m2 as u128
        };
        pack(negative, m, k2, false, Ghost(n), Ghost(1), Ghost(k2 as nat), Ghost(0))
    } else {
        let t: u32 = (k1 - k2 - 64) as u32;
        let low: u64;
        let rest: bool;
        let ghost mut remainder: int = 0;
        if t >= 64 {
            low = 0;
            rest = m2 != 0;
            proof {
                remainder = m2 as int;
                vstd::arithmetic::power2::lemma2_to64();
                lemma_pow2_monotonic(64, t as nat);
            }
        } else {
            let w: u128 = power_of_two(t);
            proof {
                lemma_pow2_pos(t as nat);
                lemma_fundamental_div_mod(m2 as int, w as int);
                lemma_mod_bound(m2 as int, w as int);
                assert((m2 as u128) / w <= m2) by (nonlinear_arith)
                    requires
                        w > 0,
                        m2 >= 0,
                ;
                remainder = (m2 as u128 % w) as int;
            }
            low = ((m2 as u128) / w) as u64;
            rest = (m2 as u128) % w != 0;
        }
        let ghost a = (k1 - 64) as nat;
        let ghost u = pow2(a) as int;
        let ghost w = pow2(t as nat) as int;
        proof {
            assert(m2 == low * w + remainder) by (nonlinear_arith)
                requires
                    m2 == w * low + remainder,
            ;
            assert(0 <= remainder < w);
            assert(low <= m2);
            vstd::arithmetic::power2::lemma2_to64();
            lemma_pow2_adds(t as nat, k2 as nat);
            lemma_pow2_adds(64, a);
            lemma_pow2_pos(a);
            assert(m1 * (0x1_0000_0000_0000_0000 * u) == (m1 * 0x1_0000_0000_0000_0000) * u)
                by (nonlinear_arith);
            assert(m2 * p2 == low * u + remainder * p2) by (nonlinear_arith)
                requires
                    m2 == low * w + remainder,
                    u == w * p2,
            ;
            assert(0 <= remainder * p2 < u && (remainder > 0 <==> remainder * p2 > 0))
                by (nonlinear_arith)
                requires
                    0 <= remainder < w,
                    u == w * p2,
                    p2 > 0,
            ;
        }
        let high: u128 = (m1 as u128) * 0x1_0000_0000_0000_0000;
        let m: u128 = if !subtract {
            high + low as u128
        } else if rest {
            high - low as u128 - 1
        } else {
            high - low as u128
        };
        proof {
            assert((high + low) * u == high * u + low * u) by (nonlinear_arith);
            assert((high + low + 1) * u == high * u + low * u + u) by (nonlinear_arith);
            assert((high - low) * u == high * u - low * u) by (nonlinear_arith);
            assert((high - low - 1) * u == high * u - low * u - u) by (nonlinear_arith);
            assert(p1 == 0x1_0000_0000_0000_0000 * u);
            assert(scaled(x as int) == high * u);
            assert(scaled(y as int) == low * u + remainder * p2);
            assert(rest <==> remainder > 0);
            assert(1 * pow2(a) == u);
            assert(n * pow2(0) == n);
            if subtract && rest {
                assert(m == high - low - 1);
                assert(m * u < n < (m + 1) * u);
            } else if subtract {
                assert(n == m * u);
            } else if rest {
                assert(m * u < n < (m + 1) * u);
            } else {
                assert(n == m * u);
            }
        }
        pack(negative, m, k1 - 64, rest, Ghost(n), Ghost(1), Ghost(a), Ghost(0))
    }
}

impl Binary64 {
    /// `self + other`.
    pub fn plus(self, other: Binary64) -> (r: Binary64)
        ensures
            r == sum(self, other),
    {
        let x: u64 = self.unsigned();
        let y: u64 = other.unsigned();
        let p: bool = self.is_below_zero();
        let q: bool = other.is_below_zero();
        if x > INFINITE || y > INFINITE {
            return Binary64 { bits: NOT_A_NUMBER };
        }
        if x == INFINITE {
            return if y == INFINITE && p != q {
                Binary64 { bits: NOT_A_NUMBER }
            } else {
                self
            };
        }
        if y == INFINITE {
            return other;
        }
        proof {
            lemma_value_order(self, other);
            lemma_value_order(other, self);
        }
        if p != q && x == y {
            Binary64::signed(false, 0)
        } else if p == q && x == 0 && y == 0 {
            Binary64::signed(p, 0)
        } else if x >= y {
            combine(p, p != q, x, y)
        } else {
            combine(q, p != q, y, x)
        }
    }

    /// `-self`.
    pub fn negated(self) -> (r: Binary64)
        ensures
            r == negation(self),
    {
        let m: u64 = self.unsigned();
        let negative: bool = self.is_below_zero();
        Binary64::signed(!negative, m)
    }

    /// `self - other`.
    pub fn minus(self, other: Binary64) -> (r: Binary64)
        ensures
            r == difference(self, other),
    {
        self.plus(other.negated())
    }

    /// `self < other`.
    pub fn lt(self, other: Binary64) -> (r: bool)
        ensures
            r == less(self, other),
    {
        let x: u64 = self.unsigned();
        let y: u64 = other.unsigned();
        if x > INFINITE || y > INFINITE {
            return false;
        }
        proof {
            lemma_value_order(self, other);
            lemma_value_order(other, self);
        }
        let p: bool = self.is_below_zero();
        let q: bool = other.is_below_zero();
        if p && q {
            y < x
        } else if p {
            x != 0 || y != 0
        } else if q {
            false
        } else {
            x < y
        }
    }

    /// `self == other`.
    pub fn same(self, other: Binary64) -> (r: bool)
        ensures
            r == equals(self, other),
    {
        let x: u64 = self.unsigned();
        let y: u64 = other.unsigned();
        if x > INFINITE || y > INFINITE {
            return false;
        }
        proof {
            lemma_value_order(self, other);
            lemma_value_order(other, self);
        }
        x == y && (x == 0 || self.is_below_zero() == other.is_below_zero())
    }

    /// `self <= other`.
    pub fn le(self, other: Binary64) -> (r: bool)
        ensures
            r == at_most(self, other),
    {
        self.lt(other) || self.same(other)
    }

    /// The larger of the two.
    pub fn larger(self, other: Binary64) -> (r: Binary64)
        ensures
            r == maximum(self, other),
    {
        if self.unsigned() > INFINITE || self.lt(other) {
            other
        } else {
            self
        }
    }

    /// The smaller of the two.
    pub fn smaller(self, other: Binary64) -> (r: Binary64)
        ensures
            r == minimum(self, other),
    {
        if self.unsigned() > INFINITE || other.lt(self) {
            other
        } else {
            self
        }
    }
}

/// The quotient of a size by the unit, and whether something is left over.
fn whole_part(x: u64) -> (r: (u64, bool, bool))
    requires
        x < INFINITE,
        exponent(x as int) < 1074,
    ensures
        r.0 == scaled(x as int) / unit(),
        r.0 < SIGNIFICANDS,
        r.1 == (scaled(x as int) % unit() != 0),
        r.2 == (2 * (scaled(x as int) % unit()) >= unit()),
{
    let (m, k) = parts(x);
    let t: u32 = (1074 - k) as u32;
    let ghost p = pow2(k as nat) as int;
    let ghost w = pow2(t as nat) as int;
    let ghost q = m as int / w;
    let ghost r = m as int % w;
    proof {
        lemma_pow2_pos(k as nat);
        lemma_pow2_pos(t as nat);
        lemma_pow2_adds(t as nat, k as nat);
        lemma_fundamental_div_mod(m as int, w);
        lemma_mod_bound(m as int, w);
        assert(m * p == q * unit() + r * p) by (nonlinear_arith)
            requires
                m == w * q + r,
                unit() == w * p,
        ;
        assert(0 <= r * p < unit()) by (nonlinear_arith)
            requires
                0 <= r < w,
                unit() == w * p,
                p > 0,
        ;
        lemma_fundamental_div_mod_converse(m * p, unit(), q, r * p);
        assert((r != 0) == (r * p != 0)) by (nonlinear_arith)
            requires
                p > 0,
        ;
        assert((2 * r >= w) == (2 * (r * p) >= unit())) by (nonlinear_arith)
            requires
                unit() == w * p,
                p > 0,
        ;
        assert(q <= m && q >= 0) by (nonlinear_arith)
            requires
                m == w * q + r,
                0 <= r < w,
                m >= 0,
        ;
    }
    if t > 64 {
        proof {
            vstd::arithmetic::power2::lemma2_to64();
            lemma_pow2_monotonic(64, t as nat);
            lemma_pow2_unfold(65);
            lemma_pow2_monotonic(65, t as nat);
            lemma_fundamental_div_mod_converse(m as int, w, 0, m as int);
        }
        (0, m != 0, false)
    } else {
        let v: u128 = power_of_two(t);
        let f: u128 = (m as u128) / v;
        let rest: u128 = (m as u128) % v;
        (f as u64, rest != 0, 2 * rest >= v)
    }
}

pub proof fn lemma_whole_size(a: Binary64)
    requires
        a.is_finite(),
        exponent(a.magnitude()) >= 1074,
    ensures
        a.size() % unit() == 0,
        a.size() / unit() * unit() == a.size(),
        (a.size() + unit() - 1) / unit() * unit() == a.size(),
        (2 * a.size() + unit()) / (2 * unit()) * unit() == a.size(),
{
    let k = exponent(a.magnitude());
    let m = significand(a.magnitude());
    let j = (k - 1074) as nat;
    let c = m * pow2(j);
    lemma_parts(a.magnitude());
    lemma_pow2_pos(1074);
    lemma_pow2_adds(j, 1074);
    assert(a.size() == c * unit()) by (nonlinear_arith)
        requires
            a.size() == m * (pow2(j) * unit()),
            c == m * pow2(j),
    ;
    lemma_fundamental_div_mod_converse(a.size(), unit(), c, 0);
    lemma_fundamental_div_mod_converse(a.size() + unit() - 1, unit(), c, unit() - 1);
    assert(2 * a.size() + unit() == c * (2 * unit()) + unit()) by (nonlinear_arith)
        requires
            a.size() == c * unit(),
    ;
    lemma_fundamental_div_mod_converse(2 * a.size() + unit(), 2 * unit(), c, unit());
}

impl Binary64 {
    /// This number again, rebuilt from its parts.
    fn repacked(self) -> (r: Binary64)
        requires
            self.is_finite(),
        ensures
            r == nearest(self.negative(), self.size(), 1),
    {
        let (m, k) = parts(self.unsigned());
        proof {
            lemma_pow2_0();
            lemma_parts(self.magnitude());
        }
        pack(
            self.is_below_zero(),
            m as u128,
            k,
            false,
            Ghost(self.size()),
            Ghost(1),
            Ghost(k as nat),
            Ghost(0),
        )
    }

    /// The greatest whole number that is not above this one.
    pub fn floor(self) -> (r: Binary64)
        ensures
            r == floored(self),
    {
        let x: u64 = self.unsigned();
        if x >= INFINITE {
            return self;
        }
        let (_, k) = parts(x);
        if k >= 1074 {
            proof {
                lemma_whole_size(self);
            }
            return self.repacked();
        }
        let (q, rest, _) = whole_part(x);
        let negative: bool = self.is_below_zero();
        proof {
            lemma_pow2_pos(1074);
            lemma_fundamental_div_mod(self.size(), unit());
            lemma_mod_bound(self.size(), unit());
            let r = self.size() % unit();
            if r == 0 {
                lemma_fundamental_div_mod_converse(
                    self.size() + unit() - 1,
                    unit(),
                    q as int,
                    unit() - 1,
                );
            } else {
                assert(self.size() + unit() - 1 == unit() * (q + 1) + (r - 1)) by (nonlinear_arith)
                    requires
                        self.size() == unit() * q + r,
                ;
                lemma_fundamental_div_mod_converse(
                    self.size() + unit() - 1,
                    unit(),
                    q + 1,
                    r - 1,
                );
            }
        }
        let n: u64 = if negative && rest {
            q + 1
        } else {
            q
        };
        Binary64::from_ratio(negative, n as u128, 1)
    }

    /// The whole number nearest to this one, away from zero at a tie.
    pub fn round(self) -> (r: Binary64)
        ensures
            r == rounded(self),
    {
        let x: u64 = self.unsigned();
        if x >= INFINITE {
            return self;
        }
        let (_, k) = parts(x);
        if k >= 1074 {
            proof {
                lemma_whole_size(self);
            }
            return self.repacked();
        }
        let (q, _, half) = whole_part(x);
        let negative: bool = self.is_below_zero();
        proof {
            lemma_pow2_pos(1074);
            lemma_fundamental_div_mod(self.size(), unit());
            lemma_mod_bound(self.size(), unit());
            let r = self.size() % unit();
            if half {
                assert(2 * self.size() + unit() == (2 * unit()) * (q + 1) + (2 * r - unit()))
                    by (nonlinear_arith)
                    requires
                        self.size() == unit() * q + r,
                ;
                lemma_fundamental_div_mod_converse(
                    2 * self.size() + unit(),
                    2 * unit(),
                    q + 1,
                    2 * r - unit(),
                );
            } else {
                assert(2 * self.size() + unit() == (2 * unit()) * q + (2 * r + unit()))
                    by (nonlinear_arith)
                    requires
                        self.size() == unit() * q + r,
                ;
                lemma_fundamental_div_mod_converse(
                    2 * self.size() + unit(),
                    2 * unit(),
                    q as int,
                    2 * r + unit(),
                );
            }
        }
        let n: u64 = if half {
            q + 1
        } else {
            q
        };
        Binary64::from_ratio(negative, n as u128, 1)
    }
}

/// A finite number is the one nearest to its own value: no operation whose
/// exact result is a number of the format is off.
pub proof fn law_nearest_is_exact(a: Binary64)
    requires
        a.is_finite(),
    ensures
        nearest(a.negative(), a.size(), 1) == a,
{
    let k = exponent(a.magnitude());
    let m = significand(a.magnitude());
    lemma_parts(a.magnitude());
    lemma_pow2_0();
    lemma_pow2_constants();
    assert(a.size() * pow2(0) == m * (1 * pow2(k))) by (nonlinear_arith)
        requires
            a.size() == m * pow2(k),
            pow2(0) == 1,
    ;
    lemma_rounding(a.size(), 1, m, k, 0, false, 0, k);
    assert(m / 1 == m && m % 1 == 0) by (nonlinear_arith);
}

/// The order of what is added does not matter.
pub proof fn law_sum_commutes(a: Binary64, b: Binary64)
    ensures
        sum(a, b) == sum(b, a),
{
}

/// The order of what is multiplied does not matter.
pub proof fn law_product_commutes(a: Binary64, b: Binary64)
    ensures
        product(a, b) == product(b, a),
{
    assert(a.size() * b.size() == b.size() * a.size()) by (nonlinear_arith);
}

/// Adding a number above zero to zero gives the number.
pub proof fn law_zero_plus(a: Binary64)
    requires
        less(whole(0), a),
    ensures
        sum(whole(0), a) == a,
{
    lemma_zero();
    lemma_value_order(a, whole(0));
    lemma_value_order(whole(0), a);
    if a.is_finite() {
        law_nearest_is_exact(a);
    }
}

/// Zero is the pattern without a bit.
pub proof fn lemma_zero()
    ensures
        whole(0) == (Binary64 { bits: 0 }),
        whole(0).value() == 0,
        !whole(0).is_nan(),
{
    let zero = Binary64 { bits: 0 };
    lemma_parts(0);
    law_nearest_is_exact(zero);
    assert(abs(0) * unit() == 0) by (nonlinear_arith);
}

/// The larger of two numbers is at least each of them.
pub proof fn law_maximum_bounds(a: Binary64, b: Binary64)
    requires
        !a.is_nan() || !b.is_nan(),
    ensures
        !a.is_nan() ==> at_most(a, maximum(a, b)),
        !b.is_nan() ==> at_most(b, maximum(a, b)),
        maximum(a, b) == a || maximum(a, b) == b,
{
}

} // verus!
