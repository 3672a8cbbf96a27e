//! What the operations on binary64 numbers give: of all numbers the one nearest to the
//! exact result.
use crate::binary64::{
    abs, difference, nearest, nearest_magnitude, negation, product, quotient, sum, unit, Binary64,
};
use crate::binary64_laws::{
    law_nearest_is_nearest, lemma_nearest, lemma_unit, lemma_with_sign, lemma_within,
};
use crate::decimal::Decimal;
use vstd::arithmetic::power::{lemma_pow_positive, pow};
use vstd::prelude::*;

verus! {

/// No finite number is nearer to a fraction than the one it is rounded to.
proof fn lemma_none_nearer(negative: bool, n: int, d: int, other: Binary64)
    requires
        n >= 0,
        d > 0,
        nearest(negative, n, d).is_finite(),
        other.is_finite(),
    ensures
        nearest(negative, n, d).negative() == negative,
        abs(nearest(negative, n, d).size() * d - n) <= abs(other.size() * d - n),
{
    lemma_nearest(negative, n, d);
    lemma_with_sign(negative, nearest_magnitude(n, d));
    law_nearest_is_nearest(n, d, other);
}

/// A sum is nearest to the sum of the two values.
pub proof fn law_sum_is_nearest(a: Binary64, b: Binary64, other: Binary64)
    requires
        a.is_finite(),
        b.is_finite(),
        other.is_finite(),
        sum(a, b).is_finite(),
    ensures
        abs(sum(a, b).value() - (a.value() + b.value())) <= abs(
            other.value() - (a.value() + b.value()),
        ),
{
    let v = a.value() + b.value();
    lemma_with_sign(a.negative() && b.negative(), 0);
    if v != 0 {
        lemma_none_nearer(v < 0, abs(v), 1, other);
        lemma_within(other);
        lemma_within(sum(a, b));
    }
}

/// A difference is nearest to the difference of the two values.
pub proof fn law_difference_is_nearest(a: Binary64, b: Binary64, other: Binary64)
    requires
        a.is_finite(),
        b.is_finite(),
        other.is_finite(),
        difference(a, b).is_finite(),
    ensures
        abs(difference(a, b).value() - (a.value() - b.value())) <= abs(
            other.value() - (a.value() - b.value()),
        ),
{
    lemma_with_sign(!b.negative(), b.magnitude());
    law_sum_is_nearest(a, negation(b), other);
}

/// A product is nearest to the product of the two values, and negative where one of
/// them is.
pub proof fn law_product_is_nearest(a: Binary64, b: Binary64, other: Binary64)
    requires
        a.is_finite(),
        b.is_finite(),
        other.is_finite(),
        product(a, b).is_finite(),
    ensures
        product(a, b).negative() == (a.negative() != b.negative()),
        abs(product(a, b).size() * unit() - a.size() * b.size()) <= abs(
            other.size() * unit() - a.size() * b.size(),
        ),
{
    lemma_unit();
    lemma_within(a);
    lemma_within(b);
    assert(a.size() * b.size() >= 0) by (nonlinear_arith)
        requires
            a.size() >= 0,
            b.size() >= 0,
    ;
    lemma_none_nearer(a.negative() != b.negative(), a.size() * b.size(), unit(), other);
}

/// A quotient is nearest to the quotient of the two values, and negative where one of
/// them is.
pub proof fn law_quotient_is_nearest(a: Binary64, b: Binary64, other: Binary64)
    requires
        a.is_finite(),
        b.is_finite(),
        b.size() > 0,
        other.is_finite(),
        quotient(a, b).is_finite(),
    ensures
        quotient(a, b).negative() == (a.negative() != b.negative()),
        abs(quotient(a, b).size() * b.size() - a.size() * unit()) <= abs(
            other.size() * b.size() - a.size() * unit(),
        ),
{
    lemma_unit();
    lemma_within(a);
    assert(a.size() * unit() >= 0) by (nonlinear_arith)
        requires
            a.size() >= 0,
            unit() > 0,
    ;
    crate::binary64::lemma_parts(0);
    lemma_none_nearer(a.negative() != b.negative(), a.size() * unit(), b.size(), other);
}

/// What is not a number makes every result not a number.
pub proof fn law_not_a_number_spreads(a: Binary64, b: Binary64)
    requires
        a.is_nan() || b.is_nan(),
    ensures
        sum(a, b).is_nan(),
        product(a, b).is_nan(),
        quotient(a, b).is_nan(),
{
}

/// A decimal number is rounded to the nearest number of the same sign.
pub proof fn law_decimal_is_nearest(d: Decimal, other: Binary64)
    requires
        d.nearest_binary64().is_finite(),
        other.is_finite(),
    ensures
        d.nearest_binary64().negative() == (d.mantissa < 0),
        abs(
            d.nearest_binary64().size() * pow(10, d.scale as nat) - abs(d.mantissa as int) * unit(),
        ) <= abs(other.size() * pow(10, d.scale as nat) - abs(d.mantissa as int) * unit()),
{
    let m = abs(d.mantissa as int);
    lemma_unit();
    lemma_pow_positive(10, d.scale as nat);
    assert(m * unit() >= 0) by (nonlinear_arith)
        requires
            m >= 0,
            unit() > 0,
    ;
    lemma_none_nearer(d.mantissa < 0, m * unit(), pow(10, d.scale as nat), other);
}

} // verus!
