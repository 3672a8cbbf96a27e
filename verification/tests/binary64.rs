use updown::binary64::Binary64;

fn of(x: f64) -> Binary64 {
    Binary64 { bits: x.to_bits() }
}

fn is(a: Binary64, x: f64) -> bool {
    if x.is_nan() {
        f64::from_bits(a.bits).is_nan()
    } else {
        a.bits == x.to_bits()
    }
}

/// Numbers of all sizes, from a fixed seed.
fn numbers(count: usize) -> Vec<f64> {
    let mut state: u64 = 0x9e37_79b9_7f4a_7c15;
    let mut r: Vec<f64> = vec![
        0.0,
        -0.0,
        1.0,
        -1.0,
        0.5,
        1.5,
        2.5,
        -2.5,
        0.1,
        0.49999999999999994,
        4503599627370495.5,
        9007199254740993.0,
        f64::MAX,
        f64::MIN,
        f64::MIN_POSITIVE,
        5e-324,
        f64::INFINITY,
        f64::NEG_INFINITY,
        f64::NAN,
    ];
    while r.len() < count {
        state = state.wrapping_mul(6364136223846793005).wrapping_add(1442695040888963407);
        let bits: u64 = state ^ (state >> 29);
        r.push(f64::from_bits(bits));
        // The same digits near 1, where sums and products do not run off.
        r.push(f64::from_bits((bits & 0x800f_ffff_ffff_ffff) | (0x3f0 + (bits >> 56) % 32) << 52));
    }
    r
}

#[test]
fn sums_and_differences_are_those_of_the_machine() {
    let v: Vec<f64> = numbers(300);
    for x in &v {
        for y in &v {
            assert!(is(of(*x).plus(of(*y)), x + y), "{} + {}", x, y);
            assert!(is(of(*x).minus(of(*y)), x - y), "{} - {}", x, y);
        }
    }
}

#[test]
fn products_and_quotients_are_those_of_the_machine() {
    let v: Vec<f64> = numbers(300);
    for x in &v {
        for y in &v {
            assert!(is(of(*x).times(of(*y)), x * y), "{} * {}", x, y);
            assert!(is(of(*x).over(of(*y)), x / y), "{} / {}", x, y);
        }
    }
}

#[test]
fn comparisons_are_those_of_the_machine() {
    let v: Vec<f64> = numbers(300);
    for x in &v {
        for y in &v {
            assert_eq!(of(*x).lt(of(*y)), x < y);
            assert_eq!(of(*x).le(of(*y)), x <= y);
            assert_eq!(of(*x).same(of(*y)), x == y);
        }
    }
}

#[test]
fn larger_and_smaller_are_those_of_the_machine() {
    let v: Vec<f64> = numbers(200);
    for x in &v {
        for y in &v {
            if x != y {
                assert!(is(of(*x).larger(of(*y)), x.max(*y)), "max {} {}", x, y);
                assert!(is(of(*x).smaller(of(*y)), x.min(*y)), "min {} {}", x, y);
            }
        }
    }
}

#[test]
fn floor_and_round_are_those_of_the_machine() {
    for x in numbers(20000) {
        assert!(is(of(x).floor(), x.floor()), "floor {}", x);
        assert!(is(of(x).round(), x.round()), "round {}", x);
        assert!(is(of(x).negated(), -x), "neg {}", x);
    }
}

#[test]
fn whole_numbers_are_those_of_the_machine() {
    let mut n: u64 = 1;
    for _ in 0..2000 {
        n = n.wrapping_mul(6364136223846793005).wrapping_add(1442695040888963407);
        for shift in [0, 7, 11, 30, 53] {
            let m: u64 = n >> shift;
            assert!(is(Binary64::from_u64(m), m as f64), "{}", m);
        }
    }
    assert!(is(Binary64::from_u64(0), 0.0));
    assert!(is(Binary64::from_u64(u64::MAX), u64::MAX as f64));
}

#[test]
fn fractions_are_the_nearest_numbers() {
    assert!(is(Binary64::from_ratio(false, 11, 10), 1.1));
    assert!(is(Binary64::from_ratio(false, 5, 1000), 0.005));
    assert!(is(Binary64::from_ratio(false, 102, 100), 1.02));
    assert!(is(Binary64::from_ratio(true, 1, 3), -1.0 / 3.0));
    assert!(is(Binary64::from_ratio(false, 1, 1000), 0.001));
    for n in 1u32..200 {
        for d in 1u32..200 {
            assert!(is(
                Binary64::from_ratio(false, n as u128, d as u128),
                n as f64 / d as f64
            ));
        }
    }
}

#[test]
fn ties_go_to_the_even_neighbour() {
    // 2^53 + 1 lies halfway between two numbers.
    assert!(is(Binary64::from_u64(9007199254740993), 9007199254740992.0));
    assert!(is(Binary64::from_u64(9007199254740995), 9007199254740996.0));
}

#[test]
fn the_nearest_number_is_no_further_than_its_neighbours() {
    let third: Binary64 = Binary64::from_ratio(false, 1, 3);
    let three: Binary64 = Binary64::from_u64(3);
    let off = |bits: u64| (f64::from_bits(bits) - 1.0 / 3.0).abs();
    assert!(off(third.bits) <= off(third.bits + 1));
    assert!(off(third.bits) <= off(third.bits - 1));
    assert!(is(third.times(three), 1.0));
}

#[test]
fn operations_keep_the_order() {
    let v: Vec<f64> = numbers(120);
    for x in &v {
        for y in &v {
            if x <= y {
                let a: Binary64 = of(2.5);
                let b: Binary64 = of(0.1);
                assert!(a.plus(of(*x)).le(a.plus(of(*y))));
                assert!(b.times(of(*x)).le(b.times(of(*y))));
                assert!(of(*x).over(a).le(of(*y).over(a)));
                assert!(of(*x).round().le(of(*y).round()));
            }
        }
    }
}

#[test]
fn the_order_of_operands_does_not_matter() {
    let v: Vec<f64> = numbers(100);
    for x in &v {
        for y in &v {
            assert_eq!(of(*x).plus(of(*y)).bits, of(*y).plus(of(*x)).bits);
            assert_eq!(of(*x).times(of(*y)).bits, of(*y).times(of(*x)).bits);
        }
    }
}

#[test]
fn zero_plus_a_positive_number_is_that_number() {
    for x in numbers(1000) {
        if x > 0.0 {
            assert_eq!(Binary64::from_u64(0).plus(of(x)).bits, x.to_bits());
        }
    }
}
