use moremass::scalar::Scalar;

fn num(x: f64) -> Scalar {
    Scalar::from_bits(x.to_bits())
}

fn val(s: Scalar) -> f64 {
    f64::from_bits(s.to_bits())
}

#[test]
fn bits_round_trip() {
    for x in [0.0, -0.0, 1.5, -2.25, 1e300, f64::MIN_POSITIVE, f64::INFINITY] {
        assert_eq!(num(x).to_bits(), x.to_bits());
    }
}

#[test]
fn zero_and_two_are_the_numbers() {
    assert_eq!(val(Scalar::zero()), 0.0);
    assert_eq!(Scalar::zero().to_bits(), 0);
    assert_eq!(val(Scalar::two()), 2.0);
}

#[test]
fn key_of_zero_is_zero_for_both_signs() {
    assert_eq!(num(0.0).key(), 0);
    assert_eq!(num(-0.0).key(), 0);
}

#[test]
fn key_grows_with_the_number() {
    let xs = [
        f64::NEG_INFINITY,
        -1e300,
        -3.5,
        -1.0,
        -f64::MIN_POSITIVE,
        -5e-324,
        0.0,
        5e-324,
        f64::MIN_POSITIVE,
        0.5,
        1.0,
        1.0000000000000002,
        2.0,
        1e300,
        f64::INFINITY,
    ];
    for w in xs.windows(2) {
        assert!(num(w[0]).key() < num(w[1]).key(), "{} {}", w[0], w[1]);
    }
}

#[test]
fn order_agrees_with_the_numbers() {
    let xs = [-7.25, -1.0, -0.0, 0.0, 1e-10, 1.0, 3.0, 3.0, 99.5, 1e12];
    for &a in xs.iter() {
        for &b in xs.iter() {
            assert_eq!(num(a).lt(num(b)), a < b, "{} < {}", a, b);
            assert_eq!(num(a).gt(num(b)), a > b, "{} > {}", a, b);
        }
    }
}

#[test]
fn max_and_min_pick_by_order() {
    assert_eq!(val(num(50.0).max(num(10.0))), 50.0);
    assert_eq!(val(num(10.0).max(num(50.0))), 50.0);
    assert_eq!(val(num(-3.0).min(num(2.0))), -3.0);
    assert_eq!(val(num(2.0).min(num(-3.0))), -3.0);
}

#[test]
fn max_and_min_keep_the_first_of_equals() {
    assert_eq!(num(0.0).max(num(-0.0)).to_bits(), 0.0f64.to_bits());
    assert_eq!(num(-0.0).max(num(0.0)).to_bits(), (-0.0f64).to_bits());
    assert_eq!(num(-0.0).min(num(0.0)).to_bits(), (-0.0f64).to_bits());
}

#[test]
fn abs_clears_the_sign() {
    assert_eq!(val(num(-2.5).abs()), 2.5);
    assert_eq!(val(num(2.5).abs()), 2.5);
    assert_eq!(num(-0.0).abs().to_bits(), 0);
    assert_eq!(val(num(f64::NEG_INFINITY).abs()), f64::INFINITY);
}

#[test]
fn minus_is_the_rounded_difference() {
    assert_eq!(val(num(5.0).minus(num(3.0))), 2.0);
    assert_eq!(val(num(3.0).minus(num(5.0))), -2.0);
    assert_eq!(val(num(0.1).minus(num(0.3))), 0.1 - 0.3);
    assert_eq!(val(num(1e16).minus(num(1.0))), 1e16 - 1.0);
}

#[test]
fn times_is_the_rounded_product() {
    assert_eq!(val(num(100.0).times(num(0.5))), 50.0);
    assert_eq!(val(num(1.0).times(Scalar::two())), 2.0);
    assert_eq!(val(num(0.1).times(num(0.3))), 0.1 * 0.3);
    assert_eq!(val(num(1e200).times(num(1e200))), f64::INFINITY);
}

#[test]
fn over_is_the_rounded_quotient() {
    assert_eq!(val(num(2.0).over(num(2.0))), 1.0);
    assert_eq!(val(num(1.0).over(num(3.0))), 1.0 / 3.0);
    assert_eq!(val(num(-7.0).over(num(2.0))), -3.5);
    assert_eq!(val(num(1.0).over(num(0.0))), f64::INFINITY);
}

#[test]
fn arithmetic_agrees_with_the_machine() {
    let xs = [-1234.5678, -1.0, 0.0, 3.0e-7, 0.1, 1.0, 2.5, 1024.0, 9.87654321e10];
    for &a in xs.iter() {
        for &b in xs.iter() {
            assert_eq!(num(a).minus(num(b)).to_bits(), (a - b).to_bits());
            assert_eq!(num(a).times(num(b)).to_bits(), (a * b).to_bits());
            if b != 0.0 {
                assert_eq!(num(a).over(num(b)).to_bits(), (a / b).to_bits());
            }
        }
    }
}
