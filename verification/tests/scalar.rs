use cad_optimizer::optimizer::{GROW_BIAS_BITS, LOWER_SCALE_BITS, RAISE_SCALE_BITS, SHRINK_BIAS_BITS};
use cad_optimizer::scalar::{power_of_two, Scalar, Standing, HALF_BITS, INFINITY_BITS, ONE_BITS, SIGN_BIT};

fn s(x: f32) -> Scalar {
    Scalar::from_bits(x.to_bits())
}

fn f(x: Scalar) -> f32 {
    f32::from_bits(x.to_bits())
}

fn samples() -> Vec<f32> {
    vec![
        0.0,
        -0.0,
        1.0,
        -1.0,
        0.5,
        -0.5,
        0.1,
        0.9,
        1.1,
        2.0,
        3.5,
        -3.5,
        40.0,
        48.0,
        60.0,
        72.0,
        1.0e-40,
        -1.0e-40,
        f32::MIN_POSITIVE,
        f32::MAX,
        f32::MIN,
        f32::EPSILON,
        16777216.0,
        16777218.0,
        1.0e30,
        -1.0e30,
        f32::INFINITY,
        f32::NEG_INFINITY,
        f32::NAN,
        f32::from_bits(1),
        f32::from_bits(0x007f_ffff),
        f32::from_bits(0x0080_0000),
        f32::from_bits(0x0080_0001),
        f32::from_bits(0xffc0_0000),
    ]
}

#[test]
fn constants_are_the_patterns_of_their_values() {
    assert_eq!(ONE_BITS, 1.0f32.to_bits());
    assert_eq!(HALF_BITS, 0.5f32.to_bits());
    assert_eq!(INFINITY_BITS, f32::INFINITY.to_bits());
    assert_eq!(SIGN_BIT, (-0.0f32).to_bits());
    assert_eq!(LOWER_SCALE_BITS, 0.9f32.to_bits());
    assert_eq!(RAISE_SCALE_BITS, 1.1f32.to_bits());
    assert_eq!(GROW_BIAS_BITS, 0.1f32.to_bits());
    assert_eq!(SHRINK_BIAS_BITS, 0.05f32.to_bits());
    assert_eq!(Scalar::zero().to_bits(), 0.0f32.to_bits());
    assert_eq!(Scalar::one().to_bits(), 1.0f32.to_bits());
    assert_eq!(Scalar::half().to_bits(), 0.5f32.to_bits());
}

#[test]
fn bits_round_trip() {
    for x in samples() {
        assert_eq!(s(x).to_bits(), x.to_bits());
        assert_eq!(Scalar::from_bits(x.to_bits()), s(x));
    }
}

#[test]
fn check_nan_matches_the_hardware() {
    for x in samples() {
        assert_eq!(s(x).check_nan(), x.is_nan(), "{}", x);
    }
}

#[test]
fn sign_bit_matches_the_hardware() {
    for x in samples() {
        assert_eq!(s(x).sign_bit(), x.is_sign_negative(), "{}", x);
    }
}

#[test]
fn lt_matches_the_hardware_on_every_pair() {
    for a in samples() {
        for b in samples() {
            assert_eq!(s(a).lt(s(b)), a < b, "{} < {}", a, b);
        }
    }
}

#[test]
fn le_matches_the_hardware_on_every_pair() {
    for a in samples() {
        for b in samples() {
            assert_eq!(s(a).le(s(b)), a <= b, "{} <= {}", a, b);
        }
    }
}

#[test]
fn zeros_of_both_signs_compare_equal() {
    assert!(!s(-0.0).lt(s(0.0)));
    assert!(!s(0.0).lt(s(-0.0)));
    assert!(s(-0.0).le(s(0.0)));
    assert!(s(0.0).le(s(-0.0)));
}

#[test]
fn nan_compares_false_with_everything() {
    let nan = s(f32::NAN);
    for x in samples() {
        assert!(!nan.lt(s(x)));
        assert!(!s(x).lt(nan));
        assert!(!nan.le(s(x)));
        assert!(!s(x).le(nan));
    }
}

#[test]
fn negated_flips_only_the_sign() {
    for x in samples() {
        assert_eq!(s(x).negated().to_bits(), (-x).to_bits(), "{}", x);
        assert_eq!(s(x).negated().negated(), s(x));
    }
    assert_eq!(f(s(2.5).negated()), -2.5);
}

#[test]
fn at_least_is_the_maximum_that_ignores_nan() {
    assert_eq!(f(s(0.45).at_least(s(0.5))), 0.5);
    assert_eq!(f(s(0.5).at_least(s(0.5))), 0.5);
    assert_eq!(f(s(0.81).at_least(s(0.5))), 0.81);
    assert_eq!(f(s(-3.0).at_least(s(0.0))), 0.0);
    assert_eq!(f(s(f32::NAN).at_least(s(0.5))), 0.5);
    assert_eq!(f(s(f32::INFINITY).at_least(s(0.5))), f32::INFINITY);
    for a in samples() {
        for b in [0.0f32, 0.5, 1.0] {
            if a != b {
                assert_eq!(s(a).at_least(s(b)).to_bits(), a.max(b).to_bits(), "{} {}", a, b);
            }
        }
    }
}

#[test]
fn at_most_is_the_minimum_that_ignores_nan() {
    assert_eq!(f(s(1.1).at_most(s(1.0))), 1.0);
    assert_eq!(f(s(1.0).at_most(s(1.0))), 1.0);
    assert_eq!(f(s(0.99).at_most(s(1.0))), 0.99);
    assert_eq!(f(s(f32::NAN).at_most(s(1.0))), 1.0);
    assert_eq!(f(s(f32::NEG_INFINITY).at_most(s(1.0))), f32::NEG_INFINITY);
    for a in samples() {
        for b in [0.0f32, 0.5, 1.0] {
            if a != b {
                assert_eq!(s(a).at_most(s(b)).to_bits(), a.min(b).to_bits(), "{} {}", a, b);
            }
        }
    }
}

#[test]
fn from_small_is_the_exact_conversion() {
    let mut n: u32 = 0;
    while n < 5000 {
        assert_eq!(Scalar::from_small(n).to_bits(), (n as f32).to_bits(), "{}", n);
        n += 1;
    }
    for n in [65_535u32, 65_536, 1_000_000, 8_388_607, 8_388_608, 8_388_609, 16_777_214, 16_777_215] {
        assert_eq!(Scalar::from_small(n).to_bits(), (n as f32).to_bits(), "{}", n);
    }
    assert_eq!(f(Scalar::from_small(50)), 50.0);
    assert_eq!(f(Scalar::from_small(200)), 200.0);
}

#[test]
fn significand_and_shift_rebuild_the_value() {
    for x in samples() {
        if x.is_finite() {
            let significand = s(x).significand() as f64;
            let shift = s(x).shift() as i32;
            let rebuilt = significand * 2.0f64.powi(shift - 149);
            assert_eq!(rebuilt, (x as f64).abs(), "{}", x);
        }
    }
    assert_eq!(s(1.0).significand(), 0x80_0000);
    assert_eq!(s(1.0).shift(), 126);
    assert_eq!(s(0.0).significand(), 0);
    assert_eq!(s(0.0).shift(), 0);
    assert_eq!(s(f32::from_bits(1)).significand(), 1);
    assert_eq!(s(f32::from_bits(1)).shift(), 0);
}

#[test]
fn power_of_two_values() {
    assert_eq!(power_of_two(0), 1);
    assert_eq!(power_of_two(1), 2);
    assert_eq!(power_of_two(10), 1024);
    assert_eq!(power_of_two(64), 1u128 << 64);
    assert_eq!(power_of_two(126), 1u128 << 126);
}

fn standing_by_wide_arithmetic(factor: u32, x: f32, bound: u64) -> Standing {
    // every value used here keeps the product exact in 64-bit floating point
    let left = factor as f64 * x as f64;
    let right = bound as f64;
    if left < right {
        Standing::Below
    } else if left == right {
        Standing::Level
    } else {
        Standing::Above
    }
}

#[test]
fn compare_product_is_exact() {
    let values = [
        0.0f32, -0.0, 1.0, -1.0, 0.5, 0.25, 40.0, 47.999996, 48.0, 48.000004, 60.0, 71.99999,
        72.0, 72.00001, 80.0, 1.0e-40, 1.0e-30, 3.0e9, 1.0e20, -1.0e20, 0.2, 0.8, 1.2,
    ];
    for x in values {
        for factor in [0u32, 1, 5, 7] {
            for bound in [0u64, 1, 4, 5, 240, 360, 1_000_000] {
                assert_eq!(
                    s(x).compare_product(factor, bound),
                    standing_by_wide_arithmetic(factor, x, bound),
                    "{} * {} against {}",
                    factor,
                    x,
                    bound
                );
            }
        }
    }
}

#[test]
fn compare_product_at_the_edges_of_the_range() {
    assert_eq!(s(f32::INFINITY).compare_product(1, u64::MAX), Standing::Above);
    assert_eq!(s(f32::NEG_INFINITY).compare_product(1, 0), Standing::Below);
    assert_eq!(s(f32::MAX).compare_product(1, u64::MAX), Standing::Above);
    assert_eq!(s(f32::from_bits(1)).compare_product(1, 0), Standing::Above);
    assert_eq!(s(f32::from_bits(1)).compare_product(1, 1), Standing::Below);
    assert_eq!(s(f32::from_bits(1)).compare_product(0, 0), Standing::Level);
    assert_eq!(s(18446744073709551616.0).compare_product(1, u64::MAX), Standing::Above);
    assert_eq!(s(9223372036854775808.0).compare_product(1, 9223372036854775808), Standing::Level);
    assert_eq!(s(9223372036854775808.0).compare_product(2, u64::MAX), Standing::Above);
    assert_eq!(s(4294967296.0).compare_product(u32::MAX, u64::MAX), Standing::Below);
    assert_eq!(s(0.5).compare_product(2, 1), Standing::Level);
    assert_eq!(s(0.2).compare_product(5, 1), Standing::Above);
    assert_eq!(s(0.8).compare_product(5, 4), Standing::Above);
    assert_eq!(s(0.3).compare_product(10, 3), Standing::Above);
    assert_eq!(s(0.7).compare_product(10, 7), Standing::Below);
}
