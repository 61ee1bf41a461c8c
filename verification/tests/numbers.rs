use tf2_frag_demo_helper::floating::Double;

fn double(value: f64) -> Double {
    Double::from_bits(value.to_bits()).expect("a finite number")
}

fn value(number: Double) -> f64 {
    f64::from_bits(number.to_bits())
}

const SAMPLES: [f64; 20] = [
    0.0,
    1.0,
    -1.0,
    0.1,
    0.3,
    -0.7,
    2.5,
    1.0 / 3.0,
    100.0 / 3.0,
    66.666_666_7,
    32.584_887_884,
    -20.000_000_001,
    123_456_789.123,
    9_007_199_254_740_993.0,
    1.0e16,
    3.0e-5,
    1.0e300,
    -2.0e-300,
    5.0e-324,
    2.225_073_858_507_201_4e-308,
];

#[test]
fn numbers_keep_their_bits() {
    for sample in SAMPLES {
        assert_eq!(value(double(sample)), sample);
        assert_eq!(value(double(sample).without_sign()), sample.abs());
        assert!(double(sample).is_finite());
    }
    assert!(Double::from_bits(f64::NAN.to_bits()).is_none());
    assert!(Double::from_bits(f64::INFINITY.to_bits()).is_none());
    assert_eq!(value(Double::zero()), 0.0);
    for n in [0_u64, 1, 7, 1 << 53, (1 << 53) + 1, (1 << 54) + 3, u64::MAX, u64::MAX - 1_024] {
        assert_eq!(value(Double::natural(n)), n as f64);
    }
    for n in [0_i64, -1, 20, -20, i64::MIN, i64::MAX, -((1 << 53) + 1)] {
        assert_eq!(value(Double::integer(n)), n as f64);
    }
    assert_eq!(value(Double::fraction(82, 100)), 0.82);
    assert_eq!(value(Double::fraction(32_584_887_884, 1_000_000_000)), 32.584_887_884);
}

#[test]
fn arithmetic_is_that_of_doubles() {
    for a in SAMPLES {
        for b in SAMPLES {
            let (x, y) = (double(a), double(b));
            assert_eq!(value(x.plus(y)), a + b, "{a} + {b}");
            assert_eq!(value(x.minus(y)), a - b, "{a} - {b}");
            assert_eq!(value(x.times(y)), a * b, "{a} * {b}");
            assert_eq!(x.less(y), a < b, "{a} < {b}");
            if a >= 0.0 && b > 0.0 {
                assert_eq!(value(x.over(y)), a / b, "{a} / {b}");
            }
        }
        assert_eq!(value(double(a).squared()), a * a);
        if a >= 0.0 {
            assert_eq!(value(double(a).root()), a.sqrt(), "the root of {a}");
            assert_eq!(double(a).ceiling(), a.ceil() as u64, "the ceiling of {a}");
            assert_eq!(double(a).rounded(), a.round() as u64, "{a} rounded");
        }
    }
    assert!(!double(1.0e300).times(double(1.0e300)).is_finite());
    assert_eq!(double(0.5).rounded(), 1);
    assert_eq!(double(2.5).rounded(), 3);
    assert_eq!(double(0.499_999_999_999_999_94).rounded(), 0);
    assert_eq!(double(1.0e300).ceiling(), u64::MAX);
}
