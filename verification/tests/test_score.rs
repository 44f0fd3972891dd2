use infercache::score::{ge, gt, nan};

#[test]
fn scores_compare_as_single_precision_numbers() {
    let samples = [
        0.0f32,
        -0.0,
        1.0,
        -1.0,
        0.95,
        0.949_999_9,
        f32::MIN_POSITIVE,
        -f32::MIN_POSITIVE,
        1.0e-45,
        f32::MAX,
        f32::MIN,
        f32::INFINITY,
        f32::NEG_INFINITY,
        f32::NAN,
        -f32::NAN,
    ];
    for a in samples {
        assert_eq!(nan(a.to_bits()), a.is_nan());
        for b in samples {
            assert_eq!(ge(a.to_bits(), b.to_bits()), a >= b, "{} >= {}", a, b);
            assert_eq!(gt(a.to_bits(), b.to_bits()), a > b, "{} > {}", a, b);
        }
    }
}
