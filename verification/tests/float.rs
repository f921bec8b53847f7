use fractalx::float::{Double, Point, Single};

fn double(v: f64) -> Double {
    Double { bits: v.to_bits() }
}

fn single(v: f32) -> Single {
    Single { bits: v.to_bits() }
}

fn values() -> Vec<f64> {
    vec![
        0.0,
        -0.0,
        1.0,
        -1.0,
        0.5,
        3.7,
        1e-310,
        5e-324,
        -5e-324,
        f64::MAX,
        f64::MIN,
        f64::INFINITY,
        f64::NEG_INFINITY,
        f64::NAN,
        -f64::NAN,
        4503599627370496.5,
        9007199254740993.0,
    ]
}

#[test]
fn comparisons_agree_with_the_machine() {
    for a in values() {
        assert_eq!(double(a).is_nan(), a.is_nan());
        assert_eq!(double(a).is_finite(), a.is_finite());
        for b in values() {
            assert_eq!(double(a).equals(double(b)), a == b, "{a} == {b}");
            assert_eq!(double(a).less_than(double(b)), a < b, "{a} < {b}");
            assert_eq!(double(a).at_most(double(b)), a <= b, "{a} <= {b}");
            let min = f64::from_bits(double(a).min(double(b)).bits);
            let max = f64::from_bits(double(a).max(double(b)).bits);
            assert!(min == a.min(b) || (min.is_nan() && a.min(b).is_nan()));
            assert!(max == a.max(b) || (max.is_nan() && a.max(b).is_nan()));
        }
        let clamped = f64::from_bits(double(a).clamp(double(-2.0), double(3.0)).bits);
        assert!(clamped == a.clamp(-2.0, 3.0) || a.is_nan());
    }
}

#[test]
fn singles_agree_with_the_machine() {
    let values = [0.0f32, -0.0, 1.5, -1.5, f32::MAX, f32::INFINITY, -f32::INFINITY, f32::NAN];
    for a in values {
        assert_eq!(single(a).is_finite(), a.is_finite());
        assert_eq!(single(a).not_positive(), a <= 0.0);
        for b in values {
            assert_eq!(single(a).equals(single(b)), a == b);
        }
    }
}

#[test]
fn indices_agree_with_the_machine() {
    for v in values() {
        for limit in [0usize, 1, 2, 4, 1000, usize::MAX] {
            let expected = if v >= 0.0 && (v as usize) < limit {
                Some(v as usize)
            } else {
                None
            };
            assert_eq!(double(v).index_below(limit), expected, "{v} below {limit}");
        }
    }
    for i in 0..5000u32 {
        let v = i as f64 * 0.37;
        assert_eq!(double(v).index_below(2000), Some(v as usize).filter(|&n| n < 2000));
    }
    let big = 2.0f64.powi(63);
    assert_eq!(double(big).index_below(usize::MAX), Some(1usize << 63));
    assert_eq!(double(big * 2.0).index_below(usize::MAX), None);
}

#[test]
fn points_are_compared_by_number() {
    let point = |x: f64, y: f64| Point {
        x: double(x),
        y: double(y),
    };
    assert!(point(0.0, 1.0).equals(point(-0.0, 1.0)));
    assert!(!point(0.0, 1.0).equals(point(0.0, 1.5)));
    assert!(!point(f64::NAN, 1.0).equals(point(f64::NAN, 1.0)));
}

#[test]
fn places_are_casts_within_a_limit() {
    for v in values() {
        for limit in [0usize, 1, 4, 1000] {
            let expected = Some(v as usize).filter(|&n| n < limit);
            assert_eq!(double(v).place(limit), expected, "{v} below {limit}");
        }
    }
}
