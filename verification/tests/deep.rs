use fractalx::bigfloat::{is_scale_supported, BigFloat, ParseError};
use fractalx::deep::{coordinate, precision_for, reference_orbit, BigComplex, ReferenceOrbit};
use fractalx::float::{Double, Point};

fn double(v: f64) -> Double {
    Double { bits: v.to_bits() }
}

fn number(d: Double) -> f64 {
    f64::from_bits(d.bits)
}

fn complex(re: f64, im: f64) -> BigComplex {
    BigComplex::from_f64(double(re), double(im))
}

fn escapes(p: Point) -> bool {
    let (x, y) = (number(p.x), number(p.y));
    x * x + y * y > 4.0
}

fn orbit_of(c: &BigComplex, max_iter: u32, precision: usize) -> ReferenceOrbit {
    reference_orbit(c, max_iter, precision, escapes).unwrap()
}

#[test]
fn orbit_matches_f64_iteration_at_shallow_depth() {
    let c = complex(-0.1, 0.65);
    let orbit = orbit_of(&c, 100, 128);

    // Same iteration in plain doubles.
    let (mut zr, mut zi) = (0.0f64, 0.0f64);
    for (n, p) in orbit.points.iter().enumerate().take(50) {
        let p = [number(p.x) as f32, number(p.y) as f32];
        assert!(
            (p[0] as f64 - zr).abs() < 1e-6 && (p[1] as f64 - zi).abs() < 1e-6,
            "orbit diverges from f64 at iteration {n}"
        );
        let t = zr * zr - zi * zi + (-0.1);
        zi = 2.0 * zr * zi + 0.65;
        zr = t;
    }
}

#[test]
fn orbit_escapes_for_exterior_point() {
    let c = complex(1.0, 1.0);
    let orbit = orbit_of(&c, 1000, 64);
    assert!(orbit.escaped);
    assert!(orbit.points.len() < 20);
}

#[test]
fn interior_orbit_runs_to_max_iter() {
    let c = complex(-0.5, 0.0); // inside the main cardioid
    let orbit = orbit_of(&c, 500, 64);
    assert!(!orbit.escaped);
    assert_eq!(orbit.points.len(), 501);
}

#[test]
fn decimal_round_trip_preserves_deep_coordinates() {
    // A coordinate needing far more precision than a double.
    let prec = 200;
    let mut c = complex(-0.75, 0.1);
    c.set_precision(prec);
    // Nudge by a tiny amount only high precision can hold.
    c.offset(double(1e-45), double(-3e-46), prec);

    let [re, im] = c.to_decimal();
    let back = BigComplex::from_decimal(&re, &im, prec).unwrap();
    let d = c.sub_to_f64(&back);
    let (dre, dim) = (number(d.x), number(d.y));
    // Round trip may be off by ~1 ulp at 200 bits (~1e-61); anything
    // approaching pixel scale at this precision (~1e-41) is a real bug.
    assert!(dre.abs() < 1e-50 && dim.abs() < 1e-50, "lost {dre:e} {dim:e}");
    // And it must actually preserve the deep nudge (1e-45), which a double cannot.
    let coarse = complex(-0.75, 0.1);
    let nre = number(back.sub_to_f64(&coarse).x);
    assert!((nre - 1e-45).abs() < 1e-50, "deep nudge lost: {nre:e}");
}

#[test]
fn the_first_orbit_points_are_exact() {
    // c = -1: 0, -1, 0, -1, ...
    let orbit = orbit_of(&complex(-1.0, 0.0), 4, 64);
    let xs: Vec<f64> = orbit.points.iter().map(|p| number(p.x)).collect();
    assert_eq!(xs, vec![0.0, -1.0, 0.0, -1.0, 0.0]);
    assert!(orbit.points.iter().all(|p| number(p.y) == 0.0));
    // c = i: 0, i, -1 + i, -i, -1 + i, ...
    let orbit = orbit_of(&complex(0.0, 1.0), 4, 64);
    let zs: Vec<(f64, f64)> = orbit.points.iter().map(|p| (number(p.x), number(p.y))).collect();
    assert_eq!(
        zs,
        vec![(0.0, 0.0), (0.0, 1.0), (-1.0, 1.0), (0.0, -1.0), (-1.0, 1.0)]
    );
    // c = 1: 0, 1, 2, 5 escapes.
    let orbit = orbit_of(&complex(1.0, 0.0), 100, 64);
    assert!(orbit.escaped);
    let xs: Vec<f64> = orbit.points.iter().map(|p| number(p.x)).collect();
    assert_eq!(xs, vec![0.0, 1.0, 2.0, 5.0]);
}

#[test]
fn a_higher_cap_extends_or_keeps_the_orbit() {
    let inside = complex(-0.1, 0.65);
    let short = orbit_of(&inside, 10, 80);
    let long = orbit_of(&inside, 40, 80);
    assert_eq!(short.points[..], long.points[..11]);
    let outside = complex(0.5, 0.5);
    let once = orbit_of(&outside, 50, 80);
    let again = orbit_of(&outside, 500, 80);
    assert!(once.escaped && again.escaped);
    assert_eq!(once.points, again.points);
}

#[test]
fn an_orbit_without_iterations_is_the_origin() {
    let orbit = orbit_of(&complex(3.0, 0.0), 0, 64);
    assert!(!orbit.escaped);
    assert_eq!(orbit.points.len(), 1);
    assert_eq!(orbit.points[0].x.bits, 0);
}

#[test]
fn orbits_end_where_they_escape() {
    // However high the cap, nothing is computed of what would follow.
    let orbit = orbit_of(&complex(1.0, 1.0), 1_000_000, 64);
    assert!(orbit.escaped);
    let points: Vec<_> = orbit.points.iter().map(|p| (number(p.x), number(p.y))).collect();
    assert_eq!(points, [(0.0, 0.0), (1.0, 1.0), (1.0, 3.0)]);
}

#[test]
fn orbits_of_minute_numbers_go_on() {
    // The square of the first point is far below any double.
    let c = BigComplex::from_text("0", "1e-3000000", 0).unwrap().unwrap();
    let orbit = orbit_of(&c, 20, 128);
    assert!(!orbit.escaped);
    assert_eq!(orbit.points.len(), 21);
}

#[test]
fn precision_follows_the_scale() {
    assert_eq!(precision_for(double(0.004)), 64 + 8);
    assert_eq!(precision_for(double(1.0)), 64);
    assert_eq!(precision_for(double(0.5)), 65);
    assert_eq!(precision_for(double(0.25)), 66);
    assert_eq!(precision_for(double(0.3)), 66);
    assert_eq!(precision_for(double(3.0)), 64);
    assert_eq!(precision_for(double(1e-32)), 64 + 107);
    assert_eq!(precision_for(double(5e-324)), 64 + 1074);
    assert_eq!(precision_for(double(f64::INFINITY)), 64);
    assert_eq!(precision_for(double(f64::NAN)), 64);
    assert_eq!(precision_for(double(-1e-9)), 64);
    for k in 1..100 {
        let scale = 0.7f64.powi(k) * 3.3;
        let float = (-scale.log2()).ceil().max(0.0) as usize + 64;
        assert_eq!(precision_for(double(scale)), float);
    }
}

#[test]
fn doubles_come_back_from_big_numbers() {
    for v in [1.5, -0.1, 1e-310, 5e-324, f64::MAX, f64::MIN_POSITIVE, -1e100, 3.0] {
        let c = complex(v, -v);
        let p = c.to_f64();
        assert_eq!(number(p.x), v);
        assert_eq!(number(p.y), -v);
    }
    assert_eq!(complex(-0.0, 0.0).to_f64().x.bits, 0);
    assert_eq!(complex(0.1, 0.0).re.precision(), 53);
    assert_eq!(complex(0.1, 0.0).im.precision(), 0);
    assert_eq!(complex(5e-324, 0.0).re.precision(), 1);
}

#[test]
fn precision_can_be_raised_without_a_change_and_lowered_by_rounding() {
    let mut c = complex(0.1, 1.0);
    c.set_precision(300);
    assert_eq!(c.re.precision(), 300);
    assert_eq!(number(c.to_f64().x), 0.1);
    c.set_precision(4);
    // 0.1 in four bits is 13 / 128.
    assert_eq!(number(c.to_f64().x), 0.1015625);
    assert_eq!(number(c.to_f64().y), 1.0);
    // Ties go away from zero, and a carry may shorten the number.
    for (value, bits, rounded) in [
        (5.0, 2, 6.0),
        (-5.0, 2, -6.0),
        (9.0, 3, 10.0),
        (17.0, 3, 16.0),
        (7.0, 2, 8.0),
        (11.0, 2, 12.0),
        (13.0, 2, 12.0),
    ] {
        let mut c = complex(value, -value);
        c.set_precision(bits);
        assert_eq!((number(c.to_f64().x), number(c.to_f64().y)), (rounded, -rounded));
    }
    // The unlimited precision drops nothing.
    let mut c = complex(0.1, 5.0);
    c.set_precision(0);
    assert_eq!((number(c.to_f64().x), number(c.to_f64().y)), (0.1, 5.0));
}

#[test]
fn digits_follow_the_product_of_doubles() {
    let mut c = complex(0.5, 0.5);
    for bits in [64usize, 65, 171, 1138, 99_999, 100_000, 100_001, 200_000, 300_000, 1 << 58] {
        c.set_precision(bits);
        let digits = (bits as f64 * 0.30103).ceil() as usize + 4;
        assert_eq!(c.decimal_digits(), digits, "{bits}");
    }
    c.set_precision(3);
    assert_eq!(c.decimal_digits(), 24);
    c.set_precision(100_000);
    assert_eq!(c.decimal_digits(), 30_108);
}

#[test]
fn orbits_of_unlimited_precision_are_exact() {
    let exact = orbit_of(&complex(-0.5, 0.25), 8, 0);
    let rounded = orbit_of(&complex(-0.5, 0.25), 8, 4000);
    assert_eq!(exact.points, rounded.points);
    assert_eq!(orbit_of(&complex(1.0, 1.0), 1000, 0).points.len(), 3);
}

#[test]
fn offsets_add_up() {
    let mut c = complex(0.5, -0.25);
    c.offset(double(0.25), double(0.125), 64);
    assert_eq!(number(c.to_f64().x), 0.75);
    assert_eq!(number(c.to_f64().y), -0.125);
    let d = c.sub_to_f64(&complex(0.5, 0.0));
    assert_eq!((number(d.x), number(d.y)), (0.25, -0.125));
    let zero = c.sub_to_f64(&c.clone());
    assert_eq!((zero.x.bits, zero.y.bits), (0, 0));
}

#[test]
fn decimal_texts_have_the_digits_asked_for() {
    let c = complex(-0.75, 0.1);
    assert_eq!(c.to_decimal_digits(6), ["-0.75".to_owned(), "0.1".to_owned()]);
    // 64 bits at least: 20 digits and a margin of 4.
    let [_, im] = c.to_decimal();
    assert_eq!(im, "0.100000000000000005551115");
    let [re, _] = complex(1.0 / 3.0, 0.0).to_decimal_digits(3);
    assert_eq!(re, "0.333");
}

#[test]
fn large_numbers_need_as_many_digits() {
    // 12345678.5 is above 8^6, and has one digit after the point.
    let c = complex(12345678.5, 0.0);
    assert!(!c.writes(6));
    assert!(c.writes(8));
    assert_eq!(c.to_decimal_digits(9)[0], "12345678.5");
    // No digits after the point, or many of them.
    assert!(complex(12345678.0, 0.0).writes(1));
    assert!(complex(1e-30, 0.0).writes(1));
    assert_eq!(complex(12345678.0, 0.0).to_decimal_digits(3)[0], "12300000");
    assert_eq!(c.decimal_digits(), 24);
}

#[test]
fn written_texts_are_read_back() {
    let mut c = complex(-0.75, 0.1);
    c.offset(double(1e-20), double(1e-25), 150);
    let texts = c.to_decimal();
    let back = BigComplex::from_text(&texts[0], &texts[1], 0).unwrap().unwrap();
    // Written once more with as many digits, the texts are the same.
    assert_eq!(back.to_decimal_digits(c.decimal_digits()), texts);
    let whole = complex(1024.0, -3.0);
    let texts = whole.to_decimal();
    assert_eq!(texts, ["1024".to_owned(), "-3".to_owned()]);
}

#[test]
fn bad_coordinates_are_named() {
    let message = |re: &str, im: &str| BigComplex::from_decimal(re, im, 64).unwrap_err();
    assert_eq!(message("1.2x", "0"), "bad coordinate \"1.2x\": invalid digit");
    assert_eq!(message("0", "."), "bad coordinate \".\": no digits");
    assert_eq!(message("", "x"), "bad coordinate \"\": no digits");
    let parsed = coordinate("q\"", Err(ParseError::UnsupportedRadix), 64);
    assert_eq!(parsed.unwrap_err(), "bad coordinate \"q\\\"\": unsupported radix");
    let parsed = coordinate("z", Err(ParseError::InconsistentRadix), 64);
    assert_eq!(parsed.unwrap_err(), "bad coordinate \"z\": inconsistent radix");
}

#[test]
fn texts_are_read_at_the_precision_of_their_digits() {
    let c = BigComplex::from_text("-0.75", "1e-3", 0).unwrap().unwrap();
    assert_eq!(c.re.precision(), 4 * 5 + 64);
    assert_eq!(number(c.to_f64().x), -0.75);
    assert_eq!(number(c.to_f64().y), 1e-3);
    let c = BigComplex::from_text("-0.75", "0.1", 500).unwrap().unwrap();
    assert_eq!(c.im.precision(), 500);
    assert!(BigComplex::from_text("x", "0", 0).unwrap().is_err());
    // A scale that machine integers could not hold is not computed with.
    assert!(BigComplex::from_text("1e5000000000000000000", "0", 0).is_none());
    assert!(BigComplex::from_text("1", "2", usize::MAX).is_none());
}

#[test]
fn scales_are_supported_up_to_a_limit() {
    assert!(is_scale_supported("123.456"));
    assert!(is_scale_supported("1e-300"));
    assert!(is_scale_supported("1e-100000000"));
    let most = usize::MAX / 16;
    let digits = most.to_string().len() + 2;
    assert!(is_scale_supported(&format!("1e{}", most - digits)));
    assert!(!is_scale_supported(&format!("1e{}", most - digits + 1)));
    assert!(!is_scale_supported(&format!("1E-{}", isize::MAX)));
    assert!(!is_scale_supported(&format!("1e{}", isize::MIN)));
    // Zero is zero whatever its scale.
    for text in ["0", "0.00", "-0.", "+.0", "0_0"] {
        let text = format!("{text}e{}", isize::MIN);
        assert!(is_scale_supported(&text));
        let c = BigComplex::from_text(&text, "0", 0).unwrap().unwrap();
        assert_eq!(c.to_f64().x.bits, 0);
    }
    // Too great for a machine integer: an error of the number, not of range.
    assert!(is_scale_supported("1@99999999999999999999999"));
    assert_eq!(
        BigComplex::from_decimal("1@99999999999999999999999", "0", 64).unwrap_err(),
        "bad coordinate \"1@99999999999999999999999\": invalid digit"
    );
    let text = format!("1e{}", isize::MAX as usize + 1);
    assert_eq!(
        BigComplex::from_decimal(&text, "0", 64).unwrap_err(),
        format!("bad coordinate {text:?}: invalid digit")
    );
    // Only what follows the last mark counts.
    assert!(is_scale_supported("1e999999999999e5"));
    assert!(is_scale_supported("1e99999999999x"));
}

#[test]
fn ranges_are_known() {
    let c = complex(0.5, -0.5);
    assert!(c.is_in_range());
    assert!(BigFloat::zero(0).is_in_range());
    let deep = BigComplex::from_text("1e-6000", "0", 0).unwrap().unwrap();
    assert!(deep.is_in_range());
    let large = BigComplex::from_text("1e6000", "0", 0).unwrap().unwrap();
    assert!(large.is_in_range());
}
