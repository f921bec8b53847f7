use fractalx::attractor;
use fractalx::deep::{reference_orbit, BigComplex};
use fractalx::explorer::{coarsest_scale, limit_scale, CoordEditor, Explorer, Refit};
use fractalx::float::{Double, Point, Single};
use fractalx::ifs;
use fractalx::lsystem;
use fractalx::mandelbrot::{Pair, FORMULA_JULIA, FORMULA_MANDELBROT, FORMULA_MULTIBROT};
use fractalx::palette::Palette;
use fractalx::session::{
    julia_presets, Family, FractalRule, ViewState, BOOKMARK_APP, BOOKMARK_VERSION,
    MIN_UNITS_PER_POINT, PERTURB_THRESHOLD, ZOOM_LIMIT_NOTICE,
};
use fractalx::terrain;

fn double(v: f64) -> Double {
    Double { bits: v.to_bits() }
}

fn number(d: Double) -> f64 {
    f64::from_bits(d.bits)
}

fn point(x: f64, y: f64) -> Point {
    Point {
        x: double(x),
        y: double(y),
    }
}

fn pair(x: f32, y: f32) -> Pair {
    Pair {
        x: Single { bits: x.to_bits() },
        y: Single { bits: y.to_bits() },
    }
}

fn center(view: &ViewState) -> (f64, f64) {
    let p = view.center.to_f64();
    (number(p.x), number(p.y))
}

#[test]
fn the_first_view_is_the_mandelbrot_set() {
    let e = Explorer::new();
    assert!(matches!(e.view.rule, FractalRule::Mandelbrot));
    assert_eq!(center(&e.view), (-0.5, 0.0));
    assert_eq!(number(e.view.units_per_point), 0.004);
    assert_eq!(e.view.max_iter, 300);
    assert_eq!(f32::from_bits(e.view.palette_freq.bits), 1.0);
    assert_eq!(f32::from_bits(e.view.palette_phase.bits), 0.0);
    assert!(e.view.palette.equals(Palette::Classic));
    assert!(e.orbit.is_none() && e.julia_pin.is_none() && !e.journal_mode);
    assert_eq!((BOOKMARK_APP, BOOKMARK_VERSION), ("fractalx", 3));
}

#[test]
fn constants_hold_their_numbers() {
    assert_eq!(f64::from_bits(PERTURB_THRESHOLD), 1e-7);
    assert_eq!(f64::from_bits(MIN_UNITS_PER_POINT), 1e-32);
    assert_eq!(f64::from_bits(ZOOM_LIMIT_NOTICE), 1e-32 * 1.01);
}

fn sample_rules() -> Vec<FractalRule> {
    vec![
        FractalRule::Mandelbrot,
        FractalRule::Multibrot { power: 4 },
        FractalRule::Julia { c: point(0.1, 0.2) },
        FractalRule::Ifs { maps: vec![], points: 5 },
        FractalRule::LSystem(fractalx::progress::System {
            start: "F".to_owned(),
            rules: vec![],
            angle_deg: double(60.0),
            generations: 2,
        }),
        FractalRule::Attractor {
            kind: attractor::Kind::DeJong,
            params: [1.0, 2.0, 3.0, 4.0].map(double),
            points: 7,
        },
        FractalRule::Terrain(terrain::Params::default()),
    ]
}

#[test]
fn rules_have_names_homes_and_families() {
    let names = [
        "Mandelbrot",
        "Multibrot",
        "Julia",
        "IFS (chaos game)",
        "L-system",
        "Strange attractor",
        "Terrain",
    ];
    let homes = [
        (-0.5, 0.0, 0.004),
        (0.0, 0.0, 0.004),
        (0.0, 0.0, 0.004),
        (0.5, 0.43, 0.0016),
        (0.0, 0.0, 0.01),
        (0.0, 0.0, 0.006),
        (0.0, 0.0, 0.01),
    ];
    let rules = sample_rules();
    for (i, rule) in rules.iter().enumerate() {
        assert_eq!(rule.display_name(), names[i]);
        assert_eq!(rule.family(), Family::all()[i]);
        assert_eq!(rule.family().name(), names[i]);
        assert_eq!(rule.is_escape_time(), i < 3);
        let (c, scale) = rule.home_view();
        assert_eq!((number(c.x), number(c.y), number(scale)), homes[i]);
        for (j, other) in sample_rules().iter().enumerate() {
            assert_eq!(rule.equals(other), i == j);
        }
    }
    let clouds = FractalRule::Terrain(terrain::Params {
        clouds: true,
        ..terrain::Params::default()
    });
    assert_eq!(clouds.display_name(), "Clouds");
    assert!(matches!(FractalRule::default(), FractalRule::Mandelbrot));
}

#[test]
fn julia_constants_are_listed() {
    let all = julia_presets();
    let expected = [
        ("Dendrite", -0.8, 0.156),
        ("Rabbit", -0.123, 0.745),
        ("Siegel", -0.391, -0.587),
        ("Spiral", 0.285, 0.01),
        ("Dust", -0.4, 0.6),
        ("Basilica", -1.0, 0.0),
        ("San Marco", -0.75, 0.0),
        ("Airplane", -1.755, 0.0),
        ("Galaxy", -0.7269, 0.1889),
        ("Dragon", -0.835, -0.2321),
        ("Lightning", 0.0, 1.0),
    ];
    assert_eq!(all.len(), expected.len());
    for (preset, (name, x, y)) in all.iter().zip(expected) {
        assert_eq!(preset.0, name);
        assert_eq!((number(preset.1.x), number(preset.1.y)), (x, y));
    }
}

#[test]
fn choosing_a_family_starts_it_fresh() {
    let mut e = Explorer::new();
    e.coords.dirty = true;
    // The family that is shown stays as it is.
    assert_eq!(e.select_family(Family::Mandelbrot), (Refit::Nothing, false));
    assert!(e.coords.dirty);

    assert_eq!(e.select_family(Family::Multibrot), (Refit::Nothing, true));
    assert!(!e.coords.dirty);
    assert!(matches!(e.view.rule, FractalRule::Multibrot { power: 3 }));
    assert_eq!(center(&e.view), (0.0, 0.0));

    assert_eq!(e.select_family(Family::Julia), (Refit::Nothing, true));
    assert!(e.view.rule.equals(&FractalRule::Julia { c: point(-0.8, 0.156) }));

    assert_eq!(e.select_family(Family::Ifs), (Refit::Nothing, false));
    assert_eq!(center(&e.view), (0.5, 0.43));
    assert_eq!(number(e.view.units_per_point), 0.0016);
    let sierpinski = ifs::presets().remove(0).maps;
    assert!(e.view.rule.equals(&FractalRule::Ifs { maps: sierpinski, points: 1_000_000 }));

    assert_eq!(e.select_family(Family::LSystem), (Refit::LSystem, false));
    match &e.view.rule {
        FractalRule::LSystem(s) => {
            assert_eq!(s.start, "F--F--F");
            assert_eq!(s.rules, lsystem::presets()[0].rules_vec());
            assert_eq!((number(s.angle_deg), s.generations), (60.0, 4));
        }
        _ => panic!("no L-system"),
    }

    assert_eq!(e.select_family(Family::Attractor), (Refit::Attractor, false));
    let params = [-1.4, 1.6, 1.0, 0.7].map(double);
    assert!(e.view.rule.equals(&FractalRule::Attractor {
        kind: attractor::Kind::Clifford,
        params,
        points: 5_000_000,
    }));

    assert_eq!(e.select_family(Family::Terrain), (Refit::Nothing, true));
    assert!(e.view.rule.equals(&FractalRule::Terrain(terrain::Params::default())));
}

#[test]
fn presets_keep_the_number_of_points() {
    let mut view = ViewState::default();
    view.rule = FractalRule::Ifs { maps: vec![], points: 77 };
    view.apply_preset(&ifs::presets()[1]);
    assert!(matches!(view.rule, FractalRule::Ifs { points: 77, .. }));
    assert_eq!(center(&view), (0.25, 5.0));
    view.apply_attractor_preset(&attractor::presets()[3]);
    assert!(matches!(
        view.rule,
        FractalRule::Attractor { points: 5_000_000, kind: attractor::Kind::DeJong, .. }
    ));
    // The viewport waits to be fitted.
    assert_eq!(center(&view), (0.25, 5.0));
}

#[test]
fn resetting_goes_home_or_asks_for_a_fit() {
    let mut e = Explorer::new();
    e.pan(double(0.25), double(0.5));
    assert_eq!(center(&e.view), (-0.25, 0.5));
    assert_eq!(e.reset_view(), Refit::Nothing);
    assert_eq!(center(&e.view), (-0.5, 0.0));
    e.select_family(Family::Ifs);
    assert_eq!(e.reset_view(), Refit::Ifs);
    e.select_family(Family::LSystem);
    assert_eq!(e.reset_view(), Refit::LSystem);
    e.select_family(Family::Attractor);
    assert_eq!(e.reset_view(), Refit::Attractor);
}

#[test]
fn zooming_keeps_to_the_limits() {
    let limit = coarsest_scale(&FractalRule::Mandelbrot, Some(double(5.0)));
    assert_eq!(number(limit), 0.1);
    let system = || sample_rules().remove(4);
    assert_eq!(number(coarsest_scale(&system(), Some(double(5.0)))), 5.0);
    assert_eq!(number(coarsest_scale(&system(), Some(double(0.01)))), 0.1);
    assert_eq!(number(coarsest_scale(&system(), Some(double(f64::NAN)))), 0.1);
    assert_eq!(number(coarsest_scale(&system(), None)), 0.1);
    assert_eq!(number(limit_scale(double(1e-40), limit)), 1e-32);
    assert_eq!(number(limit_scale(double(3.0), limit)), 0.1);
    assert_eq!(number(limit_scale(double(0.02), limit)), 0.02);

    let mut e = Explorer::new();
    e.zoom(double(0.002), double(0.125), double(-0.125));
    assert_eq!(number(e.view.units_per_point), 0.002);
    assert_eq!(center(&e.view), (-0.375, -0.125));
    // Nine bits below one, and the guard bits.
    assert_eq!(e.view.center.re.precision(), 9 + 64);
}

#[test]
fn deep_views_are_perturbed() {
    let mut e = Explorer::new();
    assert!(!e.view.perturbation_active());
    e.view.units_per_point = double(1e-8);
    assert!(e.view.perturbation_active());
    e.view.units_per_point = double(1e-7);
    assert!(!e.view.perturbation_active());
    e.view.units_per_point = double(1e-8);
    e.view.rule = FractalRule::Multibrot { power: 2 };
    assert!(!e.view.perturbation_active());
}

#[test]
fn orbits_are_computed_when_they_are_needed() {
    let mut e = Explorer::new();
    e.view.units_per_point = double(1e-10);
    assert!(e.orbit_stale(false));
    assert!(e.drift().is_none());
    let precision = e.sharpen_center();
    assert_eq!(precision, 34 + 64);
    assert_eq!(e.view.center.re.precision(), precision);
    let orbit = reference_orbit(&e.view.center, e.view.max_iter, precision, |p: Point| {
        number(p.x).powi(2) + number(p.y).powi(2) > 4.0
    })
    .unwrap();
    e.keep_orbit(&orbit);
    let cache = e.orbit.as_ref().unwrap();
    assert_eq!((cache.len, cache.escaped, cache.for_max_iter), (301, false, 300));
    let drift = e.drift().unwrap();
    assert_eq!((drift.x.bits, drift.y.bits), (0, 0));
    assert!(!e.orbit_stale(false));
    assert!(e.orbit_stale(true));
    // More iterations need a longer orbit, unless it has escaped.
    e.view.max_iter = 400;
    assert!(e.orbit_stale(false));
    e.orbit.as_mut().unwrap().escaped = true;
    assert!(!e.orbit_stale(false));
    // The way from the reference point.
    e.pan(double(0.5), double(0.25));
    let drift = e.drift().unwrap();
    assert_eq!((number(drift.x), number(drift.y)), (0.5, 0.25));
}

#[test]
fn uniforms_follow_the_rule() {
    let mut e = Explorer::new();
    let (c, h, d, j) = (pair(1.0, 2.0), pair(3.0, 4.0), pair(5.0, 6.0), pair(7.0, 8.0));
    let zero = pair(0.0, 0.0);
    let u = e.uniforms(c, h, d, j);
    assert_eq!((u.center, u.half_extent, u.dc_offset, u.julia_c), (c, h, zero, zero));
    assert_eq!((u.formula, u.power, u.use_perturb, u.ref_len), (FORMULA_MANDELBROT, 2, 0, 0));
    assert_eq!(u.max_iter, 300);
    e.view.rule = FractalRule::Multibrot { power: 1 };
    assert_eq!(e.uniforms(c, h, d, j).power, 2);
    e.view.rule = FractalRule::Multibrot { power: 5 };
    let u = e.uniforms(c, h, d, j);
    assert_eq!((u.formula, u.power), (FORMULA_MULTIBROT, 5));
    e.view.rule = FractalRule::Julia { c: point(7.0, 8.0) };
    let u = e.uniforms(c, h, d, j);
    assert_eq!((u.formula, u.power, u.julia_c), (FORMULA_JULIA, 2, j));

    // Perturbation needs depth and an orbit.
    let mut e = Explorer::new();
    e.view.units_per_point = double(1e-9);
    assert_eq!(e.uniforms(c, h, d, j).use_perturb, 0);
    let orbit = reference_orbit(&e.view.center, 10, 100, |_p: Point| false).unwrap();
    e.keep_orbit(&orbit);
    let u = e.uniforms(c, h, d, j);
    assert_eq!((u.use_perturb, u.dc_offset, u.ref_len), (1, d, 11));
    e.view.units_per_point = double(1e-3);
    assert_eq!(e.uniforms(c, h, d, j).use_perturb, 0);
}

fn typed(re: &str, im: &str, zoom: &str) -> Explorer {
    let mut e = Explorer::new();
    e.coords = CoordEditor {
        re: re.to_owned(),
        im: im.to_owned(),
        zoom: zoom.to_owned(),
        dirty: true,
    };
    e
}

fn apply(e: &mut Explorer) -> String {
    let zoom: Option<f64> = e.coords.zoom.trim().parse().ok();
    let scale = 0.004 / zoom.unwrap_or(1.0);
    e.apply_coords(zoom.map(double), double(scale))
}

#[test]
fn typed_coordinates_move_the_view() {
    let mut e = typed(" -0.75 ", "0.1\t", " 1e3 ");
    assert_eq!(apply(&mut e), "Jumped to entered coordinates");
    assert_eq!(center(&e.view), (-0.75, 0.1));
    assert_eq!(number(e.view.units_per_point), 0.004 / 1e3);
    assert!(!e.coords.dirty);
    // Every typed digit is held: four bits each and the guard bits.
    assert_eq!(e.view.center.re.precision(), 4 * 5 + 64);
    // The scale keeps to the zoom limits.
    let mut e = typed("0", "0", "1e40");
    apply(&mut e);
    assert_eq!(number(e.view.units_per_point), 1e-32);
    assert_eq!(e.view.center.re.precision(), 107 + 64);
    let mut e = typed("0", "0", "1e-9");
    apply(&mut e);
    assert_eq!(number(e.view.units_per_point), 0.1);
}

#[test]
fn any_scale_is_jumped_to() {
    for re in ["0e-100000000", "0.000e100000000", "1e-2000000"] {
        let mut e = typed(re, "0", "1");
        assert_eq!(apply(&mut e), "Jumped to entered coordinates");
        assert_eq!(center(&e.view), (0.0, 0.0));
        assert!(!e.coords.dirty);
        assert!(e.view.is_ready());
    }
}

#[test]
fn white_space_around_an_entry_is_dropped() {
    for code in 0u32..=0x3100 {
        let c = match char::from_u32(code) {
            Some(c) => c,
            None => continue,
        };
        let white = matches!(
            code,
            0x9..=0xD | 0x20 | 0x85 | 0xA0 | 0x1680 | 0x2000..=0x200A | 0x2028 | 0x2029 | 0x202F
                | 0x205F | 0x3000
        );
        let entry = format!("{c}{c}a b{c}");
        let mut e = typed("0", "0", &entry);
        let message = apply(&mut e);
        let dropped = message == "Invalid coordinates: bad zoom \"a b\"";
        assert_eq!(dropped, white, "{code:x}");
    }
}

#[test]
fn refused_coordinates_change_nothing() {
    for (re, im, zoom, message) in [
        ("0", "0", " x\" ", "Invalid coordinates: bad zoom \"x\\\"\""),
        ("0", "0", "0", "Invalid coordinates: zoom must be positive"),
        ("0", "0", "-3", "Invalid coordinates: zoom must be positive"),
        ("0", "0", "inf", "Invalid coordinates: zoom must be positive"),
        ("0", "0", "NaN", "Invalid coordinates: zoom must be positive"),
        ("q", "0", "1", "Invalid coordinates: bad coordinate \"q\": invalid digit"),
        ("0", " ", "1", "Invalid coordinates: bad coordinate \"\": no digits"),
        ("1e5000000000000000000", "0", "1", "Invalid coordinates: coordinates are out of range"),
    ] {
        let mut e = typed(re, im, zoom);
        assert_eq!(apply(&mut e), message);
        assert!(e.coords.dirty);
        assert_eq!(center(&e.view), (-0.5, 0.0));
        assert_eq!(number(e.view.units_per_point), 0.004);
    }
}

#[test]
fn coordinate_fields_mirror_the_view_until_typed_in() {
    let text = |s: &str| s.to_owned();
    let mut fields = CoordEditor::new();
    fields.mirror(text("1"), text("2"), text("3"));
    assert_eq!((&fields.re[..], &fields.im[..], &fields.zoom[..]), ("1", "2", "3"));
    fields.dirty = true;
    fields.mirror(text("4"), text("5"), text("6"));
    assert_eq!(&fields.re, "1");
    let mut e = typed("a", "b", "c");
    e.revert_coords();
    assert!(!e.coords.dirty);
    assert_eq!(&e.coords.re, "a");
}

#[test]
fn pins_toggle() {
    let mut e = Explorer::new();
    e.toggle_pin(None, None);
    assert!(e.julia_pin.is_none());
    e.toggle_pin(Some(point(0.1, 0.2)), Some(point(9.0, 9.0)));
    assert_eq!(e.julia_pin, Some(point(0.1, 0.2)));
    assert_eq!(e.preview_c(Some(point(5.0, 5.0))), Some(point(0.1, 0.2)));
    e.toggle_pin(Some(point(0.3, 0.4)), None);
    assert!(e.julia_pin.is_none());
    assert_eq!(e.preview_c(Some(point(5.0, 5.0))), Some(point(5.0, 5.0)));
    assert_eq!(e.preview_c(None), None);
    e.toggle_pin(None, Some(point(f64::NAN, 0.0)));
    assert!(e.julia_pin.is_none());
    e.toggle_pin(None, Some(point(0.5, 0.5)));
    assert_eq!(e.julia_pin, Some(point(0.5, 0.5)));
    e.open_julia_view(point(0.5, 0.5));
    assert!(e.julia_pin.is_none());
    assert!(e.view.rule.equals(&FractalRule::Julia { c: point(0.5, 0.5) }));
    assert_eq!(center(&e.view), (0.0, 0.0));
}

#[test]
fn bookmarks_replace_the_view() {
    let mut e = typed("a", "b", "c");
    let view = ViewState {
        center: BigComplex::from_f64(double(0.25), double(5.0)),
        max_iter: 1234,
        ..ViewState::default()
    };
    e.apply_bookmark(view);
    assert_eq!(center(&e.view), (0.25, 5.0));
    assert_eq!(e.view.max_iter, 1234);
    assert!(!e.coords.dirty && e.orbit.is_none());
    assert!(e.view.is_ready());
    e.view.units_per_point = double(-0.0);
    assert!(!e.view.is_ready());
    let coloring = e.view.coloring();
    assert!(coloring.palette.equals(Palette::Classic));
}
