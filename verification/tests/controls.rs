use fractalx::attractor::Kind;
use fractalx::controls::{
    add_map, add_rule, at_zoom_limit, attractor_edited, beyond_single_precision, cap_notice,
    density_progress, export_edge, remove_map, remove_rule, retype_symbol,
};
use fractalx::float::{Double, Point, Single};
use fractalx::ifs::presets;
use fractalx::julia::{
    needs_textures, pane_edge, pane_uniforms, pane_wanted, shown_c, Pane, PANE_ITERS,
};
use fractalx::lsystem::Rule;
use fractalx::mandelbrot::{Pair, FORMULA_JULIA};
use fractalx::palette::{Coloring, Palette};
use fractalx::session::{FractalRule, ViewState};

fn double(v: f64) -> Double {
    Double { bits: v.to_bits() }
}

fn single(v: f32) -> Single {
    Single { bits: v.to_bits() }
}

fn pair(x: f32, y: f32) -> Pair {
    Pair {
        x: single(x),
        y: single(y),
    }
}

fn coloring(palette: Palette) -> Coloring {
    Coloring {
        palette,
        freq: single(1.0),
        phase: single(0.0),
    }
}

#[test]
fn maps_are_added_and_removed() {
    let mut maps = presets().remove(2).maps;
    let first = maps[0];
    add_map(&mut maps);
    assert_eq!(maps.len(), 3);
    let added = maps[2];
    assert_eq!(
        [added.a, added.b, added.c, added.d, added.e, added.f, added.weight],
        [0.5, 0.0, 0.0, 0.5, 0.0, 0.0, 1.0].map(single)
    );
    remove_map(&mut maps, 1);
    assert_eq!(maps, vec![first, added]);
}

#[test]
fn rules_are_added_removed_and_retyped() {
    let mut rules = vec![Rule::new('X', "YY")];
    add_rule(&mut rules);
    assert_eq!(rules, vec![Rule::new('X', "YY"), Rule::new('F', "F")]);
    retype_symbol(&mut rules[1], "FG");
    assert_eq!(rules[1].symbol, 'G');
    retype_symbol(&mut rules[1], "");
    assert_eq!(rules[1], Rule::new('G', "F"));
    remove_rule(&mut rules, 0);
    assert_eq!(rules, vec![Rule::new('G', "F")]);
}

#[test]
fn attractor_edits_are_noticed() {
    let p = [1.0, 2.0, 3.0, 4.0].map(double);
    let q = [1.0, 2.0, 3.5, 4.0].map(double);
    assert!(!attractor_edited(Kind::DeJong, p, Kind::DeJong, p));
    assert!(attractor_edited(Kind::DeJong, p, Kind::Clifford, p));
    assert!(attractor_edited(Kind::DeJong, p, Kind::DeJong, q));
}

#[test]
fn a_cut_expansion_is_said() {
    assert_eq!(cap_notice(7, 7), None);
    assert_eq!(
        cap_notice(9, 120).unwrap(),
        "Symbol cap reached — showing generation 9 of 120."
    );
}

#[test]
fn progress_is_shown_of_the_plot_in_view() {
    let ifs = FractalRule::Ifs { maps: vec![], points: 100 };
    assert_eq!(density_progress(&ifs, Some(40), Some(1)), Some((40, 100)));
    assert_eq!(density_progress(&ifs, Some(100), Some(1)), None);
    assert_eq!(density_progress(&ifs, None, Some(1)), None);
    let attractor = FractalRule::Attractor {
        kind: Kind::Clifford,
        params: [double(0.0); 4],
        points: 9,
    };
    assert_eq!(density_progress(&attractor, Some(1), Some(3)), Some((3, 9)));
    assert_eq!(density_progress(&FractalRule::Mandelbrot, Some(1), Some(3)), None);
}

#[test]
fn zoom_notices() {
    let mut view = ViewState::default();
    assert!(!at_zoom_limit(&view));
    view.units_per_point = double(1e-32);
    assert!(at_zoom_limit(&view));
    view.units_per_point = double(1.02e-32);
    assert!(!at_zoom_limit(&view));
    view.units_per_point = double(1e-32);
    view.rule = FractalRule::Multibrot { power: 3 };
    assert!(!at_zoom_limit(&view));

    let julia = FractalRule::Julia {
        c: Point {
            x: double(0.0),
            y: double(1.0),
        },
    };
    assert!(beyond_single_precision(&julia, double(3.1e4)));
    assert!(!beyond_single_precision(&julia, double(3.0e4)));
    assert!(!beyond_single_precision(&FractalRule::Mandelbrot, double(1e9)));
    assert!(!beyond_single_precision(
        &FractalRule::Ifs { maps: vec![], points: 0 },
        double(1e9)
    ));
}

#[test]
fn exports_have_a_least_size() {
    assert_eq!(export_edge(3), 16);
    assert_eq!(export_edge(1440), 1440);
}

#[test]
fn previews_show_the_last_c_until_another_is_asked_for() {
    let colors = coloring(Palette::Classic);
    let fresh = Pane::new(colors, 200);
    assert_eq!(shown_c(None, None), None);
    assert_eq!(shown_c(None, Some(fresh)), None);
    assert_eq!(shown_c(Some(pair(0.1, 0.2)), Some(fresh)), Some(pair(0.1, 0.2)));
    let rendered = Pane {
        rendered_c: pair(0.3, 0.4),
        ..fresh
    };
    assert_eq!(shown_c(None, Some(rendered)), Some(pair(0.3, 0.4)));
    assert!(fresh.outdated(fresh.rendered_c, colors));
    assert!(!rendered.outdated(pair(0.3, 0.4), colors));
    assert!(rendered.outdated(pair(0.3, 0.5), colors));
    assert!(rendered.outdated(pair(0.3, 0.4), coloring(Palette::Fire)));
    assert!(needs_textures(None, 200));
    assert!(needs_textures(Some(rendered), 201));
    assert!(!needs_textures(Some(rendered), 200));
}

#[test]
fn previews_have_a_fixed_frame() {
    let u = pane_uniforms(pair(0.3, 0.4));
    assert_eq!((u.center, u.half_extent), (pair(0.0, 0.0), pair(1.7, 1.7)));
    assert_eq!(u.julia_c, pair(0.3, 0.4));
    assert_eq!((u.max_iter, u.formula, u.power), (PANE_ITERS, FORMULA_JULIA, 2));
    assert_eq!(pane_edge(10), 64);
    assert_eq!(pane_edge(400), 400);
    assert_eq!(pane_edge(4000), 1024);
    let mut view = ViewState::default();
    assert!(pane_wanted(&view, true));
    assert!(!pane_wanted(&view, false));
    view.rule = FractalRule::Multibrot { power: 3 };
    assert!(!pane_wanted(&view, true));
}
