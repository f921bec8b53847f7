use fractalx::attractor::Kind;
use fractalx::float::{Double, Point, Single};
use fractalx::ifs::{presets, IfsView};
use fractalx::lsystem::Rule;
use fractalx::palette::{Coloring, Palette};
use fractalx::progress::{
    attractor_plot_valid, drawing_valid, export_points, ifs_plot_valid, plot_edge, rules_equal,
    terrain_valid, Batch, Development, Placement, System, ATTRACTOR_EXPORT_POINTS,
    IFS_EXPORT_POINTS,
};
use fractalx::terrain::Params;

fn double(v: f64) -> Double {
    Double { bits: v.to_bits() }
}

fn coloring(palette: Palette) -> Coloring {
    Coloring {
        palette,
        freq: Single { bits: 1.0f32.to_bits() },
        phase: Single { bits: 0 },
    }
}

fn placement(x: f64, width: usize) -> Placement {
    Placement {
        view: IfsView {
            center: Point {
                x: double(x),
                y: double(0.0),
            },
            units_per_pixel: double(0.01),
        },
        width,
        height: 50,
    }
}

#[test]
fn plots_develop_a_million_points_a_frame() {
    let colors = coloring(Palette::Classic);
    let mut plot = Development::new(colors);
    let mut done = Vec::new();
    while plot.unfinished(2_500_000) {
        let batch = plot.develop(colors, 2_500_000);
        assert!(batch.retonemap);
        done.push((batch.points, plot.done));
    }
    assert_eq!(
        done,
        vec![(1_000_000, 1_000_000), (1_000_000, 2_000_000), (500_000, 2_500_000)]
    );
    assert_eq!(
        plot.develop(colors, 2_500_000),
        Batch { points: 0, retonemap: false }
    );
    // A palette change tone-maps once more.
    assert_eq!(
        plot.develop(coloring(Palette::Fire), 2_500_000),
        Batch { points: 0, retonemap: true }
    );
    assert_eq!(
        plot.develop(coloring(Palette::Fire), 2_500_000),
        Batch { points: 0, retonemap: false }
    );
}

#[test]
fn chaos_games_are_kept_while_nothing_changes() {
    let maps = presets().remove(0).maps;
    let other = presets().remove(1).maps;
    let here = placement(0.5, 100);
    assert!(ifs_plot_valid(here, &maps, 10, here, &maps, 10));
    assert!(!ifs_plot_valid(here, &maps, 11, here, &maps, 10));
    assert!(!ifs_plot_valid(here, &maps, 10, here, &other, 10));
    assert!(!ifs_plot_valid(here, &maps, 10, placement(0.6, 100), &maps, 10));
    assert!(!ifs_plot_valid(here, &maps, 10, placement(0.5, 101), &maps, 10));
}

#[test]
fn attractors_are_kept_while_nothing_changes() {
    let here = placement(0.5, 100);
    let p = [1.0, 2.0, 3.0, 4.0].map(double);
    let q = [1.0, 2.0, 3.0, 4.5].map(double);
    let valid = |kind, params, done| {
        attractor_plot_valid(here, Kind::Clifford, p, done, here, kind, params, 10)
    };
    assert!(valid(Kind::Clifford, p, 10));
    assert!(!valid(Kind::DeJong, p, 10));
    assert!(!valid(Kind::Clifford, q, 10));
    assert!(!valid(Kind::Clifford, p, 11));
}

#[test]
fn terrain_is_kept_while_nothing_changes() {
    let here = placement(0.0, 64);
    let (p, c) = (Params::default(), coloring(Palette::Classic));
    assert!(terrain_valid(here, p, c, here, p, c));
    assert!(!terrain_valid(here, p, c, here, Params { seed: 7, ..p }, c));
    assert!(!terrain_valid(here, p, c, here, p, coloring(Palette::Fire)));
    assert!(!terrain_valid(here, p, c, placement(1.0, 64), p, c));
}

fn system(start: &str, angle: f64) -> System {
    System {
        start: start.to_owned(),
        rules: vec![Rule::new('F', "FF"), Rule::new('X', "")],
        angle_deg: double(angle),
        generations: 3,
    }
}

#[test]
fn systems_are_equal_part_by_part() {
    let a = system("F", 90.0);
    assert!(a.equals(&system("F", 90.0)));
    assert!(a.copy().equals(&a));
    assert!(!a.equals(&system("G", 90.0)));
    assert!(!a.equals(&system("F", 60.0)));
    let mut b = system("F", 90.0);
    b.generations = 4;
    assert!(!a.equals(&b));
    let mut c = system("F", 90.0);
    c.rules.pop();
    assert!(!a.equals(&c));
    assert!(!rules_equal(&a.rules, &[Rule::new('F', "FF"), Rule::new('Y', "")]));
    assert!(!rules_equal(&a.rules, &[Rule::new('F', "FG"), Rule::new('X', "")]));
}

#[test]
fn drawings_are_kept_once_made() {
    let (here, c) = (placement(0.0, 64), coloring(Palette::Classic));
    assert!(!drawing_valid(None, here, c));
    assert!(drawing_valid(Some((here, c)), here, c));
    assert!(!drawing_valid(Some((here, c)), placement(0.1, 64), c));
    assert!(!drawing_valid(Some((here, c)), here, coloring(Palette::Fire)));
}

#[test]
fn edges_and_budgets_are_bounded() {
    assert_eq!(plot_edge(3), 16);
    assert_eq!(plot_edge(300), 300);
    assert_eq!(plot_edge(30_000), 4096);
    assert_eq!(export_points(5, IFS_EXPORT_POINTS), 5);
    assert_eq!(export_points(u64::MAX, IFS_EXPORT_POINTS), 200_000_000);
    assert_eq!(export_points(u64::MAX, ATTRACTOR_EXPORT_POINTS), 500_000_000);
}
