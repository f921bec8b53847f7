use fractalx::attractor::{bbox, histogram, presets, Kind, Orbits, WARMUP};
use fractalx::density::{lane_share, Sample, LANES};
use fractalx::float::{Double, Point};
use fractalx::ifs::IfsView;

fn double(v: f64) -> Double {
    Double { bits: v.to_bits() }
}

fn number(d: Double) -> f64 {
    f64::from_bits(d.bits)
}

fn step(kind: Kind, p: [f64; 4], x: f64, y: f64) -> (f64, f64) {
    let [a, b, c, d] = p;
    match kind {
        Kind::Clifford => (
            (a * y).sin() + c * (a * x).cos(),
            (b * x).sin() + d * (b * y).cos(),
        ),
        Kind::DeJong => ((a * y).sin() - (b * x).cos(), (c * x).sin() - (d * y).cos()),
    }
}

fn start(lane: usize) -> (f64, f64) {
    let t = lane as f64 / LANES as f64 * std::f64::consts::TAU;
    (0.1 * t.cos(), 0.1 * t.sin())
}

fn trail(kind: Kind, params: [f64; 4], samples: u64) -> Vec<Point> {
    let (mut x, mut y) = start(0);
    (0..samples + WARMUP as u64)
        .map(|_| {
            (x, y) = step(kind, params, x, y);
            Point {
                x: double(x),
                y: double(y),
            }
        })
        .collect()
}

struct Walk {
    kind: Kind,
    params: [f64; 4],
    view: IfsView,
    edge: usize,
    at: (f64, f64),
}

impl Walk {
    fn sample(&mut self) -> Sample {
        let (x, y) = step(self.kind, self.params, self.at.0, self.at.1);
        self.at = (x, y);
        let upp = number(self.view.units_per_pixel);
        let ox = number(self.view.center.x) - upp * self.edge as f64 * 0.5;
        let oy = number(self.view.center.y) + upp * self.edge as f64 * 0.5;
        Sample {
            at: Point {
                x: double(x),
                y: double(y),
            },
            pixel: Point {
                x: double((x - ox) / upp),
                y: double((oy - y) / upp),
            },
        }
    }
}

fn walks(kind: Kind, params: [f64; 4], view: IfsView, edge: usize) -> Vec<Walk> {
    (0..LANES)
        .map(|lane| Walk {
            kind,
            params,
            view,
            edge,
            at: start(lane),
        })
        .collect()
}

fn one_shot(kind: Kind, params: [f64; 4], points: u64, view: IfsView, edge: usize) -> Vec<u32> {
    let feeds: Vec<Vec<Sample>> = walks(kind, params, view, edge)
        .into_iter()
        .enumerate()
        .map(|(lane, mut walk)| {
            let need = lane_share(points, lane) + WARMUP as u64;
            (0..need).map(|_| walk.sample()).collect()
        })
        .collect();
    histogram(&feeds, points, edge, edge)
}

fn test_view(kind: Kind, params: [f64; 4]) -> IfsView {
    let b = bbox(&trail(kind, params, 10_000)).unwrap().map(number);
    IfsView {
        center: Point {
            x: double((b[0] + b[2]) * 0.5),
            y: double((b[1] + b[3]) * 0.5),
        },
        units_per_pixel: double(((b[2] - b[0]).max(b[3] - b[1]) * 1.1) / 128.0),
    }
}

#[test]
fn orbits_are_deterministic() {
    let p = presets()[0];
    let params = p.params.map(number);
    let view = test_view(p.kind, params);
    let a = one_shot(p.kind, params, 200_000, view, 128);
    let b = one_shot(p.kind, params, 200_000, view, 128);
    assert_eq!(a, b);
    assert!(a.iter().map(|&n| n as u64).sum::<u64>() > 100_000);
}

#[test]
fn attractor_batched_advance_equals_one_shot() {
    let p = presets()[2];
    let params = p.params.map(number);
    let view = test_view(p.kind, params);
    let one = one_shot(p.kind, params, 100_000, view, 128);

    let mut hist = vec![0u32; 128 * 128];
    let mut orbits = Orbits::new();
    let mut walks = walks(p.kind, params, view, 128);
    let mut pending: Vec<Vec<Sample>> = vec![Vec::new(); LANES];
    for batch in [1u64, 999, 30_000, 69_000] {
        for lane in 0..LANES {
            let need = orbits.demand(batch, lane) as usize;
            while pending[lane].len() < need {
                let sample = walks[lane].sample();
                pending[lane].push(sample);
            }
        }
        let used = orbits.advance(&pending, 128, 128, &mut hist, batch);
        for lane in 0..LANES {
            pending[lane].drain(..used[lane]);
        }
    }
    assert_eq!(one, hist);
}

#[test]
fn presets_have_finite_nondegenerate_bounds() {
    for p in presets() {
        let b = bbox(&trail(p.kind, p.params.map(number), 10_000))
            .unwrap_or_else(|| panic!("{} empty", p.name))
            .map(number);
        assert!(b.iter().all(|v| v.is_finite()), "{} unbounded", p.name);
        assert!(b[2] - b[0] > 0.1 && b[3] - b[1] > 0.1, "{} degenerate", p.name);
    }
}

#[test]
fn attractor_presets_hold_their_parameters() {
    let all = presets();
    let expected = [
        ("Clifford A", Kind::Clifford, [-1.4, 1.6, 1.0, 0.7]),
        ("Clifford B", Kind::Clifford, [-1.7, 1.3, -0.1, -1.2]),
        ("de Jong A", Kind::DeJong, [-2.7, -0.09, -0.86, -2.2]),
        ("de Jong B", Kind::DeJong, [1.4, -2.3, 2.4, -2.1]),
    ];
    assert_eq!(all.len(), expected.len());
    for (preset, (name, kind, params)) in all.iter().zip(expected) {
        assert_eq!(preset.name, name);
        assert_eq!(preset.kind, kind);
        assert_eq!(preset.params.map(number), params);
    }
}

#[test]
fn kinds_have_names() {
    assert_eq!(Kind::Clifford.name(), "Clifford");
    assert_eq!(Kind::DeJong.name(), "de Jong");
}

#[test]
fn orbit_box_skips_the_first_settled_steps() {
    let point = |x: f64| Point {
        x: double(x),
        y: double(-x),
    };
    let mut trail = vec![point(9.0); 100];
    assert!(bbox(&trail).is_none());
    // A step that diverged does not count toward the warmup.
    trail[3] = point(f64::NAN);
    trail.push(point(8.0));
    assert!(bbox(&trail).is_none());
    trail.push(point(2.0));
    trail.push(point(-1.0));
    assert_eq!(bbox(&trail).unwrap().map(number), [-1.0, -2.0, 2.0, 1.0]);
}

#[test]
fn fresh_orbits_owe_their_warmup() {
    let orbits = Orbits::default();
    assert_eq!(orbits.demand(0, 5), 100);
    assert_eq!(orbits.demand(17, 0), 102);
    assert_eq!(orbits.demand(17, 1), 101);
}
