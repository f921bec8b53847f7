use fractalx::density::{lane_share, tone_scale, tonemap_rgba, Sample, LANES};
use fractalx::float::{Double, Point, Single};
use fractalx::ifs::{
    attractor_bbox, chaos_histogram, is_idle, maps_equal, presets, walker_seed, AffineMap,
    ChaosGame, IfsView, BBOX_SEED, WARMUP,
};
use fractalx::palette::Palette;
use rayon::iter::{IntoParallelIterator, ParallelIterator};

fn double(v: f64) -> Double {
    Double { bits: v.to_bits() }
}

fn single(v: f32) -> Single {
    Single { bits: v.to_bits() }
}

fn value(s: Single) -> f32 {
    f32::from_bits(s.bits)
}

fn number(d: Double) -> f64 {
    f64::from_bits(d.bits)
}

fn map(a: f32, b: f32, c: f32, d: f32, e: f32, f: f32, weight: f32) -> AffineMap {
    AffineMap {
        a: single(a),
        b: single(b),
        c: single(c),
        d: single(d),
        e: single(e),
        f: single(f),
        weight: single(weight),
    }
}

fn total_weight(maps: &[AffineMap]) -> f32 {
    maps.iter().map(|m| value(m.weight).max(0.0)).sum()
}

fn view(x: f64, y: f64, units_per_pixel: f64) -> IfsView {
    IfsView {
        center: Point {
            x: double(x),
            y: double(y),
        },
        units_per_pixel: double(units_per_pixel),
    }
}

fn sierpinski_view() -> IfsView {
    view(0.5, 0.43, 1.2 / 128.0)
}

/// The random walk of one lane.
struct Walker {
    rng: fastrand::Rng,
    x: f32,
    y: f32,
}

impl Walker {
    fn new(seed: u64) -> Self {
        Walker {
            rng: fastrand::Rng::with_seed(seed),
            x: 0.0,
            y: 0.0,
        }
    }

    fn step(&mut self, maps: &[AffineMap], total: f32) -> (f32, f32) {
        let mut pick = self.rng.f32() * total;
        let mut chosen = &maps[0];
        for m in maps {
            let w = value(m.weight).max(0.0);
            if pick < w {
                chosen = m;
                break;
            }
            pick -= w;
        }
        let nx = value(chosen.a) * self.x + value(chosen.b) * self.y + value(chosen.e);
        let ny = value(chosen.c) * self.x + value(chosen.d) * self.y + value(chosen.f);
        self.x = nx;
        self.y = ny;
        if !nx.is_finite() || !ny.is_finite() {
            (self.x, self.y) = (0.0, 0.0);
        }
        (nx, ny)
    }

    fn sample(&mut self, maps: &[AffineMap], view: IfsView, width: usize, height: usize) -> Sample {
        let (x, y) = self.step(maps, total_weight(maps));
        let upp = number(view.units_per_pixel);
        let ox = number(view.center.x) - upp * width as f64 * 0.5;
        let oy = number(view.center.y) + upp * height as f64 * 0.5;
        Sample {
            at: Point {
                x: double(x as f64),
                y: double(y as f64),
            },
            pixel: Point {
                x: double((x as f64 - ox) / upp),
                y: double((oy - y as f64) / upp),
            },
        }
    }
}

/// Walkers of all lanes, with the samples that no batch has used yet.
struct Walkers {
    walkers: Vec<Walker>,
    pending: Vec<Vec<Sample>>,
}

impl Walkers {
    fn new() -> Self {
        Walkers {
            walkers: (0..LANES).map(|lane| Walker::new(walker_seed(lane))).collect(),
            pending: vec![Vec::new(); LANES],
        }
    }

    fn advance(
        &mut self,
        game: &mut ChaosGame,
        maps: &[AffineMap],
        view: IfsView,
        width: usize,
        height: usize,
        hist: &mut Vec<u32>,
        points: u64,
    ) -> Vec<usize> {
        let total = single(total_weight(maps));
        if !is_idle(maps, total) {
            for lane in 0..LANES {
                let need = game.demand(points, lane) as usize;
                while self.pending[lane].len() < need {
                    let sample = self.walkers[lane].sample(maps, view, width, height);
                    self.pending[lane].push(sample);
                }
            }
        }
        let used = game.advance(maps, total, &self.pending, width, height, hist, points);
        for lane in 0..LANES {
            self.pending[lane].drain(..used[lane]);
        }
        used
    }
}

fn histogram(
    maps: &[AffineMap],
    points: u64,
    view: IfsView,
    width: usize,
    height: usize,
) -> Vec<u32> {
    let total = single(total_weight(maps));
    let idle = is_idle(maps, total);
    let feeds: Vec<Vec<Sample>> = (0..LANES)
        .into_par_iter()
        .map(|lane| {
            if idle {
                return Vec::new();
            }
            let mut walker = Walker::new(walker_seed(lane));
            let need = lane_share(points, lane) + WARMUP as u64;
            (0..need).map(|_| walker.sample(maps, view, width, height)).collect()
        })
        .collect();
    chaos_histogram(maps, total, &feeds, points, width, height)
}

#[test]
fn sierpinski_fills_triangle_not_holes() {
    let maps = &presets()[0].maps;
    let hist = histogram(maps, 200_000, sierpinski_view(), 128, 128);

    let density_at = |wx: f64, wy: f64| {
        let v = sierpinski_view();
        let upp = number(v.units_per_pixel);
        let px = ((wx - (number(v.center.x) - upp * 64.0)) / upp) as usize;
        let py = (((number(v.center.y) + upp * 64.0) - wy) / upp) as usize;
        // 3x3 neighborhood sum
        (px.saturating_sub(1)..=px + 1)
            .flat_map(|x| (py.saturating_sub(1)..=py + 1).map(move |y| (x, y)))
            .map(|(x, y)| hist.get(y * 128 + x).copied().unwrap_or(0))
            .sum::<u32>()
    };

    // Corners of the triangle are on the attractor.
    assert!(density_at(0.0, 0.0) > 0, "bottom-left corner empty");
    assert!(density_at(1.0, 0.0) > 0, "bottom-right corner empty");
    assert!(density_at(0.5, 0.866) > 0, "top corner empty");
    // The center of the central hole is not.
    assert_eq!(density_at(0.5, 0.29), 0, "central hole has points");
}

#[test]
fn ifs_batched_advance_equals_one_shot() {
    let maps = &presets()[0].maps;
    let view = sierpinski_view();
    let one_shot = histogram(maps, 100_000, view, 64, 64);

    let mut game = ChaosGame::new();
    let mut walkers = Walkers::new();
    let mut hist = vec![0u32; 64 * 64];
    for batch in [30_000u64, 50_000, 20_000] {
        walkers.advance(&mut game, maps, view, 64, 64, &mut hist, batch);
    }
    assert_eq!(hist, one_shot, "batch split changed the result");
}

#[test]
fn result_independent_of_thread_count() {
    let run = |threads: usize| {
        rayon::ThreadPoolBuilder::new()
            .num_threads(threads)
            .build()
            .unwrap()
            .install(|| histogram(&presets()[1].maps, 100_000, sierpinski_view(), 64, 64))
    };
    assert_eq!(run(1), run(8), "histogram depends on thread count");
}

#[test]
fn chaos_game_is_deterministic() {
    let maps = &presets()[1].maps; // fern
    let view = view(0.25, 5.0, 11.0 / 64.0);
    let a = histogram(maps, 50_000, view, 64, 64);
    let b = histogram(maps, 50_000, view, 64, 64);
    assert_eq!(a, b);
    assert!(a.iter().any(|&n| n > 0));
}

#[test]
fn degenerate_systems_yield_empty_histograms() {
    // No maps, zero weights, and a diverging map must not hang or panic.
    let view = sierpinski_view();
    assert!(histogram(&[], 1000, view, 16, 16).iter().all(|&n| n == 0));
    let zero_w = [map(0.5, 0.0, 0.0, 0.5, 0.0, 0.0, 0.0)];
    assert!(histogram(&zero_w, 1000, view, 16, 16).iter().all(|&n| n == 0));
    let diverging = [map(10.0, 0.0, 0.0, 10.0, 1.0, 1.0, 1.0)];
    let _ = histogram(&diverging, 1000, view, 16, 16); // must terminate
}

/// The palette formula on the CPU.
fn eval(palette: Palette, t: f32, freq: f32, phase: f32) -> [u8; 3] {
    let rows = palette.coeffs();
    let x = t * freq + phase;
    let mut rgb = [0u8; 3];
    for i in 0..3 {
        let v = value(rows[0][i])
            + value(rows[1][i]) * (6.2831853 * (value(rows[2][i]) * x + value(rows[3][i]))).cos();
        rgb[i] = (v.clamp(0.0, 1.0) * 255.0) as u8;
    }
    rgb
}

#[test]
fn tonemap_maps_zero_to_black_and_scales() {
    let hist = [0u32, 1, 100];
    assert_eq!(tone_scale(&hist), 100);
    let inv_log_max = 1.0 / (1.0 + tone_scale(&hist) as f32).ln();
    let tones: Vec<[u8; 3]> = hist
        .iter()
        .map(|&n| eval(Palette::Classic, (1.0 + n as f32).ln() * inv_log_max, 1.0, 0.0))
        .collect();
    let rgba = tonemap_rgba(&hist, &tones);
    assert_eq!(&rgba[0..4], &[0, 0, 0, 255]);
    assert_ne!(&rgba[4..7], &[0, 0, 0]);
    assert_eq!(rgba.len(), 12);
}

#[test]
fn an_empty_histogram_is_scaled_by_one() {
    assert_eq!(tone_scale(&[]), 1);
    assert_eq!(tone_scale(&[0, 0]), 1);
    assert_eq!(tone_scale(&[3, 7, 5]), 7);
}

#[test]
fn preset_numbers_are_those_of_the_classic_systems() {
    let all = presets();
    assert_eq!(all.len(), 3);
    assert_eq!(all[0].name, "Sierpinski triangle");
    assert_eq!(all[1].name, "Barnsley fern");
    assert_eq!(all[2].name, "Heighway dragon");
    let sierpinski = [
        map(0.5, 0.0, 0.0, 0.5, 0.0, 0.0, 1.0),
        map(0.5, 0.0, 0.0, 0.5, 0.5, 0.0, 1.0),
        map(0.5, 0.0, 0.0, 0.5, 0.25, 0.433, 1.0),
    ];
    let fern = [
        map(0.0, 0.0, 0.0, 0.16, 0.0, 0.0, 0.01),
        map(0.85, 0.04, -0.04, 0.85, 0.0, 1.6, 0.85),
        map(0.2, -0.26, 0.23, 0.22, 0.0, 1.6, 0.07),
        map(-0.15, 0.28, 0.26, 0.24, 0.0, 0.44, 0.07),
    ];
    let dragon = [
        map(0.5, -0.5, 0.5, 0.5, 0.0, 0.0, 1.0),
        map(-0.5, -0.5, 0.5, -0.5, 1.0, 0.0, 1.0),
    ];
    assert_eq!(all[0].maps, sierpinski);
    assert_eq!(all[1].maps, fern);
    assert_eq!(all[2].maps, dragon);
    let frames = [(0.5, 0.43, 0.0016), (0.25, 5.0, 0.0145), (0.5, 0.25, 0.0025)];
    for (preset, (x, y, upp)) in all.iter().zip(frames) {
        assert_eq!(number(preset.center.x), x);
        assert_eq!(number(preset.center.y), y);
        assert_eq!(number(preset.units_per_point), upp);
    }
}

#[test]
fn shares_sum_to_the_total_and_take_turns() {
    for total in [0u64, 1, 15, 16, 17, 1000, 123_457] {
        let sum: u64 = (0..LANES).map(|lane| lane_share(total, lane)).sum();
        assert_eq!(sum, total);
    }
    assert_eq!(lane_share(1, 0), 1);
    assert_eq!(lane_share(1, 1), 0);
    assert_eq!(lane_share(17, 0), 2);
    assert_eq!(lane_share(17, 1), 1);
    assert_eq!(lane_share(100, 3), 7);
    assert_eq!(lane_share(100, 4), 6);
}

#[test]
fn seeds_follow_the_lane() {
    assert_eq!(walker_seed(0), 0x5eed_f2ac_7a15_0001);
    assert_eq!(walker_seed(15), 0x5eed_f2ac_7a15_0010);
}

/// A sample at a place of the frame, finite unless it is to diverge.
fn placed(px: f64, py: f64, finite: bool) -> Sample {
    let at = if finite { 0.0 } else { f64::INFINITY };
    Sample {
        at: Point {
            x: double(at),
            y: double(0.0),
        },
        pixel: Point {
            x: double(px),
            y: double(py),
        },
    }
}

#[test]
fn warmup_divergence_and_frame_decide_what_is_plotted() {
    // Lane 0 gets the one point; 32 settled samples are skipped first.
    let mut feeds: Vec<Vec<Sample>> = vec![vec![placed(0.0, 0.0, true); 33]; LANES];
    feeds[0][32] = placed(2.9, 1.0, true);
    let maps = [map(0.5, 0.0, 0.0, 0.5, 0.0, 0.0, 1.0)];
    let hist = chaos_histogram(&maps, single(1.0), &feeds, 1, 4, 3);
    let mut expected = vec![0u32; 12];
    expected[4 + 2] = 1;
    assert_eq!(hist, expected);

    // A sample that diverged counts as the point, and plots nothing.
    feeds[0][0] = placed(2.9, 1.0, false);
    let hist = chaos_histogram(&maps, single(1.0), &feeds, 1, 4, 3);
    assert!(hist.iter().all(|&n| n == 0));

    // Outside the frame, below zero and not a number are not plotted.
    for (px, py) in [(4.0, 0.0), (0.0, 3.0), (-0.1, 0.0), (f64::NAN, 0.0), (f64::INFINITY, 0.0)] {
        feeds[0] = vec![placed(0.0, 0.0, true); 33];
        feeds[0][32] = placed(px, py, true);
        let hist = chaos_histogram(&maps, single(1.0), &feeds, 1, 4, 3);
        assert!(hist.iter().all(|&n| n == 0), "plotted ({px}, {py})");
    }
}

#[test]
fn idle_systems_use_nothing_and_count_nothing() {
    let mut game = ChaosGame::new();
    let mut walkers = Walkers::new();
    let mut hist = vec![0u32; 16];
    let used = walkers.advance(&mut game, &[], sierpinski_view(), 4, 4, &mut hist, 1000);
    assert_eq!(used, vec![0; LANES]);
    // Nothing was counted: a lane still owes its first point and its warmup.
    assert_eq!(game.demand(1, 0), 33);
    assert_eq!(game.demand(1, 1), 32);
    // A total weight that is no number is no idle system.
    assert!(!is_idle(&[map(0.5, 0.0, 0.0, 0.5, 0.0, 0.0, 1.0)], single(f32::NAN)));
}

#[test]
fn a_lane_uses_its_quota_and_its_warmup() {
    let maps = &presets()[0].maps;
    let mut game = ChaosGame::default();
    let mut walkers = Walkers::new();
    let mut hist = vec![0u32; 64 * 64];
    let used = walkers.advance(&mut game, maps, sierpinski_view(), 64, 64, &mut hist, 160);
    assert_eq!(used, vec![10 + 32; LANES]);
    let used = walkers.advance(&mut game, maps, sierpinski_view(), 64, 64, &mut hist, 160);
    assert_eq!(used, vec![10; LANES]);
}

#[test]
fn attractor_box_skips_the_warmup_and_is_none_for_what_diverges() {
    let maps = presets().remove(0).maps;
    let total = single(total_weight(&maps));
    let point = |x: f64, y: f64| Point {
        x: double(x),
        y: double(y),
    };
    let mut trail = vec![point(50.0, 50.0); 32];
    assert!(attractor_bbox(&maps, total, &trail).is_none());
    trail.push(point(1.0, -2.0));
    trail.push(point(-3.0, 4.0));
    let b = attractor_bbox(&maps, total, &trail).unwrap();
    assert_eq!(b.map(number), [-3.0, -2.0, 1.0, 4.0]);
    assert!(attractor_bbox(&[], total, &trail).is_none());
    assert!(attractor_bbox(&maps, single(0.0), &trail).is_none());
    for diverged in [f64::INFINITY, f64::NEG_INFINITY, f64::NAN] {
        let mut trail = trail.clone();
        trail.push(point(diverged, 0.0));
        assert!(attractor_bbox(&maps, total, &trail).is_none());
        trail[33] = point(0.0, diverged);
        trail[34] = point(0.0, 0.0);
        assert!(attractor_bbox(&maps, total, &trail).is_none());
        trail[33] = point(0.0, 0.0);
        trail[0] = point(diverged, 0.0);
        assert!(attractor_bbox(&maps, total, &trail).is_none());
    }

    // A map that grows by ten each step.
    let diverging = [map(10.0, 0.0, 0.0, 10.0, 1.0, 1.0, 1.0)];
    let mut walker = Walker::new(BBOX_SEED);
    let trail: Vec<Point> = (0..1032)
        .map(|_| {
            let (x, y) = walker.step(&diverging, 1.0);
            point(x as f64, y as f64)
        })
        .collect();
    assert!(attractor_bbox(&diverging, single(1.0), &trail).is_none());

    // A real walk: the Sierpinski triangle stays in its triangle.
    let mut walker = Walker::new(BBOX_SEED);
    let trail: Vec<Point> = (0..20_032)
        .map(|_| {
            let (x, y) = walker.step(&maps, total_weight(&maps));
            point(x as f64, y as f64)
        })
        .collect();
    let b = attractor_bbox(&maps, total, &trail).unwrap().map(number);
    assert!(b[0] >= 0.0 && b[0] < 0.01 && b[1] >= 0.0 && b[1] < 0.01);
    assert!(b[2] <= 1.0 && b[2] > 0.99 && b[3] <= 0.8661 && b[3] > 0.85);
}

#[test]
fn systems_are_compared_by_number() {
    let a = [map(0.5, 0.0, 0.0, 0.5, 0.0, 0.0, 1.0)];
    let b = [map(0.5, -0.0, 0.0, 0.5, 0.0, 0.0, 1.0)];
    let c = [map(0.5, f32::NAN, 0.0, 0.5, 0.0, 0.0, 1.0)];
    assert!(maps_equal(&a, &b));
    assert!(!maps_equal(&c, &c));
    assert!(!maps_equal(&a, &[]));
    assert!(sierpinski_view().equals(sierpinski_view()));
    assert!(!sierpinski_view().equals(view(0.5, 0.43, 0.1)));
}
