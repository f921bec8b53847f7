use fractalx::float::Double;
use fractalx::palette::Palette;
use fractalx::raster::opaque_rgba;
use fractalx::terrain::{corner_turns, gradient, hash, slope_neighbors, Params};

fn double(v: f64) -> Double {
    Double { bits: v.to_bits() }
}

fn number(d: Double) -> f64 {
    f64::from_bits(d.bits)
}

fn direction(turns: u64) -> (f64, f64) {
    let angle = turns as f64 / (1u64 << 53) as f64 * std::f64::consts::TAU;
    (angle.cos(), angle.sin())
}

fn fade(t: f64) -> f64 {
    t * t * t * (t * (t * 6.0 - 15.0) + 10.0)
}

fn perlin(seed: u64, x: f64, y: f64) -> f64 {
    let (x0, y0) = (x.floor(), y.floor());
    let (fx, fy) = (x - x0, y - y0);
    let turns = corner_turns(seed, x0 as i64, y0 as i64);
    let dot = |corner: usize, cx: f64, cy: f64| {
        let (gx, gy) = direction(turns[corner]);
        (fx - cx) * gx + (fy - cy) * gy
    };
    let (u, v) = (fade(fx), fade(fy));
    let top = dot(0, 0.0, 0.0) + u * (dot(1, 1.0, 0.0) - dot(0, 0.0, 0.0));
    let bot = dot(2, 0.0, 1.0) + u * (dot(3, 1.0, 1.0) - dot(2, 0.0, 1.0));
    (top + v * (bot - top)) * std::f64::consts::SQRT_2
}

fn height(params: &Params, x: f64, y: f64) -> f64 {
    let gain = (-number(params.hurst)).exp2();
    let (mut sum, mut amp, mut norm, mut freq) = (0.0, 1.0, 0.0, 1.0);
    for seed in params.octave_seeds() {
        let n = perlin(seed, x * freq, y * freq);
        sum += amp * if params.clouds { n.abs() } else { n };
        norm += amp;
        amp *= gain;
        freq *= 2.0;
    }
    if params.clouds {
        (sum / norm).clamp(0.0, 1.0)
    } else {
        (0.5 + 0.5 * sum / norm).clamp(0.0, 1.0)
    }
}

/// A palette's color at its own frequency and phase.
fn color(palette: Palette, t: f32) -> [u8; 3] {
    let [a, b, c, d] = palette.coeffs().map(|row| row.map(|v| f32::from_bits(v.bits)));
    [0, 1, 2].map(|i| {
        let v = a[i] + b[i] * (6.2831853 * (c[i] * t + d[i])).cos();
        (v.clamp(0.0, 1.0) * 255.0) as u8
    })
}

fn render(params: &Params, edge: usize) -> Vec<u8> {
    let upp = 0.05;
    let ox = 0.3 - upp * edge as f64 * 0.5;
    let oy = -1.7 + upp * edge as f64 * 0.5;
    let heights: Vec<f64> = (0..edge * edge)
        .map(|i| {
            let (px, py) = (i % edge, i / edge);
            height(
                params,
                ox + (px as f64 + 0.5) * upp,
                oy - (py as f64 + 0.5) * upp,
            )
        })
        .collect();
    let colors: Vec<[u8; 3]> = (0..edge * edge)
        .map(|i| {
            let rgb = color(Palette::Classic, heights[i] as f32);
            if params.clouds {
                return rgb;
            }
            let (right, below) = slope_neighbors(i % edge, i / edge, edge, edge);
            let slope = (heights[i] - heights[right]) + (heights[i] - heights[below]);
            let shade = (1.0 + 60.0 * slope).clamp(0.5, 1.4);
            rgb.map(|c| (c as f64 * shade).min(255.0) as u8)
        })
        .collect();
    opaque_rgba(&colors)
}

#[test]
fn heights_stay_in_unit_range() {
    let params = Params::default();
    for i in 0..500 {
        let (x, y) = (i as f64 * 0.37 - 91.0, i as f64 * 0.61 + 40.0);
        let v = height(&params, x, y);
        assert!((0.0..=1.0).contains(&v), "height {v} at ({x}, {y})");
    }
}

#[test]
fn render_is_deterministic_and_seed_dependent() {
    let params = Params::default();
    let a = render(&params, 64);
    let b = render(&params, 64);
    assert_eq!(a, b);

    let other = Params { seed: 2, ..params };
    let c = render(&other, 64);
    assert_ne!(a, c, "different seeds must render differently");
}

#[test]
fn hurst_controls_roughness() {
    // Mean absolute neighbor difference (high-frequency energy) must
    // grow as H falls.
    let roughness = |hurst: f64| {
        let params = Params {
            hurst: double(hurst),
            ..Params::default()
        };
        let mut sum = 0.0;
        let mut n = 0u32;
        for i in 0..2000 {
            let (x, y) = (i as f64 * 0.013, i as f64 * 0.007 + 5.0);
            sum += (height(&params, x + 0.01, y) - height(&params, x, y)).abs();
            n += 1;
        }
        sum / n as f64
    };
    assert!(
        roughness(0.2) > roughness(1.0) * 1.2,
        "low H must be rougher"
    );
}

#[test]
fn clouds_differ_from_terrain() {
    let terrain = Params::default();
    let clouds = Params {
        clouds: true,
        ..terrain
    };
    assert_ne!(render(&terrain, 32), render(&clouds, 32));
}

/// The hash, written out.
fn mixed(seed: u64, ix: i64, iy: i64) -> u64 {
    let mut h = seed
        ^ (ix as u64).wrapping_mul(0x9E37_79B9_7F4A_7C15)
        ^ (iy as u64).wrapping_mul(0xC2B2_AE3D_27D4_EB4F);
    h ^= h >> 30;
    h = h.wrapping_mul(0xBF58_476D_1CE4_E5B9);
    h ^= h >> 27;
    h = h.wrapping_mul(0x94D0_49BB_1331_11EB);
    h ^ (h >> 31)
}

#[test]
fn the_hash_is_splitmix() {
    assert_eq!(hash(0, 0, 0), 0);
    for (seed, ix, iy) in [(1, 0, 0), (1, -1, 5), (u64::MAX, i64::MIN, i64::MAX), (42, 7, -9)] {
        assert_eq!(hash(seed, ix, iy), mixed(seed, ix, iy));
        assert_eq!(gradient(seed, ix, iy), mixed(seed, ix, iy) >> 11);
    }
    assert_ne!(hash(1, 3, 4), hash(2, 3, 4));
}

#[test]
fn corners_go_round_the_cell() {
    let turns = corner_turns(9, -3, 4);
    assert_eq!(
        turns,
        [
            gradient(9, -3, 4),
            gradient(9, -2, 4),
            gradient(9, -3, 5),
            gradient(9, -2, 5)
        ]
    );
    // After the last place comes the first.
    let turns = corner_turns(9, i64::MAX, 4);
    assert_eq!(turns[1], gradient(9, i64::MIN, 4));
    assert_eq!(turns[3], gradient(9, i64::MIN, 5));
}

#[test]
fn every_octave_has_its_seed() {
    let params = Params {
        seed: u64::MAX,
        octaves: 3,
        ..Params::default()
    };
    assert_eq!(params.octave_seeds(), vec![u64::MAX, 0, 1]);
    let none = Params {
        octaves: 0,
        ..Params::default()
    };
    assert_eq!(none.octave_seeds(), vec![1]);
}

#[test]
fn slopes_stop_at_the_edge() {
    assert_eq!(slope_neighbors(0, 0, 3, 2), (1, 3));
    assert_eq!(slope_neighbors(2, 0, 3, 2), (2, 5));
    assert_eq!(slope_neighbors(1, 1, 3, 2), (5, 4));
    assert_eq!(slope_neighbors(2, 1, 3, 2), (5, 5));
}

#[test]
fn default_terrain_parameters() {
    let p = Params::default();
    assert_eq!((p.seed, number(p.hurst), p.octaves, p.clouds), (1, 0.9, 8, false));
    assert!(p.equals(p));
    assert!(!p.equals(Params { clouds: true, ..p }));
    assert!(!p.equals(Params { hurst: double(0.8), ..p }));
}
