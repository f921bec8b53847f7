use fractalx::float::{Double, Point};
use fractalx::lsystem::{
    bounds, clip, expand, presets, rasterize_rgba, segments, turtle_segments, Bend, Edge, Path,
    Rule, Segment, Step, Window, MAX_SYMBOLS,
};
use fractalx::palette::Palette;
use fractalx::raster::{opaque_rgba, Canvas, Stroke};

fn double(v: f64) -> Double {
    Double { bits: v.to_bits() }
}

fn number(d: Double) -> f64 {
    f64::from_bits(d.bits)
}

fn rule(symbol: char, replacement: &str) -> Rule {
    Rule {
        symbol,
        replacement: replacement.into(),
    }
}

/// The lines of a walk, with the turtle's angle.
fn lines(path: &Path, angle_deg: f64) -> Vec<Segment> {
    let ang = angle_deg.to_radians();
    let mut headings = vec![std::f64::consts::FRAC_PI_2];
    for bend in &path.bends {
        let from = headings[bend.from];
        headings.push(if bend.left { from + ang } else { from - ang });
    }
    let mut positions = vec![[0.0f64, 0.0f64]];
    let mut out = Vec::new();
    for step in &path.steps {
        let [x, y] = positions[step.from];
        let heading = headings[step.heading];
        let next = [x + heading.cos(), y + heading.sin()];
        if step.draw {
            out.push(Segment {
                x0: double(x),
                y0: double(y),
                x1: double(next[0]),
                y1: double(next[1]),
            });
        }
        positions.push(next);
    }
    out
}

#[test]
fn expansion_rewrites_and_passes_through() {
    let rules = [rule('F', "F+F--F+F")];
    assert_eq!(
        expand("F--F", &rules, 1, MAX_SYMBOLS),
        ("F+F--F+F--F+F--F+F".into(), 1)
    );
    // Symbols without a rule survive unchanged.
    assert_eq!(expand("X-Y", &[], 3, MAX_SYMBOLS), ("X-Y".into(), 3));
}

#[test]
fn expansion_respects_symbol_cap() {
    // Doubles every generation; a tight cap must return a complete
    // earlier generation, not a truncated string, and report how many
    // generations actually ran.
    let rules = [rule('F', "FF")];
    let (s, done) = expand("F", &rules, 30, 1000);
    assert!(s.len() <= 1000);
    assert!(s.len().is_power_of_two());
    assert!(s.chars().all(|c| c == 'F'));
    // 2^done symbols: the cap of 1000 stops after generation 9 (512).
    assert_eq!(done, 9);
    assert_eq!(s.len(), 1 << done);
}

#[test]
fn capped_expansion_of_fast_growing_system_completes_quickly() {
    // The cap check must be O(1) per symbol: a rescan of the output string
    // per appended symbol would make expansion quadratic.
    for p in presets() {
        let (s, done) = expand(p.start, &p.rules_vec(), 16, MAX_SYMBOLS);
        assert!(s.len() <= MAX_SYMBOLS);
        assert!(done <= 16);
    }
}

#[test]
fn the_cap_counts_bytes_and_the_first_rule_wins() {
    let rules = [rule('é', "éé"), rule('é', "x")];
    assert_eq!(expand("é", &rules, 1, 4), ("éé".into(), 1));
    assert_eq!(expand("é", &rules, 1, 3), ("é".into(), 0));
    // The start itself is never cut.
    assert_eq!(expand("ééé", &rules, 0, 1), ("ééé".into(), 0));
    assert_eq!(expand("", &rules, 5, 0), ("".into(), 5));
}

#[test]
fn square_walk_returns_to_start() {
    let segs = lines(&turtle_segments("F+F+F+F"), 90.0);
    assert_eq!(segs.len(), 4);
    let last = segs.last().unwrap();
    assert!((number(last.x1) - number(segs[0].x0)).abs() < 1e-9);
    assert!((number(last.y1) - number(segs[0].y0)).abs() < 1e-9);
}

#[test]
fn brackets_branch_and_restore() {
    // F [ +F ] F: third segment continues from the first, not the branch.
    let segs = lines(&turtle_segments("F[+F]F"), 90.0);
    assert_eq!(segs.len(), 3);
    assert_eq!((segs[2].x0, segs[2].y0), (segs[0].x1, segs[0].y1));
    // Lowercase moves without drawing.
    assert_eq!(lines(&turtle_segments("fFf"), 90.0).len(), 1);
}

#[test]
fn walks_refer_to_earlier_positions_and_headings() {
    let path = turtle_segments("F[+G-f]X]g");
    assert_eq!(
        path.bends,
        vec![
            Bend { from: 0, left: true },
            Bend { from: 1, left: false },
        ]
    );
    assert_eq!(
        path.steps,
        vec![
            Step { from: 0, heading: 0, draw: true },
            Step { from: 1, heading: 1, draw: true },
            Step { from: 2, heading: 2, draw: false },
            // The branch is closed, the second bracket closes nothing.
            Step { from: 1, heading: 0, draw: false },
        ]
    );
}

/// The part of a line inside a rectangle at the origin.
fn clip_line(line: [f64; 4], max_x: f64, max_y: f64) -> Option<[f64; 4]> {
    let [x0, y0, x1, y1] = line;
    let (dx, dy) = (x1 - x0, y1 - y0);
    let edges = [(-dx, x0), (dx, max_x - x0), (-dy, y0), (dy, max_y - y0)].map(|(p, q)| Edge {
        run: double(p),
        gap: double(q),
        ratio: double(q / p),
    });
    let (t0, t1) = clip(&edges)?;
    let (t0, t1) = (number(t0), number(t1));
    Some([x0 + t0 * dx, y0 + t0 * dy, x0 + t1 * dx, y0 + t1 * dy])
}

fn rasterize(segs: &[Segment], view: Window, w: usize, h: usize, palette: Palette) -> Vec<u8> {
    let rows = palette.coeffs();
    let value = |row: usize, i: usize| f32::from_bits(rows[row][i].bits);
    let mut strokes = Vec::new();
    let inv_n = 1.0 / segs.len().max(1) as f32;
    let upp = number(view.units_per_pixel);
    let to_px = |x: f64, y: f64| {
        (
            (x - number(view.center.x)) / upp + w as f64 * 0.5,
            (number(view.center.y) - y) / upp + h as f64 * 0.5,
        )
    };
    for (i, s) in segs.iter().enumerate() {
        let t = i as f32 * inv_n;
        let mut rgb = [0u8; 3];
        for (channel, c) in rgb.iter_mut().enumerate() {
            let angle = 6.2831853 * (value(2, channel) * t + value(3, channel));
            let v = value(0, channel) + value(1, channel) * angle.cos();
            *c = (v.clamp(0.0, 1.0) * 255.0) as u8;
        }
        let (x0, y0) = to_px(number(s.x0), number(s.y0));
        let (x1, y1) = to_px(number(s.x1), number(s.y1));
        let corner = (w as f64 - 1.0, h as f64 - 1.0);
        let Some([x0, y0, x1, y1]) = clip_line([x0, y0, x1, y1], corner.0, corner.1) else {
            continue;
        };
        let steps = (x1 - x0).abs().max((y1 - y0).abs()).ceil() as usize + 1;
        let dots = (0..steps)
            .map(|k| {
                let t = k as f64 / steps.max(1) as f64;
                Point {
                    x: double((x0 + t * (x1 - x0)).round()),
                    y: double((y0 + t * (y1 - y0)).round()),
                }
            })
            .collect();
        strokes.push(Stroke { dots, color: rgb });
    }
    rasterize_rgba(&strokes, w, h)
}

#[test]
fn rasterize_draws_colored_pixels_on_black() {
    let (path, _) = segments("F+F+F+F", &[], 0);
    let segs = lines(&path, 90.0);
    let b = bounds(&segs).unwrap().map(number);
    let view = Window {
        center: Point {
            x: double((b[0] + b[2]) * 0.5),
            y: double((b[1] + b[3]) * 0.5),
        },
        units_per_pixel: double(2.0 / 64.0),
    };
    let rgba = rasterize(&segs, view, 64, 64, Palette::Classic);
    assert_eq!(rgba.len(), 64 * 64 * 4);
    let lit = rgba
        .chunks_exact(4)
        .filter(|px| px[0] != 0 || px[1] != 0 || px[2] != 0)
        .count();
    // A ~32px square outline: significant but sparse coverage.
    assert!(lit > 60 && lit < 1000, "lit = {lit}");
    assert!(rgba.chunks_exact(4).all(|px| px[3] == 255));
    // Deterministic.
    assert_eq!(rgba, rasterize(&segs, view, 64, 64, Palette::Classic));
}

#[test]
fn segments_outside_view_are_clipped_away() {
    let segs = [Segment {
        x0: double(100.0),
        y0: double(100.0),
        x1: double(200.0),
        y1: double(100.0),
    }];
    let view = Window {
        center: Point {
            x: double(0.0),
            y: double(0.0),
        },
        units_per_pixel: double(0.1),
    };
    let rgba = rasterize(&segs, view, 32, 32, Palette::Classic);
    assert!(rgba
        .chunks_exact(4)
        .all(|px| px[0] == 0 && px[1] == 0 && px[2] == 0));
}

#[test]
fn presets_produce_nonempty_bounded_geometry() {
    for p in presets() {
        let (path, done) = segments(p.start, &p.rules_vec(), p.generations);
        let segs = lines(&path, number(p.angle_deg));
        assert_eq!(done, p.generations, "{} preset hits the cap", p.name);
        assert!(!segs.is_empty(), "{} drew nothing", p.name);
        let b = bounds(&segs).unwrap();
        assert!(b.iter().all(|v| number(*v).is_finite()), "{} unbounded", p.name);
    }
}

#[test]
fn lsystem_presets_are_the_nine_classics() {
    let all = presets();
    let expected = [
        ("Koch snowflake", 60.0, 4),
        ("Dragon curve", 90.0, 12),
        ("Sierpinski arrowhead", 60.0, 7),
        ("Plant", 25.0, 6),
        ("Hilbert curve", 90.0, 6),
        ("Gosper curve", 60.0, 4),
        ("Lévy C curve", 45.0, 12),
        ("Koch island", 90.0, 3),
        ("Bush", 22.5, 4),
    ];
    assert_eq!(all.len(), expected.len());
    for (p, (name, angle, generations)) in all.iter().zip(expected) {
        assert_eq!(p.name, name);
        assert_eq!(number(p.angle_deg), angle);
        assert_eq!(p.generations, generations);
    }
    assert_eq!(
        all[3].rules_vec(),
        vec![rule('X', "F+[[X]-X]-F[-FX]+X"), rule('F', "FF")]
    );
}

#[test]
fn bounds_of_nothing_and_of_numbers() {
    assert!(bounds(&[]).is_none());
    let seg = |x0: f64, y0: f64, x1: f64, y1: f64| Segment {
        x0: double(x0),
        y0: double(y0),
        x1: double(x1),
        y1: double(y1),
    };
    let b = bounds(&[seg(1.0, 2.0, -3.0, 0.5), seg(f64::NAN, 7.0, 4.0, -1.0)]).unwrap();
    assert_eq!(b.map(number), [-3.0, -1.0, 4.0, 7.0]);
}

#[test]
fn a_canvas_takes_the_last_color_and_ignores_the_outside() {
    let mut canvas = Canvas::new(3, 2);
    canvas.plot(2, 1, [1, 2, 3]);
    canvas.plot(2, 1, [4, 5, 6]);
    canvas.plot(3, 0, [9, 9, 9]);
    canvas.plot(0, 2, [9, 9, 9]);
    let mut expected = opaque_rgba(&[[0, 0, 0]; 6]);
    expected[20..24].copy_from_slice(&[4, 5, 6, 255]);
    assert_eq!(canvas.rgba, expected);
    assert_eq!(opaque_rgba(&[[7, 8, 9]]), vec![7, 8, 9, 255]);
}

#[test]
fn lines_are_clipped_to_the_frame() {
    // All inside, across a corner, and through the middle.
    assert_eq!(clip_line([1.0, 1.0, 2.0, 3.0], 10.0, 10.0), Some([1.0, 1.0, 2.0, 3.0]));
    assert_eq!(clip_line([-5.0, 5.0, 5.0, 5.0], 10.0, 10.0), Some([0.0, 5.0, 5.0, 5.0]));
    assert_eq!(clip_line([5.0, -10.0, 5.0, 30.0], 10.0, 10.0), Some([5.0, 0.0, 5.0, 10.0]));
    // Beside the frame, along an edge and past a corner.
    assert_eq!(clip_line([-1.0, 0.0, -1.0, 9.0], 10.0, 10.0), None);
    assert_eq!(clip_line([11.0, 0.0, 20.0, 9.0], 10.0, 10.0), None);
    assert_eq!(clip_line([-6.0, 5.0, 5.0, -6.0], 10.0, 10.0), None);
    // A point.
    assert_eq!(clip_line([3.0, 3.0, 3.0, 3.0], 10.0, 10.0), Some([3.0, 3.0, 3.0, 3.0]));
    // Numbers that are none decide nothing.
    let nan = double(f64::NAN);
    let edge = Edge { run: nan, gap: nan, ratio: nan };
    assert_eq!(clip(&[edge; 4]), Some((double(0.0), double(1.0))));
}

#[test]
fn later_strokes_cover_earlier_ones() {
    let dot = |x: f64, y: f64| Point { x: double(x), y: double(y) };
    let strokes = [
        Stroke { dots: vec![dot(0.0, 0.0), dot(1.0, 0.0), dot(9.0, 0.0)], color: [1, 1, 1] },
        Stroke { dots: vec![dot(1.9, 0.0), dot(-7.0, f64::NAN), dot(0.0, 5.0)], color: [2, 2, 2] },
    ];
    let rgba = rasterize_rgba(&strokes, 2, 2);
    assert_eq!(rgba, opaque_rgba(&[[2, 2, 2], [2, 2, 2], [0, 0, 0], [0, 0, 0]]));
    // In two turns.
    let mut canvas = Canvas::new(2, 2);
    canvas.paint(&strokes[..1]);
    assert_eq!(canvas.rgba, opaque_rgba(&[[1, 1, 1], [1, 1, 1], [0, 0, 0], [0, 0, 0]]));
    canvas.paint(&strokes[1..]);
    assert_eq!(canvas.rgba, rgba);
    assert!(rasterize_rgba(&strokes, 0, 5).is_empty());
}
