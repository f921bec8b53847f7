use fractalx::density::{bounding_box, lane_share, tone_scale, Lanes, Sample, LANES};
use fractalx::float::{Double, Point};
use fractalx::lsystem::{expand, turtle_segments, Rule, MAX_SYMBOLS};
use fractalx::mandelbrot::{bytes_per_row, unpack_rows};
use fractalx::palette::Palette;
use fractalx::progress::Development;
use fractalx::raster::Canvas;
use fractalx::session::{FractalRule, ViewState};

fn double(v: f64) -> Double {
    Double { bits: v.to_bits() }
}

fn number(d: Double) -> f64 {
    f64::from_bits(d.bits)
}

fn plant() -> Vec<Rule> {
    vec![
        Rule { symbol: 'X', replacement: "F+[[X]-X]-F[-FX]+X".to_owned() },
        Rule { symbol: 'F', replacement: "FF".to_owned() },
    ]
}

fn grown(start: &str, generations: u32) -> String {
    let (symbols, done) = expand(start, &plant(), generations, MAX_SYMBOLS);
    assert_eq!(done, generations);
    symbols
}

#[test]
fn texts_are_rewritten_piece_by_piece() {
    let joined = grown("X-FX", 2);
    assert_eq!(joined, grown("X-", 2) + &grown("FX", 2));
}

#[test]
fn generations_can_be_grown_in_turns() {
    assert_eq!(grown(&grown("X", 2), 1), grown("X", 3));
    assert_eq!(grown(&grown("X", 0), 3), grown("X", 3));
}

#[test]
fn expansion_stops_exactly_at_the_cap() {
    for cap in 0..400usize {
        let (symbols, done) = expand("X", &plant(), 3, cap);
        assert_eq!(symbols, grown("X", done));
        assert!(done == 0 || symbols.len() <= cap);
        let (next, one) = expand(&symbols, &plant(), 1, usize::MAX);
        assert_eq!(one, 1);
        assert_eq!(done < 3, (1..=3).any(|k| grown("X", k).len() > cap));
        assert!(done == 3 || next.len() > cap);
    }
}

#[test]
fn a_plot_in_view_is_the_plot_at_once() {
    let coloring = ViewState::default().coloring();
    let mut other = coloring;
    other.palette = Palette::Grayscale;
    let feed: Vec<Sample> = (0..200_000).map(|i| sample((i % 3) as f64, (i % 2) as f64)).collect();
    let feeds = vec![feed; LANES];
    let target = 2_500_000u64;
    let mut once = vec![0u32; 6];
    Lanes::new(2).advance(&feeds, 3, 2, &mut once, target);
    let (mut lanes, mut hist, mut left) = (Lanes::new(2), vec![0u32; 6], feeds);
    let mut development = Development::new(coloring);
    let mut frames: Vec<u64> = Vec::new();
    while development.unfinished(target) {
        // Recoloring has no say in what is plotted.
        let shown = if frames.len() % 2 == 0 { coloring } else { other };
        let batch = development.develop(shown, target);
        let used = lanes.advance(&left, 3, 2, &mut hist, batch.points);
        left = rest(&left, &used);
        frames.push(development.done);
    }
    assert_eq!(frames, [1_000_000, 2_000_000, 2_500_000]);
    assert_eq!(hist, once);
}

#[test]
fn symbols_without_a_rule_never_change() {
    assert_eq!(grown("+-[]y", 5), "+-[]y");
}

#[test]
fn each_drawing_symbol_draws_one_line() {
    let symbols = grown("X", 3);
    let drawing = symbols.chars().filter(|c| c.is_ascii_uppercase() && *c != 'X').count();
    let path = turtle_segments(&symbols);
    assert_eq!(path.steps.iter().filter(|s| s.draw).count(), drawing);
}

#[test]
fn a_walk_goes_on_where_it_was() {
    let whole = turtle_segments("F+F[-F]fG");
    let start = turtle_segments("F+F[-F");
    assert_eq!(whole.bends[..start.bends.len()], start.bends[..]);
    assert_eq!(whole.steps[..start.steps.len()], start.steps[..]);
}

#[test]
fn unknown_symbols_move_nothing() {
    let plain = turtle_segments("F+F");
    let noisy = turtle_segments("xF*+y F!");
    assert_eq!(noisy.bends, plain.bends);
    assert_eq!(noisy.steps, plain.steps);
}

fn sample(x: f64, y: f64) -> Sample {
    let p = Point { x: double(x), y: double(y) };
    Sample { at: p, pixel: p }
}

/// A feed for each lane, long enough for many batches.
fn feeds() -> Vec<Vec<Sample>> {
    (0..LANES)
        .map(|lane| {
            (0..50)
                .map(|step| sample(((lane * 7 + step * 3) % 5) as f64, (step % 4) as f64))
                .collect()
        })
        .collect()
}

fn rest(feeds: &[Vec<Sample>], used: &[usize]) -> Vec<Vec<Sample>> {
    feeds.iter().zip(used).map(|(feed, n)| feed[*n..].to_vec()).collect()
}

#[test]
fn batches_plot_what_one_run_plots() {
    let mut whole = Lanes::new(3);
    let mut once = vec![0u32; 16];
    whole.advance(&feeds(), 4, 4, &mut once, 100);
    let mut parts = Lanes::new(3);
    let mut hist = vec![0u32; 16];
    let mut left = feeds();
    for points in [1u64, 40, 0, 33, 26] {
        let used = parts.advance(&left, 4, 4, &mut hist, points);
        left = rest(&left, &used);
    }
    assert_eq!(hist, once);
    // What lies within the frame is counted once, and nothing else is.
    let mut expected = vec![0u32; 16];
    for (lane, feed) in feeds().iter().enumerate() {
        for s in &feed[3..3 + lane_share(100, lane) as usize] {
            let (x, y) = (number(s.pixel.x), number(s.pixel.y));
            if x < 4.0 {
                expected[y as usize * 4 + x as usize] += 1;
            }
        }
    }
    assert_eq!(hist, expected);
    assert!(hist.iter().sum::<u32>() <= 100);
    let before = hist.clone();
    parts.advance(&left, 4, 4, &mut hist, 0);
    assert_eq!(hist, before);
    assert_eq!(tone_scale(&hist), *expected.iter().max().unwrap());
}

#[test]
fn shares_never_shrink() {
    for lane in 0..LANES {
        for total in 0u64..200 {
            assert!(lane_share(total, lane) <= lane_share(total + 1, lane));
        }
        // A point goes to the lane whose turn it is.
        assert_eq!(lane_share(lane as u64 + 1, lane), 1);
        assert_eq!(lane_share(lane as u64, lane), 0);
    }
}

#[test]
fn a_bounding_box_covers_its_points() {
    let points: Vec<Point> = [(1.5, -2.0), (-3.0, 0.25), (0.0, 7.0)]
        .iter()
        .map(|(x, y)| Point { x: double(*x), y: double(*y) })
        .collect();
    let b = bounding_box(&points).unwrap();
    assert_eq!(b.map(number), [-3.0, -2.0, 1.5, 7.0]);
    assert!(bounding_box(&Vec::new()).is_none());
}

#[test]
fn pixels_do_not_share_bytes() {
    let mut canvas = Canvas::new(3, 2);
    for y in 0..2usize {
        for x in 0..3usize {
            let shade = (10 * y + x) as u8;
            canvas.plot(x, y, [shade, shade + 100, shade + 200]);
        }
    }
    for y in 0..2usize {
        for x in 0..3usize {
            let at = (y * 3 + x) * 4;
            let shade = (10 * y + x) as u8;
            assert_eq!(canvas.rgba[at..at + 4], [shade, shade + 100, shade + 200, 255]);
        }
    }
    assert_eq!(canvas.rgba.len(), 24);
}

#[test]
fn packed_rows_keep_their_pixels() {
    let (width, height) = (3u32, 2u32);
    let padded_row = bytes_per_row(width) as usize;
    let padded: Vec<u8> = (0..padded_row * 2).map(|i| (i % 251) as u8).collect();
    let pixels = unpack_rows(&padded, width, height);
    assert_eq!(pixels.len(), 24);
    for y in 0..2usize {
        assert_eq!(pixels[y * 12..y * 12 + 12], padded[y * padded_row..y * padded_row + 12]);
    }
}

#[test]
fn equal_rules_are_of_one_family() {
    let rules = [
        FractalRule::Mandelbrot,
        FractalRule::Multibrot { power: 2 },
        FractalRule::Multibrot { power: 3 },
        FractalRule::Julia { c: Point { x: double(0.0), y: double(1.0) } },
        FractalRule::Julia { c: Point { x: double(-0.0), y: double(1.0) } },
    ];
    for a in &rules {
        for b in &rules {
            assert!(!a.equals(b) || a.family() == b.family());
        }
    }
    assert!(rules[3].equals(&rules[4]));
    assert!(!rules[1].equals(&rules[2]));
}
