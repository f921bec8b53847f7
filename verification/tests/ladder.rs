use fractalx::float::{Double, Single};
use fractalx::ladder::{
    advance, choose_action, clamp_edge, full_size, pans_in_place, rung_size, Action, Key, Ladder,
    Size, Work, CHUNK_ITERS, LADDER_START_LEVEL,
};
use fractalx::mandelbrot::{
    bytes_per_row, unpack_rows, ChunkParams, Pair, Uniforms, FORMULA_MANDELBROT,
};
use fractalx::palette::{Coloring, Palette};

fn single(v: f32) -> Single {
    Single { bits: v.to_bits() }
}

fn double(v: f64) -> Double {
    Double { bits: v.to_bits() }
}

fn pair(x: f32, y: f32) -> Pair {
    Pair {
        x: single(x),
        y: single(y),
    }
}

fn key(max_iter: u32, x: f32) -> Key {
    Key {
        uniforms: Uniforms {
            center: pair(x, 0.0),
            half_extent: pair(1.0, 1.0),
            dc_offset: pair(0.0, 0.0),
            julia_c: pair(0.0, 0.0),
            max_iter,
            ref_len: 0,
            use_perturb: 0,
            formula: FORMULA_MANDELBROT,
            power: 2,
        },
        full: full_size(800, 602),
    }
}

fn coloring(palette: Palette) -> Coloring {
    Coloring {
        palette,
        freq: single(1.0),
        phase: single(0.0),
    }
}

#[test]
fn a_short_render_climbs_one_rung_a_frame() {
    let (key, colors) = (key(300, 0.0), coloring(Palette::Classic));
    let mut ladder: Option<Ladder> = None;
    let mut levels = Vec::new();
    for _ in 0..3 {
        let (next, work, _) = advance(ladder, key, colors, true);
        assert_eq!(work, Work::Whole);
        levels.push((next.level, next.texture_size));
        ladder = Some(next);
    }
    let size = |width, height| Size { width, height };
    assert_eq!(levels, vec![(2, size(200, 150)), (1, size(400, 301)), (0, size(800, 602))]);
    let done = ladder.unwrap();
    assert!(!done.unfinished());
    let (same, work, fresh) = advance(ladder, key, colors, true);
    assert_eq!(work, Work::Nothing);
    assert!(!fresh);
    assert_eq!(same.level, 0);
}

#[test]
fn long_renders_go_in_chunks() {
    // 5000 iterations: three chunks on each of three rungs.
    let (key, colors) = (key(5000, 0.0), coloring(Palette::Classic));
    let mut ladder: Option<Ladder> = None;
    for frame in 0..9 {
        let (next, work, _) = advance(ladder, key, colors, true);
        let expected = ChunkParams {
            width: next.texture_size.width,
            height: next.texture_size.height,
            chunk_iters: CHUNK_ITERS,
            reset: frame % 3 == 0,
        };
        assert_eq!(work, Work::Chunk(expected), "frame {frame}");
        assert_eq!(next.level, 2 - frame / 3);
        assert_eq!(next.chunks_left, 2 - frame % 3);
        assert_eq!(next.unfinished(), frame < 8);
        ladder = Some(next);
    }
    assert_eq!(choose_action(ladder, key, colors), Action::Nothing);
}

#[test]
fn chunks_start_above_their_size() {
    let colors = coloring(Palette::Classic);
    let (at, work, _) = advance(None, key(2048, 0.0), colors, true);
    assert_eq!((at.chunks_left, work), (0, Work::Whole));
    let (above, _, _) = advance(None, key(2049, 0.0), colors, true);
    assert_eq!(above.chunks_left, 1);
    let (most, _, _) = advance(None, key(u32::MAX, 0.0), colors, true);
    assert_eq!(most.chunks_left, 2_097_151);
}

#[test]
fn a_new_view_starts_on_the_coarsest_rung() {
    let colors = coloring(Palette::Classic);
    let (first, _, fresh) = advance(None, key(300, 0.0), colors, true);
    assert!(fresh);
    assert_eq!(first.level, LADDER_START_LEVEL);
    let (second, _, _) = advance(Some(first), key(300, 0.0), colors, true);
    assert_eq!(second.level, 1);
    // Another center: over again, with new textures.
    let (moved, _, fresh) = advance(Some(second), key(300, 0.5), colors, true);
    assert_eq!(moved.level, LADDER_START_LEVEL);
    assert!(fresh);
    // And once more on a texture of the same size.
    let (moved, _, fresh) = advance(Some(moved), key(300, 0.6), colors, true);
    assert_eq!(moved.level, LADDER_START_LEVEL);
    assert!(!fresh);
}

#[test]
fn palette_changes_only_color() {
    let key = key(300, 0.0);
    let mut ladder: Option<Ladder> = None;
    for _ in 0..3 {
        ladder = Some(advance(ladder, key, coloring(Palette::Classic), true).0);
    }
    let (recolored, work, fresh) = advance(ladder, key, coloring(Palette::Fire), true);
    assert_eq!(work, Work::Color);
    assert!(!fresh);
    assert_eq!(recolored.level, 0);
    assert_eq!(
        choose_action(Some(recolored), key, coloring(Palette::Fire)),
        Action::Nothing
    );
}

#[test]
fn without_a_renderer_chunks_stay() {
    let (key, colors) = (key(5000, 0.0), coloring(Palette::Classic));
    let (ladder, work, _) = advance(None, key, colors, false);
    assert_eq!(work, Work::Nothing);
    assert_eq!(ladder.chunks_left, 3);
}

#[test]
fn sizes_are_bounded() {
    assert_eq!(full_size(3, 20_000), Size { width: 16, height: 8192 });
    assert_eq!(clamp_edge(5, 7, 9), 7);
    assert_eq!(clamp_edge(8, 7, 9), 8);
    assert_eq!(
        rung_size(Size { width: 3, height: 17 }, 2),
        Size { width: 1, height: 4 }
    );
    assert_eq!(
        rung_size(Size { width: 3, height: 17 }, 0),
        Size { width: 3, height: 17 }
    );
}

#[test]
fn panning_moves_the_image_at_an_unchanged_zoom() {
    assert!(pans_in_place(true, Some(double(0.1)), double(0.1)));
    assert!(!pans_in_place(false, Some(double(0.1)), double(0.1)));
    assert!(!pans_in_place(true, Some(double(0.1)), double(0.2)));
    assert!(!pans_in_place(true, None, double(0.2)));
}

#[test]
fn rows_are_padded_and_packed_again() {
    assert_eq!(bytes_per_row(1), 256);
    assert_eq!(bytes_per_row(64), 256);
    assert_eq!(bytes_per_row(65), 512);
    let mut padded = vec![0u8; 512];
    for row in 0..2usize {
        for byte in 0..12usize {
            padded[row * 256 + byte] = (row * 100 + byte) as u8;
        }
    }
    let pixels = unpack_rows(&padded, 3, 2);
    let expected: Vec<u8> = (0..12).chain(100..112).collect();
    assert_eq!(pixels, expected);
}
