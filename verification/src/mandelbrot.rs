//! What the escape-time renderer is told, and what it gives back.
//!
//! The renderer itself runs on the GPU. Here are the parameters of its passes
//! and the layout of the pixels that are read back from it.

use vstd::prelude::*;

use crate::float::Single;
use crate::palette::Coloring;

verus! {

/// z² + c, the pixel is c.
pub const FORMULA_MANDELBROT: u32 = 0;

/// z^power + c, the pixel is c.
pub const FORMULA_MULTIBROT: u32 = 1;

/// z² + c, the pixel is the first z.
pub const FORMULA_JULIA: u32 = 2;

/// Rows of a texture that is copied to a buffer start at multiples of this.
pub const ROW_ALIGNMENT: u32 = 256;

/// Two components of a shader vector.
#[derive(Clone, Copy, Debug, PartialEq, Eq, Structural)]
pub struct Pair {
    pub x: Single,
    pub y: Single,
}

impl Pair {
    /// Numeric equality of both components.
    pub open spec fn eq_num(self, other: Pair) -> bool {
        self.x.eq_num(other.x) && self.y.eq_num(other.y)
    }

    /// `==` on the components.
    pub fn equals(self, other: Pair) -> (r: bool)
        ensures
            r == self.eq_num(other),
    {
        self.x.equals(other.x) && self.y.equals(other.y)
    }
}

/// Parameters of the iteration pass. Two renders with the same parameters,
/// bit for bit, have the same iteration counts.
#[derive(Clone, Copy, Debug, PartialEq, Eq, Structural)]
pub struct Uniforms {
    pub center: Pair,
    pub half_extent: Pair,
    /// From the reference point to the center (perturbation only).
    pub dc_offset: Pair,
    pub julia_c: Pair,
    pub max_iter: u32,
    /// Points of the reference orbit (perturbation only).
    pub ref_len: u32,
    pub use_perturb: u32,
    pub formula: u32,
    pub power: u32,
}

/// Parameters of the color pass: the palette's coefficient rows, and the
/// frequency and phase that modulate it.
#[derive(Clone, Copy, Debug)]
pub struct PaletteUniforms {
    pub a: [Single; 4],
    pub b: [Single; 4],
    pub c: [Single; 4],
    pub d: [Single; 4],
    pub freq: Single,
    pub phase: Single,
}

impl PaletteUniforms {
    /// The color pass of a coloring.
    pub fn new(coloring: Coloring) -> (r: PaletteUniforms)
        ensures
            r.a@ == coloring.palette.rows()[0],
            r.b@ == coloring.palette.rows()[1],
            r.c@ == coloring.palette.rows()[2],
            r.d@ == coloring.palette.rows()[3],
            r.freq == coloring.freq,
            r.phase == coloring.phase,
    {
        let rows = coloring.palette.coeffs();
        PaletteUniforms {
            a: rows[0],
            b: rows[1],
            c: rows[2],
            d: rows[3],
            freq: coloring.freq,
            phase: coloring.phase,
        }
    }
}

/// Parameters of one chunk of iterations: the image size, the iterations of
/// the chunk, and whether it is the first.
#[derive(Clone, Copy, Debug, PartialEq, Eq, Structural)]
pub struct ChunkParams {
    pub width: u32,
    pub height: u32,
    pub chunk_iters: u32,
    pub reset: bool,
}

/// The bytes of a row in a buffer that an image of some width is copied to:
/// four a pixel, padded to the row alignment.
pub open spec fn row_stride(width: int) -> int {
    (4 * width + 255) / 256 * 256
}

/// A padded row is the least multiple of the alignment that holds its pixels.
pub proof fn law_rows_are_padded_to_the_alignment(width: int)
    requires
        0 <= width,
    ensures
        row_stride(width) % (ROW_ALIGNMENT as int) == 0,
        4 * width <= row_stride(width) < 4 * width + ROW_ALIGNMENT,
        ROW_ALIGNMENT == 256,
{
}

/// Pairs are equal where both their components are.
pub proof fn law_pairs_are_equal_in_both_components(a: Pair, b: Pair)
    ensures
        a.eq_num(b) <==> a.x.eq_num(b.x) && a.y.eq_num(b.y),
{
}

/// The bytes of a padded row.
pub fn bytes_per_row(width: u32) -> (r: u32)
    requires
        4 * width + ROW_ALIGNMENT <= u32::MAX,
    ensures
        r == row_stride(width as int),
        r % ROW_ALIGNMENT == 0,
        4 * width <= r < 4 * width + ROW_ALIGNMENT,
{
    (4 * width + (ROW_ALIGNMENT - 1)) / ROW_ALIGNMENT * ROW_ALIGNMENT
}

/// The pixels of a padded buffer, tightly packed.
pub open spec fn packed(padded: Seq<u8>, width: int, height: int) -> Seq<u8> {
    Seq::new(
        (4 * width * height) as nat,
        |i: int| padded[i / (4 * width) * row_stride(width) + i % (4 * width)],
    )
}

/// Take the padding out of an image that was read back.
pub fn unpack_rows(padded: &[u8], width: u32, height: u32) -> (pixels: Vec<u8>)
    requires
        0 < width,
        4 * width + ROW_ALIGNMENT <= u32::MAX,
        padded@.len() == row_stride(width as int) * height,
    ensures
        pixels@ == packed(padded@, width as int, height as int),
{
    let stride: usize = bytes_per_row(width) as usize;
    let row_bytes: usize = 4 * width as usize;
    let mut pixels: Vec<u8> = Vec::new();
    let mut row: u32 = 0;
    let mut start: usize = 0;
    while row < height
        invariant
            row <= height,
            0 < row_bytes == 4 * width,
            stride == row_stride(width as int),
            row_bytes <= stride,
            padded.len() == stride * height,
            start == stride * row,
            pixels@.len() == row_bytes * row,
            forall|i: int|
                0 <= i < pixels@.len() ==> #[trigger] pixels@[i] == padded@[i / (row_bytes as int)
                    * stride + i % (row_bytes as int)],
        decreases height - row,
    {
        proof {
            assert(stride * row + stride <= stride * height) by (nonlinear_arith)
                requires
                    row < height,
                    0 <= stride,
            ;
            assert(stride * (row + 1) == stride * row + stride) by (nonlinear_arith);
            assert(row_bytes * (row + 1) == row_bytes * row + row_bytes) by (nonlinear_arith);
        }
        let mut k: usize = 0;
        while k < row_bytes
            invariant
                k <= row_bytes,
                0 < row_bytes,
                row_bytes <= stride,
                start == stride * row,
                start + stride <= padded.len(),
                pixels@.len() == row_bytes * row + k,
                forall|i: int|
                    0 <= i < pixels@.len() ==> #[trigger] pixels@[i] == padded@[i / (
                    row_bytes as int) * stride + i % (row_bytes as int)],
            decreases row_bytes - k,
        {
            let ghost here: int = row_bytes * row + k;
            proof {
                assert(row_bytes * row == row * row_bytes) by (nonlinear_arith);
                vstd::arithmetic::div_mod::lemma_fundamental_div_mod_converse(
                    here,
                    row_bytes as int,
                    row as int,
                    k as int,
                );
                assert(stride * row == row * stride) by (nonlinear_arith);
            }
            pixels.push(padded[start + k]);
            k += 1;
        }
        start += stride;
        row += 1;
    }
    proof {
        assert(row_bytes * height == 4 * width * height);
        assert(pixels@ =~= packed(padded@, width as int, height as int));
    }
    pixels
}

/// Every pixel byte comes from its own row and column of the padded image.
pub proof fn law_packing_keeps_positions(
    padded: Seq<u8>,
    width: int,
    height: int,
    row: int,
    byte: int,
)
    requires
        0 < width,
        0 <= row < height,
        0 <= byte < 4 * width,
    ensures
        0 <= 4 * width * row + byte < packed(padded, width, height).len(),
        packed(padded, width, height)[4 * width * row + byte] == padded[row * row_stride(width)
            + byte],
{
    let w = 4 * width;
    assert(w * row + w <= w * height) by (nonlinear_arith)
        requires
            row < height,
            0 < w,
    ;
    assert(0 <= w * row) by (nonlinear_arith)
        requires
            0 <= row,
            0 < w,
    ;
    assert(w * row == row * w) by (nonlinear_arith);
    vstd::arithmetic::div_mod::lemma_fundamental_div_mod_converse(w * row + byte, w, row, byte);
}

} // verus!
