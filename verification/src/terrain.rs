//! Fractal terrain and clouds: statistical self-similarity via fractional
//! Brownian motion, octaves of seeded gradient noise over an infinite plane.
//!
//! Everything derives from a hash of (seed, lattice point), so rendering is
//! deterministic for a bookmark and any part of the plane can be evaluated
//! at any zoom without stored state.

use vstd::prelude::*;

use crate::float::Double;

verus! {

/// Terrain parameters (part of the bookmark).
#[derive(Clone, Copy, Debug, PartialEq, Eq, Structural)]
pub struct Params {
    pub seed: u64,
    /// Hurst exponent in (0, 1]: octave gain is `2^-hurst`.
    pub hurst: Double,
    pub octaves: u32,
    /// Clouds (turbulence, unshaded) instead of shaded terrain.
    pub clouds: bool,
}

/// The bits of the default Hurst exponent, 0.9.
pub const DEFAULT_HURST: u64 = 0x3FEC_CCCC_CCCC_CCCD;

impl Default for Params {
    fn default() -> (params: Params)
        ensures
            params == (Params {
                seed: 1,
                hurst: Double { bits: DEFAULT_HURST },
                octaves: 8,
                clouds: false,
            }),
    {
        Params { seed: 1, hurst: Double { bits: DEFAULT_HURST }, octaves: 8, clouds: false }
    }
}

impl Params {
    /// Numeric equality.
    pub open spec fn eq_num(self, other: Params) -> bool {
        &&& self.seed == other.seed
        &&& self.hurst.eq_num(other.hurst)
        &&& self.octaves == other.octaves
        &&& self.clouds == other.clouds
    }

    /// `==` on parameters.
    pub fn equals(self, other: Params) -> (r: bool)
        ensures
            r == self.eq_num(other),
    {
        self.seed == other.seed && self.hurst.equals(other.hurst) && self.octaves == other.octaves
            && self.clouds == other.clouds
    }

    /// The lattice seed of each octave, the first octave first. Distinct per
    /// octave so octaves don't align; there is always at least one.
    pub fn octave_seeds(&self) -> (seeds: Vec<u64>)
        ensures
            seeds@.len() == if self.octaves == 0 {
                1
            } else {
                self.octaves as nat
            },
            forall|i: int|
                0 <= i < seeds@.len() ==> #[trigger] seeds@[i] == (self.seed + i)
                    % 0x1_0000_0000_0000_0000,
    {
        let octaves: u32 = if self.octaves == 0 {
            1
        } else {
            self.octaves
        };
        let mut seeds: Vec<u64> = Vec::new();
        let mut octave: u32 = 0;
        while octave < octaves
            invariant
                octave <= octaves,
                seeds@.len() == octave,
                forall|i: int|
                    0 <= i < octave ==> #[trigger] seeds@[i] == (self.seed + i)
                        % 0x1_0000_0000_0000_0000,
            decreases octaves - octave,
        {
            seeds.push(self.seed.wrapping_add(octave as u64));
            octave += 1;
        }
        seeds
    }
}

/// Octaves never share a seed.
pub proof fn law_octave_seeds_differ(seed: u64, i: int, j: int)
    requires
        0 <= i < j <= u32::MAX,
    ensures
        (seed + i) % 0x1_0000_0000_0000_0000 != (seed + j) % 0x1_0000_0000_0000_0000,
{
}

/// Odd multipliers that spread the bits of a lattice point.
pub const MIX_X: u64 = 0x9E37_79B9_7F4A_7C15;

/// See `MIX_X`.
pub const MIX_Y: u64 = 0xC2B2_AE3D_27D4_EB4F;

/// Odd multipliers that mix the bits of the hash.
pub const MIX_1: u64 = 0xBF58_476D_1CE4_E5B9;

/// See `MIX_1`.
pub const MIX_2: u64 = 0x94D0_49BB_1331_11EB;

/// The last steps of the hash: three shifts and two multiplications.
pub open spec fn mixed(start: u64) -> u64 {
    let a = start ^ (start >> 30);
    let b = a.wrapping_mul(MIX_1);
    let c = b ^ (b >> 27);
    let d = c.wrapping_mul(MIX_2);
    d ^ (d >> 31)
}

/// What a lattice point adds to the seed.
pub open spec fn lattice(ix: i64, iy: i64) -> u64 {
    (ix as u64).wrapping_mul(MIX_X) ^ (iy as u64).wrapping_mul(MIX_Y)
}

/// The hash of a seeded lattice point.
pub open spec fn hashed(seed: u64, ix: i64, iy: i64) -> u64 {
    mixed(seed ^ lattice(ix, iy))
}

/// SplitMix64-style hash of a seeded lattice point.
pub fn hash(seed: u64, ix: i64, iy: i64) -> (r: u64)
    ensures
        r == hashed(seed, ix, iy),
{
    let h: u64 = seed ^ ((ix as u64).wrapping_mul(MIX_X) ^ (iy as u64).wrapping_mul(MIX_Y));
    let a: u64 = h ^ (h >> 30);
    let b: u64 = a.wrapping_mul(MIX_1);
    let c: u64 = b ^ (b >> 27);
    let d: u64 = c.wrapping_mul(MIX_2);
    d ^ (d >> 31)
}

proof fn lemma_odd_factor_is_injective(a: u64, b: u64, factor: u64, inverse: u64)
    requires
        a.wrapping_mul(factor) == b.wrapping_mul(factor),
        (factor * inverse) % 0x1_0000_0000_0000_0000 == 1,
    ensures
        a == b,
{
    lemma_factor_undone(a, factor, inverse);
    lemma_factor_undone(b, factor, inverse);
}

proof fn lemma_factor_undone(a: u64, factor: u64, inverse: u64)
    requires
        (factor * inverse) % 0x1_0000_0000_0000_0000 == 1,
    ensures
        (a.wrapping_mul(factor) * inverse) % 0x1_0000_0000_0000_0000 == a,
{
    let m = 0x1_0000_0000_0000_0000int;
    let (x, f, i) = (a as int, factor as int, inverse as int);
    vstd::arithmetic::div_mod::lemma_mul_mod_noop_left(x * f, i, m);
    vstd::arithmetic::mul::lemma_mul_is_associative(x, f, i);
    vstd::arithmetic::div_mod::lemma_mul_mod_noop_right(x, f * i, m);
    vstd::arithmetic::mul::lemma_mul_basics(x);
    vstd::arithmetic::div_mod::lemma_small_mod(a as nat, m as nat);
}

/// Two seeds never give a lattice point the same hash: every seed is a plane
/// of its own.
pub proof fn law_seeds_never_collide(seed: u64, other: u64, ix: i64, iy: i64)
    requires
        seed != other,
    ensures
        hashed(seed, ix, iy) != hashed(other, ix, iy),
{
    if hashed(seed, ix, iy) == hashed(other, ix, iy) {
        let l = lattice(ix, iy);
        let (h, k) = (seed ^ l, other ^ l);
        let (a1, a2) = (h ^ (h >> 30), k ^ (k >> 30));
        let (b1, b2) = (a1.wrapping_mul(MIX_1), a2.wrapping_mul(MIX_1));
        let (c1, c2) = (b1 ^ (b1 >> 27), b2 ^ (b2 >> 27));
        let (d1, d2) = (c1.wrapping_mul(MIX_2), c2.wrapping_mul(MIX_2));
        assert(d1 == d2) by (bit_vector)
            requires
                d1 ^ (d1 >> 31) == d2 ^ (d2 >> 31),
        ;
        assert((MIX_2 * 0x3196_42B2_D24D_8EC3u64) % 0x1_0000_0000_0000_0000 == 1);
        lemma_odd_factor_is_injective(c1, c2, MIX_2, 0x3196_42B2_D24D_8EC3u64);
        assert(b1 == b2) by (bit_vector)
            requires
                b1 ^ (b1 >> 27) == b2 ^ (b2 >> 27),
        ;
        assert((MIX_1 * 0x96DE_1B17_3F11_9089u64) % 0x1_0000_0000_0000_0000 == 1);
        lemma_odd_factor_is_injective(a1, a2, MIX_1, 0x96DE_1B17_3F11_9089u64);
        assert(h == k) by (bit_vector)
            requires
                h ^ (h >> 30) == k ^ (k >> 30),
        ;
        assert(seed == other) by (bit_vector)
            requires
                seed ^ l == other ^ l,
        ;
    }
}

/// The hash spreads the two coordinates by multiplying each with its own odd
/// number, adds the seed bit by bit, and mixes three times by shifts of 30, 27
/// and 31 bits with a multiplication in between; all of it modulo `2^64`.
pub proof fn law_the_hash_of_a_lattice_point(seed: u64, ix: i64, iy: i64)
    ensures
        ({
            let m = 0x1_0000_0000_0000_0000int;
            let x = ((ix as u64) * 0x9E37_79B9_7F4A_7C15u64) % m;
            let y = ((iy as u64) * 0xC2B2_AE3D_27D4_EB4Fu64) % m;
            let h = seed ^ (x as u64 ^ y as u64);
            let a = h ^ (h >> 30);
            let b = ((a * 0xBF58_476D_1CE4_E5B9u64) % m) as u64;
            let c = b ^ (b >> 27);
            let d = ((c * 0x94D0_49BB_1331_11EBu64) % m) as u64;
            hashed(seed, ix, iy) == d ^ (d >> 31)
        }),
{
}

/// The direction of the gradient at a lattice point, in units of `2^-53` of a
/// full turn.
pub open spec fn turn(seed: u64, ix: i64, iy: i64) -> u64 {
    hashed(seed, ix, iy) >> 11
}

/// A direction is made of the highest 53 bits of the hash.
pub proof fn law_a_direction_is_the_top_of_the_hash(seed: u64, ix: i64, iy: i64)
    ensures
        turn(seed, ix, iy) == hashed(seed, ix, iy) / 2048,
        turn(seed, ix, iy) < 0x20_0000_0000_0000,
{
    let h = hashed(seed, ix, iy);
    assert(h >> 11 == h / 2048) by (bit_vector);
}

/// Parameters are equal in every part.
pub proof fn law_parameters_are_equal_in_every_part(a: Params, b: Params)
    ensures
        a.eq_num(b) <==> a.seed == b.seed && a.hurst.eq_num(b.hurst) && a.octaves == b.octaves
            && a.clouds == b.clouds,
{
}

/// The next place of the lattice is one further, and the last is followed by
/// the first.
pub proof fn law_the_lattice_goes_round(place: i64)
    ensures
        place < i64::MAX ==> after(place) == place + 1,
        place == i64::MAX ==> after(place) == i64::MIN,
{
}

/// The lattice goes round: the place after the last is the first.
pub open spec fn after(place: i64) -> i64 {
    if place == i64::MAX {
        i64::MIN
    } else {
        (place + 1) as i64
    }
}

fn next_place(place: i64) -> (r: i64)
    ensures
        r == after(place),
{
    if place == i64::MAX {
        i64::MIN
    } else {
        place + 1
    }
}

/// The gradient directions at the four corners of a lattice cell: the corner
/// itself, the one after it in x, the one after it in y, and the one after it
/// in both. Each is a number of `2^-53` parts of a full turn.
pub fn corner_turns(seed: u64, ix: i64, iy: i64) -> (turns: [u64; 4])
    ensures
        turns@ == seq![
            turn(seed, ix, iy),
            turn(seed, after(ix), iy),
            turn(seed, ix, after(iy)),
            turn(seed, after(ix), after(iy)),
        ],
        forall|i: int| 0 <= i < 4 ==> #[trigger] turns@[i] < 0x20_0000_0000_0000,
{
    let (right, below): (i64, i64) = (next_place(ix), next_place(iy));
    let turns: [u64; 4] = [
        gradient(seed, ix, iy),
        gradient(seed, right, iy),
        gradient(seed, ix, below),
        gradient(seed, right, below),
    ];
    assert(turns@ =~= seq![
        turn(seed, ix, iy),
        turn(seed, after(ix), iy),
        turn(seed, ix, after(iy)),
        turn(seed, after(ix), after(iy)),
    ]);
    turns
}

/// The direction of the gradient at a lattice point: 53 uniform bits, as a
/// fraction of a full turn.
pub fn gradient(seed: u64, ix: i64, iy: i64) -> (r: u64)
    ensures
        r == turn(seed, ix, iy),
        r < 0x20_0000_0000_0000,
{
    let h: u64 = hash(seed, ix, iy);
    assert(h >> 11 < 0x20_0000_0000_0000) by (bit_vector);
    h >> 11
}

/// The pixels that a pixel's slope is taken against: the one to its right and
/// the one below it, or itself at the edge of the image.
pub fn slope_neighbors(px: usize, py: usize, width: usize, height: usize) -> (r: (usize, usize))
    requires
        px < width,
        py < height,
        width * height <= usize::MAX,
    ensures
        r.0 == py * width + (if px + 1 < width {
            px + 1
        } else {
            px as int
        }),
        r.1 == (if py + 1 < height {
            py + 1
        } else {
            py as int
        }) * width + px,
        r.0 < width * height,
        r.1 < width * height,
{
    proof {
        crate::raster::law_pixel_in_range(px as int, py as int, width as int, height as int);
        if px + 1 < width {
            crate::raster::law_pixel_in_range(px + 1, py as int, width as int, height as int);
        }
        if py + 1 < height {
            crate::raster::law_pixel_in_range(px as int, py + 1, width as int, height as int);
            assert((py + 1) * width == py * width + width) by (nonlinear_arith);
        }
    }
    let i: usize = py * width + px;
    let right: usize = if px + 1 < width {
        i + 1
    } else {
        i
    };
    let below: usize = if py + 1 < height {
        i + width
    } else {
        i
    };
    (right, below)
}

} // verus!
