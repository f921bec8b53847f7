//! Iterated Function Systems: affine maps rendered via the chaos game.
//!
//! The chaos game is run into a density histogram at the target pixel size,
//! then the histogram is tone-mapped through the palette. The histogram is
//! kept apart from the tone-mapped image so palette tweaks don't re-run the
//! chaos game.

use vstd::prelude::*;

use crate::density::{
    batch, bounding_box, extent, law_any_split_gives_one_plot, point_finite, points_in, quota,
    ready, run, spent, views, Lanes, Progress, Sample, LANES,
};
use crate::float::{Double, Point, Single};

verus! {

/// Steps of a walk that are skipped before plotting (attractor settle-in).
pub const WARMUP: u32 = 32;

/// Seed of the random stream behind a bounding box.
pub const BBOX_SEED: u64 = 0x5eed_b0b0_0000_0002;

/// Seed of the first lane's random stream; the others follow it.
pub const WALKER_SEED: u64 = 0x5eed_f2ac_7a15_0001;

/// One affine map: (x, y) -> (a x + b y + e, c x + d y + f).
#[derive(Clone, Copy, Debug, PartialEq, Eq, Structural)]
pub struct AffineMap {
    pub a: Single,
    pub b: Single,
    pub c: Single,
    pub d: Single,
    pub e: Single,
    pub f: Single,
    /// Relative probability of picking this map in the chaos game.
    pub weight: Single,
}

impl AffineMap {
    /// Numeric equality of all coefficients.
    pub open spec fn eq_num(self, other: AffineMap) -> bool {
        &&& self.a.eq_num(other.a)
        &&& self.b.eq_num(other.b)
        &&& self.c.eq_num(other.c)
        &&& self.d.eq_num(other.d)
        &&& self.e.eq_num(other.e)
        &&& self.f.eq_num(other.f)
        &&& self.weight.eq_num(other.weight)
    }

    /// `==` on the coefficients.
    pub fn equals(self, other: AffineMap) -> (r: bool)
        ensures
            r == self.eq_num(other),
    {
        self.a.equals(other.a) && self.b.equals(other.b) && self.c.equals(other.c)
            && self.d.equals(other.d) && self.e.equals(other.e) && self.f.equals(other.f)
            && self.weight.equals(other.weight)
    }
}

/// Numeric equality of two systems, map by map.
pub open spec fn maps_eq_num(a: Seq<AffineMap>, b: Seq<AffineMap>) -> bool {
    &&& a.len() == b.len()
    &&& forall|i: int| 0 <= i < a.len() ==> (#[trigger] a[i]).eq_num(b[i])
}

/// `==` on two systems.
pub fn maps_equal(a: &[AffineMap], b: &[AffineMap]) -> (r: bool)
    ensures
        r == maps_eq_num(a@, b@),
{
    if a.len() != b.len() {
        return false;
    }
    let mut i: usize = 0;
    while i < a.len()
        invariant
            i <= a.len(),
            a.len() == b.len(),
            forall|k: int| 0 <= k < i ==> (#[trigger] a@[k]).eq_num(b@[k]),
        decreases a.len() - i,
    {
        if !a[i].equals(b[i]) {
            assert(!a@[i as int].eq_num(b@[i as int]));
            return false;
        }
        i += 1;
    }
    true
}

/// Viewport into the plane (world units per pixel, world center).
#[derive(Clone, Copy, Debug, PartialEq, Eq, Structural)]
pub struct IfsView {
    pub center: Point,
    pub units_per_pixel: Double,
}

impl IfsView {
    /// Numeric equality of the two windows.
    pub open spec fn eq_num(self, other: IfsView) -> bool {
        self.center.eq_num(other.center) && self.units_per_pixel.eq_num(other.units_per_pixel)
    }

    /// `==` on the windows.
    pub fn equals(self, other: IfsView) -> (r: bool)
        ensures
            r == self.eq_num(other),
    {
        self.center.equals(other.center) && self.units_per_pixel.equals(other.units_per_pixel)
    }
}

/// The seed of a lane's random stream.
pub fn walker_seed(lane: usize) -> (seed: u64)
    requires
        lane < LANES,
    ensures
        seed == WALKER_SEED + lane,
{
    WALKER_SEED + lane as u64
}

/// A system that draws nothing: no maps, or no map with a positive weight.
/// `total_weight` is the sum of the weights that are above zero.
pub open spec fn idle(maps: Seq<AffineMap>, total_weight: Single) -> bool {
    maps.len() == 0 || (!total_weight.nan() && total_weight.rank() <= 0)
}

/// A system draws nothing where it has no maps, or where their weights add up
/// to zero or less; a sum that is no number does not count as that.
pub proof fn law_when_a_system_draws_nothing(maps: Seq<AffineMap>, total_weight: Single)
    ensures
        maps.len() == 0 ==> idle(maps, total_weight),
        maps.len() > 0 ==> (idle(maps, total_weight) <==> !total_weight.nan() && (
        total_weight.bits == 0 || total_weight.bits >= 0x8000_0000)),
{
}

/// Systems are equal where they have the same number of maps, all of whose
/// coefficients and weights are equal.
pub proof fn law_systems_are_equal_in_every_coefficient(a: Seq<AffineMap>, b: Seq<AffineMap>)
    ensures
        maps_eq_num(a, b) <==> a.len() == b.len() && forall|i: int|
            0 <= i < a.len() ==> {
                &&& (#[trigger] a[i]).a.eq_num(b[i].a)
                &&& a[i].b.eq_num(b[i].b)
                &&& a[i].c.eq_num(b[i].c)
                &&& a[i].d.eq_num(b[i].d)
                &&& a[i].e.eq_num(b[i].e)
                &&& a[i].f.eq_num(b[i].f)
                &&& a[i].weight.eq_num(b[i].weight)
            },
{
}

/// Windows are equal in their center and in their scale.
pub proof fn law_windows_are_equal_in_every_part(a: IfsView, b: IfsView)
    ensures
        a.eq_num(b) <==> {
            &&& a.center.x.eq_num(b.center.x)
            &&& a.center.y.eq_num(b.center.y)
            &&& a.units_per_pixel.eq_num(b.units_per_pixel)
        },
{
}

/// Whether a system draws nothing.
pub fn is_idle(maps: &[AffineMap], total_weight: Single) -> (r: bool)
    ensures
        r == idle(maps@, total_weight),
{
    maps.len() == 0 || total_weight.not_positive()
}

/// Resumable chaos game: a fixed set of independent walkers filling one
/// histogram. Deterministic: fixed seeds, a fixed lane count, and cumulative
/// work-splitting make any batch split produce the identical histogram.
#[derive(Debug)]
pub struct ChaosGame {
    lanes: Lanes,
}

impl ChaosGame {
    /// What each walker still has to skip.
    pub closed spec fn warmups(&self) -> Seq<nat> {
        self.lanes.warmups()
    }

    /// Points asked for so far.
    pub closed spec fn total(&self) -> nat {
        self.lanes.total()
    }

    /// The game and its histogram together.
    pub open spec fn progress(&self, hist: Seq<u32>) -> Progress {
        Progress { warmups: self.warmups(), total: self.total(), hist }
    }

    /// There are always `LANES` walkers.
    pub open spec fn wf(&self) -> bool {
        self.warmups().len() == LANES
    }

    /// A game that has not started.
    pub fn new() -> (game: ChaosGame)
        ensures
            game.wf(),
            game.total() == 0,
            game.warmups() == Seq::new(LANES as nat, |lane: int| WARMUP as nat),
    {
        ChaosGame { lanes: Lanes::new(WARMUP) }
    }

    /// How many samples of its walk a lane may use in the next `points`
    /// points.
    pub fn demand(&self, points: u64, lane: usize) -> (r: u64)
        requires
            self.wf(),
            lane < LANES,
            self.total() + points + LANES - 1 <= u64::MAX,
        ensures
            r == self.warmups()[lane as int] + quota(self.total(), points as nat, lane as int),
    {
        self.lanes.demand(points, lane)
    }

    /// Advance by `points` plotted points, accumulating into `hist`
    /// (`width*height`, same view for every batch). `feeds` holds the next
    /// steps of each walker; the result says how many of them were used. An
    /// idle system is left alone, and its points are not counted.
    pub fn advance(
        &mut self,
        maps: &[AffineMap],
        total_weight: Single,
        feeds: &Vec<Vec<Sample>>,
        width: usize,
        height: usize,
        hist: &mut Vec<u32>,
        points: u64,
    ) -> (used: Vec<usize>)
        requires
            old(self).wf(),
            old(hist)@.len() == width * height,
            !idle(maps@, total_weight) ==> old(self).total() + points + LANES - 1 <= u64::MAX
                && ready(
                old(self).progress(old(hist)@),
                views(feeds@),
                points as nat,
            ),
        ensures
            final(self).wf(),
            final(self).progress(final(hist)@) == if idle(maps@, total_weight) {
                old(self).progress(old(hist)@)
            } else {
                batch(
                    old(self).progress(old(hist)@),
                    views(feeds@),
                    width as int,
                    height as int,
                    points as nat,
                )
            },
            used@.len() == LANES,
            forall|lane: int|
                0 <= lane < LANES ==> #[trigger] used@[lane] == if idle(maps@, total_weight) {
                    0
                } else {
                    spent(
                        old(self).progress(old(hist)@),
                        views(feeds@),
                        points as nat,
                    )[lane] as int
                },
    {
        if is_idle(maps, total_weight) {
            let none: Vec<usize> = vec![0; LANES];
            return none;
        }
        self.lanes.advance(feeds, width, height, hist, points)
    }
}

impl Default for ChaosGame {
    fn default() -> (game: ChaosGame)
        ensures
            game.wf(),
            game.total() == 0,
            game.warmups() == Seq::new(LANES as nat, |lane: int| WARMUP as nat),
    {
        ChaosGame::new()
    }
}

/// The plot before its first point.
pub open spec fn blank(width: usize, height: usize) -> Progress {
    Progress {
        warmups: Seq::new(LANES as nat, |lane: int| WARMUP as nat),
        total: 0,
        hist: Seq::new((width * height) as nat, |cell: int| 0u32),
    }
}

/// A game starts with every cell empty, no point counted, and each walker
/// still to settle in.
pub proof fn law_a_game_starts_empty(width: usize, height: usize, lane: int, cell: int)
    requires
        0 <= lane < LANES,
        0 <= cell < width * height,
    ensures
        blank(width, height).warmups.len() == 16,
        blank(width, height).warmups[lane] == 32,
        blank(width, height).total == 0,
        blank(width, height).hist.len() == width * height,
        blank(width, height).hist[cell] == 0,
{
}

/// One-shot chaos game.
pub fn chaos_histogram(
    maps: &[AffineMap],
    total_weight: Single,
    feeds: &Vec<Vec<Sample>>,
    points: u64,
    width: usize,
    height: usize,
) -> (hist: Vec<u32>)
    requires
        width * height <= usize::MAX,
        !idle(maps@, total_weight) ==> points + LANES - 1 <= u64::MAX && ready(
            blank(width, height),
            views(feeds@),
            points as nat,
        ),
    ensures
        hist@ == if idle(maps@, total_weight) {
            blank(width, height).hist
        } else {
            batch(
                blank(width, height),
                views(feeds@),
                width as int,
                height as int,
                points as nat,
            ).hist
        },
{
    let mut hist: Vec<u32> = vec![0; width * height];
    assert(hist@ =~= blank(width, height).hist);
    let mut game = ChaosGame::new();
    assert(game.progress(hist@) == blank(width, height));
    game.advance(maps, total_weight, feeds, width, height, &mut hist, points);
    hist
}

/// Advancing a new game batch by batch fills the histogram that `chaos_histogram`
/// gives at once, however the points are split.
pub proof fn law_batches_give_the_one_shot_histogram(
    feeds: Seq<Seq<Sample>>,
    width: usize,
    height: usize,
    batches: Seq<nat>,
)
    requires
        ready(blank(width, height), feeds, points_in(batches)),
    ensures
        run(blank(width, height), feeds, width as int, height as int, batches).hist == batch(
            blank(width, height),
            feeds,
            width as int,
            height as int,
            points_in(batches),
        ).hist,
{
    law_any_split_gives_one_plot(
        blank(width, height),
        feeds,
        width as int,
        height as int,
        batches,
    );
}

/// A walk that leaves the finite numbers.
pub open spec fn diverges(trail: Seq<Point>) -> bool {
    exists|i: int| 0 <= i < trail.len() && !point_finite(#[trigger] trail[i])
}

/// A walk diverges where a coordinate of any of its points is infinite or no
/// number.
pub proof fn law_when_a_walk_diverges(trail: Seq<Point>)
    ensures
        diverges(trail) <==> exists|i: int|
            0 <= i < trail.len() && !((#[trigger] trail[i]).x.finite() && trail[i].y.finite()),
{
    if diverges(trail) {
        let i = choose|i: int| 0 <= i < trail.len() && !point_finite(#[trigger] trail[i]);
        assert(!(trail[i].x.finite() && trail[i].y.finite()));
    } else if exists|i: int|
        0 <= i < trail.len() && !((#[trigger] trail[i]).x.finite() && trail[i].y.finite()) {
        let i = choose|i: int|
            0 <= i < trail.len() && !((#[trigger] trail[i]).x.finite() && trail[i].y.finite());
        assert(!point_finite(trail[i]));
    }
}

/// Bounding box of the attractor (min x, min y, max x, max y), for fitting
/// the viewport. `trail` is a walk from the origin; its first steps are
/// skipped. `None` if the system is idle or diverges, or if the walk is too
/// short.
pub fn attractor_bbox(maps: &[AffineMap], total_weight: Single, trail: &[Point]) -> (r: Option<
    [Double; 4],
>)
    ensures
        r is None <==> idle(maps@, total_weight) || diverges(trail@) || trail@.len() <= WARMUP,
        r matches Some(b) ==> b@ == extent(trail@.skip(WARMUP as int)),
{
    if is_idle(maps, total_weight) || trail.len() <= WARMUP as usize {
        return None;
    }
    let mut settled: Vec<Point> = Vec::new();
    let mut i: usize = 0;
    while i < trail.len()
        invariant
            i <= trail.len(),
            trail.len() > WARMUP,
            forall|k: int| 0 <= k < i ==> point_finite(#[trigger] trail@[k]),
            settled@ == if i <= WARMUP {
                Seq::empty()
            } else {
                trail@.subrange(WARMUP as int, i as int)
            },
        decreases trail.len() - i,
    {
        let p = trail[i];
        if !p.x.is_finite() || !p.y.is_finite() {
            assert(!point_finite(trail@[i as int]));
            return None;
        }
        if i >= WARMUP as usize {
            settled.push(p);
            assert(settled@ =~= trail@.subrange(WARMUP as int, i + 1));
        }
        i += 1;
    }
    assert(settled@ =~= trail@.skip(WARMUP as int));
    bounding_box(&settled)
}

/// A named preset: maps plus a sensible initial viewport
/// (center, world-units-per-point for a ~800pt canvas).
#[derive(Debug)]
pub struct Preset {
    pub name: &'static str,
    pub maps: Vec<AffineMap>,
    pub center: Point,
    pub units_per_point: Double,
}

impl Preset {
    /// The fields of a preset, numbers by their bits.
    pub open spec fn is(
        &self,
        name: &str,
        maps: Seq<AffineMap>,
        center_x: u64,
        center_y: u64,
        units_per_point: u64,
    ) -> bool {
        &&& self.name@ == name@
        &&& self.maps@ =~= maps
        &&& self.center.x.bits == center_x
        &&& self.center.y.bits == center_y
        &&& self.units_per_point.bits == units_per_point
    }
}

/// A map by the bits of its coefficients.
pub open spec fn affine_of(
    a: u32,
    b: u32,
    c: u32,
    d: u32,
    e: u32,
    f: u32,
    weight: u32,
) -> AffineMap {
    AffineMap {
        a: Single { bits: a },
        b: Single { bits: b },
        c: Single { bits: c },
        d: Single { bits: d },
        e: Single { bits: e },
        f: Single { bits: f },
        weight: Single { bits: weight },
    }
}

/// A map has the coefficients in the order of their letters, and its weight
/// last.
pub proof fn law_a_map_in_full(a: u32, b: u32, c: u32, d: u32, e: u32, f: u32, weight: u32)
    ensures
        ({
            let map = affine_of(a, b, c, d, e, f, weight);
            &&& map.a.bits == a && map.b.bits == b && map.c.bits == c
            &&& map.d.bits == d && map.e.bits == e && map.f.bits == f
            &&& map.weight.bits == weight
        }),
{
}

/// A preset has its name, its maps in order, and its window.
pub proof fn law_a_preset_in_full(
    preset: Preset,
    name: &str,
    maps: Seq<AffineMap>,
    center_x: u64,
    center_y: u64,
    units_per_point: u64,
)
    ensures
        preset.is(name, maps, center_x, center_y, units_per_point) <==> {
            &&& preset.name@ == name@
            &&& preset.maps@.len() == maps.len()
            &&& forall|i: int| 0 <= i < maps.len() ==> #[trigger] preset.maps@[i] == maps[i]
            &&& preset.center.x.bits == center_x
            &&& preset.center.y.bits == center_y
            &&& preset.units_per_point.bits == units_per_point
        },
{
}

/// The three maps of the Sierpinski triangle halve the plane, towards the
/// origin, the point (1, 0), and a point above their middle, with equal
/// weights.
pub proof fn law_the_sierpinski_maps_halve(i: int)
    requires
        0 <= i < 3,
    ensures
        sierpinski().len() == 3,
        sierpinski()[i].a.bits == 0x3F00_0000 && sierpinski()[i].d.bits == 0x3F00_0000,
        sierpinski()[i].b.bits == 0 && sierpinski()[i].c.bits == 0,
        sierpinski()[i].weight.bits == 0x3F80_0000,
        sierpinski()[0].e.bits == 0 && sierpinski()[0].f.bits == 0,
        sierpinski()[1].e.bits == 0x3F00_0000 && sierpinski()[1].f.bits == 0,
        sierpinski()[2].e.bits == 0x3E80_0000 && sierpinski()[2].f.bits == 0x3EDD_B22D,
{
}

fn affine(a: u32, b: u32, c: u32, d: u32, e: u32, f: u32, weight: u32) -> (map: AffineMap)
    ensures
        map == affine_of(a, b, c, d, e, f, weight),
{
    AffineMap {
        a: Single { bits: a },
        b: Single { bits: b },
        c: Single { bits: c },
        d: Single { bits: d },
        e: Single { bits: e },
        f: Single { bits: f },
        weight: Single { bits: weight },
    }
}

/// The maps of the Sierpinski triangle.
pub open spec fn sierpinski() -> Seq<AffineMap> {
    seq![
        affine_of(
            0x3F00_0000,
            0x0000_0000,
            0x0000_0000,
            0x3F00_0000,
            0x0000_0000,
            0x0000_0000,
            0x3F80_0000,
        ),
        affine_of(
            0x3F00_0000,
            0x0000_0000,
            0x0000_0000,
            0x3F00_0000,
            0x3F00_0000,
            0x0000_0000,
            0x3F80_0000,
        ),
        affine_of(
            0x3F00_0000,
            0x0000_0000,
            0x0000_0000,
            0x3F00_0000,
            0x3E80_0000,
            0x3EDD_B22D,
            0x3F80_0000,
        ),
    ]
}

/// The presets. The numbers are the bits of those named beside or above them.
pub fn presets() -> (presets: Vec<Preset>)
    ensures
        presets@.len() == 3,
        presets@[0].is(
            "Sierpinski triangle",
            sierpinski(),
            0x3FE0_0000_0000_0000,
            0x3FDB_851E_B851_EB85,
            0x3F5A_36E2_EB1C_432D,
        ),
        presets@[1].is(
            "Barnsley fern",
            seq![
                affine_of(
                    0x0000_0000,
                    0x0000_0000,
                    0x0000_0000,
                    0x3E23_D70A,
                    0x0000_0000,
                    0x0000_0000,
                    0x3C23_D70A,
                ),
                affine_of(
                    0x3F59_999A,
                    0x3D23_D70A,
                    0xBD23_D70A,
                    0x3F59_999A,
                    0x0000_0000,
                    0x3FCC_CCCD,
                    0x3F59_999A,
                ),
                affine_of(
                    0x3E4C_CCCD,
                    0xBE85_1EB8,
                    0x3E6B_851F,
                    0x3E61_47AE,
                    0x0000_0000,
                    0x3FCC_CCCD,
                    0x3D8F_5C29,
                ),
                affine_of(
                    0xBE19_999A,
                    0x3E8F_5C29,
                    0x3E85_1EB8,
                    0x3E75_C28F,
                    0x0000_0000,
                    0x3EE1_47AE,
                    0x3D8F_5C29,
                ),
            ],
            0x3FD0_0000_0000_0000,
            0x4014_0000_0000_0000,
            0x3F8D_B22D_0E56_0419,
        ),
        presets@[2].is(
            "Heighway dragon",
            seq![
                affine_of(
                    0x3F00_0000,
                    0xBF00_0000,
                    0x3F00_0000,
                    0x3F00_0000,
                    0x0000_0000,
                    0x0000_0000,
                    0x3F80_0000,
                ),
                affine_of(
                    0xBF00_0000,
                    0xBF00_0000,
                    0x3F00_0000,
                    0xBF00_0000,
                    0x3F80_0000,
                    0x0000_0000,
                    0x3F80_0000,
                ),
            ],
            0x3FE0_0000_0000_0000,
            0x3FD0_0000_0000_0000,
            0x3F64_7AE1_47AE_147B,
        ),
{
    vec![
        Preset {
            name: "Sierpinski triangle",
            maps: vec![
                // 0.5, 0.0, 0.0, 0.5, 0.0, 0.0, 1.0
                affine(
                    0x3F00_0000,
                    0x0000_0000,
                    0x0000_0000,
                    0x3F00_0000,
                    0x0000_0000,
                    0x0000_0000,
                    0x3F80_0000,
                ),
                // 0.5, 0.0, 0.0, 0.5, 0.5, 0.0, 1.0
                affine(
                    0x3F00_0000,
                    0x0000_0000,
                    0x0000_0000,
                    0x3F00_0000,
                    0x3F00_0000,
                    0x0000_0000,
                    0x3F80_0000,
                ),
                // 0.5, 0.0, 0.0, 0.5, 0.25, 0.433, 1.0
                affine(
                    0x3F00_0000,
                    0x0000_0000,
                    0x0000_0000,
                    0x3F00_0000,
                    0x3E80_0000,
                    0x3EDD_B22D,
                    0x3F80_0000,
                ),
            ],
            center: Point {
                x: Double { bits: 0x3FE0_0000_0000_0000 },  // 0.5
                y: Double { bits: 0x3FDB_851E_B851_EB85 },  // 0.43
            },
            units_per_point: Double { bits: 0x3F5A_36E2_EB1C_432D },  // 0.0016
        },
        Preset {
            name: "Barnsley fern",
            maps: vec![
                // 0.0, 0.0, 0.0, 0.16, 0.0, 0.0, 0.01
                affine(
                    0x0000_0000,
                    0x0000_0000,
                    0x0000_0000,
                    0x3E23_D70A,
                    0x0000_0000,
                    0x0000_0000,
                    0x3C23_D70A,
                ),
                // 0.85, 0.04, -0.04, 0.85, 0.0, 1.6, 0.85
                affine(
                    0x3F59_999A,
                    0x3D23_D70A,
                    0xBD23_D70A,
                    0x3F59_999A,
                    0x0000_0000,
                    0x3FCC_CCCD,
                    0x3F59_999A,
                ),
                // 0.2, -0.26, 0.23, 0.22, 0.0, 1.6, 0.07
                affine(
                    0x3E4C_CCCD,
                    0xBE85_1EB8,
                    0x3E6B_851F,
                    0x3E61_47AE,
                    0x0000_0000,
                    0x3FCC_CCCD,
                    0x3D8F_5C29,
                ),
                // -0.15, 0.28, 0.26, 0.24, 0.0, 0.44, 0.07
                affine(
                    0xBE19_999A,
                    0x3E8F_5C29,
                    0x3E85_1EB8,
                    0x3E75_C28F,
                    0x0000_0000,
                    0x3EE1_47AE,
                    0x3D8F_5C29,
                ),
            ],
            center: Point {
                x: Double { bits: 0x3FD0_0000_0000_0000 },  // 0.25
                y: Double { bits: 0x4014_0000_0000_0000 },  // 5.0
            },
            units_per_point: Double { bits: 0x3F8D_B22D_0E56_0419 },  // 0.0145
        },
        Preset {
            name: "Heighway dragon",
            maps: vec![
                // 0.5, -0.5, 0.5, 0.5, 0.0, 0.0, 1.0
                affine(
                    0x3F00_0000,
                    0xBF00_0000,
                    0x3F00_0000,
                    0x3F00_0000,
                    0x0000_0000,
                    0x0000_0000,
                    0x3F80_0000,
                ),
                // -0.5, -0.5, 0.5, -0.5, 1.0, 0.0, 1.0
                affine(
                    0xBF00_0000,
                    0xBF00_0000,
                    0x3F00_0000,
                    0xBF00_0000,
                    0x3F80_0000,
                    0x0000_0000,
                    0x3F80_0000,
                ),
            ],
            center: Point {
                x: Double { bits: 0x3FE0_0000_0000_0000 },  // 0.5
                y: Double { bits: 0x3FD0_0000_0000_0000 },  // 0.25
            },
            units_per_point: Double { bits: 0x3F64_7AE1_47AE_147B },  // 0.0025
        },
    ]
}

} // verus!
