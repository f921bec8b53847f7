//! Strange attractors: iterated nonlinear 2D maps rendered as density plots.
//!
//! Unlike the chaos game there is no randomness at all: each of the fixed
//! lanes runs one deterministic orbit from its own fixed seed point (the
//! attractor swallows every start after a short warmup), so output is
//! identical on any machine and for any batch split.

use vstd::prelude::*;

use crate::density::{
    batch, bounding_box, extent, finite_points, law_any_split_gives_one_plot, point_finite,
    points_in, quota, ready, run, spent, views, Lanes, Progress, Sample, LANES,
};
use crate::float::{Double, Point};

verus! {

/// Iterations discarded per lane before plotting (settle onto the attractor).
pub const WARMUP: u32 = 100;

/// Which map is iterated.
#[derive(Clone, Copy, PartialEq, Eq, Debug, Structural)]
pub enum Kind {
    /// x' = sin(a·y) + c·cos(a·x),  y' = sin(b·x) + d·cos(b·y)
    Clifford,
    /// x' = sin(a·y) − cos(b·x),    y' = sin(c·x) − cos(d·y)
    DeJong,
}

impl Kind {
    pub fn name(self) -> (name: &'static str)
        ensures
            name@ == match self {
                Kind::Clifford => "Clifford"@,
                Kind::DeJong => "de Jong"@,
            },
    {
        match self {
            Kind::Clifford => "Clifford",
            Kind::DeJong => "de Jong",
        }
    }
}

/// Resumable attractor orbits filling one histogram; deterministic for any
/// batch split (fixed lanes and seeds, cumulative work splitting).
#[derive(Debug)]
pub struct Orbits {
    lanes: Lanes,
}

impl Orbits {
    /// What each orbit still has to skip.
    pub closed spec fn warmups(&self) -> Seq<nat> {
        self.lanes.warmups()
    }

    /// Points asked for so far.
    pub closed spec fn total(&self) -> nat {
        self.lanes.total()
    }

    /// The orbits and their histogram together.
    pub open spec fn progress(&self, hist: Seq<u32>) -> Progress {
        Progress { warmups: self.warmups(), total: self.total(), hist }
    }

    /// There are always `LANES` orbits.
    pub open spec fn wf(&self) -> bool {
        self.warmups().len() == LANES
    }

    /// Orbits that have not started.
    pub fn new() -> (orbits: Orbits)
        ensures
            orbits.wf(),
            orbits.total() == 0,
            orbits.warmups() == Seq::new(LANES as nat, |lane: int| WARMUP as nat),
    {
        Orbits { lanes: Lanes::new(WARMUP) }
    }

    /// How many samples of its orbit a lane may use in the next `points`
    /// points.
    pub fn demand(&self, points: u64, lane: usize) -> (r: u64)
        requires
            self.wf(),
            lane < LANES,
            self.total() + points + LANES - 1 <= u64::MAX,
        ensures
            r == self.warmups()[lane as int] + quota(self.total(), points as nat, lane as int),
    {
        self.lanes.demand(points, lane)
    }

    /// Advance by `points` plotted points, accumulating into `hist`
    /// (`width*height`, same view for every batch). `feeds` holds the next
    /// steps of each orbit; the result says how many of them were used.
    pub fn advance(
        &mut self,
        feeds: &Vec<Vec<Sample>>,
        width: usize,
        height: usize,
        hist: &mut Vec<u32>,
        points: u64,
    ) -> (used: Vec<usize>)
        requires
            old(self).wf(),
            old(hist)@.len() == width * height,
            old(self).total() + points + LANES - 1 <= u64::MAX,
            ready(old(self).progress(old(hist)@), views(feeds@), points as nat),
        ensures
            final(self).wf(),
            final(self).progress(final(hist)@) == batch(
                old(self).progress(old(hist)@),
                views(feeds@),
                width as int,
                height as int,
                points as nat,
            ),
            used@.len() == LANES,
            forall|lane: int|
                0 <= lane < LANES ==> #[trigger] used@[lane] == spent(
                    old(self).progress(old(hist)@),
                    views(feeds@),
                    points as nat,
                )[lane],
    {
        self.lanes.advance(feeds, width, height, hist, points)
    }
}

impl Default for Orbits {
    fn default() -> (orbits: Orbits)
        ensures
            orbits.wf(),
            orbits.total() == 0,
            orbits.warmups() == Seq::new(LANES as nat, |lane: int| WARMUP as nat),
    {
        Orbits::new()
    }
}

/// The plot before its first point.
pub open spec fn blank(width: usize, height: usize) -> Progress {
    Progress {
        warmups: Seq::new(LANES as nat, |lane: int| WARMUP as nat),
        total: 0,
        hist: Seq::new((width * height) as nat, |cell: int| 0u32),
    }
}

/// Orbits start with every cell empty, no point counted, and each still to
/// settle in.
pub proof fn law_orbits_start_empty(width: usize, height: usize, lane: int, cell: int)
    requires
        0 <= lane < LANES,
        0 <= cell < width * height,
    ensures
        blank(width, height).warmups.len() == 16,
        blank(width, height).warmups[lane] == 100,
        blank(width, height).total == 0,
        blank(width, height).hist.len() == width * height,
        blank(width, height).hist[cell] == 0,
{
}

/// One-shot histogram.
pub fn histogram(
    feeds: &Vec<Vec<Sample>>,
    points: u64,
    width: usize,
    height: usize,
) -> (hist: Vec<u32>)
    requires
        width * height <= usize::MAX,
        points + LANES - 1 <= u64::MAX,
        ready(blank(width, height), views(feeds@), points as nat),
    ensures
        hist@ == batch(
            blank(width, height),
            views(feeds@),
            width as int,
            height as int,
            points as nat,
        ).hist,
{
    let mut hist: Vec<u32> = vec![0; width * height];
    assert(hist@ =~= blank(width, height).hist);
    let mut orbits = Orbits::new();
    assert(orbits.progress(hist@) == blank(width, height));
    orbits.advance(feeds, width, height, &mut hist, points);
    hist
}

/// Advancing new orbits batch by batch fills the histogram that `histogram`
/// gives at once, however the points are split.
pub proof fn law_batches_give_the_one_shot_histogram(
    feeds: Seq<Seq<Sample>>,
    width: usize,
    height: usize,
    batches: Seq<nat>,
)
    requires
        ready(blank(width, height), feeds, points_in(batches)),
    ensures
        run(blank(width, height), feeds, width as int, height as int, batches).hist == batch(
            blank(width, height),
            feeds,
            width as int,
            height as int,
            points_in(batches),
        ).hist,
{
    law_any_split_gives_one_plot(
        blank(width, height),
        feeds,
        width as int,
        height as int,
        batches,
    );
}

/// Bounding box of the attractor (min x, min y, max x, max y) from a sample
/// orbit, for fitting the viewport. Steps that diverged are left out, and the
/// first `WARMUP` of the others.
pub fn bbox(trail: &[Point]) -> (r: Option<[Double; 4]>)
    ensures
        ({
            let finite = trail@.filter(|p: Point| point_finite(p));
            &&& r is None <==> finite.len() <= WARMUP
            &&& r matches Some(b) ==> b@ == extent(finite.skip(WARMUP as int))
        }),
{
    let finite = finite_points(trail);
    let mut settled: Vec<Point> = Vec::new();
    let mut i: usize = WARMUP as usize;
    while i < finite.len()
        invariant
            WARMUP <= i,
            finite.len() <= WARMUP ==> settled@.len() == 0,
            finite.len() > WARMUP ==> i <= finite.len() && settled@ == finite@.subrange(
                WARMUP as int,
                i as int,
            ),
        decreases finite.len() - i,
    {
        settled.push(finite[i]);
        assert(settled@ =~= finite@.subrange(WARMUP as int, i + 1));
        i += 1;
    }
    if finite.len() > WARMUP as usize {
        assert(settled@ =~= finite@.skip(WARMUP as int));
    }
    bounding_box(&settled)
}

/// A named parameter set.
#[derive(Clone, Copy, Debug)]
pub struct Preset {
    pub name: &'static str,
    pub kind: Kind,
    pub params: [Double; 4],
}

impl Preset {
    /// The fields of a preset, numbers by their bits.
    pub open spec fn is(&self, name: &str, kind: Kind, params: Seq<u64>) -> bool {
        &&& self.name@ == name@
        &&& self.kind == kind
        &&& params.len() == 4
        &&& forall|i: int| 0 <= i < 4 ==> (#[trigger] self.params@[i]).bits == params[i]
    }
}

/// A preset has its name, its map and its four parameters.
pub proof fn law_a_preset_in_full(
    preset: Preset,
    name: &str,
    kind: Kind,
    a: u64,
    b: u64,
    c: u64,
    d: u64,
)
    ensures
        preset.is(name, kind, seq![a, b, c, d]) <==> {
            &&& preset.name@ == name@
            &&& preset.kind == kind
            &&& preset.params@[0].bits == a && preset.params@[1].bits == b
            &&& preset.params@[2].bits == c && preset.params@[3].bits == d
        },
{
    let params = seq![a, b, c, d];
    if preset.name@ == name@ && preset.kind == kind && preset.params@[0].bits == a
        && preset.params@[1].bits == b && preset.params@[2].bits == c && preset.params@[3].bits
        == d {
        assert forall|i: int| 0 <= i < 4 implies (#[trigger] preset.params@[i]).bits
            == params[i] by {}
    } else if preset.is(name, kind, params) {
        assert(preset.params@[0].bits == params[0] && preset.params@[1].bits == params[1]);
        assert(preset.params@[2].bits == params[2] && preset.params@[3].bits == params[3]);
    }
}

fn preset(name: &'static str, kind: Kind, a: u64, b: u64, c: u64, d: u64) -> (preset: Preset)
    ensures
        preset.is(name, kind, seq![a, b, c, d]),
{
    Preset {
        name,
        kind,
        params: [Double { bits: a }, Double { bits: b }, Double { bits: c }, Double { bits: d }],
    }
}

/// The parameter sets. The numbers are the bits of those named above them.
pub fn presets() -> (presets: Vec<Preset>)
    ensures
        presets@.len() == 4,
        presets@[0].is(
            "Clifford A",
            Kind::Clifford,
            seq![
                0xBFF6_6666_6666_6666,
                0x3FF9_9999_9999_999A,
                0x3FF0_0000_0000_0000,
                0x3FE6_6666_6666_6666,
            ],
        ),
        presets@[1].is(
            "Clifford B",
            Kind::Clifford,
            seq![
                0xBFFB_3333_3333_3333,
                0x3FF4_CCCC_CCCC_CCCD,
                0xBFB9_9999_9999_999A,
                0xBFF3_3333_3333_3333,
            ],
        ),
        presets@[2].is(
            "de Jong A",
            Kind::DeJong,
            seq![
                0xC005_9999_9999_999A,
                0xBFB7_0A3D_70A3_D70A,
                0xBFEB_851E_B851_EB85,
                0xC001_9999_9999_999A,
            ],
        ),
        presets@[3].is(
            "de Jong B",
            Kind::DeJong,
            seq![
                0x3FF6_6666_6666_6666,
                0xC002_6666_6666_6666,
                0x4003_3333_3333_3333,
                0xC000_CCCC_CCCC_CCCD,
            ],
        ),
{
    vec![
        // -1.4, 1.6, 1.0, 0.7
        preset(
            "Clifford A",
            Kind::Clifford,
            0xBFF6_6666_6666_6666,
            0x3FF9_9999_9999_999A,
            0x3FF0_0000_0000_0000,
            0x3FE6_6666_6666_6666,
        ),
        // -1.7, 1.3, -0.1, -1.2
        preset(
            "Clifford B",
            Kind::Clifford,
            0xBFFB_3333_3333_3333,
            0x3FF4_CCCC_CCCC_CCCD,
            0xBFB9_9999_9999_999A,
            0xBFF3_3333_3333_3333,
        ),
        // -2.7, -0.09, -0.86, -2.2
        preset(
            "de Jong A",
            Kind::DeJong,
            0xC005_9999_9999_999A,
            0xBFB7_0A3D_70A3_D70A,
            0xBFEB_851E_B851_EB85,
            0xC001_9999_9999_999A,
        ),
        // 1.4, -2.3, 2.4, -2.1
        preset(
            "de Jong B",
            Kind::DeJong,
            0x3FF6_6666_6666_6666,
            0xC002_6666_6666_6666,
            0x4003_3333_3333_3333,
            0xC000_CCCC_CCCC_CCCD,
        ),
    ]
}

} // verus!
