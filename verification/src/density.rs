//! Density plots: many deterministic walks scattered into one histogram.
//!
//! A plot is filled by a fixed number of lanes, each with its own walk. The
//! points of a plot are dealt to the lanes by their running number, so it does
//! not matter how they are split into batches, nor in which order the lanes
//! run: the histogram is the same.

use vstd::prelude::*;

use crate::float::{Double, Point};

verus! {

/// Number of independent walks. Fixed (not tied to the thread count) so
/// results are identical on any machine.
pub const LANES: usize = 16;

/// One step of a walk: where it landed, and the same place in pixels (columns
/// from the left, rows from the top).
#[derive(Clone, Copy, Debug, PartialEq, Eq, Structural)]
pub struct Sample {
    pub at: Point,
    pub pixel: Point,
}

impl Sample {
    /// The walk has not diverged.
    pub open spec fn finite(self) -> bool {
        self.at.x.finite() && self.at.y.finite()
    }

    /// The histogram cell that the sample falls into; `None` outside the
    /// frame.
    pub open spec fn cell(self, width: int, height: int) -> Option<int> {
        match (self.pixel.x.floor_below(width), self.pixel.y.floor_below(height)) {
            (Some(column), Some(row)) => Some(row * width + column),
            _ => None,
        }
    }
}

/// The cumulative share of a lane in `total` points, by number: points are
/// dealt to the lanes in turn.
pub open spec fn share(total: int, lane: int) -> int {
    (total + (LANES - 1 - lane)) / (LANES as int)
}

/// A lane's cumulative share of `total` plotted points. A pure function of
/// the cumulative total, so any batch split advances each lane through the
/// same sequence.
pub fn lane_share(total: u64, lane: usize) -> (r: u64)
    requires
        lane < LANES,
        total + (LANES - 1 - lane) <= u64::MAX,
    ensures
        r == share(total as int, lane as int),
{
    (total + (LANES - 1 - lane) as u64) / LANES as u64
}

/// The shares of the first `lanes` lanes together.
pub open spec fn share_sum(total: int, lanes: int) -> int
    decreases lanes,
{
    if lanes <= 0 {
        0
    } else {
        share_sum(total, lanes - 1) + share(total, lanes - 1)
    }
}

/// The lanes together plot exactly what was asked for.
pub proof fn law_shares_cover_the_total(total: int)
    requires
        0 <= total,
    ensures
        share_sum(total, LANES as int) == total,
    decreases total,
{
    if total == 0 {
        lemma_nothing_shared(LANES as int);
    } else {
        law_shares_cover_the_total(total - 1);
        lemma_one_more_shared(total - 1, LANES as int);
    }
}

proof fn lemma_nothing_shared(lanes: int)
    requires
        0 <= lanes <= LANES,
    ensures
        share_sum(0, lanes) == 0,
    decreases lanes,
{
    if lanes > 0 {
        lemma_nothing_shared(lanes - 1);
    }
}

proof fn lemma_one_more_shared(total: int, lanes: int)
    requires
        0 <= total,
        0 <= lanes <= LANES,
    ensures
        share_sum(total + 1, lanes) == share_sum(total, lanes) + (if total % (LANES as int)
            < lanes {
            1int
        } else {
            0
        }),
    decreases lanes,
{
    if lanes > 0 {
        lemma_one_more_shared(total, lanes - 1);
        law_points_are_dealt_in_turn(total, lanes - 1);
    }
}

/// One more point is one more point for exactly one lane, each in its turn.
pub proof fn law_points_are_dealt_in_turn(total: int, lane: int)
    requires
        0 <= total,
        0 <= lane < LANES,
    ensures
        share(total + 1, lane) == share(total, lane) + (if total % (LANES as int) == lane {
            1int
        } else {
            0
        }),
        LANES == 16,
{
}

/// A greater total is no smaller a share.
pub proof fn law_shares_grow(a: int, b: int, lane: int)
    requires
        0 <= a <= b,
        0 <= lane < LANES,
    ensures
        0 <= share(a, lane) <= share(b, lane) <= share(a, lane) + (b - a),
{
}

/// A lane's share of nothing is nothing.
pub proof fn law_no_points_are_no_share(lane: int)
    requires
        0 <= lane < LANES,
    ensures
        share(0, lane) == 0,
{
}

/// What becomes of a stretch of a walk.
pub struct Trace {
    /// Samples used up.
    pub used: nat,
    /// Samples still to be skipped before the next one is plotted.
    pub warmup: nat,
    /// The samples that were plotted, in order.
    pub plotted: Seq<Sample>,
}

/// A walk that still has to skip `warmup` samples, taken on until `quota`
/// points are counted. A sample that diverged counts, so that no system keeps
/// a lane busy forever; it is neither plotted nor does it end the settling in.
pub open spec fn trace(warmup: nat, samples: Seq<Sample>, quota: nat) -> Trace
    decreases samples.len(),
{
    if quota == 0 || samples.len() == 0 {
        Trace { used: 0, warmup, plotted: seq![] }
    } else {
        let rest = samples.drop_first();
        if !samples[0].finite() {
            let t = trace(warmup, rest, (quota - 1) as nat);
            Trace { used: t.used + 1, ..t }
        } else if warmup > 0 {
            let t = trace((warmup - 1) as nat, rest, quota);
            Trace { used: t.used + 1, ..t }
        } else {
            let t = trace(0, rest, (quota - 1) as nat);
            Trace { used: t.used + 1, plotted: seq![samples[0]] + t.plotted, ..t }
        }
    }
}

/// A lane always comes to its end: it uses no more samples than its quota and
/// the settling in, and exactly those.
pub proof fn law_quota_is_met(warmup: nat, samples: Seq<Sample>, quota: nat)
    requires
        samples.len() >= warmup + quota,
    ensures
        trace(warmup, samples, quota).warmup <= warmup,
        trace(warmup, samples, quota).used == quota + (warmup - trace(
            warmup,
            samples,
            quota,
        ).warmup),
        trace(warmup, samples, quota).plotted.len() <= quota,
    decreases samples.len(),
{
    if quota > 0 && samples.len() > 0 {
        let rest = samples.drop_first();
        if !samples[0].finite() {
            law_quota_is_met(warmup, rest, (quota - 1) as nat);
        } else if warmup > 0 {
            law_quota_is_met((warmup - 1) as nat, rest, quota);
        } else {
            law_quota_is_met(0, rest, (quota - 1) as nat);
        }
    }
}

/// A lane that is taken on in two stretches ends where one stretch would have
/// taken it, having plotted the same samples.
pub proof fn law_stretches_compose(warmup: nat, samples: Seq<Sample>, a: nat, b: nat)
    requires
        samples.len() >= warmup + a,
    ensures
        ({
            let first = trace(warmup, samples, a);
            let second = trace(first.warmup, samples.skip(first.used as int), b);
            let whole = trace(warmup, samples, a + b);
            &&& whole.used == first.used + second.used
            &&& whole.warmup == second.warmup
            &&& whole.plotted == first.plotted + second.plotted
        }),
    decreases samples.len(),
{
    let first = trace(warmup, samples, a);
    law_quota_is_met(warmup, samples, a);
    if a == 0 {
        assert(samples.skip(0) =~= samples);
        let whole = trace(warmup, samples, b);
        assert(whole.plotted =~= Seq::<Sample>::empty() + whole.plotted);
    } else {
        let rest = samples.drop_first();
        let tail = if !samples[0].finite() {
            law_stretches_compose(warmup, rest, (a - 1) as nat, b);
            assert(a + b - 1 == (a - 1) + b);
            trace(warmup, rest, (a - 1) as nat)
        } else if warmup > 0 {
            law_stretches_compose((warmup - 1) as nat, rest, a, b);
            trace((warmup - 1) as nat, rest, a)
        } else {
            law_stretches_compose(0, rest, (a - 1) as nat, b);
            assert(a + b - 1 == (a - 1) + b);
            trace(0, rest, (a - 1) as nat)
        };
        assert(samples.skip(first.used as int) =~= rest.skip(tail.used as int));
        let second = trace(first.warmup, samples.skip(first.used as int), b);
        let whole = trace(warmup, samples, a + b);
        assert(whole.plotted =~= first.plotted + second.plotted);
    }
}

/// A lane plots the samples of its walk that have not diverged, but for the
/// first `warmup` of them, in their order; what it has left to skip is what
/// the walk has not given it yet.
pub proof fn law_a_lane_plots_its_walk_after_settling(
    warmup: nat,
    samples: Seq<Sample>,
    quota: nat,
)
    ensures
        ({
            let t = trace(warmup, samples, quota);
            let sound = samples.take(t.used as int).filter(
                |s: Sample| s.at.x.finite() && s.at.y.finite(),
            );
            &&& t.used <= samples.len()
            &&& sound.len() < warmup ==> t.plotted.len() == 0 && t.warmup == warmup - sound.len()
            &&& sound.len() >= warmup ==> t.plotted == sound.skip(warmup as int) && t.warmup == 0
        }),
    decreases samples.len(),
{
    let sound = |s: Sample| s.at.x.finite() && s.at.y.finite();
    let t = trace(warmup, samples, quota);
    if quota == 0 || samples.len() == 0 {
        reveal(Seq::filter);
        assert(samples.take(0).filter(sound) =~= Seq::<Sample>::empty());
        assert(Seq::<Sample>::empty().skip(0) =~= Seq::<Sample>::empty());
    } else {
        let rest = samples.drop_first();
        let (less, left) = if !samples[0].finite() {
            (warmup, (quota - 1) as nat)
        } else if warmup > 0 {
            ((warmup - 1) as nat, quota)
        } else {
            (0nat, (quota - 1) as nat)
        };
        law_a_lane_plots_its_walk_after_settling(less, rest, left);
        let later = trace(less, rest, left);
        let head = samples.take(1);
        assert(samples.take(t.used as int) =~= head + rest.take(later.used as int));
        Seq::filter_distributes_over_add(head, rest.take(later.used as int), sound);
        assert(head.filter(sound) =~= if samples[0].finite() {
            seq![samples[0]]
        } else {
            Seq::empty()
        }) by {
            reveal(Seq::filter);
            assert(head.drop_last() =~= Seq::<Sample>::empty());
            assert(head.last() == samples[0]);
            assert(head.drop_last().filter(sound) =~= Seq::<Sample>::empty());
        }
        let kept = rest.take(later.used as int).filter(sound);
        let all = samples.take(t.used as int).filter(sound);
        assert(all == head.filter(sound) + kept);
        if !samples[0].finite() {
            assert(all =~= kept);
        } else {
            assert(all =~= seq![samples[0]] + kept);
            if warmup > 0 {
                if all.len() >= warmup {
                    assert(all.skip(warmup as int) =~= kept.skip(less as int));
                }
            } else {
                assert(kept.skip(0) =~= kept);
                assert(all.skip(0) =~= all);
            }
        }
    }
}

/// A sample that diverged counts against the quota and is not plotted; one
/// that has not, while the walk settles in, does neither; every other one does
/// both. Once the quota is counted nothing more is used.
pub proof fn law_what_counts_against_the_quota(warmup: nat, samples: Seq<Sample>, quota: nat)
    requires
        samples.len() > 0,
        quota > 0,
    ensures
        ({
            let diverged = !(samples[0].at.x.finite() && samples[0].at.y.finite());
            let t = trace(warmup, samples, quota);
            let rest = samples.skip(1);
            &&& diverged ==> t.used == trace(warmup, rest, (quota - 1) as nat).used + 1
            &&& !diverged && warmup > 0 ==> t.used == trace((warmup - 1) as nat, rest, quota).used
                + 1
            &&& !diverged && warmup == 0 ==> t.used == trace(0, rest, (quota - 1) as nat).used + 1
        }),
        trace(warmup, samples, 0).used == 0,
{
    assert(samples.skip(1) =~= samples.drop_first());
}

/// A sample falls into the cell of the column and the row that its pixel
/// coordinates are in, counted from zero, and into no cell where one of them
/// is negative, beyond the frame, or no number.
pub proof fn law_a_sample_falls_into_its_pixel(
    sample: Sample,
    width: int,
    height: int,
    column: int,
    row: int,
)
    requires
        0 <= column < width,
        0 <= row < height,
    ensures
        sample.cell(width, height) == Some(row * width + column) <==> {
            &&& sample.pixel.x.finite() && sample.pixel.x.rank() >= 0
            &&& sample.pixel.y.finite() && sample.pixel.y.rank() >= 0
            &&& sample.pixel.x.floor() == column
            &&& sample.pixel.y.floor() == row
        },
        sample.cell(width, height) is None <==> {
            ||| !sample.pixel.x.finite() || sample.pixel.x.rank() < 0
            ||| !sample.pixel.y.finite() || sample.pixel.y.rank() < 0
            ||| sample.pixel.x.floor() >= width
            ||| sample.pixel.y.floor() >= height
        },
{
    if let Some(cell) = sample.cell(width, height) {
        sample.pixel.x.lemma_floor_not_negative();
        sample.pixel.y.lemma_floor_not_negative();
        if cell == row * width + column {
            crate::raster::law_pixels_distinct(
                sample.pixel.x.floor(),
                sample.pixel.y.floor(),
                column,
                row,
                width,
            );
        }
    }
}

/// How many of the samples fall into a cell.
pub open spec fn hits(plotted: Seq<Sample>, width: int, height: int, cell: int) -> nat
    decreases plotted.len(),
{
    if plotted.len() == 0 {
        0
    } else {
        hits(plotted.drop_last(), width, height, cell) + (if plotted.last().cell(width, height)
            == Some(cell) {
            1nat
        } else {
            0
        })
    }
}

/// A histogram with more samples scattered into it. Counts are 32-bit and
/// wrap.
pub open spec fn deposit(hist: Seq<u32>, plotted: Seq<Sample>, width: int, height: int) -> Seq<
    u32,
> {
    Seq::new(
        hist.len(),
        |cell: int| ((hist[cell] + hits(plotted, width, height, cell)) % 0x1_0000_0000) as u32,
    )
}

proof fn lemma_hits_concat(a: Seq<Sample>, b: Seq<Sample>, width: int, height: int, cell: int)
    ensures
        hits(a + b, width, height, cell) == hits(a, width, height, cell) + hits(
            b,
            width,
            height,
            cell,
        ),
    decreases b.len(),
{
    if b.len() == 0 {
        assert(a + b =~= a);
    } else {
        lemma_hits_concat(a, b.drop_last(), width, height, cell);
        assert((a + b).drop_last() =~= a + b.drop_last());
    }
}

/// A cell is hit by each sample that falls into it, once, wherever it stands
/// among the others.
pub proof fn law_each_sample_hits_its_cell(
    before: Seq<Sample>,
    sample: Sample,
    after: Seq<Sample>,
    width: int,
    height: int,
    cell: int,
)
    ensures
        hits(Seq::empty(), width, height, cell) == 0,
        sample.cell(width, height) == Some(cell) ==> hits(
            before + seq![sample] + after,
            width,
            height,
            cell,
        ) == hits(before + after, width, height, cell) + 1,
        sample.cell(width, height) != Some(cell) ==> hits(
            before + seq![sample] + after,
            width,
            height,
            cell,
        ) == hits(before + after, width, height, cell),
{
    lemma_hits_concat(before + seq![sample], after, width, height, cell);
    lemma_hits_concat(before, seq![sample], width, height, cell);
    lemma_hits_concat(before, after, width, height, cell);
    assert(seq![sample].drop_last() =~= Seq::<Sample>::empty());
    assert(hits(seq![sample].drop_last(), width, height, cell) == 0);
}

/// The samples of all cells below `cells` together.
pub open spec fn hits_below(plotted: Seq<Sample>, width: int, height: int, cells: int) -> nat
    decreases cells,
{
    if cells <= 0 {
        0
    } else {
        hits_below(plotted, width, height, cells - 1) + hits(plotted, width, height, cells - 1)
    }
}

/// The samples that fall into the frame.
pub open spec fn framed(plotted: Seq<Sample>, width: int, height: int) -> nat
    decreases plotted.len(),
{
    if plotted.len() == 0 {
        0
    } else {
        framed(plotted.drop_last(), width, height) + (if plotted.last().cell(width, height)
            is Some {
            1nat
        } else {
            0
        })
    }
}

proof fn lemma_hits_below_of_nothing(width: int, height: int, cells: int)
    ensures
        hits_below(Seq::empty(), width, height, cells) == 0,
    decreases cells,
{
    if cells > 0 {
        lemma_hits_below_of_nothing(width, height, cells - 1);
    }
}

proof fn lemma_hits_below_of_one_more(plotted: Seq<Sample>, width: int, height: int, cells: int)
    requires
        plotted.len() > 0,
    ensures
        hits_below(plotted, width, height, cells) == hits_below(
            plotted.drop_last(),
            width,
            height,
            cells,
        ) + (if plotted.last().cell(width, height) matches Some(c) && 0 <= c < cells {
            1nat
        } else {
            0
        }),
    decreases cells,
{
    if cells > 0 {
        lemma_hits_below_of_one_more(plotted, width, height, cells - 1);
    }
}

/// No sample is lost and none is counted twice: the cells together hold
/// exactly the samples that fall into the frame.
pub proof fn law_every_sample_counts_once(plotted: Seq<Sample>, width: int, height: int)
    requires
        0 <= width,
        0 <= height,
    ensures
        hits_below(plotted, width, height, width * height) == framed(plotted, width, height),
    decreases plotted.len(),
{
    if plotted.len() == 0 {
        assert(plotted =~= Seq::empty());
        lemma_hits_below_of_nothing(width, height, width * height);
    } else {
        law_every_sample_counts_once(plotted.drop_last(), width, height);
        lemma_hits_below_of_one_more(plotted, width, height, width * height);
        let pixel = plotted.last().pixel;
        match (pixel.x.floor_below(width), pixel.y.floor_below(height)) {
            (Some(column), Some(row)) => {
                pixel.x.lemma_floor_not_negative();
                pixel.y.lemma_floor_not_negative();
                crate::raster::law_pixel_in_range(column, row, width, height);
            },
            _ => {},
        }
    }
}

/// Scattering two groups of samples one after the other is scattering them
/// together.
pub proof fn law_deposits_compose(
    hist: Seq<u32>,
    a: Seq<Sample>,
    b: Seq<Sample>,
    width: int,
    height: int,
)
    ensures
        deposit(deposit(hist, a, width, height), b, width, height) == deposit(
            hist,
            a + b,
            width,
            height,
        ),
{
    assert forall|cell: int| 0 <= cell < hist.len() implies deposit(
        deposit(hist, a, width, height),
        b,
        width,
        height,
    )[cell] == deposit(hist, a + b, width, height)[cell] by {
        lemma_hits_concat(a, b, width, height, cell);
        let (m, n) = (hits(a, width, height, cell), hits(b, width, height, cell));
        let once = (hist[cell] + m) % 0x1_0000_0000;
        assert((once + n) % 0x1_0000_0000 == (hist[cell] + m + n) % 0x1_0000_0000);
    }
    assert(deposit(deposit(hist, a, width, height), b, width, height) =~= deposit(
        hist,
        a + b,
        width,
        height,
    ));
}

/// The lanes may run in any order, on any number of threads: which group of
/// samples is scattered first makes no difference.
pub proof fn law_deposits_commute(
    hist: Seq<u32>,
    a: Seq<Sample>,
    b: Seq<Sample>,
    width: int,
    height: int,
)
    ensures
        deposit(deposit(hist, a, width, height), b, width, height) == deposit(
            deposit(hist, b, width, height),
            a,
            width,
            height,
        ),
{
    law_deposits_compose(hist, a, b, width, height);
    law_deposits_compose(hist, b, a, width, height);
    assert forall|cell: int| 0 <= cell < hist.len() implies deposit(hist, a + b, width, height)[cell]
        == deposit(hist, b + a, width, height)[cell] by {
        lemma_hits_concat(a, b, width, height, cell);
        lemma_hits_concat(b, a, width, height, cell);
    }
    assert(deposit(hist, a + b, width, height) =~= deposit(hist, b + a, width, height));
}

/// The state of a plot between batches.
#[verifier::ext_equal]
pub struct Progress {
    /// What each lane still has to skip.
    pub warmups: Seq<nat>,
    /// Points asked for so far.
    pub total: nat,
    pub hist: Seq<u32>,
}

/// A lane's part in the next `points` points.
pub open spec fn quota(total: nat, points: nat, lane: int) -> nat {
    (share((total + points) as int, lane) - share(total as int, lane)) as nat
}

/// How a lane takes its part of a batch.
pub open spec fn lane_trace(p: Progress, feeds: Seq<Seq<Sample>>, points: nat, lane: int) -> Trace {
    trace(p.warmups[lane], feeds[lane], quota(p.total, points, lane))
}

/// The samples that the first `lanes` lanes plot in a batch.
pub open spec fn plots(p: Progress, feeds: Seq<Seq<Sample>>, points: nat, lanes: int) -> Seq<Sample>
    decreases lanes,
{
    if lanes <= 0 {
        seq![]
    } else {
        plots(p, feeds, points, lanes - 1) + lane_trace(p, feeds, points, lanes - 1).plotted
    }
}

/// The points of a batch are dealt on from where the last batch stopped: no
/// points are no part, and one more point is one more for the lane whose turn
/// it is.
pub proof fn law_a_batch_is_dealt_in_turn(total: nat, points: nat, lane: int)
    requires
        0 <= lane < LANES,
    ensures
        quota(total, 0, lane) == 0,
        quota(total, points + 1, lane) == quota(total, points, lane) + (if (total + points) % (
        LANES as nat) == lane {
            1nat
        } else {
            0
        }),
{
    law_shares_grow(total as int, (total + points) as int, lane);
    law_shares_grow(total as int, (total + points + 1) as int, lane);
    law_points_are_dealt_in_turn((total + points) as int, lane);
}

/// There are samples enough for a batch.
pub open spec fn ready(p: Progress, feeds: Seq<Seq<Sample>>, points: nat) -> bool {
    &&& p.warmups.len() == LANES
    &&& feeds.len() == LANES
    &&& forall|lane: int|
        0 <= lane < LANES ==> (#[trigger] feeds[lane]).len() >= p.warmups[lane] + quota(
            p.total,
            points,
            lane,
        )
}

/// The plot after a batch of `points` points.
pub open spec fn batch(
    p: Progress,
    feeds: Seq<Seq<Sample>>,
    width: int,
    height: int,
    points: nat,
) -> Progress {
    Progress {
        warmups: Seq::new(LANES as nat, |lane: int| lane_trace(p, feeds, points, lane).warmup),
        total: p.total + points,
        hist: deposit(p.hist, plots(p, feeds, points, LANES as int), width, height),
    }
}

/// The samples that a batch uses up, lane by lane.
pub open spec fn spent(p: Progress, feeds: Seq<Seq<Sample>>, points: nat) -> Seq<nat> {
    Seq::new(LANES as nat, |lane: int| lane_trace(p, feeds, points, lane).used)
}

/// Every lane goes on with its own walk, from what it had left to skip, by its
/// part of the batch; a cell gains what the lanes scatter into it, one lane
/// after the other.
pub proof fn law_every_lane_follows_its_own_walk(
    p: Progress,
    feeds: Seq<Seq<Sample>>,
    width: int,
    height: int,
    points: nat,
    lane: int,
    cell: int,
)
    requires
        0 <= lane < LANES,
    ensures
        ({
            let t = trace(p.warmups[lane], feeds[lane], quota(p.total, points, lane));
            &&& batch(p, feeds, width, height, points).warmups.len() == LANES
            &&& batch(p, feeds, width, height, points).warmups[lane] == t.warmup
            &&& batch(p, feeds, width, height, points).total == p.total + points
            &&& spent(p, feeds, points)[lane] == t.used
            &&& hits(plots(p, feeds, points, lane + 1), width, height, cell) == hits(
                plots(p, feeds, points, lane),
                width,
                height,
                cell,
            ) + hits(t.plotted, width, height, cell)
        }),
        plots(p, feeds, points, 0).len() == 0,
        batch(p, feeds, width, height, points).hist.len() == p.hist.len(),
        0 <= cell < p.hist.len() ==> batch(p, feeds, width, height, points).hist[cell] == (
        p.hist[cell] + hits(plots(p, feeds, points, LANES as int), width, height, cell))
            % 0x1_0000_0000,
{
    let t = trace(p.warmups[lane], feeds[lane], quota(p.total, points, lane));
    lemma_hits_concat(plots(p, feeds, points, lane), t.plotted, width, height, cell);
}

/// What is left of the walks.
pub open spec fn remaining(feeds: Seq<Seq<Sample>>, used: Seq<nat>) -> Seq<Seq<Sample>> {
    Seq::new(feeds.len(), |lane: int| feeds[lane].skip(used[lane] as int))
}

proof fn lemma_lane_batches_compose(
    p: Progress,
    feeds: Seq<Seq<Sample>>,
    width: int,
    height: int,
    a: nat,
    b: nat,
    lane: int,
)
    requires
        ready(p, feeds, a + b),
        0 <= lane < LANES,
    ensures
        ({
            let between = batch(p, feeds, width, height, a);
            let rest = remaining(feeds, spent(p, feeds, a));
            let first = lane_trace(p, feeds, a, lane);
            let second = lane_trace(between, rest, b, lane);
            let whole = lane_trace(p, feeds, a + b, lane);
            &&& whole.used == first.used + second.used
            &&& whole.warmup == second.warmup
            &&& whole.plotted == first.plotted + second.plotted
            &&& rest[lane].len() >= between.warmups[lane] + quota(between.total, b, lane)
        }),
{
    let between = batch(p, feeds, width, height, a);
    let m = quota(p.total, a, lane);
    let n = quota(p.total + a, b, lane);
    law_shares_grow(p.total as int, (p.total + a) as int, lane);
    law_shares_grow((p.total + a) as int, (p.total + a + b) as int, lane);
    assert(quota(p.total, a + b, lane) == m + n);
    assert(feeds[lane].len() >= p.warmups[lane] + m + n);
    law_stretches_compose(p.warmups[lane], feeds[lane], m, n);
    law_quota_is_met(p.warmups[lane], feeds[lane], m);
    assert(between.total == p.total + a);
}

proof fn lemma_hits_of_batches(
    p: Progress,
    feeds: Seq<Seq<Sample>>,
    width: int,
    height: int,
    a: nat,
    b: nat,
    lanes: int,
    cell: int,
)
    requires
        ready(p, feeds, a + b),
        0 <= lanes <= LANES,
    ensures
        ({
            let between = batch(p, feeds, width, height, a);
            let rest = remaining(feeds, spent(p, feeds, a));
            hits(plots(p, feeds, a + b, lanes), width, height, cell) == hits(
                plots(p, feeds, a, lanes),
                width,
                height,
                cell,
            ) + hits(plots(between, rest, b, lanes), width, height, cell)
        }),
    decreases lanes,
{
    if lanes > 0 {
        let between = batch(p, feeds, width, height, a);
        let rest = remaining(feeds, spent(p, feeds, a));
        let lane = lanes - 1;
        lemma_hits_of_batches(p, feeds, width, height, a, b, lane, cell);
        lemma_lane_batches_compose(p, feeds, width, height, a, b, lane);
        let first = lane_trace(p, feeds, a, lane).plotted;
        let second = lane_trace(between, rest, b, lane).plotted;
        lemma_hits_concat(first, second, width, height, cell);
        lemma_hits_concat(plots(p, feeds, a, lane), first, width, height, cell);
        lemma_hits_concat(plots(between, rest, b, lane), second, width, height, cell);
        lemma_hits_concat(
            plots(p, feeds, a + b, lane),
            first + second,
            width,
            height,
            cell,
        );
    }
}

/// A plot does not depend on how its points are split into batches: `a`
/// points and then `b` points give what `a + b` points give at once, in the
/// histogram, in every lane's state and in the samples used.
pub proof fn law_batches_compose(
    p: Progress,
    feeds: Seq<Seq<Sample>>,
    width: int,
    height: int,
    a: nat,
    b: nat,
)
    requires
        ready(p, feeds, a + b),
    ensures
        ({
            let between = batch(p, feeds, width, height, a);
            let used = spent(p, feeds, a);
            let rest = remaining(feeds, used);
            &&& ready(p, feeds, a)
            &&& ready(between, rest, b)
            &&& batch(between, rest, width, height, b) == batch(p, feeds, width, height, a + b)
            &&& remaining(rest, spent(between, rest, b)) == remaining(feeds, spent(p, feeds, a + b))
        }),
{
    let between = batch(p, feeds, width, height, a);
    let used = spent(p, feeds, a);
    let rest = remaining(feeds, used);
    let stepped = batch(between, rest, width, height, b);
    let whole = batch(p, feeds, width, height, a + b);
    assert forall|lane: int| 0 <= lane < LANES implies (#[trigger] feeds[lane]).len()
        >= p.warmups[lane] + quota(p.total, a, lane) by {
        law_shares_grow((p.total + a) as int, (p.total + a + b) as int, lane);
    }
    assert forall|lane: int| 0 <= lane < LANES implies (#[trigger] rest[lane]).len()
        >= between.warmups[lane] + quota(between.total, b, lane) by {
        lemma_lane_batches_compose(p, feeds, width, height, a, b, lane);
    }
    assert forall|lane: int| 0 <= lane < LANES implies #[trigger] stepped.warmups[lane]
        == whole.warmups[lane] by {
        lemma_lane_batches_compose(p, feeds, width, height, a, b, lane);
    }
    assert(stepped.warmups =~= whole.warmups);
    assert forall|cell: int| 0 <= cell < p.hist.len() implies #[trigger] stepped.hist[cell]
        == whole.hist[cell] by {
        lemma_hits_of_batches(p, feeds, width, height, a, b, LANES as int, cell);
        let m = hits(plots(p, feeds, a, LANES as int), width, height, cell);
        let n = hits(plots(between, rest, b, LANES as int), width, height, cell);
        let once = (p.hist[cell] + m) % 0x1_0000_0000;
        assert((once + n) % 0x1_0000_0000 == (p.hist[cell] + m + n) % 0x1_0000_0000);
    }
    assert(stepped.hist =~= whole.hist);
    let used_after = spent(between, rest, b);
    let used_whole = spent(p, feeds, a + b);
    assert forall|lane: int| 0 <= lane < LANES implies #[trigger] remaining(rest, used_after)[lane]
        == remaining(feeds, used_whole)[lane] by {
        lemma_lane_batches_compose(p, feeds, width, height, a, b, lane);
        law_quota_is_met(
            between.warmups[lane],
            rest[lane],
            quota(between.total, b, lane),
        );
        law_quota_is_met(p.warmups[lane], feeds[lane], quota(p.total, a, lane));
        assert(feeds[lane].skip(used[lane] as int).skip(used_after[lane] as int)
            =~= feeds[lane].skip((used[lane] + used_after[lane]) as int));
    }
    assert(remaining(rest, used_after) =~= remaining(feeds, used_whole));
}

proof fn lemma_quota_sum(p: Progress, feeds: Seq<Seq<Sample>>, points: nat, lanes: int)
    requires
        ready(p, feeds, points),
        0 <= lanes <= LANES,
    ensures
        plots(p, feeds, points, lanes).len() <= share_sum((p.total + points) as int, lanes)
            - share_sum(p.total as int, lanes),
    decreases lanes,
{
    if lanes > 0 {
        let lane = lanes - 1;
        lemma_quota_sum(p, feeds, points, lane);
        law_shares_grow(p.total as int, (p.total + points) as int, lane);
        assert(feeds[lane].len() >= p.warmups[lane] + quota(p.total, points, lane));
        law_quota_is_met(p.warmups[lane], feeds[lane], quota(p.total, points, lane));
    }
}

proof fn lemma_framed_is_fewer(plotted: Seq<Sample>, width: int, height: int)
    ensures
        framed(plotted, width, height) <= plotted.len(),
    decreases plotted.len(),
{
    if plotted.len() > 0 {
        lemma_framed_is_fewer(plotted.drop_last(), width, height);
    }
}

/// A batch plots no more than its points, and all cells together gain no more
/// than that.
pub proof fn law_a_batch_adds_no_more_than_its_points(
    p: Progress,
    feeds: Seq<Seq<Sample>>,
    width: int,
    height: int,
    points: nat,
)
    requires
        ready(p, feeds, points),
        0 <= width,
        0 <= height,
    ensures
        ({
            let plotted = plots(p, feeds, points, LANES as int);
            &&& batch(p, feeds, width, height, points).hist == deposit(
                p.hist,
                plotted,
                width,
                height,
            )
            &&& plotted.len() <= points
            &&& hits_below(plotted, width, height, width * height) <= points
        }),
{
    let plotted = plots(p, feeds, points, LANES as int);
    lemma_quota_sum(p, feeds, points, LANES as int);
    law_shares_cover_the_total(p.total as int);
    law_shares_cover_the_total((p.total + points) as int);
    law_every_sample_counts_once(plotted, width, height);
    lemma_framed_is_fewer(plotted, width, height);
}

/// A cell gains what falls into it, as long as its count holds that: no cell
/// loses anything.
pub proof fn law_counts_add_up(
    hist: Seq<u32>,
    plotted: Seq<Sample>,
    width: int,
    height: int,
    cell: int,
)
    requires
        0 <= cell < hist.len(),
        hist[cell] + hits(plotted, width, height, cell) <= u32::MAX,
    ensures
        deposit(hist, plotted, width, height)[cell] == hist[cell] + hits(
            plotted,
            width,
            height,
            cell,
        ),
{
}

proof fn lemma_nothing_plotted(p: Progress, feeds: Seq<Seq<Sample>>, lanes: int)
    requires
        0 <= lanes <= LANES,
    ensures
        plots(p, feeds, 0, lanes) == Seq::<Sample>::empty(),
    decreases lanes,
{
    if lanes > 0 {
        lemma_nothing_plotted(p, feeds, lanes - 1);
        assert(quota(p.total, 0, lanes - 1) == 0);
        assert(plots(p, feeds, 0, lanes) =~= Seq::<Sample>::empty());
    }
}

/// A batch of no points changes nothing.
pub proof fn law_an_empty_batch_changes_nothing(
    p: Progress,
    feeds: Seq<Seq<Sample>>,
    width: int,
    height: int,
)
    requires
        p.warmups.len() == LANES,
    ensures
        batch(p, feeds, width, height, 0) == p,
{
    let after = batch(p, feeds, width, height, 0);
    lemma_nothing_plotted(p, feeds, LANES as int);
    assert forall|lane: int| 0 <= lane < LANES implies #[trigger] after.warmups[lane]
        == p.warmups[lane] by {
        assert(quota(p.total, 0, lane) == 0);
    }
    assert(after.warmups =~= p.warmups);
    assert forall|cell: int| 0 <= cell < p.hist.len() implies #[trigger] after.hist[cell]
        == p.hist[cell] by {
        assert(hits(Seq::<Sample>::empty(), width, height, cell) == 0);
    }
    assert(after.hist =~= p.hist);
}

/// The points of some batches together.
pub open spec fn points_in(batches: Seq<nat>) -> nat
    decreases batches.len(),
{
    if batches.len() == 0 {
        0
    } else {
        batches[0] + points_in(batches.drop_first())
    }
}

/// The plot after some batches, one after the other; each goes on with what is
/// left of the walks.
pub open spec fn run(
    p: Progress,
    feeds: Seq<Seq<Sample>>,
    width: int,
    height: int,
    batches: Seq<nat>,
) -> Progress
    decreases batches.len(),
{
    if batches.len() == 0 {
        p
    } else {
        run(
            batch(p, feeds, width, height, batches[0]),
            remaining(feeds, spent(p, feeds, batches[0])),
            width,
            height,
            batches.drop_first(),
        )
    }
}

/// Any split into batches, of whatever sizes, gives the plot of one batch.
pub proof fn law_any_split_gives_one_plot(
    p: Progress,
    feeds: Seq<Seq<Sample>>,
    width: int,
    height: int,
    batches: Seq<nat>,
)
    requires
        ready(p, feeds, points_in(batches)),
    ensures
        run(p, feeds, width, height, batches) == batch(
            p,
            feeds,
            width,
            height,
            points_in(batches),
        ),
    decreases batches.len(),
{
    if batches.len() == 0 {
        law_an_empty_batch_changes_nothing(p, feeds, width, height);
    } else {
        let rest = batches.drop_first();
        law_batches_compose(p, feeds, width, height, batches[0], points_in(rest));
        law_any_split_gives_one_plot(
            batch(p, feeds, width, height, batches[0]),
            remaining(feeds, spent(p, feeds, batches[0])),
            width,
            height,
            rest,
        );
    }
}

/// The samples that each lane is handed.
pub open spec fn views(feeds: Seq<Vec<Sample>>) -> Seq<Seq<Sample>> {
    Seq::new(feeds.len(), |lane: int| feeds[lane]@)
}

/// Every lane is handed its own samples.
pub proof fn law_every_lane_has_its_own_samples(feeds: Seq<Vec<Sample>>, lane: int)
    requires
        0 <= lane < feeds.len(),
    ensures
        views(feeds).len() == feeds.len(),
        views(feeds)[lane] == feeds[lane]@,
{
}

/// A sample, or a point, has not diverged where both its coordinates are
/// finite.
pub proof fn law_what_has_not_diverged(sample: Sample, p: Point)
    ensures
        sample.finite() <==> sample.at.x.finite() && sample.at.y.finite(),
        point_finite(p) <==> p.x.finite() && p.y.finite(),
{
}

impl Sample {
    /// Whether the walk has not diverged.
    pub fn is_finite(self) -> (r: bool)
        ensures
            r == self.finite(),
    {
        self.at.x.is_finite() && self.at.y.is_finite()
    }

    /// The histogram cell that the sample falls into.
    pub fn cell_in(self, width: usize, height: usize) -> (r: Option<usize>)
        requires
            width * height <= usize::MAX,
        ensures
            match r {
                Some(cell) => self.cell(width as int, height as int) == Some(cell as int)
                    && cell < width * height,
                None => self.cell(width as int, height as int) is None,
            },
    {
        match (self.pixel.x.index_below(width), self.pixel.y.index_below(height)) {
            (Some(column), Some(row)) => {
                proof {
                    crate::raster::law_pixel_in_range(
                        column as int,
                        row as int,
                        width as int,
                        height as int,
                    );
                }
                Some(row * width + column)
            },
            _ => None,
        }
    }
}

/// Take one lane on until its quota is counted. Returns the samples used and
/// what is left of the settling in.
fn walk(
    warmup: u32,
    samples: &Vec<Sample>,
    quota: u64,
    width: usize,
    height: usize,
    hist: &mut Vec<u32>,
) -> (r: (usize, u32))
    requires
        samples@.len() >= warmup + quota,
        old(hist)@.len() == width * height,
    ensures
        ({
            let t = trace(warmup as nat, samples@, quota as nat);
            &&& r.0 == t.used
            &&& r.1 == t.warmup
            &&& final(hist)@ == deposit(old(hist)@, t.plotted, width as int, height as int)
        }),
{
    let ghost whole = trace(warmup as nat, samples@, quota as nat);
    let ghost before = hist@;
    let ghost mut done: Seq<Sample> = seq![];
    let mut used: usize = 0;
    let mut skip: u32 = warmup;
    let mut left: u64 = quota;
    assert(samples@.skip(0) =~= samples@);
    assert(whole.plotted =~= done + whole.plotted);
    assert(hist@ =~= deposit(before, done, width as int, height as int));
    let ghost cells = hist.len();
    while left > 0
        invariant
            used <= samples.len(),
            samples@.len() - used >= skip + left,
            hist@.len() == width * height,
            width * height <= usize::MAX,
            whole.used == used + trace(skip as nat, samples@.skip(used as int), left as nat).used,
            whole.warmup == trace(skip as nat, samples@.skip(used as int), left as nat).warmup,
            whole.plotted == done + trace(
                skip as nat,
                samples@.skip(used as int),
                left as nat,
            ).plotted,
            hist@ == deposit(before, done, width as int, height as int),
        decreases samples@.len() - used,
    {
        let sample = samples[used];
        let ghost rest = samples@.skip(used as int);
        assert(rest[0] == sample);
        assert(rest.drop_first() =~= samples@.skip(used + 1));
        used += 1;
        if !sample.is_finite() {
            left -= 1;
        } else if skip > 0 {
            skip -= 1;
        } else {
            left -= 1;
            let ghost earlier = hist@;
            if let Some(cell) = sample.cell_in(width, height) {
                hist.set(cell, hist[cell].wrapping_add(1));
            }
            proof {
                let one = seq![sample];
                assert(one.drop_last() =~= Seq::<Sample>::empty());
                assert forall|c: int| 0 <= c < earlier.len() implies #[trigger] hist@[c] == deposit(
                    earlier,
                    one,
                    width as int,
                    height as int,
                )[c] by {
                    assert(hits(one.drop_last(), width as int, height as int, c) == 0);
                }
                assert(hist@ =~= deposit(earlier, one, width as int, height as int));
                law_deposits_compose(before, done, one, width as int, height as int);
                let tail = trace(0, rest.drop_first(), left as nat).plotted;
                assert(done + (one + tail) =~= (done + one) + tail);
                done = done + one;
            }
        }
    }
    assert(done + Seq::<Sample>::empty() =~= done);
    (used, skip)
}

/// The lanes of a plot: what each still has to skip, and the points asked for
/// so far.
#[derive(Debug)]
pub struct Lanes {
    warmups: Vec<u32>,
    total: u64,
}

impl Lanes {
    /// What each lane still has to skip.
    pub closed spec fn warmups(&self) -> Seq<nat> {
        Seq::new(self.warmups@.len(), |lane: int| self.warmups@[lane] as nat)
    }

    /// Points asked for so far.
    pub closed spec fn total(&self) -> nat {
        self.total as nat
    }

    /// There are always `LANES` lanes.
    pub open spec fn wf(&self) -> bool {
        self.warmups().len() == LANES
    }

    /// The lanes and their histogram together.
    pub open spec fn progress(&self, hist: Seq<u32>) -> Progress {
        Progress { warmups: self.warmups(), total: self.total(), hist }
    }

    /// Lanes that have not started; each skips its first `warmup` samples.
    pub fn new(warmup: u32) -> (lanes: Lanes)
        ensures
            lanes.wf(),
            lanes.total() == 0,
            lanes.warmups() == Seq::new(LANES as nat, |lane: int| warmup as nat),
    {
        let mut warmups: Vec<u32> = Vec::new();
        let mut lane: usize = 0;
        while lane < LANES
            invariant
                lane <= LANES,
                warmups@.len() == lane,
                forall|i: int| 0 <= i < lane ==> warmups@[i] == warmup,
            decreases LANES - lane,
        {
            warmups.push(warmup);
            lane += 1;
        }
        let lanes = Lanes { warmups, total: 0 };
        assert(lanes.warmups() =~= Seq::new(LANES as nat, |lane: int| warmup as nat));
        lanes
    }

    /// How many samples a lane may use in the next `points` points.
    pub fn demand(&self, points: u64, lane: usize) -> (r: u64)
        requires
            self.wf(),
            lane < LANES,
            self.total() + points + LANES - 1 <= u64::MAX,
        ensures
            r == self.warmups()[lane as int] + quota(self.total(), points as nat, lane as int),
    {
        proof {
            law_shares_grow(self.total as int, self.total + points, lane as int);
        }
        lane_share(self.total + points, lane) - lane_share(self.total, lane) + self.warmups[lane]
            as u64
    }

    /// Plot `points` more points into `hist` (`width * height` cells, the same
    /// frame for every batch). `feeds` holds the next samples of each lane's
    /// walk, at least as many as the lane may use; the result says how many
    /// each lane did use.
    pub fn advance(
        &mut self,
        feeds: &Vec<Vec<Sample>>,
        width: usize,
        height: usize,
        hist: &mut Vec<u32>,
        points: u64,
    ) -> (used: Vec<usize>)
        requires
            old(self).wf(),
            old(hist)@.len() == width * height,
            old(self).total() + points + LANES - 1 <= u64::MAX,
            ready(old(self).progress(old(hist)@), views(feeds@), points as nat),
        ensures
            final(self).wf(),
            final(self).progress(final(hist)@) == batch(
                old(self).progress(old(hist)@),
                views(feeds@),
                width as int,
                height as int,
                points as nat,
            ),
            used@.len() == LANES,
            forall|lane: int|
                0 <= lane < LANES ==> #[trigger] used@[lane] == spent(
                    old(self).progress(old(hist)@),
                    views(feeds@),
                    points as nat,
                )[lane],
    {
        let ghost p = self.progress(hist@);
        let ghost fed = views(feeds@);
        let ghost n = points as nat;
        let mut used: Vec<usize> = Vec::new();
        let new_total: u64 = self.total + points;
        let mut lane: usize = 0;
        proof {
            assert(plots(p, fed, n, 0) =~= Seq::<Sample>::empty());
            assert(hist@ =~= deposit(p.hist, plots(p, fed, n, 0), width as int, height as int));
        }
        while lane < LANES
            invariant
                lane <= LANES,
                used@.len() == lane,
                self.warmups@.len() == LANES,
                feeds@.len() == LANES,
                fed == views(feeds@),
                n == points,
                self.total == p.total,
                new_total == p.total + points,
                p.total + points + LANES - 1 <= u64::MAX,
                ready(p, fed, n),
                p.hist.len() == width * height,
                hist@.len() == width * height,
                forall|i: int| lane <= i < LANES ==> self.warmups@[i] == #[trigger] p.warmups[i],
                forall|i: int|
                    0 <= i < lane ==> self.warmups@[i] == (#[trigger] lane_trace(p, fed, n, i)).warmup,
                forall|i: int| 0 <= i < lane ==> #[trigger] used@[i] == lane_trace(p, fed, n, i).used,
                hist@ == deposit(p.hist, plots(p, fed, n, lane as int), width as int, height as int),
            decreases LANES - lane,
        {
            proof {
                law_shares_grow(p.total as int, (p.total + n) as int, lane as int);
                assert(fed[lane as int] == feeds@[lane as int]@);
                assert(self.warmups@[lane as int] == p.warmups[lane as int]);
                law_deposits_compose(
                    p.hist,
                    plots(p, fed, n, lane as int),
                    lane_trace(p, fed, n, lane as int).plotted,
                    width as int,
                    height as int,
                );
            }
            let part: u64 = lane_share(new_total, lane) - lane_share(self.total, lane);
            let (spent_here, warmup) = walk(
                self.warmups[lane],
                &feeds[lane],
                part,
                width,
                height,
                hist,
            );
            self.warmups.set(lane, warmup);
            used.push(spent_here);
            lane += 1;
        }
        self.total = new_total;
        assert(self.warmups() =~= batch(p, fed, width as int, height as int, n).warmups);
        used
    }
}

/// The greatest count of a histogram.
pub open spec fn peak(hist: Seq<u32>) -> u32
    decreases hist.len(),
{
    if hist.len() == 0 {
        0
    } else if hist.last() > peak(hist.drop_last()) {
        hist.last()
    } else {
        peak(hist.drop_last())
    }
}

/// No count is above the peak.
pub proof fn law_peak_is_greatest(hist: Seq<u32>, cell: int)
    requires
        0 <= cell < hist.len(),
    ensures
        hist[cell] <= peak(hist),
    decreases hist.len(),
{
    if cell < hist.len() - 1 {
        law_peak_is_greatest(hist.drop_last(), cell);
    }
}

/// Some count reaches the peak; without counts the peak is zero.
pub proof fn law_peak_is_reached(hist: Seq<u32>)
    ensures
        hist.len() == 0 ==> peak(hist) == 0,
        hist.len() > 0 ==> exists|cell: int|
            0 <= cell < hist.len() && #[trigger] hist[cell] == peak(hist),
    decreases hist.len(),
{
    if hist.len() > 0 {
        let front = hist.drop_last();
        law_peak_is_reached(front);
        if hist.last() > peak(front) {
            assert(hist[hist.len() - 1] == peak(hist));
        } else if front.len() > 0 {
            let cell = choose|cell: int|
                0 <= cell < front.len() && #[trigger] front[cell] == peak(front);
            assert(hist[cell] == peak(hist));
        } else {
            assert(hist[0] == peak(hist));
        }
    }
}

/// The count that tones are scaled by: the greatest one, and at least 1.
pub fn tone_scale(hist: &[u32]) -> (r: u32)
    ensures
        r == if peak(hist@) == 0 {
            1
        } else {
            peak(hist@)
        },
        r >= 1,
        forall|i: int| 0 <= i < hist@.len() ==> #[trigger] hist@[i] <= r,
        r > 1 ==> exists|i: int| 0 <= i < hist@.len() && #[trigger] hist@[i] == r,
{
    let mut greatest: u32 = 0;
    let mut i: usize = 0;
    assert(hist@.take(0) =~= Seq::<u32>::empty());
    while i < hist.len()
        invariant
            i <= hist.len(),
            greatest == peak(hist@.take(i as int)),
        decreases hist.len() - i,
    {
        assert(hist@.take(i + 1).drop_last() =~= hist@.take(i as int));
        if hist[i] > greatest {
            greatest = hist[i];
        }
        i += 1;
    }
    assert(hist@.take(hist@.len() as int) =~= hist@);
    proof {
        law_peak_is_reached(hist@);
        assert forall|k: int| 0 <= k < hist@.len() implies #[trigger] hist@[k] <= peak(hist@) by {
            law_peak_is_greatest(hist@, k);
        }
    }
    if greatest == 0 {
        1
    } else {
        greatest
    }
}

/// A pixel of a density plot: black where nothing fell, the tone of the count
/// elsewhere; always opaque.
pub open spec fn toned(count: u32, tone: Seq<u8>) -> Seq<u8> {
    if count == 0 {
        seq![0, 0, 0, 255]
    } else {
        seq![tone[0], tone[1], tone[2], 255]
    }
}

/// Where something fell, a pixel has the tone's red, green and blue, in this
/// order; where nothing fell it is black. Its last byte makes it opaque.
pub proof fn law_a_pixel_has_its_tone(count: u32, tone: Seq<u8>, k: int)
    requires
        tone.len() == 3,
        0 <= k < 3,
    ensures
        toned(count, tone).len() == 4,
        count > 0 ==> toned(count, tone)[k] == tone[k],
        count == 0 ==> toned(count, tone)[k] == 0,
        toned(count, tone)[3] == 255,
{
}

/// Tone-map a histogram to RGBA. `tones` holds the palette color of each
/// cell's count; an empty cell is black whatever its tone.
pub fn tonemap_rgba(hist: &[u32], tones: &[[u8; 3]]) -> (rgba: Vec<u8>)
    requires
        tones@.len() == hist@.len(),
    ensures
        rgba@.len() == 4 * hist@.len(),
        forall|i: int|
            0 <= i < hist@.len() ==> rgba@.subrange(4 * i, 4 * i + 4) == toned(
                #[trigger] hist@[i],
                tones@[i]@,
            ),
        forall|i: int, k: int|
            0 <= i < hist@.len() && 0 <= k < 3 && hist@[i] > 0 ==> #[trigger] rgba@[4 * i + k]
                == tones@[i]@[k],
        forall|i: int, k: int|
            0 <= i < hist@.len() && 0 <= k < 3 && hist@[i] == 0 ==> #[trigger] rgba@[4 * i + k]
                == 0,
        forall|i: int| 0 <= i < hist@.len() ==> #[trigger] rgba@[4 * i + 3] == 255,
{
    let mut rgba: Vec<u8> = Vec::new();
    let mut i: usize = 0;
    while i < hist.len()
        invariant
            i <= hist.len(),
            tones@.len() == hist@.len(),
            rgba@.len() == 4 * i,
            forall|k: int|
                0 <= k < i ==> rgba@.subrange(4 * k, 4 * k + 4) == toned(
                    #[trigger] hist@[k],
                    tones@[k]@,
                ),
        decreases hist.len() - i,
    {
        let ghost before = rgba@;
        let color: [u8; 3] = if hist[i] == 0 {
            [0, 0, 0]
        } else {
            tones[i]
        };
        rgba.push(color[0]);
        rgba.push(color[1]);
        rgba.push(color[2]);
        rgba.push(255);
        assert forall|k: int| 0 <= k < i + 1 implies rgba@.subrange(4 * k, 4 * k + 4) == toned(
            #[trigger] hist@[k],
            tones@[k]@,
        ) by {
            if k < i {
                assert(rgba@.subrange(4 * k, 4 * k + 4) =~= before.subrange(4 * k, 4 * k + 4));
            } else {
                assert(rgba@.subrange(4 * k, 4 * k + 4) =~= toned(hist@[k], tones@[k]@));
            }
        }
        i += 1;
    }
    assert forall|i: int, k: int| 0 <= i < hist@.len() && 0 <= k < 4 implies #[trigger] rgba@[4 * i
        + k] == toned(hist@[i], tones@[i]@)[k] by {
        assert(rgba@.subrange(4 * i, 4 * i + 4)[k] == rgba@[4 * i + k]);
    }
    rgba
}

/// The greatest finite double.
pub const DOUBLE_MAX: u64 = 0x7FEF_FFFF_FFFF_FFFF;

/// The least finite double.
pub const DOUBLE_MIN: u64 = 0xFFEF_FFFF_FFFF_FFFF;

/// The least of some numbers, from a start.
pub open spec fn least(start: Double, values: Seq<Double>) -> Double
    decreases values.len(),
{
    if values.len() == 0 {
        start
    } else {
        least(start, values.drop_last()).min_num(values.last())
    }
}

/// The greatest of some numbers, from a start.
pub open spec fn greatest(start: Double, values: Seq<Double>) -> Double
    decreases values.len(),
{
    if values.len() == 0 {
        start
    } else {
        greatest(start, values.drop_last()).max_num(values.last())
    }
}

/// The x coordinates of some points.
pub open spec fn xs(points: Seq<Point>) -> Seq<Double> {
    points.map_values(|p: Point| p.x)
}

/// The y coordinates of some points.
pub open spec fn ys(points: Seq<Point>) -> Seq<Double> {
    points.map_values(|p: Point| p.y)
}

/// Bounding box of some points (min x, min y, max x, max y).
pub open spec fn extent(points: Seq<Point>) -> Seq<Double> {
    seq![
        least(Double { bits: DOUBLE_MAX }, xs(points)),
        least(Double { bits: DOUBLE_MAX }, ys(points)),
        greatest(Double { bits: DOUBLE_MIN }, xs(points)),
        greatest(Double { bits: DOUBLE_MIN }, ys(points)),
    ]
}

/// Neither coordinate has diverged.
pub open spec fn point_finite(p: Point) -> bool {
    p.x.finite() && p.y.finite()
}

pub(crate) proof fn lemma_least(start: Double, values: Seq<Double>)
    requires
        !start.nan(),
        forall|i: int| 0 <= i < values.len() ==> !(#[trigger] values[i]).nan(),
    ensures
        !least(start, values).nan(),
        forall|i: int| 0 <= i < values.len() ==> least(start, values).rank() <= (
        #[trigger] values[i]).rank(),
        least(start, values) == start || exists|i: int|
            0 <= i < values.len() && #[trigger] values[i] == least(start, values),
    decreases values.len(),
{
    if values.len() > 0 {
        let front = values.drop_last();
        assert forall|i: int| 0 <= i < front.len() implies !(#[trigger] front[i]).nan() by {
            assert(front[i] == values[i]);
        }
        lemma_least(start, front);
        assert(values.last() == values[values.len() - 1]);
        assert forall|i: int| 0 <= i < values.len() implies least(start, values).rank() <= (
        #[trigger] values[i]).rank() by {
            if i < front.len() {
                assert(front[i] == values[i]);
            }
        }
        if least(start, values) != start && least(start, values) != values.last() {
            let i = choose|i: int| 0 <= i < front.len() && #[trigger] front[i] == least(start, front);
            assert(values[i] == least(start, values));
        }
    }
}

pub(crate) proof fn lemma_greatest(start: Double, values: Seq<Double>)
    requires
        !start.nan(),
        forall|i: int| 0 <= i < values.len() ==> !(#[trigger] values[i]).nan(),
    ensures
        !greatest(start, values).nan(),
        forall|i: int| 0 <= i < values.len() ==> greatest(start, values).rank() >= (
        #[trigger] values[i]).rank(),
        greatest(start, values) == start || exists|i: int|
            0 <= i < values.len() && #[trigger] values[i] == greatest(start, values),
    decreases values.len(),
{
    if values.len() > 0 {
        let front = values.drop_last();
        assert forall|i: int| 0 <= i < front.len() implies !(#[trigger] front[i]).nan() by {
            assert(front[i] == values[i]);
        }
        lemma_greatest(start, front);
        assert(values.last() == values[values.len() - 1]);
        assert forall|i: int| 0 <= i < values.len() implies greatest(start, values).rank() >= (
        #[trigger] values[i]).rank() by {
            if i < front.len() {
                assert(front[i] == values[i]);
            }
        }
        if greatest(start, values) != start && greatest(start, values) != values.last() {
            let i = choose|i: int|
                0 <= i < front.len() && #[trigger] front[i] == greatest(start, front);
            assert(values[i] == greatest(start, values));
        }
    }
}

pub(crate) proof fn lemma_least_of_any(start: Double, values: Seq<Double>)
    ensures
        !start.nan() ==> !least(start, values).nan() && least(start, values).rank() <= start.rank(),
        forall|i: int|
            0 <= i < values.len() && !(#[trigger] values[i]).nan() ==> !least(start, values).nan()
                && least(start, values).rank() <= values[i].rank(),
        least(start, values) == start || exists|i: int|
            0 <= i < values.len() && #[trigger] values[i] == least(start, values),
    decreases values.len(),
{
    if values.len() > 0 {
        let front = values.drop_last();
        lemma_least_of_any(start, front);
        assert(values.last() == values[values.len() - 1]);
        assert forall|i: int|
            0 <= i < values.len() && !(#[trigger] values[i]).nan() implies !least(
            start,
            values,
        ).nan() && least(start, values).rank() <= values[i].rank() by {
            if i < front.len() {
                assert(front[i] == values[i]);
            }
        }
        if least(start, values) != start && least(start, values) != values.last() {
            let i = choose|i: int| 0 <= i < front.len() && #[trigger] front[i] == least(start, front);
            assert(values[i] == least(start, values));
        }
    }
}

pub(crate) proof fn lemma_greatest_of_any(start: Double, values: Seq<Double>)
    ensures
        !start.nan() ==> !greatest(start, values).nan() && greatest(start, values).rank()
            >= start.rank(),
        forall|i: int|
            0 <= i < values.len() && !(#[trigger] values[i]).nan() ==> !greatest(
                start,
                values,
            ).nan() && greatest(start, values).rank() >= values[i].rank(),
        greatest(start, values) == start || exists|i: int|
            0 <= i < values.len() && #[trigger] values[i] == greatest(start, values),
    decreases values.len(),
{
    if values.len() > 0 {
        let front = values.drop_last();
        lemma_greatest_of_any(start, front);
        assert(values.last() == values[values.len() - 1]);
        assert forall|i: int|
            0 <= i < values.len() && !(#[trigger] values[i]).nan() implies !greatest(
            start,
            values,
        ).nan() && greatest(start, values).rank() >= values[i].rank() by {
            if i < front.len() {
                assert(front[i] == values[i]);
            }
        }
        if greatest(start, values) != start && greatest(start, values) != values.last() {
            let i = choose|i: int|
                0 <= i < front.len() && #[trigger] front[i] == greatest(start, front);
            assert(values[i] == greatest(start, values));
        }
    }
}

/// Whatever points there are, a box covers those of their coordinates that are
/// numbers, and each of its sides is a coordinate of some point, or the end of
/// the finite doubles that it started from.
pub proof fn law_extent_passes_over_what_is_no_number(points: Seq<Point>)
    ensures
        forall|i: int|
            0 <= i < points.len() && !(#[trigger] points[i]).x.nan() ==> extent(points)[0].rank()
                <= points[i].x.rank() <= extent(points)[2].rank(),
        forall|i: int|
            0 <= i < points.len() && !(#[trigger] points[i]).y.nan() ==> extent(points)[1].rank()
                <= points[i].y.rank() <= extent(points)[3].rank(),
        forall|side: int| 0 <= side < 4 ==> !(#[trigger] extent(points)[side]).nan(),
        extent(points)[0].bits == 0x7FEF_FFFF_FFFF_FFFF || exists|i: int|
            0 <= i < points.len() && (#[trigger] points[i]).x == extent(points)[0],
        extent(points)[1].bits == 0x7FEF_FFFF_FFFF_FFFF || exists|i: int|
            0 <= i < points.len() && (#[trigger] points[i]).y == extent(points)[1],
        extent(points)[2].bits == 0xFFEF_FFFF_FFFF_FFFF || exists|i: int|
            0 <= i < points.len() && (#[trigger] points[i]).x == extent(points)[2],
        extent(points)[3].bits == 0xFFEF_FFFF_FFFF_FFFF || exists|i: int|
            0 <= i < points.len() && (#[trigger] points[i]).y == extent(points)[3],
{
    let (low, high) = (Double { bits: DOUBLE_MAX }, Double { bits: DOUBLE_MIN });
    let (x, y) = (xs(points), ys(points));
    lemma_least_of_any(low, x);
    lemma_least_of_any(low, y);
    lemma_greatest_of_any(high, x);
    lemma_greatest_of_any(high, y);
    assert forall|i: int| 0 <= i < points.len() implies x[i] == (#[trigger] points[i]).x && y[i]
        == points[i].y by {}
    if extent(points)[0] != low {
        let i = choose|i: int| 0 <= i < x.len() && #[trigger] x[i] == least(low, x);
        assert(points[i].x == x[i]);
    }
    if extent(points)[1] != low {
        let i = choose|i: int| 0 <= i < y.len() && #[trigger] y[i] == least(low, y);
        assert(points[i].y == y[i]);
    }
    if extent(points)[2] != high {
        let i = choose|i: int| 0 <= i < x.len() && #[trigger] x[i] == greatest(high, x);
        assert(points[i].x == x[i]);
    }
    if extent(points)[3] != high {
        let i = choose|i: int| 0 <= i < y.len() && #[trigger] y[i] == greatest(high, y);
        assert(points[i].y == y[i]);
    }
}

/// The box of finite points is finite and covers each of them.
pub proof fn law_extent_covers(points: Seq<Point>, i: int)
    requires
        0 <= i < points.len(),
        forall|k: int| 0 <= k < points.len() ==> point_finite(#[trigger] points[k]),
    ensures
        extent(points)[0].rank() <= points[i].x.rank() <= extent(points)[2].rank(),
        extent(points)[1].rank() <= points[i].y.rank() <= extent(points)[3].rank(),
        forall|side: int| 0 <= side < 4 ==> (#[trigger] extent(points)[side]).finite(),
{
    let (low, high) = (Double { bits: DOUBLE_MAX }, Double { bits: DOUBLE_MIN });
    assert forall|k: int| 0 <= k < points.len() implies (#[trigger] xs(points)[k]).finite() by {
        assert(point_finite(points[k]));
    }
    assert forall|k: int| 0 <= k < points.len() implies (#[trigger] ys(points)[k]).finite() by {
        assert(point_finite(points[k]));
    }
    lemma_least(low, xs(points));
    lemma_least(low, ys(points));
    lemma_greatest(high, xs(points));
    lemma_greatest(high, ys(points));
    assert(xs(points)[i] == points[i].x);
    assert(ys(points)[i] == points[i].y);
    assert(low.finite() && high.finite());
}

/// The box of finite points is no larger than it has to be: each side touches
/// one of them.
pub proof fn law_extent_is_tight(points: Seq<Point>)
    requires
        points.len() > 0,
        forall|k: int| 0 <= k < points.len() ==> point_finite(#[trigger] points[k]),
    ensures
        extent(points).len() == 4,
        exists|i: int|
            0 <= i < points.len() && (#[trigger] points[i]).x.rank() == extent(points)[0].rank(),
        exists|i: int|
            0 <= i < points.len() && (#[trigger] points[i]).y.rank() == extent(points)[1].rank(),
        exists|i: int|
            0 <= i < points.len() && (#[trigger] points[i]).x.rank() == extent(points)[2].rank(),
        exists|i: int|
            0 <= i < points.len() && (#[trigger] points[i]).y.rank() == extent(points)[3].rank(),
{
    let (low, high) = (Double { bits: DOUBLE_MAX }, Double { bits: DOUBLE_MIN });
    let (x, y) = (xs(points), ys(points));
    assert forall|k: int| 0 <= k < points.len() implies (#[trigger] x[k]).finite() by {
        assert(point_finite(points[k]));
    }
    assert forall|k: int| 0 <= k < points.len() implies (#[trigger] y[k]).finite() by {
        assert(point_finite(points[k]));
    }
    lemma_least(low, x);
    lemma_least(low, y);
    lemma_greatest(high, x);
    lemma_greatest(high, y);
    lemma_touched(low, x, least(low, x));
    lemma_touched(low, y, least(low, y));
    lemma_touched(high, x, greatest(high, x));
    lemma_touched(high, y, greatest(high, y));
    let i0 = choose|i: int| 0 <= i < x.len() && (#[trigger] x[i]).rank() == least(low, x).rank();
    let i1 = choose|i: int| 0 <= i < y.len() && (#[trigger] y[i]).rank() == least(low, y).rank();
    let i2 = choose|i: int|
        0 <= i < x.len() && (#[trigger] x[i]).rank() == greatest(high, x).rank();
    let i3 = choose|i: int|
        0 <= i < y.len() && (#[trigger] y[i]).rank() == greatest(high, y).rank();
    assert(points[i0].x == x[i0] && points[i1].y == y[i1]);
    assert(points[i2].x == x[i2] && points[i3].y == y[i3]);
}

proof fn lemma_touched(start: Double, values: Seq<Double>, side: Double)
    requires
        values.len() > 0,
        start.bits == DOUBLE_MAX || start.bits == DOUBLE_MIN,
        forall|i: int| 0 <= i < values.len() ==> (#[trigger] values[i]).finite(),
        side == start || exists|i: int| 0 <= i < values.len() && #[trigger] values[i] == side,
        start.bits == DOUBLE_MAX ==> forall|i: int|
            0 <= i < values.len() ==> side.rank() <= (#[trigger] values[i]).rank(),
        start.bits == DOUBLE_MIN ==> forall|i: int|
            0 <= i < values.len() ==> side.rank() >= (#[trigger] values[i]).rank(),
    ensures
        exists|i: int| 0 <= i < values.len() && (#[trigger] values[i]).rank() == side.rank(),
{
    assert(values[0].finite());
    if side == start {
        assert(values[0].rank() == side.rank());
    } else {
        let i = choose|i: int| 0 <= i < values.len() && #[trigger] values[i] == side;
        assert(values[i].rank() == side.rank());
    }
}

/// The bounding box of some points, or `None` where there are none.
pub fn bounding_box(points: &Vec<Point>) -> (r: Option<[Double; 4]>)
    ensures
        r is None <==> points@.len() == 0,
        r matches Some(b) ==> b@ == extent(points@),
{
    let mut min_x = Double { bits: DOUBLE_MAX };
    let mut min_y = Double { bits: DOUBLE_MAX };
    let mut max_x = Double { bits: DOUBLE_MIN };
    let mut max_y = Double { bits: DOUBLE_MIN };
    let mut i: usize = 0;
    while i < points.len()
        invariant
            i <= points.len(),
            seq![min_x, min_y, max_x, max_y] == extent(points@.take(i as int)),
        decreases points.len() - i,
    {
        let p = points[i];
        let ghost (now, next) = (points@.take(i as int), points@.take(i + 1));
        assert(xs(next).drop_last() =~= xs(now));
        assert(ys(next).drop_last() =~= ys(now));
        assert(seq![min_x, min_y, max_x, max_y][0] == min_x);
        assert(seq![min_x, min_y, max_x, max_y][1] == min_y);
        assert(seq![min_x, min_y, max_x, max_y][2] == max_x);
        assert(seq![min_x, min_y, max_x, max_y][3] == max_y);
        min_x = min_x.min(p.x);
        min_y = min_y.min(p.y);
        max_x = max_x.max(p.x);
        max_y = max_y.max(p.y);
        i += 1;
    }
    assert(points@.take(points@.len() as int) =~= points@);
    if points.len() > 0 {
        Some([min_x, min_y, max_x, max_y])
    } else {
        None
    }
}

/// The points of a trail that have not diverged.
pub fn finite_points(trail: &[Point]) -> (kept: Vec<Point>)
    ensures
        kept@ == trail@.filter(|p: Point| point_finite(p)),
{
    let mut kept: Vec<Point> = Vec::new();
    let mut i: usize = 0;
    let ghost keep = |p: Point| point_finite(p);
    assert(trail@.take(0).filter(keep) =~= Seq::<Point>::empty()) by {
        reveal(Seq::filter);
    }
    while i < trail.len()
        invariant
            i <= trail.len(),
            keep == (|p: Point| point_finite(p)),
            kept@ == trail@.take(i as int).filter(keep),
        decreases trail.len() - i,
    {
        let p = trail[i];
        assert(trail@.take(i + 1).drop_last() =~= trail@.take(i as int));
        assert(trail@.take(i + 1).last() == p);
        reveal(Seq::filter);
        if p.x.is_finite() && p.y.is_finite() {
            kept.push(p);
        }
        i += 1;
    }
    assert(trail@.take(trail@.len() as int) =~= trail@);
    kept
}

} // verus!
