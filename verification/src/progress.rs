//! When a cached render is still good, and what a frame adds to it.
//!
//! Density plots develop over many frames; drawings and terrain are rendered
//! once. Each cache is kept with the view it was made for. Whatever changes
//! the picture starts it over; a palette change only colors it again.

use vstd::prelude::*;

use crate::attractor::Kind;
use crate::density::{
    batch, law_any_split_gives_one_plot, law_batches_compose, points_in, ready, run, Progress,
    Sample,
};
use crate::float::Double;
use crate::ifs::{maps_eq_num, maps_equal, AffineMap, IfsView};
use crate::lsystem::Rule;
use crate::palette::Coloring;
use crate::terrain::Params;

verus! {

/// Points added to a density plot per frame while it is filling in.
pub const POINTS_PER_FRAME: u64 = 1_000_000;

/// The least edge of a plot in pixels.
pub const LEAST_PLOT_EDGE: usize = 16;

/// The greatest edge of a plot in pixels.
pub const GREATEST_PLOT_EDGE: usize = 4096;

/// The most points of an exported chaos game.
pub const IFS_EXPORT_POINTS: u64 = 200_000_000;

/// The most points of an exported attractor.
pub const ATTRACTOR_EXPORT_POINTS: u64 = 500_000_000;

/// An edge of a plot within its bounds.
pub fn plot_edge(edge: usize) -> (r: usize)
    ensures
        LEAST_PLOT_EDGE <= r <= GREATEST_PLOT_EDGE,
        LEAST_PLOT_EDGE <= edge <= GREATEST_PLOT_EDGE ==> r == edge,
        edge < LEAST_PLOT_EDGE ==> r == LEAST_PLOT_EDGE,
        edge > GREATEST_PLOT_EDGE ==> r == GREATEST_PLOT_EDGE,
{
    if edge < LEAST_PLOT_EDGE {
        LEAST_PLOT_EDGE
    } else if edge > GREATEST_PLOT_EDGE {
        GREATEST_PLOT_EDGE
    } else {
        edge
    }
}

/// The points of an export: those scaled to its pixels, up to a most.
pub fn export_points(scaled: u64, most: u64) -> (r: u64)
    ensures
        r == if scaled < most {
            scaled
        } else {
            most
        },
{
    if scaled < most {
        scaled
    } else {
        most
    }
}

/// Where a render looks and how large it is.
#[derive(Clone, Copy, Debug, PartialEq, Eq, Structural)]
pub struct Placement {
    pub view: IfsView,
    pub width: usize,
    pub height: usize,
}

impl Placement {
    /// Numeric equality.
    pub open spec fn eq_num(self, other: Placement) -> bool {
        self.view.eq_num(other.view) && self.width == other.width && self.height == other.height
    }

    /// `==` on placements.
    pub fn equals(self, other: Placement) -> (r: bool)
        ensures
            r == self.eq_num(other),
    {
        self.view.equals(other.view) && self.width == other.width && self.height == other.height
    }
}

/// How far a density plot has come, and how it was last colored.
#[derive(Clone, Copy, Debug)]
pub struct Development {
    pub done: u64,
    pub coloring: Coloring,
}

/// What a frame does to a density plot: how many points to plot, and whether
/// to tone-map the histogram again.
#[derive(Clone, Copy, Debug, PartialEq, Eq, Structural)]
pub struct Batch {
    pub points: u64,
    pub retonemap: bool,
}

/// The points of the next frame: as many as a frame takes, and no more than
/// are missing.
pub open spec fn batch_points(done: u64, target: u64) -> u64 {
    if done >= target {
        0
    } else if target - done < POINTS_PER_FRAME {
        (target - done) as u64
    } else {
        POINTS_PER_FRAME
    }
}

/// A frame plots what is missing, but no more than a frame takes, and nothing
/// once nothing is missing.
pub proof fn law_a_frame_plots_what_is_missing(done: u64, target: u64)
    ensures
        done >= target ==> batch_points(done, target) == 0,
        done < target ==> 0 < batch_points(done, target) <= target - done,
        batch_points(done, target) <= POINTS_PER_FRAME,
        POINTS_PER_FRAME == 1_000_000,
        LEAST_PLOT_EDGE == 16 && GREATEST_PLOT_EDGE == 4096,
        done < target && batch_points(done, target) < POINTS_PER_FRAME ==> done + batch_points(
            done,
            target,
        ) == target,
{
}

/// Placements are equal in what they look at and in size.
pub proof fn law_placements_are_equal_in_every_part(a: Placement, b: Placement)
    ensures
        a.eq_num(b) <==> {
            &&& a.view.center.x.eq_num(b.view.center.x)
            &&& a.view.center.y.eq_num(b.view.center.y)
            &&& a.view.units_per_pixel.eq_num(b.view.units_per_pixel)
            &&& a.width == b.width
            &&& a.height == b.height
        },
{
}

impl Development {
    /// A plot that has not started.
    pub fn new(coloring: Coloring) -> (r: Development)
        ensures
            r.done == 0,
            r.coloring == coloring,
    {
        Development { done: 0, coloring }
    }

    /// One frame of a plot with `target` points.
    pub fn develop(&mut self, coloring: Coloring, target: u64) -> (batch: Batch)
        ensures
            batch.points == batch_points(old(self).done, target),
            batch.retonemap == (batch.points > 0 || !old(self).coloring.eq_num(coloring)),
            final(self).done == old(self).done + batch.points,
            final(self).coloring == if batch.retonemap {
                coloring
            } else {
                old(self).coloring
            },
    {
        let points: u64 = if self.done >= target {
            0
        } else if target - self.done < POINTS_PER_FRAME {
            target - self.done
        } else {
            POINTS_PER_FRAME
        };
        let retonemap = points > 0 || !self.coloring.equals(coloring);
        self.done = self.done + points;
        if retonemap {
            self.coloring = coloring;
        }
        Batch { points, retonemap }
    }

    /// Whether points are still missing.
    pub fn unfinished(&self, target: u64) -> (r: bool)
        ensures
            r == (self.done < target),
    {
        self.done < target
    }
}

/// The points after some frames.
pub open spec fn developed(done: u64, target: u64, frames: nat) -> u64
    decreases frames,
{
    if frames == 0 {
        done
    } else {
        let before = developed(done, target, (frames - 1) as nat);
        (before + batch_points(before, target)) as u64
    }
}

/// A plot never goes past its target, and reaches it: after `n` frames it has
/// what `n` frames can hold, or all there is.
pub proof fn law_plots_reach_their_target(done: u64, target: u64, frames: nat)
    requires
        done <= target,
    ensures
        developed(done, target, frames) == if done + frames * POINTS_PER_FRAME < target {
            done + frames * POINTS_PER_FRAME
        } else {
            target as int
        },
    decreases frames,
{
    if frames > 0 {
        law_plots_reach_their_target(done, target, (frames - 1) as nat);
        assert(frames * POINTS_PER_FRAME == (frames - 1) * POINTS_PER_FRAME + POINTS_PER_FRAME)
            by (nonlinear_arith);
    }
}

/// The batches of some frames.
pub open spec fn frame_batches(done: u64, target: u64, frames: nat) -> Seq<nat>
    decreases frames,
{
    if frames == 0 {
        seq![]
    } else {
        let before = developed(done, target, (frames - 1) as nat);
        frame_batches(done, target, (frames - 1) as nat).push(batch_points(before, target) as nat)
    }
}

proof fn lemma_one_more_batch(batches: Seq<nat>, points: nat)
    ensures
        points_in(batches.push(points)) == points_in(batches) + points,
    decreases batches.len(),
{
    let longer = batches.push(points);
    if batches.len() == 0 {
        assert(longer.drop_first() =~= batches);
    } else {
        lemma_one_more_batch(batches.drop_first(), points);
        assert(longer.drop_first() =~= batches.drop_first().push(points));
    }
}

proof fn lemma_frames_add_up(done: u64, target: u64, frames: nat)
    requires
        done <= target,
    ensures
        done <= developed(done, target, frames) <= target,
        points_in(frame_batches(done, target, frames)) == developed(done, target, frames) - done,
    decreases frames,
{
    if frames > 0 {
        let earlier = (frames - 1) as nat;
        lemma_frames_add_up(done, target, earlier);
        lemma_one_more_batch(
            frame_batches(done, target, earlier),
            batch_points(developed(done, target, earlier), target) as nat,
        );
    }
}

/// The plot in view is the plot at once: after any number of frames the
/// histogram is that of as many points as are done, whatever was recolored
/// meanwhile.
pub proof fn law_developed_plots_are_one_shot_plots(
    p: Progress,
    feeds: Seq<Seq<Sample>>,
    width: int,
    height: int,
    done: u64,
    target: u64,
    frames: nat,
)
    requires
        done <= target,
        ready(p, feeds, (target - done) as nat),
    ensures
        run(p, feeds, width, height, frame_batches(done, target, frames)) == batch(
            p,
            feeds,
            width,
            height,
            (developed(done, target, frames) - done) as nat,
        ),
{
    let reached = developed(done, target, frames);
    lemma_frames_add_up(done, target, frames);
    law_batches_compose(
        p,
        feeds,
        width,
        height,
        (reached - done) as nat,
        (target - reached) as nat,
    );
    law_any_split_gives_one_plot(
        p,
        feeds,
        width,
        height,
        frame_batches(done, target, frames),
    );
}

/// Whether the histogram of a chaos game can be kept. Lowering the target
/// below what is done also starts over, to stay deterministic.
pub fn ifs_plot_valid(
    placed: Placement,
    maps: &[AffineMap],
    done: u64,
    now: Placement,
    now_maps: &[AffineMap],
    target: u64,
) -> (r: bool)
    ensures
        r == (placed.eq_num(now) && maps_eq_num(maps@, now_maps@) && done <= target),
{
    placed.equals(now) && maps_equal(maps, now_maps) && done <= target
}

/// Numeric equality of attractor parameters.
pub open spec fn params_eq_num(a: [Double; 4], b: [Double; 4]) -> bool {
    a@[0].eq_num(b@[0]) && a@[1].eq_num(b@[1]) && a@[2].eq_num(b@[2]) && a@[3].eq_num(b@[3])
}

/// Attractor parameters are equal where all four are.
pub proof fn law_parameters_are_equal_one_by_one(a: [Double; 4], b: [Double; 4])
    ensures
        params_eq_num(a, b) <==> forall|i: int| 0 <= i < 4 ==> a@[i].eq_num(#[trigger] b@[i]),
{
    if !params_eq_num(a, b) {
        assert(!a@[0].eq_num(b@[0]) || !a@[1].eq_num(b@[1]) || !a@[2].eq_num(b@[2])
            || !a@[3].eq_num(b@[3]));
    }
}

/// `==` on attractor parameters.
pub fn params_equal(a: [Double; 4], b: [Double; 4]) -> (r: bool)
    ensures
        r == params_eq_num(a, b),
{
    a[0].equals(b[0]) && a[1].equals(b[1]) && a[2].equals(b[2]) && a[3].equals(b[3])
}

/// Whether the histogram of an attractor can be kept.
pub fn attractor_plot_valid(
    placed: Placement,
    kind: Kind,
    params: [Double; 4],
    done: u64,
    now: Placement,
    now_kind: Kind,
    now_params: [Double; 4],
    target: u64,
) -> (r: bool)
    ensures
        r == (placed.eq_num(now) && kind == now_kind && params_eq_num(params, now_params) && done
            <= target),
{
    kind == now_kind && params_equal(params, now_params) && placed.equals(now) && done <= target
}

/// Whether a terrain render can be kept.
pub fn terrain_valid(
    placed: Placement,
    params: Params,
    coloring: Coloring,
    now: Placement,
    now_params: Params,
    now_coloring: Coloring,
) -> (r: bool)
    ensures
        r == (placed.eq_num(now) && params.eq_num(now_params) && coloring.eq_num(now_coloring)),
{
    params.equals(now_params) && placed.equals(now) && coloring.equals(now_coloring)
}

/// The same rewrite rules.
pub open spec fn same_rules(a: Seq<Rule>, b: Seq<Rule>) -> bool {
    &&& a.len() == b.len()
    &&& forall|i: int|
        0 <= i < a.len() ==> (#[trigger] a[i]).symbol == b[i].symbol && a[i].replacement@
            == b[i].replacement@
}

/// `==` on rewrite rules.
pub fn rules_equal(a: &[Rule], b: &[Rule]) -> (r: bool)
    ensures
        r == same_rules(a@, b@),
{
    if a.len() != b.len() {
        return false;
    }
    let mut i: usize = 0;
    while i < a.len()
        invariant
            i <= a.len(),
            a.len() == b.len(),
            forall|k: int|
                0 <= k < i ==> (#[trigger] a@[k]).symbol == b@[k].symbol && a@[k].replacement@
                    == b@[k].replacement@,
        decreases a.len() - i,
    {
        if a[i].symbol != b[i].symbol || a[i].replacement != b[i].replacement {
            assert(a@[i as int].symbol != b@[i as int].symbol || a@[i as int].replacement@
                != b@[i as int].replacement@);
            return false;
        }
        i += 1;
    }
    true
}

/// An L-system: what is rewritten, how, how far, and the turtle's angle.
#[derive(Debug)]
pub struct System {
    pub start: String,
    pub rules: Vec<Rule>,
    pub angle_deg: Double,
    pub generations: u32,
}

impl System {
    /// The same system; the angle by its number.
    pub open spec fn same(&self, other: &System) -> bool {
        &&& self.start@ == other.start@
        &&& same_rules(self.rules@, other.rules@)
        &&& self.angle_deg.eq_num(other.angle_deg)
        &&& self.generations == other.generations
    }

    /// `==` on systems: whether a drawing's segments can be kept.
    pub fn equals(&self, other: &System) -> (r: bool)
        ensures
            r == self.same(other),
    {
        self.start == other.start && rules_equal(self.rules.as_slice(), other.rules.as_slice())
            && self.angle_deg.equals(other.angle_deg) && self.generations == other.generations
    }

    /// A copy of the system.
    pub fn copy(&self) -> (r: System)
        ensures
            r.start@ == self.start@,
            same_rules(r.rules@, self.rules@),
            r.angle_deg == self.angle_deg,
            r.generations == self.generations,
    {
        let mut rules: Vec<Rule> = Vec::new();
        let mut i: usize = 0;
        while i < self.rules.len()
            invariant
                i <= self.rules.len(),
                rules@.len() == i,
                forall|k: int|
                    0 <= k < i ==> (#[trigger] rules@[k]).symbol == self.rules@[k].symbol
                        && rules@[k].replacement@ == self.rules@[k].replacement@,
            decreases self.rules.len() - i,
        {
            rules.push(Rule::new(self.rules[i].symbol, self.rules[i].replacement.as_str()));
            i += 1;
        }
        System {
            start: self.start.clone(),
            rules,
            angle_deg: self.angle_deg,
            generations: self.generations,
        }
    }
}

/// Systems are the same in what they start from, in every rule, in their angle
/// and in their generations.
pub proof fn law_systems_are_the_same_in_every_part(a: System, b: System)
    ensures
        a.same(&b) <==> {
            &&& a.start@ == b.start@
            &&& a.rules@.len() == b.rules@.len()
            &&& forall|i: int|
                0 <= i < a.rules@.len() ==> (#[trigger] a.rules@[i]).symbol == b.rules@[i].symbol
                    && a.rules@[i].replacement@ == b.rules@[i].replacement@
            &&& a.angle_deg.eq_num(b.angle_deg)
            &&& a.generations == b.generations
        },
{
}

/// Whether the image of a drawing can be kept: it was made (`drawn` is where
/// and how), and nothing that it depends on has changed.
pub fn drawing_valid(
    drawn: Option<(Placement, Coloring)>,
    now: Placement,
    now_coloring: Coloring,
) -> (r: bool)
    ensures
        r == (drawn matches Some(d) && d.0.eq_num(now) && d.1.eq_num(now_coloring)),
{
    match drawn {
        Some((placed, coloring)) => placed.equals(now) && coloring.equals(now_coloring),
        None => false,
    }
}

} // verus!
