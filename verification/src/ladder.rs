//! Progressive rendering of escape-time views: a resolution ladder.
//!
//! A new view is first rendered at a quarter of the resolution; each following
//! frame climbs one rung, up to full resolution. Above a number of iterations a
//! rung is itself rendered in chunks, one a frame. A palette change only
//! re-colors what has been iterated.

use vstd::prelude::*;

use crate::float::Double;
use crate::mandelbrot::{ChunkParams, Uniforms};
use crate::palette::Coloring;

verus! {

/// Coarsest rung of the ladder (1/4 resolution).
pub const LADDER_START_LEVEL: u32 = 2;

/// Above this iteration cap, a rung renders in chunks of this many iterations
/// per frame instead of one long pass.
pub const CHUNK_ITERS: u32 = 2048;

/// The least edge of a canvas in pixels.
pub const LEAST_EDGE: u32 = 16;

/// The greatest edge of an escape-time canvas in pixels.
pub const GREATEST_EDGE: u32 = 8192;

/// The size of an image in pixels.
#[derive(Clone, Copy, Debug, PartialEq, Eq, Structural)]
pub struct Size {
    pub width: u32,
    pub height: u32,
}

/// The view on a ladder: what is iterated, and the full resolution.
#[derive(Clone, Copy, Debug, PartialEq, Eq, Structural)]
pub struct Key {
    pub uniforms: Uniforms,
    pub full: Size,
}

/// An edge within its bounds.
pub open spec fn bounded(edge: u32, least: u32, greatest: u32) -> u32 {
    if edge < least {
        least
    } else if edge > greatest {
        greatest
    } else {
        edge
    }
}

/// The full resolution of a canvas of some pixels.
pub fn full_size(width: u32, height: u32) -> (size: Size)
    ensures
        size.width == bounded(width, LEAST_EDGE, GREATEST_EDGE),
        size.height == bounded(height, LEAST_EDGE, GREATEST_EDGE),
{
    Size {
        width: clamp_edge(width, LEAST_EDGE, GREATEST_EDGE),
        height: clamp_edge(height, LEAST_EDGE, GREATEST_EDGE),
    }
}

/// An edge within its bounds.
pub fn clamp_edge(edge: u32, least: u32, greatest: u32) -> (r: u32)
    ensures
        r == bounded(edge, least, greatest),
{
    if edge < least {
        least
    } else if edge > greatest {
        greatest
    } else {
        edge
    }
}

/// An edge within its bounds stays; one beyond a bound becomes that bound.
pub proof fn law_only_edges_beyond_a_bound_change(edge: u32, least: u32, greatest: u32)
    requires
        least <= greatest,
    ensures
        least <= edge <= greatest ==> bounded(edge, least, greatest) == edge,
        edge <= least ==> bounded(edge, least, greatest) == least,
        edge >= greatest ==> bounded(edge, least, greatest) == greatest,
        LEAST_EDGE == 16 && GREATEST_EDGE == 8192,
{
}

/// An edge on a rung: halved once per level, at least one pixel.
pub open spec fn rung_edge(edge: u32, level: u32) -> int {
    let halved = edge as int / vstd::arithmetic::power2::pow2(level as nat) as int;
    if halved < 1 {
        1
    } else {
        halved
    }
}

/// The size of a rung.
pub fn rung_size(full: Size, level: u32) -> (size: Size)
    requires
        level <= LADDER_START_LEVEL,
    ensures
        size.width == rung_edge(full.width, level),
        size.height == rung_edge(full.height, level),
{
    proof {
        vstd::arithmetic::power2::lemma2_to64();
    }
    let divisor: u32 = if level == 0 {
        1
    } else if level == 1 {
        2
    } else {
        4
    };
    let (width, height): (u32, u32) = (full.width / divisor, full.height / divisor);
    Size {
        width: if width < 1 {
            1
        } else {
            width
        },
        height: if height < 1 {
            1
        } else {
            height
        },
    }
}

/// The rung of level 0 is the full edge, and each level above it has half the
/// pixels, rounded down, until one is left.
pub proof fn law_every_rung_halves_the_edge(edge: u32, level: u32)
    requires
        edge > 0,
        level < u32::MAX,
    ensures
        rung_edge(edge, 0) == edge,
        rung_edge(edge, level) >= 1,
        rung_edge(edge, level) >= 2 ==> rung_edge(edge, (level + 1) as u32) == rung_edge(
            edge,
            level,
        ) / 2,
        rung_edge(edge, level) == 1 ==> rung_edge(edge, (level + 1) as u32) == 1,
{
    let unit = vstd::arithmetic::power2::pow2(level as nat) as int;
    vstd::arithmetic::power2::lemma2_to64();
    vstd::arithmetic::power2::lemma_pow2_pos(level as nat);
    vstd::arithmetic::power2::lemma_pow2_unfold((level + 1) as nat);
    vstd::arithmetic::div_mod::lemma_div_denominator(edge as int, unit, 2);
    assert(unit * 2 == 2 * unit);
}

/// The chunks that a rung takes: none where one pass will do.
pub open spec fn chunks(max_iter: u32) -> int {
    if max_iter > CHUNK_ITERS {
        (max_iter + CHUNK_ITERS - 1) / (CHUNK_ITERS as int)
    } else {
        0
    }
}

/// A rung's chunks iterate every pixel as far as the cap, and not a chunk
/// further.
pub proof fn law_chunks_reach_the_cap(max_iter: u32)
    requires
        max_iter > CHUNK_ITERS,
    ensures
        chunks(max_iter) * CHUNK_ITERS >= max_iter,
        (chunks(max_iter) - 1) * CHUNK_ITERS < max_iter,
        chunks(max_iter) >= 2,
{
}

/// A rung is rendered in chunks only where its iterations do not fit into one.
pub proof fn law_few_iterations_take_no_chunks(max_iter: u32)
    ensures
        chunks(max_iter) == 0 <==> max_iter <= 2048,
        chunks(max_iter) >= 0,
        CHUNK_ITERS == 2048,
{
}

/// A render on its way up the ladder.
#[derive(Clone, Copy, Debug)]
pub struct Ladder {
    pub key: Key,
    pub coloring: Coloring,
    /// Current rung: the divisor is `2^level`, 0 is full resolution.
    pub level: u32,
    /// Chunks that the current rung still needs.
    pub chunks_left: u32,
    pub texture_size: Size,
}

/// What a frame does.
#[derive(Clone, Copy, Debug, PartialEq, Eq, Structural)]
pub enum Action {
    /// Start over on the rung of this level.
    StartRung(u32),
    /// Render the next chunk of the current rung.
    AdvanceJob,
    /// Only color again what is there.
    Recolor,
    Nothing,
}

/// What the renderer is asked for in a frame.
#[derive(Clone, Copy, Debug, PartialEq, Eq, Structural)]
pub enum Work {
    /// One chunk of iterations, then color.
    Chunk(ChunkParams),
    /// All iterations in one pass, then color.
    Whole,
    /// Color only.
    Color,
    Nothing,
}

/// The next frame of a render: the same view advances a chunk, climbs a rung,
/// or is colored again; a new view starts on the coarsest rung.
pub open spec fn next_action(current: Option<Ladder>, key: Key, coloring: Coloring) -> Action {
    match current {
        Some(l) if l.key == key => if l.chunks_left > 0 {
            Action::AdvanceJob
        } else if l.level > 0 {
            Action::StartRung((l.level - 1) as u32)
        } else if !l.coloring.eq_num(coloring) {
            Action::Recolor
        } else {
            Action::Nothing
        },
        _ => Action::StartRung(LADDER_START_LEVEL),
    }
}

/// The ladder as the renderer finds it: on a new rung where one is started.
pub open spec fn prepared(current: Option<Ladder>, key: Key, coloring: Coloring) -> Ladder {
    match next_action(current, key, coloring) {
        Action::StartRung(level) => Ladder {
            key,
            coloring,
            level,
            chunks_left: chunks(key.uniforms.max_iter) as u32,
            texture_size: Size {
                width: rung_edge(key.full.width, level) as u32,
                height: rung_edge(key.full.height, level) as u32,
            },
        },
        Action::Nothing => current->0,
        _ => Ladder { coloring, ..current->0 },
    }
}

/// What the renderer is asked for.
pub open spec fn next_work(current: Option<Ladder>, key: Key, coloring: Coloring) -> Work {
    let action = next_action(current, key, coloring);
    let l = prepared(current, key, coloring);
    if action is Nothing {
        Work::Nothing
    } else if action is Recolor {
        Work::Color
    } else if l.chunks_left > 0 {
        Work::Chunk(
            ChunkParams {
                width: l.texture_size.width,
                height: l.texture_size.height,
                chunk_iters: CHUNK_ITERS,
                reset: action is StartRung,
            },
        )
    } else {
        Work::Whole
    }
}

/// The ladder after a frame whose work was done.
pub open spec fn after_frame(current: Option<Ladder>, key: Key, coloring: Coloring) -> Ladder {
    let l = prepared(current, key, coloring);
    if next_work(current, key, coloring) is Chunk {
        Ladder { chunks_left: (l.chunks_left - 1) as u32, ..l }
    } else {
        l
    }
}

impl Ladder {
    /// The level is on the ladder, and chunks are left only of a rung that is
    /// rendered in chunks.
    pub open spec fn wf(self) -> bool {
        &&& self.level <= LADDER_START_LEVEL
        &&& self.chunks_left <= chunks(self.key.uniforms.max_iter)
    }

    /// The frames until the view is at full resolution.
    pub open spec fn frames_left(self) -> int {
        let per_rung = if chunks(self.key.uniforms.max_iter) > 0 {
            chunks(self.key.uniforms.max_iter)
        } else {
            1
        };
        self.chunks_left + self.level * per_rung
    }

    proof fn lemma_frames_left(self)
        ensures
            self.frames_left() >= 0,
            self.frames_left() > 0 <==> self.level > 0 || self.chunks_left > 0,
    {
        let per_rung = if chunks(self.key.uniforms.max_iter) > 0 {
            chunks(self.key.uniforms.max_iter)
        } else {
            1
        };
        assert(self.level * per_rung >= self.level) by (nonlinear_arith)
            requires
                self.level >= 0,
                per_rung >= 1,
        ;
        assert(0 * per_rung == 0) by (nonlinear_arith);
    }

    /// Whether another frame is needed at once.
    pub fn unfinished(&self) -> (r: bool)
        ensures
            r == (self.level > 0 || self.chunks_left > 0),
            r == (self.frames_left() > 0),
    {
        proof {
            self.lemma_frames_left();
        }
        self.level > 0 || self.chunks_left > 0
    }
}

/// Decide what this frame does.
pub fn choose_action(current: Option<Ladder>, key: Key, coloring: Coloring) -> (action: Action)
    ensures
        action == next_action(current, key, coloring),
{
    match current {
        Some(l) => if l.key == key {
            if l.chunks_left > 0 {
                Action::AdvanceJob
            } else if l.level > 0 {
                Action::StartRung(l.level - 1)
            } else if !l.coloring.equals(coloring) {
                Action::Recolor
            } else {
                Action::Nothing
            }
        } else {
            Action::StartRung(LADDER_START_LEVEL)
        },
        None => Action::StartRung(LADDER_START_LEVEL),
    }
}

/// One frame of a progressive render. `rendered` says whether the renderer is
/// there to do the work; without it a chunk stays to be done. Returns the
/// ladder, the work, and whether the textures have to be made anew.
pub fn advance(current: Option<Ladder>, key: Key, coloring: Coloring, rendered: bool) -> (r: (
    Ladder,
    Work,
    bool,
))
    requires
        current matches Some(l) ==> l.wf(),
    ensures
        r.0.wf(),
        r.0 == if rendered {
            after_frame(current, key, coloring)
        } else {
            prepared(current, key, coloring)
        },
        r.1 == if rendered {
            next_work(current, key, coloring)
        } else {
            Work::Nothing
        },
        r.2 == (next_action(current, key, coloring) is StartRung && !(current matches Some(l)
            && l.texture_size == r.0.texture_size)),
{
    let action = choose_action(current, key, coloring);
    let mut fresh = false;
    let mut ladder: Ladder = match action {
        Action::StartRung(level) => {
            let texture_size = rung_size(key.full, level);
            fresh = match current {
                Some(l) => l.texture_size != texture_size,
                None => true,
            };
            let max_iter: u32 = key.uniforms.max_iter;
            let chunks_left: u32 = if max_iter > CHUNK_ITERS {
                (max_iter - 1) / CHUNK_ITERS + 1
            } else {
                0
            };
            Ladder { key, coloring, level, chunks_left, texture_size }
        },
        Action::Nothing => match current {
            Some(l) => l,
            None => Ladder {
                key,
                coloring,
                level: 0,
                chunks_left: 0,
                texture_size: key.full,
            },
        },
        _ => match current {
            Some(l) => Ladder { coloring, ..l },
            None => Ladder {
                key,
                coloring,
                level: 0,
                chunks_left: 0,
                texture_size: key.full,
            },
        },
    };
    if !rendered {
        return (ladder, Work::Nothing, fresh);
    }
    let work = match action {
        Action::Nothing => Work::Nothing,
        Action::Recolor => Work::Color,
        _ => {
            if ladder.chunks_left > 0 {
                ladder.chunks_left = ladder.chunks_left - 1;
                let reset = matches!(action, Action::StartRung(_));
                Work::Chunk(
                    ChunkParams {
                        width: ladder.texture_size.width,
                        height: ladder.texture_size.height,
                        chunk_iters: CHUNK_ITERS,
                        reset,
                    },
                )
            } else {
                Work::Whole
            }
        },
    };
    (ladder, work, fresh)
}

/// Every frame brings a view that does not change one frame closer to full
/// resolution, and once there, nothing more is rendered.
pub proof fn law_the_ladder_is_climbed(l: Ladder, coloring: Coloring)
    requires
        l.wf(),
    ensures
        l.frames_left() > 0 ==> after_frame(Some(l), l.key, coloring).frames_left()
            == l.frames_left() - 1,
        l.frames_left() == 0 && l.coloring.eq_num(coloring) ==> next_action(
            Some(l),
            l.key,
            coloring,
        ) is Nothing,
        l.frames_left() >= 0,
{
    l.lemma_frames_left();
    let per_rung = if chunks(l.key.uniforms.max_iter) > 0 {
        chunks(l.key.uniforms.max_iter)
    } else {
        1
    };
    if l.chunks_left == 0 && l.level > 0 {
        assert((l.level - 1) * per_rung == l.level * per_rung - per_rung) by (nonlinear_arith);
    }
}

/// A view that does not change first has the chunks of its rung rendered, then
/// the rungs below it one by one, and then is only colored where the coloring
/// has changed.
pub proof fn law_a_view_that_stays_goes_on(l: Ladder, coloring: Coloring)
    ensures
        ({
            let action = next_action(Some(l), l.key, coloring);
            &&& l.chunks_left > 0 ==> action == Action::AdvanceJob
            &&& l.chunks_left == 0 && l.level > 0 ==> action == Action::StartRung(
                (l.level - 1) as u32,
            )
            &&& l.chunks_left == 0 && l.level == 0 && l.coloring.eq_num(coloring) ==> action
                == Action::Nothing
            &&& l.chunks_left == 0 && l.level == 0 && !l.coloring.eq_num(coloring) ==> action
                == Action::Recolor
        }),
{
}

/// A frame leaves a ladder of the view that was asked for, in the colors that
/// were asked for. On a new rung the image has the rung's size and all its
/// chunks ahead of it; on the same rung nothing changes but the chunk that was
/// rendered.
pub proof fn law_a_frame_renders_what_was_asked_for(
    current: Option<Ladder>,
    key: Key,
    coloring: Coloring,
)
    requires
        current matches Some(l) ==> l.wf(),
    ensures
        ({
            let action = next_action(current, key, coloring);
            let before = prepared(current, key, coloring);
            let after = after_frame(current, key, coloring);
            let work = next_work(current, key, coloring);
            &&& after.key == key && before.key == key
            &&& action !is Nothing ==> after.coloring == coloring && before.coloring == coloring
            &&& action is Nothing ==> current == Some(after)
            &&& action matches Action::StartRung(level) ==> {
                &&& after.level == level
                &&& after.texture_size.width == rung_edge(key.full.width, level)
                &&& after.texture_size.height == rung_edge(key.full.height, level)
                &&& before.chunks_left == chunks(key.uniforms.max_iter)
            }
            &&& action !is StartRung ==> {
                &&& current matches Some(l) && after.level == l.level && after.texture_size
                    == l.texture_size && before.chunks_left == l.chunks_left
            }
            &&& before.chunks_left > 0 ==> after.chunks_left == before.chunks_left - 1
            &&& before.chunks_left == 0 ==> after.chunks_left == 0
            &&& before.chunks_left > 0 <==> work is Chunk
            &&& work matches Work::Chunk(c) ==> {
                &&& c.width == after.texture_size.width && c.height == after.texture_size.height
                &&& c.chunk_iters == CHUNK_ITERS
                &&& c.reset <==> action is StartRung
            }
            &&& work is Whole <==> action is StartRung && chunks(key.uniforms.max_iter) == 0
            &&& work is Color <==> action is Recolor
            &&& work is Nothing <==> action is Nothing
        }),
{
    if let Action::StartRung(level) = next_action(current, key, coloring) {
        lemma_rung_fits(key.full.width, level);
        lemma_rung_fits(key.full.height, level);
    }
}

proof fn lemma_rung_fits(edge: u32, level: u32)
    ensures
        1 <= rung_edge(edge, level) <= u32::MAX,
{
    let unit = vstd::arithmetic::power2::pow2(level as nat) as int;
    vstd::arithmetic::power2::lemma_pow2_pos(level as nat);
    vstd::arithmetic::div_mod::lemma_div_is_ordered_by_denominator(edge as int, 1, unit);
}

/// A view change always starts on the coarsest rung, whatever was going on.
pub proof fn law_a_new_view_starts_over(current: Option<Ladder>, key: Key, coloring: Coloring)
    requires
        current matches Some(l) ==> l.key != key,
    ensures
        next_action(current, key, coloring) == Action::StartRung(LADDER_START_LEVEL),
        LADDER_START_LEVEL == 2,
{
}

/// A palette change alone iterates nothing again: a finished render is only
/// colored, an unfinished one goes on as it would have.
pub proof fn law_a_palette_change_iterates_nothing(l: Ladder, coloring: Coloring)
    requires
        l.wf(),
    ensures
        l.frames_left() == 0 ==> next_work(Some(l), l.key, coloring) is Color || next_work(
            Some(l),
            l.key,
            coloring,
        ) is Nothing,
        l.frames_left() > 0 ==> next_action(Some(l), l.key, coloring) == next_action(
            Some(l),
            l.key,
            l.coloring,
        ),
{
    l.lemma_frames_left();
}

/// Whether a frame only moves the image that is there: while the view is
/// dragged at an unchanged zoom.
pub fn pans_in_place(dragging: bool, rendered_at: Option<Double>, units_per_point: Double) -> (r:
    bool)
    ensures
        r == (dragging && (rendered_at matches Some(scale) && scale.eq_num(units_per_point))),
{
    match rendered_at {
        Some(scale) => dragging && scale.equals(units_per_point),
        None => false,
    }
}

} // verus!
