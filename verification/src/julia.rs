//! The Julia preview: a small pane that shows the Julia set of the c under
//! the pointer.

use vstd::prelude::*;

use crate::float::Single;
use crate::ladder::{bounded, clamp_edge};
use crate::mandelbrot::{Pair, Uniforms, FORMULA_JULIA};
use crate::palette::Coloring;
use crate::session::{FractalRule, ViewState};

verus! {

/// Iteration cap of the preview (fixed: it never deep-zooms).
pub const PANE_ITERS: u32 = 300;

/// The bits of 1.7 in single precision, half the edge of the part of the plane
/// that the preview shows.
pub const PANE_HALF_EXTENT: u32 = 0x3FD9_999A;

/// The least edge of the preview in pixels.
pub const LEAST_PANE_EDGE: u32 = 64;

/// The greatest edge of the preview in pixels.
pub const GREATEST_PANE_EDGE: u32 = 1024;

/// What the preview's texture holds. The first c is not a number, so that it
/// is never the one that is asked for.
#[derive(Clone, Copy, Debug)]
pub struct Pane {
    pub rendered_c: Pair,
    pub coloring: Coloring,
    pub edge: u32,
}

/// The edge of the preview.
pub fn pane_edge(pixels: u32) -> (r: u32)
    ensures
        r == bounded(pixels, LEAST_PANE_EDGE, GREATEST_PANE_EDGE),
{
    clamp_edge(pixels, LEAST_PANE_EDGE, GREATEST_PANE_EDGE)
}

/// Whether a preview is shown: only beside the Mandelbrot set, and only if it
/// is wanted.
pub fn pane_wanted(view: &ViewState, show: bool) -> (r: bool)
    ensures
        r == (show && view.rule is Mandelbrot),
{
    show && matches!(view.rule, FractalRule::Mandelbrot)
}

/// The c that the preview shows: the one asked for, or else the last one;
/// none before the first.
pub open spec fn shown(asked: Option<Pair>, pane: Option<Pane>) -> Option<Pair> {
    match (asked, pane) {
        (Some(c), _) => Some(c),
        (None, Some(p)) => if p.rendered_c.x.finite() {
            Some(p.rendered_c)
        } else {
            None
        },
        (None, None) => None,
    }
}

/// A c that is asked for is shown; without one the last that was rendered
/// stays, if there was one.
pub proof fn law_the_preview_shows_what_is_asked_for(c: Pair, pane: Option<Pane>)
    ensures
        shown(Some(c), pane) == Some(c),
        pane matches Some(p) ==> shown(None, pane) == if p.rendered_c.x.finite() {
            Some(p.rendered_c)
        } else {
            None
        },
        shown(None, None) is None,
{
}

/// The c that the preview shows.
pub fn shown_c(asked: Option<Pair>, pane: Option<Pane>) -> (r: Option<Pair>)
    ensures
        r == shown(asked, pane),
{
    match (asked, pane) {
        (Some(c), _) => Some(c),
        (None, Some(p)) => if p.rendered_c.x.is_finite() {
            Some(p.rendered_c)
        } else {
            None
        },
        (None, None) => None,
    }
}

/// Whether the preview's textures have to be made anew.
pub fn needs_textures(pane: Option<Pane>, edge: u32) -> (r: bool)
    ensures
        r == !(pane matches Some(p) && p.edge == edge),
{
    match pane {
        Some(p) => p.edge != edge,
        None => true,
    }
}

impl Pane {
    /// A preview that has not been rendered.
    pub fn new(coloring: Coloring, edge: u32) -> (pane: Pane)
        ensures
            pane.rendered_c.x.nan() && pane.rendered_c.y.nan(),
            pane.coloring == coloring,
            pane.edge == edge,
    {
        let nan = Single { bits: 0x7FC0_0000 };
        Pane { rendered_c: Pair { x: nan, y: nan }, coloring, edge }
    }

    /// Whether the texture holds something else than what is asked for.
    pub fn outdated(&self, c: Pair, coloring: Coloring) -> (r: bool)
        ensures
            r == !(self.rendered_c.eq_num(c) && self.coloring.eq_num(coloring)),
    {
        !(self.rendered_c.equals(c) && self.coloring.equals(coloring))
    }
}

/// A preview that was just made is rendered, whatever is asked for.
pub proof fn law_the_first_preview_is_rendered(pane: Pane, c: Pair)
    requires
        pane.rendered_c.x.nan(),
    ensures
        !pane.rendered_c.eq_num(c),
{
}

/// The iteration pass of the preview.
pub fn pane_uniforms(c: Pair) -> (r: Uniforms)
    ensures
        r.julia_c == c,
        r.center == (Pair { x: Single { bits: 0 }, y: Single { bits: 0 } }),
        r.half_extent == (Pair {
            x: Single { bits: PANE_HALF_EXTENT },
            y: Single { bits: PANE_HALF_EXTENT },
        }),
        r.dc_offset == (Pair { x: Single { bits: 0 }, y: Single { bits: 0 } }),
        r.max_iter == PANE_ITERS,
        r.ref_len == 0,
        r.use_perturb == 0,
        r.formula == FORMULA_JULIA,
        r.power == 2,
{
    let zero = Pair { x: Single { bits: 0 }, y: Single { bits: 0 } };
    let half = Single { bits: PANE_HALF_EXTENT };
    Uniforms {
        center: zero,
        half_extent: Pair { x: half, y: half },
        dc_offset: zero,
        julia_c: c,
        max_iter: PANE_ITERS,
        ref_len: 0,
        use_perturb: 0,
        formula: FORMULA_JULIA,
        power: 2,
    }
}

} // verus!
