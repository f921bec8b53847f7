//! Exploring: what the controls and the pointer do to the view.
//!
//! Everything that a command decides is decided here; fitting a viewport to a
//! drawing, and turning pointer movement into numbers, is the caller's part,
//! because it computes with floating-point numbers.

use vstd::prelude::*;
use vstd::string::StringExecFns;
use vstd::utf8::encode_utf8;

use crate::attractor;
use crate::bigfloat::{
    adds_up, at_precision, big_difference, big_sum, binary_of, decimal_of, quote, quoted,
    scale_supported, takes_away, Real, PRECISION_LIMIT,
};
use crate::deep::{
    bad_coordinate, exact, in_binary, moved, nearest, precision_for, typed_bits, zoom_bits,
    BigComplex, ReferenceOrbit, GUARD_BITS,
};
use crate::float::{Double, Point, Single};
use crate::ifs;
use crate::lsystem;
use crate::mandelbrot::{
    Pair, Uniforms, FORMULA_JULIA, FORMULA_MANDELBROT, FORMULA_MULTIBROT,
};
use crate::session::{
    point_of, Family, FractalRule, ViewState, DEFAULT_ATTRACTOR_POINTS, DEFAULT_IFS_POINTS,
    DEFAULT_JULIA_X, DEFAULT_JULIA_Y, DEFAULT_MAX_ITER, MIN_UNITS_PER_POINT, SINGLE_ONE,
    ZOOM_OUT_LIMIT,
};
use crate::terrain;

verus! {

/// The power of a Multibrot set that was not set up otherwise.
pub const DEFAULT_POWER: u32 = 3;

/// What is known of the reference orbit that the renderer holds.
#[derive(Debug)]
pub struct OrbitCache {
    /// Reference point the orbit was computed at.
    pub reference: BigComplex,
    pub len: u32,
    pub escaped: bool,
    /// Iteration cap the orbit was computed for.
    pub for_max_iter: u32,
}

/// Text buffers for exact coordinate entry. While `dirty`, the user owns the
/// strings; otherwise they mirror the current view each frame.
#[derive(Debug)]
pub struct CoordEditor {
    pub re: String,
    pub im: String,
    pub zoom: String,
    pub dirty: bool,
}

/// What the viewport has to be fitted to.
#[derive(Clone, Copy, Debug, PartialEq, Eq, Structural)]
pub enum Refit {
    Nothing,
    Ifs,
    LSystem,
    Attractor,
}

/// The state of an exploration.
#[derive(Debug)]
pub struct Explorer {
    pub view: ViewState,
    pub coords: CoordEditor,
    pub orbit: Option<OrbitCache>,
    /// Pinned Julia-preview c; `None` tracks the pointer.
    pub julia_pin: Option<Point>,
    /// The canvas shows the journal instead of the fractal.
    pub journal_mode: bool,
}

/// White space: the characters with the Unicode property `White_Space`.
pub open spec fn white_space(c: char) -> bool {
    let code = c as u32;
    ||| 0x9 <= code <= 0xD
    ||| code == 0x20
    ||| code == 0x85
    ||| code == 0xA0
    ||| code == 0x1680
    ||| 0x2000 <= code <= 0x200A
    ||| 0x2028 <= code <= 0x2029
    ||| code == 0x202F
    ||| code == 0x205F
    ||| code == 0x3000
}

/// A text without white space at either end.
pub open spec fn trimmed(text: Seq<char>) -> Seq<char>
    decreases text.len(),
{
    if text.len() > 0 && white_space(text[0]) {
        trimmed(text.drop_first())
    } else if text.len() > 0 && white_space(text.last()) {
        trimmed(text.drop_last())
    } else {
        text
    }
}

/// `str::trim` of the standard library, whose white space is that of Unicode:
/// nothing is left of it at either end, and nothing else is taken away.
#[verifier::external_body]
fn trim(text: &String) -> (r: String)
    ensures
        r@ == trimmed(text@),
{
    text.trim().to_owned()
}

impl CoordEditor {
    /// Empty fields that mirror the view.
    pub fn new() -> (r: CoordEditor)
        ensures
            r.re@ == Seq::<char>::empty(),
            r.im@ == Seq::<char>::empty(),
            r.zoom@ == Seq::<char>::empty(),
            !r.dirty,
    {
        CoordEditor { re: String::new(), im: String::new(), zoom: String::new(), dirty: false }
    }

    /// Show the view's position, unless the fields hold typed text.
    pub fn mirror(&mut self, re: String, im: String, zoom: String)
        ensures
            final(self).dirty == old(self).dirty,
            !old(self).dirty ==> final(self).re == re && final(self).im == im && final(self).zoom
                == zoom,
            old(self).dirty ==> *final(self) == *old(self),
    {
        if !self.dirty {
            self.re = re;
            self.im = im;
            self.zoom = zoom;
        }
    }
}

/// What the coordinate fields ask for: the reason for a refusal, or nothing.
pub open spec fn zoom_refusal(text: Seq<char>, zoom: Option<Double>) -> Option<Seq<char>> {
    match zoom {
        None => Some("bad zoom "@ + quoted(trimmed(text))),
        Some(z) => if !z.finite() || z.rank() <= 0 {
            Some("zoom must be positive"@)
        } else {
            None
        },
    }
}

/// A scale within the zoom limits.
pub open spec fn limited_scale(scale: Double, coarsest: Double) -> Double {
    if scale.lt_num(Double { bits: MIN_UNITS_PER_POINT }) {
        Double { bits: MIN_UNITS_PER_POINT }
    } else if coarsest.lt_num(scale) {
        coarsest
    } else {
        scale
    }
}

/// Keep a scale within the zoom limits. The coarsest scale is at least that of
/// views at unit scale.
pub fn limit_scale(scale: Double, coarsest: Double) -> (r: Double)
    requires
        !coarsest.nan(),
        coarsest.rank() >= ZOOM_OUT_LIMIT,
    ensures
        r == limited_scale(scale, coarsest),
        r.rank() != 0,
        MIN_UNITS_PER_POINT <= scale.rank() <= coarsest.rank() ==> r == scale,
        !scale.nan() && scale.rank() < MIN_UNITS_PER_POINT ==> r.bits == MIN_UNITS_PER_POINT,
        !scale.nan() && scale.rank() > coarsest.rank() ==> r == coarsest,
{
    scale.clamp(Double { bits: MIN_UNITS_PER_POINT }, coarsest)
}

/// However far a view is zoomed, it stays between the finest and the coarsest
/// scale.
pub proof fn law_zoom_stays_within_limits(scale: Double, coarsest: Double)
    requires
        !scale.nan(),
        !coarsest.nan(),
        coarsest.rank() >= ZOOM_OUT_LIMIT,
    ensures
        MIN_UNITS_PER_POINT <= limited_scale(scale, coarsest).rank() <= coarsest.rank(),
{
}

/// A scale within the limits is left as it is, one beyond a limit becomes that
/// limit, and what is no number stays none.
pub proof fn law_only_scales_beyond_a_limit_change(scale: Double, coarsest: Double)
    requires
        !coarsest.nan(),
        coarsest.rank() >= MIN_UNITS_PER_POINT,
    ensures
        MIN_UNITS_PER_POINT <= scale.rank() <= coarsest.rank() ==> limited_scale(scale, coarsest)
            == scale,
        !scale.nan() && scale.rank() < MIN_UNITS_PER_POINT ==> limited_scale(scale, coarsest).bits
            == MIN_UNITS_PER_POINT,
        !scale.nan() && scale.rank() > coarsest.rank() ==> limited_scale(scale, coarsest)
            == coarsest,
        scale.nan() ==> limited_scale(scale, coarsest) == scale,
{
}

/// A zoom is taken where it is a finite number above zero; all others are
/// refused, each with its reason.
pub proof fn law_only_positive_zooms_are_taken(text: Seq<char>, zoom: Option<Double>)
    ensures
        zoom_refusal(text, zoom) is None <==> (zoom matches Some(z) && z.finite() && z.rank() > 0),
        zoom is None ==> zoom_refusal(text, zoom) == Some("bad zoom "@ + quoted(trimmed(text))),
        zoom is Some && zoom_refusal(text, zoom) is Some ==> zoom_refusal(text, zoom) == Some(
            "zoom must be positive"@,
        ),
{
}

/// Trimming takes white space off both ends and nothing else: what is left
/// stands in the text as it is, between white space, and neither starts nor
/// ends with any.
pub proof fn law_trimming_takes_white_space_off_the_ends(text: Seq<char>) -> (r: (int, int))
    ensures
        0 <= r.0 <= r.1 <= text.len(),
        trimmed(text) == text.subrange(r.0, r.1),
        forall|i: int| 0 <= i < r.0 ==> white_space(#[trigger] text[i]),
        forall|i: int| r.1 <= i < text.len() ==> white_space(#[trigger] text[i]),
        r.0 < r.1 ==> !white_space(text[r.0]) && !white_space(text[r.1 - 1]),
    decreases text.len(),
{
    if text.len() > 0 && white_space(text[0]) {
        let rest = text.drop_first();
        let (from, to) = law_trimming_takes_white_space_off_the_ends(rest);
        assert forall|i: int| 0 <= i < from + 1 implies white_space(#[trigger] text[i]) by {
            if i > 0 {
                assert(rest[i - 1] == text[i]);
            }
        }
        assert forall|i: int| to + 1 <= i < text.len() implies white_space(#[trigger] text[i]) by {
            assert(rest[i - 1] == text[i]);
        }
        assert(rest.subrange(from, to) =~= text.subrange(from + 1, to + 1));
        (from + 1, to + 1)
    } else if text.len() > 0 && white_space(text.last()) {
        let rest = text.drop_last();
        let (from, to) = law_trimming_takes_white_space_off_the_ends(rest);
        assert forall|i: int| 0 <= i < from implies white_space(#[trigger] text[i]) by {
            assert(rest[i] == text[i]);
        }
        assert forall|i: int| to <= i < text.len() implies white_space(#[trigger] text[i]) by {
            if i < rest.len() {
                assert(rest[i] == text[i]);
            }
        }
        assert(rest.subrange(from, to) =~= text.subrange(from, to));
        (from, to)
    } else {
        assert(text.subrange(0, text.len() as int) =~= text);
        (0, text.len() as int)
    }
}

/// White space is what separates words and lines: the tabs and feeds, the
/// blanks of all widths, and the separators of lines and paragraphs.
pub proof fn law_which_characters_are_white_space(c: char)
    ensures
        white_space(c) <==> {
            ||| c == '\u{9}' || c == '\u{a}' || c == '\u{b}' || c == '\u{c}' || c == '\u{d}'
            ||| c == '\u{20}' || c == '\u{85}' || c == '\u{a0}' || c == '\u{1680}'
            ||| '\u{2000}' <= c <= '\u{200a}'
            ||| c == '\u{2028}' || c == '\u{2029}' || c == '\u{202f}' || c == '\u{205f}'
            ||| c == '\u{3000}'
        },
{
}

/// The coarsest scale of a view: drawings can span thousands of units, so for
/// an L-system it is `drawing`, the scale at which the drawing still covers
/// some hundred points.
pub fn coarsest_scale(rule: &FractalRule, drawing: Option<Double>) -> (r: Double)
    ensures
        r == match (rule.family_of(), drawing) {
            (Family::LSystem, Some(scale)) => scale.max_num(Double { bits: ZOOM_OUT_LIMIT }),
            _ => Double { bits: ZOOM_OUT_LIMIT },
        },
        !r.nan(),
        r.rank() >= ZOOM_OUT_LIMIT,
{
    let limit = Double { bits: ZOOM_OUT_LIMIT };
    match rule.family() {
        Family::LSystem => match drawing {
            Some(scale) => scale.max(limit),
            None => limit,
        },
        _ => limit,
    }
}

impl Explorer {
    /// The first view of a session: the home view of the Mandelbrot set.
    pub fn new() -> (r: Explorer)
        ensures
            r.view.ready(),
            r.view.center.re@ == exact(Family::Mandelbrot.home_center().x),
            r.view.center.im@ == exact(Family::Mandelbrot.home_center().y),
            r.view.units_per_point.bits == Family::Mandelbrot.home_scale(),
            r.view.max_iter == DEFAULT_MAX_ITER,
            r.view.palette_freq.bits == SINGLE_ONE,
            r.view.palette_phase.bits == 0,
            r.view.palette is Classic,
            r.view.rule is Mandelbrot,
            r.coords.re@ == Seq::<char>::empty(),
            r.coords.im@ == Seq::<char>::empty(),
            r.coords.zoom@ == Seq::<char>::empty(),
            !r.coords.dirty,
            r.orbit is None,
            r.julia_pin is None,
            !r.journal_mode,
    {
        Explorer {
            view: ViewState::default(),
            coords: CoordEditor::new(),
            orbit: None,
            julia_pin: None,
            journal_mode: false,
        }
    }

    /// The texts of the coordinate fields, and whether the journal is shown,
    /// stay as they were.
    pub open spec fn kept_aside(&self, before: &Explorer) -> bool {
        &&& self.coords.re == before.coords.re
        &&& self.coords.im == before.coords.im
        &&& self.coords.zoom == before.coords.zoom
        &&& self.journal_mode == before.journal_mode
    }

    /// Choose a family. A family that is already shown stays as it is.
    /// Another one starts at its first preset or its home view; the orbit is
    /// dropped and typed coordinates are given up. Returns what the viewport
    /// has to be fitted to, and whether cached renders have to be dropped.
    pub fn select_family(&mut self, family: Family) -> (r: (Refit, bool))
        requires
            old(self).view.wf(),
        ensures
            final(self).view.wf(),
            final(self).kept_aside(old(self)),
            final(self).julia_pin == old(self).julia_pin,
            family == old(self).view.rule.family_of() ==> *final(self) == *old(self) && r == (
                Refit::Nothing,
                false,
            ),
            family != old(self).view.rule.family_of() ==> {
                &&& final(self).view.rule.family_of() == family
                &&& final(self).orbit is None
                &&& !final(self).coords.dirty
                &&& final(self).view.max_iter == old(self).view.max_iter
                &&& final(self).view.palette == old(self).view.palette
                &&& final(self).view.palette_freq == old(self).view.palette_freq
                &&& final(self).view.palette_phase == old(self).view.palette_phase
                &&& r.0 == match family {
                    Family::LSystem => Refit::LSystem,
                    Family::Attractor => Refit::Attractor,
                    _ => Refit::Nothing,
                }
                &&& r.1 == !(family is Ifs || family is LSystem || family is Attractor)
                &&& r.1 ==> {
                    &&& final(self).view.center.re@ == exact(family.home_center().x)
                    &&& final(self).view.center.im@ == exact(family.home_center().y)
                    &&& final(self).view.units_per_point.bits == family.home_scale()
                }
                &&& match final(self).view.rule {
                    FractalRule::Multibrot { power } => power == DEFAULT_POWER,
                    FractalRule::Julia { c } => c == point_of(DEFAULT_JULIA_X, DEFAULT_JULIA_Y),
                    FractalRule::Terrain(p) => p == (terrain::Params {
                        seed: 1,
                        hurst: Double { bits: terrain::DEFAULT_HURST },
                        octaves: 8,
                        clouds: false,
                    }),
                    FractalRule::Ifs { maps, points } => maps@ == ifs::sierpinski() && points
                        == DEFAULT_IFS_POINTS,
                    FractalRule::LSystem(s) => {
                        &&& s.start@ == "F--F--F"@
                        &&& s.rules@.len() == 1
                        &&& s.rules@[0].symbol == 'F'
                        &&& s.rules@[0].replacement@ == "F+F--F+F"@
                        &&& s.angle_deg.bits == 0x404E_0000_0000_0000
                        &&& s.generations == 4
                    },
                    FractalRule::Attractor { kind, params, points } => {
                        &&& kind is Clifford
                        &&& params@[0].bits == 0xBFF6_6666_6666_6666
                        &&& params@[1].bits == 0x3FF9_9999_9999_999A
                        &&& params@[2].bits == 0x3FF0_0000_0000_0000
                        &&& params@[3].bits == 0x3FE6_6666_6666_6666
                        &&& points == DEFAULT_ATTRACTOR_POINTS
                    },
                    FractalRule::Mandelbrot => true,
                }
                &&& family is Ifs ==> {
                    &&& final(self).view.center.re@ == exact(family.home_center().x)
                    &&& final(self).view.center.im@ == exact(family.home_center().y)
                    &&& final(self).view.units_per_point.bits == family.home_scale()
                }
                &&& family is LSystem || family is Attractor ==> {
                    &&& final(self).view.center == old(self).view.center
                    &&& final(self).view.units_per_point == old(self).view.units_per_point
                }
            },
    {
        if family == self.view.rule.family() {
            return (Refit::Nothing, false);
        }
        self.orbit = None;
        self.coords.dirty = false;
        match family {
            Family::Ifs => {
                let presets = ifs::presets();
                self.view.apply_preset(&presets[0]);
                (Refit::Nothing, false)
            },
            Family::LSystem => {
                let presets = lsystem::presets();
                self.view.apply_lsystem_preset(&presets[0]);
                (Refit::LSystem, false)
            },
            Family::Attractor => {
                let presets = attractor::presets();
                self.view.apply_attractor_preset(&presets[0]);
                (Refit::Attractor, false)
            },
            _ => {
                self.view.rule = match family {
                    Family::Multibrot => FractalRule::Multibrot { power: DEFAULT_POWER },
                    Family::Julia => FractalRule::Julia {
                        c: Point {
                            x: Double { bits: DEFAULT_JULIA_X },
                            y: Double { bits: DEFAULT_JULIA_Y },
                        },
                    },
                    Family::Terrain => FractalRule::Terrain(terrain::Params::default()),
                    _ => FractalRule::Mandelbrot,
                };
                self.view.go_home();
                (Refit::Nothing, true)
            },
        }
    }

    /// Back to the whole picture: plots and drawings are to be fitted, the
    /// other families go to their home view.
    pub fn reset_view(&mut self) -> (refit: Refit)
        requires
            old(self).view.wf(),
        ensures
            final(self).view.wf(),
            final(self).kept_aside(old(self)),
            final(self).julia_pin == old(self).julia_pin,
            final(self).coords.dirty == old(self).coords.dirty,
            final(self).orbit is None,
            final(self).view.rule == old(self).view.rule,
            final(self).view.max_iter == old(self).view.max_iter,
            final(self).view.palette == old(self).view.palette,
            final(self).view.palette_freq == old(self).view.palette_freq,
            final(self).view.palette_phase == old(self).view.palette_phase,
            refit == match old(self).view.rule.family_of() {
                Family::Ifs => Refit::Ifs,
                Family::LSystem => Refit::LSystem,
                Family::Attractor => Refit::Attractor,
                _ => Refit::Nothing,
            },
            refit is Nothing ==> {
                &&& final(self).view.center.re@ == exact(
                    old(self).view.rule.family_of().home_center().x,
                )
                &&& final(self).view.center.im@ == exact(
                    old(self).view.rule.family_of().home_center().y,
                )
                &&& final(self).view.units_per_point.bits
                    == old(self).view.rule.family_of().home_scale()
            },
            refit !is Nothing ==> final(self).view.center == old(self).view.center,
            refit !is Nothing ==> final(self).view.units_per_point == old(self).view.units_per_point,
    {
        self.orbit = None;
        match self.view.rule.family() {
            Family::Ifs => Refit::Ifs,
            Family::LSystem => Refit::LSystem,
            Family::Attractor => Refit::Attractor,
            _ => {
                self.view.go_home();
                Refit::Nothing
            },
        }
    }

    /// Promote a previewed c to the full Julia family at its home view.
    pub fn open_julia_view(&mut self, c: Point)
        ensures
            final(self).view.wf(),
            final(self).kept_aside(old(self)),
            final(self).view.rule == (FractalRule::Julia { c }),
            final(self).view.center.re@ == exact(Family::Julia.home_center().x),
            final(self).view.center.im@ == exact(Family::Julia.home_center().y),
            final(self).view.units_per_point.bits == Family::Julia.home_scale(),
            final(self).view.max_iter == old(self).view.max_iter,
            final(self).view.palette == old(self).view.palette,
            final(self).view.palette_freq == old(self).view.palette_freq,
            final(self).view.palette_phase == old(self).view.palette_phase,
            final(self).orbit is None,
            final(self).julia_pin is None,
            !final(self).coords.dirty,
    {
        self.view.rule = FractalRule::Julia { c };
        self.view.go_home();
        self.orbit = None;
        self.julia_pin = None;
        self.coords.dirty = false;
    }

    /// Show a bookmarked view.
    pub fn apply_bookmark(&mut self, view: ViewState)
        ensures
            final(self).kept_aside(old(self)),
            final(self).view == view,
            final(self).orbit is None,
            final(self).julia_pin == old(self).julia_pin,
            !final(self).coords.dirty,
    {
        self.view = view;
        self.orbit = None;
        self.coords.dirty = false;
    }

    /// Move the center by an offset in the plane.
    pub fn pan(&mut self, dre: Double, dim: Double)
        requires
            old(self).view.ready(),
            dre.finite(),
            dim.finite(),
        ensures
            final(self).view.wf(),
            final(self).kept_aside(old(self)),
            final(self).coords == old(self).coords,
            final(self).orbit == old(self).orbit,
            final(self).julia_pin == old(self).julia_pin,
            final(self).view.units_per_point == old(self).view.units_per_point,
            final(self).view.rule == old(self).view.rule,
            final(self).view.max_iter == old(self).view.max_iter,
            final(self).view.palette == old(self).view.palette,
            final(self).view.palette_freq == old(self).view.palette_freq,
            final(self).view.palette_phase == old(self).view.palette_phase,
            ({
                let precision = (zoom_bits(old(self).view.units_per_point) + GUARD_BITS) as nat;
                &&& final(self).view.center.re@ == at_precision(
                    big_sum(old(self).view.center.re@, exact(dre)),
                    precision,
                )
                &&& final(self).view.center.im@ == at_precision(
                    big_sum(old(self).view.center.im@, exact(dim)),
                    precision,
                )
                &&& adds_up(
                    big_sum(old(self).view.center.re@, exact(dre)),
                    old(self).view.center.re@,
                    exact(dre),
                )
                &&& adds_up(
                    big_sum(old(self).view.center.im@, exact(dim)),
                    old(self).view.center.im@,
                    exact(dim),
                )
                &&& forall|unit: int|
                    #[trigger] moved(
                        final(self).view.center.re@,
                        old(self).view.center.re@,
                        exact(dre),
                        precision,
                        unit,
                    )
                &&& forall|unit: int|
                    #[trigger] moved(
                        final(self).view.center.im@,
                        old(self).view.center.im@,
                        exact(dim),
                        precision,
                        unit,
                    )
            }),
    {
        let precision: usize = precision_for(self.view.units_per_point);
        self.view.center.offset(dre, dim, precision);
    }

    /// Zoom to another scale, moving the center by an offset that keeps the
    /// point under the pointer in place.
    pub fn zoom(&mut self, units_per_point: Double, dre: Double, dim: Double)
        requires
            old(self).view.ready(),
            units_per_point.rank() != 0,
            dre.finite(),
            dim.finite(),
        ensures
            final(self).view.wf(),
            final(self).kept_aside(old(self)),
            final(self).coords == old(self).coords,
            final(self).orbit == old(self).orbit,
            final(self).julia_pin == old(self).julia_pin,
            final(self).view.units_per_point == units_per_point,
            final(self).view.rule == old(self).view.rule,
            final(self).view.max_iter == old(self).view.max_iter,
            final(self).view.palette == old(self).view.palette,
            final(self).view.palette_freq == old(self).view.palette_freq,
            final(self).view.palette_phase == old(self).view.palette_phase,
            ({
                let precision = (zoom_bits(units_per_point) + GUARD_BITS) as nat;
                &&& final(self).view.center.re@ == at_precision(
                    big_sum(old(self).view.center.re@, exact(dre)),
                    precision,
                )
                &&& final(self).view.center.im@ == at_precision(
                    big_sum(old(self).view.center.im@, exact(dim)),
                    precision,
                )
                &&& adds_up(
                    big_sum(old(self).view.center.re@, exact(dre)),
                    old(self).view.center.re@,
                    exact(dre),
                )
                &&& adds_up(
                    big_sum(old(self).view.center.im@, exact(dim)),
                    old(self).view.center.im@,
                    exact(dim),
                )
                &&& forall|unit: int|
                    #[trigger] moved(
                        final(self).view.center.re@,
                        old(self).view.center.re@,
                        exact(dre),
                        precision,
                        unit,
                    )
                &&& forall|unit: int|
                    #[trigger] moved(
                        final(self).view.center.im@,
                        old(self).view.center.im@,
                        exact(dim),
                        precision,
                        unit,
                    )
            }),
    {
        let precision: usize = precision_for(units_per_point);
        self.view.center.offset(dre, dim, precision);
        self.view.units_per_point = units_per_point;
    }
}

impl OrbitCache {
    /// The reference point can be computed with.
    pub open spec fn wf(&self) -> bool {
        self.reference.wf() && self.reference.in_range()
    }
}

/// Whether a reference orbit cannot serve: there is none, the view has left
/// its neighborhood, or it is too short (one that escaped never is).
pub open spec fn stale(orbit: Option<OrbitCache>, drifted: bool, max_iter: u32) -> bool {
    match orbit {
        None => true,
        Some(cache) => drifted || (max_iter > cache.for_max_iter && !cache.escaped),
    }
}

impl Explorer {
    /// Everything but the orbit and the center's precision.
    pub open spec fn same_view(&self, before: &Explorer) -> bool {
        &&& self.kept_aside(before)
        &&& self.coords == before.coords
        &&& self.julia_pin == before.julia_pin
        &&& self.view.units_per_point == before.view.units_per_point
        &&& self.view.max_iter == before.view.max_iter
        &&& self.view.palette == before.view.palette
        &&& self.view.palette_freq == before.view.palette_freq
        &&& self.view.palette_phase == before.view.palette_phase
        &&& self.view.rule == before.view.rule
    }

    /// Give the center the precision that the zoom asks for, and return that
    /// precision. A center that has it stays as it is.
    pub fn sharpen_center(&mut self) -> (precision: usize)
        requires
            old(self).view.ready(),
        ensures
            precision == zoom_bits(old(self).view.units_per_point) + GUARD_BITS,
            final(self).view.wf(),
            final(self).same_view(old(self)),
            final(self).orbit == old(self).orbit,
            old(self).view.center.re@.precision >= precision ==> final(self).view.center
                == old(self).view.center,
            old(self).view.center.re@.precision < precision ==> {
                &&& final(self).view.center.re@ == at_precision(
                    old(self).view.center.re@,
                    precision as nat,
                )
                &&& final(self).view.center.im@ == at_precision(
                    old(self).view.center.im@,
                    precision as nat,
                )
                &&& final(self).view.center.re@.significand
                    == old(self).view.center.re@.significand
                &&& final(self).view.center.re@.exponent == old(self).view.center.re@.exponent
            },
    {
        let precision: usize = precision_for(self.view.units_per_point);
        if self.view.center.re.precision() < precision {
            self.view.center.set_precision(precision);
        }
        precision
    }

    /// How far the view is from the reference point; `None` without one.
    pub fn drift(&self) -> (r: Option<Point>)
        requires
            self.view.ready(),
            self.orbit matches Some(cache) ==> cache.wf(),
        ensures
            match (self.orbit, r) {
                (Some(cache), Some(d)) => {
                    &&& d.x == nearest(
                        big_difference(self.view.center.re@, cache.reference.re@),
                    )
                    &&& d.y == nearest(
                        big_difference(self.view.center.im@, cache.reference.im@),
                    )
                    &&& takes_away(
                        big_difference(self.view.center.re@, cache.reference.re@),
                        self.view.center.re@,
                        cache.reference.re@,
                    )
                    &&& takes_away(
                        big_difference(self.view.center.im@, cache.reference.im@),
                        self.view.center.im@,
                        cache.reference.im@,
                    )
                    &&& self.view.center.re@ == cache.reference.re@ && self.view.center.im@
                        == cache.reference.im@ ==> d.x.bits == 0 && d.y.bits == 0
                },
                (None, None) => true,
                _ => false,
            },
    {
        match &self.orbit {
            Some(cache) => Some(self.view.center.sub_to_f64(&cache.reference)),
            None => None,
        }
    }

    /// Whether the reference orbit has to be computed again.
    pub fn orbit_stale(&self, drifted: bool) -> (r: bool)
        ensures
            r == stale(self.orbit, drifted, self.view.max_iter),
    {
        match &self.orbit {
            None => true,
            Some(cache) => drifted || (self.view.max_iter > cache.for_max_iter && !cache.escaped),
        }
    }

    /// Remember the orbit that was computed for this view. It is not stale.
    pub fn keep_orbit(&mut self, orbit: &ReferenceOrbit)
        requires
            old(self).view.ready(),
            orbit.points@.len() <= u32::MAX,
        ensures
            final(self).same_view(old(self)),
            final(self).view.center == old(self).view.center,
            final(self).orbit matches Some(cache) && {
                &&& cache.wf()
                &&& cache.reference.re@ == old(self).view.center.re@
                &&& cache.reference.im@ == old(self).view.center.im@
                &&& cache.len == orbit.points@.len()
                &&& cache.escaped == orbit.escaped
                &&& cache.for_max_iter == old(self).view.max_iter
            },
            !stale(final(self).orbit, false, final(self).view.max_iter),
    {
        let cache = OrbitCache {
            reference: self.view.center.clone(),
            len: orbit.points.len() as u32,
            escaped: orbit.escaped,
            for_max_iter: self.view.max_iter,
        };
        self.orbit = Some(cache);
    }

    /// The iteration pass of this view. `center` and `half_extent` frame it,
    /// `dc_offset` is the way from the reference point to the center, and
    /// `julia_c` the Julia constant; where they do not apply they are not
    /// used.
    pub fn uniforms(
        &self,
        center: Pair,
        half_extent: Pair,
        dc_offset: Pair,
        julia_c: Pair,
    ) -> (r: Uniforms)
        ensures
            r.center == center,
            r.half_extent == half_extent,
            r.max_iter == self.view.max_iter,
            self.orbit is Some && self.view.perturbed() ==> r.use_perturb == 1 && r.dc_offset
                == dc_offset && r.ref_len == (self.orbit->0).len,
            !(self.orbit is Some && self.view.perturbed()) ==> r.use_perturb == 0 && r.dc_offset
                == zero_pair() && r.ref_len == 0,
            match self.view.rule {
                FractalRule::Multibrot { power } => r.formula == FORMULA_MULTIBROT && r.power == (
                if power < 2 {
                    2
                } else {
                    power as int
                }) && r.julia_c == zero_pair(),
                FractalRule::Julia { .. } => r.formula == FORMULA_JULIA && r.power == 2
                    && r.julia_c == julia_c,
                _ => r.formula == FORMULA_MANDELBROT && r.power == 2 && r.julia_c == zero_pair(),
            },
    {
        let zero = Pair { x: Single { bits: 0 }, y: Single { bits: 0 } };
        let perturbed = self.view.perturbation_active();
        let (use_perturb, offset, ref_len): (u32, Pair, u32) = match &self.orbit {
            Some(cache) => if perturbed {
                (1, dc_offset, cache.len)
            } else {
                (0, zero, 0)
            },
            None => (0, zero, 0),
        };
        let (formula, power, constant): (u32, u32, Pair) = match &self.view.rule {
            FractalRule::Multibrot { power } => (
                FORMULA_MULTIBROT,
                if *power < 2 {
                    2
                } else {
                    *power
                },
                zero,
            ),
            FractalRule::Julia { .. } => (FORMULA_JULIA, 2, julia_c),
            _ => (FORMULA_MANDELBROT, 2, zero),
        };
        Uniforms {
            center,
            half_extent,
            dc_offset: offset,
            julia_c: constant,
            max_iter: self.view.max_iter,
            ref_len,
            use_perturb,
            formula,
            power,
        }
    }
}

/// Two zeros.
pub open spec fn zero_pair() -> Pair {
    Pair { x: Single { bits: 0 }, y: Single { bits: 0 } }
}

/// Both components of a zero pair are zero.
pub proof fn law_a_zero_pair_is_zero()
    ensures
        zero_pair().x.bits == 0,
        zero_pair().y.bits == 0,
{
}

/// Where typed coordinates lead: a center and a scale, or the reason for a
/// refusal.
pub open spec fn typed_view(
    re: Seq<char>,
    im: Seq<char>,
    zoom_text: Seq<char>,
    zoom: Option<Double>,
    scale: Double,
) -> Result<(Real, Real, Double), Seq<char>> {
    match zoom_refusal(zoom_text, zoom) {
        Some(reason) => Err(reason),
        None => {
            let upp = limited_scale(scale, Double { bits: ZOOM_OUT_LIMIT });
            let (x, y) = (trimmed(re), trimmed(im));
            let least = (zoom_bits(upp) + GUARD_BITS) as nat;
            let precision = if typed_bits(x, y) > least {
                typed_bits(x, y)
            } else {
                least
            };
            if !scale_supported(x) || !scale_supported(y) || precision > PRECISION_LIMIT {
                Err("coordinates are out of range"@)
            } else {
                match (decimal_of(x), decimal_of(y)) {
                    (Ok(a), Ok(b)) => Ok((in_binary(a, precision), in_binary(b, precision), upp)),
                    (Err(e), _) => Err(bad_coordinate(x, e)),
                    (_, Err(e)) => Err(bad_coordinate(y, e)),
                }
            }
        },
    }
}

impl Explorer {
    /// Jump to the coordinates that were typed. `zoom` is the number in the
    /// zoom field, `None` where it is none, and `scale` the units per point
    /// at that zoom. Returns the message for the status line; a refused entry
    /// changes nothing else.
    pub fn apply_coords(&mut self, zoom: Option<Double>, scale: Double) -> (status: String)
        requires
            old(self).view.wf(),
        ensures
            final(self).view.wf(),
            final(self).kept_aside(old(self)),
            final(self).julia_pin == old(self).julia_pin,
            match typed_view(
                old(self).coords.re@,
                old(self).coords.im@,
                old(self).coords.zoom@,
                zoom,
                scale,
            ) {
                Ok((re, im, upp)) => {
                    &&& final(self).view.center.re@ == re
                    &&& final(self).view.center.im@ == im
                    &&& final(self).view.units_per_point == upp
                    &&& final(self).view.max_iter == old(self).view.max_iter
                    &&& final(self).view.palette == old(self).view.palette
                    &&& final(self).view.palette_freq == old(self).view.palette_freq
                    &&& final(self).view.palette_phase == old(self).view.palette_phase
                    &&& final(self).view.rule == old(self).view.rule
                    &&& final(self).orbit is None
                    &&& !final(self).coords.dirty
                    &&& status@ == "Jumped to entered coordinates"@
                },
                Err(reason) => {
                    &&& *final(self) == *old(self)
                    &&& status@ == "Invalid coordinates: "@ + reason
                },
            },
    {
        let mut status: String = "Invalid coordinates: ".to_owned();
        let positive = match zoom {
            None => {
                status.append("bad zoom ");
                status.append(quote(trim(&self.coords.zoom).as_str()).as_str());
                assert(status@ =~= "Invalid coordinates: "@ + ("bad zoom "@ + quoted(
                    trimmed(self.coords.zoom@),
                )));
                return status;
            },
            Some(z) => z.is_finite() && Double { bits: 0 }.less_than(z),
        };
        if !positive {
            status.append("zoom must be positive");
            return status;
        }
        let upp = limit_scale(scale, Double { bits: ZOOM_OUT_LIMIT });
        let re = trim(&self.coords.re);
        let im = trim(&self.coords.im);
        match BigComplex::from_text(re.as_str(), im.as_str(), precision_for(upp)) {
            None => {
                status.append("coordinates are out of range");
                status
            },
            Some(Err(reason)) => {
                status.append(reason.as_str());
                status
            },
            Some(Ok(center)) => {
                self.view.center = center;
                self.view.units_per_point = upp;
                self.orbit = None;
                self.coords.dirty = false;
                "Jumped to entered coordinates".to_owned()
            },
        }
    }

    /// Give up typed coordinates: the fields mirror the view again.
    pub fn revert_coords(&mut self)
        ensures
            !final(self).coords.dirty,
            final(self).kept_aside(old(self)),
            final(self).view == old(self).view,
            final(self).orbit == old(self).orbit,
            final(self).julia_pin == old(self).julia_pin,
    {
        self.coords.dirty = false;
    }

    /// Pin the Julia preview to a c, or unpin it. The c is the one under the
    /// pointer, or else the one that is shown.
    pub fn toggle_pin(&mut self, hovered: Option<Point>, shown: Option<Point>)
        ensures
            final(self).kept_aside(old(self)),
            final(self).coords == old(self).coords,
            final(self).view == old(self).view,
            final(self).orbit == old(self).orbit,
            final(self).julia_pin == match (old(self).julia_pin, hovered, shown) {
                (Some(_), _, _) => None,
                (None, Some(c), _) => Some(c),
                (None, None, Some(c)) => if c.x.finite() {
                    Some(c)
                } else {
                    None
                },
                (None, None, None) => None,
            },
    {
        self.julia_pin = match (self.julia_pin, hovered, shown) {
            (Some(_), _, _) => None,
            (None, Some(c), _) => Some(c),
            (None, None, Some(c)) => if c.x.is_finite() {
                Some(c)
            } else {
                None
            },
            (None, None, None) => None,
        };
    }

    /// The c of the Julia preview: the pinned one, or else the one under the
    /// pointer.
    pub fn preview_c(&self, hovered: Option<Point>) -> (r: Option<Point>)
        ensures
            r == match self.julia_pin {
                Some(c) => Some(c),
                None => hovered,
            },
    {
        match self.julia_pin {
            Some(c) => Some(c),
            None => hovered,
        }
    }
}

/// A command that keeps all else aside leaves the typed texts and the journal
/// as they were; one that keeps the view leaves all of it but the orbit and
/// the center.
pub proof fn law_what_is_kept_is_unchanged(after: Explorer, before: Explorer)
    ensures
        after.kept_aside(&before) <==> {
            &&& after.coords.re == before.coords.re
            &&& after.coords.im == before.coords.im
            &&& after.coords.zoom == before.coords.zoom
            &&& after.journal_mode == before.journal_mode
        },
        after.same_view(&before) <==> {
            &&& after.coords == before.coords
            &&& after.julia_pin == before.julia_pin
            &&& after.journal_mode == before.journal_mode
            &&& after.view.units_per_point == before.view.units_per_point
            &&& after.view.max_iter == before.view.max_iter
            &&& after.view.palette == before.view.palette
            &&& after.view.palette_freq == before.view.palette_freq
            &&& after.view.palette_phase == before.view.palette_phase
            &&& after.view.rule == before.view.rule
        },
{
}

/// An orbit is computed again where there is none, where the view has drifted
/// from it, and where it stopped at a lower cap without an escape; nowhere
/// else.
pub proof fn law_when_an_orbit_is_computed_again(cache: OrbitCache, drifted: bool, max_iter: u32)
    ensures
        stale(None, drifted, max_iter),
        drifted ==> stale(Some(cache), drifted, max_iter),
        max_iter > cache.for_max_iter && !cache.escaped ==> stale(Some(cache), drifted, max_iter),
        !drifted && max_iter <= cache.for_max_iter ==> !stale(Some(cache), drifted, max_iter),
        !drifted && cache.escaped ==> !stale(Some(cache), drifted, max_iter),
{
}

/// Coordinates that are taken lead to the numbers that were typed, at a
/// precision of four bits a byte of the longer text and the guard bits, or of
/// the zoom and the guard bits where that is more, and to the scale within the
/// limits.
pub proof fn law_typed_coordinates_keep_their_digits(
    re: Seq<char>,
    im: Seq<char>,
    zoom_text: Seq<char>,
    zoom: Option<Double>,
    scale: Double,
)
    ensures
        ({
            let (x, y) = (trimmed(re), trimmed(im));
            let finest = Double { bits: MIN_UNITS_PER_POINT };
            let coarsest = Double { bits: ZOOM_OUT_LIMIT };
            typed_view(re, im, zoom_text, zoom, scale) matches Ok((a, b, upp)) ==> {
                &&& zoom matches Some(z) && z.finite() && z.rank() > 0
                &&& finest.rank() <= scale.rank() <= coarsest.rank() ==> upp == scale
                &&& scale.lt_num(finest) ==> upp == finest
                &&& coarsest.lt_num(scale) ==> upp == coarsest
                &&& decimal_of(x) is Ok
                &&& decimal_of(y) is Ok
                &&& exists|precision: nat|
                    {
                        &&& precision >= 4 * encode_utf8(x).len() + 64
                        &&& precision >= 4 * encode_utf8(y).len() + 64
                        &&& precision >= zoom_bits(upp) + 64
                        &&& precision <= 4 * encode_utf8(x).len() + 64 || precision <= 4
                            * encode_utf8(y).len() + 64 || precision <= zoom_bits(upp) + 64
                        &&& a == #[trigger] binary_of(
                            decimal_of(x)->Ok_0.significand,
                            decimal_of(x)->Ok_0.exponent,
                            precision,
                        )
                        &&& b == binary_of(
                            decimal_of(y)->Ok_0.significand,
                            decimal_of(y)->Ok_0.exponent,
                            precision,
                        )
                    }
            }
        }),
{
    let (x, y) = (trimmed(re), trimmed(im));
    if let Ok((a, b, upp)) = typed_view(re, im, zoom_text, zoom, scale) {
        let least = (zoom_bits(upp) + GUARD_BITS) as nat;
        let precision = if typed_bits(x, y) > least {
            typed_bits(x, y)
        } else {
            least
        };
        assert(zoom_bits(upp) >= 0);
        assert(a == binary_of(
            decimal_of(x)->Ok_0.significand,
            decimal_of(x)->Ok_0.exponent,
            precision,
        ));
    }
}

/// Typed coordinates are refused for the zoom first, then where they are out
/// of range, then for the first that is no number.
pub proof fn law_why_typed_coordinates_are_refused(
    re: Seq<char>,
    im: Seq<char>,
    zoom_text: Seq<char>,
    zoom: Option<Double>,
    scale: Double,
)
    ensures
        ({
            let (x, y) = (trimmed(re), trimmed(im));
            let r = typed_view(re, im, zoom_text, zoom, scale);
            let positive = zoom matches Some(z) && z.finite() && z.rank() > 0;
            &&& zoom is None ==> r == Err::<(Real, Real, Double), Seq<char>>(
                "bad zoom "@ + quoted(trimmed(zoom_text)),
            )
            &&& zoom is Some && !positive ==> r == Err::<(Real, Real, Double), Seq<char>>(
                "zoom must be positive"@,
            )
            &&& positive && (!scale_supported(x) || !scale_supported(y)) ==> r == Err::<
                (Real, Real, Double),
                Seq<char>,
            >("coordinates are out of range"@)
            &&& positive && scale_supported(x) && scale_supported(y) && 4 * encode_utf8(x).len()
                + 64 <= PRECISION_LIMIT && 4 * encode_utf8(y).len() + 64 <= PRECISION_LIMIT
                && zoom_bits(limited_scale(scale, Double { bits: ZOOM_OUT_LIMIT })) + 64
                <= PRECISION_LIMIT ==> {
                &&& decimal_of(x) matches Err(e) ==> r == Err::<(Real, Real, Double), Seq<char>>(
                    "bad coordinate "@ + quoted(x) + ": "@ + e.words(),
                )
                &&& decimal_of(x) is Ok && decimal_of(y) is Err ==> r == Err::<
                    (Real, Real, Double),
                    Seq<char>,
                >("bad coordinate "@ + quoted(y) + ": "@ + decimal_of(y)->Err_0.words())
                &&& decimal_of(x) is Ok && decimal_of(y) is Ok ==> r is Ok
            }
        }),
{
}

/// An orbit that was just computed for a view serves that view: it is not
/// computed over and over.
pub proof fn law_a_fresh_orbit_serves(cache: OrbitCache)
    ensures
        !stale(Some(cache), false, cache.for_max_iter),
{
}

/// An orbit that escaped serves any iteration cap.
pub proof fn law_an_escaped_orbit_serves_any_cap(cache: OrbitCache, max_iter: u32)
    requires
        cache.escaped,
    ensures
        !stale(Some(cache), false, max_iter),
{
}

} // verus!
