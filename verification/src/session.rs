//! Which fractal is shown, and where: the state that a bookmark holds.

use vstd::arithmetic::power2::pow2;
use vstd::prelude::*;

use crate::attractor;
use crate::deep::{exact, BigComplex};
use crate::float::{Double, Point, Single};
use crate::ifs;
use crate::ifs::{maps_eq_num, maps_equal, AffineMap};
use crate::lsystem;
use crate::palette::{Coloring, Palette};
use crate::progress::{params_eq_num, params_equal, System};
use crate::terrain;

verus! {

/// The application that bookmarks name.
pub const BOOKMARK_APP: &'static str = "fractalx";

/// The version of bookmarks that are written.
pub const BOOKMARK_VERSION: u32 = 3;

/// Points of a chaos game that was not set up otherwise.
pub const DEFAULT_IFS_POINTS: u64 = 1_000_000;

/// Points of an attractor that was not set up otherwise.
pub const DEFAULT_ATTRACTOR_POINTS: u64 = 5_000_000;

/// Iterations of a view that was not set up otherwise.
pub const DEFAULT_MAX_ITER: u32 = 300;

/// The bits of -0.5, the center of the Mandelbrot set's home view.
pub const HOME_MANDELBROT_X: u64 = 0xBFE0_0000_0000_0000;

/// The bits of 0.5.
pub const HOME_IFS_X: u64 = 0x3FE0_0000_0000_0000;

/// The bits of 0.43.
pub const HOME_IFS_Y: u64 = 0x3FDB_851E_B851_EB85;

/// The bits of 0.004, the scale of the escape-time home views.
pub const HOME_SCALE: u64 = 0x3F70_624D_D2F1_A9FC;

/// The bits of 0.0016.
pub const HOME_IFS_SCALE: u64 = 0x3F5A_36E2_EB1C_432D;

/// The bits of 0.01.
pub const HOME_LSYSTEM_SCALE: u64 = 0x3F84_7AE1_47AE_147B;

/// The bits of 0.006.
pub const HOME_ATTRACTOR_SCALE: u64 = 0x3F78_9374_BC6A_7EFA;

/// The bits of 0.01.
pub const HOME_TERRAIN_SCALE: u64 = 0x3F84_7AE1_47AE_147B;

/// The bits of 0.1, the coarsest scale of views at unit scale.
pub const ZOOM_OUT_LIMIT: u64 = 0x3FB9_9999_9999_999A;

/// The bits of 1e-7: below this scale single precision is out of bits and rendering
/// switches to the perturbation path.
pub const PERTURB_THRESHOLD: u64 = 0x3E7A_D7F2_9ABC_AF48;

/// The bits of 1e-32, the hard zoom floor: below this even pixel deltas underflow.
pub const MIN_UNITS_PER_POINT: u64 = 0x3949_F623_D5A8_A733;

/// The bits of 1.01e-32: at this scale the zoom limit is shown as reached.
pub const ZOOM_LIMIT_NOTICE: u64 = 0x394A_3899_F3F4_9464;

/// The bits of 3e4, the zoom beyond which single precision is not enough.
pub const SINGLE_PRECISION_ZOOM: u64 = 0x40DD_4C00_0000_0000;

/// The bits of -0.8.
pub const DEFAULT_JULIA_X: u64 = 0xBFE9_9999_9999_999A;

/// The bits of 0.156.
pub const DEFAULT_JULIA_Y: u64 = 0x3FC3_F7CE_D916_872B;

/// The bits of 1.0 in single precision.
pub const SINGLE_ONE: u32 = 0x3F80_0000;

/// A point by the bits of its coordinates.
pub open spec fn point_of(x: u64, y: u64) -> Point {
    Point { x: Double { bits: x }, y: Double { bits: y } }
}

fn point(x: u64, y: u64) -> (p: Point)
    ensures
        p == point_of(x, y),
{
    Point { x: Double { bits: x }, y: Double { bits: y } }
}

/// A named point.
pub open spec fn named(preset: (&'static str, Point), name: &str, x: u64, y: u64) -> bool {
    preset.0@ == name@ && preset.1 == point_of(x, y)
}

/// A named point has its name and its two coordinates.
pub proof fn law_a_named_point_in_full(
    preset: (&'static str, Point),
    name: &str,
    x: u64,
    y: u64,
)
    ensures
        named(preset, name, x, y) <==> preset.0@ == name@ && preset.1.x.bits == x
            && preset.1.y.bits == y,
{
}

/// A double is the nearest to a fraction.
pub open spec fn is_nearest_to(bits: u64, numerator: int, denominator: int) -> bool {
    let d = Double { bits };
    let one = pow2((-d.exponent()) as nat);
    &&& d.exponent() < 0
    &&& -denominator <= 2 * (d.significand() * denominator - numerator * one) <= denominator
}

proof fn lemma_powers_of_two()
    ensures
        pow2(76) == 0x1000_0000_0000_0000_0000,
        pow2(159) == 0x8000_0000_0000_0000_0000_0000_0000_0000_0000_0000,
{
    vstd::arithmetic::power2::lemma2_to64();
    vstd::arithmetic::power2::lemma2_to64_rest();
    vstd::arithmetic::power2::lemma_pow2_adds(64, 12);
    vstd::arithmetic::power2::lemma_pow2_adds(64, 64);
    vstd::arithmetic::power2::lemma_pow2_adds(128, 31);
}

/// The scales and the default numbers, as the fractions that they stand for.
pub proof fn law_the_defaults_in_numbers()
    ensures
        is_nearest_to(MIN_UNITS_PER_POINT, 1, 100_000_000_000_000_000_000_000_000_000_000),
        is_nearest_to(ZOOM_OUT_LIMIT, 1, 10),
        is_nearest_to(PERTURB_THRESHOLD, 1, 10_000_000),
        is_nearest_to(SINGLE_PRECISION_ZOOM, 30_000, 1),
        is_nearest_to(HOME_MANDELBROT_X, -5, 10),
        is_nearest_to(HOME_IFS_X, 5, 10),
        is_nearest_to(HOME_IFS_Y, 43, 100),
        is_nearest_to(HOME_SCALE, 4, 1000),
        is_nearest_to(HOME_IFS_SCALE, 16, 10_000),
        is_nearest_to(HOME_LSYSTEM_SCALE, 1, 100),
        is_nearest_to(HOME_ATTRACTOR_SCALE, 6, 1000),
        is_nearest_to(HOME_TERRAIN_SCALE, 1, 100),
        is_nearest_to(DEFAULT_JULIA_X, -8, 10),
        is_nearest_to(DEFAULT_JULIA_Y, 156, 1000),
        is_nearest_to(terrain::DEFAULT_HURST, 9, 10),
        DEFAULT_IFS_POINTS == 1_000_000 && DEFAULT_ATTRACTOR_POINTS == 5_000_000,
        DEFAULT_MAX_ITER == 300,
{
    vstd::arithmetic::power2::lemma2_to64();
    vstd::arithmetic::power2::lemma2_to64_rest();
    lemma_powers_of_two();
}

/// The kinds of fractals, without their rules.
#[derive(Clone, Copy, Debug, PartialEq, Eq, Structural)]
pub enum Family {
    Mandelbrot,
    Multibrot,
    Julia,
    Ifs,
    LSystem,
    Attractor,
    Terrain,
}

impl Family {
    /// All families, in menu order.
    pub fn all() -> (all: [Family; 7])
        ensures
            all@ == seq![
                Family::Mandelbrot,
                Family::Multibrot,
                Family::Julia,
                Family::Ifs,
                Family::LSystem,
                Family::Attractor,
                Family::Terrain,
            ],
    {
        let all = [
            Family::Mandelbrot,
            Family::Multibrot,
            Family::Julia,
            Family::Ifs,
            Family::LSystem,
            Family::Attractor,
            Family::Terrain,
        ];
        assert(all@ =~= seq![
            Family::Mandelbrot,
            Family::Multibrot,
            Family::Julia,
            Family::Ifs,
            Family::LSystem,
            Family::Attractor,
            Family::Terrain,
        ]);
        all
    }

    /// The name of a family.
    pub open spec fn words(self) -> Seq<char> {
        match self {
            Family::Mandelbrot => "Mandelbrot"@,
            Family::Multibrot => "Multibrot"@,
            Family::Julia => "Julia"@,
            Family::Ifs => "IFS (chaos game)"@,
            Family::LSystem => "L-system"@,
            Family::Attractor => "Strange attractor"@,
            Family::Terrain => "Terrain"@,
        }
    }

    /// The name of a family.
    pub fn name(self) -> (name: &'static str)
        ensures
            name@ == self.words(),
    {
        match self {
            Family::Mandelbrot => "Mandelbrot",
            Family::Multibrot => "Multibrot",
            Family::Julia => "Julia",
            Family::Ifs => "IFS (chaos game)",
            Family::LSystem => "L-system",
            Family::Attractor => "Strange attractor",
            Family::Terrain => "Terrain",
        }
    }

    /// Escape-time sets; the others are plotted or drawn.
    pub open spec fn escape_time(self) -> bool {
        self is Mandelbrot || self is Multibrot || self is Julia
    }

    /// The center of the family's default viewport.
    pub open spec fn home_center(self) -> Point {
        match self {
            Family::Mandelbrot => point_of(HOME_MANDELBROT_X, 0),
            Family::Ifs => point_of(HOME_IFS_X, HOME_IFS_Y),
            _ => point_of(0, 0),
        }
    }

    /// The scale of the family's default viewport, by its bits.
    pub open spec fn home_scale(self) -> u64 {
        match self {
            Family::Mandelbrot | Family::Multibrot | Family::Julia => HOME_SCALE,
            Family::Ifs => HOME_IFS_SCALE,
            Family::LSystem => HOME_LSYSTEM_SCALE,
            Family::Attractor => HOME_ATTRACTOR_SCALE,
            Family::Terrain => HOME_TERRAIN_SCALE,
        }
    }
}

/// Every family has its own name.
pub proof fn law_families_in_words()
    ensures
        Family::Mandelbrot.words() == "Mandelbrot"@,
        Family::Multibrot.words() == "Multibrot"@,
        Family::Julia.words() == "Julia"@,
        Family::Ifs.words() == "IFS (chaos game)"@,
        Family::LSystem.words() == "L-system"@,
        Family::Attractor.words() == "Strange attractor"@,
        Family::Terrain.words() == "Terrain"@,
{
}

/// Which fractal family is rendered, plus its family-specific rule.
#[derive(Debug)]
pub enum FractalRule {
    Mandelbrot,
    Multibrot { power: u32 },
    Julia {
        /// The fixed constant c; the pixel seeds z instead.
        c: Point,
    },
    Ifs { maps: Vec<AffineMap>, points: u64 },
    LSystem(System),
    Attractor {
        kind: attractor::Kind,
        /// Map parameters a, b, c, d.
        params: [Double; 4],
        points: u64,
    },
    Terrain(terrain::Params),
}

impl FractalRule {
    /// The family of a rule.
    pub open spec fn family_of(&self) -> Family {
        match self {
            FractalRule::Mandelbrot => Family::Mandelbrot,
            FractalRule::Multibrot { .. } => Family::Multibrot,
            FractalRule::Julia { .. } => Family::Julia,
            FractalRule::Ifs { .. } => Family::Ifs,
            FractalRule::LSystem(_) => Family::LSystem,
            FractalRule::Attractor { .. } => Family::Attractor,
            FractalRule::Terrain(_) => Family::Terrain,
        }
    }

    /// The family of a rule.
    pub fn family(&self) -> (r: Family)
        ensures
            r == self.family_of(),
    {
        match self {
            FractalRule::Mandelbrot => Family::Mandelbrot,
            FractalRule::Multibrot { .. } => Family::Multibrot,
            FractalRule::Julia { .. } => Family::Julia,
            FractalRule::Ifs { .. } => Family::Ifs,
            FractalRule::LSystem(_) => Family::LSystem,
            FractalRule::Attractor { .. } => Family::Attractor,
            FractalRule::Terrain(_) => Family::Terrain,
        }
    }

    pub fn is_escape_time(&self) -> (r: bool)
        ensures
            r == self.family_of().escape_time(),
    {
        match self.family() {
            Family::Mandelbrot | Family::Multibrot | Family::Julia => true,
            _ => false,
        }
    }

    /// The name that is shown: the family's, but clouds are called clouds.
    pub fn display_name(&self) -> (name: &'static str)
        ensures
            name@ == match self {
                FractalRule::Terrain(p) if p.clouds => "Clouds"@,
                _ => self.family_of().words(),
            },
    {
        match self {
            FractalRule::Terrain(p) => if p.clouds {
                "Clouds"
            } else {
                "Terrain"
            },
            _ => self.family().name(),
        }
    }

    /// Default viewport (center, units-per-point) for this family.
    pub fn home_view(&self) -> (r: (Point, Double))
        ensures
            r.0 == self.family_of().home_center(),
            r.1.bits == self.family_of().home_scale(),
            r.0.x.finite() && r.0.y.finite(),
            r.1.finite() && r.1.rank() > 0,
    {
        match self.family() {
            Family::Mandelbrot => (point(HOME_MANDELBROT_X, 0), Double { bits: HOME_SCALE }),
            Family::Multibrot => (point(0, 0), Double { bits: HOME_SCALE }),
            Family::Julia => (point(0, 0), Double { bits: HOME_SCALE }),
            Family::Ifs => (point(HOME_IFS_X, HOME_IFS_Y), Double { bits: HOME_IFS_SCALE }),
            // Placeholder; L-system views are fitted to the drawing's bounds.
            Family::LSystem => (point(0, 0), Double { bits: HOME_LSYSTEM_SCALE }),
            // Placeholder; attractor views are fitted to the orbit's bounds.
            Family::Attractor => (point(0, 0), Double { bits: HOME_ATTRACTOR_SCALE }),
            // ~8 base-octave noise features across a ~800pt canvas.
            Family::Terrain => (point(0, 0), Double { bits: HOME_TERRAIN_SCALE }),
        }
    }

    /// The same rule, numbers by their value.
    pub open spec fn same(&self, other: &FractalRule) -> bool {
        match (self, other) {
            (FractalRule::Mandelbrot, FractalRule::Mandelbrot) => true,
            (FractalRule::Multibrot { power }, FractalRule::Multibrot { power: q }) => power == q,
            (FractalRule::Julia { c }, FractalRule::Julia { c: e }) => c.eq_num(*e),
            (
                FractalRule::Ifs { maps, points },
                FractalRule::Ifs { maps: m, points: n },
            ) => maps_eq_num(maps@, m@) && points == n,
            (FractalRule::LSystem(a), FractalRule::LSystem(b)) => a.same(b),
            (
                FractalRule::Attractor { kind, params, points },
                FractalRule::Attractor { kind: k, params: p, points: n },
            ) => kind == k && params_eq_num(*params, *p) && points == n,
            (FractalRule::Terrain(a), FractalRule::Terrain(b)) => a.eq_num(*b),
            _ => false,
        }
    }

    /// `==` on rules.
    pub fn equals(&self, other: &FractalRule) -> (r: bool)
        ensures
            r == self.same(other),
    {
        match (self, other) {
            (FractalRule::Mandelbrot, FractalRule::Mandelbrot) => true,
            (FractalRule::Multibrot { power }, FractalRule::Multibrot { power: q }) => *power == *q,
            (FractalRule::Julia { c }, FractalRule::Julia { c: e }) => c.equals(*e),
            (
                FractalRule::Ifs { maps, points },
                FractalRule::Ifs { maps: m, points: n },
            ) => maps_equal(maps.as_slice(), m.as_slice()) && *points == *n,
            (FractalRule::LSystem(a), FractalRule::LSystem(b)) => a.equals(b),
            (
                FractalRule::Attractor { kind, params, points },
                FractalRule::Attractor { kind: k, params: p, points: n },
            ) => *kind == *k && params_equal(*params, *p) && *points == *n,
            (FractalRule::Terrain(a), FractalRule::Terrain(b)) => a.equals(*b),
            _ => false,
        }
    }
}

/// Equal rules are of one family.
pub proof fn law_equal_rules_share_a_family(a: FractalRule, b: FractalRule)
    requires
        a.same(&b),
    ensures
        a.family_of() == b.family_of(),
{
}

/// Rules are equal where they are of one family and every part is equal.
pub proof fn law_rules_are_equal_in_every_part(a: FractalRule, b: FractalRule)
    ensures
        a is Mandelbrot && b is Mandelbrot ==> a.same(&b),
        a is Multibrot && b is Multibrot ==> (a.same(&b) <==> a->power == b->power),
        a is Julia && b is Julia ==> (a.same(&b) <==> a->c.x.eq_num(b->c.x) && a->c.y.eq_num(
            b->c.y,
        )),
        a is Ifs && b is Ifs ==> (a.same(&b) <==> maps_eq_num(a->maps@, b->maps@) && a->Ifs_points
            == b->Ifs_points),
        a is LSystem && b is LSystem ==> (a.same(&b) <==> (a->LSystem_0).same(&b->LSystem_0)),
        a is Attractor && b is Attractor ==> (a.same(&b) <==> a->kind == b->kind && params_eq_num(
            a->params,
            b->params,
        ) && a->Attractor_points == b->Attractor_points),
        a is Terrain && b is Terrain ==> (a.same(&b) <==> (a->Terrain_0).eq_num(b->Terrain_0)),
        a.family_of() != b.family_of() ==> !a.same(&b),
{
}

/// A rule is of the family that it is named after.
pub proof fn law_the_family_of_a_rule(rule: FractalRule)
    ensures
        rule is Mandelbrot <==> rule.family_of() is Mandelbrot,
        rule is Multibrot <==> rule.family_of() is Multibrot,
        rule is Julia <==> rule.family_of() is Julia,
        rule is Ifs <==> rule.family_of() is Ifs,
        rule is LSystem <==> rule.family_of() is LSystem,
        rule is Attractor <==> rule.family_of() is Attractor,
        rule is Terrain <==> rule.family_of() is Terrain,
        rule.family_of().escape_time() <==> rule is Mandelbrot || rule is Multibrot || rule is Julia,
{
}

/// The home view of every family but two is centered at the origin.
pub proof fn law_where_home_is(family: Family)
    ensures
        family is Mandelbrot ==> family.home_center() == point_of(0xBFE0_0000_0000_0000, 0),
        family is Ifs ==> family.home_center() == point_of(
            0x3FE0_0000_0000_0000,
            0x3FDB_851E_B851_EB85,
        ),
        family !is Mandelbrot && family !is Ifs ==> family.home_center() == point_of(0, 0),
        family is Mandelbrot || family is Multibrot || family is Julia ==> family.home_scale()
            == 0x3F70_624D_D2F1_A9FC,
        family is Ifs ==> family.home_scale() == 0x3F5A_36E2_EB1C_432D,
        family is LSystem || family is Terrain ==> family.home_scale() == 0x3F84_7AE1_47AE_147B,
        family is Attractor ==> family.home_scale() == 0x3F78_9374_BC6A_7EFA,
{
}

impl Default for FractalRule {
    fn default() -> (rule: FractalRule)
        ensures
            rule is Mandelbrot,
    {
        FractalRule::Mandelbrot
    }
}

/// Complete view state, the "bookmark": which fractal is shown, where, and in
/// which colors.
#[derive(Debug)]
pub struct ViewState {
    /// Complex-plane coordinates of the canvas center, arbitrary precision.
    /// (Doubles as the world-space center of plots, where a double suffices.)
    pub center: BigComplex,
    /// Complex units per screen point (zoom level).
    pub units_per_point: Double,
    /// Escape-time iteration cap (plots have their own `points`).
    pub max_iter: u32,
    pub palette_freq: Single,
    pub palette_phase: Single,
    pub palette: Palette,
    pub rule: FractalRule,
}

impl ViewState {
    /// The center's coordinates are well-formed.
    pub open spec fn wf(&self) -> bool {
        self.center.wf()
    }

    /// The view can be computed with: its center is in range, and its scale
    /// is not zero.
    pub open spec fn ready(&self) -> bool {
        self.center.wf() && self.center.in_range() && self.units_per_point.rank() != 0
    }

    /// Whether the view can be computed with.
    pub fn is_ready(&self) -> (r: bool)
        requires
            self.wf(),
        ensures
            r == self.ready(),
    {
        let zero = Double { bits: 0 };
        self.center.is_in_range() && (self.units_per_point.is_nan()
            || !self.units_per_point.equals(zero))
    }

    /// Everything that coloring depends on.
    pub fn coloring(&self) -> (r: Coloring)
        ensures
            r.palette == self.palette,
            r.freq == self.palette_freq,
            r.phase == self.palette_phase,
    {
        Coloring {
            palette: self.palette,
            freq: self.palette_freq,
            phase: self.palette_phase,
        }
    }

    /// Deep zoom: past the threshold, the Mandelbrot set is rendered by
    /// perturbation.
    pub open spec fn perturbed(&self) -> bool {
        self.rule is Mandelbrot && self.units_per_point.lt_num(Double { bits: PERTURB_THRESHOLD })
    }

    /// Whether the view is rendered by perturbation.
    pub fn perturbation_active(&self) -> (r: bool)
        ensures
            r == self.perturbed(),
    {
        matches!(self.rule, FractalRule::Mandelbrot) && self.units_per_point.less_than(
            Double { bits: PERTURB_THRESHOLD },
        )
    }

    /// Move the viewport.
    pub fn look_at(&mut self, center: Point, units_per_point: Double)
        requires
            center.x.finite(),
            center.y.finite(),
        ensures
            final(self).wf(),
            final(self).center.in_range(),
            final(self).center.re@ == exact(center.x),
            final(self).center.im@ == exact(center.y),
            final(self).units_per_point == units_per_point,
            final(self).max_iter == old(self).max_iter,
            final(self).palette_freq == old(self).palette_freq,
            final(self).palette_phase == old(self).palette_phase,
            final(self).palette == old(self).palette,
            final(self).rule == old(self).rule,
    {
        self.center = BigComplex::from_f64(center.x, center.y);
        self.units_per_point = units_per_point;
    }

    /// Move the viewport to the family's default.
    pub fn go_home(&mut self)
        ensures
            final(self).wf(),
            final(self).center.in_range(),
            final(self).center.re@ == exact(old(self).rule.family_of().home_center().x),
            final(self).center.im@ == exact(old(self).rule.family_of().home_center().y),
            final(self).units_per_point.bits == old(self).rule.family_of().home_scale(),
            final(self).max_iter == old(self).max_iter,
            final(self).palette_freq == old(self).palette_freq,
            final(self).palette_phase == old(self).palette_phase,
            final(self).palette == old(self).palette,
            final(self).rule == old(self).rule,
    {
        let (center, units_per_point) = self.rule.home_view();
        self.look_at(center, units_per_point);
    }

    /// Switch to an IFS preset: rule and viewport. The number of points is
    /// kept where one was set.
    pub fn apply_preset(&mut self, preset: &ifs::Preset)
        requires
            preset.center.x.finite(),
            preset.center.y.finite(),
        ensures
            final(self).wf(),
            final(self).center.in_range(),
            final(self).rule matches FractalRule::Ifs { maps, points } && maps@ == preset.maps@
                && points == match old(self).rule {
                FractalRule::Ifs { points: p, .. } => p,
                _ => DEFAULT_IFS_POINTS,
            },
            final(self).center.re@ == exact(preset.center.x),
            final(self).center.im@ == exact(preset.center.y),
            final(self).units_per_point == preset.units_per_point,
            final(self).max_iter == old(self).max_iter,
            final(self).palette_freq == old(self).palette_freq,
            final(self).palette_phase == old(self).palette_phase,
            final(self).palette == old(self).palette,
    {
        let points: u64 = match &self.rule {
            FractalRule::Ifs { points, .. } => *points,
            _ => DEFAULT_IFS_POINTS,
        };
        let maps = preset.maps.clone();
        assert(maps@ =~= preset.maps@);
        self.rule = FractalRule::Ifs { maps, points };
        self.look_at(preset.center, preset.units_per_point);
    }

    /// Switch to an attractor preset; the viewport is then to be fitted. The
    /// number of points is kept where one was set.
    pub fn apply_attractor_preset(&mut self, preset: &attractor::Preset)
        ensures
            final(self).rule matches FractalRule::Attractor { kind, params, points } && kind
                == preset.kind && params == preset.params && points == match old(self).rule {
                FractalRule::Attractor { points: p, .. } => p,
                _ => DEFAULT_ATTRACTOR_POINTS,
            },
            final(self).center == old(self).center,
            final(self).units_per_point == old(self).units_per_point,
            final(self).max_iter == old(self).max_iter,
            final(self).palette_freq == old(self).palette_freq,
            final(self).palette_phase == old(self).palette_phase,
            final(self).palette == old(self).palette,
    {
        let points: u64 = match &self.rule {
            FractalRule::Attractor { points, .. } => *points,
            _ => DEFAULT_ATTRACTOR_POINTS,
        };
        self.rule = FractalRule::Attractor { kind: preset.kind, params: preset.params, points };
    }

    /// Switch to an L-system preset; the viewport is then to be fitted.
    pub fn apply_lsystem_preset(&mut self, preset: &lsystem::Preset)
        ensures
            final(self).rule matches FractalRule::LSystem(s) && s.start@ == preset.start@
                && s.rules@.len() == preset.rules@.len() && (forall|i: int|
                0 <= i < s.rules@.len() ==> (#[trigger] s.rules@[i]).symbol == preset.rules@[i].0
                    && s.rules@[i].replacement@ == preset.rules@[i].1@) && s.angle_deg
                == preset.angle_deg && s.generations == preset.generations,
            final(self).center == old(self).center,
            final(self).units_per_point == old(self).units_per_point,
            final(self).max_iter == old(self).max_iter,
            final(self).palette_freq == old(self).palette_freq,
            final(self).palette_phase == old(self).palette_phase,
            final(self).palette == old(self).palette,
    {
        let system = System {
            start: preset.start.to_owned(),
            rules: preset.rules_vec(),
            angle_deg: preset.angle_deg,
            generations: preset.generations,
        };
        self.rule = FractalRule::LSystem(system);
    }
}

impl Default for ViewState {
    fn default() -> (view: ViewState)
        ensures
            view.ready(),
            view.center.re@ == exact(Double { bits: HOME_MANDELBROT_X }),
            view.center.im@ == exact(Double { bits: 0 }),
            view.units_per_point.bits == HOME_SCALE,
            view.max_iter == DEFAULT_MAX_ITER,
            view.palette_freq.bits == SINGLE_ONE,
            view.palette_phase.bits == 0,
            view.palette is Classic,
            view.rule is Mandelbrot,
    {
        ViewState {
            center: BigComplex::from_f64(Double { bits: HOME_MANDELBROT_X }, Double { bits: 0 }),
            units_per_point: Double { bits: HOME_SCALE },
            max_iter: DEFAULT_MAX_ITER,
            palette_freq: Single { bits: SINGLE_ONE },
            palette_phase: Single { bits: 0 },
            palette: Palette::Classic,
            rule: FractalRule::Mandelbrot,
        }
    }
}

/// Deep zoom is for the Mandelbrot set alone, at every scale below the
/// threshold and at no other.
pub proof fn law_when_a_view_is_perturbed(view: ViewState)
    ensures
        view.rule !is Mandelbrot ==> !view.perturbed(),
        view.rule is Mandelbrot && !view.units_per_point.nan() ==> (view.perturbed()
            <==> view.units_per_point.rank() < PERTURB_THRESHOLD),
        view.units_per_point.nan() ==> !view.perturbed(),
{
}

/// A view can be computed with where its coordinates are in range and its
/// scale is not zero.
pub proof fn law_when_a_view_is_ready(view: ViewState)
    ensures
        view.ready() <==> {
            &&& view.center.re.wf() && view.center.im.wf()
            &&& view.center.re@.in_range() && view.center.im@.in_range()
            &&& view.units_per_point.bits != 0
            &&& view.units_per_point.bits != 0x8000_0000_0000_0000
        },
{
}

/// The named Julia constants. The numbers are the bits of those named beside
/// them.
pub fn julia_presets() -> (presets: Vec<(&'static str, Point)>)
    ensures
        presets@.len() == 11,
        named(
            presets@[0],
            "Dendrite",
            0xBFE9_9999_9999_999A,
            0x3FC3_F7CE_D916_872B,
        ),
        named(
            presets@[1],
            "Rabbit",
            0xBFBF_7CED_9168_72B0,
            0x3FE7_D70A_3D70_A3D7,
        ),
        named(
            presets@[2],
            "Siegel",
            0xBFD9_0624_DD2F_1AA0,
            0xBFE2_C8B4_3958_1062,
        ),
        named(
            presets@[3],
            "Spiral",
            0x3FD2_3D70_A3D7_0A3D,
            0x3F84_7AE1_47AE_147B,
        ),
        named(
            presets@[4],
            "Dust",
            0xBFD9_9999_9999_999A,
            0x3FE3_3333_3333_3333,
        ),
        named(
            presets@[5],
            "Basilica",
            0xBFF0_0000_0000_0000,
            0x0000_0000_0000_0000,
        ),
        named(
            presets@[6],
            "San Marco",
            0xBFE8_0000_0000_0000,
            0x0000_0000_0000_0000,
        ),
        named(
            presets@[7],
            "Airplane",
            0xBFFC_147A_E147_AE14,
            0x0000_0000_0000_0000,
        ),
        named(
            presets@[8],
            "Galaxy",
            0xBFE7_42C3_C9EE_CBFB,
            0x3FC8_2DE0_0D1B_7176,
        ),
        named(
            presets@[9],
            "Dragon",
            0xBFEA_B851_EB85_1EB8,
            0xBFCD_B573_EAB3_67A1,
        ),
        named(
            presets@[10],
            "Lightning",
            0x0000_0000_0000_0000,
            0x3FF0_0000_0000_0000,
        ),
{
    vec![
        ("Dendrite", point(0xBFE9_9999_9999_999A, 0x3FC3_F7CE_D916_872B)),  // -0.8, 0.156
        ("Rabbit", point(0xBFBF_7CED_9168_72B0, 0x3FE7_D70A_3D70_A3D7)),  // -0.123, 0.745
        ("Siegel", point(0xBFD9_0624_DD2F_1AA0, 0xBFE2_C8B4_3958_1062)),  // -0.391, -0.587
        ("Spiral", point(0x3FD2_3D70_A3D7_0A3D, 0x3F84_7AE1_47AE_147B)),  // 0.285, 0.01
        ("Dust", point(0xBFD9_9999_9999_999A, 0x3FE3_3333_3333_3333)),  // -0.4, 0.6
        ("Basilica", point(0xBFF0_0000_0000_0000, 0x0000_0000_0000_0000)),  // -1.0, 0.0
        ("San Marco", point(0xBFE8_0000_0000_0000, 0x0000_0000_0000_0000)),  // -0.75, 0.0
        ("Airplane", point(0xBFFC_147A_E147_AE14, 0x0000_0000_0000_0000)),  // -1.755, 0.0
        ("Galaxy", point(0xBFE7_42C3_C9EE_CBFB, 0x3FC8_2DE0_0D1B_7176)),  // -0.7269, 0.1889
        ("Dragon", point(0xBFEA_B851_EB85_1EB8, 0xBFCD_B573_EAB3_67A1)),  // -0.835, -0.2321
        ("Lightning", point(0x0000_0000_0000_0000, 0x3FF0_0000_0000_0000)),  // 0.0, 1.0
    ]
}

} // verus!
