//! The rule panel: editing a rule, and what is said about it.

use vstd::prelude::*;
use vstd::string::StringExecFns;

use crate::attractor::Kind;
use crate::float::{Double, Single};
use crate::ifs::AffineMap;
use crate::lsystem::Rule;
use crate::progress::{params_eq_num, params_equal};
use crate::session::{
    Family, FractalRule, ViewState, SINGLE_ONE, SINGLE_PRECISION_ZOOM, ZOOM_LIMIT_NOTICE,
};
use crate::text::{decimal, decimal_chars};

verus! {

/// The bits of 0.5 in single precision.
pub const SINGLE_HALF: u32 = 0x3F00_0000;

/// The least edge of an export or a thumbnail in pixels.
pub const LEAST_EXPORT_EDGE: u32 = 16;

/// The width of a journal thumbnail in pixels.
pub const THUMBNAIL_WIDTH: u32 = 256;

/// The map that is added to a system: half the size, at the origin.
pub open spec fn new_map() -> AffineMap {
    AffineMap {
        a: Single { bits: SINGLE_HALF },
        b: Single { bits: 0 },
        c: Single { bits: 0 },
        d: Single { bits: SINGLE_HALF },
        e: Single { bits: 0 },
        f: Single { bits: 0 },
        weight: Single { bits: SINGLE_ONE },
    }
}

/// The new map halves both coordinates, and weighs as much as any.
pub proof fn law_the_new_map_halves()
    ensures
        new_map().a.bits == 0x3F00_0000 && new_map().d.bits == 0x3F00_0000,
        new_map().b.bits == 0 && new_map().c.bits == 0,
        new_map().e.bits == 0 && new_map().f.bits == 0,
        new_map().weight.bits == 0x3F80_0000,
{
}

/// Add a map to a system.
pub fn add_map(maps: &mut Vec<AffineMap>)
    ensures
        final(maps)@ == old(maps)@.push(new_map()),
{
    let half = Single { bits: SINGLE_HALF };
    let zero = Single { bits: 0 };
    let one = Single { bits: SINGLE_ONE };
    maps.push(AffineMap { a: half, b: zero, c: zero, d: half, e: zero, f: zero, weight: one });
}

/// Remove a map from a system.
pub fn remove_map(maps: &mut Vec<AffineMap>, index: usize)
    requires
        index < old(maps)@.len(),
    ensures
        final(maps)@ == old(maps)@.remove(index as int),
{
    maps.remove(index);
}

/// Add a rewrite rule: one that changes nothing yet.
pub fn add_rule(rules: &mut Vec<Rule>)
    ensures
        final(rules)@.len() == old(rules)@.len() + 1,
        final(rules)@.drop_last() == old(rules)@,
        final(rules)@.last().symbol == 'F',
        final(rules)@.last().replacement@ == "F"@,
{
    rules.push(Rule::new('F', "F"));
    assert(rules@.drop_last() =~= old(rules)@);
}

/// Remove a rewrite rule.
pub fn remove_rule(rules: &mut Vec<Rule>, index: usize)
    requires
        index < old(rules)@.len(),
    ensures
        final(rules)@ == old(rules)@.remove(index as int),
{
    rules.remove(index);
}

/// Take the symbol of a rule from what was typed: the last character, so that
/// typing over a symbol replaces it; nothing typed changes nothing.
pub fn retype_symbol(rule: &mut Rule, typed: &str)
    ensures
        final(rule).replacement == old(rule).replacement,
        final(rule).symbol == if typed@.len() == 0 {
            old(rule).symbol
        } else {
            typed@.last()
        },
{
    let ghost before = rule.symbol;
    let mut symbol: char = rule.symbol;
    for c in it: typed.chars()
        invariant
            it.seq() == typed@,
            symbol == if it.index() == 0 {
                before
            } else {
                typed@[it.index() - 1]
            },
    {
        symbol = c;
    }
    rule.symbol = symbol;
}

/// Whether an attractor's map was edited, so that the viewport is to be fitted
/// again.
pub fn attractor_edited(
    kind: Kind,
    params: [Double; 4],
    now_kind: Kind,
    now_params: [Double; 4],
) -> (r: bool)
    ensures
        r == !(kind == now_kind && params_eq_num(params, now_params)),
{
    !(kind == now_kind && params_equal(params, now_params))
}

/// The notice that the symbol cap cut an expansion short.
pub fn cap_notice(done: u32, requested: u32) -> (r: Option<String>)
    ensures
        r is Some <==> done < requested,
        r matches Some(text) ==> text@ == "Symbol cap reached — showing generation "@
            + decimal_chars(done as nat) + " of "@ + decimal_chars(requested as nat) + "."@,
{
    if done >= requested {
        return None;
    }
    let mut text: String = "Symbol cap reached — showing generation ".to_owned();
    text.append(decimal(done as u128).as_str());
    text.append(" of ");
    text.append(decimal(requested as u128).as_str());
    text.append(".");
    Some(text)
}

/// How far a density plot has come, while it has not come to its end: the
/// points done, and those asked for. `ifs_done` and `attractor_done` are what
/// the plots that are kept have done.
pub fn density_progress(
    rule: &FractalRule,
    ifs_done: Option<u64>,
    attractor_done: Option<u64>,
) -> (r: Option<(u64, u64)>)
    ensures
        r == match rule {
            FractalRule::Ifs { points, .. } => match ifs_done {
                Some(done) if done < *points => Some((done, *points)),
                _ => None,
            },
            FractalRule::Attractor { points, .. } => match attractor_done {
                Some(done) if done < *points => Some((done, *points)),
                _ => None,
            },
            _ => None,
        },
{
    let (done, points): (Option<u64>, u64) = match rule {
        FractalRule::Ifs { points, .. } => (ifs_done, *points),
        FractalRule::Attractor { points, .. } => (attractor_done, *points),
        _ => (None, 0),
    };
    match done {
        Some(done) => if done < points {
            Some((done, points))
        } else {
            None
        },
        None => None,
    }
}

/// Whether the zoom limit is reached.
pub fn at_zoom_limit(view: &ViewState) -> (r: bool)
    ensures
        r == (view.rule is Mandelbrot && !view.units_per_point.nan() && view.units_per_point.rank()
            <= ZOOM_LIMIT_NOTICE),
{
    matches!(view.rule, FractalRule::Mandelbrot) && view.units_per_point.at_most(
        Double { bits: ZOOM_LIMIT_NOTICE },
    )
}

/// Whether a view is zoomed further than its renderer can resolve: deep zoom
/// is for the Mandelbrot set only.
pub fn beyond_single_precision(rule: &FractalRule, zoom: Double) -> (r: bool)
    ensures
        r == (rule.family_of().escape_time() && !(rule is Mandelbrot) && !zoom.nan() && zoom.rank()
            > SINGLE_PRECISION_ZOOM),
{
    match rule.family() {
        Family::Multibrot | Family::Julia => Double { bits: SINGLE_PRECISION_ZOOM }.less_than(zoom),
        _ => false,
    }
}

/// An edge of an export: as asked for, and at least some pixels.
pub fn export_edge(edge: u32) -> (r: u32)
    ensures
        r == if edge < LEAST_EXPORT_EDGE {
            LEAST_EXPORT_EDGE
        } else {
            edge
        },
{
    if edge < LEAST_EXPORT_EDGE {
        LEAST_EXPORT_EDGE
    } else {
        edge
    }
}

} // verus!
