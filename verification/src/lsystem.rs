//! L-systems: parallel string rewriting interpreted as turtle graphics.
//!
//! An L-system is an axiom string plus rewrite rules, expanded for a number
//! of generations and then read as turtle commands: `F`/`G` draw a unit step,
//! `f`/`g` move without drawing, `+`/`-` turn by the system's angle, `[`/`]`
//! push/pop the turtle state (branching). Every other symbol is a placeholder
//! that only drives the rewriting.

use vstd::prelude::*;
use vstd::string::StringExecFns;
use vstd::utf8::encode_utf8;

use crate::density::{
    greatest, least, lemma_greatest, lemma_greatest_of_any, lemma_least, lemma_least_of_any,
};
use crate::float::{Double, Point};
use crate::raster::{last_over, none_over, painted, Canvas, Stroke};

verus! {

/// Expansion stops before the symbol string outgrows this many bytes (keeps
/// the caller responsive when generations are cranked up on a fast-growing
/// system).
pub const MAX_SYMBOLS: usize = 16_000_000;

/// One rewrite rule: every occurrence of `symbol` becomes `replacement`.
#[derive(Clone, PartialEq, Debug)]
pub struct Rule {
    pub symbol: char,
    pub replacement: String,
}

impl Rule {
    /// The rule that rewrites `symbol` to `replacement`.
    pub fn new(symbol: char, replacement: &str) -> (rule: Rule)
        ensures
            rule.symbol == symbol,
            rule.replacement@ == replacement@,
    {
        Rule { symbol, replacement: replacement.to_owned() }
    }
}

/// `String::push` of the standard library: appends one character.
pub assume_specification[ String::push ](text: &mut String, symbol: char)
    ensures
        final(text)@ == old(text)@.push(symbol),
;

/// What one symbol becomes: the replacement of the first rule for it, or the
/// symbol itself where no rule names it.
pub open spec fn image(rules: Seq<Rule>, symbol: char) -> Seq<char>
    decreases rules.len(),
{
    if rules.len() == 0 {
        seq![symbol]
    } else if rules[0].symbol == symbol {
        rules[0].replacement@
    } else {
        image(rules.drop_first(), symbol)
    }
}

/// One round of rewriting: the images of all symbols, in order.
pub open spec fn rewrite(rules: Seq<Rule>, symbols: Seq<char>) -> Seq<char>
    decreases symbols.len(),
{
    if symbols.len() == 0 {
        seq![]
    } else {
        rewrite(rules, symbols.drop_last()) + image(rules, symbols.last())
    }
}

/// The string after `rounds` rounds of rewriting.
pub open spec fn generation(start: Seq<char>, rules: Seq<Rule>, rounds: nat) -> Seq<char>
    decreases rounds,
{
    if rounds == 0 {
        start
    } else {
        rewrite(rules, generation(start, rules, (rounds - 1) as nat))
    }
}

/// Whether a symbol string stays within `cap` bytes of UTF-8.
pub open spec fn fits(symbols: Seq<char>, cap: usize) -> bool {
    encode_utf8(symbols).len() <= cap
}

proof fn lemma_encode_concat(a: Seq<char>, b: Seq<char>)
    ensures
        encode_utf8(a + b) == encode_utf8(a) + encode_utf8(b),
    decreases a.len(),
{
    if a.len() == 0 {
        assert(a + b =~= b);
        assert(encode_utf8(a) + encode_utf8(b) =~= encode_utf8(b));
    } else {
        lemma_encode_concat(a.drop_first(), b);
        assert((a + b).drop_first() =~= a.drop_first() + b);
        assert((a + b)[0] == a[0]);
        assert(encode_utf8(a + b) =~= encode_utf8(a) + encode_utf8(b));
    }
}

/// Rewriting is parallel: the parts of a string are rewritten independently.
pub proof fn law_rewrite_concat(rules: Seq<Rule>, a: Seq<char>, b: Seq<char>)
    ensures
        rewrite(rules, a + b) == rewrite(rules, a) + rewrite(rules, b),
    decreases b.len(),
{
    if b.len() == 0 {
        assert(a + b =~= a);
        assert(rewrite(rules, a) + rewrite(rules, b) =~= rewrite(rules, a));
    } else {
        law_rewrite_concat(rules, a, b.drop_last());
        assert((a + b).drop_last() =~= a + b.drop_last());
        assert((a + b).last() == b.last());
        assert(rewrite(rules, a + b) =~= rewrite(rules, a) + rewrite(rules, b));
    }
}

/// Symbols without a rule survive any number of rounds unchanged.
pub proof fn law_unruled_symbols_survive(start: Seq<char>, rules: Seq<Rule>, rounds: nat)
    requires
        forall|i: int, j: int|
            0 <= i < start.len() && 0 <= j < rules.len() ==> #[trigger] rules[j].symbol
                != #[trigger] start[i],
    ensures
        generation(start, rules, rounds) == start,
    decreases rounds,
{
    if rounds > 0 {
        law_unruled_symbols_survive(start, rules, (rounds - 1) as nat);
        lemma_unruled_rewrite(rules, start);
    }
}

proof fn lemma_unruled_image(rules: Seq<Rule>, symbol: char)
    requires
        forall|j: int| 0 <= j < rules.len() ==> (#[trigger] rules[j]).symbol != symbol,
    ensures
        image(rules, symbol) == seq![symbol],
    decreases rules.len(),
{
    if rules.len() > 0 {
        assert forall|j: int| 0 <= j < rules.drop_first().len() implies (
        #[trigger] rules.drop_first()[j]).symbol != symbol by {
            assert(rules.drop_first()[j] == rules[j + 1]);
        }
        lemma_unruled_image(rules.drop_first(), symbol);
    }
}

proof fn lemma_unruled_rewrite(rules: Seq<Rule>, symbols: Seq<char>)
    requires
        forall|i: int, j: int|
            0 <= i < symbols.len() && 0 <= j < rules.len() ==> #[trigger] rules[j].symbol
                != #[trigger] symbols[i],
    ensures
        rewrite(rules, symbols) == symbols,
    decreases symbols.len(),
{
    if symbols.len() > 0 {
        let front = symbols.drop_last();
        assert forall|i: int, j: int|
            0 <= i < front.len() && 0 <= j < rules.len() implies #[trigger] rules[j].symbol
            != #[trigger] front[i] by {
            assert(front[i] == symbols[i]);
        }
        lemma_unruled_rewrite(rules, front);
        lemma_unruled_image(rules, symbols.last());
        assert(rewrite(rules, symbols) =~= symbols);
    }
}

proof fn lemma_first_rule_image(rules: Seq<Rule>, i: int)
    requires
        0 <= i < rules.len(),
        forall|j: int| 0 <= j < i ==> (#[trigger] rules[j]).symbol != rules[i].symbol,
    ensures
        image(rules, rules[i].symbol) == rules[i].replacement@,
    decreases rules.len(),
{
    if i > 0 {
        assert(rules[0].symbol != rules[i].symbol);
        let rest = rules.drop_first();
        assert(rest[i - 1] == rules[i]);
        assert forall|j: int| 0 <= j < i - 1 implies (#[trigger] rest[j]).symbol != rest[i
            - 1].symbol by {
            assert(rest[j] == rules[j + 1]);
        }
        lemma_first_rule_image(rest, i - 1);
    }
}

/// A symbol becomes the replacement of the first rule that names it, letter
/// for letter.
pub proof fn law_the_first_rule_replaces(rules: Seq<Rule>, i: int)
    requires
        0 <= i < rules.len(),
        forall|j: int| 0 <= j < i ==> (#[trigger] rules[j]).symbol != rules[i].symbol,
    ensures
        rewrite(rules, seq![rules[i].symbol]) == rules[i].replacement@,
{
    let one = seq![rules[i].symbol];
    lemma_first_rule_image(rules, i);
    assert(one.drop_last() =~= Seq::<char>::empty());
    assert(rewrite(rules, one.drop_last()) == Seq::<char>::empty());
    assert(rewrite(rules, one) =~= rules[i].replacement@);
}

/// A symbol that no rule names stays, and nothing becomes nothing.
pub proof fn law_an_unruled_symbol_stays(rules: Seq<Rule>, symbol: char)
    requires
        forall|j: int| 0 <= j < rules.len() ==> (#[trigger] rules[j]).symbol != symbol,
    ensures
        rewrite(rules, seq![symbol]) == seq![symbol],
        rewrite(rules, Seq::empty()) == Seq::<char>::empty(),
{
    lemma_unruled_rewrite(rules, seq![symbol]);
}

/// The replacements of a string stand in the order of its symbols: where a
/// string is cut at a symbol, its rewriting is that of the part before, the
/// replacement of the first rule for the symbol, and that of the part after.
pub proof fn law_a_replacement_takes_its_symbols_place(
    rules: Seq<Rule>,
    before: Seq<char>,
    i: int,
    after: Seq<char>,
)
    requires
        0 <= i < rules.len(),
        forall|j: int| 0 <= j < i ==> (#[trigger] rules[j]).symbol != rules[i].symbol,
    ensures
        rewrite(rules, before + seq![rules[i].symbol] + after) == rewrite(rules, before)
            + rules[i].replacement@ + rewrite(rules, after),
{
    law_the_first_rule_replaces(rules, i);
    law_rewrite_concat(rules, before, seq![rules[i].symbol]);
    law_rewrite_concat(rules, before + seq![rules[i].symbol], after);
}

/// No round leaves a string as it is; every further round rewrites the string
/// of the round before it, once.
pub proof fn law_every_generation_rewrites_the_last(
    start: Seq<char>,
    rules: Seq<Rule>,
    rounds: nat,
)
    ensures
        generation(start, rules, 0) == start,
        generation(start, rules, rounds + 1) == rewrite(rules, generation(start, rules, rounds)),
{
}

/// Expanding in two stretches is expanding once: generation `n` of generation
/// `m` is generation `m + n`.
pub proof fn law_generations_compose(start: Seq<char>, rules: Seq<Rule>, m: nat, n: nat)
    ensures
        generation(generation(start, rules, m), rules, n) == generation(start, rules, m + n),
    decreases n,
{
    if n > 0 {
        law_generations_compose(start, rules, m, (n - 1) as nat);
    }
}

/// The replacement for `symbol`: that of the first rule that names it.
fn replacement_for<'a>(rules: &'a [Rule], symbol: char) -> (found: Option<&'a String>)
    ensures
        match found {
            Some(text) => image(rules@, symbol) == text@,
            None => image(rules@, symbol) == seq![symbol],
        },
{
    let mut i: usize = 0;
    assert(rules@.skip(0) =~= rules@);
    while i < rules.len()
        invariant
            i <= rules.len(),
            image(rules@, symbol) == image(rules@.skip(i as int), symbol),
        decreases rules.len() - i,
    {
        assert(rules@.skip(i as int)[0] == rules@[i as int]);
        if rules[i].symbol == symbol {
            return Some(&rules[i].replacement);
        }
        assert(rules@.skip(i as int).drop_first() =~= rules@.skip(i + 1));
        i += 1;
    }
    None
}

/// One round of rewriting, or `None` when the result would outgrow `cap`
/// bytes.
fn rewrite_within(symbols: &str, rules: &[Rule], cap: usize) -> (next: Option<String>)
    ensures
        match next {
            Some(text) => text@ == rewrite(rules@, symbols@) && fits(text@, cap),
            None => !fits(rewrite(rules@, symbols@), cap),
        },
{
    let mut next = String::new();
    assert(symbols@.take(0) =~= Seq::<char>::empty());
    for symbol in it: symbols.chars()
        invariant
            it.seq() == symbols@,
            next@ == rewrite(rules@, symbols@.take(it.index() as int)),
            fits(next@, cap),
    {
        let ghost done: int = it.index() as int;
        let ghost front = symbols@.take(done);
        match replacement_for(rules, symbol) {
            Some(text) => next.append(text.as_str()),
            None => {
                next.push(symbol);
                assert(rewrite(rules@, front).push(symbol) =~= rewrite(rules@, front)
                    + seq![symbol]);
            },
        }
        assert(symbols@.take(done + 1).drop_last() =~= front);
        assert(symbols@.take(done + 1).last() == symbol);
        if next.as_str().as_bytes().len() > cap {
            proof {
                let rest = symbols@.skip(done + 1);
                assert(symbols@ =~= symbols@.take(done + 1) + rest);
                law_rewrite_concat(rules@, symbols@.take(done + 1), rest);
                lemma_encode_concat(
                    rewrite(rules@, symbols@.take(done + 1)),
                    rewrite(rules@, rest),
                );
            }
            return None;
        }
    }
    assert(symbols@.take(symbols@.len() as int) =~= symbols@);
    Some(next)
}

/// What an expansion gives: the last of `generations` generations up to which
/// each fits into `cap` bytes, and its number.
pub open spec fn expanded(
    start: Seq<char>,
    rules: Seq<Rule>,
    generations: nat,
    cap: usize,
    symbols: Seq<char>,
    done: nat,
) -> bool {
    &&& done <= generations
    &&& symbols == generation(start, rules, done)
    &&& forall|k: nat| 1 <= k <= done ==> fits(#[trigger] generation(start, rules, k), cap)
    &&& done < generations ==> !fits(generation(start, rules, done + 1), cap)
}

/// Expansion stops early exactly where the next full round outgrows the cap:
/// what it gives fits (unless nothing was rewritten), one more round, however
/// much room it is given, does not, and no round is left out otherwise.
pub proof fn law_expansion_stops_at_the_cap(
    start: Seq<char>,
    rules: Seq<Rule>,
    generations: nat,
    cap: usize,
    symbols: Seq<char>,
    done: nat,
    next: Seq<char>,
    more: nat,
)
    requires
        expanded(start, rules, generations, cap, symbols, done),
        expanded(symbols, rules, 1, usize::MAX, next, more),
    ensures
        done > 0 ==> fits(symbols, cap),
        done < generations ==> !fits(rewrite(rules, symbols), cap),
        done < generations && more == 1 ==> next == rewrite(rules, symbols) && !fits(next, cap),
        more == 0 ==> !fits(rewrite(rules, symbols), usize::MAX),
        done == generations <==> forall|k: nat|
            1 <= k <= generations ==> fits(#[trigger] generation(start, rules, k), cap),
{
    assert(generation(symbols, rules, 0) == symbols);
    assert(generation(symbols, rules, 1) == rewrite(rules, symbols));
    assert(generation(start, rules, done + 1) == rewrite(rules, symbols));
}

/// An expansion is a whole generation, and the cap counts the bytes of its
/// UTF-8: every generation up to it takes at most that many, and where rounds
/// are left over the next one takes more.
pub proof fn law_the_cap_counts_bytes(
    start: Seq<char>,
    rules: Seq<Rule>,
    generations: nat,
    cap: usize,
    symbols: Seq<char>,
    done: nat,
)
    ensures
        MAX_SYMBOLS == 16_000_000,
        expanded(start, rules, generations, cap, symbols, done) <==> {
            &&& done <= generations
            &&& symbols == generation(start, rules, done)
            &&& forall|k: nat|
                1 <= k <= done ==> encode_utf8(#[trigger] generation(start, rules, k)).len() <= cap
            &&& done < generations ==> encode_utf8(rewrite(rules, symbols)).len() > cap
        },
{
    assert(generation(start, rules, done + 1) == rewrite(rules, generation(start, rules, done)));
    if expanded(start, rules, generations, cap, symbols, done) {
        assert forall|k: nat| 1 <= k <= done implies encode_utf8(
            #[trigger] generation(start, rules, k),
        ).len() <= cap by {
            assert(fits(generation(start, rules, k), cap));
        }
    }
}

/// Rewrite `start` (the axiom) for `generations` rounds. If a round would exceed `cap`
/// bytes, the previous (complete) generation is returned instead — never a
/// partially rewritten string. Returns the symbols and the number of rounds
/// actually applied.
pub fn expand(start: &str, rules: &[Rule], generations: u32, cap: usize) -> (r: (String, u32))
    ensures
        expanded(start@, rules@, generations as nat, cap, r.0@, r.1 as nat),
{
    let mut symbols = start.to_owned();
    let mut done: u32 = 0;
    while done < generations
        invariant
            done <= generations,
            symbols@ == generation(start@, rules@, done as nat),
            forall|k: nat| 1 <= k <= done ==> fits(#[trigger] generation(start@, rules@, k), cap),
        decreases generations - done,
    {
        match rewrite_within(symbols.as_str(), rules, cap) {
            None => {
                return (symbols, done);
            },
            Some(next) => {
                symbols = next;
                done += 1;
            },
        }
    }
    (symbols, generations)
}

/// A turn of the turtle: the heading it starts from, and the side it turns to
/// (`left` is counter-clockwise, by the system's angle).
#[derive(Clone, Copy, Debug, PartialEq, Eq, Structural)]
pub struct Bend {
    pub from: usize,
    pub left: bool,
}

/// A unit step of the turtle: the position it leaves, the heading it follows,
/// and whether it leaves a line.
#[derive(Clone, Copy, Debug, PartialEq, Eq, Structural)]
pub struct Step {
    pub from: usize,
    pub heading: usize,
    pub draw: bool,
}

/// A turtle walk, free of any angle. Heading 0 is straight up and bend `k`
/// makes heading `k + 1`; position 0 is the origin and step `k` reaches
/// position `k + 1`. Each refers only to what stands before it, so one pass
/// over `bends` and one over `steps` give all coordinates.
#[derive(Clone, Debug)]
pub struct Path {
    pub bends: Vec<Bend>,
    pub steps: Vec<Step>,
}

/// The state of a turtle in the middle of a walk.
pub struct Turtle {
    pub position: nat,
    pub heading: nat,
    pub stack: Seq<(nat, nat)>,
    pub bends: Seq<Bend>,
    pub steps: Seq<Step>,
}

/// Whether a symbol moves the turtle.
pub open spec fn moves(symbol: char) -> bool {
    draws(symbol) || symbol == 'f' || symbol == 'g'
}

/// Whether a symbol draws a line.
pub open spec fn draws(symbol: char) -> bool {
    symbol == 'F' || symbol == 'G'
}

/// The turtle at the origin, heading up.
pub open spec fn turtle_start() -> Turtle {
    Turtle { position: 0, heading: 0, stack: seq![], bends: seq![], steps: seq![] }
}

/// The turtle after one more command.
pub open spec fn turtle_step(t: Turtle, symbol: char) -> Turtle {
    if moves(symbol) {
        Turtle {
            position: t.steps.len() + 1,
            steps: t.steps.push(
                Step { from: t.position as usize, heading: t.heading as usize, draw: draws(symbol) },
            ),
            ..t
        }
    } else if symbol == '+' || symbol == '-' {
        Turtle {
            heading: t.bends.len() + 1,
            bends: t.bends.push(Bend { from: t.heading as usize, left: symbol == '+' }),
            ..t
        }
    } else if symbol == '[' {
        Turtle { stack: t.stack.push((t.position, t.heading)), ..t }
    } else if symbol == ']' && t.stack.len() > 0 {
        Turtle {
            position: t.stack.last().0,
            heading: t.stack.last().1,
            stack: t.stack.drop_last(),
            ..t
        }
    } else {
        t
    }
}

/// The turtle after a string of commands.
pub open spec fn turtle_run(t: Turtle, symbols: Seq<char>) -> Turtle
    decreases symbols.len(),
{
    if symbols.len() == 0 {
        t
    } else {
        turtle_step(turtle_run(t, symbols.drop_last()), symbols.last())
    }
}

/// The number of symbols that draw.
pub open spec fn drawing_symbols(symbols: Seq<char>) -> nat {
    symbols.filter(|symbol: char| draws(symbol)).len()
}

/// The number of steps that leave a line.
pub open spec fn drawn_steps(steps: Seq<Step>) -> nat {
    steps.filter(|step: Step| step.draw).len()
}

/// Opening brackets minus closing brackets.
pub open spec fn depth(symbols: Seq<char>) -> int
    decreases symbols.len(),
{
    if symbols.len() == 0 {
        0
    } else {
        depth(symbols.drop_last()) + (if symbols.last() == '[' {
            1int
        } else if symbols.last() == ']' {
            -1
        } else {
            0
        })
    }
}

/// Brackets close what they open, and nothing else.
pub open spec fn balanced(symbols: Seq<char>) -> bool {
    &&& depth(symbols) == 0
    &&& forall|k: int| 0 <= k <= symbols.len() ==> #[trigger] depth(symbols.take(k)) >= 0
}

proof fn lemma_stack_below(t: Turtle, symbols: Seq<char>)
    requires
        forall|k: int| 0 <= k <= symbols.len() ==> #[trigger] depth(symbols.take(k)) >= 0,
    ensures
        turtle_run(t, symbols).stack.len() == t.stack.len() + depth(symbols),
        turtle_run(t, symbols).stack.take(t.stack.len() as int) == t.stack,
    decreases symbols.len(),
{
    assert(symbols.take(symbols.len() as int) =~= symbols);
    if symbols.len() == 0 {
        assert(t.stack.take(t.stack.len() as int) =~= t.stack);
    } else {
        let front = symbols.drop_last();
        assert forall|k: int| 0 <= k <= front.len() implies #[trigger] depth(front.take(k))
            >= 0 by {
            assert(front.take(k) =~= symbols.take(k));
        }
        lemma_stack_below(t, front);
        let before = turtle_run(t, front);
        let after = turtle_run(t, symbols);
        assert(depth(symbols.take(symbols.len() as int)) >= 0);
        assert(after.stack.take(t.stack.len() as int) =~= before.stack.take(t.stack.len() as int));
    }
}

/// A bracketed branch leaves the turtle where it found it: after `[`, a
/// balanced string and `]`, position, heading and the open branches are what
/// they were.
pub proof fn law_brackets_restore(t: Turtle, branch: Seq<char>)
    requires
        balanced(branch),
    ensures
        turtle_run(t, seq!['['] + branch + seq![']']).position == t.position,
        turtle_run(t, seq!['['] + branch + seq![']']).heading == t.heading,
        turtle_run(t, seq!['['] + branch + seq![']']).stack == t.stack,
{
    let opened = turtle_step(t, '[');
    lemma_stack_below(opened, branch);
    let inside = turtle_run(opened, branch);
    assert(inside.stack =~= opened.stack.take(opened.stack.len() as int));
    assert(inside.stack =~= t.stack.push((t.position, t.heading)));
    let whole = seq!['['] + branch + seq![']'];
    assert(whole.drop_last() =~= seq!['['] + branch);
    law_runs_compose(t, seq!['['], branch);
    assert(seq!['['].drop_last() =~= Seq::<char>::empty());
    assert(turtle_run(t, Seq::<char>::empty()) == t);
    assert(turtle_run(t, seq!['[']) == opened);
    assert(turtle_run(t, whole) == turtle_step(inside, ']'));
    assert(inside.stack.drop_last() =~= t.stack);
}

/// A closing bracket with no branch open is ignored, and so is every symbol
/// that is no command.
pub proof fn law_other_symbols_do_nothing(t: Turtle, symbol: char)
    requires
        symbol != 'F' && symbol != 'G' && symbol != 'f' && symbol != 'g',
        symbol != '+' && symbol != '-' && symbol != '[',
        symbol != ']' || t.stack.len() == 0,
    ensures
        turtle_step(t, symbol) == t,
{
}

/// `F` and `G` draw a step from where the turtle is along its heading, `f`
/// and `g` make the same step without a line; the turtle then is where the
/// step ends, with its heading and its open branches as before.
pub proof fn law_a_step_goes_along_the_heading(t: Turtle, symbol: char)
    requires
        symbol == 'F' || symbol == 'G' || symbol == 'f' || symbol == 'g',
        t.position <= usize::MAX,
        t.heading <= usize::MAX,
    ensures
        ({
            let after = turtle_step(t, symbol);
            let step = after.steps[t.steps.len() as int];
            &&& after.steps.len() == t.steps.len() + 1
            &&& forall|k: int| 0 <= k < t.steps.len() ==> #[trigger] after.steps[k] == t.steps[k]
            &&& step.from == t.position
            &&& step.heading == t.heading
            &&& step.draw <==> symbol == 'F' || symbol == 'G'
            &&& after.position == after.steps.len()
            &&& after.heading == t.heading
            &&& after.stack == t.stack
            &&& after.bends == t.bends
        }),
{
}

/// `+` turns the turtle left of its heading and `-` right of it, and neither
/// moves it.
pub proof fn law_a_bend_turns_from_the_heading(t: Turtle, symbol: char)
    requires
        symbol == '+' || symbol == '-',
        t.heading <= usize::MAX,
    ensures
        ({
            let after = turtle_step(t, symbol);
            let bend = after.bends[t.bends.len() as int];
            &&& after.bends.len() == t.bends.len() + 1
            &&& forall|k: int| 0 <= k < t.bends.len() ==> #[trigger] after.bends[k] == t.bends[k]
            &&& bend.from == t.heading
            &&& bend.left <==> symbol == '+'
            &&& after.heading == after.bends.len()
            &&& after.position == t.position
            &&& after.stack == t.stack
            &&& after.steps == t.steps
        }),
{
}

/// `[` remembers position and heading and `]` takes the turtle back to what
/// was remembered last; neither draws, moves or turns anything that stands.
pub proof fn law_brackets_remember_and_return(t: Turtle)
    ensures
        turtle_step(t, '[').stack == t.stack.push((t.position, t.heading)),
        turtle_step(t, '[').position == t.position,
        turtle_step(t, '[').heading == t.heading,
        turtle_step(t, '[').steps == t.steps && turtle_step(t, '[').bends == t.bends,
        turtle_step(t, ']').steps == t.steps && turtle_step(t, ']').bends == t.bends,
        t.stack.len() > 0 ==> {
            let after = turtle_step(t, ']');
            &&& (after.position, after.heading) == t.stack[t.stack.len() - 1]
            &&& after.stack.push((after.position, after.heading)) == t.stack
        },
{
    if t.stack.len() > 0 {
        assert(t.stack.drop_last().push(t.stack.last()) =~= t.stack);
    }
}

/// A walk starts at the origin, heading up, and takes the commands of its
/// string one by one, the first one first.
pub proof fn law_commands_are_taken_in_turn(t: Turtle, symbols: Seq<char>, symbol: char)
    ensures
        turtle_run(t, Seq::empty()) == t,
        turtle_run(t, symbols.push(symbol)) == turtle_step(turtle_run(t, symbols), symbol),
        turtle_start().position == 0 && turtle_start().heading == 0,
        turtle_start().stack.len() == 0,
        turtle_start().steps.len() == 0 && turtle_start().bends.len() == 0,
{
    assert(symbols.push(symbol).drop_last() =~= symbols);
}

/// Walking two strings in turn is walking their concatenation.
pub proof fn law_runs_compose(t: Turtle, a: Seq<char>, b: Seq<char>)
    ensures
        turtle_run(t, a + b) == turtle_run(turtle_run(t, a), b),
    decreases b.len(),
{
    if b.len() == 0 {
        assert(a + b =~= a);
    } else {
        law_runs_compose(t, a, b.drop_last());
        assert((a + b).drop_last() =~= a + b.drop_last());
    }
}

/// Every drawing symbol draws exactly one line, and nothing else does.
pub proof fn law_one_line_per_drawing_symbol(symbols: Seq<char>)
    ensures
        drawn_steps(turtle_run(turtle_start(), symbols).steps) == drawing_symbols(symbols),
    decreases symbols.len(),
{
    reveal_with_fuel(Seq::filter, 2);
    if symbols.len() > 0 {
        law_one_line_per_drawing_symbol(symbols.drop_last());
        let before = turtle_run(turtle_start(), symbols.drop_last());
        if moves(symbols.last()) {
            let after = turtle_run(turtle_start(), symbols);
            assert(after.steps.drop_last() =~= before.steps);
        }
    }
}

/// Interpret an expanded string as turtle commands (unit step, starting at
/// the origin heading up). Unbalanced `]` are ignored.
pub fn turtle_segments(symbols: &str) -> (path: Path)
    ensures
        path.bends@ == turtle_run(turtle_start(), symbols@).bends,
        path.steps@ == turtle_run(turtle_start(), symbols@).steps,
        forall|k: int| 0 <= k < path.bends@.len() ==> (#[trigger] path.bends@[k]).from <= k,
        forall|k: int|
            0 <= k < path.steps@.len() ==> (#[trigger] path.steps@[k]).from <= k
                && path.steps@[k].heading <= path.bends@.len(),
{
    let mut bends: Vec<Bend> = Vec::new();
    let mut steps: Vec<Step> = Vec::new();
    let mut position: usize = 0;
    let mut heading: usize = 0;
    let mut stack: Vec<(usize, usize)> = Vec::new();
    assert(symbols@.take(0) =~= Seq::<char>::empty());
    assert(stack@.map_values(|saved: (usize, usize)| (saved.0 as nat, saved.1 as nat)) =~= Seq::<
        (nat, nat),
    >::empty());
    for symbol in it: symbols.chars()
        invariant
            it.seq() == symbols@,
            ({
                let t = turtle_run(turtle_start(), symbols@.take(it.index() as int));
                &&& t.position == position
                &&& t.heading == heading
                &&& t.bends == bends@
                &&& t.steps == steps@
                &&& t.stack == stack@.map_values(
                    |saved: (usize, usize)| (saved.0 as nat, saved.1 as nat),
                )
            }),
            position <= steps@.len(),
            heading <= bends@.len(),
            forall|k: int|
                0 <= k < stack@.len() ==> (#[trigger] stack@[k]).0 <= steps@.len() && stack@[k].1
                    <= bends@.len(),
            forall|k: int| 0 <= k < bends@.len() ==> (#[trigger] bends@[k]).from <= k,
            forall|k: int|
                0 <= k < steps@.len() ==> (#[trigger] steps@[k]).from <= k && steps@[k].heading
                    <= bends@.len(),
    {
        let ghost done: int = it.index() as int;
        let ghost saved_stack = stack@;
        assert(symbols@.take(done + 1).drop_last() =~= symbols@.take(done));
        assert(symbols@.take(done + 1).last() == symbol);
        if symbol == 'F' || symbol == 'G' || symbol == 'f' || symbol == 'g' {
            let draw = symbol == 'F' || symbol == 'G';
            steps.push(Step { from: position, heading, draw });
            position = steps.len();
        } else if symbol == '+' || symbol == '-' {
            bends.push(Bend { from: heading, left: symbol == '+' });
            heading = bends.len();
        } else if symbol == '[' {
            stack.push((position, heading));
            assert(stack@.map_values(|saved: (usize, usize)| (saved.0 as nat, saved.1 as nat))
                =~= saved_stack.map_values(
                |saved: (usize, usize)| (saved.0 as nat, saved.1 as nat),
            ).push((position as nat, heading as nat)));
        } else if symbol == ']' {
            if let Some(saved) = stack.pop() {
                assert(saved == saved_stack.last());
                position = saved.0;
                heading = saved.1;
                assert(stack@.map_values(|saved: (usize, usize)| (saved.0 as nat, saved.1 as nat))
                    =~= saved_stack.map_values(
                    |saved: (usize, usize)| (saved.0 as nat, saved.1 as nat),
                ).drop_last());
            }
        }
    }
    assert(symbols@.take(symbols@.len() as int) =~= symbols@);
    Path { bends, steps }
}

/// Expand and interpret in one step; also returns the generations actually
/// applied (less than requested when `MAX_SYMBOLS` cuts expansion short).
pub fn segments(start: &str, rules: &[Rule], generations: u32) -> (r: (Path, u32))
    ensures
        r.1 <= generations,
        forall|k: nat|
            1 <= k <= r.1 ==> fits(#[trigger] generation(start@, rules@, k), MAX_SYMBOLS),
        r.1 < generations ==> !fits(generation(start@, rules@, (r.1 + 1) as nat), MAX_SYMBOLS),
        ({
            let walked = turtle_run(
                turtle_start(),
                generation(start@, rules@, r.1 as nat),
            );
            r.0.bends@ == walked.bends && r.0.steps@ == walked.steps
        }),
        forall|k: int| 0 <= k < r.0.bends@.len() ==> (#[trigger] r.0.bends@[k]).from <= k,
        forall|k: int|
            0 <= k < r.0.steps@.len() ==> (#[trigger] r.0.steps@[k]).from <= k
                && r.0.steps@[k].heading <= r.0.bends@.len(),
{
    let (symbols, done) = expand(start, rules, generations, MAX_SYMBOLS);
    (turtle_segments(symbols.as_str()), done)
}

/// A line segment in world coordinates.
#[derive(Clone, Copy, Debug, PartialEq, Eq, Structural)]
pub struct Segment {
    pub x0: Double,
    pub y0: Double,
    pub x1: Double,
    pub y1: Double,
}

/// The x coordinates of all endpoints.
pub open spec fn x_ends(segs: Seq<Segment>) -> Seq<Double> {
    Seq::new(
        2 * segs.len(),
        |i: int|
            if i % 2 == 0 {
                segs[i / 2].x0
            } else {
                segs[i / 2].x1
            },
    )
}

/// The y coordinates of all endpoints.
pub open spec fn y_ends(segs: Seq<Segment>) -> Seq<Double> {
    Seq::new(
        2 * segs.len(),
        |i: int|
            if i % 2 == 0 {
                segs[i / 2].y0
            } else {
                segs[i / 2].y1
            },
    )
}

/// Bounding box (min x, min y, max x, max y) of some segments, of which there
/// is at least one.
pub open spec fn hull(segs: Seq<Segment>) -> Seq<Double> {
    seq![
        least(segs[0].x0, x_ends(segs)),
        least(segs[0].y0, y_ends(segs)),
        greatest(segs[0].x0, x_ends(segs)),
        greatest(segs[0].y0, y_ends(segs)),
    ]
}

/// All four coordinates are numbers.
pub open spec fn numeric(s: Segment) -> bool {
    !s.x0.nan() && !s.y0.nan() && !s.x1.nan() && !s.y1.nan()
}

/// The box covers every segment it was made from.
pub proof fn law_bounds_cover(segs: Seq<Segment>, i: int)
    requires
        0 <= i < segs.len(),
        forall|k: int| 0 <= k < segs.len() ==> numeric(#[trigger] segs[k]),
    ensures
        hull(segs)[0].rank() <= segs[i].x0.rank() <= hull(segs)[2].rank(),
        hull(segs)[0].rank() <= segs[i].x1.rank() <= hull(segs)[2].rank(),
        hull(segs)[1].rank() <= segs[i].y0.rank() <= hull(segs)[3].rank(),
        hull(segs)[1].rank() <= segs[i].y1.rank() <= hull(segs)[3].rank(),
        forall|side: int| 0 <= side < 4 ==> !(#[trigger] hull(segs)[side]).nan(),
{
    assert(numeric(segs[0]));
    assert forall|k: int| 0 <= k < x_ends(segs).len() implies !(#[trigger] x_ends(segs)[k]).nan() by {
        assert(numeric(segs[k / 2]));
    }
    assert forall|k: int| 0 <= k < y_ends(segs).len() implies !(#[trigger] y_ends(segs)[k]).nan() by {
        assert(numeric(segs[k / 2]));
    }
    lemma_least(segs[0].x0, x_ends(segs));
    lemma_least(segs[0].y0, y_ends(segs));
    lemma_greatest(segs[0].x0, x_ends(segs));
    lemma_greatest(segs[0].y0, y_ends(segs));
    assert(x_ends(segs)[2 * i] == segs[i].x0 && x_ends(segs)[2 * i + 1] == segs[i].x1);
    assert(y_ends(segs)[2 * i] == segs[i].y0 && y_ends(segs)[2 * i + 1] == segs[i].y1);
}

/// The box is no larger than it has to be: each side is a coordinate of some
/// endpoint. It covers every coordinate that is a number, whatever the others
/// are.
pub proof fn law_bounds_are_tight(segs: Seq<Segment>)
    requires
        segs.len() > 0,
    ensures
        hull(segs).len() == 4,
        exists|i: int|
            0 <= i < segs.len() && ((#[trigger] segs[i]).x0 == hull(segs)[0] || segs[i].x1
                == hull(segs)[0]),
        exists|i: int|
            0 <= i < segs.len() && ((#[trigger] segs[i]).y0 == hull(segs)[1] || segs[i].y1
                == hull(segs)[1]),
        exists|i: int|
            0 <= i < segs.len() && ((#[trigger] segs[i]).x0 == hull(segs)[2] || segs[i].x1
                == hull(segs)[2]),
        exists|i: int|
            0 <= i < segs.len() && ((#[trigger] segs[i]).y0 == hull(segs)[3] || segs[i].y1
                == hull(segs)[3]),
        forall|i: int|
            #![trigger segs[i]]
            0 <= i < segs.len() ==> {
                &&& !segs[i].x0.nan() ==> within(hull(segs)[0], segs[i].x0, hull(segs)[2])
                &&& !segs[i].x1.nan() ==> within(hull(segs)[0], segs[i].x1, hull(segs)[2])
                &&& !segs[i].y0.nan() ==> within(hull(segs)[1], segs[i].y0, hull(segs)[3])
                &&& !segs[i].y1.nan() ==> within(hull(segs)[1], segs[i].y1, hull(segs)[3])
            },
{
    let (x, y) = (x_ends(segs), y_ends(segs));
    lemma_least_of_any(segs[0].x0, x);
    lemma_least_of_any(segs[0].y0, y);
    lemma_greatest_of_any(segs[0].x0, x);
    lemma_greatest_of_any(segs[0].y0, y);
    assert(x[0] == segs[0].x0 && y[0] == segs[0].y0);
    let i0 = choose|i: int| 0 <= i < x.len() && #[trigger] x[i] == hull(segs)[0];
    let i1 = choose|i: int| 0 <= i < y.len() && #[trigger] y[i] == hull(segs)[1];
    let i2 = choose|i: int| 0 <= i < x.len() && #[trigger] x[i] == hull(segs)[2];
    let i3 = choose|i: int| 0 <= i < y.len() && #[trigger] y[i] == hull(segs)[3];
    assert(segs[i0 / 2].x0 == x[i0] || segs[i0 / 2].x1 == x[i0]);
    assert(segs[i1 / 2].y0 == y[i1] || segs[i1 / 2].y1 == y[i1]);
    assert(segs[i2 / 2].x0 == x[i2] || segs[i2 / 2].x1 == x[i2]);
    assert(segs[i3 / 2].y0 == y[i3] || segs[i3 / 2].y1 == y[i3]);
    assert forall|i: int|
        #![trigger segs[i]]
        0 <= i < segs.len() implies {
        &&& !segs[i].x0.nan() ==> within(hull(segs)[0], segs[i].x0, hull(segs)[2])
        &&& !segs[i].x1.nan() ==> within(hull(segs)[0], segs[i].x1, hull(segs)[2])
        &&& !segs[i].y0.nan() ==> within(hull(segs)[1], segs[i].y0, hull(segs)[3])
        &&& !segs[i].y1.nan() ==> within(hull(segs)[1], segs[i].y1, hull(segs)[3])
    } by {
        assert(x[2 * i] == segs[i].x0 && x[2 * i + 1] == segs[i].x1);
        assert(y[2 * i] == segs[i].y0 && y[2 * i + 1] == segs[i].y1);
    }
}

/// A number lies between two others, or is one of them.
pub open spec fn within(low: Double, x: Double, high: Double) -> bool {
    !low.nan() && !high.nan() && low.rank() <= x.rank() <= high.rank()
}

proof fn lemma_two_more_ends(segs: Seq<Segment>)
    requires
        segs.len() > 0,
    ensures
        x_ends(segs) == x_ends(segs.drop_last()).push(segs.last().x0).push(segs.last().x1),
        y_ends(segs) == y_ends(segs.drop_last()).push(segs.last().y0).push(segs.last().y1),
{
    let front = segs.drop_last();
    assert(x_ends(segs) =~= x_ends(front).push(segs.last().x0).push(segs.last().x1));
    assert(y_ends(segs) =~= y_ends(front).push(segs.last().y0).push(segs.last().y1));
}

proof fn lemma_two_more_values(start: Double, values: Seq<Double>, a: Double, b: Double)
    ensures
        least(start, values.push(a).push(b)) == least(start, values).min_num(a).min_num(b),
        greatest(start, values.push(a).push(b)) == greatest(start, values).max_num(a).max_num(b),
{
    let one = values.push(a);
    assert(one.drop_last() =~= values);
    assert(one.push(b).drop_last() =~= one);
    assert(least(start, one) == least(start, values).min_num(a));
    assert(greatest(start, one) == greatest(start, values).max_num(a));
}

/// Bounding box `[min_x, min_y, max_x, max_y]` over all segment endpoints;
/// `None` where there is no segment.
pub fn bounds(segs: &[Segment]) -> (r: Option<[Double; 4]>)
    ensures
        r is None <==> segs@.len() == 0,
        r matches Some(b) ==> b@ == hull(segs@),
{
    if segs.len() == 0 {
        return None;
    }
    let first = segs[0];
    let (mut min_x, mut min_y) = (first.x0, first.y0);
    let (mut max_x, mut max_y) = (first.x0, first.y0);
    let mut i: usize = 0;
    assert(x_ends(segs@.take(0)) =~= Seq::<Double>::empty());
    assert(y_ends(segs@.take(0)) =~= Seq::<Double>::empty());
    while i < segs.len()
        invariant
            i <= segs.len(),
            min_x == least(first.x0, x_ends(segs@.take(i as int))),
            min_y == least(first.y0, y_ends(segs@.take(i as int))),
            max_x == greatest(first.x0, x_ends(segs@.take(i as int))),
            max_y == greatest(first.y0, y_ends(segs@.take(i as int))),
        decreases segs.len() - i,
    {
        let s = segs[i];
        proof {
            let (now, next) = (segs@.take(i as int), segs@.take(i + 1));
            assert(next.drop_last() =~= now);
            assert(next.last() == s);
            lemma_two_more_ends(next);
            lemma_two_more_values(first.x0, x_ends(now), s.x0, s.x1);
            lemma_two_more_values(first.y0, y_ends(now), s.y0, s.y1);
        }
        min_x = min_x.min(s.x0).min(s.x1);
        min_y = min_y.min(s.y0).min(s.y1);
        max_x = max_x.max(s.x0).max(s.x1);
        max_y = max_y.max(s.y0).max(s.y1);
        i += 1;
    }
    assert(segs@.take(segs@.len() as int) =~= segs@);
    Some([min_x, min_y, max_x, max_y])
}

/// World-space window onto the drawing.
#[derive(Clone, Copy, Debug, PartialEq, Eq, Structural)]
pub struct Window {
    pub center: Point,
    pub units_per_pixel: Double,
}

/// A line against one edge of the frame: how fast it runs towards the inside
/// or away from it (`run`, negative on the way in), how far its start is
/// inside (`gap`), and the part of the line up to the edge (`ratio`, the gap
/// over the run).
#[derive(Clone, Copy, Debug, PartialEq, Eq, Structural)]
pub struct Edge {
    pub run: Double,
    pub gap: Double,
    pub ratio: Double,
}

/// The bits of 1.
pub const DOUBLE_ONE: u64 = 0x3FF0_0000_0000_0000;

impl Edge {
    /// The line runs along the edge.
    pub open spec fn parallel(self) -> bool {
        self.run.eq_num(Double { bits: 0 })
    }

    /// The line runs along the edge, on its outer side.
    pub open spec fn outside(self) -> bool {
        self.parallel() && self.gap.lt_num(Double { bits: 0 })
    }

    /// The line comes in over the edge.
    pub open spec fn entering(self) -> bool {
        self.run.lt_num(Double { bits: 0 })
    }

    /// The line goes out over the edge.
    pub open spec fn leaving(self) -> bool {
        !self.parallel() && !self.entering()
    }
}

/// Where a line has come in over all edges: 0 is its start.
pub open spec fn entry(edges: Seq<Edge>) -> Double
    decreases edges.len(),
{
    if edges.len() == 0 {
        Double { bits: 0 }
    } else if edges.last().entering() {
        entry(edges.drop_last()).max_num(edges.last().ratio)
    } else {
        entry(edges.drop_last())
    }
}

/// Where a line first goes out over an edge: 1 is its end.
pub open spec fn exit(edges: Seq<Edge>) -> Double
    decreases edges.len(),
{
    if edges.len() == 0 {
        Double { bits: DOUBLE_ONE }
    } else if edges.last().leaving() {
        exit(edges.drop_last()).min_num(edges.last().ratio)
    } else {
        exit(edges.drop_last())
    }
}

/// Some edge has the whole line on its outer side.
pub open spec fn some_outside(edges: Seq<Edge>) -> bool {
    exists|i: int| 0 <= i < edges.len() && (#[trigger] edges[i]).outside()
}

proof fn lemma_entry_and_exit(edges: Seq<Edge>, n: int)
    requires
        0 <= n <= edges.len(),
    ensures
        !entry(edges).nan() && !exit(edges).nan(),
        0 <= entry(edges.take(n)).rank() <= entry(edges).rank(),
        exit(edges).rank() <= exit(edges.take(n)).rank() <= DOUBLE_ONE,
    decreases edges.len(),
{
    if edges.len() == 0 {
        assert(edges.take(n) =~= edges);
    } else if n == edges.len() {
        assert(edges.take(n) =~= edges);
        lemma_entry_and_exit(edges.drop_last(), 0);
        assert(edges.drop_last().take(0) =~= Seq::<Edge>::empty());
    } else {
        lemma_entry_and_exit(edges.drop_last(), n);
        assert(edges.drop_last().take(n) =~= edges.take(n));
    }
}

/// A line is inside from the last edge that it comes in over: from no sooner
/// than its start and than its part up to any such edge, and from one of these
/// exactly.
pub proof fn law_a_line_starts_where_it_is_in(edges: Seq<Edge>)
    ensures
        !entry(edges).nan(),
        entry(edges).rank() >= 0,
        forall|i: int|
            0 <= i < edges.len() && (#[trigger] edges[i]).run.lt_num(Double { bits: 0 })
                && !edges[i].ratio.nan() ==> edges[i].ratio.rank() <= entry(edges).rank(),
        entry(edges) == (Double { bits: 0 }) || exists|i: int|
            0 <= i < edges.len() && (#[trigger] edges[i]).run.lt_num(Double { bits: 0 })
                && edges[i].ratio == entry(edges),
    decreases edges.len(),
{
    if edges.len() > 0 {
        let front = edges.drop_last();
        law_a_line_starts_where_it_is_in(front);
        assert(edges.last() == edges[edges.len() - 1]);
        assert forall|i: int|
            0 <= i < edges.len() && (#[trigger] edges[i]).run.lt_num(Double { bits: 0 })
                && !edges[i].ratio.nan() implies edges[i].ratio.rank() <= entry(
            edges,
        ).rank() by {
            if i < front.len() {
                assert(front[i] == edges[i]);
            }
        }
        if entry(edges) != (Double { bits: 0 }) {
            if entry(edges) == entry(front) {
                let i = choose|i: int|
                    0 <= i < front.len() && (#[trigger] front[i]).run.lt_num(Double { bits: 0 })
                        && front[i].ratio == entry(front);
                assert(edges[i] == front[i]);
            } else {
                assert(edges[edges.len() - 1].ratio == entry(edges));
            }
        }
    }
}

/// A line is inside up to the first edge that it goes out over: up to no later
/// than its end and than its part up to any such edge, and up to one of these
/// exactly.
pub proof fn law_a_line_ends_where_it_goes_out(edges: Seq<Edge>)
    ensures
        !exit(edges).nan(),
        exit(edges).rank() <= (Double { bits: DOUBLE_ONE }).rank(),
        forall|i: int|
            0 <= i < edges.len() && !((#[trigger] edges[i]).run.lt_num(Double { bits: 0 }))
                && !edges[i].run.eq_num(Double { bits: 0 }) && !edges[i].ratio.nan()
                ==> exit(edges).rank() <= edges[i].ratio.rank(),
        exit(edges) == (Double { bits: DOUBLE_ONE }) || exists|i: int|
            0 <= i < edges.len() && !((#[trigger] edges[i]).run.lt_num(Double { bits: 0 }))
                && !edges[i].run.eq_num(Double { bits: 0 }) && edges[i].ratio == exit(edges),
    decreases edges.len(),
{
    if edges.len() > 0 {
        let front = edges.drop_last();
        law_a_line_ends_where_it_goes_out(front);
        assert(edges.last() == edges[edges.len() - 1]);
        assert forall|i: int|
            0 <= i < edges.len() && !((#[trigger] edges[i]).run.lt_num(Double { bits: 0 }))
                && !edges[i].run.eq_num(Double { bits: 0 }) && !edges[i].ratio.nan() implies exit(
            edges,
        ).rank() <= edges[i].ratio.rank() by {
            if i < front.len() {
                assert(front[i] == edges[i]);
            }
        }
        if exit(edges) != (Double { bits: DOUBLE_ONE }) {
            if exit(edges) == exit(front) {
                let i = choose|i: int|
                    0 <= i < front.len() && !((#[trigger] front[i]).run.lt_num(
                        Double { bits: 0 },
                    )) && !front[i].run.eq_num(Double { bits: 0 }) && front[i].ratio == exit(front);
                assert(edges[i] == front[i]);
            } else {
                assert(edges[edges.len() - 1].ratio == exit(edges));
            }
        }
    }
}

/// A line that runs along an edge is cut away whole where it is beyond the
/// edge, and not by that edge otherwise.
pub proof fn law_a_parallel_line_is_in_or_out(edges: Seq<Edge>)
    ensures
        some_outside(edges) <==> exists|i: int|
            0 <= i < edges.len() && (#[trigger] edges[i]).run.eq_num(Double { bits: 0 })
                && edges[i].gap.lt_num(Double { bits: 0 }),
{
    if some_outside(edges) {
        let i = choose|i: int| 0 <= i < edges.len() && (#[trigger] edges[i]).outside();
        assert(edges[i].run.eq_num(Double { bits: 0 }));
    } else if exists|i: int|
        0 <= i < edges.len() && (#[trigger] edges[i]).run.eq_num(Double { bits: 0 })
            && edges[i].gap.lt_num(Double { bits: 0 }) {
        let i = choose|i: int|
            0 <= i < edges.len() && (#[trigger] edges[i]).run.eq_num(Double { bits: 0 })
                && edges[i].gap.lt_num(Double { bits: 0 });
        assert(edges[i].outside());
    }
}

/// Liang–Barsky: the part of a line inside a frame, as parts of its length
/// from and to; `None` where all of it is outside. `edges` holds the line
/// against the left, right, top and bottom edge.
pub fn clip(edges: &[Edge; 4]) -> (r: Option<(Double, Double)>)
    ensures
        r is None <==> some_outside(edges@) || exit(edges@).lt_num(entry(edges@)),
        r matches Some(part) ==> {
            &&& part.0 == entry(edges@)
            &&& part.1 == exit(edges@)
            &&& 0 <= part.0.rank() <= part.1.rank() <= DOUBLE_ONE
        },
{
    let zero = Double { bits: 0 };
    let mut from = zero;
    let mut to = Double { bits: DOUBLE_ONE };
    let mut i: usize = 0;
    assert(edges@.take(0) =~= Seq::<Edge>::empty());
    while i < 4
        invariant
            i <= 4,
            zero == (Double { bits: 0 }),
            from == entry(edges@.take(i as int)),
            to == exit(edges@.take(i as int)),
            forall|k: int| 0 <= k < i ==> !(#[trigger] edges@[k]).outside(),
        decreases 4 - i,
    {
        let edge = edges[i];
        proof {
            assert(edges@.take(i + 1).drop_last() =~= edges@.take(i as int));
            assert(edges@.take(i + 1).last() == edge);
            lemma_entry_and_exit(edges@, i as int);
            lemma_entry_and_exit(edges@, i + 1);
            lemma_entry_and_exit(edges@.take(i as int), 0);
        }
        if edge.run.equals(zero) {
            if edge.gap.less_than(zero) {
                assert(edges@[i as int].outside());
                return None;
            }
        } else if edge.run.less_than(zero) {
            if to.less_than(edge.ratio) {
                return None;
            }
            from = from.max(edge.ratio);
        } else {
            if edge.ratio.less_than(from) {
                return None;
            }
            to = to.min(edge.ratio);
        }
        i += 1;
    }
    assert(edges@.take(4) =~= edges@);
    proof {
        lemma_entry_and_exit(edges@, 4);
    }
    if to.less_than(from) {
        None
    } else {
        Some((from, to))
    }
}

/// Lines as an opaque RGBA image: black, with each stroke over the ones
/// before it.
#[verifier::rlimit(40)]
pub fn rasterize_rgba(strokes: &[Stroke], width: usize, height: usize) -> (rgba: Vec<u8>)
    requires
        width * height * 4 <= usize::MAX,
    ensures
        rgba@.len() == width * height * 4,
        forall|pixel: int|
            0 <= pixel < width * height ==> rgba@.subrange(#[trigger] (4 * pixel), 4 * pixel + 4)
                == painted(
                seq![0u8, 0, 0],
                strokes@,
                width as int,
                height as int,
                pixel,
            ).push(255),
        forall|pixel: int, i: int, k: int|
            #![trigger strokes@[i], rgba@[4 * pixel + k]]
            0 <= pixel < width * height && 0 <= k < 3 && last_over(
                strokes@,
                width as int,
                height as int,
                pixel,
                i,
            ) ==> rgba@[4 * pixel + k] == strokes@[i].color@[k],
        forall|pixel: int, k: int|
            0 <= pixel < width * height && 0 <= k < 3 && none_over(
                strokes@,
                width as int,
                height as int,
                pixel,
            ) ==> #[trigger] rgba@[4 * pixel + k] == 0,
        forall|pixel: int| 0 <= pixel < width * height ==> #[trigger] rgba@[4 * pixel + 3] == 255,
{
    let mut canvas = Canvas::new(width, height);
    let ghost blank = canvas;
    canvas.paint(strokes);
    assert forall|pixel: int| 0 <= pixel < width * height implies canvas.rgba@.subrange(
        #[trigger] (4 * pixel),
        4 * pixel + 4,
    ) == painted(
        seq![0u8, 0, 0],
        strokes@,
        width as int,
        height as int,
        pixel,
    ).push(255) by {
        assert(blank.color(pixel) == seq![0u8, 0, 0]);
        assert(canvas.rgba@[pixel * 4 + 3] == 255);
        assert(canvas.rgba@.subrange(4 * pixel, 4 * pixel + 4) =~= canvas.color(pixel).push(255));
    }
    assert forall|pixel: int, k: int|
        0 <= pixel < width * height && 0 <= k < 3 && none_over(
            strokes@,
            width as int,
            height as int,
            pixel,
        ) implies #[trigger] canvas.rgba@[4 * pixel + k] == 0 by {
        assert(canvas.rgba@[4 * pixel + k] == blank.rgba@[4 * pixel + k]);
        assert(blank.color(pixel)[k] == blank.rgba@[4 * pixel + k]);
        assert(blank.color(pixel) == seq![0u8, 0, 0]);
    }
    assert forall|pixel: int| 0 <= pixel < width * height implies #[trigger] canvas.rgba@[4 * pixel
        + 3] == 255 by {
        assert(canvas.rgba@[pixel * 4 + 3] == 255);
    }
    canvas.rgba
}

/// A named starter system.
#[derive(Debug)]
pub struct Preset {
    pub name: &'static str,
    pub start: &'static str,
    pub rules: Vec<(char, &'static str)>,
    pub angle_deg: Double,
    pub generations: u32,
}

impl Preset {
    /// The fields of a starter system.
    pub open spec fn is(
        &self,
        name: &str,
        start: &str,
        rules: Seq<(char, &'static str)>,
        angle_deg: u64,
        generations: u32,
    ) -> bool {
        &&& self.name@ == name@
        &&& self.start@ == start@
        &&& self.rules@ =~= rules
        &&& self.angle_deg.bits == angle_deg
        &&& self.generations == generations
    }

    fn new(
        name: &'static str,
        start: &'static str,
        rules: Vec<(char, &'static str)>,
        angle_deg: u64,
        generations: u32,
    ) -> (preset: Preset)
        ensures
            preset.is(name, start, rules@, angle_deg, generations),
    {
        Preset { name, start, rules, angle_deg: Double { bits: angle_deg }, generations }
    }

    /// The rules, ready for `expand`.
    pub fn rules_vec(&self) -> (rules: Vec<Rule>)
        ensures
            rules@.len() == self.rules@.len(),
            forall|i: int|
                0 <= i < rules@.len() ==> (#[trigger] rules@[i]).symbol == self.rules@[i].0
                    && rules@[i].replacement@ == self.rules@[i].1@,
    {
        let mut rules: Vec<Rule> = Vec::new();
        let mut i: usize = 0;
        while i < self.rules.len()
            invariant
                i <= self.rules.len(),
                rules@.len() == i,
                forall|k: int|
                    0 <= k < i ==> (#[trigger] rules@[k]).symbol == self.rules@[k].0
                        && rules@[k].replacement@ == self.rules@[k].1@,
            decreases self.rules.len() - i,
        {
            rules.push(Rule::new(self.rules[i].0, self.rules[i].1));
            i += 1;
        }
        rules
    }
}

/// A starter system has its name, what it starts from, its rules in order, its
/// angle and its generations.
pub proof fn law_a_preset_in_full(
    preset: Preset,
    name: &str,
    start: &str,
    rules: Seq<(char, &'static str)>,
    angle_deg: u64,
    generations: u32,
)
    ensures
        preset.is(name, start, rules, angle_deg, generations) <==> {
            &&& preset.name@ == name@
            &&& preset.start@ == start@
            &&& preset.rules@.len() == rules.len()
            &&& forall|i: int| 0 <= i < rules.len() ==> #[trigger] preset.rules@[i] == rules[i]
            &&& preset.angle_deg.bits == angle_deg
            &&& preset.generations == generations
        },
{
}

/// 22.5 degrees.
const DEGREES_22_5: u64 = 0x4036_8000_0000_0000;

/// 25 degrees.
const DEGREES_25: u64 = 0x4039_0000_0000_0000;

/// 45 degrees.
const DEGREES_45: u64 = 0x4046_8000_0000_0000;

/// 60 degrees.
const DEGREES_60: u64 = 0x404E_0000_0000_0000;

/// 90 degrees.
const DEGREES_90: u64 = 0x4056_8000_0000_0000;

/// The starter systems.
pub fn presets() -> (presets: Vec<Preset>)
    ensures
        presets@.len() == 9,
        presets@[0].is(
            "Koch snowflake",
            "F--F--F",
            seq![('F', "F+F--F+F")],
            0x404E_0000_0000_0000,
            4,
        ),
        presets@[1].is(
            "Dragon curve",
            "F",
            seq![('F', "F+G"), ('G', "F-G")],
            0x4056_8000_0000_0000,
            12,
        ),
        presets@[2].is(
            "Sierpinski arrowhead",
            "F",
            seq![('F', "G-F-G"), ('G', "F+G+F")],
            0x404E_0000_0000_0000,
            7,
        ),
        presets@[3].is(
            "Plant",
            "X",
            seq![('X', "F+[[X]-X]-F[-FX]+X"), ('F', "FF")],
            0x4039_0000_0000_0000,
            6,
        ),
        presets@[4].is(
            "Hilbert curve",
            "A",
            seq![('A', "-BF+AFA+FB-"), ('B', "+AF-BFB-FA+")],
            0x4056_8000_0000_0000,
            6,
        ),
        presets@[5].is(
            "Gosper curve",
            "F",
            seq![('F', "F+G++G-F--FF-G+"), ('G', "-F+GG++G+F--F-G")],
            0x404E_0000_0000_0000,
            4,
        ),
        presets@[6].is(
            "Lévy C curve",
            "F",
            seq![('F', "+F--F+")],
            0x4046_8000_0000_0000,
            12,
        ),
        presets@[7].is(
            "Koch island",
            "F-F-F-F",
            seq![('F', "F-F+F+FF-F-F+F")],
            0x4056_8000_0000_0000,
            3,
        ),
        presets@[8].is(
            "Bush",
            "F",
            seq![('F', "FF-[-F+F+F]+[+F-F-F]")],
            0x4036_8000_0000_0000,
            4,
        ),
{
    vec![
        Preset::new(
            "Koch snowflake",
            "F--F--F",
            vec![('F', "F+F--F+F")],
            DEGREES_60,
            4,
        ),
        Preset::new(
            "Dragon curve",
            "F",
            vec![('F', "F+G"), ('G', "F-G")],
            DEGREES_90,
            12,
        ),
        Preset::new(
            "Sierpinski arrowhead",
            "F",
            vec![('F', "G-F-G"), ('G', "F+G+F")],
            DEGREES_60,
            7,
        ),
        Preset::new(
            "Plant",
            "X",
            vec![('X', "F+[[X]-X]-F[-FX]+X"), ('F', "FF")],
            DEGREES_25,
            6,
        ),
        Preset::new(
            "Hilbert curve",
            "A",
            vec![('A', "-BF+AFA+FB-"), ('B', "+AF-BFB-FA+")],
            DEGREES_90,
            6,
        ),
        Preset::new(
            "Gosper curve",
            "F",
            vec![('F', "F+G++G-F--FF-G+"), ('G', "-F+GG++G+F--F-G")],
            DEGREES_60,
            4,
        ),
        Preset::new(
            "Lévy C curve",
            "F",
            vec![('F', "+F--F+")],
            DEGREES_45,
            12,
        ),
        Preset::new(
            "Koch island",
            "F-F-F-F",
            vec![('F', "F-F+F+FF-F-F+F")],
            DEGREES_90,
            3,
        ),
        Preset::new(
            "Bush",
            "F",
            vec![('F', "FF-[-F+F+F]+[+F-F-F]")],
            DEGREES_22_5,
            4,
        ),
    ]
}

} // verus!
