//! The journal: saved views as small PNG files, named by the time they were
//! saved.

use vstd::prelude::*;
use vstd::string::StringExecFns;

use crate::text::{bytes_before, chars_before, decimal, decimal_chars};

verus! {

/// The file name of a view saved at a time (milliseconds since the epoch).
pub open spec fn entry_chars(millis: nat) -> Seq<char> {
    "bm-"@ + decimal_chars(millis) + ".png"@
}

/// The file name of a view saved at a time.
pub fn entry_name(millis: u128) -> (name: String)
    ensures
        name@ == entry_chars(millis as nat),
{
    let mut name: String = "bm-".to_owned();
    name.append(decimal(millis).as_str());
    name.append(".png");
    name
}

proof fn lemma_before_with_tail(a: Seq<char>, b: Seq<char>, tail: Seq<char>)
    requires
        a.len() == b.len(),
        chars_before(a, b),
    ensures
        chars_before(a + tail, b + tail),
    decreases a.len(),
{
    if a.len() > 0 {
        assert((a + tail).drop_first() =~= a.drop_first() + tail);
        assert((b + tail).drop_first() =~= b.drop_first() + tail);
        if a[0] == b[0] {
            if !(a[0] < b[0]) {
                lemma_before_with_tail(a.drop_first(), b.drop_first(), tail);
            }
        }
    }
}

proof fn lemma_before_with_head(head: Seq<char>, a: Seq<char>, b: Seq<char>)
    requires
        chars_before(a, b),
    ensures
        chars_before(head + a, head + b),
    decreases head.len(),
{
    if head.len() == 0 {
        assert(head + a =~= a);
        assert(head + b =~= b);
    } else {
        lemma_before_with_head(head.drop_first(), a, b);
        assert((head + a).drop_first() =~= head.drop_first() + a);
        assert((head + b).drop_first() =~= head.drop_first() + b);
    }
}

/// File names sort by time, as long as times have equally many digits: a view
/// saved later has the later name.
pub proof fn law_names_sort_by_time(earlier: nat, later: nat)
    requires
        earlier < later,
        decimal_chars(earlier).len() == decimal_chars(later).len(),
    ensures
        chars_before(entry_chars(earlier), entry_chars(later)),
{
    crate::text::law_decimals_sort_as_numbers(earlier, later);
    lemma_before_with_head("bm-"@, decimal_chars(earlier), decimal_chars(later));
    lemma_before_with_tail(
        "bm-"@ + decimal_chars(earlier),
        "bm-"@ + decimal_chars(later),
        ".png"@,
    );
}

/// A file name is the time it was saved at, in digits, after `bm-` and before
/// `.png`.
pub proof fn law_names_tell_the_time(millis: nat)
    ensures
        ({
            let name = entry_chars(millis);
            let digits = name.subrange(3, name.len() - 4);
            &&& name.len() > 7
            &&& name.take(3) == "bm-"@
            &&& name.skip(name.len() - 4) == ".png"@
            &&& crate::bigfloat::amount(digits) == millis
            &&& forall|i: int| 0 <= i < digits.len() ==> '0' <= #[trigger] digits[i] <= '9'
        }),
{
    reveal_strlit("bm-");
    reveal_strlit(".png");
    crate::text::law_decimals_are_read_back(millis);
    let name = entry_chars(millis);
    assert(name.take(3) =~= "bm-"@);
    assert(name.skip(name.len() - 4) =~= ".png"@);
    assert(name.subrange(3, name.len() - 4) =~= decimal_chars(millis));
}

/// Put an entry that was just saved ahead of those that are listed. A journal
/// that has not been listed yet finds the entry when it is.
pub fn after_save<T>(entries: &mut Option<Vec<T>>, entry: T)
    ensures
        match *old(entries) {
            None => *final(entries) is None,
            Some(list) => *final(entries) matches Some(now) && now@ == seq![entry] + list@,
        },
{
    if let Some(list) = entries {
        let ghost before = list@;
        list.insert(0, entry);
        assert(list@ =~= seq![entry] + before);
    }
}

/// A file name with the extension `png`, as bytes: something, a dot, and the
/// extension.
pub open spec fn has_png_extension(name: Seq<u8>) -> bool {
    let n = name.len();
    n > 4 && name[n - 4] == 46 && name[n - 3] == 112 && name[n - 2] == 110 && name[n - 1] == 103
}

/// Whether a file name has the extension `png`.
pub fn is_png(name: &[u8]) -> (r: bool)
    ensures
        r == has_png_extension(name@),
{
    let n: usize = name.len();
    n > 4 && name[n - 4] == 46 && name[n - 3] == 112 && name[n - 2] == 110 && name[n - 1] == 103
}

/// A file has the extension `png` where its name is something and `.png`.
pub proof fn law_the_extension_follows_the_last_dot(stem: Seq<u8>, name: Seq<u8>)
    ensures
        has_png_extension(stem + seq![0x2Eu8, 0x70, 0x6E, 0x67]) <==> stem.len() > 0,
        has_png_extension(name) ==> name.len() > 4 && name.skip(name.len() - 4) == seq![
            0x2Eu8,
            0x70,
            0x6E,
            0x67,
        ],
{
    if has_png_extension(name) {
        assert(name.skip(name.len() - 4) =~= seq![0x2Eu8, 0x70, 0x6E, 0x67]);
    }
}

/// Whether one byte string comes before another.
pub fn comes_before(a: &[u8], b: &[u8]) -> (r: bool)
    ensures
        r == bytes_before(a@, b@),
{
    let mut i: usize = 0;
    assert(a@.skip(0) =~= a@);
    assert(b@.skip(0) =~= b@);
    while i < a.len() && i < b.len()
        invariant
            i <= a.len(),
            i <= b.len(),
            bytes_before(a@, b@) == bytes_before(a@.skip(i as int), b@.skip(i as int)),
        decreases a.len() - i,
    {
        assert(a@.skip(i as int).drop_first() =~= a@.skip(i + 1));
        assert(b@.skip(i as int).drop_first() =~= b@.skip(i + 1));
        if a[i] != b[i] {
            return a[i] < b[i];
        }
        i += 1;
    }
    i < b.len()
}

proof fn lemma_before_transitive(a: Seq<u8>, b: Seq<u8>, c: Seq<u8>)
    requires
        !bytes_before(b, a),
        bytes_before(b, c),
    ensures
        bytes_before(a, c),
    decreases a.len(),
{
    if a.len() > 0 && b.len() > 0 && c.len() > 0 {
        if a[0] == b[0] && b[0] == c[0] {
            lemma_before_transitive(a.drop_first(), b.drop_first(), c.drop_first());
        }
    }
}

proof fn lemma_before_asymmetric(a: Seq<u8>, b: Seq<u8>)
    requires
        bytes_before(a, b),
    ensures
        !bytes_before(b, a),
    decreases a.len(),
{
    if a.len() > 0 && b.len() > 0 && a[0] == b[0] {
        lemma_before_asymmetric(a.drop_first(), b.drop_first());
    }
}

/// The names at these places, the latest first.
pub open spec fn latest_first(names: Seq<Vec<u8>>, order: Seq<usize>) -> bool {
    forall|i: int, j: int|
        0 <= i < j < order.len() ==> !bytes_before(
            names[#[trigger] order[i] as int]@,
            names[#[trigger] order[j] as int]@,
        )
}

/// Exactly the places of the PNG files among the first `count` names, each
/// once.
pub open spec fn png_places(names: Seq<Vec<u8>>, order: Seq<usize>, count: int) -> bool {
    &&& order.no_duplicates()
    &&& forall|place: usize| #[trigger]
        order.contains(place) <==> place < count && has_png_extension(names[place as int]@)
}

proof fn lemma_one_is_before_the_other(a: Seq<u8>, b: Seq<u8>)
    requires
        !bytes_before(a, b),
        a != b,
    ensures
        bytes_before(b, a),
    decreases a.len(),
{
    if a.len() > 0 && b.len() > 0 && a[0] == b[0] {
        if a.drop_first() == b.drop_first() {
            assert(a =~= seq![a[0]] + a.drop_first());
            assert(b =~= seq![b[0]] + b.drop_first());
        }
        lemma_one_is_before_the_other(a.drop_first(), b.drop_first());
    } else if a.len() == 0 && b.len() == 0 {
        assert(a =~= b);
    }
}

/// Every PNG file among some names is listed, once, and nothing else is; of
/// two that are listed the earlier name stands later.
pub proof fn law_the_journal_lists_every_png_latest_first(
    names: Seq<Vec<u8>>,
    order: Seq<usize>,
    count: int,
)
    requires
        count <= names.len(),
        png_places(names, order, count),
        latest_first(names, order),
    ensures
        forall|place: usize|
            place < count && has_png_extension(names[place as int]@) ==> exists|i: int|
                0 <= i < order.len() && #[trigger] order[i] == place,
        forall|i: int|
            0 <= i < order.len() ==> (#[trigger] order[i]) < count && has_png_extension(
                names[order[i] as int]@,
            ),
        forall|i: int, j: int|
            0 <= i < j < order.len() ==> #[trigger] order[i] != #[trigger] order[j] && (
            names[order[i] as int]@ == names[order[j] as int]@ || bytes_before(
                names[order[j] as int]@,
                names[order[i] as int]@,
            )),
{
    assert forall|place: usize|
        place < count && has_png_extension(names[place as int]@) implies exists|i: int|
        0 <= i < order.len() && #[trigger] order[i] == place by {
        assert(order.contains(place));
    }
    assert forall|i: int| 0 <= i < order.len() implies (#[trigger] order[i]) < count
        && has_png_extension(names[order[i] as int]@) by {
        assert(order.contains(order[i]));
    }
    assert forall|i: int, j: int| 0 <= i < j < order.len() implies #[trigger] order[i]
        != #[trigger] order[j] && (names[order[i] as int]@ == names[order[j] as int]@
        || bytes_before(names[order[j] as int]@, names[order[i] as int]@)) by {
        if names[order[i] as int]@ != names[order[j] as int]@ {
            lemma_one_is_before_the_other(names[order[i] as int]@, names[order[j] as int]@);
        }
    }
}

fn place_for(names: &Vec<Vec<u8>>, order: &Vec<usize>, name: &Vec<u8>) -> (at: usize)
    requires
        forall|i: int| 0 <= i < order@.len() ==> (#[trigger] order@[i]) < names@.len(),
    ensures
        at <= order@.len(),
        forall|i: int|
            0 <= i < at ==> !bytes_before(names@[#[trigger] order@[i] as int]@, name@),
        at < order@.len() ==> bytes_before(names@[order@[at as int] as int]@, name@),
{
    let mut at: usize = 0;
    while at < order.len()
        invariant
            at <= order.len(),
            forall|i: int| 0 <= i < order@.len() ==> (#[trigger] order@[i]) < names@.len(),
            forall|i: int|
                0 <= i < at ==> !bytes_before(names@[#[trigger] order@[i] as int]@, name@),
        decreases order.len() - at,
    {
        let place: usize = order[at];
        if comes_before(names[place].as_slice(), name.as_slice()) {
            return at;
        }
        at += 1;
    }
    at
}

proof fn lemma_inserted(
    names: Seq<Vec<u8>>,
    order: Seq<usize>,
    at: int,
    count: usize,
)
    requires
        count < names.len(),
        forall|i: int| 0 <= i < order.len() ==> (#[trigger] order[i]) < count,
        0 <= at <= order.len(),
        has_png_extension(names[count as int]@),
        latest_first(names, order),
        png_places(names, order, count as int),
        forall|i: int|
            0 <= i < at ==> !bytes_before(
                names[#[trigger] order[i] as int]@,
                names[count as int]@,
            ),
        at < order.len() ==> bytes_before(names[order[at] as int]@, names[count as int]@),
    ensures
        latest_first(names, order.insert(at, count)),
        png_places(names, order.insert(at, count), count + 1),
{
    let longer = order.insert(at, count);
    let new = names[count as int]@;
    assert forall|i: int| at <= i < order.len() implies bytes_before(
        names[#[trigger] order[i] as int]@,
        new,
    ) by {
        if i > at {
            lemma_before_transitive(names[order[i] as int]@, names[order[at] as int]@, new);
        }
    }
    assert forall|i: int, j: int| 0 <= i < j < longer.len() implies !bytes_before(
        names[#[trigger] longer[i] as int]@,
        names[#[trigger] longer[j] as int]@,
    ) by {
        if i == at {
            assert(longer[j] == order[j - 1]);
            lemma_before_asymmetric(names[order[j - 1] as int]@, new);
        } else if j == at {
            assert(longer[i] == order[i]);
        } else {
            let a = if i < at {
                i
            } else {
                i - 1
            };
            let b = if j < at {
                j
            } else {
                j - 1
            };
            assert(longer[i] == order[a] && longer[j] == order[b]);
        }
    }
    assert forall|i: int, j: int| 0 <= i < longer.len() && 0 <= j < longer.len() && i
        != j implies longer[i] != longer[j] by {
        let a = if i < at {
            i
        } else {
            i - 1
        };
        let b = if j < at {
            j
        } else {
            j - 1
        };
        if i == at {
            assert(order[b] < count);
        } else if j == at {
            assert(order[a] < count);
        } else {
            assert(order[a] != order[b]);
        }
    }
    assert(longer.no_duplicates());
    assert forall|place: usize| #[trigger] longer.contains(place) <==> place < count + 1
        && has_png_extension(names[place as int]@) by {
        if longer.contains(place) {
            let i = choose|i: int| 0 <= i < longer.len() && longer[i] == place;
            if i != at {
                let a = if i < at {
                    i
                } else {
                    i - 1
                };
                assert(order[a] == place);
                assert(order.contains(place));
            }
        }
        if place < count + 1 && has_png_extension(names[place as int]@) {
            if place == count {
                assert(longer[at] == place);
            } else {
                assert(order.contains(place));
                let a = choose|a: int| 0 <= a < order.len() && order[a] == place;
                let i = if a < at {
                    a
                } else {
                    a + 1
                };
                assert(longer[i] == place);
            }
        }
    }
}

/// The places of the PNG files among some file names, newest first
/// (timestamp names sort chronologically).
pub fn newest_first(names: &Vec<Vec<u8>>) -> (order: Vec<usize>)
    ensures
        png_places(names@, order@, names@.len() as int),
        latest_first(names@, order@),
{
    let mut order: Vec<usize> = Vec::new();
    let mut i: usize = 0;
    while i < names.len()
        invariant
            i <= names.len(),
            png_places(names@, order@, i as int),
            latest_first(names@, order@),
            forall|k: int| 0 <= k < order@.len() ==> (#[trigger] order@[k]) < i,
        decreases names.len() - i,
    {
        if is_png(names[i].as_slice()) {
            let at: usize = place_for(names, &order, &names[i]);
            let ghost earlier = order@;
            proof {
                lemma_inserted(names@, earlier, at as int, i);
            }
            order.insert(at, i);
            assert forall|k: int| 0 <= k < order@.len() implies (#[trigger] order@[k]) < i + 1 by {
                if k < at {
                    assert(order@[k] == earlier[k]);
                } else if k > at {
                    assert(order@[k] == earlier[k - 1]);
                }
            }
        }
        i += 1;
    }
    order
}

} // verus!
