//! Numbers as text, and texts in order.

use vstd::prelude::*;

verus! {

/// The character of a decimal digit.
pub open spec fn digit_char(n: nat) -> char {
    if n == 0 {
        '0'
    } else if n == 1 {
        '1'
    } else if n == 2 {
        '2'
    } else if n == 3 {
        '3'
    } else if n == 4 {
        '4'
    } else if n == 5 {
        '5'
    } else if n == 6 {
        '6'
    } else if n == 7 {
        '7'
    } else if n == 8 {
        '8'
    } else {
        '9'
    }
}

/// A number in decimal digits, without zeros in front.
pub open spec fn decimal_chars(n: nat) -> Seq<char>
    decreases n,
{
    if n < 10 {
        seq![digit_char(n)]
    } else {
        decimal_chars(n / 10).push(digit_char(n % 10))
    }
}

fn digit_of(n: u8) -> (c: char)
    requires
        n < 10,
    ensures
        c == digit_char(n as nat),
{
    if n == 0 {
        '0'
    } else if n == 1 {
        '1'
    } else if n == 2 {
        '2'
    } else if n == 3 {
        '3'
    } else if n == 4 {
        '4'
    } else if n == 5 {
        '5'
    } else if n == 6 {
        '6'
    } else if n == 7 {
        '7'
    } else if n == 8 {
        '8'
    } else {
        '9'
    }
}

/// A number as decimal text.
pub fn decimal(n: u128) -> (text: String)
    ensures
        text@ == decimal_chars(n as nat),
    decreases n,
{
    if n < 10 {
        let mut text = String::new();
        text.push(digit_of(n as u8));
        assert(text@ =~= decimal_chars(n as nat));
        text
    } else {
        let mut text = decimal(n / 10);
        text.push(digit_of((n % 10) as u8));
        text
    }
}

/// Whether one text comes before another: at the first character in which they
/// differ it has the lesser one, or it is the start of the other.
pub open spec fn before<T>(a: Seq<T>, b: Seq<T>, less: spec_fn(T, T) -> bool) -> bool
    decreases a.len(),
{
    if b.len() == 0 {
        false
    } else if a.len() == 0 {
        true
    } else {
        less(a[0], b[0]) || (a[0] == b[0] && before(a.drop_first(), b.drop_first(), less))
    }
}

/// Byte strings in order.
pub open spec fn bytes_before(a: Seq<u8>, b: Seq<u8>) -> bool {
    before(a, b, |x: u8, y: u8| x < y)
}

/// Texts in order.
pub open spec fn chars_before(a: Seq<char>, b: Seq<char>) -> bool {
    before(a, b, |x: char, y: char| x < y)
}

proof fn lemma_digits_ordered(m: nat, n: nat)
    requires
        m < n < 10,
    ensures
        digit_char(m) < digit_char(n),
{
}

proof fn lemma_before_extends(a: Seq<char>, b: Seq<char>, x: char, y: char)
    requires
        a.len() == b.len(),
    ensures
        chars_before(a, b) ==> chars_before(a.push(x), b.push(y)),
        a == b && x < y ==> chars_before(a.push(x), b.push(y)),
    decreases a.len(),
{
    let less = |x: char, y: char| x < y;
    if a.len() > 0 {
        lemma_before_extends(a.drop_first(), b.drop_first(), x, y);
        assert(a.push(x).drop_first() =~= a.drop_first().push(x));
        assert(b.push(y).drop_first() =~= b.drop_first().push(y));
        if a == b {
            assert(a.drop_first() == b.drop_first());
        }
    } else {
        assert(a.push(x)[0] == x && b.push(y)[0] == y);
        if a == b && x < y {
            assert(less(x, y));
            assert(before(a.push(x), b.push(y), less));
        }
    }
}

/// Numbers with equally many digits come in the order of their texts.
pub proof fn law_decimals_sort_as_numbers(m: nat, n: nat)
    requires
        m < n,
        decimal_chars(m).len() == decimal_chars(n).len(),
    ensures
        chars_before(decimal_chars(m), decimal_chars(n)),
    decreases n,
{
    if n < 10 {
        lemma_digits_ordered(m, n);
        lemma_before_extends(Seq::empty(), Seq::empty(), digit_char(m), digit_char(n));
        assert(Seq::<char>::empty().push(digit_char(m)) =~= decimal_chars(m));
        assert(Seq::<char>::empty().push(digit_char(n)) =~= decimal_chars(n));
    } else {
        lemma_decimal_not_empty(n / 10);
        assert(m >= 10);
        let (a, b) = (decimal_chars(m / 10), decimal_chars(n / 10));
        if m / 10 < n / 10 {
            law_decimals_sort_as_numbers(m / 10, n / 10);
        } else {
            lemma_digits_ordered(m % 10, n % 10);
        }
        lemma_before_extends(a, b, digit_char(m % 10), digit_char(n % 10));
    }
}

/// A number in digits is read back as that number, and has no zero in front.
pub proof fn law_decimals_are_read_back(n: nat)
    ensures
        crate::bigfloat::amount(decimal_chars(n)) == n,
        decimal_chars(n).len() > 0,
        forall|i: int|
            0 <= i < decimal_chars(n).len() ==> '0' <= #[trigger] decimal_chars(n)[i] <= '9',
        n > 0 ==> decimal_chars(n)[0] != '0',
        n == 0 ==> decimal_chars(n) == seq!['0'],
    decreases n,
{
    let text = decimal_chars(n);
    if n < 10 {
        assert(text.drop_last() =~= Seq::<char>::empty());
        assert(crate::bigfloat::amount(text.drop_last()) == 0);
    } else {
        let front = decimal_chars(n / 10);
        law_decimals_are_read_back(n / 10);
        assert(text.drop_last() =~= front);
        assert forall|i: int| 0 <= i < text.len() implies '0' <= #[trigger] text[i] <= '9' by {
            if i < front.len() {
                assert(text[i] == front[i]);
            }
        }
        assert(text[0] == front[0]);
    }
}

proof fn lemma_first_difference<T>(a: Seq<T>, b: Seq<T>, less: spec_fn(T, T) -> bool)
    requires
        forall|x: T| !#[trigger] less(x, x),
    ensures
        before(a, b, less) <==> exists|k: int| #[trigger] parts_at(a, b, less, k),
    decreases a.len(),
{
    if b.len() == 0 {
        assert forall|k: int| !#[trigger] parts_at(a, b, less, k) by {}
    } else if a.len() == 0 {
        assert(a.take(0) =~= b.take(0));
        assert(parts_at(a, b, less, 0));
    } else {
        let (x, y) = (a.drop_first(), b.drop_first());
        lemma_first_difference(x, y, less);
        if less(a[0], b[0]) {
            assert(a.take(0) =~= b.take(0));
            assert(parts_at(a, b, less, 0));
        } else if before(a, b, less) {
            let k = choose|k: int| #[trigger] parts_at(x, y, less, k);
            assert forall|i: int| 0 <= i < k + 1 implies a[i] == b[i] by {
                if i > 0 {
                    assert(x.take(k)[i - 1] == y.take(k)[i - 1]);
                }
            }
            assert(a.take(k + 1) =~= b.take(k + 1));
            assert(parts_at(a, b, less, k + 1));
        } else if exists|k: int| #[trigger] parts_at(a, b, less, k) {
            let k = choose|k: int| #[trigger] parts_at(a, b, less, k);
            if k > 0 {
                assert(a.take(k)[0] == b.take(k)[0]);
                assert(x.take(k - 1) =~= y.take(k - 1)) by {
                    assert forall|i: int| 0 <= i < k - 1 implies x[i] == y[i] by {
                        assert(a.take(k)[i + 1] == b.take(k)[i + 1]);
                    }
                }
                assert(parts_at(x, y, less, k - 1));
            }
        }
    }
}

/// Two sequences agree up to a place, and there the first one ends or has the
/// lesser item.
pub open spec fn parts_at<T>(a: Seq<T>, b: Seq<T>, less: spec_fn(T, T) -> bool, k: int) -> bool {
    &&& 0 <= k <= a.len()
    &&& k < b.len()
    &&& a.take(k) == b.take(k)
    &&& k == a.len() || less(a[k], b[k])
}

/// Byte strings are ordered by the first byte in which they differ, and what
/// is the start of another comes before it.
pub proof fn law_bytes_are_ordered_by_their_first_difference(a: Seq<u8>, b: Seq<u8>)
    ensures
        bytes_before(a, b) <==> exists|k: int|
            {
                &&& 0 <= k <= a.len()
                &&& k < b.len()
                &&& #[trigger] a.take(k) == b.take(k)
                &&& k == a.len() || a[k] < b[k]
            },
{
    let less = |x: u8, y: u8| x < y;
    lemma_first_difference(a, b, less);
    if bytes_before(a, b) {
        let k = choose|k: int| #[trigger] parts_at(a, b, less, k);
        assert(a.take(k) == b.take(k));
    } else if exists|k: int|
        {
            &&& 0 <= k <= a.len()
            &&& k < b.len()
            &&& #[trigger] a.take(k) == b.take(k)
            &&& k == a.len() || a[k] < b[k]
        } {
        let k = choose|k: int|
            {
                &&& 0 <= k <= a.len()
                &&& k < b.len()
                &&& #[trigger] a.take(k) == b.take(k)
                &&& k == a.len() || a[k] < b[k]
            };
        assert(parts_at(a, b, less, k));
    }
}

/// Texts are ordered by the first character in which they differ, and what is
/// the start of another comes before it.
pub proof fn law_texts_are_ordered_by_their_first_difference(a: Seq<char>, b: Seq<char>)
    ensures
        chars_before(a, b) <==> exists|k: int|
            {
                &&& 0 <= k <= a.len()
                &&& k < b.len()
                &&& #[trigger] a.take(k) == b.take(k)
                &&& k == a.len() || a[k] < b[k]
            },
{
    let less = |x: char, y: char| x < y;
    lemma_first_difference(a, b, less);
    if chars_before(a, b) {
        let k = choose|k: int| #[trigger] parts_at(a, b, less, k);
        assert(a.take(k) == b.take(k));
    } else if exists|k: int|
        {
            &&& 0 <= k <= a.len()
            &&& k < b.len()
            &&& #[trigger] a.take(k) == b.take(k)
            &&& k == a.len() || a[k] < b[k]
        } {
        let k = choose|k: int|
            {
                &&& 0 <= k <= a.len()
                &&& k < b.len()
                &&& #[trigger] a.take(k) == b.take(k)
                &&& k == a.len() || a[k] < b[k]
            };
        assert(parts_at(a, b, less, k));
    }
}

proof fn lemma_decimal_not_empty(n: nat)
    ensures
        decimal_chars(n).len() > 0,
    decreases n,
{
    if n >= 10 {
        lemma_decimal_not_empty(n / 10);
    }
}

} // verus!
