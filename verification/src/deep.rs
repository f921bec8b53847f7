//! High-precision math for deep zoom: arbitrary-precision center coordinates
//! and the perturbation reference orbit.
//!
//! Deep zoom uses standard perturbation theory: one reference orbit is
//! iterated at high precision; the renderer then iterates only each pixel's
//! small delta from that orbit.

use vstd::arithmetic::power2::pow2;
use vstd::prelude::*;
use vstd::string::StringExecFns;
use vstd::utf8::encode_utf8;

use crate::bigfloat::{
    absolute, adds_up, at_precision, big_difference, big_product, big_square, big_sum, binary_of,
    binary_quotient, bits, convertible, decimal_digits, decimal_of, decimal_quotient, decimal_text,
    difference, double_bits, in_units, is_scale_supported, lemma_bits_at_most, lemma_product_error,
    lemma_rounding_error, lemma_sum_error, lower, multiplies, nearest_double, normal, parse_decimal,
    product, quote, quoted, reads_as, rounds_to, scale_supported, square, sum, takes_away,
    to_binary, to_decimal, wider, with_precision, write_decimal, BigDecimal, BigFloat, ParseError,
    Real, PRECISION_LIMIT,
};
use crate::float::{Double, Point, DOUBLE_HIDDEN, DOUBLE_INFINITY};

verus! {

/// Extra mantissa bits beyond the zoom depth, as safety margin.
pub const GUARD_BITS: usize = 64;

/// The position of a positive finite number's leading bit: the greatest
/// `k` with `2^k` no greater than the number.
pub open spec fn leading_bit(d: Double) -> int {
    d.exponent() + bits(d.significand()) - 1
}

/// How many bits a scale reaches below one, rounded up: pixels of size
/// `2^-n` need `n`.
pub open spec fn zoom_bits(scale: Double) -> int {
    if scale.finite() && scale.rank() > 0 && leading_bit(scale) < 0 {
        -leading_bit(scale)
    } else {
        0
    }
}

proof fn lemma_normal_bits(m: int)
    requires
        DOUBLE_HIDDEN <= m < 2 * DOUBLE_HIDDEN,
    ensures
        bits(m) == 53,
{
    assert(bits(m) == 53) by {
        reveal_with_fuel(bits, 54);
    }
}

/// Mantissa bits needed to resolve pixels at the given scale.
pub fn precision_for(units_per_point: Double) -> (r: usize)
    requires
        units_per_point.rank() != 0,
    ensures
        r == zoom_bits(units_per_point) + GUARD_BITS,
        GUARD_BITS <= r <= 1074 + GUARD_BITS,
{
    let m: u64 = units_per_point.bits;
    if m >= DOUBLE_INFINITY {
        return GUARD_BITS;
    }
    if m < DOUBLE_HIDDEN {
        let length: u32 = crate::bigfloat::bit_length(m);
        assert(units_per_point.significand() == m);
        assert(bits(m as int) <= 52) by {
            reveal_with_fuel(bits, 54);
        }
        return 1075 - length as usize + GUARD_BITS;
    }
    let biased: u64 = m / DOUBLE_HIDDEN;
    proof {
        lemma_normal_bits(units_per_point.significand());
    }
    if biased < 1023 {
        (1023 - biased) as usize + GUARD_BITS
    } else {
        GUARD_BITS
    }
}

proof fn lemma_bits_grow(m: int, n: int)
    requires
        0 <= m <= n,
    ensures
        bits(m) <= bits(n),
    decreases n,
{
    if m > 0 {
        lemma_bits_grow(m / 2, n / 2);
    }
}

/// Zooming in never asks for fewer bits.
pub proof fn law_deeper_zoom_needs_no_fewer_bits(deep: Double, shallow: Double)
    requires
        deep.finite(),
        shallow.finite(),
        0 < deep.rank() <= shallow.rank(),
    ensures
        zoom_bits(deep) >= zoom_bits(shallow),
{
    if deep.magnitude() >= DOUBLE_HIDDEN {
        lemma_normal_bits(deep.significand());
    }
    if shallow.magnitude() >= DOUBLE_HIDDEN {
        lemma_normal_bits(shallow.significand());
    }
    if deep.magnitude() < DOUBLE_HIDDEN {
        assert(bits((DOUBLE_HIDDEN - 1) as int) == 52) by {
            reveal_with_fuel(bits, 54);
        }
        lemma_bits_grow(deep.significand(), (DOUBLE_HIDDEN - 1) as int);
        if shallow.magnitude() < DOUBLE_HIDDEN {
            lemma_bits_grow(deep.significand(), shallow.significand());
        }
    }
}

/// The zoom asks for just as many bits as it takes to count in pixels: with
/// them a pixel is no less than one unit, with one bit less it is. Scales of
/// one and above ask for none, and neither does what is no finite number above
/// zero.
pub proof fn law_zoom_bits_resolve_a_pixel(scale: Double)
    ensures
        zoom_bits(scale) >= 0,
        !scale.finite() || scale.rank() <= 0 ==> zoom_bits(scale) == 0,
        scale.finite() && scale.rank() > 0 && scale.exponent() >= 0 ==> zoom_bits(scale) == 0,
        scale.finite() && scale.rank() > 0 && scale.exponent() < 0 ==> {
            let one = pow2((-scale.exponent()) as nat);
            &&& scale.significand() * pow2(zoom_bits(scale) as nat) >= one
            &&& zoom_bits(scale) > 0 ==> scale.significand() * pow2((zoom_bits(scale) - 1) as nat)
                < one
        },
{
    if scale.finite() && scale.rank() > 0 && scale.exponent() < 0 {
        let n = scale.significand();
        let k = zoom_bits(scale) as nat;
        let places = (-scale.exponent()) as nat;
        let one = pow2(places) as int;
        crate::bigfloat::law_the_length_of_an_integer(n);
        vstd::arithmetic::power2::lemma_pow2_pos(k);
        let length = bits(n);
        assert(length >= 1);
        let low = pow2((length - 1) as nat) as int;
        vstd::arithmetic::power2::lemma_pow2_adds((length - 1) as nat, k);
        assert(n * pow2(k) >= low * pow2(k)) by (nonlinear_arith)
            requires
                n >= low,
                pow2(k) > 0,
        ;
        if k > 0 {
            assert(length - 1 + k == places);
            vstd::arithmetic::power2::lemma_pow2_adds(length, (k - 1) as nat);
            vstd::arithmetic::power2::lemma_pow2_pos((k - 1) as nat);
            assert(n * pow2((k - 1) as nat) < pow2(length) * pow2((k - 1) as nat))
                by (nonlinear_arith)
                requires
                    n < pow2(length),
                    pow2((k - 1) as nat) > 0,
            ;
        } else {
            assert(length - 1 >= places);
            if places < length - 1 {
                vstd::arithmetic::power2::lemma_pow2_strictly_increases(
                    places,
                    (length - 1) as nat,
                );
            }
        }
    } else if scale.finite() && scale.rank() > 0 {
        crate::bigfloat::law_the_length_of_an_integer(scale.significand());
        assert(scale.significand() != 0);
    }
}

/// A double becomes the number that it is, at the precision of its significand.
pub proof fn law_a_double_is_taken_exactly(d: Double)
    requires
        d.finite(),
    ensures
        in_units(exact(d), d.exponent()) == d.significand(),
        d.significand() == 0 <==> exact(d).significand == 0,
        exact(d).significand != 0 ==> exact(d).significand % 2 != 0 && exact(d).exponent
            >= d.exponent(),
        absolute(d.significand()) < pow2(exact(d).precision),
        d.significand() != 0 ==> pow2((exact(d).precision - 1) as nat) <= absolute(
            d.significand(),
        ),
{
    crate::bigfloat::law_the_normal_form(d.significand(), d.exponent());
    crate::bigfloat::law_the_length_of_an_integer(d.significand());
}

/// The precision of typed coordinates grows by four bits with every byte of
/// the longer text, from the guard bits on.
pub proof fn law_typed_bits_hold_every_digit(re: Seq<char>, im: Seq<char>)
    ensures
        typed_bits(re, im) >= 4 * encode_utf8(re).len() + GUARD_BITS,
        typed_bits(re, im) >= 4 * encode_utf8(im).len() + GUARD_BITS,
        typed_bits(re, im) == 4 * encode_utf8(re).len() + GUARD_BITS || typed_bits(re, im) == 4
            * encode_utf8(im).len() + GUARD_BITS,
        GUARD_BITS == 64,
{
}

/// A coordinate that cannot be read is named in quotes, with the reason.
pub proof fn law_a_bad_coordinate_is_quoted(text: Seq<char>, error: ParseError)
    ensures
        ({
            let message = bad_coordinate(text, error);
            let head = "bad coordinate "@;
            let middle = ": "@;
            let named = head.len() + quoted(text).len();
            &&& message.len() == named + middle.len() + error.words().len()
            &&& message.take(head.len() as int) == head
            &&& message.subrange(head.len() as int, named as int) == quoted(text)
            &&& message.subrange(named as int, (named + middle.len()) as int) == middle
            &&& message.skip((named + middle.len()) as int) == error.words()
        }),
{
    let message = bad_coordinate(text, error);
    let head = "bad coordinate "@;
    let middle = ": "@;
    let named = head.len() + quoted(text).len();
    assert(message.take(head.len() as int) =~= head);
    assert(message.subrange(head.len() as int, named as int) =~= quoted(text));
    assert(message.subrange(named as int, (named + middle.len()) as int) =~= middle);
    assert(message.skip((named + middle.len()) as int) =~= error.words());
}

/// A finite double as an arbitrary-precision number.
pub open spec fn exact(d: Double) -> Real {
    Real {
        significand: normal(d.significand(), d.exponent()).0,
        exponent: normal(d.significand(), d.exponent()).1,
        precision: bits(d.significand()),
    }
}

/// The double nearest to a number.
pub open spec fn nearest(x: Real) -> Double {
    Double { bits: double_bits(x) }
}

/// The error for a coordinate that cannot be read.
pub open spec fn bad_coordinate(text: Seq<char>, error: ParseError) -> Seq<char> {
    "bad coordinate "@ + quoted(text) + ": "@ + error.words()
}

/// The precision that holds every digit of two texts: four bits a character,
/// and the guard bits.
pub open spec fn typed_bits(re: Seq<char>, im: Seq<char>) -> nat {
    let a = encode_utf8(re).len();
    let b = encode_utf8(im).len();
    4 * (if a > b {
        a
    } else {
        b
    }) + 64
}

/// A decimal number in binary, at a precision.
pub open spec fn in_binary(x: Real, precision: nat) -> Real {
    binary_of(x.significand, x.exponent, precision)
}

/// What was read of a text, if it is a number, can be brought to base two.
pub open spec fn readable_at(text: Seq<char>, precision: nat) -> bool {
    decimal_of(text) matches Ok(x) ==> binary_quotient(x, precision)
}

proof fn lemma_normal_is_shorter(significand: int, exponent: int)
    ensures
        bits(normal(significand, exponent).0) <= bits(significand),
    decreases (if significand < 0 {
        -significand
    } else {
        significand
    }),
{
    if significand != 0 && significand % 2 == 0 {
        lemma_normal_is_shorter(significand / 2, exponent + 1);
        if significand < 0 {
            assert((-significand) / 2 == -(significand / 2));
            assert(bits(-(significand / 2)) == bits(significand / 2));
        }
    }
}

proof fn lemma_utf8_is_no_shorter(text: Seq<char>)
    ensures
        encode_utf8(text).len() >= text.len(),
    decreases text.len(),
{
    if text.len() > 0 {
        lemma_utf8_is_no_shorter(text.drop_first());
    }
}

/// A coordinate from what was read of its text.
pub fn coordinate(text: &str, parsed: Result<BigDecimal, ParseError>, precision: usize) -> (r:
    Result<BigFloat, String>)
    requires
        parsed matches Ok(x) ==> x.wf() && convertible(x@) && binary_quotient(
            x@,
            precision as nat,
        ),
        0 < precision <= PRECISION_LIMIT,
    ensures
        match parsed {
            Ok(x) => r matches Ok(v) && v.wf() && v@ == in_binary(x@, precision as nat)
                && v@.precision == precision,
            Err(e) => r matches Err(message) && message@ == bad_coordinate(text@, e),
        },
{
    match parsed {
        Ok(x) => Ok(to_binary(&x, precision)),
        Err(e) => {
            let mut message: String = "bad coordinate ".to_owned();
            message.append(quote(text).as_str());
            message.append(": ");
            message.append(e.message());
            Err(message)
        },
    }
}

/// A text without a scale that is read as a decimal number, whatever precision
/// the number was rounded to.
pub open spec fn reads_back(text: Seq<char>, x: Real) -> bool {
    reads_as(text, x.significand, x.exponent)
}

/// A coordinate that is written in decimal and read again, at whatever
/// precision, is the decimal number brought to base two: nothing is lost in
/// the text.
pub proof fn law_written_coordinates_are_read_back(
    text: Seq<char>,
    written: Real,
    read: Real,
    precision: nat,
)
    requires
        reads_back(text, written),
        decimal_of(text) == Ok::<Real, ParseError>(read),
    ensures
        in_binary(read, precision) == in_binary(written, precision),
{
}

/// The decimal digits in a bit: the double nearest to 0.30103, just above
/// log10(2), in parts of `2^53`.
pub const DIGITS_PER_BIT: u64 = 2_711_437_191_654_681;

/// `2^53`.
pub const TWO_TO_53: u64 = 0x20_0000_0000_0000;

/// An integer rounded to the 53 bits of a double, ties to even.
pub open spec fn to_53_bits(n: nat) -> nat {
    let length = bits(n as int);
    if length <= 53 {
        n
    } else {
        let unit = pow2((length - 53) as nat);
        let (kept, rest) = (n / unit, n % unit);
        if 2 * rest > unit || (2 * rest == unit && kept % 2 == 1) {
            (kept + 1) * unit
        } else {
            kept * unit
        }
    }
}

/// The decimal digits that reproduce a number of `width` bits, with a margin:
/// the product in doubles, rounded up, and four more.
pub open spec fn digits_for(width: nat) -> nat {
    let product = to_53_bits((to_53_bits(width) * DIGITS_PER_BIT) as nat);
    (product + (TWO_TO_53 - 1)) as nat / TWO_TO_53 as nat + 4
}

/// Rounding to the 53 bits of a double changes a number by no more than its
/// `2^53`rd part.
pub proof fn law_rounding_to_a_double_is_close(n: nat)
    ensures
        absolute(to_53_bits(n) - n) * TWO_TO_53 <= n,
        bits(n as int) <= 53 ==> to_53_bits(n) == n,
{
    let length = bits(n as int);
    if length > 53 {
        let shift = (length - 53) as nat;
        let unit = pow2(shift) as int;
        vstd::arithmetic::power2::lemma2_to64_rest();
        vstd::arithmetic::power2::lemma_pow2_pos(shift);
        vstd::arithmetic::power2::lemma_pow2_adds(shift, 52);
        assert(shift + 52 == length - 1);
        crate::bigfloat::law_the_length_of_an_integer(n as int);
        vstd::arithmetic::div_mod::lemma_fundamental_div_mod(n as int, unit);
        vstd::arithmetic::div_mod::lemma_mod_bound(n as int, unit);
        let (kept, rest) = (n as int / unit, n as int % unit);
        assert((kept + 1) * unit == unit * kept + unit) by (nonlinear_arith);
        assert(kept * unit == unit * kept) by (nonlinear_arith);
        let error = absolute(to_53_bits(n) - n);
        assert(2 * error <= unit);
        assert(pow2(52) * 2 == TWO_TO_53);
        assert(error * TWO_TO_53 <= unit * pow2(52)) by (nonlinear_arith)
            requires
                2 * error <= unit,
                pow2(52) * 2 == TWO_TO_53,
        ;
    }
}

/// The digits for a number of some bits are four more than it takes at
/// 0.30103 digits a bit, rounded up, but for the rounding of doubles: at most
/// one digit in a million millions less, and less than one digit more.
pub proof fn law_digits_for_some_bits(width: nat)
    ensures
        digits_for(width) >= 4,
        1_000_000_000_000 * ((digits_for(width) - 4) * TWO_TO_53) >= 999_999_999_999 * (width
            * DIGITS_PER_BIT),
        1_000_000_000_000 * ((digits_for(width) - 5) * TWO_TO_53) < 1_000_000_000_001 * (width
            * DIGITS_PER_BIT),
        30103 * TWO_TO_53 <= 100000 * DIGITS_PER_BIT < 30103 * TWO_TO_53 + 100000,
{
    let rounded = to_53_bits(width) as int;
    let product = (rounded * DIGITS_PER_BIT) as nat;
    let scaled = to_53_bits(product) as int;
    law_rounding_to_a_double_is_close(width);
    law_rounding_to_a_double_is_close(product);
    let d = digits_for(width) - 4;
    let t = TWO_TO_53 as int;
    vstd::arithmetic::div_mod::lemma_fundamental_div_mod(scaled + (t - 1), t);
    assert(d * t >= scaled);
    assert(width > 0 || scaled == 0);
    assert((d - 1) * t < scaled || scaled == 0);
}

/// Round an integer to the 53 bits of a double.
fn nearest_53_bits(n: u128) -> (r: u128)
    requires
        n < 0x1_0000_0000_0000_0000_0000_0000_0000,
    ensures
        r == to_53_bits(n as nat),
        1000 * r <= 1001 * n,
{
    let mut unit: u128 = 1;
    let mut kept: u128 = n;
    let ghost mut shift: nat = 0;
    proof {
        vstd::arithmetic::power2::lemma2_to64();
        vstd::arithmetic::power2::lemma2_to64_rest();
    }
    while kept >= TWO_TO_53 as u128
        invariant
            unit == pow2(shift),
            unit > 0,
            kept == n / unit,
            unit * kept <= n,
            bits(kept as int) + shift == bits(n as int),
            shift > 0 ==> kept >= TWO_TO_53 / 2,
            n < 0x1_0000_0000_0000_0000_0000_0000_0000,
        decreases kept,
    {
        proof {
            vstd::arithmetic::power2::lemma_pow2_unfold((shift + 1) as nat);
            vstd::arithmetic::div_mod::lemma_div_denominator(n as int, unit as int, 2);
            let half = kept / 2;
            assert(unit * 2 * half <= unit * kept) by (nonlinear_arith)
                requires
                    half == kept / 2,
                    unit > 0,
            ;
            assert(unit <= unit * kept) by (nonlinear_arith)
                requires
                    kept >= 1,
                    unit > 0,
            ;
            shift = shift + 1;
        }
        kept = kept / 2;
        unit = unit * 2;
    }
    if unit == 1 {
        proof {
            if shift > 0 {
                vstd::arithmetic::power2::lemma_pow2_strictly_increases(0, shift);
            }
            lemma_bits_at_most(n as int, 53);
        }
        return n;
    }
    proof {
        lemma_normal_bits(kept as int);
        vstd::arithmetic::div_mod::lemma_fundamental_div_mod(n as int, unit as int);
        assert(1000 * unit <= unit * kept) by (nonlinear_arith)
            requires
                kept >= 1000,
                unit > 0,
        ;
        assert((kept + 1) * unit == unit * kept + unit) by (nonlinear_arith);
        assert(kept * unit == unit * kept) by (nonlinear_arith);
    }
    let rest: u128 = n % unit;
    if 2 * rest > unit || (2 * rest == unit && kept % 2 == 1) {
        (kept + 1) * unit
    } else {
        kept * unit
    }
}

/// An arbitrary-precision point in the complex plane.
#[derive(Debug)]
pub struct BigComplex {
    pub re: BigFloat,
    pub im: BigFloat,
}

impl BigComplex {
    /// Both coordinates are well-formed.
    pub open spec fn wf(&self) -> bool {
        self.re.wf() && self.im.wf()
    }

    /// Both coordinates are fit for any arithmetic.
    pub open spec fn in_range(&self) -> bool {
        self.re@.in_range() && self.im@.in_range()
    }

    /// Whether both coordinates are fit for any arithmetic.
    pub fn is_in_range(&self) -> (r: bool)
        requires
            self.wf(),
        ensures
            r == self.in_range(),
    {
        self.re.is_in_range() && self.im.is_in_range()
    }

    /// From two finite doubles, exactly.
    pub fn from_f64(re: Double, im: Double) -> (r: BigComplex)
        requires
            re.finite(),
            im.finite(),
        ensures
            r.wf(),
            r.in_range(),
            r.re@ == exact(re),
            r.im@ == exact(im),
    {
        BigComplex { re: BigFloat::from_double(re), im: BigFloat::from_double(im) }
    }

    /// Parse from decimal strings (bookmark format).
    pub fn from_decimal(re: &str, im: &str, precision: usize) -> (r: Result<BigComplex, String>)
        requires
            scale_supported(re@),
            scale_supported(im@),
            0 < precision <= PRECISION_LIMIT,
            readable_at(re@, precision as nat),
            readable_at(im@, precision as nat),
        ensures
            match (decimal_of(re@), decimal_of(im@)) {
                (Ok(x), Ok(y)) => r matches Ok(c) && c.wf() && c.re@ == in_binary(
                    x,
                    precision as nat,
                ) && c.im@ == in_binary(y, precision as nat),
                (Err(e), _) => r matches Err(message) && message@ == bad_coordinate(re@, e),
                (_, Err(e)) => r matches Err(message) && message@ == bad_coordinate(im@, e),
            },
    {
        let re = match coordinate(re, parse_decimal(re), precision) {
            Ok(x) => x,
            Err(message) => return Err(message),
        };
        let im = match coordinate(im, parse_decimal(im), precision) {
            Ok(y) => y,
            Err(message) => return Err(message),
        };
        Ok(BigComplex { re, im })
    }

    /// Parse from decimal strings at a precision that holds every digit of
    /// them, and at least `least` bits. `None` where that is more than can be
    /// computed with.
    pub fn from_text(re: &str, im: &str, least: usize) -> (r: Option<Result<BigComplex, String>>)
        ensures
            ({
                let typed = typed_bits(re@, im@);
                let precision = if typed > least {
                    typed
                } else {
                    least as nat
                };
                &&& r is None <==> !scale_supported(re@) || !scale_supported(im@) || precision
                    > PRECISION_LIMIT
                &&& r is Some ==> match (decimal_of(re@), decimal_of(im@)) {
                    (Ok(x), Ok(y)) => r->0 matches Ok(c) && c.wf() && c.re@ == in_binary(
                        x,
                        precision,
                    ) && c.im@ == in_binary(y, precision),
                    (Err(e), _) => r->0 matches Err(message) && message@ == bad_coordinate(re@, e),
                    (_, Err(e)) => r->0 matches Err(message) && message@ == bad_coordinate(im@, e),
                }
            }),
    {
        let (a, b): (usize, usize) = (re.as_bytes().len(), im.as_bytes().len());
        let longer: usize = if a > b {
            a
        } else {
            b
        };
        if longer > (PRECISION_LIMIT - 64) / 4 {
            return None;
        }
        let typed: usize = 4 * longer + 64;
        let precision: usize = if typed > least {
            typed
        } else {
            least
        };
        if precision > PRECISION_LIMIT || !is_scale_supported(re) || !is_scale_supported(im) {
            return None;
        }
        // Reading shows that no significand is longer than the precision.
        let (read_re, read_im) = (parse_decimal(re), parse_decimal(im));
        proof {
            lemma_utf8_is_no_shorter(re@);
            lemma_utf8_is_no_shorter(im@);
            if let Ok(x) = read_re {
                lemma_normal_is_shorter(x@.significand, 0);
            }
            if let Ok(y) = read_im {
                lemma_normal_is_shorter(y@.significand, 0);
            }
        }
        Some(BigComplex::from_decimal(re, im, precision))
    }

    /// The decimal digits that reproduce this point: as many as its bits
    /// hold, and a margin.
    pub open spec fn digits(&self) -> nat {
        digits_for(wider(wider(self.re@.precision, self.im@.precision), 64))
    }

    /// How many decimal digits reproduce this point.
    pub fn decimal_digits(&self) -> (r: usize)
        requires
            self.in_range(),
        ensures
            r == self.digits(),
            0 < r <= PRECISION_LIMIT,
    {
        let (a, b): (usize, usize) = (self.re.precision(), self.im.precision());
        let mut width: u128 = 64;
        if a as u128 > width {
            width = a as u128;
        }
        if b as u128 > width {
            width = b as u128;
        }
        let bits: u128 = nearest_53_bits(width);
        assert(bits <= 0x1000_0000_0000_0000);
        assert(bits * 2_711_437_191_654_681 < 0x1_0000_0000_0000_0000_0000_0000_0000)
            by (nonlinear_arith)
            requires
                bits <= 0x1000_0000_0000_0000,
        ;
        let scaled: u128 = nearest_53_bits(bits * DIGITS_PER_BIT as u128);
        ((scaled + (TWO_TO_53 as u128 - 1)) / TWO_TO_53 as u128 + 4) as usize
    }

    /// Whether both coordinates can be written with some decimal digits. They
    /// can where they are below `8^digits`.
    pub fn writes(&self, digits: usize) -> (r: bool)
        requires
            self.wf(),
            self.in_range(),
            digits <= PRECISION_LIMIT,
        ensures
            r ==> self.writable(digits as nat),
            self.re@.top() <= 3 * digits && self.im@.top() <= 3 * digits ==> r,
    {
        self.re.writes(digits) && self.im.writes(digits)
    }

    /// Both coordinates can be brought to base ten with some digits.
    pub open spec fn writable(&self, digits: nat) -> bool {
        decimal_quotient(self.re@, digits) && decimal_quotient(self.im@, digits)
    }

    /// Decimal strings with enough digits to reproduce the view. What is
    /// written is read back, digit for digit.
    pub fn to_decimal(&self) -> (r: [String; 2])
        requires
            self.wf(),
            self.in_range(),
            self.writable(self.digits()),
        ensures
            r[0]@ == decimal_text(decimal_digits(self.re@, self.digits())),
            r[1]@ == decimal_text(decimal_digits(self.im@, self.digits())),
            reads_back(r[0]@, decimal_digits(self.re@, self.digits())),
            reads_back(r[1]@, decimal_digits(self.im@, self.digits())),
    {
        self.to_decimal_digits(self.decimal_digits())
    }

    /// Decimal strings rounded to `digits` significant digits (for display).
    /// What is written is read back, digit for digit.
    pub fn to_decimal_digits(&self, digits: usize) -> (r: [String; 2])
        requires
            self.wf(),
            self.in_range(),
            0 < digits <= PRECISION_LIMIT,
            self.writable(digits as nat),
        ensures
            r[0]@ == decimal_text(decimal_digits(self.re@, digits as nat)),
            r[1]@ == decimal_text(decimal_digits(self.im@, digits as nat)),
            reads_back(r[0]@, decimal_digits(self.re@, digits as nat)),
            reads_back(r[1]@, decimal_digits(self.im@, digits as nat)),
    {
        [write_decimal(&to_decimal(&self.re, digits)), write_decimal(&to_decimal(&self.im, digits))]
    }

    /// Add an offset that is small enough to be exact in a double.
    pub fn offset(&mut self, dre: Double, dim: Double, precision: usize)
        requires
            old(self).wf(),
            old(self).in_range(),
            dre.finite(),
            dim.finite(),
            precision <= PRECISION_LIMIT,
        ensures
            final(self).wf(),
            final(self).re@ == at_precision(big_sum(old(self).re@, exact(dre)), precision as nat),
            final(self).im@ == at_precision(big_sum(old(self).im@, exact(dim)), precision as nat),
            final(self).re@.precision == precision,
            final(self).im@.precision == precision,
            adds_up(big_sum(old(self).re@, exact(dre)), old(self).re@, exact(dre)),
            adds_up(big_sum(old(self).im@, exact(dim)), old(self).im@, exact(dim)),
            forall|unit: int|
                #[trigger] moved(
                    final(self).re@,
                    old(self).re@,
                    exact(dre),
                    precision as nat,
                    unit,
                ),
            forall|unit: int|
                #[trigger] moved(
                    final(self).im@,
                    old(self).im@,
                    exact(dim),
                    precision as nat,
                    unit,
                ),
    {
        let ghost (from_re, from_im) = (self.re@, self.im@);
        let re = sum(&self.re, &BigFloat::from_double(dre));
        let im = sum(&self.im, &BigFloat::from_double(dim));
        self.re = with_precision(&re, precision);
        self.im = with_precision(&im, precision);
        proof {
            assert forall|unit: int|
                #[trigger] moved(self.re@, from_re, exact(dre), precision as nat, unit) by {
                lemma_moved(self.re@, re@, from_re, exact(dre), precision as nat, unit);
            }
            assert forall|unit: int|
                #[trigger] moved(self.im@, from_im, exact(dim), precision as nat, unit) by {
                lemma_moved(self.im@, im@, from_im, exact(dim), precision as nat, unit);
            }
        }
    }

    /// Raise (or lower) the stored precision.
    pub fn set_precision(&mut self, precision: usize)
        requires
            old(self).wf(),
            old(self).in_range(),
            precision <= PRECISION_LIMIT,
        ensures
            final(self).wf(),
            final(self).re@ == at_precision(old(self).re@, precision as nat),
            final(self).im@ == at_precision(old(self).im@, precision as nat),
            final(self).re@.precision == precision,
            final(self).im@.precision == precision,
            old(self).re@.precision <= precision ==> final(self).re@.significand == old(
                self,
            ).re@.significand && final(self).re@.exponent == old(self).re@.exponent,
            old(self).im@.precision <= precision ==> final(self).im@.significand == old(
                self,
            ).im@.significand && final(self).im@.exponent == old(self).im@.exponent,
    {
        self.re = with_precision(&self.re, precision);
        self.im = with_precision(&self.im, precision);
    }

    /// Difference `self - other`, as doubles (used for the center-to-reference
    /// offset, always within a few view extents). A point differs from itself
    /// by exactly zero.
    pub fn sub_to_f64(&self, other: &BigComplex) -> (r: Point)
        requires
            self.wf(),
            other.wf(),
            self.in_range(),
            other.in_range(),
        ensures
            r.x == nearest(big_difference(self.re@, other.re@)),
            r.y == nearest(big_difference(self.im@, other.im@)),
            takes_away(big_difference(self.re@, other.re@), self.re@, other.re@),
            takes_away(big_difference(self.im@, other.im@), self.im@, other.im@),
            self.re@ == other.re@ && self.im@ == other.im@ ==> r.x.bits == 0 && r.y.bits == 0,
    {
        Point {
            x: nearest_double(&difference(&self.re, &other.re)),
            y: nearest_double(&difference(&self.im, &other.im)),
        }
    }

    /// The nearest doubles. A point made from doubles gives them back.
    pub fn to_f64(&self) -> (r: Point)
        requires
            self.wf(),
            self.in_range(),
        ensures
            r.x == nearest(self.re@),
            r.y == nearest(self.im@),
            forall|d: Double| #[trigger]
                d.finite() && d.significand() != 0 && self.re@ == exact(d) ==> r.x == d,
            forall|d: Double| #[trigger]
                d.finite() && d.significand() != 0 && self.im@ == exact(d) ==> r.y == d,
            self.re@.significand == 0 ==> r.x.bits == 0,
            self.im@.significand == 0 ==> r.y.bits == 0,
    {
        Point { x: nearest_double(&self.re), y: nearest_double(&self.im) }
    }
}

/// A number was moved by another: in whole numbers of `2^unit` it is the exact
/// sum, up to six parts in two to the bits that it can hold. These are the
/// bits of the precision, or those of what was added where they are fewer.
pub open spec fn moved(r: Real, from: Real, by: Real, precision: nat, unit: int) -> bool {
    let held = wider(from.precision, by.precision);
    let kept = if precision == 0 || held <= precision {
        held
    } else {
        precision
    };
    let number = in_units(from, unit) + in_units(by, unit);
    unit <= from.exponent && unit <= by.exponent ==> {
        &&& r.significand == 0 || unit <= r.exponent
        &&& absolute(in_units(r, unit) - number) * pow2(kept) <= 6 * absolute(number)
        &&& held == 0 ==> in_units(r, unit) == number
    }
}

proof fn lemma_moved(r: Real, sum: Real, from: Real, by: Real, precision: nat, unit: int)
    requires
        adds_up(sum, from, by),
        sum.precision == wider(from.precision, by.precision),
        r == at_precision(sum, precision),
        0 < precision < sum.precision ==> rounds_to(r, sum.significand, sum.exponent, precision),
    ensures
        moved(r, from, by, precision, unit),
{
    if unit <= from.exponent && unit <= by.exponent {
        let held = wider(from.precision, by.precision);
        let number = in_units(from, unit) + in_units(by, unit);
        lemma_sum_error(sum, from, by, held, unit);
        if 0 < precision < held {
            let (wide, narrow) = (pow2(held) as int, pow2(precision) as int);
            let between = in_units(sum, unit);
            vstd::arithmetic::power2::lemma_pow2_strictly_increases(precision, held);
            vstd::arithmetic::power2::lemma_pow2_unfold(precision);
            vstd::arithmetic::power2::lemma_pow2_pos((precision - 1) as nat);
            if sum.significand != 0 {
                lemma_rounding_error(r, sum.significand, sum.exponent, precision, unit);
            } else {
                assert(normal(0, sum.exponent) == (0int, 0int));
                assert(bits(0) == 0);
                assert(0 * narrow == 0);
            }
            assert(absolute(in_units(r, unit) - between) * narrow <= 2 * absolute(between));
            let error = absolute(between - number);
            assert(error * narrow <= error * wide) by (nonlinear_arith)
                requires
                    error >= 0,
                    narrow <= wide,
            ;
            lemma_parts_within(between - number, number, narrow);
            lemma_errors_add_up(
                in_units(r, unit) - between,
                between - number,
                0,
                0,
                6 * absolute(number),
                narrow,
            );
        }
    }
}

/// The nearest double of a number has the bits that the arithmetic gives it,
/// and a decimal number in binary is what the arithmetic makes of its
/// significand and its exponent at the precision.
pub proof fn law_numbers_are_converted_as_they_are(x: Real, precision: nat)
    ensures
        nearest(x).bits == double_bits(x),
        in_binary(x, precision) == binary_of(x.significand, x.exponent, precision),
{
}

/// A point is written with the digits for its wider coordinate, and for 64
/// bits at least.
pub proof fn law_the_digits_of_a_point(c: BigComplex)
    ensures
        c.re@.precision <= 64 && c.im@.precision <= 64 ==> c.digits() == digits_for(64),
        c.re@.precision >= 64 && c.re@.precision >= c.im@.precision ==> c.digits() == digits_for(
            c.re@.precision,
        ),
        c.im@.precision >= 64 && c.im@.precision >= c.re@.precision ==> c.digits() == digits_for(
            c.im@.precision,
        ),
{
}

impl Clone for BigComplex {
    fn clone(&self) -> (r: BigComplex)
        ensures
            r.re@ == self.re@,
            r.im@ == self.im@,
            r.wf() == self.wf(),
    {
        BigComplex { re: self.re.clone(), im: self.im.clone() }
    }
}

/// A verdict holds of the points that it says `true` of.
pub proof fn law_a_verdict_holds_where_it_says_so<F: Fn(Point) -> bool>(verdict: F, p: Point)
    ensures
        holds(verdict)(p) <==> call_ensures(verdict, (p,), true),
{
}

/// One step of the orbit: `z² + c`, at a precision.
pub open spec fn orbit_step(z: (Real, Real), c: (Real, Real), precision: nat) -> (Real, Real) {
    let cross = big_product(z.0, z.1);
    (
        at_precision(
            big_sum(big_difference(big_square(z.0), big_square(z.1)), c.0),
            precision,
        ),
        at_precision(big_sum(big_sum(cross, cross), c.1), precision),
    )
}

/// The orbit of zero after `n` steps.
pub open spec fn orbit_at(c: (Real, Real), precision: nat, n: nat) -> (Real, Real)
    decreases n,
{
    if n == 0 {
        let zero = Real { significand: 0, exponent: 0, precision };
        (zero, zero)
    } else {
        orbit_step(
            orbit_at(c, precision, (n - 1) as nat),
            (at_precision(c.0, precision), at_precision(c.1, precision)),
            precision,
        )
    }
}

/// What is known of the arithmetic in a step: squares, product, difference and
/// sums are the exact ones, rounded to the precision.
pub open spec fn rounded_arithmetic(z: (Real, Real), c: (Real, Real), precision: nat) -> bool {
    let (xx, yy, xy) = (big_square(z.0), big_square(z.1), big_product(z.0, z.1));
    let (difference, double) = (big_difference(xx, yy), big_sum(xy, xy));
    &&& c.0.precision == precision && c.1.precision == precision
    &&& xx.precision == precision && yy.precision == precision && xy.precision == precision
    &&& difference.precision == precision && double.precision == precision
    &&& big_sum(difference, c.0).precision == precision
    &&& big_sum(double, c.1).precision == precision
    &&& multiplies(xx, z.0, z.0, precision)
    &&& multiplies(yy, z.1, z.1, precision)
    &&& multiplies(xy, z.0, z.1, precision)
    &&& takes_away(difference, xx, yy)
    &&& adds_up(double, xy, xy)
    &&& adds_up(big_sum(difference, c.0), difference, c.0)
    &&& adds_up(big_sum(double, c.1), double, c.1)
}

/// A point follows another in the orbit of `c`, in whole numbers of `2^unit`:
/// its real part is `x² - y² + a` and its imaginary part `2xy + b`, exactly at
/// the unlimited precision, and else up to sixteen parts in `2^precision` of
/// what is added up.
pub open spec fn follows(
    z: (Real, Real),
    c: (Real, Real),
    next: (Real, Real),
    precision: nat,
    unit: int,
) -> bool {
    let xx = z.0.significand * z.0.significand * pow2((z.0.exponent + z.0.exponent - unit) as nat);
    let yy = z.1.significand * z.1.significand * pow2((z.1.exponent + z.1.exponent - unit) as nat);
    let xy = z.0.significand * z.1.significand * pow2((z.0.exponent + z.1.exponent - unit) as nat);
    let (a, b) = (in_units(c.0, unit), in_units(c.1, unit));
    let (re, im) = (in_units(next.0, unit), in_units(next.1, unit));
    &&& absolute(re - (xx - yy + a)) * pow2(precision) <= 16 * (xx + yy + absolute(a))
    &&& absolute(im - (2 * xy + b)) * pow2(precision) <= 16 * (2 * absolute(xy) + absolute(b))
    &&& precision == 0 ==> re == xx - yy + a && im == 2 * xy + b
    &&& next.0.significand == 0 || unit <= next.0.exponent
    &&& next.1.significand == 0 || unit <= next.1.exponent
}

/// Numbers that lead from a point to the next: the squares and the product of
/// its parts, the difference of the squares, and twice the product, each the
/// exact one rounded once; the next point is their sum with `c`, rounded once.
pub open spec fn leads_over(
    z: (Real, Real),
    c: (Real, Real),
    next: (Real, Real),
    precision: nat,
    xx: Real,
    yy: Real,
    xy: Real,
    difference: Real,
    double: Real,
) -> bool {
    &&& xx.precision == precision && yy.precision == precision && xy.precision == precision
    &&& difference.precision == precision && double.precision == precision
    &&& multiplies(xx, z.0, z.0, precision)
    &&& multiplies(yy, z.1, z.1, precision)
    &&& multiplies(xy, z.0, z.1, precision)
    &&& takes_away(difference, xx, yy)
    &&& adds_up(double, xy, xy)
    &&& adds_up(next.0, difference, c.0)
    &&& adds_up(next.1, double, c.1)
}

/// A point follows another with no more than one rounding at each operation.
pub open spec fn rounds_once(
    z: (Real, Real),
    c: (Real, Real),
    next: (Real, Real),
    precision: nat,
) -> bool {
    exists|xx: Real, yy: Real, xy: Real, difference: Real, double: Real| #[trigger]
        leads_over(z, c, next, precision, xx, yy, xy, difference, double)
}

/// Whole numbers of `2^unit` can stand for every number in a step.
pub open spec fn fine_enough(z: (Real, Real), c: (Real, Real), unit: int) -> bool {
    &&& unit <= z.0.exponent + z.0.exponent
    &&& unit <= z.1.exponent + z.1.exponent
    &&& unit <= z.0.exponent + z.1.exponent
    &&& unit <= c.0.exponent
    &&& unit <= c.1.exponent
}

proof fn lemma_some_unit_is_fine_enough(z: (Real, Real), c: (Real, Real)) -> (unit: int)
    ensures
        fine_enough(z, c, unit),
{
    let low = lower(lower(z.0.exponent, z.1.exponent), lower(c.0.exponent, c.1.exponent));
    if low < 0 {
        low + low
    } else {
        0
    }
}

proof fn lemma_parts_within(n: int, of: int, scale: int)
    requires
        absolute(n) * scale <= 2 * absolute(of),
        scale >= 2,
    ensures
        absolute(n) <= absolute(of),
{
    assert(absolute(n) * 2 <= absolute(n) * scale) by (nonlinear_arith)
        requires
            absolute(n) >= 0,
            scale >= 2,
    ;
}

proof fn lemma_errors_add_up(e1: int, e2: int, e3: int, e4: int, bound: int, scale: int)
    requires
        scale > 0,
        absolute(e1) * scale + absolute(e2) * scale + absolute(e3) * scale + absolute(e4) * scale
            <= bound,
    ensures
        absolute(e1 + e2 + e3 + e4) * scale <= bound,
{
    let total = absolute(e1) + absolute(e2) + absolute(e3) + absolute(e4);
    assert(total * scale == absolute(e1) * scale + absolute(e2) * scale + absolute(e3) * scale
        + absolute(e4) * scale) by (nonlinear_arith)
        requires
            total == absolute(e1) + absolute(e2) + absolute(e3) + absolute(e4),
    ;
    assert(absolute(e1 + e2 + e3 + e4) * scale <= total * scale) by (nonlinear_arith)
        requires
            absolute(e1 + e2 + e3 + e4) <= total,
            scale > 0,
    ;
}

/// A step of the orbit is `z² + c`, with every bit of `c` that it is given:
/// nothing but the rounding of the arithmetic stands between the exact numbers
/// and the next point.
pub proof fn law_a_step_is_z_squared_plus_c(
    z: (Real, Real),
    c: (Real, Real),
    precision: nat,
    unit: int,
)
    requires
        rounded_arithmetic(z, c, precision),
        fine_enough(z, c, unit),
    ensures
        follows(z, c, orbit_step(z, c, precision), precision, unit),
        rounds_once(z, c, orbit_step(z, c, precision), precision),
{
    assert(leads_over(
        z,
        c,
        orbit_step(z, c, precision),
        precision,
        big_square(z.0),
        big_square(z.1),
        big_product(z.0, z.1),
        big_difference(big_square(z.0), big_square(z.1)),
        big_sum(big_product(z.0, z.1), big_product(z.0, z.1)),
    ));
    let (xx, yy, xy) = (big_square(z.0), big_square(z.1), big_product(z.0, z.1));
    let (difference, double) = (big_difference(xx, yy), big_sum(xy, xy));
    let (re, im) = (big_sum(difference, c.0), big_sum(double, c.1));
    let minus_yy = Real { significand: -yy.significand, ..yy };
    let scale = pow2(precision) as int;
    let two_x = pow2((z.0.exponent + z.0.exponent - unit) as nat) as int;
    let two_y = pow2((z.1.exponent + z.1.exponent - unit) as nat) as int;
    let two_xy = pow2((z.0.exponent + z.1.exponent - unit) as nat) as int;
    let x2 = z.0.significand * z.0.significand * two_x;
    let y2 = z.1.significand * z.1.significand * two_y;
    let p = z.0.significand * z.1.significand * two_xy;
    let (a, b) = (in_units(c.0, unit), in_units(c.1, unit));
    lemma_product_error(xx, z.0, z.0, precision, unit);
    lemma_product_error(yy, z.1, z.1, precision, unit);
    lemma_product_error(xy, z.0, z.1, precision, unit);
    lemma_sum_error(difference, xx, minus_yy, precision, unit);
    lemma_sum_error(double, xy, xy, precision, unit);
    lemma_sum_error(re, difference, c.0, precision, unit);
    lemma_sum_error(im, double, c.1, precision, unit);
    assert(in_units(minus_yy, unit) == -in_units(yy, unit)) by (nonlinear_arith)
        requires
            in_units(yy, unit) == (if yy.significand == 0 {
                0
            } else {
                yy.significand * pow2((yy.exponent - unit) as nat)
            }),
            in_units(minus_yy, unit) == (if yy.significand == 0 {
                0
            } else {
                (-yy.significand) * pow2((yy.exponent - unit) as nat)
            }),
    ;
    vstd::arithmetic::power2::lemma_pow2_pos(precision);
    vstd::arithmetic::power2::lemma_pow2_pos((z.0.exponent + z.0.exponent - unit) as nat);
    vstd::arithmetic::power2::lemma_pow2_pos((z.1.exponent + z.1.exponent - unit) as nat);
    assert(x2 >= 0) by (nonlinear_arith)
        requires
            x2 == z.0.significand * z.0.significand * two_x,
            two_x > 0,
    ;
    assert(y2 >= 0) by (nonlinear_arith)
        requires
            y2 == z.1.significand * z.1.significand * two_y,
            two_y > 0,
    ;
    if precision > 0 {
        vstd::arithmetic::power2::lemma_pow2_unfold(precision);
        vstd::arithmetic::power2::lemma_pow2_pos((precision - 1) as nat);
        assert(scale >= 2);
        let (u, v, w) = (in_units(xx, unit), in_units(yy, unit), in_units(xy, unit));
        let (d, t) = (in_units(difference, unit), in_units(double, unit));
        lemma_parts_within(u - x2, x2, scale);
        lemma_parts_within(v - y2, y2, scale);
        lemma_parts_within(w - p, p, scale);
        lemma_parts_within(d - (u - v), u - v, scale);
        lemma_parts_within(t - (w + w), w + w, scale);
        lemma_errors_add_up(
            in_units(re, unit) - (d + a),
            d - (u - v),
            u - x2,
            y2 - v,
            16 * (x2 + y2 + absolute(a)),
            scale,
        );
        lemma_errors_add_up(
            in_units(im, unit) - (t + b),
            t - (w + w),
            w - p,
            w - p,
            16 * (2 * absolute(p) + absolute(b)),
            scale,
        );
    }
}

/// The first point after zero is `c`, bit for bit.
pub proof fn law_the_orbit_starts_with_c(c: (Real, Real), precision: nat)
    requires
        rounded_arithmetic(
            orbit_at(c, precision, 0),
            (at_precision(c.0, precision), at_precision(c.1, precision)),
            precision,
        ),
    ensures
        ({
            let first = orbit_at(c, precision, 1);
            &&& first.0.significand == at_precision(c.0, precision).significand
            &&& first.0.exponent == at_precision(c.0, precision).exponent
            &&& first.1.significand == at_precision(c.1, precision).significand
            &&& first.1.exponent == at_precision(c.1, precision).exponent
        }),
{
    let z = orbit_at(c, precision, 0);
    let step = (at_precision(c.0, precision), at_precision(c.1, precision));
    assert(orbit_at(c, precision, 1) == orbit_step(z, step, precision));
    let (xx, yy, xy) = (big_square(z.0), big_square(z.1), big_product(z.0, z.1));
    assert(z.0.significand == 0 && z.1.significand == 0);
    assert(z.0.exponent == 0 && z.1.exponent == 0);
    lemma_zero_times_zero(xx, z.0, z.0, precision);
    lemma_zero_times_zero(yy, z.1, z.1, precision);
    lemma_zero_times_zero(xy, z.0, z.1, precision);
    assert(big_difference(xx, yy).significand == 0);
    assert(big_sum(xy, xy).significand == 0);
}

proof fn lemma_zero_times_zero(r: Real, a: Real, b: Real, precision: nat)
    requires
        multiplies(r, a, b, precision),
        a.significand == 0,
        b.significand == 0,
    ensures
        r.significand == 0,
        r.exponent == 0,
{
    assert(a.significand * b.significand == 0) by (nonlinear_arith)
        requires
            a.significand == 0,
    ;
    assert(normal(0, a.exponent + b.exponent) == (0int, 0int));
    assert(bits(0) == 0);
}

/// A point of the orbit, as doubles.
pub open spec fn orbit_point(c: (Real, Real), precision: nat, n: nat) -> Point {
    let z = orbit_at(c, precision, n);
    Point { x: nearest(z.0), y: nearest(z.1) }
}

/// The orbit can be computed up to point `n`: what each step starts from is
/// in range.
pub open spec fn orbit_in_range(c: (Real, Real), precision: nat, n: nat) -> bool {
    &&& at_precision(c.0, precision).in_range()
    &&& at_precision(c.1, precision).in_range()
    &&& forall|k: nat|
        k < n ==> (#[trigger] orbit_at(c, precision, k)).0.in_range() && orbit_at(
            c,
            precision,
            k,
        ).1.in_range()
}

/// Reference orbit for perturbation: Z_0 = 0, Z_{n+1} = Z_n² + C. Stops after
/// escape or the iteration cap.
#[derive(Debug)]
pub struct ReferenceOrbit {
    pub points: Vec<Point>,
    /// True if the orbit escaped before the cap (so raising the cap would not
    /// lengthen it).
    pub escaped: bool,
}

/// The points of an orbit: all up to the first that escapes, or to the cap.
pub open spec fn orbit_points(
    c: (Real, Real),
    precision: nat,
    max_iter: nat,
    escapes: spec_fn(Point) -> bool,
    points: Seq<Point>,
    escaped: bool,
) -> bool {
    &&& 1 <= points.len() <= max_iter + 1
    &&& points[0].x.bits == 0 && points[0].y.bits == 0
    &&& forall|n: int|
        1 <= n < points.len() ==> #[trigger] points[n] == orbit_point(c, precision, n as nat)
    &&& forall|n: int| 1 <= n < points.len() - 1 ==> !escapes(#[trigger] points[n])
    &&& if escaped {
        points.len() > 1 && escapes(points.last())
    } else {
        points.len() == max_iter + 1 && (points.len() > 1 ==> !escapes(points.last()))
    }
}

/// An orbit is made of the doubles nearest to its numbers, one by one from zero
/// on. It ends with the first point that escapes, or with the cap.
pub proof fn law_an_orbit_ends_with_its_first_escape(
    c: (Real, Real),
    precision: nat,
    max_iter: nat,
    escapes: spec_fn(Point) -> bool,
    points: Seq<Point>,
    escaped: bool,
)
    requires
        orbit_points(c, precision, max_iter, escapes, points, escaped),
    ensures
        points.len() >= 1,
        points[0].x.bits == 0 && points[0].y.bits == 0,
        forall|n: int|
            1 <= n < points.len() ==> (#[trigger] points[n]).x.bits == double_bits(
                orbit_at(c, precision, n as nat).0,
            ) && points[n].y.bits == double_bits(orbit_at(c, precision, n as nat).1),
        forall|n: int| 1 <= n < points.len() && !escaped ==> !escapes(#[trigger] points[n]),
        forall|n: int| 1 <= n < points.len() - 1 ==> !escapes(#[trigger] points[n]),
        escaped ==> points.len() > 1 && escapes(points[points.len() - 1]) && points.len()
            <= max_iter + 1,
        !escaped ==> points.len() == max_iter + 1,
{
    assert forall|n: int| 1 <= n < points.len() implies (#[trigger] points[n]).x.bits
        == double_bits(orbit_at(c, precision, n as nat).0) && points[n].y.bits == double_bits(
        orbit_at(c, precision, n as nat).1,
    ) by {
        assert(points[n] == orbit_point(c, precision, n as nat));
    }
}

/// An orbit whose numbers are all in range up to the cap does not break off,
/// and one that breaks off has a number out of range.
pub proof fn law_only_numbers_out_of_range_break_an_orbit_off(
    c: (Real, Real),
    precision: nat,
    max_iter: nat,
    escapes: spec_fn(Point) -> bool,
)
    ensures
        ({
            let at = (at_precision(c.0, precision), at_precision(c.1, precision));
            let sound = forall|n: nat|
                n < max_iter ==> (#[trigger] orbit_at(c, precision, n)).0.in_range() && orbit_at(
                    c,
                    precision,
                    n,
                ).1.in_range();
            at.0.in_range() && at.1.in_range() && sound ==> !orbit_breaks(
                c,
                precision,
                max_iter,
                escapes,
            )
        }),
        !at_precision(c.0, precision).in_range() || !at_precision(c.1, precision).in_range()
            ==> orbit_breaks(c, precision, max_iter, escapes),
        forall|n: nat|
            n < max_iter && !((#[trigger] orbit_at(c, precision, n)).0.in_range() && orbit_at(
                c,
                precision,
                n,
            ).1.in_range()) && (forall|k: nat|
                1 <= k <= n ==> !escapes(#[trigger] orbit_point(c, precision, k)))
                ==> orbit_breaks(c, precision, max_iter, escapes),
{
    assert forall|n: nat|
        n < max_iter && !((#[trigger] orbit_at(c, precision, n)).0.in_range() && orbit_at(
            c,
            precision,
            n,
        ).1.in_range()) && (forall|k: nat|
            1 <= k <= n ==> !escapes(
                #[trigger] orbit_point(c, precision, k),
            )) implies orbit_breaks(c, precision, max_iter, escapes) by {
        assert(breaks_at(c, precision, escapes, n));
    }
}

/// An orbit that escaped is final: whatever higher cap it is computed for, it
/// is the same orbit.
pub proof fn law_escaped_orbit_is_final(
    c: (Real, Real),
    precision: nat,
    escapes: spec_fn(Point) -> bool,
    cap: nat,
    points: Seq<Point>,
    higher: nat,
    again: Seq<Point>,
    escaped_again: bool,
)
    requires
        cap <= higher,
        orbit_points(c, precision, cap, escapes, points, true),
        orbit_points(c, precision, higher, escapes, again, escaped_again),
    ensures
        again == points,
        escaped_again,
{
    let last = points.len() - 1;
    if again.len() > points.len() {
        assert(again[last] == points[last]);
        assert(!escapes(again[last]));
        assert(false);
    }
    if again.len() < points.len() {
        let n = again.len() - 1;
        assert(escaped_again);
        assert(points[n] == again[n]);
        assert(!escapes(points[n]));
        assert(false);
    }
    if !escaped_again {
        assert(again[last] == points[last]);
        assert(false);
    }
    assert(again =~= points);
}

/// A higher cap only adds to an orbit: what was computed stays. It adds
/// nothing to one that escaped; one that did not is as long as its cap allows.
pub proof fn law_higher_cap_extends_the_orbit(
    c: (Real, Real),
    precision: nat,
    escapes: spec_fn(Point) -> bool,
    cap: nat,
    points: Seq<Point>,
    escaped: bool,
    higher: nat,
    longer: Seq<Point>,
    escaped_later: bool,
)
    requires
        cap <= higher,
        orbit_points(c, precision, cap, escapes, points, escaped),
        orbit_points(c, precision, higher, escapes, longer, escaped_later),
    ensures
        points.len() <= longer.len(),
        longer.take(points.len() as int) == points,
        escaped ==> escaped_later && longer == points,
        !escaped ==> points.len() == cap + 1,
{
    if escaped {
        law_escaped_orbit_is_final(
            c,
            precision,
            escapes,
            cap,
            points,
            higher,
            longer,
            escaped_later,
        );
    }
    if longer.len() < points.len() {
        let n = longer.len() - 1;
        assert(escaped_later);
        assert(points[n] == longer[n]);
        if n < points.len() - 1 {
            assert(!escapes(points[n]));
        }
        assert(false);
    }
    assert(longer.take(points.len() as int) =~= points);
}

/// The orbit breaks off: `c` is out of range, or a step ahead of the cap would
/// start from a number out of range, and nothing has escaped by then.
pub open spec fn orbit_breaks(
    c: (Real, Real),
    precision: nat,
    max_iter: nat,
    escapes: spec_fn(Point) -> bool,
) -> bool {
    ||| !at_precision(c.0, precision).in_range()
    ||| !at_precision(c.1, precision).in_range()
    ||| exists|n: nat| n < max_iter && breaks_at(c, precision, escapes, n)
}

/// Point `n` is out of range, and neither it nor a point before it escapes.
pub open spec fn breaks_at(
    c: (Real, Real),
    precision: nat,
    escapes: spec_fn(Point) -> bool,
    n: nat,
) -> bool {
    let z = orbit_at(c, precision, n);
    &&& !z.0.in_range() || !z.1.in_range()
    &&& forall|k: nat| 1 <= k <= n ==> !escapes(#[trigger] orbit_point(c, precision, k))
}

/// An orbit that escaped does not break off, whatever the cap: raising the cap
/// gives the same orbit again.
pub proof fn law_escaped_orbit_never_breaks_off(
    c: (Real, Real),
    precision: nat,
    escapes: spec_fn(Point) -> bool,
    cap: nat,
    points: Seq<Point>,
    higher: nat,
)
    requires
        orbit_points(c, precision, cap, escapes, points, true),
        !orbit_breaks(c, precision, cap, escapes),
    ensures
        !orbit_breaks(c, precision, higher, escapes),
{
    let last = (points.len() - 1) as nat;
    assert(points[last as int] == orbit_point(c, precision, last));
    assert forall|n: nat| n < higher implies !breaks_at(c, precision, escapes, n) by {
        if n >= last {
            assert(escapes(orbit_point(c, precision, last)));
        }
    }
}

/// An orbit that can be computed for a cap can be computed for any lower cap.
pub proof fn law_lower_caps_break_off_no_sooner(
    c: (Real, Real),
    precision: nat,
    escapes: spec_fn(Point) -> bool,
    lower: nat,
    cap: nat,
)
    requires
        lower <= cap,
        !orbit_breaks(c, precision, cap, escapes),
    ensures
        !orbit_breaks(c, precision, lower, escapes),
{
}

/// A verdict on points, as a predicate.
pub open spec fn holds<F: Fn(Point) -> bool>(verdict: F) -> spec_fn(Point) -> bool {
    |p: Point| call_ensures(verdict, (p,), true)
}

/// A significand is at most twice as long as the precision.
pub open spec fn short(x: Real, precision: nat) -> bool {
    precision == 0 || bits(x.significand) <= 2 * precision
}

/// The first point after zero is `c` at the precision, bit for bit.
pub open spec fn starts_with_c(c: (Real, Real), precision: nat) -> bool {
    let at = (at_precision(c.0, precision), at_precision(c.1, precision));
    let first = orbit_at(c, precision, 1);
    &&& first.0.significand == at.0.significand && first.0.exponent == at.0.exponent
    &&& first.1.significand == at.1.significand && first.1.exponent == at.1.exponent
}

/// Every point of an orbit up to point `last` follows the one before it, with
/// all of `c` that the precision holds.
pub open spec fn orbit_follows(c: (Real, Real), precision: nat, last: nat) -> bool {
    let at = (at_precision(c.0, precision), at_precision(c.1, precision));
    &&& forall|n: nat|
        n < last ==> rounds_once(
            #[trigger] orbit_at(c, precision, n),
            at,
            orbit_at(c, precision, n + 1),
            precision,
        )
    &&& forall|n: nat, unit: int|
        #![trigger orbit_at(c, precision, n), in_units(at.0, unit)]
        n < last && fine_enough(orbit_at(c, precision, n), at, unit) ==> follows(
            orbit_at(c, precision, n),
            at,
            orbit_at(c, precision, n + 1),
            precision,
            unit,
        )
}

proof fn lemma_orbit_goes_on(c: (Real, Real), precision: nat, n: nat)
    requires
        orbit_follows(c, precision, n),
        rounded_arithmetic(
            orbit_at(c, precision, n),
            (at_precision(c.0, precision), at_precision(c.1, precision)),
            precision,
        ),
    ensures
        orbit_follows(c, precision, n + 1),
{
    let at = (at_precision(c.0, precision), at_precision(c.1, precision));
    let z = orbit_at(c, precision, n);
    assert forall|m: nat| m < n + 1 implies rounds_once(
        #[trigger] orbit_at(c, precision, m),
        at,
        orbit_at(c, precision, m + 1),
        precision,
    ) by {
        if m == n {
            let unit = lemma_some_unit_is_fine_enough(z, at);
            law_a_step_is_z_squared_plus_c(z, at, precision, unit);
        }
    }
    assert forall|m: nat, unit: int|
        #![trigger orbit_at(c, precision, m), in_units(at.0, unit)]
        m < n + 1 && fine_enough(orbit_at(c, precision, m), at, unit) implies follows(
        orbit_at(c, precision, m),
        at,
        orbit_at(c, precision, m + 1),
        precision,
        unit,
    ) by {
        if m == n {
            law_a_step_is_z_squared_plus_c(orbit_at(c, precision, n), at, precision, unit);
        }
    }
}

/// One step of the orbit.
fn next_point(zr: &BigFloat, zi: &BigFloat, cre: &BigFloat, cim: &BigFloat, precision: usize) -> (r:
    (BigFloat, BigFloat))
    requires
        zr.wf() && zi.wf() && cre.wf() && cim.wf(),
        zr@.in_range() && zi@.in_range() && cre@.in_range() && cim@.in_range(),
        zr@.precision == precision && zi@.precision == precision,
        cre@.precision == precision && cim@.precision == precision,
        precision <= PRECISION_LIMIT,
    ensures
        r.0.wf() && r.1.wf(),
        (r.0@, r.1@) == orbit_step((zr@, zi@), (cre@, cim@), precision as nat),
        r.0@.precision == precision && r.1@.precision == precision,
        r.0@.workable() && r.1@.workable(),
        short(zr@, precision as nat) && short(zi@, precision as nat) ==> rounded_arithmetic(
            (zr@, zi@),
            (cre@, cim@),
            precision as nat,
        ),
        short(cre@, precision as nat) && short(cim@, precision as nat) ==> short(
            r.0@,
            precision as nat,
        ) && short(r.1@, precision as nat),
{
    let zr2 = square(zr);
    let zi2 = square(zi);
    let zrzi = product(zr, zi);
    let new_zi = with_precision(&sum(&sum(&zrzi, &zrzi), cim), precision);
    let new_zr = with_precision(&sum(&difference(&zr2, &zi2), cre), precision);
    (new_zr, new_zi)
}

/// Compute the reference orbit of `c`. `escapes` says whether a point has
/// left the disc (|Z|² > 4); it is to say the same of the same point every
/// time. `None` where the orbit breaks off before it escapes.
pub fn reference_orbit<F: Fn(Point) -> bool>(
    c: &BigComplex,
    max_iter: u32,
    precision: usize,
    escapes: F,
) -> (r: Option<ReferenceOrbit>)
    requires
        c.wf(),
        c.in_range(),
        precision <= PRECISION_LIMIT,
        forall|p: Point| #[trigger] call_requires(escapes, (p,)),
        forall|p: Point|
            #[trigger] call_ensures(escapes, (p,), true) ==> !call_ensures(escapes, (p,), false),
    ensures
        r matches Some(orbit) ==> {
            &&& orbit_points(
                (c.re@, c.im@),
                precision as nat,
                max_iter as nat,
                holds(escapes),
                orbit.points@,
                orbit.escaped,
            )
            &&& orbit_in_range(
                (c.re@, c.im@),
                precision as nat,
                (orbit.points@.len() - 1) as nat,
            )
            &&& orbit.points@.len() > 1 ==> starts_with_c((c.re@, c.im@), precision as nat)
            &&& (short(c.re@, precision as nat) || c.re@.precision > precision) && (short(
                c.im@,
                precision as nat,
            ) || c.im@.precision > precision) ==> orbit_follows(
                (c.re@, c.im@),
                precision as nat,
                (orbit.points@.len() - 1) as nat,
            )
        },
        r is None <==> orbit_breaks(
            (c.re@, c.im@),
            precision as nat,
            max_iter as nat,
            holds(escapes),
        ),
{
    let ghost at = (c.re@, c.im@);
    let ghost p = precision as nat;
    let cre = with_precision(&c.re, precision);
    let cim = with_precision(&c.im, precision);
    let ghost held = (short(at.0, p) || at.0.precision > p) && (short(at.1, p) || at.1.precision
        > p);
    assert(held ==> short(cre@, p) && short(cim@, p));
    if !cre.is_in_range() || !cim.is_in_range() {
        return None;
    }
    let mut zr = BigFloat::zero(precision);
    let mut zi = BigFloat::zero(precision);
    let mut points: Vec<Point> = Vec::new();
    points.push(Point { x: Double { bits: 0 }, y: Double { bits: 0 } });
    let mut n: u32 = 0;
    while n < max_iter
        invariant
            n <= max_iter,
            at == (c.re@, c.im@),
            p == precision,
            precision <= PRECISION_LIMIT,
            cre.wf() && cim.wf() && zr.wf() && zi.wf(),
            cre@ == at_precision(at.0, p) && cim@ == at_precision(at.1, p),
            cre@.in_range() && cim@.in_range(),
            cre@.precision == p && cim@.precision == p,
            zr@.precision == p && zi@.precision == p,
            (zr@, zi@) == orbit_at(at, p, n as nat),
            orbit_in_range(at, p, n as nat),
            held == ((short(at.0, p) || at.0.precision > p) && (short(at.1, p) || at.1.precision
                > p)),
            held ==> short(cre@, p) && short(cim@, p) && short(zr@, p) && short(zi@, p),
            held ==> orbit_follows(at, p, n as nat),
            n > 0 ==> starts_with_c(at, p),
            points@.len() == n + 1,
            points@[0].x.bits == 0 && points@[0].y.bits == 0,
            forall|k: int| 1 <= k <= n ==> #[trigger] points@[k] == orbit_point(at, p, k as nat),
            forall|k: int| 1 <= k <= n ==> !holds(escapes)(#[trigger] points@[k]),
            forall|q: Point| #[trigger] call_requires(escapes, (q,)),
            forall|q: Point|
                #[trigger] call_ensures(escapes, (q,), true) ==> !call_ensures(
                    escapes,
                    (q,),
                    false,
                ),
        decreases max_iter - n,
    {
        if !zr.is_in_range() || !zi.is_in_range() {
            proof {
                assert forall|k: nat| 1 <= k <= n implies !holds(escapes)(
                    #[trigger] orbit_point(at, p, k),
                ) by {
                    assert(points@[k as int] == orbit_point(at, p, k));
                }
                assert(breaks_at(at, p, holds(escapes), n as nat));
            }
            return None;
        }
        let (new_zr, new_zi) = next_point(&zr, &zi, &cre, &cim, precision);
        proof {
            if n == 0 {
                law_the_orbit_starts_with_c(at, p);
            }
            if held {
                lemma_orbit_goes_on(at, p, n as nat);
            }
        }
        zr = new_zr;
        zi = new_zi;
        let point = Point { x: nearest_double(&zr), y: nearest_double(&zi) };
        points.push(point);
        let escaped = escapes(point);
        n += 1;
        if escaped {
            proof {
                let last = n as nat;
                assert(holds(escapes)(orbit_point(at, p, last)));
                assert forall|m: nat| m < max_iter implies !breaks_at(at, p, holds(escapes), m) by {
                    if m < last {
                        assert(orbit_at(at, p, m).0.in_range());
                    }
                }
            }
            return Some(ReferenceOrbit { points, escaped: true });
        }
    }
    proof {
        assert forall|m: nat| m < max_iter implies !breaks_at(at, p, holds(escapes), m) by {
            assert(orbit_at(at, p, m).0.in_range());
        }
    }
    Some(ReferenceOrbit { points, escaped: false })
}

} // verus!
