//! Arbitrary-precision binary numbers, computed by `dashu`.
//!
//! A number is held as plain values: a sign, the magnitude of its significand
//! as little-endian bytes, a binary exponent, and the precision in bits that
//! it was rounded to. `dashu` does the arithmetic; each of its operations
//! stands behind one function here, and what the operation returns has a name
//! that contracts can speak of.
//!
//! The bounds here are those of machine integers, in which `dashu` keeps
//! exponents and lengths. Its integers are as long as memory allows; memory
//! plays no part in the contracts.

use std::str::FromStr;

use dashu::base::Sign;
use dashu::float::round::mode::HalfAway;
use dashu::float::{DBig, FBig, Repr};
use dashu::integer::{IBig, UBig};
use vstd::arithmetic::power::pow;
use vstd::arithmetic::power2::pow2;
use vstd::prelude::*;
use vstd::string::StrSliceExecFns;

use crate::float::{Double, DOUBLE_HIDDEN, DOUBLE_SIGN};

verus! {

/// Numbers in range have their bits within this many powers of two of one, so
/// that the exponents of products, and what is added to them, stay machine
/// integers.
pub const EXPONENT_LIMIT: isize = (usize::MAX / 8) as isize - 8;

/// The greatest precision in bits: conversions work with a multiple of it.
pub const PRECISION_LIMIT: usize = usize::MAX / 32;

/// Exponents and leading bits of intermediate results stay within this, so
/// that their differences are machine integers.
pub const WORK_LIMIT: isize = (usize::MAX / 4) as isize;

/// Numbers with up to this many digits after the point change their base by
/// one division.
pub const QUOTIENT_LIMIT: isize = 38;

/// A number `significand * base^exponent`, with the precision it was rounded
/// to (0 where it never was).
#[verifier::ext_equal]
pub struct Real {
    pub significand: int,
    pub exponent: int,
    pub precision: nat,
}

/// The number of bits of an integer's magnitude.
pub open spec fn bits(n: int) -> nat
    decreases (if n < 0 {
        -n
    } else {
        n
    }),
{
    if n == 0 {
        0
    } else if n < 0 {
        1 + bits((-n) / 2)
    } else {
        1 + bits(n / 2)
    }
}

/// The number of decimal digits of an integer's magnitude.
pub open spec fn decimal_length(n: int) -> nat
    decreases (if n < 0 {
        -n
    } else {
        n
    }),
{
    if n == 0 {
        0
    } else if n < 0 {
        1 + decimal_length((-n) / 10)
    } else {
        1 + decimal_length(n / 10)
    }
}

/// A significand and an exponent with the factors of two moved into the
/// exponent; zero has exponent zero.
pub open spec fn normal(significand: int, exponent: int) -> (int, int)
    decreases (if significand < 0 {
        -significand
    } else {
        significand
    }),
{
    if significand == 0 {
        (0, 0)
    } else if significand % 2 == 0 {
        normal(significand / 2, exponent + 1)
    } else {
        (significand, exponent)
    }
}

/// The greater of two precisions.
pub open spec fn wider(a: nat, b: nat) -> nat {
    if a > b {
        a
    } else {
        b
    }
}

impl Real {
    /// One past the position of the leading bit.
    pub open spec fn top(self) -> int {
        self.exponent + bits(self.significand)
    }

    /// Fit for any arithmetic: no exponent overflows a machine integer.
    pub open spec fn in_range(self) -> bool {
        &&& -EXPONENT_LIMIT <= self.exponent
        &&& self.top() <= EXPONENT_LIMIT
        &&& self.precision <= PRECISION_LIMIT
    }

    /// An intermediate result that arithmetic can go on with.
    pub open spec fn workable(self) -> bool {
        -WORK_LIMIT <= self.exponent && self.top() <= WORK_LIMIT
    }
}

/// The integer that little-endian bytes stand for.
pub open spec fn unsigned_le(bytes: Seq<u8>) -> nat
    decreases bytes.len(),
{
    if bytes.len() == 0 {
        0
    } else {
        (bytes[0] + 256 * unsigned_le(bytes.drop_first())) as nat
    }
}

/// Bytes stand for an integer with the lowest first: each further byte is worth
/// 256 times as much as the one before it.
pub proof fn law_bytes_are_little_endian(bytes: Seq<u8>, byte: u8)
    ensures
        unsigned_le(Seq::empty()) == 0,
        unsigned_le(bytes.push(byte)) == unsigned_le(bytes) + byte * pow2(8 * bytes.len()),
{
    lemma_push_byte(bytes, byte);
}

/// A number is in range where its bits lie between two to the limit and two to
/// minus the limit, and its precision is not too great.
pub proof fn law_which_numbers_are_in_range(x: Real)
    ensures
        x.in_range() <==> {
            &&& x.exponent >= -EXPONENT_LIMIT
            &&& x.exponent + bits(x.significand) <= EXPONENT_LIMIT
            &&& x.precision <= PRECISION_LIMIT
        },
        x.in_range() ==> x.workable(),
        EXPONENT_LIMIT == usize::MAX / 8 - 8,
        PRECISION_LIMIT == usize::MAX / 32,
{
}

/// Of two precisions the wider is the one that holds both.
pub proof fn law_the_wider_precision_holds_both(a: nat, b: nat)
    ensures
        wider(a, b) >= a && wider(a, b) >= b,
        wider(a, b) == a || wider(a, b) == b,
{
}

/// Little-endian bytes without zeros at the top.
pub open spec fn canonical(bytes: Seq<u8>) -> bool {
    bytes.len() == 0 || bytes.last() != 0
}

/// A binary number of arbitrary precision.
#[derive(Debug)]
pub struct BigFloat {
    negative: bool,
    magnitude: Vec<u8>,
    exponent: isize,
    precision: usize,
}

/// A decimal number of arbitrary precision.
#[derive(Debug)]
pub struct BigDecimal {
    negative: bool,
    magnitude: Vec<u8>,
    exponent: isize,
    precision: usize,
}

impl View for BigFloat {
    type V = Real;

    closed spec fn view(&self) -> Real {
        Real {
            significand: if self.negative {
                -(unsigned_le(self.magnitude@) as int)
            } else {
                unsigned_le(self.magnitude@) as int
            },
            exponent: self.exponent as int,
            precision: self.precision as nat,
        }
    }
}

impl View for BigDecimal {
    type V = Real;

    closed spec fn view(&self) -> Real {
        Real {
            significand: if self.negative {
                -(unsigned_le(self.magnitude@) as int)
            } else {
                unsigned_le(self.magnitude@) as int
            },
            exponent: self.exponent as int,
            precision: self.precision as nat,
        }
    }
}

proof fn lemma_bits_bounds(n: int)
    ensures
        n != 0 ==> pow2((bits(n) - 1) as nat) <= (if n < 0 {
            -n
        } else {
            n
        }),
        (if n < 0 {
            -n
        } else {
            n
        }) < pow2(bits(n)),
    decreases (if n < 0 {
        -n
    } else {
        n
    }),
{
    vstd::arithmetic::power2::lemma2_to64();
    if n != 0 {
        let m = if n < 0 {
            -n
        } else {
            n
        };
        lemma_bits_bounds(m / 2);
        vstd::arithmetic::power2::lemma_pow2_unfold(bits(n));
        if m / 2 != 0 {
            vstd::arithmetic::power2::lemma_pow2_unfold((bits(n) - 1) as nat);
        }
    }
}

pub(crate) proof fn lemma_bits_at_most(n: int, k: nat)
    requires
        (if n < 0 {
            -n
        } else {
            n
        }) < pow2(k),
    ensures
        bits(n) <= k,
{
    lemma_bits_bounds(n);
    if bits(n) > k {
        if k < bits(n) - 1 {
            vstd::arithmetic::power2::lemma_pow2_strictly_increases(k, (bits(n) - 1) as nat);
        }
    }
}

/// The length of an integer is the least power of two above it.
pub proof fn law_the_length_of_an_integer(n: int)
    ensures
        bits(n) == 0 <==> n == 0,
        -pow2(bits(n)) < n < pow2(bits(n)),
        n > 0 ==> pow2((bits(n) - 1) as nat) <= n,
        n < 0 ==> n <= -pow2((bits(n) - 1) as nat),
{
    lemma_bits_bounds(n);
}

proof fn lemma_bytes_bound(bytes: Seq<u8>)
    ensures
        unsigned_le(bytes) < pow2(8 * bytes.len()),
    decreases bytes.len(),
{
    vstd::arithmetic::power2::lemma2_to64();
    if bytes.len() > 0 {
        let rest = bytes.drop_first();
        lemma_bytes_bound(rest);
        vstd::arithmetic::power2::lemma_pow2_adds(8, 8 * rest.len());
        assert(8 + 8 * rest.len() == 8 * bytes.len());
        assert(unsigned_le(bytes) <= 255 + 256 * (pow2(8 * rest.len()) - 1));
    }
}

proof fn lemma_bytes_fill(bytes: Seq<u8>)
    requires
        canonical(bytes),
        bytes.len() > 0,
    ensures
        unsigned_le(bytes) >= pow2((8 * (bytes.len() - 1)) as nat),
    decreases bytes.len(),
{
    vstd::arithmetic::power2::lemma2_to64();
    if bytes.len() == 1 {
        assert(bytes.last() == bytes[0]);
    } else {
        let rest = bytes.drop_first();
        assert(rest.last() == bytes.last());
        lemma_bytes_fill(rest);
        vstd::arithmetic::power2::lemma_pow2_adds(8, (8 * (rest.len() - 1)) as nat);
        assert(8 + 8 * (rest.len() - 1) == 8 * (bytes.len() - 1));
    }
}

proof fn lemma_bits_of_bytes(bytes: Seq<u8>)
    requires
        canonical(bytes),
    ensures
        bits(unsigned_le(bytes) as int) <= 8 * bytes.len(),
        bytes.len() > 0 ==> bits(unsigned_le(bytes) as int) > 8 * (bytes.len() - 1),
{
    lemma_bytes_bound(bytes);
    lemma_bits_at_most(unsigned_le(bytes) as int, 8 * bytes.len());
    if bytes.len() > 0 {
        lemma_bytes_fill(bytes);
        let n = unsigned_le(bytes) as int;
        let k = (8 * (bytes.len() - 1)) as nat;
        lemma_bits_bounds(n);
        if bits(n) <= k {
            if bits(n) < k {
                vstd::arithmetic::power2::lemma_pow2_strictly_increases(bits(n), k);
            }
        }
    }
}

proof fn lemma_bits_of_negation(n: int)
    ensures
        bits(-n) == bits(n),
{
}

impl BigFloat {
    /// The significand is odd or the number is zero, and its bytes carry no
    /// zeros at the top.
    pub closed spec fn wf(&self) -> bool {
        &&& canonical(self.magnitude@)
        &&& if self.magnitude@.len() == 0 {
            !self.negative && self.exponent == 0
        } else {
            self.magnitude@[0] % 2 == 1
        }
    }

    proof fn lemma_magnitude(&self)
        requires
            self.wf(),
        ensures
            bits(self@.significand) <= 8 * self.magnitude@.len(),
            self.magnitude@.len() > 0 ==> bits(self@.significand) > 8 * (self.magnitude@.len() - 1),
            (self@.significand == 0) == (self.magnitude@.len() == 0),
            normal(self@.significand, self@.exponent) == (self@.significand, self@.exponent),
    {
        lemma_bits_of_bytes(self.magnitude@);
        lemma_bits_of_negation(unsigned_le(self.magnitude@) as int);
    }

    /// Whether the number is fit for any arithmetic.
    pub fn is_in_range(&self) -> (r: bool)
        requires
            self.wf(),
        ensures
            r == self@.in_range(),
    {
        proof {
            self.lemma_magnitude();
        }
        if self.exponent < -EXPONENT_LIMIT || self.exponent > EXPONENT_LIMIT || self.magnitude.len()
            > isize::MAX as usize / 8 {
            return false;
        }
        self.length() as isize <= EXPONENT_LIMIT - self.exponent && self.precision
            <= PRECISION_LIMIT
    }

    /// The precision in bits.
    pub fn precision(&self) -> (r: usize)
        ensures
            r == self@.precision,
    {
        self.precision
    }

    /// Zero, at a precision.
    pub fn zero(precision: usize) -> (r: BigFloat)
        ensures
            r.wf(),
            r@ == (Real { significand: 0, exponent: 0, precision: precision as nat }),
    {
        BigFloat { negative: false, magnitude: Vec::new(), exponent: 0, precision }
    }
}

impl BigDecimal {
    /// The significand is no multiple of ten or the number is zero, and its
    /// bytes carry no zeros at the top.
    pub closed spec fn wf(&self) -> bool {
        &&& canonical(self.magnitude@)
        &&& if self.magnitude@.len() == 0 {
            !self.negative && self.exponent == 0
        } else {
            unsigned_le(self.magnitude@) % 10 != 0
        }
    }
}

impl Clone for BigFloat {
    fn clone(&self) -> (r: BigFloat)
        ensures
            r@ == self@,
            r.wf() == self.wf(),
    {
        let magnitude = self.magnitude.clone();
        assert(magnitude@ =~= self.magnitude@);
        BigFloat {
            negative: self.negative,
            magnitude,
            exponent: self.exponent,
            precision: self.precision,
        }
    }
}

proof fn lemma_push_byte(bytes: Seq<u8>, byte: u8)
    ensures
        unsigned_le(bytes.push(byte)) == unsigned_le(bytes) + byte * pow2(8 * bytes.len()),
    decreases bytes.len(),
{
    vstd::arithmetic::power2::lemma2_to64();
    let longer = bytes.push(byte);
    if bytes.len() == 0 {
        assert(longer.drop_first() =~= bytes);
        vstd::arithmetic::mul::lemma_mul_basics(byte as int);
        assert(byte * pow2(8 * bytes.len()) == byte * 1);
    } else {
        let rest = bytes.drop_first();
        lemma_push_byte(rest, byte);
        assert(longer.drop_first() =~= rest.push(byte));
        vstd::arithmetic::power2::lemma_pow2_adds(8, 8 * rest.len());
        assert(8 + 8 * rest.len() == 8 * bytes.len());
        vstd::arithmetic::mul::lemma_mul_is_associative(
            256,
            byte as int,
            pow2(8 * rest.len()) as int,
        );
        vstd::arithmetic::mul::lemma_mul_is_associative(
            byte as int,
            256,
            pow2(8 * rest.len()) as int,
        );
        assert(256 * (byte * pow2(8 * rest.len())) == byte * (256 * pow2(8 * rest.len())));
    }
}

/// An integer as little-endian bytes, without zeros at the top.
fn le_bytes(n: u64) -> (bytes: Vec<u8>)
    ensures
        canonical(bytes@),
        unsigned_le(bytes@) == n,
        n > 0 ==> bytes@.len() > 0 && bytes@[0] % 2 == n % 2,
        bytes@.len() <= 8,
{
    let mut bytes: Vec<u8> = Vec::new();
    let mut rest: u64 = n;
    proof {
        vstd::arithmetic::power2::lemma2_to64();
        vstd::arithmetic::power2::lemma2_to64_rest();
        vstd::arithmetic::mul::lemma_mul_basics(n as int);
        assert(rest * pow2(8 * bytes@.len()) == rest * 1);
    }
    while rest > 0
        invariant
            bytes@.len() <= 8,
            unsigned_le(bytes@) + rest * pow2(8 * bytes@.len()) == n,
            rest < pow2((64 - 8 * bytes@.len()) as nat),
            canonical(bytes@) || rest > 0,
            bytes@.len() > 0 ==> bytes@[0] % 2 == n % 2,
            bytes@.len() == 0 ==> rest == n,
            pow2(0) == 1,
        decreases rest,
    {
        let ghost before = bytes@;
        let ghost old_rest = rest as int;
        let byte: u8 = (rest % 256) as u8;
        proof {
            let k = 8 * before.len();
            if before.len() == 8 {
                assert(rest < 1);
            }
            lemma_push_byte(before, byte);
            vstd::arithmetic::power2::lemma_pow2_adds(8, k);
            vstd::arithmetic::power2::lemma2_to64();
            assert(rest == byte + 256 * (rest / 256));
            assert(rest * pow2(k) == byte * pow2(k) + (rest / 256) * (256 * pow2(k)))
                by (nonlinear_arith)
                requires
                    rest == byte + 256 * (rest / 256),
            ;
            vstd::arithmetic::power2::lemma_pow2_adds(8, (64 - 8 * (before.len() + 1)) as nat);
            assert(8 + (64 - 8 * (before.len() + 1)) == 64 - 8 * before.len());
        }
        bytes.push(byte);
        rest = rest / 256;
        assert(8 * before.len() + 8 == 8 * bytes@.len());
    }
    bytes
}

/// The number of bits of an integer.
pub(crate) fn bit_length(n: u64) -> (r: u32)
    ensures
        r == bits(n as int),
        r <= 64,
{
    let mut rest: u64 = n;
    let mut count: u32 = 0;
    proof {
        vstd::arithmetic::power2::lemma2_to64_rest();
        lemma_bits_at_most(n as int, 64);
    }
    while rest > 0
        invariant
            count + bits(rest as int) == bits(n as int),
            bits(n as int) <= 64,
        decreases rest,
    {
        rest = rest / 2;
        count += 1;
    }
    count
}

proof fn lemma_normal_of_negation(significand: int, exponent: int)
    ensures
        normal(-significand, exponent) == (
            -normal(significand, exponent).0,
            normal(significand, exponent).1,
        ),
    decreases (if significand < 0 {
        -significand
    } else {
        significand
    }),
{
    if significand != 0 && significand % 2 == 0 {
        lemma_normal_of_negation(significand / 2, exponent + 1);
        assert((-significand) / 2 == -(significand / 2));
    }
}

impl BigFloat {
    /// A finite double, exactly. Its precision is the length of its
    /// significand, 53 bits but for the smallest numbers.
    pub fn from_double(d: Double) -> (r: BigFloat)
        requires
            d.finite(),
        ensures
            r.wf(),
            (r@.significand, r@.exponent) == normal(d.significand(), d.exponent()),
            r@.precision == bits(d.significand()),
            r@.in_range(),
    {
        let negative: bool = d.bits >= DOUBLE_SIGN;
        let magnitude: u64 = if negative {
            d.bits - DOUBLE_SIGN
        } else {
            d.bits
        };
        let (significand, exponent): (u64, isize) = if magnitude < DOUBLE_HIDDEN {
            (magnitude % DOUBLE_HIDDEN, -1074)
        } else {
            (DOUBLE_HIDDEN + magnitude % DOUBLE_HIDDEN, (magnitude / DOUBLE_HIDDEN) as isize - 1075)
        };
        proof {
            lemma_bits_of_negation(significand as int);
            lemma_normal_of_negation(significand as int, exponent as int);
            vstd::arithmetic::power2::lemma2_to64_rest();
            lemma_bits_at_most(significand as int, 64);
        }
        let precision: usize = bit_length(significand) as usize;
        if significand == 0 {
            return BigFloat::zero(precision);
        }
        let mut odd: u64 = significand;
        let mut shifted: isize = exponent;
        while odd % 2 == 0
            invariant
                0 < odd <= significand,
                -1074 <= exponent <= 971,
                exponent <= shifted,
                shifted - exponent + bits(odd as int) == bits(significand as int),
                bits(significand as int) <= 64,
                normal(odd as int, shifted as int) == normal(significand as int, exponent as int),
            decreases odd,
        {
            odd = odd / 2;
            shifted += 1;
        }
        let r = BigFloat { negative, magnitude: le_bytes(odd), exponent: shifted, precision };
        proof {
            r.lemma_magnitude();
        }
        r
    }
}

proof fn lemma_bits_exact(n: int, k: nat)
    requires
        0 < k,
        pow2((k - 1) as nat) <= n < pow2(k),
    ensures
        bits(n) == k,
{
    lemma_bits_at_most(n, k);
    lemma_bits_bounds(n);
    vstd::arithmetic::power2::lemma_pow2_pos((k - 1) as nat);
    if bits(n) < k {
        if bits(n) < k - 1 {
            vstd::arithmetic::power2::lemma_pow2_strictly_increases(bits(n), (k - 1) as nat);
        }
    }
}

proof fn lemma_bits_of_top_byte(bytes: Seq<u8>)
    requires
        canonical(bytes),
        bytes.len() > 0,
    ensures
        bits(unsigned_le(bytes) as int) == 8 * (bytes.len() - 1) + bits(bytes.last() as int),
{
    let front = bytes.drop_last();
    let top = bytes.last();
    let k = 8 * front.len();
    let b = bits(top as int);
    assert(bytes =~= front.push(top));
    lemma_push_byte(front, top);
    lemma_bytes_bound(front);
    lemma_bits_bounds(top as int);
    vstd::arithmetic::power2::lemma_pow2_adds((b - 1) as nat, k);
    vstd::arithmetic::power2::lemma_pow2_adds(b, k);
    let unit = pow2(k);
    assert(pow2((b - 1) as nat) * unit <= top * unit) by (nonlinear_arith)
        requires
            pow2((b - 1) as nat) <= top,
            unit >= 0,
    ;
    assert((top + 1) * unit <= pow2(b) * unit) by (nonlinear_arith)
        requires
            top + 1 <= pow2(b),
            unit >= 0,
    ;
    assert((top + 1) * unit == top * unit + unit) by (nonlinear_arith);
    lemma_bits_exact(unsigned_le(bytes) as int, (k + b) as nat);
}

proof fn lemma_decimal_length_bounds(n: int)
    requires
        n > 0,
    ensures
        n < pow(10, decimal_length(n)),
    decreases n,
{
    reveal(pow);
    if n >= 10 {
        lemma_decimal_length_bounds(n / 10);
    } else {
        assert(decimal_length(n / 10) == 0);
    }
    assert(pow(10, decimal_length(n)) == 10 * pow(10, decimal_length(n / 10)));
}

proof fn lemma_decimal_length_at_most(n: int, k: nat)
    requires
        0 <= n < pow(10, k),
    ensures
        decimal_length(n) <= k,
    decreases k,
{
    reveal(pow);
    if n > 0 {
        assert(pow(10, k) == 10 * pow(10, (k - 1) as nat));
        lemma_decimal_length_at_most(n / 10, (k - 1) as nat);
    }
}

proof fn lemma_eights_below_tens(d: nat)
    ensures
        0 < pow2(3 * d) <= pow(10, d),
    decreases d,
{
    vstd::arithmetic::power2::lemma2_to64();
    vstd::arithmetic::power2::lemma_pow2_pos(3 * d);
    reveal(pow);
    if d > 0 {
        lemma_eights_below_tens((d - 1) as nat);
        vstd::arithmetic::power2::lemma_pow2_adds(3, (3 * (d - 1)) as nat);
        assert(3 + 3 * (d - 1) == 3 * d);
        assert(pow(10, d) == 10 * pow(10, (d - 1) as nat));
    }
}

/// A number below `8^digits` can be brought to base ten with as many digits.
proof fn lemma_small_numbers_divide(x: Real, digits: nat)
    requires
        x.exponent < 0,
        x.top() <= 3 * digits,
    ensures
        decimal_quotient(x, digits),
{
    let k = (-x.exponent) as nat;
    let m = if x.significand < 0 {
        -x.significand
    } else {
        x.significand
    };
    lemma_bits_of_negation(x.significand);
    assert(decimal_length(x.significand) == decimal_length(m));
    if m > 0 {
        let n = decimal_length(pow2(k) as int);
        lemma_bits_bounds(m);
        if bits(m) < 3 * digits + k {
            vstd::arithmetic::power2::lemma_pow2_strictly_increases(bits(m), 3 * digits + k);
        }
        vstd::arithmetic::power2::lemma_pow2_adds(3 * digits, k);
        vstd::arithmetic::power2::lemma_pow2_pos(k);
        lemma_eights_below_tens(digits);
        lemma_decimal_length_bounds(pow2(k) as int);
        vstd::arithmetic::power::lemma_pow_adds(10, digits, n);
        assert(pow2(3 * digits) * pow2(k) <= pow(10, digits) * pow(10, n)) by (nonlinear_arith)
            requires
                0 <= pow2(3 * digits) <= pow(10, digits),
                0 <= pow2(k) <= pow(10, n),
        ;
        lemma_decimal_length_at_most(m, digits + n);
    }
}

impl BigFloat {
    /// The length of the significand in bits.
    fn length(&self) -> (r: usize)
        requires
            self.wf(),
            self.magnitude@.len() <= isize::MAX / 8,
        ensures
            r == bits(self@.significand),
            r <= isize::MAX,
    {
        proof {
            self.lemma_magnitude();
            lemma_bits_of_negation(unsigned_le(self.magnitude@) as int);
        }
        let n: usize = self.magnitude.len();
        if n == 0 {
            return 0;
        }
        proof {
            lemma_bits_of_top_byte(self.magnitude@);
        }
        8 * (n - 1) + bit_length(self.magnitude[n - 1] as u64) as usize
    }

    /// Whether the number can be written with some decimal digits: it has no
    /// digits after the point, or many, or it is below `8^digits`.
    pub fn writes(&self, digits: usize) -> (r: bool)
        requires
            self.wf(),
            self@.in_range(),
            digits <= PRECISION_LIMIT,
        ensures
            r == (self@.exponent >= 0 || self@.exponent < -QUOTIENT_LIMIT || self@.top() <= 3
                * digits),
            r ==> decimal_quotient(self@, digits as nat),
    {
        proof {
            self.lemma_magnitude();
            if self@.exponent < 0 && self@.top() <= 3 * digits {
                lemma_small_numbers_divide(self@, digits as nat);
            }
        }
        self.exponent >= 0 || self.exponent < -QUOTIENT_LIMIT || self.exponent
            + self.length() as isize <= 3 * digits as isize
    }
}

/// Rounding that drops up to this many bits is stated. `dashu` compares what
/// is dropped by estimates in single precision, which tell it from one half
/// as long as the bits are few.
pub const EXACT_DROP: usize = 1024;

/// What `dashu` makes of a number when asked for a precision that drops more
/// than `EXACT_DROP` bits.
pub uninterp spec fn rounded_far(x: Real, precision: nat) -> Real;

/// A number without its lowest bits, rounded to the nearest; a tie is rounded
/// away from zero.
pub open spec fn half_away(x: Real, dropped: nat, precision: nat) -> Real
    recommends
        dropped > 0,
{
    let magnitude = if x.significand < 0 {
        -x.significand
    } else {
        x.significand
    };
    let kept = (magnitude + pow2((dropped - 1) as nat)) / pow2(dropped) as int;
    let (significand, exponent) = normal(
        if x.significand < 0 {
            -kept
        } else {
            kept
        },
        x.exponent + dropped,
    );
    Real { significand, exponent, precision }
}

/// A number at another precision: the number itself where nothing has to be
/// dropped (0 is the unlimited precision), and else the number rounded.
pub open spec fn at_precision(x: Real, precision: nat) -> Real {
    let length = bits(x.significand);
    if precision == 0 || x.precision <= precision || length <= precision {
        Real { significand: x.significand, exponent: x.exponent, precision }
    } else if length <= precision + EXACT_DROP {
        half_away(x, (length - precision) as nat, precision)
    } else {
        rounded_far(x, precision)
    }
}

/// The sum that `dashu` computes: rounded to the wider precision, with a
/// guard digit where leading digits cancel.
pub uninterp spec fn big_sum(a: Real, b: Real) -> Real;

/// The difference that `dashu` computes, rounded as a sum is.
pub uninterp spec fn big_difference(a: Real, b: Real) -> Real;

/// The product that `dashu` computes, rounded to the wider precision.
pub uninterp spec fn big_product(a: Real, b: Real) -> Real;

/// The square that `dashu` computes, rounded to the number's own precision.
pub uninterp spec fn big_square(x: Real) -> Real;

/// The bits of the double that `dashu` takes for a number.
pub uninterp spec fn double_bits(x: Real) -> u64;

/// Two numbers that can be added: the digits between them are counted in
/// machine integers.
pub open spec fn addable(a: Real, b: Real) -> bool {
    &&& a.workable()
    &&& b.workable()
    &&& wider(a.precision, b.precision) <= PRECISION_LIMIT
}

/// A sum or difference has no digits below those of its operands, and carries
/// at most once beyond them and once more by rounding.
pub open spec fn sum_like(r: Real, a: Real, b: Real) -> bool {
    &&& r.exponent >= a.exponent || r.exponent >= b.exponent || r.exponent >= 0
    &&& r.top() <= a.top() + 2 || r.top() <= b.top() + 2 || r.top() <= 0
    &&& r.precision == wider(a.precision, b.precision)
}

/// The lesser of two exponents.
pub open spec fn lower(a: int, b: int) -> int {
    if a < b {
        a
    } else {
        b
    }
}

/// How often `2^unit` goes into a number that is a multiple of it.
pub open spec fn in_units(x: Real, unit: int) -> int {
    if x.significand == 0 {
        0
    } else {
        x.significand * pow2((x.exponent - unit) as nat)
    }
}

/// The magnitude of an integer.
pub open spec fn absolute(n: int) -> int {
    if n < 0 {
        -n
    } else {
        n
    }
}

/// A number stands for `significand * 2^exponent` at a precision: it is that
/// number exactly where its bits fit (0 is the unlimited precision), and else
/// at most one unit of the last of so many bits away from it.
pub open spec fn rounds_to(r: Real, significand: int, exponent: int, precision: nat) -> bool {
    let (odd, shifted) = normal(significand, exponent);
    if precision == 0 || bits(odd) <= precision {
        r.significand == odd && r.exponent == shifted
    } else {
        &&& r.significand == 0 || r.exponent >= exponent
        &&& absolute(in_units(r, exponent) - significand) <= pow2(
            (bits(significand) - precision) as nat,
        )
    }
}

/// A number stands for the sum of two others: it is the other one where one of
/// them is zero, and else their exact sum, rounded to the wider precision; a
/// guard bit can stand behind it.
pub open spec fn adds_up(r: Real, a: Real, b: Real) -> bool {
    let unit = lower(a.exponent, b.exponent);
    let precision = wider(a.precision, b.precision);
    if a.significand == 0 {
        r.significand == b.significand && r.exponent == b.exponent
    } else if b.significand == 0 {
        r.significand == a.significand && r.exponent == a.exponent
    } else {
        &&& rounds_to(r, in_units(a, unit) + in_units(b, unit), unit, precision)
        &&& precision > 0 ==> bits(r.significand) <= precision + 1
    }
}

/// A number stands for the difference of two others, as `adds_up` says of a
/// sum.
pub open spec fn takes_away(r: Real, a: Real, b: Real) -> bool {
    adds_up(r, a, Real { significand: -b.significand, ..b })
}

/// A number stands for the product of two others: their exact product, rounded
/// to a precision.
pub open spec fn multiplies(r: Real, a: Real, b: Real, precision: nat) -> bool {
    &&& rounds_to(r, a.significand * b.significand, a.exponent + b.exponent, precision)
    &&& precision > 0 ==> bits(r.significand) <= precision
}

proof fn lemma_units_of_units(x: Real, unit: int, finer: int)
    requires
        finer <= unit,
        x.significand == 0 || unit <= x.exponent,
    ensures
        in_units(x, finer) == in_units(x, unit) * pow2((unit - finer) as nat),
{
    let step = pow2((unit - finer) as nat) as int;
    if x.significand != 0 {
        let rest = pow2((x.exponent - unit) as nat) as int;
        vstd::arithmetic::power2::lemma_pow2_adds(
            (x.exponent - unit) as nat,
            (unit - finer) as nat,
        );
        assert((x.exponent - unit) + (unit - finer) == x.exponent - finer);
        vstd::arithmetic::mul::lemma_mul_is_associative(x.significand, rest, step);
    }
}

proof fn lemma_normal_is_the_number(significand: int, exponent: int)
    requires
        significand != 0,
    ensures
        ({
            let (odd, shifted) = normal(significand, exponent);
            &&& odd != 0
            &&& shifted >= exponent
            &&& significand == odd * pow2((shifted - exponent) as nat)
        }),
    decreases absolute(significand),
{
    vstd::arithmetic::power2::lemma2_to64();
    if significand % 2 == 0 {
        lemma_normal_is_the_number(significand / 2, exponent + 1);
        let (odd, shifted) = normal(significand, exponent);
        let k = (shifted - exponent - 1) as nat;
        vstd::arithmetic::power2::lemma_pow2_unfold(k + 1);
        assert(k + 1 == shifted - exponent);
        assert(odd * (2 * pow2(k)) == 2 * (odd * pow2(k))) by (nonlinear_arith);
    } else {
        assert(significand * 1 == significand);
    }
}

/// A number has one form with an odd significand, and that is its normal form;
/// zero has exponent zero.
pub proof fn law_the_normal_form(significand: int, exponent: int)
    ensures
        ({
            let (odd, shifted) = normal(significand, exponent);
            &&& significand == 0 ==> odd == 0 && shifted == 0
            &&& significand != 0 ==> odd % 2 != 0 && shifted >= exponent && significand == odd
                * pow2((shifted - exponent) as nat)
        }),
    decreases absolute(significand),
{
    if significand != 0 {
        lemma_normal_is_the_number(significand, exponent);
        if significand % 2 == 0 {
            law_the_normal_form(significand / 2, exponent + 1);
        }
    }
}

/// A number at another precision is the number itself where it fits. Else it
/// is the nearest number with so many bits, the one farther from zero of two
/// that are as near.
pub proof fn law_another_precision_is_the_nearest_number(x: Real, precision: nat)
    ensures
        at_precision(x, precision).precision == precision || bits(x.significand) > precision
            + EXACT_DROP,
        precision == 0 || x.precision <= precision || bits(x.significand) <= precision
            ==> at_precision(x, precision).significand == x.significand && at_precision(
            x,
            precision,
        ).exponent == x.exponent,
        0 < precision < x.precision && precision < bits(x.significand) <= precision + EXACT_DROP
            ==> {
            let r = at_precision(x, precision);
            let dropped = (bits(x.significand) - precision) as nat;
            &&& r.exponent >= x.exponent + dropped
            &&& 2 * absolute(in_units(r, x.exponent) - x.significand) <= pow2(dropped)
            &&& 2 * absolute(in_units(r, x.exponent) - x.significand) == pow2(dropped) ==> absolute(
                in_units(r, x.exponent),
            ) > absolute(x.significand)
        },
{
    let length = bits(x.significand);
    if 0 < precision < x.precision && precision < length <= precision + EXACT_DROP {
        let r = at_precision(x, precision);
        let dropped = (length - precision) as nat;
        let magnitude = absolute(x.significand);
        let (unit, half) = (pow2(dropped) as int, pow2((dropped - 1) as nat) as int);
        let kept = (magnitude + half) / unit;
        let signed = if x.significand < 0 {
            -kept
        } else {
            kept
        };
        vstd::arithmetic::power2::lemma_pow2_pos(dropped);
        vstd::arithmetic::power2::lemma_pow2_unfold(dropped);
        lemma_bits_bounds(x.significand);
        if dropped < length - 1 {
            vstd::arithmetic::power2::lemma_pow2_strictly_increases(dropped, (length - 1) as nat);
        }
        vstd::arithmetic::div_mod::lemma_fundamental_div_mod(magnitude + half, unit);
        vstd::arithmetic::div_mod::lemma_mod_bound(magnitude + half, unit);
        assert(unit * kept == kept * unit) by (nonlinear_arith);
        assert(magnitude + half >= unit);
        assert(kept >= 1) by (nonlinear_arith)
            requires
                unit * kept + (magnitude + half) % unit == magnitude + half,
                (magnitude + half) % unit < unit,
                magnitude + half >= unit,
                unit > 0,
        ;
        lemma_normal_is_the_number(signed, x.exponent + dropped);
        lemma_units_of_units(r, x.exponent + dropped, x.exponent);
        assert(in_units(r, x.exponent + dropped) == signed);
        assert(in_units(r, x.exponent) == signed * unit);
        assert((-kept) * unit == -(kept * unit)) by (nonlinear_arith);
        assert(kept * unit > 0) by (nonlinear_arith)
            requires
                kept >= 1,
                unit > 0,
        ;
    }
}

/// What rounding to a precision changes is small against the number: at most
/// two parts in `2^precision`, and nothing at all at the unlimited precision.
pub(crate) proof fn lemma_rounding_error(
    r: Real,
    significand: int,
    exponent: int,
    precision: nat,
    unit: int,
)
    requires
        rounds_to(r, significand, exponent, precision),
        unit <= exponent,
    ensures
        ({
            let number = significand * pow2((exponent - unit) as nat);
            &&& r.significand == 0 || r.exponent >= exponent
            &&& absolute(in_units(r, unit) - number) * pow2(precision) <= 2 * absolute(number)
            &&& precision == 0 ==> in_units(r, unit) == number
        }),
{
    let step = pow2((exponent - unit) as nat) as int;
    let number = significand * step;
    let (odd, shifted) = normal(significand, exponent);
    vstd::arithmetic::power2::lemma_pow2_pos((exponent - unit) as nat);
    vstd::arithmetic::power2::lemma_pow2_pos(precision);
    if precision == 0 || bits(odd) <= precision {
        if significand == 0 {
            assert(0 * step == 0);
            assert(in_units(r, unit) == 0);
            assert(0 * pow2(precision) == 0);
        } else {
            lemma_normal_is_the_number(significand, exponent);
            lemma_units_of_units(r, exponent, unit);
            assert(in_units(r, exponent) == significand);
            assert(0 * pow2(precision) == 0);
        }
    } else {
        let error = absolute(in_units(r, exponent) - significand);
        let kept = pow2((bits(significand) - precision) as nat) as int;
        let scale = pow2(precision) as int;
        if significand != 0 {
            lemma_normal_is_shorter_or_as_long(significand, exponent);
        }
        lemma_units_of_units(r, exponent, unit);
        lemma_bits_bounds(significand);
        assert(significand != 0);
        vstd::arithmetic::power2::lemma_pow2_adds(
            (bits(significand) - precision) as nat,
            precision,
        );
        vstd::arithmetic::power2::lemma_pow2_unfold(bits(significand));
        assert(kept * scale <= 2 * absolute(significand));
        assert(error * scale <= kept * scale) by (nonlinear_arith)
            requires
                error <= kept,
                scale > 0,
        ;
        let whole = in_units(r, exponent) - significand;
        assert(in_units(r, unit) - number == whole * step) by (nonlinear_arith)
            requires
                in_units(r, unit) == in_units(r, exponent) * step,
                number == significand * step,
                whole == in_units(r, exponent) - significand,
        ;
        lemma_absolute_product(whole, step);
        lemma_absolute_product(significand, step);
        assert((error * step) * scale == (error * scale) * step) by (nonlinear_arith);
        assert((error * scale) * step <= (2 * absolute(significand)) * step) by (nonlinear_arith)
            requires
                error * scale <= 2 * absolute(significand),
                step > 0,
        ;
        assert((2 * absolute(significand)) * step == 2 * (absolute(significand) * step))
            by (nonlinear_arith);
    }
}

/// What rounding changes of a sum is small against the sum.
pub(crate) proof fn lemma_sum_error(r: Real, a: Real, b: Real, precision: nat, unit: int)
    requires
        adds_up(r, a, b),
        precision == wider(a.precision, b.precision),
        a.significand == 0 || unit <= a.exponent,
        b.significand == 0 || unit <= b.exponent,
    ensures
        ({
            let number = in_units(a, unit) + in_units(b, unit);
            &&& r.significand == 0 || r.exponent >= unit
            &&& absolute(in_units(r, unit) - number) * pow2(precision) <= 2 * absolute(number)
            &&& precision == 0 ==> in_units(r, unit) == number
        }),
{
    let number = in_units(a, unit) + in_units(b, unit);
    if a.significand == 0 || b.significand == 0 {
        assert(in_units(r, unit) == number);
        assert(0 * pow2(precision) == 0);
    } else {
        let e = lower(a.exponent, b.exponent);
        let step = pow2((e - unit) as nat) as int;
        lemma_units_of_units(a, e, unit);
        lemma_units_of_units(b, e, unit);
        lemma_rounding_error(r, in_units(a, e) + in_units(b, e), e, precision, unit);
        assert((in_units(a, e) + in_units(b, e)) * step == in_units(a, e) * step + in_units(b, e)
            * step) by (nonlinear_arith);
    }
}

/// What rounding changes of a product is small against the product.
pub(crate) proof fn lemma_product_error(r: Real, a: Real, b: Real, precision: nat, unit: int)
    requires
        multiplies(r, a, b, precision),
        unit <= a.exponent + b.exponent,
    ensures
        ({
            let number = a.significand * b.significand * pow2(
                (a.exponent + b.exponent - unit) as nat,
            );
            &&& r.significand == 0 || r.exponent >= unit
            &&& absolute(in_units(r, unit) - number) * pow2(precision) <= 2 * absolute(number)
            &&& precision == 0 ==> in_units(r, unit) == number
        }),
{
    lemma_rounding_error(
        r,
        a.significand * b.significand,
        a.exponent + b.exponent,
        precision,
        unit,
    );
}

proof fn lemma_absolute_product(n: int, step: int)
    requires
        step > 0,
    ensures
        absolute(n * step) == absolute(n) * step,
{
    assert(n >= 0 ==> n * step >= 0) by (nonlinear_arith)
        requires
            step > 0,
    ;
    assert(n < 0 ==> n * step < 0) by (nonlinear_arith)
        requires
            step > 0,
    ;
    assert((-n) * step == -(n * step)) by (nonlinear_arith);
}

proof fn lemma_normal_is_shorter_or_as_long(significand: int, exponent: int)
    ensures
        bits(normal(significand, exponent).0) <= bits(significand),
    decreases absolute(significand),
{
    if significand != 0 && significand % 2 == 0 {
        lemma_normal_is_shorter_or_as_long(significand / 2, exponent + 1);
        if significand < 0 {
            assert((-significand) / 2 == -(significand / 2));
            assert(bits(-(significand / 2)) == bits(significand / 2));
        }
    }
}

/// `FBig::with_precision` of `dashu`: another precision for a number. A
/// precision no smaller than the number's own, or the unlimited precision 0,
/// leaves the number as it is; a smaller one rounds it to the nearest, ties
/// away from zero, which drops digits at the low end and can carry once at the
/// high end. Where more than `EXACT_DROP` bits are dropped, all that is stated
/// is that the result is one of the two neighbors at the precision.
#[verifier::external_body]
pub(crate) fn with_precision(x: &BigFloat, precision: usize) -> (r: BigFloat)
    requires
        x.wf(),
        x@.workable(),
        precision <= PRECISION_LIMIT,
    ensures
        r.wf(),
        r@ == at_precision(x@, precision as nat),
        0 < precision < x@.precision && bits(x@.significand) > precision + EXACT_DROP ==> r@
            == rounded_far(x@, precision as nat),
        r@.precision == precision,
        r@.exponent >= x@.exponent,
        r@.top() <= x@.top() + 1,
        0 < precision < x@.precision ==> rounds_to(
            r@,
            x@.significand,
            x@.exponent,
            precision as nat,
        ) && bits(r@.significand) <= precision,
{
    let x = FBig::<HalfAway, 2>::from_repr_const(Repr::new(
        IBig::from_parts(Sign::from(x.negative), UBig::from_le_bytes(&x.magnitude)),
        x.exponent,
    )).with_precision(x.precision).value();
    let r = x.with_precision(precision).value();
    let (precision, (significand, exponent)) = (r.precision(), r.into_repr().into_parts());
    let (sign, magnitude) = significand.into_parts();
    let magnitude = magnitude.to_le_bytes().into_vec();
    BigFloat { negative: sign.into(), magnitude, exponent, precision }
}

/// `&FBig + &FBig` of `dashu`: the exact sum, rounded to the wider precision,
/// and with one bit more where the signs differ. A zero leaves the other
/// number as it is.
#[verifier::external_body]
pub(crate) fn sum(a: &BigFloat, b: &BigFloat) -> (r: BigFloat)
    requires
        a.wf(),
        b.wf(),
        addable(a@, b@),
    ensures
        r.wf(),
        r@ == big_sum(a@, b@),
        sum_like(r@, a@, b@),
        adds_up(r@, a@, b@),
{
    let x = FBig::<HalfAway, 2>::from_repr_const(Repr::new(
        IBig::from_parts(Sign::from(a.negative), UBig::from_le_bytes(&a.magnitude)),
        a.exponent,
    )).with_precision(a.precision).value();
    let y = FBig::<HalfAway, 2>::from_repr_const(Repr::new(
        IBig::from_parts(Sign::from(b.negative), UBig::from_le_bytes(&b.magnitude)),
        b.exponent,
    )).with_precision(b.precision).value();
    let r = &x + &y;
    let (precision, (significand, exponent)) = (r.precision(), r.into_repr().into_parts());
    let (sign, magnitude) = significand.into_parts();
    let magnitude = magnitude.to_le_bytes().into_vec();
    BigFloat { negative: sign.into(), magnitude, exponent, precision }
}

/// `&FBig - &FBig` of `dashu`: the exact difference, rounded as a sum is. A
/// zero leaves the other number as it is, but for the sign. Equal numbers
/// differ by zero.
#[verifier::external_body]
pub(crate) fn difference(a: &BigFloat, b: &BigFloat) -> (r: BigFloat)
    requires
        a.wf(),
        b.wf(),
        addable(a@, b@),
    ensures
        r.wf(),
        r@ == big_difference(a@, b@),
        sum_like(r@, a@, b@),
        takes_away(r@, a@, b@),
        a@.significand == b@.significand && a@.exponent == b@.exponent ==> r@.significand == 0
            && r@.exponent == 0,
{
    let x = FBig::<HalfAway, 2>::from_repr_const(Repr::new(
        IBig::from_parts(Sign::from(a.negative), UBig::from_le_bytes(&a.magnitude)),
        a.exponent,
    )).with_precision(a.precision).value();
    let y = FBig::<HalfAway, 2>::from_repr_const(Repr::new(
        IBig::from_parts(Sign::from(b.negative), UBig::from_le_bytes(&b.magnitude)),
        b.exponent,
    )).with_precision(b.precision).value();
    let r = &x - &y;
    let (precision, (significand, exponent)) = (r.precision(), r.into_repr().into_parts());
    let (sign, magnitude) = significand.into_parts();
    let magnitude = magnitude.to_le_bytes().into_vec();
    BigFloat { negative: sign.into(), magnitude, exponent, precision }
}

/// `&FBig * &FBig` of `dashu`: the exact product, rounded to the wider
/// precision. Rounding drops digits at the low end and can carry once at the
/// high end.
#[verifier::external_body]
pub(crate) fn product(a: &BigFloat, b: &BigFloat) -> (r: BigFloat)
    requires
        a.wf(),
        b.wf(),
        a@.in_range(),
        b@.in_range(),
    ensures
        r.wf(),
        r@ == big_product(a@, b@),
        r@.exponent >= a@.exponent + b@.exponent || r@.exponent >= 0,
        r@.top() <= a@.top() + b@.top() + 1 || r@.top() <= 0,
        r@.precision == wider(a@.precision, b@.precision),
        multiplies(r@, a@, b@, wider(a@.precision, b@.precision)),
{
    let x = FBig::<HalfAway, 2>::from_repr_const(Repr::new(
        IBig::from_parts(Sign::from(a.negative), UBig::from_le_bytes(&a.magnitude)),
        a.exponent,
    )).with_precision(a.precision).value();
    let y = FBig::<HalfAway, 2>::from_repr_const(Repr::new(
        IBig::from_parts(Sign::from(b.negative), UBig::from_le_bytes(&b.magnitude)),
        b.exponent,
    )).with_precision(b.precision).value();
    let r = &x * &y;
    let (precision, (significand, exponent)) = (r.precision(), r.into_repr().into_parts());
    let (sign, magnitude) = significand.into_parts();
    let magnitude = magnitude.to_le_bytes().into_vec();
    BigFloat { negative: sign.into(), magnitude, exponent, precision }
}

/// `FBig::sqr` of `dashu`: the exact square, rounded to the number's precision.
/// A number longer than twice its precision is rounded to that before; of its
/// square only the length is stated.
#[verifier::external_body]
pub(crate) fn square(x: &BigFloat) -> (r: BigFloat)
    requires
        x.wf(),
        x@.in_range(),
    ensures
        r.wf(),
        r@ == big_square(x@),
        r@.exponent >= 2 * x@.exponent || r@.exponent >= 0,
        r@.top() <= 2 * x@.top() + 1 || r@.top() <= 0,
        r@.precision == x@.precision,
        x@.precision == 0 || bits(x@.significand) <= 2 * x@.precision ==> multiplies(
            r@,
            x@,
            x@,
            x@.precision,
        ),
        x@.precision > 0 ==> bits(r@.significand) <= x@.precision,
{
    let x = FBig::<HalfAway, 2>::from_repr_const(Repr::new(
        IBig::from_parts(Sign::from(x.negative), UBig::from_le_bytes(&x.magnitude)),
        x.exponent,
    )).with_precision(x.precision).value();
    let r = x.sqr();
    let (precision, (significand, exponent)) = (r.precision(), r.into_repr().into_parts());
    let (sign, magnitude) = significand.into_parts();
    let magnitude = magnitude.to_le_bytes().into_vec();
    BigFloat { negative: sign.into(), magnitude, exponent, precision }
}

/// `FBig::to_f64` of `dashu`: the double that a number is rounded to. Zero is
/// the positive zero, and a number that is a double comes back as that double.
#[verifier::external_body]
pub(crate) fn nearest_double(x: &BigFloat) -> (r: Double)
    requires
        x.wf(),
        x@.workable(),
    ensures
        r.bits == double_bits(x@),
        x@.significand == 0 ==> r.bits == 0,
        forall|d: Double| #[trigger]
            d.finite() && d.significand() != 0 && normal(d.significand(), d.exponent()) == (
                x@.significand,
                x@.exponent,
            ) ==> r == d,
{
    let x = FBig::<HalfAway, 2>::from_repr_const(Repr::new(
        IBig::from_parts(Sign::from(x.negative), UBig::from_le_bytes(&x.magnitude)),
        x.exponent,
    )).with_precision(x.precision).value();
    Double { bits: x.to_f64().value().to_bits() }
}

/// Decimal exponents up to this are brought to base two without leaving the
/// machine integers.
pub const SCALE_LIMIT: usize = usize::MAX / 16;

/// Why a decimal text is not a number.
#[derive(Clone, Copy, Debug, PartialEq, Eq, Structural)]
pub enum ParseError {
    /// No digits in the text.
    NoDigits,
    /// A character that is no digit.
    InvalidDigit,
    /// The base is not supported.
    UnsupportedRadix,
    /// The parts of the number are in different bases.
    InconsistentRadix,
}

impl ParseError {
    /// The error in words.
    pub open spec fn words(self) -> Seq<char> {
        match self {
            ParseError::NoDigits => "no digits"@,
            ParseError::InvalidDigit => "invalid digit"@,
            ParseError::UnsupportedRadix => "unsupported radix"@,
            ParseError::InconsistentRadix => "inconsistent radix"@,
        }
    }

    /// The error in words.
    pub fn message(self) -> (text: &'static str)
        ensures
            text@ == self.words(),
    {
        match self {
            ParseError::NoDigits => "no digits",
            ParseError::InvalidDigit => "invalid digit",
            ParseError::UnsupportedRadix => "unsupported radix",
            ParseError::InconsistentRadix => "inconsistent radix",
        }
    }
}

/// Each error has its own words.
pub proof fn law_errors_in_words()
    ensures
        ParseError::NoDigits.words() == "no digits"@,
        ParseError::InvalidDigit.words() == "invalid digit"@,
        ParseError::UnsupportedRadix.words() == "unsupported radix"@,
        ParseError::InconsistentRadix.words() == "inconsistent radix"@,
{
}

/// The marks that a scale can follow.
pub open spec fn scale_mark(c: char) -> bool {
    c == 'e' || c == 'E' || c == '@'
}

/// What follows the last scale mark; `None` without one.
pub open spec fn scale_part(text: Seq<char>) -> Option<Seq<char>>
    decreases text.len(),
{
    if text.len() == 0 {
        None
    } else if scale_mark(text.last()) {
        Some(seq![])
    } else {
        match scale_part(text.drop_last()) {
            Some(part) => Some(part.push(text.last())),
            None => None,
        }
    }
}

/// A decimal digit.
pub open spec fn digit(c: char) -> bool {
    '0' <= c <= '9'
}

/// Digits, with or without a sign in front.
pub open spec fn signed_digits(part: Seq<char>) -> bool {
    forall|i: int|
        0 <= i < part.len() ==> digit(#[trigger] part[i]) || (i == 0 && (part[0] == '+' || part[0]
            == '-'))
}

/// An integer in decimal digits.
pub open spec fn numeric(part: Seq<char>) -> bool {
    part.len() > 0 && signed_digits(part) && digit(part.last())
}

/// The amount of an integer in decimal digits, its sign aside.
pub open spec fn amount(part: Seq<char>) -> nat
    decreases part.len(),
{
    if part.len() == 0 {
        0
    } else if digit(part.last()) {
        10 * amount(part.drop_last()) + (part.last() as nat - '0' as nat) as nat
    } else {
        amount(part.drop_last())
    }
}

/// What stands before the last scale mark.
pub open spec fn scaled_part(text: Seq<char>) -> Seq<char> {
    match scale_part(text) {
        Some(part) => text.take(text.len() - part.len() - 1),
        None => text,
    }
}

/// Some digit is not zero.
pub open spec fn significant(text: Seq<char>) -> bool {
    exists|i: int| 0 <= i < text.len() && '1' <= #[trigger] text[i] <= '9'
}

/// An integer in decimal digits that is no machine integer (and is read as an
/// invalid digit).
pub open spec fn beyond_isize(part: Seq<char>) -> bool {
    amount(part) > isize::MAX + (if part[0] == '-' {
        1int
    } else {
        0
    })
}

/// A text that is read without an exponent leaving the machine integers: the
/// scale, if there is one, and the digits together are no more than
/// `SCALE_LIMIT`. The scale of zero does not matter, nor does one that is not
/// a machine integer.
pub open spec fn scale_supported(text: Seq<char>) -> bool {
    match scale_part(text) {
        Some(part) => {
            ||| !numeric(part)
            ||| beyond_isize(part)
            ||| amount(part) + text.len() <= SCALE_LIMIT
            ||| !significant(scaled_part(text))
        },
        None => text.len() <= SCALE_LIMIT,
    }
}

/// A scale is what follows the last `e`, `E` or `@`, and there is none without
/// one of these.
pub proof fn law_the_scale_follows_the_last_mark(before: Seq<char>, mark: char, part: Seq<char>)
    requires
        mark == 'e' || mark == 'E' || mark == '@',
        forall|i: int|
            0 <= i < part.len() ==> #[trigger] part[i] != 'e' && part[i] != 'E' && part[i] != '@',
    ensures
        scale_part(before.push(mark) + part) == Some(part),
        scaled_part(before.push(mark) + part) == before,
        scale_part(part) is None,
        scaled_part(part) == part,
    decreases part.len(),
{
    let text = before.push(mark) + part;
    if part.len() == 0 {
        assert(text =~= before.push(mark));
        assert(part =~= Seq::<char>::empty());
    } else {
        let front = part.drop_last();
        assert forall|i: int| 0 <= i < front.len() implies #[trigger] front[i] != 'e' && front[i]
            != 'E' && front[i] != '@' by {
            assert(front[i] == part[i]);
        }
        law_the_scale_follows_the_last_mark(before, mark, front);
        assert(text.drop_last() =~= before.push(mark) + front);
        assert(text.last() == part.last());
        assert(part.last() == part[part.len() - 1]);
        assert(front.push(part.last()) =~= part);
    }
    assert(text.take(text.len() - part.len() - 1) =~= before);
}

/// The amount of digits is read from left to right, each worth ten times the
/// next; a sign in front does not count.
pub proof fn law_amounts_are_decimal(part: Seq<char>, c: char)
    ensures
        amount(Seq::empty()) == 0,
        '0' <= c <= '9' ==> amount(part.push(c)) == 10 * amount(part) + (c as int - '0' as int),
        c == '+' || c == '-' ==> amount(part.push(c)) == amount(part),
{
    assert(part.push(c).drop_last() =~= part);
}

/// A text without a scale can be read unless it is too long; one with a scale
/// too, where the scale and the length together are within the limit.
pub proof fn law_small_scales_are_supported(text: Seq<char>)
    ensures
        scale_part(text) is None ==> (scale_supported(text) <==> text.len() <= SCALE_LIMIT),
        scale_part(text) matches Some(part) && amount(part) + text.len() <= SCALE_LIMIT
            ==> scale_supported(text),
        scale_part(text) matches Some(part) && numeric(part) && amount(part) + text.len()
            > SCALE_LIMIT && amount(part) <= isize::MAX && (exists|i: int|
            0 <= i < text.len() - part.len() - 1 && '1' <= #[trigger] text[i] <= '9')
            ==> !scale_supported(text),
        SCALE_LIMIT == usize::MAX / 16,
{
    lemma_scale_is_shorter(text);
    if let Some(part) = scale_part(text) {
        let before = scaled_part(text);
        if exists|i: int| 0 <= i < text.len() - part.len() - 1 && '1' <= #[trigger] text[i] <= '9' {
            let i = choose|i: int|
                0 <= i < text.len() - part.len() - 1 && '1' <= #[trigger] text[i] <= '9';
            assert(before[i] == text[i]);
        }
    }
}

/// A scale does not matter where it is read as none, or as no number: where it
/// is empty, ends without a digit, holds anything but digits behind a sign, or
/// is no machine integer. Nor does it matter where nothing but zeros is scaled.
/// Every other scale matters.
pub proof fn law_which_scales_do_not_matter(text: Seq<char>, part: Seq<char>)
    requires
        scale_part(text) == Some(part),
    ensures
        part.len() == 0 ==> scale_supported(text),
        part.len() > 0 && !('0' <= part[part.len() - 1] <= '9') ==> scale_supported(text),
        (exists|i: int|
            0 < i < part.len() && !('0' <= #[trigger] part[i] <= '9')) ==> scale_supported(text),
        part.len() > 0 && !('0' <= part[0] <= '9') && part[0] != '+' && part[0] != '-'
            ==> scale_supported(text),
        amount(part) > isize::MAX + 1 ==> scale_supported(text),
        (forall|i: int|
            0 <= i < text.len() - part.len() - 1 ==> !('1' <= #[trigger] text[i] <= '9'))
            ==> scale_supported(text),
        part.len() > 0 && '0' <= part[part.len() - 1] <= '9' && ('0' <= part[0] <= '9' || part[0]
            == '+' || part[0] == '-') && (forall|i: int|
            0 < i < part.len() ==> '0' <= #[trigger] part[i] <= '9') ==> numeric(part),
{
    lemma_scale_is_shorter(text);
    let before = scaled_part(text);
    if exists|i: int| 0 < i < part.len() && !('0' <= #[trigger] part[i] <= '9') {
        let i = choose|i: int| 0 < i < part.len() && !('0' <= #[trigger] part[i] <= '9');
        assert(!digit(part[i]));
    }
    if significant(before) {
        let i = choose|i: int| 0 <= i < before.len() && '1' <= #[trigger] before[i] <= '9';
        assert(before[i] == text[i]);
    }
}

/// Amounts are counted up to this.
const AMOUNT_CAP: u128 = 0x1_0000_0000_0000_0000_0000;

proof fn lemma_scale_is_shorter(text: Seq<char>)
    ensures
        scale_part(text) matches Some(part) ==> part.len() < text.len(),
    decreases text.len(),
{
    if text.len() > 0 && !scale_mark(text.last()) {
        lemma_scale_is_shorter(text.drop_last());
    }
}

/// Whether a text's scale is supported.
pub fn is_scale_supported(text: &str) -> (r: bool)
    ensures
        r == scale_supported(text@),
{
    let length: usize = text.unicode_len();
    let mut marked = false;
    let mut clean = true;
    let mut first = true;
    let mut minus = false;
    let mut ends_in_digit = false;
    let mut counted: u128 = 0;
    let mut nonzero = false;
    let mut nonzero_before = false;
    assert(text@.take(0) =~= Seq::<char>::empty());
    for c in it: text.chars()
        invariant
            it.seq() == text@,
            marked == (scale_part(text@.take(it.index() as int)) is Some),
            nonzero == significant(text@.take(it.index() as int)),
            scale_part(text@.take(it.index() as int)) matches Some(part) ==> {
                &&& first == (part.len() == 0)
                &&& minus == (part.len() > 0 && part[0] == '-')
                &&& clean == signed_digits(part)
                &&& ends_in_digit == (part.len() > 0 && digit(part.last()))
                &&& counted == if amount(part) < AMOUNT_CAP {
                    amount(part)
                } else {
                    AMOUNT_CAP as nat
                }
                &&& nonzero_before == significant(scaled_part(text@.take(it.index() as int)))
            },
            counted <= AMOUNT_CAP,
    {
        let ghost done: int = it.index() as int;
        let ghost now = text@.take(done);
        let ghost next = text@.take(done + 1);
        proof {
            assert(next.drop_last() =~= now);
            assert(next.last() == c);
            lemma_scale_is_shorter(now);
            if significant(now) {
                let i = choose|i: int| 0 <= i < now.len() && '1' <= #[trigger] now[i] <= '9';
                assert('1' <= next[i] <= '9');
            }
            if significant(next) {
                let i = choose|i: int| 0 <= i < next.len() && '1' <= #[trigger] next[i] <= '9';
                if i < done {
                    assert('1' <= now[i] <= '9');
                }
            }
            if '1' <= c <= '9' {
                assert('1' <= next[done] <= '9');
            }
        }
        if c == 'e' || c == 'E' || c == '@' {
            assert(scaled_part(next) =~= now);
            marked = true;
            clean = true;
            first = true;
            minus = false;
            ends_in_digit = false;
            counted = 0;
            nonzero_before = nonzero;
        } else if marked {
            let ghost part = scale_part(now)->0;
            let ghost longer = part.push(c);
            assert(longer.drop_last() =~= part);
            assert(scaled_part(next) =~= scaled_part(now));
            let is_digit = '0' <= c && c <= '9';
            if is_digit {
                let value: u128 = 10 * counted + (c as u32 - '0' as u32) as u128;
                counted = if value < AMOUNT_CAP {
                    value
                } else {
                    AMOUNT_CAP
                };
            }
            proof {
                if signed_digits(longer) {
                    assert forall|i: int| 0 <= i < part.len() implies digit(#[trigger] part[i]) || (
                    i == 0 && (part[0] == '+' || part[0] == '-')) by {
                        assert(longer[i] == part[i]);
                    }
                    assert(digit(longer[part.len() as int]) || (part.len() == 0 && (longer[0] == '+'
                        || longer[0] == '-')));
                } else if signed_digits(part) && (is_digit || (first && (c == '+' || c == '-'))) {
                    assert forall|i: int| 0 <= i < longer.len() implies digit(#[trigger] longer[i])
                        || (i == 0 && (longer[0] == '+' || longer[0] == '-')) by {
                        if i < part.len() {
                            assert(longer[i] == part[i]);
                        }
                    }
                }
            }
            clean = clean && (is_digit || (first && (c == '+' || c == '-')));
            minus = minus || (first && c == '-');
            first = false;
            ends_in_digit = is_digit;
        }
        if '1' <= c && c <= '9' {
            nonzero = true;
        }
    }
    assert(text@.take(text@.len() as int) =~= text@);
    if !marked {
        return length <= SCALE_LIMIT;
    }
    let most: u128 = if minus {
        isize::MAX as u128 + 1
    } else {
        isize::MAX as u128
    };
    !(clean && ends_in_digit) || counted > most || counted + length as u128 <= SCALE_LIMIT as u128
        || !nonzero_before
}

/// A decimal number that can be brought to base two: neither its exponent nor
/// its digits leave the machine integers.
pub open spec fn convertible(x: Real) -> bool {
    &&& -SCALE_LIMIT <= x.exponent <= SCALE_LIMIT
    &&& bits(x.significand) <= 4 * SCALE_LIMIT
}

/// What `dashu` reads in a decimal text.
pub uninterp spec fn decimal_of(text: Seq<char>) -> Result<Real, ParseError>;

/// What `dashu` makes of a decimal number in binary, at a precision in bits.
/// Which exponents are divided out goes by the machine's word, and how many
/// guard digits the others get by the standard library's logarithm: the name
/// stands for what one build of the library computes.
pub uninterp spec fn binary_of(significand: int, exponent: int, precision: nat) -> Real;

/// What `dashu` makes of a binary number in decimal, at a precision in
/// digits; as in the other direction, what one build computes.
pub uninterp spec fn decimal_digits(x: Real, digits: nat) -> Real;

/// The text that `dashu` writes for a decimal number.
pub uninterp spec fn decimal_text(x: Real) -> Seq<char>;

/// The text as a quoted literal, as the standard library writes it.
pub uninterp spec fn quoted(text: Seq<char>) -> Seq<char>;

/// A decimal number can be brought to base two at a precision: it needs no
/// division, or the quotient starts within the precision.
pub open spec fn binary_quotient(x: Real, precision: nat) -> bool {
    let k = (-x.exponent) as nat;
    ||| x.exponent >= 0
    ||| x.exponent < -QUOTIENT_LIMIT
    ||| x.significand % pow(5, k) == 0
    ||| bits(normal(x.significand, 0).0) <= precision + bits(pow(5, k))
}

/// A binary number can be brought to base ten with some digits: it needs no
/// division, or the quotient starts within the digits.
pub open spec fn decimal_quotient(x: Real, digits: nat) -> bool {
    let k = (-x.exponent) as nat;
    ||| x.exponent >= 0
    ||| x.exponent < -QUOTIENT_LIMIT
    ||| decimal_length(x.significand) <= digits + decimal_length(pow2(k) as int)
}

/// `DBig::from_str` of `dashu`: reads a decimal text, without loss. The
/// exponent of what was read is the scale, less the digits after the point,
/// plus the zeros at the end; the significand is made of the text's digits.
#[verifier::external_body]
pub(crate) fn parse_decimal(text: &str) -> (r: Result<BigDecimal, ParseError>)
    requires
        scale_supported(text@),
    ensures
        match r {
            Ok(d) => {
                &&& decimal_of(text@) == Ok::<Real, ParseError>(d@)
                &&& d.wf()
                &&& convertible(d@)
                &&& bits(d@.significand) <= 4 * text@.len()
            },
            Err(e) => decimal_of(text@) == Err::<Real, ParseError>(e),
        },
{
    let r = DBig::from_str(text).map_err(|e| match e {
        dashu::base::ParseError::NoDigits => ParseError::NoDigits,
        dashu::base::ParseError::InvalidDigit => ParseError::InvalidDigit,
        dashu::base::ParseError::UnsupportedRadix => ParseError::UnsupportedRadix,
        dashu::base::ParseError::InconsistentRadix => ParseError::InconsistentRadix,
    })?;
    let (precision, (significand, exponent)) = (r.precision(), r.into_repr().into_parts());
    let (sign, magnitude) = significand.into_parts();
    let magnitude = magnitude.to_le_bytes().into_vec();
    Ok(BigDecimal { negative: sign.into(), magnitude, exponent, precision })
}

/// `DBig::with_base_and_precision::<2>` of `dashu`: a decimal number in
/// binary, rounded to a precision. The precision that it had in decimal plays
/// no part. How far the result is from the number is not stated.
#[verifier::external_body]
pub(crate) fn to_binary(x: &BigDecimal, precision: usize) -> (r: BigFloat)
    requires
        x.wf(),
        convertible(x@),
        0 < precision <= PRECISION_LIMIT,
        binary_quotient(x@, precision as nat),
    ensures
        r.wf(),
        r@ == binary_of(x@.significand, x@.exponent, precision as nat),
        r@.precision == precision,
{
    let x = DBig::from_repr_const(Repr::new(
        IBig::from_parts(Sign::from(x.negative), UBig::from_le_bytes(&x.magnitude)),
        x.exponent,
    )).with_precision(x.precision).value();
    let r = x.with_base_and_precision::<2>(precision).value();
    let (precision, (significand, exponent)) = (r.precision(), r.into_repr().into_parts());
    let (sign, magnitude) = significand.into_parts();
    let magnitude = magnitude.to_le_bytes().into_vec();
    BigFloat { negative: sign.into(), magnitude, exponent, precision }
}

/// `FBig::with_base_and_precision::<10>` of `dashu`: a binary number in
/// decimal, rounded to a number of digits. A number in range has a decimal
/// exponent far inside the working range. How far the result is from the
/// number is not stated.
#[verifier::external_body]
pub(crate) fn to_decimal(x: &BigFloat, digits: usize) -> (r: BigDecimal)
    requires
        x.wf(),
        x@.in_range(),
        0 < digits <= PRECISION_LIMIT,
        decimal_quotient(x@, digits as nat),
    ensures
        r.wf(),
        r@ == decimal_digits(x@, digits as nat),
        -WORK_LIMIT <= r@.exponent <= WORK_LIMIT,
{
    let x = FBig::<HalfAway, 2>::from_repr_const(Repr::new(
        IBig::from_parts(Sign::from(x.negative), UBig::from_le_bytes(&x.magnitude)),
        x.exponent,
    )).with_precision(x.precision).value();
    let r = x.with_base_and_precision::<10>(digits).value();
    let (precision, (significand, exponent)) = (r.precision(), r.into_repr().into_parts());
    let (sign, magnitude) = significand.into_parts();
    let magnitude = magnitude.to_le_bytes().into_vec();
    BigDecimal { negative: sign.into(), magnitude, exponent, precision }
}

/// A text that has no scale and is read as a number.
pub open spec fn reads_as(text: Seq<char>, significand: int, exponent: int) -> bool {
    &&& scale_part(text) is None
    &&& decimal_of(text) matches Ok(x) && x.significand == significand && x.exponent == exponent
}

/// `DBig::to_string` of `dashu`: all digits of a decimal number, with a point
/// and zeros as its exponent asks for. Reading the text gives the number
/// back.
#[verifier::external_body]
pub(crate) fn write_decimal(x: &BigDecimal) -> (text: String)
    requires
        x.wf(),
        -WORK_LIMIT <= x@.exponent <= WORK_LIMIT,
    ensures
        text@ == decimal_text(x@),
        reads_as(text@, x@.significand, x@.exponent),
{
    DBig::from_repr_const(Repr::new(
        IBig::from_parts(Sign::from(x.negative), UBig::from_le_bytes(&x.magnitude)),
        x.exponent,
    )).with_precision(x.precision).value().to_string()
}

/// The standard library's `Debug` text of a string: quoted and escaped.
#[verifier::external_body]
pub(crate) fn quote(text: &str) -> (r: String)
    ensures
        r@ == quoted(text@),
{
    format!("{:?}", text)
}

} // verus!
