//! Floating-point values carried by their bit patterns.
//!
//! View state, keys and bounds are made of IEEE 754 numbers. Nothing here
//! computes with them; they are stored, compared and ordered. A comparison is
//! a question about the sign and the magnitude bits, so both formats are held
//! as integers and answered exactly.

use vstd::arithmetic::power2::pow2;
use vstd::prelude::*;

verus! {

/// The sign bit of a double.
pub const DOUBLE_SIGN: u64 = 0x8000_0000_0000_0000;

/// The magnitude bits of a double infinity; greater magnitudes are NaN.
pub const DOUBLE_INFINITY: u64 = 0x7FF0_0000_0000_0000;

/// The hidden bit of a normal double's significand.
pub const DOUBLE_HIDDEN: u64 = 0x0010_0000_0000_0000;

/// The sign bit of a single.
pub const SINGLE_SIGN: u32 = 0x8000_0000;

/// The magnitude bits of a single infinity; greater magnitudes are NaN.
pub const SINGLE_INFINITY: u32 = 0x7F80_0000;

/// A 64-bit IEEE 754 number. `==` compares bit patterns; `equals` is the
/// numeric comparison.
#[derive(Clone, Copy, Debug, PartialEq, Eq, Structural)]
pub struct Double {
    pub bits: u64,
}

/// A 32-bit IEEE 754 number. `==` compares bit patterns; `equals` is the
/// numeric comparison.
#[derive(Clone, Copy, Debug, PartialEq, Eq, Structural)]
pub struct Single {
    pub bits: u32,
}

impl Double {
    /// Whether the sign bit is set.
    pub open spec fn negative(self) -> bool {
        self.bits >= DOUBLE_SIGN
    }

    /// The bits below the sign: equal magnitudes are equal numbers up to sign,
    /// greater magnitudes are greater absolute values.
    pub open spec fn magnitude(self) -> int {
        if self.negative() {
            self.bits - DOUBLE_SIGN
        } else {
            self.bits as int
        }
    }

    /// Not a number.
    pub open spec fn nan(self) -> bool {
        self.magnitude() > DOUBLE_INFINITY
    }

    /// Neither infinite nor NaN.
    pub open spec fn finite(self) -> bool {
        self.magnitude() < DOUBLE_INFINITY
    }

    /// A number's place on the number line: ranks of numbers (NaN aside) are
    /// ordered as the numbers are, and both zeros have rank zero.
    pub open spec fn rank(self) -> int {
        if self.negative() {
            -self.magnitude()
        } else {
            self.magnitude()
        }
    }

    /// Numeric equality: false for NaN, true for the two zeros.
    pub open spec fn eq_num(self, other: Double) -> bool {
        !self.nan() && !other.nan() && self.rank() == other.rank()
    }

    /// Numeric order: false wherever NaN is involved.
    pub open spec fn lt_num(self, other: Double) -> bool {
        !self.nan() && !other.nan() && self.rank() < other.rank()
    }

    /// The lesser of two numbers; a number rather than NaN.
    pub open spec fn min_num(self, other: Double) -> Double {
        if self.nan() || (!other.nan() && other.rank() < self.rank()) {
            other
        } else {
            self
        }
    }

    /// The greater of two numbers; a number rather than NaN.
    pub open spec fn max_num(self, other: Double) -> Double {
        if self.nan() || (!other.nan() && other.rank() > self.rank()) {
            other
        } else {
            self
        }
    }

    /// The integer significand of a finite double, sign included.
    pub open spec fn significand(self) -> int {
        let fraction = self.magnitude() % (DOUBLE_HIDDEN as int);
        let m = if self.magnitude() < DOUBLE_HIDDEN {
            fraction
        } else {
            DOUBLE_HIDDEN + fraction
        };
        if self.negative() {
            -m
        } else {
            m
        }
    }

    /// The power of two that scales `significand`: a finite double is
    /// `significand * 2^exponent`.
    pub open spec fn exponent(self) -> int {
        if self.magnitude() < DOUBLE_HIDDEN {
            -1074
        } else {
            self.magnitude() / (DOUBLE_HIDDEN as int) - 1075
        }
    }

    /// The integer part of a finite double that is not below zero.
    pub open spec fn floor(self) -> int {
        if self.exponent() >= 0 {
            self.significand() * pow2(self.exponent() as nat)
        } else {
            self.significand() / (pow2((-self.exponent()) as nat) as int)
        }
    }

    /// The integer part, where the number is finite, not below zero, and its
    /// integer part is below `limit`.
    pub open spec fn floor_below(self, limit: int) -> Option<int> {
        if self.finite() && self.rank() >= 0 && self.floor() < limit {
            Some(self.floor())
        } else {
            None
        }
    }

    /// The integer part as a column or row: what is below zero or no number
    /// counts as zero; `None` from `limit` on.
    pub open spec fn place_below(self, limit: int) -> Option<int> {
        if !self.nan() && self.rank() >= 0 {
            self.floor_below(limit)
        } else if limit > 0 {
            Some(0)
        } else {
            None
        }
    }

    fn magnitude_bits(self) -> (m: u64)
        ensures
            m == self.magnitude(),
    {
        if self.bits >= DOUBLE_SIGN {
            self.bits - DOUBLE_SIGN
        } else {
            self.bits
        }
    }

    pub fn is_nan(self) -> (r: bool)
        ensures
            r == self.nan(),
    {
        self.magnitude_bits() > DOUBLE_INFINITY
    }

    pub fn is_finite(self) -> (r: bool)
        ensures
            r == self.finite(),
    {
        self.magnitude_bits() < DOUBLE_INFINITY
    }

    /// `==` on numbers.
    pub fn equals(self, other: Double) -> (r: bool)
        ensures
            r == self.eq_num(other),
    {
        let (a, b) = (self.magnitude_bits(), other.magnitude_bits());
        if a > DOUBLE_INFINITY || b > DOUBLE_INFINITY || a != b {
            false
        } else {
            a == 0 || (self.bits >= DOUBLE_SIGN) == (other.bits >= DOUBLE_SIGN)
        }
    }

    /// `<` on numbers.
    pub fn less_than(self, other: Double) -> (r: bool)
        ensures
            r == self.lt_num(other),
    {
        let (a, b) = (self.magnitude_bits(), other.magnitude_bits());
        if a > DOUBLE_INFINITY || b > DOUBLE_INFINITY {
            false
        } else if self.bits >= DOUBLE_SIGN {
            if other.bits >= DOUBLE_SIGN {
                a > b
            } else {
                a > 0 || b > 0
            }
        } else {
            other.bits < DOUBLE_SIGN && a < b
        }
    }

    /// `<=` on numbers.
    pub fn at_most(self, other: Double) -> (r: bool)
        ensures
            r == (self.lt_num(other) || self.eq_num(other)),
    {
        self.less_than(other) || self.equals(other)
    }

    /// The integer part as an index below `limit`; `None` where the number is
    /// negative, not finite, or too large.
    pub fn index_below(self, limit: usize) -> (r: Option<usize>)
        ensures
            match r {
                Some(i) => self.floor_below(limit as int) == Some(i as int),
                None => self.floor_below(limit as int) is None,
            },
    {
        let m: u64 = self.magnitude_bits();
        if m >= DOUBLE_INFINITY || (m > 0 && self.bits >= DOUBLE_SIGN) {
            return None;
        }
        let whole: u64 = if m < DOUBLE_HIDDEN {
            proof {
                lemma_below_one(self.significand(), 1074);
            }
            0
        } else {
            let significand: u64 = DOUBLE_HIDDEN + m % DOUBLE_HIDDEN;
            let biased: u64 = m / DOUBLE_HIDDEN;
            assert(biased <= 2046);
            if biased < 1023 {
                proof {
                    lemma_below_one(self.significand(), (1075 - biased) as nat);
                }
                0
            } else if biased < 1075 {
                proof {
                    vstd::bits::lemma_u64_shr_is_div(significand, (1075 - biased) as u64);
                }
                significand >> (1075 - biased)
            } else {
                let shift: u64 = biased - 1075;
                proof {
                    lemma_shifted(significand as int, shift as nat);
                }
                if shift > 11 {
                    return None;
                }
                proof {
                    vstd::bits::lemma_u64_shl_is_mul(significand, shift);
                }
                significand << shift
            }
        };
        if whole < limit as u64 {
            Some(whole as usize)
        } else {
            None
        }
    }

    /// A column or row is within its bounds.
    pub proof fn lemma_place(self, limit: int)
        ensures
            self.place_below(limit) matches Some(i) ==> 0 <= i < limit,
    {
        if self.finite() && self.rank() >= 0 {
            self.lemma_floor_not_negative();
        }
    }

    /// Integer parts of numbers that are not below zero are not either.
    pub proof fn lemma_floor_not_negative(self)
        requires
            self.finite(),
            self.rank() >= 0,
        ensures
            self.floor() >= 0,
    {
        if self.exponent() >= 0 {
            vstd::arithmetic::power2::lemma_pow2_pos(self.exponent() as nat);
            vstd::arithmetic::mul::lemma_mul_nonnegative(
                self.significand(),
                pow2(self.exponent() as nat) as int,
            );
        } else {
            vstd::arithmetic::power2::lemma_pow2_pos((-self.exponent()) as nat);
            vstd::arithmetic::div_mod::lemma_div_pos_is_pos(
                self.significand(),
                pow2((-self.exponent()) as nat) as int,
            );
        }
    }

    /// The integer part as a column or row below `limit`.
    pub fn place(self, limit: usize) -> (r: Option<usize>)
        ensures
            match r {
                Some(i) => self.place_below(limit as int) == Some(i as int),
                None => self.place_below(limit as int) is None,
            },
    {
        let m: u64 = self.magnitude_bits();
        if m > DOUBLE_INFINITY || (m > 0 && self.bits >= DOUBLE_SIGN) {
            if limit > 0 {
                Some(0)
            } else {
                None
            }
        } else {
            self.index_below(limit)
        }
    }

    /// The lesser of two numbers.
    pub fn min(self, other: Double) -> (r: Double)
        ensures
            r == self.min_num(other),
    {
        if self.is_nan() || other.less_than(self) {
            other
        } else {
            self
        }
    }

    /// The greater of two numbers.
    pub fn max(self, other: Double) -> (r: Double)
        ensures
            r == self.max_num(other),
    {
        if self.is_nan() || self.less_than(other) {
            other
        } else {
            self
        }
    }

    /// The nearest number to `self` in `[low, high]`; NaN stays NaN.
    pub fn clamp(self, low: Double, high: Double) -> (r: Double)
        requires
            low.lt_num(high) || low.eq_num(high),
        ensures
            r == (if self.lt_num(low) {
                low
            } else if high.lt_num(self) {
                high
            } else {
                self
            }),
    {
        if self.less_than(low) {
            low
        } else if high.less_than(self) {
            high
        } else {
            self
        }
    }
}

proof fn lemma_below_one(m: int, shift: nat)
    requires
        0 <= m < 2 * DOUBLE_HIDDEN,
        shift >= 53,
    ensures
        m / (pow2(shift) as int) == 0,
{
    vstd::arithmetic::power2::lemma2_to64_rest();
    if shift > 53 {
        vstd::arithmetic::power2::lemma_pow2_strictly_increases(53, shift);
    }
    vstd::arithmetic::div_mod::lemma_basic_div(m, pow2(shift) as int);
}

proof fn lemma_shifted(m: int, shift: nat)
    requires
        DOUBLE_HIDDEN <= m < 2 * DOUBLE_HIDDEN,
    ensures
        shift <= 11 ==> m * pow2(shift) <= u64::MAX,
        shift > 11 ==> m * pow2(shift) > u64::MAX,
{
    vstd::arithmetic::power2::lemma2_to64();
    vstd::arithmetic::power2::lemma_pow2_pos(shift);
    if shift <= 11 {
        if shift < 11 {
            vstd::arithmetic::power2::lemma_pow2_strictly_increases(shift, 11);
        }
        assert(m * pow2(shift) <= (2 * DOUBLE_HIDDEN - 1) * 2048) by (nonlinear_arith)
            requires
                0 <= m <= 2 * DOUBLE_HIDDEN - 1,
                0 <= pow2(shift) <= 2048,
        ;
    } else {
        if shift > 12 {
            vstd::arithmetic::power2::lemma_pow2_strictly_increases(12, shift);
        }
        assert(m * pow2(shift) >= DOUBLE_HIDDEN * 4096) by (nonlinear_arith)
            requires
                m >= DOUBLE_HIDDEN,
                pow2(shift) >= 4096,
        ;
    }
}

impl Single {
    /// Whether the sign bit is set.
    pub open spec fn negative(self) -> bool {
        self.bits >= SINGLE_SIGN
    }

    /// The bits below the sign.
    pub open spec fn magnitude(self) -> int {
        if self.negative() {
            self.bits - SINGLE_SIGN
        } else {
            self.bits as int
        }
    }

    /// Not a number.
    pub open spec fn nan(self) -> bool {
        self.magnitude() > SINGLE_INFINITY
    }

    /// Neither infinite nor NaN.
    pub open spec fn finite(self) -> bool {
        self.magnitude() < SINGLE_INFINITY
    }

    /// A number's place on the number line.
    pub open spec fn rank(self) -> int {
        if self.negative() {
            -self.magnitude()
        } else {
            self.magnitude()
        }
    }

    /// Numeric equality: false for NaN, true for the two zeros.
    pub open spec fn eq_num(self, other: Single) -> bool {
        !self.nan() && !other.nan() && self.rank() == other.rank()
    }

    fn magnitude_bits(self) -> (m: u32)
        ensures
            m == self.magnitude(),
    {
        if self.bits >= SINGLE_SIGN {
            self.bits - SINGLE_SIGN
        } else {
            self.bits
        }
    }

    pub fn is_finite(self) -> (r: bool)
        ensures
            r == self.finite(),
    {
        self.magnitude_bits() < SINGLE_INFINITY
    }

    /// `==` on numbers.
    pub fn equals(self, other: Single) -> (r: bool)
        ensures
            r == self.eq_num(other),
    {
        let (a, b) = (self.magnitude_bits(), other.magnitude_bits());
        if a > SINGLE_INFINITY || b > SINGLE_INFINITY || a != b {
            false
        } else {
            a == 0 || (self.bits >= SINGLE_SIGN) == (other.bits >= SINGLE_SIGN)
        }
    }

    /// Whether the number is zero or less (false for NaN).
    pub fn not_positive(self) -> (r: bool)
        ensures
            r == (!self.nan() && self.rank() <= 0),
    {
        let m = self.magnitude_bits();
        m <= SINGLE_INFINITY && (m == 0 || self.bits >= SINGLE_SIGN)
    }
}

/// A double is laid out as IEEE 754 has it: a sign bit, eleven bits of exponent
/// and fifty-two of fraction. All ones in the exponent make it infinite, or no
/// number where the fraction is not zero; the number of a finite one is its
/// significand times two to its exponent.
pub proof fn law_doubles_are_laid_out_as_ieee_754_has_it(d: Double)
    ensures
        ({
            let sign = d.bits / 0x8000_0000_0000_0000;
            let biased = (d.bits / 0x10_0000_0000_0000) as int % 2048;
            let fraction = d.bits as int % 0x10_0000_0000_0000;
            let significand = if biased == 0 {
                fraction
            } else {
                fraction + 0x10_0000_0000_0000
            };
            &&& d.finite() <==> biased != 2047
            &&& d.nan() <==> biased == 2047 && fraction != 0
            &&& d.finite() ==> d.significand() == if sign == 1 {
                -significand
            } else {
                significand
            }
            &&& d.finite() ==> d.exponent() == if biased == 0 {
                -1074
            } else {
                biased - 1075
            }
        }),
{
}

/// The number of a magnitude, in units of the smallest double.
spec fn amount_of(magnitude: int) -> int {
    if magnitude < DOUBLE_HIDDEN {
        magnitude
    } else {
        (DOUBLE_HIDDEN + magnitude % (DOUBLE_HIDDEN as int)) * pow2(
            (magnitude / (DOUBLE_HIDDEN as int) - 1) as nat,
        )
    }
}

proof fn lemma_amounts_grow(m: int, n: int)
    requires
        0 <= m < n < DOUBLE_INFINITY,
    ensures
        0 <= amount_of(m) < amount_of(n),
{
    let h = DOUBLE_HIDDEN as int;
    if n >= h {
        let (q, r) = (n / h, n % h);
        vstd::arithmetic::power2::lemma_pow2_pos((q - 1) as nat);
        let unit = pow2((q - 1) as nat) as int;
        assert((h + r) * unit >= h * unit) by (nonlinear_arith)
            requires
                r >= 0,
                unit > 0,
        ;
        if m < h {
            assert(h * unit >= h) by (nonlinear_arith)
                requires
                    unit >= 1,
                    h > 0,
            ;
        } else {
            let (p, s) = (m / h, m % h);
            vstd::arithmetic::power2::lemma_pow2_pos((p - 1) as nat);
            let below = pow2((p - 1) as nat) as int;
            assert((h + s) * below > 0) by (nonlinear_arith)
                requires
                    h > 0,
                    s >= 0,
                    below > 0,
            ;
            if p == q {
                assert((h + s) * unit < (h + r) * unit) by (nonlinear_arith)
                    requires
                        s < r,
                        unit > 0,
                ;
            } else {
                vstd::arithmetic::power2::lemma_pow2_unfold(p as nat);
                if p < q - 1 {
                    vstd::arithmetic::power2::lemma_pow2_strictly_increases(
                        p as nat,
                        (q - 1) as nat,
                    );
                }
                assert(2 * below <= unit);
                assert((h + s) * below < h * unit) by (nonlinear_arith)
                    requires
                        0 <= s < h,
                        0 < below,
                        2 * below <= unit,
                ;
            }
        }
    }
}

proof fn lemma_amount_of_a_double(d: Double)
    requires
        d.finite(),
    ensures
        d.significand() * pow2((d.exponent() + 1074) as nat) == if d.negative() {
            -amount_of(d.magnitude())
        } else {
            amount_of(d.magnitude())
        },
{
    vstd::arithmetic::power2::lemma2_to64();
    let unit = pow2((d.exponent() + 1074) as nat) as int;
    let m = if d.negative() {
        -d.significand()
    } else {
        d.significand()
    };
    if d.magnitude() < DOUBLE_HIDDEN {
        assert(m * 1 == m);
    } else {
        assert(d.exponent() + 1074 == d.magnitude() / (DOUBLE_HIDDEN as int) - 1);
    }
    assert((-m) * unit == -(m * unit)) by (nonlinear_arith);
}

/// Finite doubles are compared as the numbers that they are, in units of
/// `2^-1074`.
pub proof fn law_doubles_compare_as_numbers(a: Double, b: Double)
    requires
        a.finite(),
        b.finite(),
    ensures
        ({
            let x = a.significand() * pow2((a.exponent() + 1074) as nat);
            let y = b.significand() * pow2((b.exponent() + 1074) as nat);
            &&& a.lt_num(b) <==> x < y
            &&& a.eq_num(b) <==> x == y
        }),
{
    lemma_amount_of_a_double(a);
    lemma_amount_of_a_double(b);
    let (m, n) = (a.magnitude(), b.magnitude());
    assert(amount_of(0) == 0);
    if m > 0 {
        lemma_amounts_grow(0, m);
    }
    if n > 0 {
        lemma_amounts_grow(0, n);
    }
    if m < n {
        lemma_amounts_grow(m, n);
    }
    if n < m {
        lemma_amounts_grow(n, m);
    }
}

/// What is no number is neither equal to anything nor less; an infinity is
/// beyond all finite doubles of its sign.
pub proof fn law_the_ends_of_the_line(a: Double, b: Double)
    ensures
        a.nan() || b.nan() ==> !a.eq_num(b) && !a.lt_num(b) && !b.lt_num(a),
        a.bits == 0x7FF0_0000_0000_0000 && b.finite() ==> b.lt_num(a) && !a.eq_num(b),
        a.bits == 0xFFF0_0000_0000_0000 && b.finite() ==> a.lt_num(b) && !a.eq_num(b),
        !a.nan() ==> a.eq_num(a),
        a.rank() >= 0 <==> a.bits <= 0x8000_0000_0000_0000,
        a.rank() == 0 <==> a.bits == 0 || a.bits == 0x8000_0000_0000_0000,
{
}

/// Of two numbers the lesser and the greater are the two, in order; where one
/// is no number both are the other.
pub proof fn law_lesser_and_greater(a: Double, b: Double)
    ensures
        !a.nan() && !b.nan() ==> {
            &&& a.min_num(b) == a || a.min_num(b) == b
            &&& a.max_num(b) == a || a.max_num(b) == b
            &&& !a.lt_num(a.min_num(b)) && !b.lt_num(a.min_num(b))
            &&& !a.max_num(b).lt_num(a) && !a.max_num(b).lt_num(b)
        },
        a.nan() ==> a.min_num(b) == b && a.max_num(b) == b,
        b.nan() && !a.nan() ==> a.min_num(b) == a && a.max_num(b) == a,
{
}

/// The integer part of a number is the greatest integer that is not above it.
pub proof fn law_the_integer_part_is_not_above(d: Double)
    requires
        d.finite(),
        d.rank() >= 0,
    ensures
        d.floor() >= 0,
        d.exponent() >= 0 ==> d.floor() == d.significand() * pow2(d.exponent() as nat),
        d.exponent() < 0 ==> {
            let unit = pow2((-d.exponent()) as nat);
            d.floor() * unit <= d.significand() < (d.floor() + 1) * unit
        },
{
    d.lemma_floor_not_negative();
    if d.exponent() < 0 {
        let unit = pow2((-d.exponent()) as nat) as int;
        vstd::arithmetic::power2::lemma_pow2_pos((-d.exponent()) as nat);
        vstd::arithmetic::div_mod::lemma_fundamental_div_mod(d.significand(), unit);
        vstd::arithmetic::div_mod::lemma_mod_bound(d.significand(), unit);
        let f = d.floor();
        assert(unit * f == f * unit) by (nonlinear_arith);
        assert((f + 1) * unit == f * unit + unit) by (nonlinear_arith);
    }
}

/// An index below a limit is the integer part of a finite number that is not
/// negative, and there is one wherever that integer part is below the limit. A
/// column or row is the same, but what is negative or no number counts as the
/// first.
pub proof fn law_indices_and_places(d: Double, limit: int)
    ensures
        d.floor_below(limit) is Some <==> d.finite() && d.rank() >= 0 && d.floor() < limit,
        d.floor_below(limit) matches Some(i) ==> i == d.floor(),
        d.nan() || d.rank() < 0 ==> d.place_below(limit) == if limit > 0 {
            Some(0int)
        } else {
            None
        },
        !d.nan() && d.rank() >= 0 ==> d.place_below(limit) == d.floor_below(limit),
{
}

/// A single is laid out as IEEE 754 has it; two that are numbers are equal
/// where their bits are, or where both are zero.
pub proof fn law_singles_are_laid_out_as_ieee_754_has_it(a: Single, b: Single)
    ensures
        ({
            let biased = (a.bits / 0x80_0000) as int % 256;
            let fraction = a.bits as int % 0x80_0000;
            &&& a.finite() <==> biased != 255
            &&& a.nan() <==> biased == 255 && fraction != 0
        }),
        a.eq_num(b) <==> !a.nan() && !b.nan() && (a.bits == b.bits || (a.bits as int % 0x8000_0000
            == 0 && b.bits as int % 0x8000_0000 == 0)),
        a.rank() < 0 <==> a.bits > 0x8000_0000,
        a.rank() == 0 <==> a.bits as int % 0x8000_0000 == 0,
{
}

/// Points are equal where both their coordinates are.
pub proof fn law_points_are_equal_in_both_coordinates(a: Point, b: Point)
    ensures
        a.eq_num(b) <==> a.x.eq_num(b.x) && a.y.eq_num(b.y),
{
}

/// A point of the plane.
#[derive(Clone, Copy, Debug, PartialEq, Eq, Structural)]
pub struct Point {
    pub x: Double,
    pub y: Double,
}

impl Point {
    /// Numeric equality of both coordinates.
    pub open spec fn eq_num(self, other: Point) -> bool {
        self.x.eq_num(other.x) && self.y.eq_num(other.y)
    }

    /// `==` on the coordinates.
    pub fn equals(self, other: Point) -> (r: bool)
        ensures
            r == self.eq_num(other),
    {
        self.x.equals(other.x) && self.y.equals(other.y)
    }
}

} // verus!
