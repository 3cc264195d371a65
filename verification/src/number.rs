//! Seconds and opacities as the bit patterns of IEEE 754 numbers, with the
//! comparisons that the overlay's decisions rest on.
//!
//! The overlay never computes with these numbers itself. It carries them,
//! compares them, and asks for an arithmetic result where it needs one.

use vstd::prelude::*;
use vstd::arithmetic::power2::{
    lemma2_to64, lemma_pow2_adds, lemma_pow2_pos, lemma_pow2_strictly_increases, pow2,
};

verus! {

/// A single-precision number, by its bit pattern.
///
/// The derived `==` compares bit patterns; [`Single::equals`] compares numbers.
#[derive(Clone, Copy, Debug, PartialEq, Eq, Structural)]
pub struct Single {
    pub bits: u32,
}

/// A double-precision number, by its bit pattern.
///
/// The derived `==` compares bit patterns; [`Double::less`] and
/// [`Double::at_most`] compare numbers.
#[derive(Clone, Copy, Debug, PartialEq, Eq, Structural)]
pub struct Double {
    pub bits: u64,
}

/// The absolute value of a number with the bit pattern `magnitude` below its
/// sign bit, in units of the smallest positive number of its format.
///
/// `unit` is one more than the largest fraction field. Every finite number is a
/// whole count of that smallest number. The pattern of infinity comes out above
/// every finite number.
pub open spec fn absolute(magnitude: int, unit: int) -> int {
    let exponent = magnitude / unit;
    let fraction = magnitude % unit;
    if exponent == 0 {
        fraction
    } else {
        (unit + fraction) * pow2((exponent - 1) as nat)
    }
}

/// A larger bit pattern below the sign bit is a larger absolute value.
pub proof fn lemma_absolute_increases(smaller: int, larger: int, unit: int)
    requires
        0 <= smaller < larger,
        0 < unit,
    ensures
        absolute(smaller, unit) < absolute(larger, unit),
{
    let (e, f) = (smaller / unit, smaller % unit);
    let (g, h) = (larger / unit, larger % unit);
    assert(0 <= e <= g && 0 <= f < unit && 0 <= h < unit && (e == g ==> f < h)) by (nonlinear_arith)
        requires
            0 <= smaller < larger,
            0 < unit,
            e == smaller / unit,
            f == smaller % unit,
            g == larger / unit,
            h == larger % unit,
    ;
    lemma2_to64();
    if e == g {
        if e > 0 {
            let p = pow2((e - 1) as nat) as int;
            lemma_pow2_pos((e - 1) as nat);
            assert((unit + f) * p < (unit + h) * p) by (nonlinear_arith)
                requires
                    f < h,
                    0 < p,
            ;
        }
    } else {
        let q = pow2((g - 1) as nat) as int;
        lemma_pow2_pos((g - 1) as nat);
        assert(unit * q <= (unit + h) * q) by (nonlinear_arith)
            requires
                0 <= h,
                0 < q,
        ;
        if e == 0 {
            assert(unit <= unit * q) by (nonlinear_arith)
                requires
                    0 < unit,
                    1 <= q,
            ;
        } else {
            let p = pow2((e - 1) as nat) as int;
            lemma_pow2_pos((e - 1) as nat);
            lemma_pow2_adds(1, (e - 1) as nat);
            if e < g - 1 {
                lemma_pow2_strictly_increases(e as nat, (g - 1) as nat);
            }
            assert((unit + f) * p < unit * q) by (nonlinear_arith)
                requires
                    0 <= f < unit,
                    0 < p,
                    2 * p <= q,
            ;
        }
    }
}

impl Single {
    pub open spec fn negative(self) -> bool {
        self.bits >= 0x8000_0000
    }

    pub open spec fn magnitude(self) -> int {
        if self.negative() {
            self.bits - 0x8000_0000
        } else {
            self.bits as int
        }
    }

    pub open spec fn is_nan(self) -> bool {
        self.magnitude() > 0x7f80_0000
    }

    /// The number in units of the smallest positive single-precision number.
    pub open spec fn value(self) -> int {
        if self.negative() {
            -absolute(self.magnitude(), 0x80_0000)
        } else {
            absolute(self.magnitude(), 0x80_0000)
        }
    }

    /// A whole number that orders the patterns as they order as numbers.
    pub open spec fn rank(self) -> int {
        if self.negative() {
            -self.magnitude()
        } else {
            self.magnitude()
        }
    }

    /// Whether both are numbers, and the same one.
    pub open spec fn is_equal(self, other: Single) -> bool {
        !self.is_nan() && !other.is_nan() && self.rank() == other.rank()
    }

    /// Positive zero.
    pub fn zero() -> (zero: Single)
        ensures
            zero == (Single { bits: 0 }),
    {
        Single { bits: 0 }
    }

    /// The part of the bit pattern below the sign bit.
    fn unsigned(self) -> (magnitude: u32)
        ensures
            magnitude == self.magnitude(),
            magnitude < 0x8000_0000,
    {
        if self.bits >= 0x8000_0000 {
            self.bits - 0x8000_0000
        } else {
            self.bits
        }
    }

    /// `self == other` as numbers: the two zeros are equal, and a pattern that
    /// is not a number equals nothing.
    pub fn equals(self, other: Single) -> (equal: bool)
        ensures
            equal == self.is_equal(other),
            equal == (!self.is_nan() && !other.is_nan() && self.value() == other.value()),
    {
        let a: u32 = self.unsigned();
        let b: u32 = other.unsigned();
        proof {
            lemma_single_rank_orders(self, other);
            lemma_single_rank_orders(other, self);
        }
        a <= 0x7f80_0000 && b <= 0x7f80_0000 && (self.bits == other.bits || (a == 0 && b == 0))
    }
}

/// Ranks order the single-precision patterns as the numbers they stand for.
pub proof fn lemma_single_rank_orders(a: Single, b: Single)
    ensures
        (a.value() < b.value()) == (a.rank() < b.rank()),
{
    lemma_signed_increases(a.magnitude(), b.magnitude(), 0x80_0000);
}

/// Where absolute values and bit patterns order alike, so do their negatives.
proof fn lemma_signed_increases(m: int, n: int, unit: int)
    requires
        0 <= m,
        0 <= n,
        0 < unit,
    ensures
        absolute(0, unit) == 0,
        0 < m ==> 0 < absolute(m, unit),
        0 < n ==> 0 < absolute(n, unit),
        (absolute(m, unit) < absolute(n, unit)) == (m < n),
        (absolute(n, unit) < absolute(m, unit)) == (n < m),
{
    assert(0int / unit == 0 && 0int % unit == 0) by (nonlinear_arith)
        requires
            0 < unit,
    ;
    if m > 0 {
        lemma_absolute_increases(0, m, unit);
    }
    if n > 0 {
        lemma_absolute_increases(0, n, unit);
    }
    if m < n {
        lemma_absolute_increases(m, n, unit);
    } else if n < m {
        lemma_absolute_increases(n, m, unit);
    }
}

impl Double {
    pub open spec fn negative(self) -> bool {
        self.bits >= 0x8000_0000_0000_0000
    }

    pub open spec fn magnitude(self) -> int {
        if self.negative() {
            self.bits - 0x8000_0000_0000_0000
        } else {
            self.bits as int
        }
    }

    pub open spec fn is_nan(self) -> bool {
        self.magnitude() > 0x7ff0_0000_0000_0000
    }

    /// The number in units of the smallest positive double-precision number.
    pub open spec fn value(self) -> int {
        if self.negative() {
            -absolute(self.magnitude(), 0x10_0000_0000_0000)
        } else {
            absolute(self.magnitude(), 0x10_0000_0000_0000)
        }
    }

    /// A whole number that orders the patterns as they order as numbers.
    pub open spec fn rank(self) -> int {
        if self.negative() {
            -self.magnitude()
        } else {
            self.magnitude()
        }
    }

    /// Whether both are numbers, and `self` is the smaller.
    pub open spec fn is_less(self, other: Double) -> bool {
        !self.is_nan() && !other.is_nan() && self.rank() < other.rank()
    }

    /// Whether both are numbers, and `self` is not the larger.
    pub open spec fn is_at_most(self, other: Double) -> bool {
        !self.is_nan() && !other.is_nan() && self.rank() <= other.rank()
    }

    /// Whether `self` is a number that is zero or below.
    pub open spec fn is_at_most_zero(self) -> bool {
        !self.is_nan() && self.rank() <= 0
    }

    /// Positive zero.
    pub fn zero() -> (zero: Double)
        ensures
            zero == (Double { bits: 0 }),
    {
        Double { bits: 0 }
    }

    /// The part of the bit pattern below the sign bit.
    fn unsigned(self) -> (magnitude: u64)
        ensures
            magnitude == self.magnitude(),
            magnitude < 0x8000_0000_0000_0000,
    {
        if self.bits >= 0x8000_0000_0000_0000 {
            self.bits - 0x8000_0000_0000_0000
        } else {
            self.bits
        }
    }

    /// The rank of a pattern.
    fn to_rank(self) -> (rank: i128)
        ensures
            rank == self.rank(),
    {
        let magnitude: u64 = self.unsigned();
        if self.bits >= 0x8000_0000_0000_0000 {
            -(magnitude as i128)
        } else {
            magnitude as i128
        }
    }

    /// `self < other` as numbers.
    pub fn less(self, other: Double) -> (less: bool)
        ensures
            less == self.is_less(other),
            less == (!self.is_nan() && !other.is_nan() && self.value() < other.value()),
    {
        proof {
            lemma_double_rank_orders(self, other);
        }
        self.unsigned() <= 0x7ff0_0000_0000_0000 && other.unsigned() <= 0x7ff0_0000_0000_0000
            && self.to_rank() < other.to_rank()
    }

    /// `self <= other` as numbers.
    pub fn at_most(self, other: Double) -> (at_most: bool)
        ensures
            at_most == self.is_at_most(other),
            at_most == (!self.is_nan() && !other.is_nan() && self.value() <= other.value()),
    {
        proof {
            lemma_double_rank_orders(self, other);
            lemma_double_rank_orders(other, self);
        }
        self.unsigned() <= 0x7ff0_0000_0000_0000 && other.unsigned() <= 0x7ff0_0000_0000_0000
            && self.to_rank() <= other.to_rank()
    }

    /// `self <= 0` as a number.
    pub fn at_most_zero(self) -> (at_most: bool)
        ensures
            at_most == self.is_at_most_zero(),
            at_most == (!self.is_nan() && self.value() <= 0),
    {
        assert(absolute(0, 0x10_0000_0000_0000) == 0);
        self.at_most(Double::zero())
    }
}

/// Ranks order the double-precision patterns as the numbers they stand for.
pub proof fn lemma_double_rank_orders(a: Double, b: Double)
    ensures
        (a.value() < b.value()) == (a.rank() < b.rank()),
{
    lemma_signed_increases(a.magnitude(), b.magnitude(), 0x10_0000_0000_0000);
}

/// Two single-precision patterns are the same number where they are the same
/// pattern, or both are a zero. A pattern above that of infinity, its sign bit left
/// out, is no number.
pub proof fn lemma_singles_are_equal_by_their_bits(a: Single, b: Single)
    ensures
        a.is_nan() == (a.bits % 0x8000_0000 > 0x7f80_0000),
        a.is_equal(b) == {
            &&& a.bits % 0x8000_0000 <= 0x7f80_0000
            &&& b.bits % 0x8000_0000 <= 0x7f80_0000
            &&& a.bits == b.bits || (a.bits % 0x8000_0000 == 0 && b.bits % 0x8000_0000 == 0)
        },
{
}

/// Two double-precision patterns are in the order of their bits where both are
/// positive, and in the opposite order where both are negative. A negative number
/// is below a positive one, but for the two zeros. A pattern above that of infinity,
/// its sign bit left out, is no number, and neither below nor above any.
pub proof fn lemma_doubles_are_ordered_by_their_bits(a: Double, b: Double)
    ensures
        a.is_nan() == (a.bits % 0x8000_0000_0000_0000 > 0x7ff0_0000_0000_0000),
        a.is_nan() || b.is_nan() ==> !a.is_less(b) && !a.is_at_most(b),
        a.is_nan() ==> !a.is_at_most_zero(),
        !a.is_nan() && !b.is_nan() ==> {
            let below = if a.bits < 0x8000_0000_0000_0000 {
                b.bits < 0x8000_0000_0000_0000 && a.bits < b.bits
            } else if b.bits < 0x8000_0000_0000_0000 {
                a.bits > 0x8000_0000_0000_0000 || b.bits > 0
            } else {
                b.bits < a.bits
            };
            &&& a.is_less(b) == below
            &&& a.is_at_most(b) == !b.is_less(a)
            &&& a.is_at_most_zero() == (a.bits >= 0x8000_0000_0000_0000 || a.bits == 0)
        },
{
}

} // verus!
