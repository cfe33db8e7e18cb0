//! Binary32 numbers, held by their bit patterns.
//!
//! Sign, order and negation are worked out on the bits here. Rounded
//! arithmetic and the conversions from and to integers are left to the crates
//! `softfloat` and `rustc_apfloat`; what they return is given a name and
//! nothing is proved of it beyond what is written next to each call.

use rustc_apfloat::ieee::Single;
use rustc_apfloat::Float;
use rustc_apfloat::Round;
use softfloat::F32;
use vstd::prelude::*;

verus! {

/// Bit pattern of the rounded sum of the numbers with bit patterns `a` and `b`.
pub uninterp spec fn single_add(a: u32, b: u32) -> u32;

/// Bit pattern of the rounded product of the numbers with bit patterns `a` and `b`.
pub uninterp spec fn single_mul(a: u32, b: u32) -> u32;

/// Bit pattern of the rounded quotient of the number with bit pattern `a` by
/// the one with bit pattern `b`.
pub uninterp spec fn single_div(a: u32, b: u32) -> u32;

/// Bit pattern of the rounded square root of the number with bit pattern `a`.
pub uninterp spec fn single_sqrt(a: u32) -> u32;

/// Bit pattern of the least whole number that is not below the number with
/// bit pattern `a`.
pub uninterp spec fn single_ceil(a: u32) -> u32;

/// Bit pattern of the binary32 number nearest to the integer `n`.
pub uninterp spec fn single_from_int(n: int) -> u32;

/// The number with bit pattern `a`, cut off towards zero and held to the
/// range of a 64-bit signed integer.
pub uninterp spec fn single_to_int(a: u32) -> int;

/// Bit pattern of positive zero.
pub const ZERO_BITS: u32 = 0;

/// Bit pattern of one half.
pub const HALF_BITS: u32 = 0x3f00_0000;

/// The sign bit, which is also the bit pattern of negative zero.
pub const SIGN_BIT: u32 = 0x8000_0000;

/// Bit pattern of positive infinity: every larger magnitude is not a number.
pub const INFINITY_BITS: u32 = 0x7f80_0000;

/// A binary32 number. Two scalars are equal when their bit patterns are, so
/// positive and negative zero differ here and a NaN equals itself.
#[derive(Clone, Copy, Debug, PartialEq, Eq, Structural)]
pub struct Scalar {
    pub bits: u32,
}

/// The bit pattern `a` without its sign bit.
pub open spec fn magnitude(a: u32) -> int {
    if a >= SIGN_BIT {
        a - SIGN_BIT
    } else {
        a as int
    }
}

/// Whether the bit pattern `a` stands for no number.
pub open spec fn is_nan(a: u32) -> bool {
    magnitude(a) > INFINITY_BITS
}

/// Where the number with bit pattern `a` stands among the others: larger
/// numbers have larger ranks, and both zeros have rank 0.
pub open spec fn rank(a: u32) -> int {
    if a >= SIGN_BIT {
        -magnitude(a)
    } else {
        magnitude(a)
    }
}

/// Bit pattern of the negation of the number with bit pattern `a`.
pub open spec fn negated(a: u32) -> u32 {
    if a >= SIGN_BIT {
        (a - SIGN_BIT) as u32
    } else {
        (a + SIGN_BIT) as u32
    }
}

/// Whether the number with bit pattern `a` is at most the one with bit pattern
/// `b`. Nothing is at most a NaN, and a NaN is at most nothing.
pub open spec fn at_most(a: u32, b: u32) -> bool {
    !is_nan(a) && !is_nan(b) && rank(a) <= rank(b)
}

/// Bit pattern of the difference: the sum of `a` and the negation of `b`.
pub open spec fn single_sub(a: u32, b: u32) -> u32 {
    single_add(a, negated(b))
}

/// Bit pattern of the whole number `count`, for the counts from one to nine.
pub open spec fn count_bits(count: int) -> u32 {
    if count == 1 {
        0x3f80_0000
    } else if count == 2 {
        0x4000_0000
    } else if count == 3 {
        0x4040_0000
    } else if count == 4 {
        0x4080_0000
    } else if count == 5 {
        0x40a0_0000
    } else if count == 6 {
        0x40c0_0000
    } else if count == 7 {
        0x40e0_0000
    } else if count == 8 {
        0x4100_0000
    } else {
        0x4110_0000
    }
}

/// `n` held to the range of `isize`.
pub open spec fn clamped(n: int) -> int {
    if n < isize::MIN {
        isize::MIN as int
    } else if n > isize::MAX {
        isize::MAX as int
    } else {
        n
    }
}

/// The cell coordinate nearest to the number with bit pattern `a`: one half
/// is added, and the sum is cut off towards zero and held to the range of
/// `isize`.
pub open spec fn nearest_cell(a: u32) -> int {
    clamped(single_to_int(single_add(a, HALF_BITS)))
}

/// Bit pattern of the distance between two cells that lie `dx` columns and
/// `dy` rows apart: the root of the sum of the two squares, each step rounded.
pub open spec fn cell_distance(dx: int, dy: int) -> u32 {
    let across = single_from_int(dx);
    let down = single_from_int(dy);
    single_sqrt(single_add(single_mul(across, across), single_mul(down, down)))
}

/// The sign of `n` as -1, 0 or 1.
pub open spec fn sign_of(n: int) -> int {
    if n < 0 {
        -1
    } else if n == 0 {
        0
    } else {
        1
    }
}

/// The sign of `n` as -1, 0 or 1.
pub fn signum(n: isize) -> (r: isize)
    ensures
        r == sign_of(n as int),
{
    if n < 0 {
        -1
    } else if n == 0 {
        0
    } else {
        1
    }
}

impl Scalar {
    /// Positive zero.
    pub fn zero() -> (r: Scalar)
        ensures
            r.bits == ZERO_BITS,
    {
        Scalar { bits: ZERO_BITS }
    }

    /// One half.
    pub fn half() -> (r: Scalar)
        ensures
            r.bits == HALF_BITS,
    {
        Scalar { bits: HALF_BITS }
    }

    /// A count from one to nine as a number. Written out, so that the result
    /// is known to be positive and finite.
    pub(crate) fn from_count(count: u32) -> (r: Scalar)
        requires
            1 <= count <= 9,
        ensures
            r.bits == count_bits(count as int),
            ZERO_BITS < r.bits < INFINITY_BITS,
    {
        let bits: u32 = if count == 1 {
            0x3f80_0000
        } else if count == 2 {
            0x4000_0000
        } else if count == 3 {
            0x4040_0000
        } else if count == 4 {
            0x4080_0000
        } else if count == 5 {
            0x40a0_0000
        } else if count == 6 {
            0x40c0_0000
        } else if count == 7 {
            0x40e0_0000
        } else if count == 8 {
            0x4100_0000
        } else {
            0x4110_0000
        };
        Scalar { bits }
    }

    /// The same number with the opposite sign.
    pub fn neg(self) -> (r: Scalar)
        ensures
            r.bits == negated(self.bits),
    {
        if self.bits >= SIGN_BIT {
            Scalar { bits: self.bits - SIGN_BIT }
        } else {
            Scalar { bits: self.bits + SIGN_BIT }
        }
    }

    /// Whether `self` is at most `rhs`, as numbers.
    pub fn le(self, rhs: Scalar) -> (r: bool)
        ensures
            r == at_most(self.bits, rhs.bits),
    {
        let a_negative = self.bits >= SIGN_BIT;
        let b_negative = rhs.bits >= SIGN_BIT;
        let a: u32 = if a_negative { self.bits - SIGN_BIT } else { self.bits };
        let b: u32 = if b_negative { rhs.bits - SIGN_BIT } else { rhs.bits };
        if a > INFINITY_BITS || b > INFINITY_BITS {
            false
        } else if a_negative && b_negative {
            b <= a
        } else if a_negative {
            true
        } else if b_negative {
            a == 0 && b == 0
        } else {
            a <= b
        }
    }

    /// `self - rhs`, rounded: the sum of `self` and the negation of `rhs`.
    pub fn sub(self, rhs: Scalar) -> (r: Scalar)
        ensures
            r.bits == single_sub(self.bits, rhs.bits),
    {
        self.add(rhs.neg())
    }

    /// The cell coordinate that a cast of `self` to an integer gives: cut off
    /// towards zero, held to the range of `isize`, and 0 for a NaN.
    pub fn to_coordinate(self) -> (r: isize)
        ensures
            r == clamped(single_to_int(self.bits)),
    {
        let wide = self.to_i64();
        if wide < isize::MIN as i64 {
            isize::MIN
        } else if wide > isize::MAX as i64 {
            isize::MAX
        } else {
            wide as isize
        }
    }

    /// The coordinate of the cell that holds `self`: see [`nearest_cell`].
    pub fn nearest_cell(self) -> (r: isize)
        ensures
            r == nearest_cell(self.bits),
    {
        self.add(Scalar::half()).to_coordinate()
    }

    /// The distance between two cells that lie `dx` columns and `dy` rows
    /// apart.
    pub fn cell_distance(dx: isize, dy: isize) -> (r: Scalar)
        ensures
            r.bits == cell_distance(dx as int, dy as int),
    {
        let across = Scalar::from_coordinate(dx);
        let down = Scalar::from_coordinate(dy);
        across.mul(across).add(down.mul(down)).sqrt()
    }

    /// The binary32 number nearest to a cell coordinate.
    pub fn from_coordinate(n: isize) -> (r: Scalar)
        ensures
            r.bits == single_from_int(n as int),
    {
        Scalar::from_i64(n as i64)
    }

    /// Calls `softfloat::F32::add`. The result is taken to depend on the two
    /// bit patterns alone. The one value relied on: positive zero plus
    /// positive zero is positive zero.
    #[verifier::external_body]
    pub(crate) fn add(self, rhs: Scalar) -> (r: Scalar)
        ensures
            r.bits == single_add(self.bits, rhs.bits),
            self.bits == ZERO_BITS && rhs.bits == ZERO_BITS ==> r.bits == ZERO_BITS,
    {
        Scalar { bits: F32::from_bits(self.bits).add(F32::from_bits(rhs.bits)).to_bits() }
    }

    /// Calls `softfloat::F32::mul`. The result is taken to depend on the two
    /// bit patterns alone.
    #[verifier::external_body]
    pub(crate) fn mul(self, rhs: Scalar) -> (r: Scalar)
        ensures
            r.bits == single_mul(self.bits, rhs.bits),
    {
        Scalar { bits: F32::from_bits(self.bits).mul(F32::from_bits(rhs.bits)).to_bits() }
    }

    /// Calls `softfloat::F32::div`. The result is taken to depend on the two
    /// bit patterns alone. The one value relied on: positive zero divided by
    /// a positive finite number other than zero is positive zero.
    #[verifier::external_body]
    pub(crate) fn div(self, rhs: Scalar) -> (r: Scalar)
        ensures
            r.bits == single_div(self.bits, rhs.bits),
            self.bits == ZERO_BITS && ZERO_BITS < rhs.bits < INFINITY_BITS ==> r.bits
                == ZERO_BITS,
    {
        Scalar { bits: F32::from_bits(self.bits).div(F32::from_bits(rhs.bits)).to_bits() }
    }

    /// Calls `softfloat::F32::sqrt`. The result is taken to depend on the bit
    /// pattern alone.
    #[verifier::external_body]
    pub(crate) fn sqrt(self) -> (r: Scalar)
        ensures
            r.bits == single_sqrt(self.bits),
    {
        Scalar { bits: F32::from_bits(self.bits).sqrt().to_bits() }
    }

    /// Calls `rustc_apfloat::Float::round_to_integral` for
    /// `rustc_apfloat::ieee::Single` with `Round::TowardPositive`, which rounds
    /// up to a whole number. The result is taken to depend on the bit pattern
    /// alone.
    #[verifier::external_body]
    pub(crate) fn ceil(self) -> (r: Scalar)
        ensures
            r.bits == single_ceil(self.bits),
    {
        let up = Single::from_bits(self.bits as u128).round_to_integral(Round::TowardPositive);
        Scalar { bits: up.value.to_bits() as u32 }
    }

    /// Calls `rustc_apfloat::Float::from_i128` for `rustc_apfloat::ieee::Single`,
    /// which rounds to the nearest number, ties to even. The result is taken
    /// to depend on the integer alone.
    #[verifier::external_body]
    pub(crate) fn from_i64(n: i64) -> (r: Scalar)
        ensures
            r.bits == single_from_int(n as int),
    {
        Scalar { bits: Single::from_i128(n as i128).value.to_bits() as u32 }
    }

    /// Calls `rustc_apfloat::Float::to_i128` for `rustc_apfloat::ieee::Single`
    /// with a width of 64 bits, which cuts off towards zero, gives the nearest
    /// end of the range for what lies outside it and 0 for a NaN. The result
    /// is taken to depend on the bit pattern alone.
    #[verifier::external_body]
    pub(crate) fn to_i64(self) -> (r: i64)
        ensures
            r == single_to_int(self.bits),
    {
        Single::from_bits(self.bits as u128).to_i128(64).value as i64
    }
}

/// Negating twice gives the number back.
pub proof fn lemma_neg_is_an_involution(a: u32)
    ensures
        negated(negated(a)) == a,
{
}

/// Negation turns the order round, and leaves a NaN a NaN.
pub proof fn lemma_neg_reverses_order(a: u32, b: u32)
    ensures
        is_nan(negated(a)) == is_nan(a),
        at_most(negated(a), negated(b)) == at_most(b, a),
{
}

} // verus!
