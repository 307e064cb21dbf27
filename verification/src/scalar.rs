//! Real numbers by their IEEE-754 binary32 bit pattern, and small vectors of
//! them.
use vstd::prelude::*;

verus! {

/// The bit that carries the sign of a binary32 value.
pub const SIGN_BIT: u32 = 0x8000_0000;

/// The bit pattern of positive infinity; every larger magnitude is a NaN.
pub const INFINITY_BITS: u32 = 0x7f80_0000;

/// The bit pattern of negative infinity.
pub const NEG_INFINITY_BITS: u32 = 0xff80_0000;

/// The bit pattern of `1.0`.
pub const ONE_BITS: u32 = 0x3f80_0000;

/// A binary32 floating-point number, held by its bit pattern.
///
/// `==` compares bit patterns: `+0` and `-0` differ, and a NaN equals itself.
/// The numeric order is given by [`Scalar::lt`] and [`Scalar::le`].
#[derive(Clone, Copy, Debug, PartialEq, Eq, Structural)]
pub struct Scalar {
    pub bits: u32,
}

impl Scalar {
    /// The bits without the sign.
    pub open spec fn magnitude(self) -> int {
        if self.bits >= SIGN_BIT {
            self.bits - SIGN_BIT
        } else {
            self.bits as int
        }
    }

    /// Whether the value is a NaN: all exponent bits set and a mantissa that
    /// is not zero.
    pub open spec fn is_nan(self) -> bool {
        self.magnitude() > INFINITY_BITS
    }

    /// An integer that orders the values that are no NaN as the numbers they
    /// encode are ordered; `+0` and `-0` share the rank 0.
    pub open spec fn rank(self) -> int {
        if self.bits >= SIGN_BIT {
            -self.magnitude()
        } else {
            self.magnitude()
        }
    }

    /// `self < other` as binary32 numbers: false whenever one is a NaN.
    pub open spec fn lt(self, other: Scalar) -> bool {
        !self.is_nan() && !other.is_nan() && self.rank() < other.rank()
    }

    /// `self <= other` as binary32 numbers: false whenever one is a NaN.
    pub open spec fn le(self, other: Scalar) -> bool {
        !self.is_nan() && !other.is_nan() && self.rank() <= other.rank()
    }

    /// The smaller of two numbers, ignoring a NaN: `other` where it is less
    /// than `self` or `self` is a NaN, else `self`.
    pub open spec fn spec_min(self, other: Scalar) -> Scalar {
        if other.lt(self) || self.is_nan() {
            other
        } else {
            self
        }
    }

    /// The larger of two numbers, ignoring a NaN: `other` where `self` is
    /// less than it or `self` is a NaN, else `self`.
    pub open spec fn spec_max(self, other: Scalar) -> Scalar {
        if self.lt(other) || self.is_nan() {
            other
        } else {
            self
        }
    }

    pub open spec fn spec_zero() -> Scalar {
        Scalar { bits: 0 }
    }

    /// The number with the given bit pattern.
    pub fn from_bits(bits: u32) -> (r: Scalar)
        ensures
            r.bits == bits,
    {
        Scalar { bits }
    }

    /// Positive zero.
    #[verifier::when_used_as_spec(spec_zero)]
    pub fn zero() -> (r: Scalar)
        ensures
            r == Scalar::spec_zero(),
    {
        Scalar { bits: 0 }
    }

    fn magnitude_bits(self) -> (m: u32)
        ensures
            m == self.magnitude(),
    {
        if self.bits >= SIGN_BIT {
            self.bits - SIGN_BIT
        } else {
            self.bits
        }
    }

    /// Whether the value is a NaN.
    pub fn nan(self) -> (r: bool)
        ensures
            r == self.is_nan(),
    {
        self.magnitude_bits() > INFINITY_BITS
    }

    /// Numeric `<`.
    pub fn less_than(self, other: Scalar) -> (r: bool)
        ensures
            r == self.lt(other),
    {
        if self.nan() || other.nan() {
            return false;
        }
        let a: u32 = self.magnitude_bits();
        let b: u32 = other.magnitude_bits();
        let a_neg: bool = self.bits >= SIGN_BIT;
        let b_neg: bool = other.bits >= SIGN_BIT;
        if a_neg {
            if b_neg {
                b < a
            } else {
                a > 0 || b > 0
            }
        } else {
            if b_neg {
                false
            } else {
                a < b
            }
        }
    }

    /// The smaller of two numbers, ignoring a NaN.
    #[verifier::when_used_as_spec(spec_min)]
    pub fn min(self, other: Scalar) -> (r: Scalar)
        ensures
            r == self.spec_min(other),
    {
        if other.less_than(self) || self.nan() {
            other
        } else {
            self
        }
    }

    /// The larger of two numbers, ignoring a NaN.
    #[verifier::when_used_as_spec(spec_max)]
    pub fn max(self, other: Scalar) -> (r: Scalar)
        ensures
            r == self.spec_max(other),
    {
        if self.less_than(other) || self.nan() {
            other
        } else {
            self
        }
    }
}

/// Three numbers: a point or a direction.
#[derive(Clone, Copy, Debug, PartialEq, Eq, Structural)]
pub struct Vec3 {
    pub x: Scalar,
    pub y: Scalar,
    pub z: Scalar,
}

impl Vec3 {
    pub open spec fn spec_zero() -> Vec3 {
        Vec3 { x: Scalar::spec_zero(), y: Scalar::spec_zero(), z: Scalar::spec_zero() }
    }

    /// No component is a NaN.
    pub open spec fn is_numeric(self) -> bool {
        !self.x.is_nan() && !self.y.is_nan() && !self.z.is_nan()
    }

    /// All components positive zero.
    #[verifier::when_used_as_spec(spec_zero)]
    pub fn zero() -> (r: Vec3)
        ensures
            r == Vec3::spec_zero(),
    {
        Vec3 { x: Scalar::zero(), y: Scalar::zero(), z: Scalar::zero() }
    }
}

/// A number that is known directly, or as one minus a known number.
///
/// The subtraction is binary32 arithmetic and is left to the caller.
#[derive(Clone, Copy, Debug, PartialEq, Eq, Structural)]
pub enum Value {
    /// The number itself.
    Plain(Scalar),
    /// `1 - x` for the number `x` held.
    OneMinus(Scalar),
}

} // verus!
