//! The numeric domain over which the kernels are written.
//!
//! A kernel never looks inside an element. It combines elements through the
//! operations below, and its contract names each result by the matching
//! `_spec` function, in the order in which the operations are applied. What a
//! contract says of a numeric type therefore rests on that type's
//! implementation: each operation has to be a function of its operands, and
//! has to return what its `_spec` function names.
use vstd::prelude::*;

verus! {

/// An element that can be added and multiplied: a real or a complex number.
pub trait Scalar: Copy {
    /// The additive identity.
    spec fn zero_spec() -> Self;

    /// The sum `self + rhs`.
    spec fn plus_spec(self, rhs: Self) -> Self;

    /// The product `self * rhs`.
    spec fn times_spec(self, rhs: Self) -> Self;

    fn zero() -> (r: Self)
        ensures
            r == Self::zero_spec(),
    ;

    fn plus(self, rhs: Self) -> (r: Self)
        ensures
            r == self.plus_spec(rhs),
    ;

    fn times(self, rhs: Self) -> (r: Self)
        ensures
            r == self.times_spec(rhs),
    ;
}

/// A real number: an ordered element with division, magnitudes and roots.
///
/// The comparisons are those of the element type; nothing here asks them to
/// be total, so a type may hold values that compare with nothing.
pub trait Real: Scalar {
    /// The multiplicative identity.
    spec fn one_spec() -> Self;

    /// The element nearest to `digits * 10^exponent`.
    spec fn from_decimal_spec(digits: i32, exponent: i32) -> Self;

    /// The difference `self - rhs`.
    spec fn minus_spec(self, rhs: Self) -> Self;

    /// The quotient `self / rhs`.
    spec fn over_spec(self, rhs: Self) -> Self;

    /// The negation `-self`.
    spec fn neg_spec(self) -> Self;

    /// The absolute value.
    spec fn abs_spec(self) -> Self;

    /// The square root.
    spec fn sqrt_spec(self) -> Self;

    /// The sign: one or its negation.
    spec fn signum_spec(self) -> Self;

    /// The length of the hypotenuse of a right triangle with legs `self`
    /// and `rhs`. Like every operation it has to be a function of its
    /// operands; a routine whose result may differ from call to call or
    /// from machine to machine does not provide it.
    spec fn hypot_spec(self, rhs: Self) -> Self;

    /// Whether `self` equals `rhs` as a number.
    spec fn is_eq_spec(self, rhs: Self) -> bool;

    /// Whether `self` is less than `rhs`.
    spec fn is_lt_spec(self, rhs: Self) -> bool;

    /// Whether `self` is less than or equal to `rhs`.
    spec fn is_le_spec(self, rhs: Self) -> bool;

    fn one() -> (r: Self)
        ensures
            r == Self::one_spec(),
    ;

    fn from_decimal(digits: i32, exponent: i32) -> (r: Self)
        ensures
            r == Self::from_decimal_spec(digits, exponent),
    ;

    fn minus(self, rhs: Self) -> (r: Self)
        ensures
            r == self.minus_spec(rhs),
    ;

    fn over(self, rhs: Self) -> (r: Self)
        ensures
            r == self.over_spec(rhs),
    ;

    fn neg(self) -> (r: Self)
        ensures
            r == self.neg_spec(),
    ;

    fn abs(self) -> (r: Self)
        ensures
            r == self.abs_spec(),
    ;

    fn sqrt(self) -> (r: Self)
        ensures
            r == self.sqrt_spec(),
    ;

    fn signum(self) -> (r: Self)
        ensures
            r == self.signum_spec(),
    ;

    fn hypot(self, rhs: Self) -> (r: Self)
        ensures
            r == self.hypot_spec(rhs),
    ;

    fn is_eq(self, rhs: Self) -> (r: bool)
        ensures
            r == self.is_eq_spec(rhs),
    ;

    fn is_lt(self, rhs: Self) -> (r: bool)
        ensures
            r == self.is_lt_spec(rhs),
    ;

    fn is_le(self, rhs: Self) -> (r: bool)
        ensures
            r == self.is_le_spec(rhs),
    ;
}

/// A real number that has a wider companion type, in which sums can be
/// accumulated before the result is brought back.
pub trait Widen: Real {
    type Wide: Real;

    /// `self` in the wider type.
    spec fn widen_spec(self) -> Self::Wide;

    /// The element nearest to `wide`.
    spec fn narrow_spec(wide: Self::Wide) -> Self;

    fn widen(self) -> (r: Self::Wide)
        ensures
            r == self.widen_spec(),
    ;

    fn narrow(wide: Self::Wide) -> (r: Self)
        ensures
            r == Self::narrow_spec(wide),
    ;
}

/// The square `x * x`.
pub open spec fn squared<T: Scalar>(x: T) -> T {
    x.times_spec(x)
}

} // verus!
