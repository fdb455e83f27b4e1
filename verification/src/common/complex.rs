use vstd::prelude::*;
use crate::scalar::{Real, Scalar};

verus! {

/// A complex number in Cartesian form.
#[derive(Clone, Copy, Debug, PartialEq)]
pub struct Complex<T> {
    /// Real part.
    pub re: T,
    /// Imaginary part.
    pub im: T,
}

impl<T: Real> Complex<T> {
    pub fn new(re: T, im: T) -> (r: Self)
        ensures
            r == (Complex { re, im }),
    {
        Complex { re, im }
    }

    /// The complex conjugate `re - i im`.
    pub open spec fn conj_spec(self) -> Self {
        Complex { re: self.re, im: self.im.neg_spec() }
    }

    pub fn conj(self) -> (r: Self)
        ensures
            r == self.conj_spec(),
    {
        Complex { re: self.re, im: self.im.neg() }
    }

    /// The difference `self - rhs`, part by part.
    pub open spec fn minus_spec(self, rhs: Self) -> Self {
        Complex { re: self.re.minus_spec(rhs.re), im: self.im.minus_spec(rhs.im) }
    }

    pub fn minus(self, rhs: Self) -> (r: Self)
        ensures
            r == self.minus_spec(rhs),
    {
        Complex { re: self.re.minus(rhs.re), im: self.im.minus(rhs.im) }
    }

    /// `self` multiplied by the real number `t`.
    pub open spec fn scale_spec(self, t: T) -> Self {
        Complex { re: self.re.times_spec(t), im: self.im.times_spec(t) }
    }

    pub fn scale(self, t: T) -> (r: Self)
        ensures
            r == self.scale_spec(t),
    {
        Complex { re: self.re.times(t), im: self.im.times(t) }
    }

    /// `self` divided by the real number `t`.
    pub open spec fn unscale_spec(self, t: T) -> Self {
        Complex { re: self.re.over_spec(t), im: self.im.over_spec(t) }
    }

    pub fn unscale(self, t: T) -> (r: Self)
        ensures
            r == self.unscale_spec(t),
    {
        Complex { re: self.re.over(t), im: self.im.over(t) }
    }

    /// The modulus `|re + i im|`.
    pub open spec fn norm_spec(self) -> T {
        self.re.hypot_spec(self.im)
    }

    pub fn norm(self) -> (r: T)
        ensures
            r == self.norm_spec(),
    {
        self.re.hypot(self.im)
    }

    /// The taxicab magnitude `|re| + |im|`.
    pub open spec fn l1_norm_spec(self) -> T {
        self.re.abs_spec().plus_spec(self.im.abs_spec())
    }

    pub fn l1_norm(self) -> (r: T)
        ensures
            r == self.l1_norm_spec(),
    {
        self.re.abs().plus(self.im.abs())
    }
}

impl<T: Real> Scalar for Complex<T> {
    open spec fn zero_spec() -> Self {
        Complex { re: T::zero_spec(), im: T::zero_spec() }
    }

    open spec fn plus_spec(self, rhs: Self) -> Self {
        Complex { re: self.re.plus_spec(rhs.re), im: self.im.plus_spec(rhs.im) }
    }

    open spec fn times_spec(self, rhs: Self) -> Self {
        Complex {
            re: self.re.times_spec(rhs.re).minus_spec(self.im.times_spec(rhs.im)),
            im: self.re.times_spec(rhs.im).plus_spec(self.im.times_spec(rhs.re)),
        }
    }

    fn zero() -> (r: Self) {
        Complex { re: T::zero(), im: T::zero() }
    }

    fn plus(self, rhs: Self) -> (r: Self) {
        Complex { re: self.re.plus(rhs.re), im: self.im.plus(rhs.im) }
    }

    fn times(self, rhs: Self) -> (r: Self) {
        Complex {
            re: self.re.times(rhs.re).minus(self.im.times(rhs.im)),
            im: self.re.times(rhs.im).plus(self.im.times(rhs.re)),
        }
    }
}

/// Whether the real products and the one real sum that the complex
/// products `a * b` and `b * a` are made of come out the same in either
/// order. This asks nothing of numbers other than the parts of `a` and `b`.
pub open spec fn parts_commute<T: Real>(a: Complex<T>, b: Complex<T>) -> bool {
    &&& a.re.times_spec(b.re) == b.re.times_spec(a.re)
    &&& a.im.times_spec(b.im) == b.im.times_spec(a.im)
    &&& a.re.times_spec(b.im) == b.im.times_spec(a.re)
    &&& a.im.times_spec(b.re) == b.re.times_spec(a.im)
    &&& a.re.times_spec(b.im).plus_spec(a.im.times_spec(b.re)) == a.im.times_spec(b.re).plus_spec(
        a.re.times_spec(b.im),
    )
}

/// Two complex numbers whose parts commute commute themselves.
pub proof fn lemma_complex_times_commutes<T: Real>(a: Complex<T>, b: Complex<T>)
    requires
        parts_commute(a, b),
    ensures
        a.times_spec(b) == b.times_spec(a),
{
}

} // verus!
