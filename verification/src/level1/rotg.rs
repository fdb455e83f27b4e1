//! Construction of a plane rotation.
use vstd::prelude::*;
use crate::common::Complex;
use crate::scalar::{squared, Real, Scalar};

verus! {

/// What the construction of a real rotation gives: the length `r`, the
/// number `z` from which the rotation can be recovered, the cosine and
/// the sine.
///
/// `z` is the sine where the first coordinate is the larger one, so that
/// the cosine is `sqrt(1 - z^2)`; it is the reciprocal of the cosine where
/// the first coordinate is not the larger one and the cosine is not zero;
/// and it is 1 where the cosine is zero, the sine then being 1.
#[derive(Clone, Copy, Debug, PartialEq)]
pub struct Givens<T> {
    pub r: T,
    pub z: T,
    pub c: T,
    pub s: T,
}

/// The rotation that takes `(a, b)` to `(r, 0)`.
///
/// With `scale = |a| + |b|`: a scale of zero gives the identity, `c = 1`
/// and `s = 0`, with `r` and `z` zero. Otherwise
/// `r = scale * sqrt((a / scale)^2 + (b / scale)^2)` with the sign of `a`
/// where `|a| > |b|` and of `b` elsewhere, `c = a / r` and `s = b / r`.
/// `z` is `s` where `|a| > |b|`; it is `1 / c` where `|a| <= |b|` and `c`
/// is not zero; and it is 1 where `|a| <= |b|` and `c` is zero.
pub open spec fn givens<T: Real>(a: T, b: T) -> Givens<T> {
    let zero = T::zero_spec();
    let one = T::one_spec();
    let roe = if b.abs_spec().is_lt_spec(a.abs_spec()) {
        a
    } else {
        b
    };
    let scale = a.abs_spec().plus_spec(b.abs_spec());
    if scale.is_eq_spec(zero) {
        Givens { r: zero, z: zero, c: one, s: zero }
    } else {
        let r = scale.times_spec(
            squared(a.over_spec(scale)).plus_spec(squared(b.over_spec(scale))).sqrt_spec(),
        ).times_spec(roe.signum_spec());
        let c = a.over_spec(r);
        let s = b.over_spec(r);
        let z = if a.abs_spec().is_le_spec(b.abs_spec()) && !c.is_eq_spec(zero) {
            one.over_spec(c)
        } else if b.abs_spec().is_lt_spec(a.abs_spec()) {
            s
        } else {
            one
        };
        Givens { r, z, c, s }
    }
}

/// Constructs the plane rotation that zeroes the second coordinate of
/// `(a, b)`.
///
/// `a` is overwritten with `r`, `b` with `z`, and the cosine and sine are
/// written to `c` and `s`.
pub fn sd_rotg<T: Real>(a: &mut T, b: &mut T, c: &mut T, s: &mut T)
    ensures
        *final(a) == givens(*old(a), *old(b)).r,
        *final(b) == givens(*old(a), *old(b)).z,
        *final(c) == givens(*old(a), *old(b)).c,
        *final(s) == givens(*old(a), *old(b)).s,
{
    let one = T::one();
    let zero = T::zero();
    let old_a = *a;
    let old_b = *b;
    let mut roe = old_b;
    if old_b.abs().is_lt(old_a.abs()) {
        roe = old_a;
    }
    let scale = old_a.abs().plus(old_b.abs());
    if scale.is_eq(zero) {
        *c = one;
        *s = zero;
        *a = zero;
        *b = zero;
    } else {
        let qa = old_a.over(scale);
        let qb = old_b.over(scale);
        let mut r = scale.times(qa.times(qa).plus(qb.times(qb)).sqrt());
        r = r.times(roe.signum());
        *c = old_a.over(r);
        *s = old_b.over(r);
        let mut z = one;
        if old_b.abs().is_lt(old_a.abs()) {
            z = *s;
        }
        if old_a.abs().is_le(old_b.abs()) && !(*c).is_eq(zero) {
            z = one.over(*c);
        }
        *a = r;
        *b = z;
    }
}

/// What the construction of a complex rotation gives: the rotated first
/// coordinate, the real cosine and the complex sine.
#[derive(Clone, Copy, Debug, PartialEq)]
pub struct ComplexGivens<T> {
    pub r: Complex<T>,
    pub c: T,
    pub s: Complex<T>,
}

/// The rotation with real cosine and complex sine that is built from the
/// complex pair `(a, b)`.
///
/// Where the modulus of `a` is zero, the cosine is zero, the sine is one
/// and `r` is `b`. Otherwise, with `scale = |a| + |b|`,
/// `norm = scale * (|a / scale|^2 + |b / scale|^2)` and `alpha = a / norm`:
/// `c = |a| / norm`, `s = alpha * conj(b) / norm` and `r = alpha * norm`.
pub open spec fn complex_givens<T: Real>(a: Complex<T>, b: Complex<T>) -> ComplexGivens<T> {
    if a.norm_spec().is_eq_spec(T::zero_spec()) {
        ComplexGivens {
            r: b,
            c: T::zero_spec(),
            s: Complex { re: T::one_spec(), im: T::zero_spec() },
        }
    } else {
        let scale = a.norm_spec().plus_spec(b.norm_spec());
        let norm = scale.times_spec(
            squared(a.unscale_spec(scale).norm_spec()).plus_spec(
                squared(b.unscale_spec(scale).norm_spec()),
            ),
        );
        let alpha = a.unscale_spec(norm);
        ComplexGivens {
            r: alpha.scale_spec(norm),
            c: a.norm_spec().over_spec(norm),
            s: alpha.times_spec(b.conj_spec()).unscale_spec(norm),
        }
    }
}

/// Constructs a plane rotation with real cosine and complex sine from the
/// complex pair `(a, b)`.
///
/// `a` is overwritten with the rotated first coordinate, and the cosine
/// and sine are written to `c` and `s`.
pub fn cz_rotg<T: Real>(a: &mut Complex<T>, b: &Complex<T>, c: &mut T, s: &mut Complex<T>)
    ensures
        *final(a) == complex_givens(*old(a), *b).r,
        *final(c) == complex_givens(*old(a), *b).c,
        *final(s) == complex_givens(*old(a), *b).s,
{
    let zero = T::zero();
    let old_a = *a;
    if old_a.norm().is_eq(zero) {
        *c = zero;
        *s = Complex::new(T::one(), T::zero());
        *a = *b;
    } else {
        let scale = old_a.norm().plus(b.norm());
        let na = old_a.unscale(scale).norm();
        let nb = b.unscale(scale).norm();
        let norm = scale.times(na.times(na).plus(nb.times(nb)));
        let alpha = old_a.unscale(norm);
        *c = old_a.norm().over(norm);
        *s = alpha.times(b.conj()).unscale(norm);
        *a = alpha.scale(norm);
    }
}

} // verus!
