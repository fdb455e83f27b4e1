//! The Euclidean norm.
use vstd::prelude::*;
use crate::common::BlasInt;
use crate::scalar::{squared, Real, Scalar};
use crate::stride::{extent, offset, Cursor};

verus! {

/// The scaled sum of squares `(scale, ssq)` of the first `i` logical
/// elements of `x`, for which `scale * sqrt(ssq)` is their norm.
///
/// It starts as `(0, 1)`. An element equal to zero changes nothing. An
/// element whose magnitude `a` exceeds `scale` becomes the new scale, with
/// `ssq` brought to it: `1 + ssq * (scale / a)^2`. Any other adds
/// `(a / scale)^2` to `ssq`.
pub open spec fn nrm2_prefix<T: Real>(x: Seq<T>, inc: int, n: int, i: int) -> (T, T)
    decreases i,
{
    if i <= 0 {
        (T::zero_spec(), T::one_spec())
    } else {
        let (scale, ssq) = nrm2_prefix(x, inc, n, i - 1);
        let xi = x[offset(n, inc, i - 1)];
        let a = xi.abs_spec();
        if xi.is_eq_spec(T::zero_spec()) {
            (scale, ssq)
        } else if scale.is_lt_spec(a) {
            (a, T::one_spec().plus_spec(ssq.times_spec(squared(scale.over_spec(a)))))
        } else {
            (scale, ssq.plus_spec(squared(a.over_spec(scale))))
        }
    }
}

/// The Euclidean norm of the `n` logical elements of `x`: zero when `n` or
/// the increment is not positive, the magnitude of the element when there
/// is one, and else `scale * sqrt(ssq)` of the scaled sum of squares.
pub open spec fn nrm2<T: Real>(x: Seq<T>, inc: int, n: int) -> T {
    if n < 1 || inc < 1 {
        T::zero_spec()
    } else if n == 1 {
        x[0].abs_spec()
    } else {
        let (scale, ssq) = nrm2_prefix(x, inc, n, n);
        scale.times_spec(ssq.sqrt_spec())
    }
}

/// Computes the Euclidean norm of the `n` logical elements of `x` without
/// squaring any element itself, so that neither a very large nor a very
/// small element is lost.
pub fn sd_nrm2<T: Real>(n: BlasInt, x: &[T], inc_x: BlasInt) -> (r: T)
    requires
        n > 0 && inc_x > 0 ==> extent(n as int, inc_x as int) <= x@.len(),
    ensures
        r == nrm2(x@, inc_x as int, n as int),
{
    let zero = T::zero();
    let one = T::one();
    if n < 1 || inc_x < 1 {
        return zero;
    }
    if n == 1 {
        return x[0].abs();
    }
    let mut scale = zero;
    let mut ssq = one;
    let mut cx = Cursor::first(x, n, inc_x);
    while cx.i < n
        invariant
            cx.walks(n as int, inc_x as int),
            x@.len() >= extent(n as int, inc_x as int),
            zero == T::zero_spec(),
            one == T::one_spec(),
            (scale, ssq) == nrm2_prefix(x@, inc_x as int, n as int, cx.i as int),
        decreases n - cx.i,
    {
        let xi = cx.get(x);
        if !xi.is_eq(zero) {
            let abs_xi = xi.abs();
            if scale.is_lt(abs_xi) {
                let q = scale.over(abs_xi);
                ssq = one.plus(ssq.times(q.times(q)));
                scale = abs_xi;
            } else {
                let q = abs_xi.over(scale);
                ssq = ssq.plus(q.times(q));
            }
        }
        cx.step();
    }
    scale.times(ssq.sqrt())
}

} // verus!
