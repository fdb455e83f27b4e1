//! Kernels that multiply a vector by a number.
use vstd::prelude::*;
use crate::common::{BlasInt, Complex};
use crate::scalar::{Real, Scalar};
use crate::stride::{elementwise, extent, lemma_settled_none, offset, settled, Cursor};

verus! {

/// The logical elements of `x`, each multiplied by `alpha` from the left.
pub open spec fn scaled<T: Scalar>(alpha: T, x: Seq<T>, n: int, inc: int) -> spec_fn(int) -> T {
    |i: int| alpha.times_spec(x[offset(n, inc, i)])
}

/// The logical elements of the complex vector `x`, each multiplied by the
/// real number `alpha`.
pub open spec fn scaled_real<T: Real>(alpha: T, x: Seq<Complex<T>>, n: int, inc: int) -> spec_fn(int) -> Complex<T> {
    |i: int| x[offset(n, inc, i)].scale_spec(alpha)
}

/// Multiplies each of the `n` logical elements of `x` by `alpha`.
///
/// A negative increment is not walked: the vector is then left as it is,
/// as it is when `n` is not positive.
pub fn sd_scal<T: Scalar>(n: BlasInt, alpha: T, x: &mut [T], inc_x: BlasInt)
    requires
        n > 0 ==> inc_x != 0,
        inc_x > 0 ==> extent(n as int, inc_x as int) <= old(x)@.len(),
    ensures
        n <= 0 || inc_x <= 0 ==> final(x)@ == old(x)@,
        inc_x > 0 ==> elementwise(
            old(x)@,
            final(x)@,
            n as int,
            inc_x as int,
            scaled(alpha, old(x)@, n as int, inc_x as int),
        ),
{
    let ghost x0 = x@;
    let ghost f = scaled(alpha, x0, n as int, inc_x as int);
    proof {
        lemma_settled_none(x0, n as int, inc_x as int, f);
    }
    if n <= 0 || inc_x < 0 {
        return;
    }
    if inc_x == 1 {
        // The increment is 1: a short clean-up loop, then five at a time.
        let m = n % 5;
        let mut cx = Cursor::unit(n);
        while cx.i < m
            invariant
                0 <= m <= n,
                cx.i <= m,
                cx.walks(n as int, 1),
                x0.len() >= extent(n as int, 1),
                settled(x0, x@, n as int, 1, f, cx.i as int),
                f == scaled(alpha, x0, n as int, 1),
            decreases m - cx.i,
        {
            let v = cx.get(x);
            cx.put(x, alpha.times(v), Ghost(x0), Ghost(f));
            cx.step();
        }
        while cx.i < n
            invariant
                (n - cx.i) % 5 == 0,
                cx.walks(n as int, 1),
                x0.len() >= extent(n as int, 1),
                settled(x0, x@, n as int, 1, f, cx.i as int),
                f == scaled(alpha, x0, n as int, 1),
            decreases n - cx.i,
        {
            let v = cx.get(x);
            cx.put(x, alpha.times(v), Ghost(x0), Ghost(f));
            cx.step();
            let v = cx.get(x);
            cx.put(x, alpha.times(v), Ghost(x0), Ghost(f));
            cx.step();
            let v = cx.get(x);
            cx.put(x, alpha.times(v), Ghost(x0), Ghost(f));
            cx.step();
            let v = cx.get(x);
            cx.put(x, alpha.times(v), Ghost(x0), Ghost(f));
            cx.step();
            let v = cx.get(x);
            cx.put(x, alpha.times(v), Ghost(x0), Ghost(f));
            cx.step();
        }
    } else {
        let mut cx = Cursor::first(x, n, inc_x);
        while cx.i < n
            invariant
                inc_x > 0,
                cx.walks(n as int, inc_x as int),
                x0.len() >= extent(n as int, inc_x as int),
                settled(x0, x@, n as int, inc_x as int, f, cx.i as int),
                f == scaled(alpha, x0, n as int, inc_x as int),
            decreases n - cx.i,
        {
            let v = cx.get(x);
            cx.put(x, alpha.times(v), Ghost(x0), Ghost(f));
            cx.step();
        }
    }
}

/// Multiplies each of the `n` logical elements of `x` by the number that
/// `p_alpha` refers to, as `sd_scal` does.
pub fn cz_scal<T: Scalar>(n: BlasInt, p_alpha: &T, x: &mut [T], inc_x: BlasInt)
    requires
        n > 0 ==> inc_x != 0,
        inc_x > 0 ==> extent(n as int, inc_x as int) <= old(x)@.len(),
    ensures
        n <= 0 || inc_x <= 0 ==> final(x)@ == old(x)@,
        inc_x > 0 ==> elementwise(
            old(x)@,
            final(x)@,
            n as int,
            inc_x as int,
            scaled(*p_alpha, old(x)@, n as int, inc_x as int),
        ),
{
    sd_scal(n, *p_alpha, x, inc_x)
}

/// Multiplies each of the `n` logical elements of the complex vector `x`
/// by the real number `alpha`.
///
/// A negative increment is not walked: the vector is then left as it is,
/// as it is when `n` is not positive.
pub fn cz_sscal<T: Real>(n: BlasInt, alpha: T, x: &mut [Complex<T>], inc_x: BlasInt)
    requires
        n > 0 ==> inc_x != 0,
        inc_x > 0 ==> extent(n as int, inc_x as int) <= old(x)@.len(),
    ensures
        n <= 0 || inc_x <= 0 ==> final(x)@ == old(x)@,
        inc_x > 0 ==> elementwise(
            old(x)@,
            final(x)@,
            n as int,
            inc_x as int,
            scaled_real(alpha, old(x)@, n as int, inc_x as int),
        ),
{
    let ghost x0 = x@;
    let ghost f = scaled_real(alpha, x0, n as int, inc_x as int);
    proof {
        lemma_settled_none(x0, n as int, inc_x as int, f);
    }
    if n <= 0 || inc_x < 0 {
        return;
    }
    if inc_x == 1 {
        // The increment is 1: a short clean-up loop, then five at a time.
        let m = n % 5;
        let mut cx = Cursor::unit(n);
        while cx.i < m
            invariant
                0 <= m <= n,
                cx.i <= m,
                cx.walks(n as int, 1),
                x0.len() >= extent(n as int, 1),
                settled(x0, x@, n as int, 1, f, cx.i as int),
                f == scaled_real(alpha, x0, n as int, 1),
            decreases m - cx.i,
        {
            let v = cx.get(x);
            cx.put(x, v.scale(alpha), Ghost(x0), Ghost(f));
            cx.step();
        }
        while cx.i < n
            invariant
                (n - cx.i) % 5 == 0,
                cx.walks(n as int, 1),
                x0.len() >= extent(n as int, 1),
                settled(x0, x@, n as int, 1, f, cx.i as int),
                f == scaled_real(alpha, x0, n as int, 1),
            decreases n - cx.i,
        {
            let v = cx.get(x);
            cx.put(x, v.scale(alpha), Ghost(x0), Ghost(f));
            cx.step();
            let v = cx.get(x);
            cx.put(x, v.scale(alpha), Ghost(x0), Ghost(f));
            cx.step();
            let v = cx.get(x);
            cx.put(x, v.scale(alpha), Ghost(x0), Ghost(f));
            cx.step();
            let v = cx.get(x);
            cx.put(x, v.scale(alpha), Ghost(x0), Ghost(f));
            cx.step();
            let v = cx.get(x);
            cx.put(x, v.scale(alpha), Ghost(x0), Ghost(f));
            cx.step();
        }
    } else {
        let mut cx = Cursor::first(x, n, inc_x);
        while cx.i < n
            invariant
                inc_x > 0,
                cx.walks(n as int, inc_x as int),
                x0.len() >= extent(n as int, inc_x as int),
                settled(x0, x@, n as int, inc_x as int, f, cx.i as int),
                f == scaled_real(alpha, x0, n as int, inc_x as int),
            decreases n - cx.i,
        {
            let v = cx.get(x);
            cx.put(x, v.scale(alpha), Ghost(x0), Ghost(f));
            cx.step();
        }
    }
}

} // verus!
