//! Sums of magnitudes.
use vstd::prelude::*;
use crate::common::{BlasInt, Complex};
use crate::scalar::{Real, Scalar};
use crate::stride::{extent, offset, Cursor};

verus! {

/// The sum of the absolute values of the first `i` logical elements of
/// `x`, added to zero in the order of the elements.
pub open spec fn asum_prefix<T: Real>(x: Seq<T>, inc: int, n: int, i: int) -> T
    decreases i,
{
    if i <= 0 {
        T::zero_spec()
    } else {
        asum_prefix(x, inc, n, i - 1).plus_spec(x[offset(n, inc, i - 1)].abs_spec())
    }
}

/// The sum of `|re| + |im|` over the first `i` logical elements of the
/// complex vector `x`: to the running sum first `|re|` is added, then
/// `|im|`.
pub open spec fn casum_prefix<T: Real>(x: Seq<Complex<T>>, inc: int, n: int, i: int) -> T
    decreases i,
{
    if i <= 0 {
        T::zero_spec()
    } else {
        casum_prefix(x, inc, n, i - 1).plus_spec(x[offset(n, inc, i - 1)].re.abs_spec()).plus_spec(
            x[offset(n, inc, i - 1)].im.abs_spec(),
        )
    }
}

/// Computes the sum of the absolute values of the `n` logical elements of
/// `x`; zero when `n` or the increment is not positive.
pub fn sd_asum<T: Real>(n: BlasInt, x: &[T], inc_x: BlasInt) -> (r: T)
    requires
        n > 0 && inc_x > 0 ==> extent(n as int, inc_x as int) <= x@.len(),
    ensures
        n <= 0 || inc_x <= 0 ==> r == T::zero_spec(),
        n > 0 && inc_x > 0 ==> r == asum_prefix(x@, inc_x as int, n as int, n as int),
{
    if n <= 0 || inc_x <= 0 {
        return T::zero();
    }
    let mut tmp = T::zero();
    if inc_x == 1 {
        // Unit increment: a short clean-up loop, then six at a time.
        let m = n % 6;
        let mut cx = Cursor::unit(n);
        while cx.i < m
            invariant
                0 <= m <= n,
                cx.i <= m,
                cx.walks(n as int, 1),
                x@.len() >= extent(n as int, 1),
                tmp == asum_prefix(x@, 1, n as int, cx.i as int),
            decreases m - cx.i,
        {
            tmp = tmp.plus(cx.get(x).abs());
            cx.step();
        }
        while cx.i < n
            invariant
                (n - cx.i) % 6 == 0,
                cx.walks(n as int, 1),
                x@.len() >= extent(n as int, 1),
                tmp == asum_prefix(x@, 1, n as int, cx.i as int),
            decreases n - cx.i,
        {
            tmp = tmp.plus(cx.get(x).abs());
            cx.step();
            assert(tmp == asum_prefix(x@, 1, n as int, cx.i as int));
            tmp = tmp.plus(cx.get(x).abs());
            cx.step();
            assert(tmp == asum_prefix(x@, 1, n as int, cx.i as int));
            tmp = tmp.plus(cx.get(x).abs());
            cx.step();
            assert(tmp == asum_prefix(x@, 1, n as int, cx.i as int));
            tmp = tmp.plus(cx.get(x).abs());
            cx.step();
            assert(tmp == asum_prefix(x@, 1, n as int, cx.i as int));
            tmp = tmp.plus(cx.get(x).abs());
            cx.step();
            assert(tmp == asum_prefix(x@, 1, n as int, cx.i as int));
            tmp = tmp.plus(cx.get(x).abs());
            cx.step();
            assert(tmp == asum_prefix(x@, 1, n as int, cx.i as int));
        }
        return tmp;
    }
    let mut cx = Cursor::first(x, n, inc_x);
    while cx.i < n
        invariant
            cx.walks(n as int, inc_x as int),
            x@.len() >= extent(n as int, inc_x as int),
            tmp == asum_prefix(x@, inc_x as int, n as int, cx.i as int),
        decreases n - cx.i,
    {
        tmp = tmp.plus(cx.get(x).abs());
        cx.step();
    }
    tmp
}

/// Computes the sum of `|re| + |im|` over the `n` logical elements of the
/// complex vector `x`; zero when `n` or the increment is not positive.
pub fn cz_asum<T: Real>(n: BlasInt, x: &[Complex<T>], inc_x: BlasInt) -> (r: T)
    requires
        n > 0 && inc_x > 0 ==> extent(n as int, inc_x as int) <= x@.len(),
    ensures
        n <= 0 || inc_x <= 0 ==> r == T::zero_spec(),
        n > 0 && inc_x > 0 ==> r == casum_prefix(x@, inc_x as int, n as int, n as int),
{
    if n <= 0 || inc_x <= 0 {
        return T::zero();
    }
    let mut stemp = T::zero();
    let mut cx = Cursor::first(x, n, inc_x);
    while cx.i < n
        invariant
            cx.walks(n as int, inc_x as int),
            x@.len() >= extent(n as int, inc_x as int),
            stemp == casum_prefix(x@, inc_x as int, n as int, cx.i as int),
        decreases n - cx.i,
    {
        let v = cx.get(x);
        stemp = stemp.plus(v.re.abs()).plus(v.im.abs());
        cx.step();
    }
    stemp
}

} // verus!
