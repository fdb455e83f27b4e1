//! Inner products.
use vstd::prelude::*;
use crate::common::complex::{lemma_complex_times_commutes, parts_commute};
use crate::common::{BlasInt, Complex};
use crate::scalar::{Real, Scalar, Widen};
use crate::stride::{extent, offset, Cursor};

verus! {

/// The inner product of the first `i` logical elements of `x` and `y`,
/// summed from zero in the order of the elements.
pub open spec fn dot_prefix<T: Scalar>(x: Seq<T>, inc_x: int, y: Seq<T>, inc_y: int, n: int, i: int) -> T
    decreases i,
{
    if i <= 0 {
        T::zero_spec()
    } else {
        dot_prefix(x, inc_x, y, inc_y, n, i - 1).plus_spec(
            x[offset(n, inc_x, i - 1)].times_spec(y[offset(n, inc_y, i - 1)]),
        )
    }
}

/// The inner product of the `n` logical elements of `x` and `y`; zero when
/// `n` is not positive.
pub open spec fn dot<T: Scalar>(x: Seq<T>, inc_x: int, y: Seq<T>, inc_y: int, n: int) -> T {
    dot_prefix(x, inc_x, y, inc_y, n, n)
}

/// Where each of the `n` products commutes, the inner product does not
/// depend on the order of its two vectors: the same products are added in
/// the same order.
pub proof fn lemma_dot_symmetric<T: Scalar>(x: Seq<T>, inc_x: int, y: Seq<T>, inc_y: int, n: int)
    requires
        forall|i: int|
            0 <= i < n ==> x[#[trigger] offset(n, inc_x, i)].times_spec(y[offset(n, inc_y, i)])
                == y[offset(n, inc_y, i)].times_spec(x[offset(n, inc_x, i)]),
    ensures
        dot(x, inc_x, y, inc_y, n) == dot(y, inc_y, x, inc_x, n),
{
    lemma_dot_prefix_symmetric(x, inc_x, y, inc_y, n, n);
}

/// Where each of the first `i` products commutes, the partial inner
/// product is the same in either order of the two vectors.
pub proof fn lemma_dot_prefix_symmetric<T: Scalar>(
    x: Seq<T>,
    inc_x: int,
    y: Seq<T>,
    inc_y: int,
    n: int,
    i: int,
)
    requires
        forall|j: int|
            0 <= j < i ==> x[#[trigger] offset(n, inc_x, j)].times_spec(y[offset(n, inc_y, j)])
                == y[offset(n, inc_y, j)].times_spec(x[offset(n, inc_x, j)]),
    ensures
        dot_prefix(x, inc_x, y, inc_y, n, i) == dot_prefix(y, inc_y, x, inc_x, n, i),
    decreases i,
{
    if i > 0 {
        lemma_dot_prefix_symmetric(x, inc_x, y, inc_y, n, i - 1);
        assert(x[offset(n, inc_x, i - 1)].times_spec(y[offset(n, inc_y, i - 1)]) == y[offset(
            n,
            inc_y,
            i - 1,
        )].times_spec(x[offset(n, inc_x, i - 1)]));
    }
}

/// Where the parts of each of the `n` pairs of complex elements commute,
/// the inner product of complex vectors, neither of them conjugated, does
/// not depend on the order of its two vectors.
pub proof fn lemma_complex_dot_symmetric<T: Real>(
    x: Seq<Complex<T>>,
    inc_x: int,
    y: Seq<Complex<T>>,
    inc_y: int,
    n: int,
)
    requires
        forall|i: int|
            0 <= i < n ==> parts_commute(x[#[trigger] offset(n, inc_x, i)], y[offset(n, inc_y, i)]),
    ensures
        dot(x, inc_x, y, inc_y, n) == dot(y, inc_y, x, inc_x, n),
{
    assert forall|i: int| 0 <= i < n implies x[#[trigger] offset(n, inc_x, i)].times_spec(
        y[offset(n, inc_y, i)],
    ) == y[offset(n, inc_y, i)].times_spec(x[offset(n, inc_x, i)]) by {
        lemma_complex_times_commutes(x[offset(n, inc_x, i)], y[offset(n, inc_y, i)]);
    }
    lemma_dot_symmetric(x, inc_x, y, inc_y, n);
}

/// The inner product of the first `i` logical elements of the conjugate of
/// `x` with those of `y`, summed from zero in the order of the elements.
pub open spec fn dotc_prefix<T: Real>(
    x: Seq<Complex<T>>,
    inc_x: int,
    y: Seq<Complex<T>>,
    inc_y: int,
    n: int,
    i: int,
) -> Complex<T>
    decreases i,
{
    if i <= 0 {
        Complex::<T>::zero_spec()
    } else {
        dotc_prefix(x, inc_x, y, inc_y, n, i - 1).plus_spec(
            x[offset(n, inc_x, i - 1)].conj_spec().times_spec(y[offset(n, inc_y, i - 1)]),
        )
    }
}

/// The inner product of the conjugate of `x` with `y`; zero when `n` is
/// not positive.
pub open spec fn dotc<T: Real>(x: Seq<Complex<T>>, inc_x: int, y: Seq<Complex<T>>, inc_y: int, n: int) -> Complex<T> {
    dotc_prefix(x, inc_x, y, inc_y, n, n)
}

/// `base` with the products of the first `i` logical elements of `x` and
/// `y` added to it, every element widened before it is multiplied.
pub open spec fn wide_dot_prefix<T: Widen>(
    base: T::Wide,
    x: Seq<T>,
    inc_x: int,
    y: Seq<T>,
    inc_y: int,
    n: int,
    i: int,
) -> T::Wide
    decreases i,
{
    if i <= 0 {
        base
    } else {
        wide_dot_prefix(base, x, inc_x, y, inc_y, n, i - 1).plus_spec(
            x[offset(n, inc_x, i - 1)].widen_spec().times_spec(
                y[offset(n, inc_y, i - 1)].widen_spec(),
            ),
        )
    }
}

/// Computes the inner product of the `n` logical elements of `x` and `y`:
/// the products `x[i] * y[i]`, added to zero one after the other.
pub fn sd_sdot<T: Real>(n: BlasInt, x: &[T], inc_x: BlasInt, y: &[T], inc_y: BlasInt) -> (r: T)
    requires
        extent(n as int, inc_x as int) <= x@.len(),
        extent(n as int, inc_y as int) <= y@.len(),
    ensures
        r == dot(x@, inc_x as int, y@, inc_y as int, n as int),
{
    if n <= 0 {
        return T::zero();
    }
    let mut stemp = T::zero();
    if inc_x == 1 && inc_y == 1 {
        // Unit increment: a short clean-up loop, then five at a time.
        let m = n % 5;
        let mut cx = Cursor::unit(n);
        let mut cy = Cursor::unit(n);
        while cx.i < m
            invariant
                0 <= m <= n,
                cx.i <= m,
                cx.walks(n as int, 1),
                cy.walks(n as int, 1),
                cx.i == cy.i,
                x@.len() >= extent(n as int, 1),
                y@.len() >= extent(n as int, 1),
                stemp == dot_prefix(x@, 1, y@, 1, n as int, cx.i as int),
            decreases m - cx.i,
        {
            stemp = stemp.plus(cx.get(x).times(cy.get(y)));
            cx.step();
            cy.step();
        }
        while cx.i < n
            invariant
                (n - cx.i) % 5 == 0,
                cx.walks(n as int, 1),
                cy.walks(n as int, 1),
                cx.i == cy.i,
                x@.len() >= extent(n as int, 1),
                y@.len() >= extent(n as int, 1),
                stemp == dot_prefix(x@, 1, y@, 1, n as int, cx.i as int),
            decreases n - cx.i,
        {
            stemp = stemp.plus(cx.get(x).times(cy.get(y)));
            cx.step();
            cy.step();
            assert(stemp == dot_prefix(x@, 1, y@, 1, n as int, cx.i as int));
            stemp = stemp.plus(cx.get(x).times(cy.get(y)));
            cx.step();
            cy.step();
            assert(stemp == dot_prefix(x@, 1, y@, 1, n as int, cx.i as int));
            stemp = stemp.plus(cx.get(x).times(cy.get(y)));
            cx.step();
            cy.step();
            assert(stemp == dot_prefix(x@, 1, y@, 1, n as int, cx.i as int));
            stemp = stemp.plus(cx.get(x).times(cy.get(y)));
            cx.step();
            cy.step();
            assert(stemp == dot_prefix(x@, 1, y@, 1, n as int, cx.i as int));
            stemp = stemp.plus(cx.get(x).times(cy.get(y)));
            cx.step();
            cy.step();
            assert(stemp == dot_prefix(x@, 1, y@, 1, n as int, cx.i as int));
        }
        return stemp;
    }
    let mut cx = Cursor::first(x, n, inc_x);
    let mut cy = Cursor::first(y, n, inc_y);
    while cx.i < n
        invariant
            cx.walks(n as int, inc_x as int),
            cy.walks(n as int, inc_y as int),
            cx.i == cy.i,
            x@.len() >= extent(n as int, inc_x as int),
            y@.len() >= extent(n as int, inc_y as int),
            stemp == dot_prefix(x@, inc_x as int, y@, inc_y as int, n as int, cx.i as int),
        decreases n - cx.i,
    {
        stemp = stemp.plus(cx.get(x).times(cy.get(y)));
        cx.step();
        cy.step();
    }
    stemp
}

/// The inner product of two vectors of any increments.
fn dot_strided<T: Scalar>(n: BlasInt, x: &[T], inc_x: BlasInt, y: &[T], inc_y: BlasInt) -> (r: T)
    requires
        n > 0,
        extent(n as int, inc_x as int) <= x@.len(),
        extent(n as int, inc_y as int) <= y@.len(),
    ensures
        r == dot(x@, inc_x as int, y@, inc_y as int, n as int),
{
    let mut acc = T::zero();
    let mut cx = Cursor::first(x, n, inc_x);
    let mut cy = Cursor::first(y, n, inc_y);
    while cx.i < n
        invariant
            cx.walks(n as int, inc_x as int),
            cy.walks(n as int, inc_y as int),
            cx.i == cy.i,
            x@.len() >= extent(n as int, inc_x as int),
            y@.len() >= extent(n as int, inc_y as int),
            acc == dot_prefix(x@, inc_x as int, y@, inc_y as int, n as int, cx.i as int),
        decreases n - cx.i,
    {
        acc = acc.plus(cx.get(x).times(cy.get(y)));
        cx.step();
        cy.step();
    }
    acc
}

/// Computes the inner product of the `n` logical elements of the complex
/// vectors `cx` and `cy`, neither of them conjugated.
pub fn cz_dotu<T: Real>(
    n: BlasInt,
    cx: &[Complex<T>],
    inc_x: BlasInt,
    cy: &[Complex<T>],
    inc_y: BlasInt,
) -> (r: Complex<T>)
    requires
        extent(n as int, inc_x as int) <= cx@.len(),
        extent(n as int, inc_y as int) <= cy@.len(),
    ensures
        r == dot(cx@, inc_x as int, cy@, inc_y as int, n as int),
{
    if n <= 0 {
        return Complex::<T>::zero();
    }
    dot_strided(n, cx, inc_x, cy, inc_y)
}

/// Computes the inner product of the conjugate of the complex vector `x`
/// with the complex vector `y`.
pub fn cz_dotc<T: Real>(n: BlasInt, x: &[Complex<T>], inc_x: BlasInt, y: &[Complex<T>], inc_y: BlasInt) -> (r: Complex<T>)
    requires
        extent(n as int, inc_x as int) <= x@.len(),
        extent(n as int, inc_y as int) <= y@.len(),
    ensures
        r == dotc(x@, inc_x as int, y@, inc_y as int, n as int),
{
    if n <= 0 {
        return Complex::<T>::zero();
    }
    let mut ctemp = Complex::<T>::zero();
    let mut cx = Cursor::first(x, n, inc_x);
    let mut cy = Cursor::first(y, n, inc_y);
    while cx.i < n
        invariant
            cx.walks(n as int, inc_x as int),
            cy.walks(n as int, inc_y as int),
            cx.i == cy.i,
            x@.len() >= extent(n as int, inc_x as int),
            y@.len() >= extent(n as int, inc_y as int),
            ctemp == dotc_prefix(x@, inc_x as int, y@, inc_y as int, n as int, cx.i as int),
        decreases n - cx.i,
    {
        ctemp = ctemp.plus(cx.get(x).conj().times(cy.get(y)));
        cx.step();
        cy.step();
    }
    ctemp
}

/// Computes the inner product of `x` and `y` in the wider type: every
/// element is widened before it is multiplied, and the products are added
/// to zero one after the other.
pub fn cblas_dsdot<T: Widen>(n: BlasInt, x: &[T], inc_x: BlasInt, y: &[T], inc_y: BlasInt) -> (r: T::Wide)
    requires
        extent(n as int, inc_x as int) <= x@.len(),
        extent(n as int, inc_y as int) <= y@.len(),
    ensures
        r == wide_dot_prefix(T::Wide::zero_spec(), x@, inc_x as int, y@, inc_y as int, n as int, n as int),
{
    if n <= 0 {
        return T::Wide::zero();
    }
    let mut stemp = T::Wide::zero();
    if inc_x == 1 && inc_y == 1 {
        // Unit increment: a short clean-up loop, then five at a time.
        let m = n % 5;
        let mut cx = Cursor::unit(n);
        let mut cy = Cursor::unit(n);
        while cx.i < m
            invariant
                0 <= m <= n,
                cx.i <= m,
                cx.walks(n as int, 1),
                cy.walks(n as int, 1),
                cx.i == cy.i,
                x@.len() >= extent(n as int, 1),
                y@.len() >= extent(n as int, 1),
                stemp == wide_dot_prefix(T::Wide::zero_spec(), x@, 1, y@, 1, n as int, cx.i as int),
            decreases m - cx.i,
        {
            stemp = stemp.plus(cx.get(x).widen().times(cy.get(y).widen()));
            cx.step();
            cy.step();
        }
        while cx.i < n
            invariant
                (n - cx.i) % 5 == 0,
                cx.walks(n as int, 1),
                cy.walks(n as int, 1),
                cx.i == cy.i,
                x@.len() >= extent(n as int, 1),
                y@.len() >= extent(n as int, 1),
                stemp == wide_dot_prefix(T::Wide::zero_spec(), x@, 1, y@, 1, n as int, cx.i as int),
            decreases n - cx.i,
        {
            stemp = stemp.plus(cx.get(x).widen().times(cy.get(y).widen()));
            cx.step();
            cy.step();
            assert(stemp == wide_dot_prefix(T::Wide::zero_spec(), x@, 1, y@, 1, n as int, cx.i as int));
            stemp = stemp.plus(cx.get(x).widen().times(cy.get(y).widen()));
            cx.step();
            cy.step();
            assert(stemp == wide_dot_prefix(T::Wide::zero_spec(), x@, 1, y@, 1, n as int, cx.i as int));
            stemp = stemp.plus(cx.get(x).widen().times(cy.get(y).widen()));
            cx.step();
            cy.step();
            assert(stemp == wide_dot_prefix(T::Wide::zero_spec(), x@, 1, y@, 1, n as int, cx.i as int));
            stemp = stemp.plus(cx.get(x).widen().times(cy.get(y).widen()));
            cx.step();
            cy.step();
            assert(stemp == wide_dot_prefix(T::Wide::zero_spec(), x@, 1, y@, 1, n as int, cx.i as int));
            stemp = stemp.plus(cx.get(x).widen().times(cy.get(y).widen()));
            cx.step();
            cy.step();
            assert(stemp == wide_dot_prefix(T::Wide::zero_spec(), x@, 1, y@, 1, n as int, cx.i as int));
        }
        return stemp;
    }
    let mut cx = Cursor::first(x, n, inc_x);
    let mut cy = Cursor::first(y, n, inc_y);
    while cx.i < n
        invariant
            cx.walks(n as int, inc_x as int),
            cy.walks(n as int, inc_y as int),
            cx.i == cy.i,
            x@.len() >= extent(n as int, inc_x as int),
            y@.len() >= extent(n as int, inc_y as int),
            stemp == wide_dot_prefix(
                T::Wide::zero_spec(),
                x@,
                inc_x as int,
                y@,
                inc_y as int,
                n as int,
                cx.i as int,
            ),
        decreases n - cx.i,
    {
        stemp = stemp.plus(cx.get(x).widen().times(cy.get(y).widen()));
        cx.step();
        cy.step();
    }
    stemp
}

/// Computes `sb` plus the inner product of `x` and `y`, accumulated in the
/// wider type: `sb` and every element are widened, the products are added
/// to `sb` one after the other, and only the final sum is narrowed.
pub fn cblas_sdsdot<T: Widen>(n: BlasInt, sb: T, x: &[T], inc_x: BlasInt, y: &[T], inc_y: BlasInt) -> (r: T)
    requires
        extent(n as int, inc_x as int) <= x@.len(),
        extent(n as int, inc_y as int) <= y@.len(),
    ensures
        n <= 0 ==> r == sb,
        n > 0 ==> r == T::narrow_spec(
            wide_dot_prefix(sb.widen_spec(), x@, inc_x as int, y@, inc_y as int, n as int, n as int),
        ),
{
    if n <= 0 {
        return sb;
    }
    let mut stemp = sb.widen();
    if inc_x == 1 && inc_y == 1 {
        // Unit increment: a short clean-up loop, then five at a time.
        let m = n % 5;
        let mut cx = Cursor::unit(n);
        let mut cy = Cursor::unit(n);
        while cx.i < m
            invariant
                0 <= m <= n,
                cx.i <= m,
                cx.walks(n as int, 1),
                cy.walks(n as int, 1),
                cx.i == cy.i,
                x@.len() >= extent(n as int, 1),
                y@.len() >= extent(n as int, 1),
                stemp == wide_dot_prefix(sb.widen_spec(), x@, 1, y@, 1, n as int, cx.i as int),
            decreases m - cx.i,
        {
            stemp = stemp.plus(cx.get(x).widen().times(cy.get(y).widen()));
            cx.step();
            cy.step();
        }
        while cx.i < n
            invariant
                (n - cx.i) % 5 == 0,
                cx.walks(n as int, 1),
                cy.walks(n as int, 1),
                cx.i == cy.i,
                x@.len() >= extent(n as int, 1),
                y@.len() >= extent(n as int, 1),
                stemp == wide_dot_prefix(sb.widen_spec(), x@, 1, y@, 1, n as int, cx.i as int),
            decreases n - cx.i,
        {
            stemp = stemp.plus(cx.get(x).widen().times(cy.get(y).widen()));
            cx.step();
            cy.step();
            assert(stemp == wide_dot_prefix(sb.widen_spec(), x@, 1, y@, 1, n as int, cx.i as int));
            stemp = stemp.plus(cx.get(x).widen().times(cy.get(y).widen()));
            cx.step();
            cy.step();
            assert(stemp == wide_dot_prefix(sb.widen_spec(), x@, 1, y@, 1, n as int, cx.i as int));
            stemp = stemp.plus(cx.get(x).widen().times(cy.get(y).widen()));
            cx.step();
            cy.step();
            assert(stemp == wide_dot_prefix(sb.widen_spec(), x@, 1, y@, 1, n as int, cx.i as int));
            stemp = stemp.plus(cx.get(x).widen().times(cy.get(y).widen()));
            cx.step();
            cy.step();
            assert(stemp == wide_dot_prefix(sb.widen_spec(), x@, 1, y@, 1, n as int, cx.i as int));
            stemp = stemp.plus(cx.get(x).widen().times(cy.get(y).widen()));
            cx.step();
            cy.step();
            assert(stemp == wide_dot_prefix(sb.widen_spec(), x@, 1, y@, 1, n as int, cx.i as int));
        }
        return T::narrow(stemp);
    }
    let mut cx = Cursor::first(x, n, inc_x);
    let mut cy = Cursor::first(y, n, inc_y);
    while cx.i < n
        invariant
            cx.walks(n as int, inc_x as int),
            cy.walks(n as int, inc_y as int),
            cx.i == cy.i,
            x@.len() >= extent(n as int, inc_x as int),
            y@.len() >= extent(n as int, inc_y as int),
            stemp == wide_dot_prefix(
                sb.widen_spec(),
                x@,
                inc_x as int,
                y@,
                inc_y as int,
                n as int,
                cx.i as int,
            ),
        decreases n - cx.i,
    {
        stemp = stemp.plus(cx.get(x).widen().times(cy.get(y).widen()));
        cx.step();
        cy.step();
    }
    T::narrow(stemp)
}

} // verus!
