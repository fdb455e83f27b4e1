//! Kernels that add a multiple of one vector to another.
use vstd::prelude::*;
use crate::common::{BlasInt, Complex};
use crate::scalar::{Real, Scalar};
use crate::stride::{elementwise, extent, lemma_settled_none, offset, settled, visited, Cursor};

verus! {

/// The logical elements of `y`, each with `a` times the matching element
/// of `x` added to it.
pub open spec fn axpy_element<T: Scalar>(
    a: T,
    x: Seq<T>,
    inc_x: int,
    y: Seq<T>,
    inc_y: int,
    n: int,
) -> spec_fn(int) -> T {
    |i: int| y[offset(n, inc_y, i)].plus_spec(a.times_spec(x[offset(n, inc_x, i)]))
}

/// Where, for each of the `n` elements, subtracting `a * x[i]` from
/// `y[i] + a * x[i]` gives `y[i]` back, subtracting `a * x[i]` from the
/// elements that the kernel leaves gives back the elements of `y`; what
/// lies between the elements was never changed.
pub proof fn lemma_axpy_undone<T: Real>(
    a: T,
    x: Seq<T>,
    inc_x: int,
    y: Seq<T>,
    y_after: Seq<T>,
    inc_y: int,
    n: int,
)
    requires
        elementwise(y, y_after, n, inc_y, axpy_element(a, x, inc_x, y, inc_y, n)),
        forall|i: int|
            0 <= i < n ==> y[#[trigger] offset(n, inc_y, i)].plus_spec(
                a.times_spec(x[offset(n, inc_x, i)]),
            ).minus_spec(a.times_spec(x[offset(n, inc_x, i)])) == y[offset(n, inc_y, i)],
    ensures
        forall|i: int|
            0 <= i < n ==> y_after[#[trigger] offset(n, inc_y, i)].minus_spec(
                a.times_spec(x[offset(n, inc_x, i)]),
            ) == y[offset(n, inc_y, i)],
        forall|k: int| 0 <= k < y.len() && !visited(n, inc_y, k) ==> #[trigger] y_after[k] == y[k],
{
    assert forall|i: int| 0 <= i < n implies y_after[#[trigger] offset(n, inc_y, i)].minus_spec(
        a.times_spec(x[offset(n, inc_x, i)]),
    ) == y[offset(n, inc_y, i)] by {
        assert(y_after[offset(n, inc_y, i)] == axpy_element(a, x, inc_x, y, inc_y, n)(i));
    }
}

/// Forms `y := a * x + y` element by element, whatever the increments.
fn axpy_strided<T: Scalar>(n: BlasInt, a: T, x: &[T], inc_x: BlasInt, y: &mut [T], inc_y: BlasInt)
    requires
        n > 0,
        inc_y != 0,
        extent(n as int, inc_x as int) <= x@.len(),
        extent(n as int, inc_y as int) <= old(y)@.len(),
    ensures
        elementwise(
            old(y)@,
            final(y)@,
            n as int,
            inc_y as int,
            axpy_element(a, x@, inc_x as int, old(y)@, inc_y as int, n as int),
        ),
{
    let ghost y0 = y@;
    let ghost f = axpy_element(a, x@, inc_x as int, y0, inc_y as int, n as int);
    proof {
        lemma_settled_none(y0, n as int, inc_y as int, f);
    }
    let mut cx = Cursor::first(x, n, inc_x);
    let mut cy = Cursor::first(y, n, inc_y);
    while cx.i < n
        invariant
            inc_y != 0,
            cx.walks(n as int, inc_x as int),
            cy.walks(n as int, inc_y as int),
            cx.i == cy.i,
            x@.len() >= extent(n as int, inc_x as int),
            y0.len() >= extent(n as int, inc_y as int),
            settled(y0, y@, n as int, inc_y as int, f, cy.i as int),
            f == axpy_element(a, x@, inc_x as int, y0, inc_y as int, n as int),
        decreases n - cx.i,
    {
        let yv = cy.get(y);
        cy.put(y, yv.plus(a.times(cx.get(x))), Ghost(y0), Ghost(f));
        cx.step();
        cy.step();
    }
}

/// Adds `a` times each logical element of `x` to the matching element of
/// `y`.
///
/// Nothing happens when `n` is not positive or `a` equals zero.
pub fn sd_axpy<T: Real>(n: BlasInt, a: T, x: &[T], inc_x: BlasInt, y: &mut [T], inc_y: BlasInt)
    requires
        n > 0 ==> inc_y != 0,
        extent(n as int, inc_x as int) <= x@.len(),
        extent(n as int, inc_y as int) <= old(y)@.len(),
    ensures
        n <= 0 || a.is_eq_spec(T::zero_spec()) ==> final(y)@ == old(y)@,
        !a.is_eq_spec(T::zero_spec()) ==> elementwise(
            old(y)@,
            final(y)@,
            n as int,
            inc_y as int,
            axpy_element(a, x@, inc_x as int, old(y)@, inc_y as int, n as int),
        ),
{
    let ghost y0 = y@;
    let ghost f = axpy_element(a, x@, inc_x as int, y0, inc_y as int, n as int);
    proof {
        lemma_settled_none(y0, n as int, inc_y as int, f);
    }
    if n <= 0 {
        return;
    }
    if a.is_eq(T::zero()) {
        return;
    }
    if inc_x == 1 && inc_y == 1 {
        // Both increments are 1: a short clean-up loop, then four at a time.
        let m = n % 4;
        let mut cx = Cursor::unit(n);
        let mut cy = Cursor::unit(n);
        while cx.i < m
            invariant
                0 <= m <= n,
                cx.i <= m,
                cx.walks(n as int, 1),
                cy.walks(n as int, 1),
                cx.i == cy.i,
                x@.len() >= extent(n as int, 1),
                y0.len() >= extent(n as int, 1),
                settled(y0, y@, n as int, 1, f, cy.i as int),
                f == axpy_element(a, x@, 1, y0, 1, n as int),
            decreases m - cx.i,
        {
            let yv = cy.get(y);
            cy.put(y, yv.plus(a.times(cx.get(x))), Ghost(y0), Ghost(f));
            cx.step();
            cy.step();
        }
        while cx.i < n
            invariant
                (n - cx.i) % 4 == 0,
                cx.walks(n as int, 1),
                cy.walks(n as int, 1),
                cx.i == cy.i,
                x@.len() >= extent(n as int, 1),
                y0.len() >= extent(n as int, 1),
                settled(y0, y@, n as int, 1, f, cy.i as int),
                f == axpy_element(a, x@, 1, y0, 1, n as int),
            decreases n - cx.i,
        {
            let yv = cy.get(y);
            cy.put(y, yv.plus(a.times(cx.get(x))), Ghost(y0), Ghost(f));
            cx.step();
            cy.step();
            let yv = cy.get(y);
            cy.put(y, yv.plus(a.times(cx.get(x))), Ghost(y0), Ghost(f));
            cx.step();
            cy.step();
            let yv = cy.get(y);
            cy.put(y, yv.plus(a.times(cx.get(x))), Ghost(y0), Ghost(f));
            cx.step();
            cy.step();
            let yv = cy.get(y);
            cy.put(y, yv.plus(a.times(cx.get(x))), Ghost(y0), Ghost(f));
            cx.step();
            cy.step();
        }
    } else {
        axpy_strided(n, a, x, inc_x, y, inc_y);
    }
}

/// Adds `ca` times each logical element of the complex vector `cx` to the
/// matching element of `cy`.
///
/// Nothing happens when `n` is not positive or the taxicab magnitude of
/// `ca` equals zero.
pub fn cz_axpy<T: Real>(
    n: BlasInt,
    ca: &Complex<T>,
    cx: &[Complex<T>],
    inc_x: BlasInt,
    cy: &mut [Complex<T>],
    inc_y: BlasInt,
)
    requires
        n > 0 ==> inc_y != 0,
        extent(n as int, inc_x as int) <= cx@.len(),
        extent(n as int, inc_y as int) <= old(cy)@.len(),
    ensures
        n <= 0 || ca.l1_norm_spec().is_eq_spec(T::zero_spec()) ==> final(cy)@ == old(cy)@,
        !ca.l1_norm_spec().is_eq_spec(T::zero_spec()) ==> elementwise(
            old(cy)@,
            final(cy)@,
            n as int,
            inc_y as int,
            axpy_element(*ca, cx@, inc_x as int, old(cy)@, inc_y as int, n as int),
        ),
{
    proof {
        lemma_settled_none(
            cy@,
            n as int,
            inc_y as int,
            axpy_element(*ca, cx@, inc_x as int, cy@, inc_y as int, n as int),
        );
    }
    if n <= 0 {
        return;
    }
    if ca.l1_norm().is_eq(T::zero()) {
        return;
    }
    axpy_strided(n, *ca, cx, inc_x, cy, inc_y);
}

} // verus!
