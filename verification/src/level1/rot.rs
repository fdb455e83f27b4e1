//! Kernels that apply a plane rotation to a pair of vectors.
use vstd::prelude::*;
use crate::common::{BlasInt, Complex};
use crate::level1::rotg::givens;
use crate::scalar::{Real, Scalar};
use crate::stride::{elementwise, extent, lemma_settled_none, offset, settled, Cursor};

verus! {

/// The first coordinates after the rotation: `c * x[i] + s * y[i]`.
pub open spec fn rot_x<T: Real>(c: T, s: T, x: Seq<T>, inc_x: int, y: Seq<T>, inc_y: int, n: int) -> spec_fn(int) -> T {
    |i: int| c.times_spec(x[offset(n, inc_x, i)]).plus_spec(s.times_spec(y[offset(n, inc_y, i)]))
}

/// The second coordinates after the rotation: `c * y[i] - s * x[i]`.
pub open spec fn rot_y<T: Real>(c: T, s: T, x: Seq<T>, inc_x: int, y: Seq<T>, inc_y: int, n: int) -> spec_fn(int) -> T {
    |i: int| c.times_spec(y[offset(n, inc_y, i)]).minus_spec(s.times_spec(x[offset(n, inc_x, i)]))
}

/// The rotation constructed from `(a, b)` takes the point `(a, b)` to a
/// point whose second coordinate is zero, where the two products that are
/// subtracted, `(a / r) * b` and `(b / r) * a`, come out the same and
/// their difference is zero, and unless both magnitudes add up to zero.
/// This asks nothing of numbers other than these two products.
pub proof fn lemma_constructed_rotation_zeroes<T: Real>(a: T, b: T)
    requires
        !a.abs_spec().plus_spec(b.abs_spec()).is_eq_spec(T::zero_spec()),
        a.over_spec(givens(a, b).r).times_spec(b) == b.over_spec(givens(a, b).r).times_spec(a),
        a.over_spec(givens(a, b).r).times_spec(b).minus_spec(
            a.over_spec(givens(a, b).r).times_spec(b),
        ) == T::zero_spec(),
    ensures
        rot_y(givens(a, b).c, givens(a, b).s, seq![a], 1, seq![b], 1, 1)(0) == T::zero_spec(),
{
    let g = givens(a, b);
    assert(offset(1, 1, 0) == 0);
    assert(seq![a][0] == a);
    assert(seq![b][0] == b);
    assert(g.c == a.over_spec(g.r));
    assert(g.s == b.over_spec(g.r));
}

/// The first coordinates after a real rotation of complex vectors:
/// `x[i] * c + y[i] * s`.
pub open spec fn srot_x<T: Real>(
    c: T,
    s: T,
    x: Seq<Complex<T>>,
    inc_x: int,
    y: Seq<Complex<T>>,
    inc_y: int,
    n: int,
) -> spec_fn(int) -> Complex<T> {
    |i: int| x[offset(n, inc_x, i)].scale_spec(c).plus_spec(y[offset(n, inc_y, i)].scale_spec(s))
}

/// The second coordinates after a real rotation of complex vectors:
/// `y[i] * c - x[i] * s`.
pub open spec fn srot_y<T: Real>(
    c: T,
    s: T,
    x: Seq<Complex<T>>,
    inc_x: int,
    y: Seq<Complex<T>>,
    inc_y: int,
    n: int,
) -> spec_fn(int) -> Complex<T> {
    |i: int| y[offset(n, inc_y, i)].scale_spec(c).minus_spec(x[offset(n, inc_x, i)].scale_spec(s))
}

/// Applies the plane rotation with cosine `c` and sine `s` to the `n`
/// points `(x[i], y[i])`.
///
/// Both coordinates of a point are computed from the point as it was.
/// Nothing happens when `n` is not positive.
pub fn sd_rot<T: Real>(
    n: BlasInt,
    x: &mut [T],
    inc_x: BlasInt,
    y: &mut [T],
    inc_y: BlasInt,
    c: T,
    s: T,
)
    requires
        n > 0 ==> inc_x != 0 && inc_y != 0,
        extent(n as int, inc_x as int) <= old(x)@.len(),
        extent(n as int, inc_y as int) <= old(y)@.len(),
    ensures
        n <= 0 ==> final(x)@ == old(x)@ && final(y)@ == old(y)@,
        elementwise(
            old(x)@,
            final(x)@,
            n as int,
            inc_x as int,
            rot_x(c, s, old(x)@, inc_x as int, old(y)@, inc_y as int, n as int),
        ),
        elementwise(
            old(y)@,
            final(y)@,
            n as int,
            inc_y as int,
            rot_y(c, s, old(x)@, inc_x as int, old(y)@, inc_y as int, n as int),
        ),
{
    let ghost x0 = x@;
    let ghost y0 = y@;
    let ghost fx = rot_x(c, s, x0, inc_x as int, y0, inc_y as int, n as int);
    let ghost fy = rot_y(c, s, x0, inc_x as int, y0, inc_y as int, n as int);
    proof {
        lemma_settled_none(x0, n as int, inc_x as int, fx);
        lemma_settled_none(y0, n as int, inc_y as int, fy);
    }
    if n <= 0 {
        return;
    }
    let mut cx = Cursor::first(x, n, inc_x);
    let mut cy = Cursor::first(y, n, inc_y);
    while cx.i < n
        invariant
            inc_x != 0 && inc_y != 0,
            cx.walks(n as int, inc_x as int),
            cy.walks(n as int, inc_y as int),
            cx.i == cy.i,
            x0.len() >= extent(n as int, inc_x as int),
            y0.len() >= extent(n as int, inc_y as int),
            settled(x0, x@, n as int, inc_x as int, fx, cx.i as int),
            settled(y0, y@, n as int, inc_y as int, fy, cy.i as int),
            fx == rot_x(c, s, x0, inc_x as int, y0, inc_y as int, n as int),
            fy == rot_y(c, s, x0, inc_x as int, y0, inc_y as int, n as int),
        decreases n - cx.i,
    {
        let w = cx.get(x);
        let z = cy.get(y);
        cx.put(x, c.times(w).plus(s.times(z)), Ghost(x0), Ghost(fx));
        cy.put(y, c.times(z).minus(s.times(w)), Ghost(y0), Ghost(fy));
        cx.step();
        cy.step();
    }
}

/// Applies the plane rotation with real cosine `c` and real sine `s` to
/// the `n` complex points `(x[i], y[i])`.
///
/// Both coordinates of a point are computed from the point as it was.
/// Nothing happens when `n` is not positive.
pub fn cz_srot<T: Real>(
    n: BlasInt,
    x: &mut [Complex<T>],
    inc_x: BlasInt,
    y: &mut [Complex<T>],
    inc_y: BlasInt,
    c: T,
    s: T,
)
    requires
        n > 0 ==> inc_x != 0 && inc_y != 0,
        extent(n as int, inc_x as int) <= old(x)@.len(),
        extent(n as int, inc_y as int) <= old(y)@.len(),
    ensures
        n <= 0 ==> final(x)@ == old(x)@ && final(y)@ == old(y)@,
        elementwise(
            old(x)@,
            final(x)@,
            n as int,
            inc_x as int,
            srot_x(c, s, old(x)@, inc_x as int, old(y)@, inc_y as int, n as int),
        ),
        elementwise(
            old(y)@,
            final(y)@,
            n as int,
            inc_y as int,
            srot_y(c, s, old(x)@, inc_x as int, old(y)@, inc_y as int, n as int),
        ),
{
    let ghost x0 = x@;
    let ghost y0 = y@;
    let ghost fx = srot_x(c, s, x0, inc_x as int, y0, inc_y as int, n as int);
    let ghost fy = srot_y(c, s, x0, inc_x as int, y0, inc_y as int, n as int);
    proof {
        lemma_settled_none(x0, n as int, inc_x as int, fx);
        lemma_settled_none(y0, n as int, inc_y as int, fy);
    }
    if n <= 0 {
        return;
    }
    let mut cx = Cursor::first(x, n, inc_x);
    let mut cy = Cursor::first(y, n, inc_y);
    while cx.i < n
        invariant
            inc_x != 0 && inc_y != 0,
            cx.walks(n as int, inc_x as int),
            cy.walks(n as int, inc_y as int),
            cx.i == cy.i,
            x0.len() >= extent(n as int, inc_x as int),
            y0.len() >= extent(n as int, inc_y as int),
            settled(x0, x@, n as int, inc_x as int, fx, cx.i as int),
            settled(y0, y@, n as int, inc_y as int, fy, cy.i as int),
            fx == srot_x(c, s, x0, inc_x as int, y0, inc_y as int, n as int),
            fy == srot_y(c, s, x0, inc_x as int, y0, inc_y as int, n as int),
        decreases n - cx.i,
    {
        let w = cx.get(x);
        let z = cy.get(y);
        cx.put(x, w.scale(c).plus(z.scale(s)), Ghost(x0), Ghost(fx));
        cy.put(y, z.scale(c).minus(w.scale(s)), Ghost(y0), Ghost(fy));
        cx.step();
        cy.step();
    }
}

} // verus!
