//! Application of a modified Givens rotation.
use vstd::prelude::*;
use crate::common::BlasInt;
use crate::scalar::{Real, Scalar};
use crate::stride::{elementwise, extent, lemma_settled_none, offset, settled, Cursor};

verus! {

/// Whether the flag in front of `param` says that `H` is the identity: the
/// flag and two add up to zero.
pub open spec fn rotm_is_identity<T: Real>(param: Seq<T>) -> bool {
    param[0].plus_spec(T::from_decimal_spec(2, 0)).is_eq_spec(T::zero_spec())
}

/// First coordinate of `H * (w, z)`.
///
/// A negative flag takes all of `H` from `param`; a zero flag takes the
/// diagonal as 1; any other takes `h12` as 1.
pub open spec fn rotm_first<T: Real>(param: Seq<T>, w: T, z: T) -> T {
    let flag = param[0];
    let h11 = param[1];
    let h12 = param[3];
    if flag.is_lt_spec(T::zero_spec()) {
        w.times_spec(h11).plus_spec(z.times_spec(h12))
    } else if flag.is_eq_spec(T::zero_spec()) {
        w.plus_spec(z.times_spec(h12))
    } else {
        w.times_spec(h11).plus_spec(z)
    }
}

/// Second coordinate of `H * (w, z)`.
///
/// A negative flag takes all of `H` from `param`; a zero flag takes the
/// diagonal as 1; any other takes `h21` as -1.
pub open spec fn rotm_second<T: Real>(param: Seq<T>, w: T, z: T) -> T {
    let flag = param[0];
    let h21 = param[2];
    let h22 = param[4];
    if flag.is_lt_spec(T::zero_spec()) {
        w.times_spec(h21).plus_spec(z.times_spec(h22))
    } else if flag.is_eq_spec(T::zero_spec()) {
        w.times_spec(h21).plus_spec(z)
    } else {
        w.neg_spec().plus_spec(h22.times_spec(z))
    }
}

/// The first coordinates after the rotation.
pub open spec fn rotm_x<T: Real>(param: Seq<T>, x: Seq<T>, inc_x: int, y: Seq<T>, inc_y: int, n: int) -> spec_fn(int) -> T {
    |i: int| rotm_first(param, x[offset(n, inc_x, i)], y[offset(n, inc_y, i)])
}

/// The second coordinates after the rotation.
pub open spec fn rotm_y<T: Real>(param: Seq<T>, x: Seq<T>, inc_x: int, y: Seq<T>, inc_y: int, n: int) -> spec_fn(int) -> T {
    |i: int| rotm_second(param, x[offset(n, inc_x, i)], y[offset(n, inc_y, i)])
}

/// Which entries of `H` are implied by the flag.
#[derive(Clone, Copy, Debug, PartialEq, Eq, Structural)]
enum Form {
    /// All four entries are stored.
    Full,
    /// The diagonal is 1.
    UnitDiagonal,
    /// `h12` is 1 and `h21` is -1.
    UnitAntiDiagonal,
}

/// The form that the flag `flag` stands for, the identity apart.
spec fn form_of<T: Real>(flag: T) -> Form {
    if flag.is_lt_spec(T::zero_spec()) {
        Form::Full
    } else if flag.is_eq_spec(T::zero_spec()) {
        Form::UnitDiagonal
    } else {
        Form::UnitAntiDiagonal
    }
}

/// Computes `H * (w, z)` for a rotation of the given form.
fn apply<T: Real>(form: Form, param: &[T], w: T, z: T) -> (r: (T, T))
    requires
        param@.len() >= 5,
        form == form_of(param@[0]),
    ensures
        r.0 == rotm_first(param@, w, z),
        r.1 == rotm_second(param@, w, z),
{
    match form {
        Form::Full => {
            let sh11 = param[1];
            let sh12 = param[3];
            let sh21 = param[2];
            let sh22 = param[4];
            (w.times(sh11).plus(z.times(sh12)), w.times(sh21).plus(z.times(sh22)))
        },
        Form::UnitDiagonal => {
            let sh12 = param[3];
            let sh21 = param[2];
            (w.plus(z.times(sh12)), w.times(sh21).plus(z))
        },
        Form::UnitAntiDiagonal => {
            let sh11 = param[1];
            let sh22 = param[4];
            (w.times(sh11).plus(z), w.neg().plus(sh22.times(z)))
        },
    }
}

/// Applies the modified Givens rotation stored in `param` to the `n`
/// points `(x[i], y[i])`.
///
/// `param` holds the flag and, behind it, `h11`, `h21`, `h12`, `h22`. Both
/// coordinates of a point are computed from the point as it was. Nothing
/// happens when `n` is not positive or the flag says that `H` is the
/// identity.
pub fn sd_rotm<T: Real>(
    n: BlasInt,
    x: &mut [T],
    inc_x: BlasInt,
    y: &mut [T],
    inc_y: BlasInt,
    param: &[T],
)
    requires
        n > 0 ==> inc_x != 0 && inc_y != 0,
        extent(n as int, inc_x as int) <= old(x)@.len(),
        extent(n as int, inc_y as int) <= old(y)@.len(),
        param@.len() >= 5,
    ensures
        n <= 0 || rotm_is_identity(param@) ==> final(x)@ == old(x)@ && final(y)@ == old(y)@,
        !rotm_is_identity(param@) ==> elementwise(
            old(x)@,
            final(x)@,
            n as int,
            inc_x as int,
            rotm_x(param@, old(x)@, inc_x as int, old(y)@, inc_y as int, n as int),
        ),
        !rotm_is_identity(param@) ==> elementwise(
            old(y)@,
            final(y)@,
            n as int,
            inc_y as int,
            rotm_y(param@, old(x)@, inc_x as int, old(y)@, inc_y as int, n as int),
        ),
{
    let ghost x0 = x@;
    let ghost y0 = y@;
    let ghost fx = rotm_x(param@, x0, inc_x as int, y0, inc_y as int, n as int);
    let ghost fy = rotm_y(param@, x0, inc_x as int, y0, inc_y as int, n as int);
    proof {
        lemma_settled_none(x0, n as int, inc_x as int, fx);
        lemma_settled_none(y0, n as int, inc_y as int, fy);
    }
    let flag = param[0];
    if n <= 0 || flag.plus(T::from_decimal(2, 0)).is_eq(T::zero()) {
        return;
    }
    let form = if flag.is_lt(T::zero()) {
        Form::Full
    } else if flag.is_eq(T::zero()) {
        Form::UnitDiagonal
    } else {
        Form::UnitAntiDiagonal
    };
    let mut cx = Cursor::first(x, n, inc_x);
    let mut cy = Cursor::first(y, n, inc_y);
    while cx.i < n
        invariant
            inc_x != 0 && inc_y != 0,
            cx.walks(n as int, inc_x as int),
            cy.walks(n as int, inc_y as int),
            cx.i == cy.i,
            x0.len() >= extent(n as int, inc_x as int),
            y0.len() >= extent(n as int, inc_y as int),
            settled(x0, x@, n as int, inc_x as int, fx, cx.i as int),
            settled(y0, y@, n as int, inc_y as int, fy, cy.i as int),
            fx == rotm_x(param@, x0, inc_x as int, y0, inc_y as int, n as int),
            fy == rotm_y(param@, x0, inc_x as int, y0, inc_y as int, n as int),
            param@.len() >= 5,
            form == form_of(param@[0]),
        decreases n - cx.i,
    {
        let w = cx.get(x);
        let z = cy.get(y);
        let r = apply(form, param, w, z);
        cx.put(x, r.0, Ghost(x0), Ghost(fx));
        cy.put(y, r.1, Ghost(y0), Ghost(fy));
        cx.step();
        cy.step();
    }
}

} // verus!
