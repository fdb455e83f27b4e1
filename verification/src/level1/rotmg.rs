//! Construction of a modified Givens rotation.
use vstd::prelude::*;
use crate::scalar::{squared, Real, Scalar};

verus! {

/// The most rescalings that either scale factor undergoes. A finite number
/// of single or double precision is in range long before.
pub const RESCALE_LIMIT: u32 = 1024;

/// The working state of the construction: the two scale factors, the first
/// coordinate, and the rotation in its compact form.
///
/// `flag` says which entries of `H` are stored: -1 all four; 0 only the
/// off-diagonal `h12`, `h21`, the diagonal being 1; 1 only the diagonal
/// `h11`, `h22`, the off-diagonal being 1 and -1; -2 none, `H` being the
/// identity.
#[derive(Clone, Copy, Debug, PartialEq)]
pub struct Rotmg<T> {
    pub d1: T,
    pub d2: T,
    pub b1: T,
    pub flag: i8,
    pub h11: T,
    pub h12: T,
    pub h21: T,
    pub h22: T,
}

/// The rescaling factor, 4096.
pub open spec fn gam<T: Real>() -> T {
    T::from_decimal_spec(4096, 0)
}

/// The upper threshold of a scale factor, 1.67772e7.
pub open spec fn gamsq<T: Real>() -> T {
    T::from_decimal_spec(167772, 2)
}

/// The lower threshold of a scale factor, 5.96046e-8.
pub open spec fn rgamsq<T: Real>() -> T {
    T::from_decimal_spec(596046, -13i32)
}

/// The element that stands for `flag` in the parameter array.
pub open spec fn flag_value<T: Real>(flag: int) -> T {
    if flag == 0 {
        T::zero_spec()
    } else if flag == 1 {
        T::one_spec()
    } else if flag == -1 {
        T::one_spec().neg_spec()
    } else {
        T::from_decimal_spec(2, 0).neg_spec()
    }
}

/// The state in which the rotation and both scale factors are zeroed.
pub open spec fn wiped<T: Real>() -> Rotmg<T> {
    Rotmg {
        d1: T::zero_spec(),
        d2: T::zero_spec(),
        b1: T::zero_spec(),
        flag: -1i8,
        h11: T::zero_spec(),
        h12: T::zero_spec(),
        h21: T::zero_spec(),
        h22: T::zero_spec(),
    }
}

/// Whether a scale factor of magnitude `d` lies outside the open range
/// between the two thresholds.
pub open spec fn out_of_range<T: Real>(d: T) -> bool {
    d.is_le_spec(rgamsq::<T>()) || gamsq::<T>().is_le_spec(d)
}

/// The change of form that precedes every rescaling: the implicit entries
/// are written out and the rotation is marked as fully stored.
pub open spec fn made_explicit<T: Real>(s: Rotmg<T>) -> Rotmg<T> {
    if s.flag == 0 {
        Rotmg { h11: T::one_spec(), h22: T::one_spec(), flag: -1i8, ..s }
    } else {
        Rotmg { h21: T::one_spec().neg_spec(), h12: T::one_spec(), flag: -1i8, ..s }
    }
}

/// One rescaling of the first scale factor by the square of `gam`, with the
/// first row of `H` and the coordinate following.
pub open spec fn rescaled_first<T: Real>(s: Rotmg<T>) -> Rotmg<T> {
    let e = made_explicit(s);
    if e.d1.is_le_spec(rgamsq::<T>()) {
        Rotmg {
            d1: e.d1.times_spec(squared(gam::<T>())),
            b1: e.b1.over_spec(gam::<T>()),
            h11: e.h11.over_spec(gam::<T>()),
            h12: e.h12.over_spec(gam::<T>()),
            ..e
        }
    } else {
        Rotmg {
            d1: e.d1.over_spec(squared(gam::<T>())),
            b1: e.b1.times_spec(gam::<T>()),
            h11: e.h11.times_spec(gam::<T>()),
            h12: e.h12.times_spec(gam::<T>()),
            ..e
        }
    }
}

/// One rescaling of the second scale factor, with the second row of `H`
/// following.
pub open spec fn rescaled_second<T: Real>(s: Rotmg<T>) -> Rotmg<T> {
    let e = made_explicit(s);
    if e.d2.abs_spec().is_le_spec(rgamsq::<T>()) {
        Rotmg {
            d2: e.d2.times_spec(squared(gam::<T>())),
            h21: e.h21.over_spec(gam::<T>()),
            h22: e.h22.over_spec(gam::<T>()),
            ..e
        }
    } else {
        Rotmg {
            d2: e.d2.over_spec(squared(gam::<T>())),
            h21: e.h21.times_spec(gam::<T>()),
            h22: e.h22.times_spec(gam::<T>()),
            ..e
        }
    }
}

/// The first scale factor rescaled until it is in range, `fuel` times at
/// most.
pub open spec fn first_in_range<T: Real>(s: Rotmg<T>, fuel: nat) -> Rotmg<T>
    decreases fuel,
{
    if fuel == 0 || !out_of_range(s.d1) {
        s
    } else {
        first_in_range(rescaled_first(s), (fuel - 1) as nat)
    }
}

/// The second scale factor rescaled until its magnitude is in range, `fuel`
/// times at most.
pub open spec fn second_in_range<T: Real>(s: Rotmg<T>, fuel: nat) -> Rotmg<T>
    decreases fuel,
{
    if fuel == 0 || !out_of_range(s.d2.abs_spec()) {
        s
    } else {
        second_in_range(rescaled_second(s), (fuel - 1) as nat)
    }
}

/// Both scale factors brought into range; one that is zero is left alone.
pub open spec fn scale_checked<T: Real>(s: Rotmg<T>) -> Rotmg<T> {
    let a = if s.d1.is_eq_spec(T::zero_spec()) {
        s
    } else {
        first_in_range(s, RESCALE_LIMIT as nat)
    };
    if a.d2.is_eq_spec(T::zero_spec()) {
        a
    } else {
        second_in_range(a, RESCALE_LIMIT as nat)
    }
}

/// The rotation before any rescaling, for a first scale factor that is not
/// negative and a product `p2 = d2 * b2` that is not zero.
///
/// With `q1 = d1 * b1 * b1` and `q2 = d2 * b2 * b2`: where `|q1| > |q2|` the
/// rotation has a unit diagonal (flag 0), unless `u = 1 - h12 * h21` fails
/// to be positive, which wipes the state; otherwise a negative `q2` wipes
/// the state, and any other gives the rotation with a unit anti-diagonal
/// (flag 1), which also exchanges the scale factors.
pub open spec fn regular<T: Real>(d1: T, d2: T, b1: T, b2: T) -> Rotmg<T> {
    let zero = T::zero_spec();
    let one = T::one_spec();
    let p2 = d2.times_spec(b2);
    let p1 = d1.times_spec(b1);
    let q2 = p2.times_spec(b2);
    let q1 = p1.times_spec(b1);
    if q2.abs_spec().is_lt_spec(q1.abs_spec()) {
        let h21 = b2.neg_spec().over_spec(b1);
        let h12 = p2.over_spec(p1);
        let u = one.minus_spec(h12.times_spec(h21));
        if zero.is_lt_spec(u) {
            Rotmg {
                d1: d1.over_spec(u),
                d2: d2.over_spec(u),
                b1: b1.times_spec(u),
                flag: 0i8,
                h11: zero,
                h12,
                h21,
                h22: zero,
            }
        } else {
            wiped()
        }
    } else if q2.is_lt_spec(zero) {
        wiped()
    } else {
        let h11 = p1.over_spec(p2);
        let h22 = b1.over_spec(b2);
        let u = one.plus_spec(h11.times_spec(h22));
        Rotmg {
            d1: d2.over_spec(u),
            d2: d1.over_spec(u),
            b1: b2.times_spec(u),
            flag: 1i8,
            h11,
            h12: zero,
            h21: zero,
            h22,
        }
    }
}

/// Whether the construction returns at once with the identity: the first
/// scale factor is not negative and `d2 * b2` is zero.
pub open spec fn is_trivial<T: Real>(d1: T, d2: T, b2: T) -> bool {
    !d1.is_lt_spec(T::zero_spec()) && d2.times_spec(b2).is_eq_spec(T::zero_spec())
}

/// The state that the construction ends in.
///
/// A negative first scale factor wipes the state. A zero product `d2 * b2`
/// leaves the scale factors and the coordinate as they are and gives the
/// identity (flag -2). Any other input gives the regular rotation, rescaled
/// unless it was wiped.
pub open spec fn rotmg<T: Real>(d1: T, d2: T, b1: T, b2: T) -> Rotmg<T> {
    let zero = T::zero_spec();
    if d1.is_lt_spec(zero) {
        wiped()
    } else if is_trivial(d1, d2, b2) {
        Rotmg { d1, d2, b1, flag: -2i8, h11: zero, h12: zero, h21: zero, h22: zero }
    } else {
        let r = regular(d1, d2, b1, b2);
        if r.flag == -1 {
            r
        } else {
            scale_checked(r)
        }
    }
}

/// The parameter array after the rotation `s` was written to it: the flag
/// in front, and behind it, in the order `h11`, `h21`, `h12`, `h22`, those
/// entries that the flag says are stored. The others keep what they held.
pub open spec fn params_written<T: Real>(params: Seq<T>, s: Rotmg<T>) -> Seq<T> {
    let p = if s.flag == -1 {
        params.update(1, s.h11).update(2, s.h21).update(3, s.h12).update(4, s.h22)
    } else if s.flag == 0 {
        params.update(2, s.h21).update(3, s.h12)
    } else if s.flag == 1 {
        params.update(1, s.h11).update(4, s.h22)
    } else {
        params
    };
    p.update(0, flag_value::<T>(s.flag as int))
}

fn flag_element<T: Real>(flag: i8) -> (r: T)
    ensures
        r == flag_value::<T>(flag as int),
{
    if flag == 0 {
        T::zero()
    } else if flag == 1 {
        T::one()
    } else if flag == -1 {
        T::one().neg()
    } else {
        T::from_decimal(2, 0).neg()
    }
}

fn wipe<T: Real>() -> (r: Rotmg<T>)
    ensures
        r == wiped::<T>(),
{
    let zero = T::zero();
    Rotmg { d1: zero, d2: zero, b1: zero, flag: -1i8, h11: zero, h12: zero, h21: zero, h22: zero }
}

fn make_explicit<T: Real>(s: Rotmg<T>) -> (r: Rotmg<T>)
    ensures
        r == made_explicit(s),
{
    let mut e = s;
    if s.flag == 0 {
        e.h11 = T::one();
        e.h22 = T::one();
        e.flag = -1;
    } else {
        e.h21 = T::one().neg();
        e.h12 = T::one();
        e.flag = -1;
    }
    e
}

fn bring_first_in_range<T: Real>(s: Rotmg<T>) -> (r: Rotmg<T>)
    ensures
        r == first_in_range(s, RESCALE_LIMIT as nat),
{
    let g = T::from_decimal(4096, 0);
    let upper = T::from_decimal(167772, 2);
    let lower = T::from_decimal(596046, -13);
    let mut cur = s;
    let mut fuel: u32 = RESCALE_LIMIT;
    while fuel > 0 && (cur.d1.is_le(lower) || upper.is_le(cur.d1))
        invariant
            g == gam::<T>(),
            upper == gamsq::<T>(),
            lower == rgamsq::<T>(),
            first_in_range(cur, fuel as nat) == first_in_range(s, RESCALE_LIMIT as nat),
        decreases fuel,
    {
        let mut e = make_explicit(cur);
        if e.d1.is_le(lower) {
            e.d1 = e.d1.times(g.times(g));
            e.b1 = e.b1.over(g);
            e.h11 = e.h11.over(g);
            e.h12 = e.h12.over(g);
        } else {
            e.d1 = e.d1.over(g.times(g));
            e.b1 = e.b1.times(g);
            e.h11 = e.h11.times(g);
            e.h12 = e.h12.times(g);
        }
        assert(e == rescaled_first(cur));
        cur = e;
        fuel = fuel - 1;
    }
    cur
}

fn bring_second_in_range<T: Real>(s: Rotmg<T>) -> (r: Rotmg<T>)
    ensures
        r == second_in_range(s, RESCALE_LIMIT as nat),
{
    let g = T::from_decimal(4096, 0);
    let upper = T::from_decimal(167772, 2);
    let lower = T::from_decimal(596046, -13);
    let mut cur = s;
    let mut fuel: u32 = RESCALE_LIMIT;
    while fuel > 0 && (cur.d2.abs().is_le(lower) || upper.is_le(cur.d2.abs()))
        invariant
            g == gam::<T>(),
            upper == gamsq::<T>(),
            lower == rgamsq::<T>(),
            second_in_range(cur, fuel as nat) == second_in_range(s, RESCALE_LIMIT as nat),
        decreases fuel,
    {
        let mut e = make_explicit(cur);
        if e.d2.abs().is_le(lower) {
            e.d2 = e.d2.times(g.times(g));
            e.h21 = e.h21.over(g);
            e.h22 = e.h22.over(g);
        } else {
            e.d2 = e.d2.over(g.times(g));
            e.h21 = e.h21.times(g);
            e.h22 = e.h22.times(g);
        }
        assert(e == rescaled_second(cur));
        cur = e;
        fuel = fuel - 1;
    }
    cur
}

fn scale_check<T: Real>(s: Rotmg<T>) -> (r: Rotmg<T>)
    ensures
        r == scale_checked(s),
{
    let zero = T::zero();
    let a = if s.d1.is_eq(zero) {
        s
    } else {
        bring_first_in_range(s)
    };
    if a.d2.is_eq(zero) {
        a
    } else {
        bring_second_in_range(a)
    }
}

fn regular_case<T: Real>(d1: T, d2: T, b1: T, b2: T) -> (r: Rotmg<T>)
    ensures
        r == regular(d1, d2, b1, b2),
{
    let zero = T::zero();
    let one = T::one();
    let p2 = d2.times(b2);
    let p1 = d1.times(b1);
    let q2 = p2.times(b2);
    let q1 = p1.times(b1);
    if q2.abs().is_lt(q1.abs()) {
        let h21 = b2.neg().over(b1);
        let h12 = p2.over(p1);
        let u = one.minus(h12.times(h21));
        if zero.is_lt(u) {
            Rotmg {
                d1: d1.over(u),
                d2: d2.over(u),
                b1: b1.times(u),
                flag: 0i8,
                h11: zero,
                h12,
                h21,
                h22: zero,
            }
        } else {
            wipe()
        }
    } else if q2.is_lt(zero) {
        wipe()
    } else {
        let h11 = p1.over(p2);
        let h22 = b1.over(b2);
        let u = one.plus(h11.times(h22));
        Rotmg {
            d1: d2.over(u),
            d2: d1.over(u),
            b1: b2.times(u),
            flag: 1i8,
            h11,
            h12: zero,
            h21: zero,
            h22,
        }
    }
}

/// Constructs the modified Givens rotation `H` that zeroes the second
/// coordinate of `(sqrt(d1) * b1, sqrt(d2) * b2)`.
///
/// The scale factors and the first coordinate are updated in place, and `H`
/// is written to `params` in its compact form: the flag, then `h11`, `h21`,
/// `h12`, `h22`, of which only the entries that the flag calls stored are
/// written.
pub fn sd_rotmg<T: Real>(d1: &mut T, d2: &mut T, b1: &mut T, b2: T, params: &mut [T])
    requires
        old(params)@.len() >= 5,
    ensures
        *final(d1) == rotmg(*old(d1), *old(d2), *old(b1), b2).d1,
        *final(d2) == rotmg(*old(d1), *old(d2), *old(b1), b2).d2,
        *final(b1) == rotmg(*old(d1), *old(d2), *old(b1), b2).b1,
        final(params)@ == params_written(
            old(params)@,
            rotmg(*old(d1), *old(d2), *old(b1), b2),
        ),
{
    let zero = T::zero();
    let s = if (*d1).is_lt(zero) {
        wipe()
    } else if (*d2).times(b2).is_eq(zero) {
        Rotmg { d1: *d1, d2: *d2, b1: *b1, flag: -2i8, h11: zero, h12: zero, h21: zero, h22: zero }
    } else {
        let r = regular_case(*d1, *d2, *b1, b2);
        if r.flag == -1 {
            r
        } else {
            scale_check(r)
        }
    };
    *d1 = s.d1;
    *d2 = s.d2;
    *b1 = s.b1;
    if s.flag == -1 {
        params[1] = s.h11;
        params[2] = s.h21;
        params[3] = s.h12;
        params[4] = s.h22;
    } else if s.flag == 0 {
        params[2] = s.h21;
        params[3] = s.h12;
    } else if s.flag == 1 {
        params[1] = s.h11;
        params[4] = s.h22;
    }
    params[0] = flag_element(s.flag);
}

} // verus!
