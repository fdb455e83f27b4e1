//! Positions of the elements of largest and smallest magnitude.
use vstd::prelude::*;
use crate::common::{BlasIndex, BlasInt, Complex};
use crate::scalar::Real;
use crate::stride::{extent, lemma_offset_in_extent, offset, Cursor};

verus! {

/// The absolute values of the logical elements of `x`.
pub open spec fn magnitudes<T: Real>(x: Seq<T>, inc: int, n: int) -> spec_fn(int) -> T {
    |i: int| x[offset(n, inc, i)].abs_spec()
}

/// The magnitudes `|re| + |im|` of the logical elements of the complex
/// vector `x`.
pub open spec fn taxicabs<T: Real>(x: Seq<Complex<T>>, inc: int, n: int) -> spec_fn(int) -> T {
    |i: int| x[offset(n, inc, i)].l1_norm_spec()
}

/// Index of the largest among the first `i` of the magnitudes `m`, found
/// by one pass: a later magnitude takes the place only where the one held
/// so far is less than it.
pub open spec fn first_max<T: Real>(m: spec_fn(int) -> T, i: int) -> int
    decreases i,
{
    if i <= 1 {
        0
    } else {
        let p = first_max(m, i - 1);
        if m(p).is_lt_spec(m(i - 1)) {
            i - 1
        } else {
            p
        }
    }
}

/// Index of the smallest among the first `i` of the magnitudes `m`, found
/// by one pass: a later magnitude takes the place only where it is less
/// than the one held so far.
pub open spec fn first_min<T: Real>(m: spec_fn(int) -> T, i: int) -> int
    decreases i,
{
    if i <= 1 {
        0
    } else {
        let p = first_min(m, i - 1);
        if m(i - 1).is_lt_spec(m(p)) {
            i - 1
        } else {
            p
        }
    }
}

/// Whether "less than" orders the first `i` of the magnitudes `m` in
/// ranks: none of them is less than itself, and among them both "less
/// than" and "not less than" carry over a magnitude in between. This asks
/// nothing of numbers that are not among them.
pub open spec fn ranked<T: Real>(m: spec_fn(int) -> T, i: int) -> bool {
    &&& forall|j: int| 0 <= j < i ==> !(#[trigger] m(j)).is_lt_spec(m(j))
    &&& forall|j: int, k: int, l: int|
        #![trigger m(j).is_lt_spec(m(k)), m(k).is_lt_spec(m(l))]
        0 <= j < i && 0 <= k < i && 0 <= l < i && m(j).is_lt_spec(m(k)) && m(k).is_lt_spec(m(l))
            ==> m(j).is_lt_spec(m(l))
    &&& forall|j: int, k: int, l: int|
        #![trigger m(j).is_lt_spec(m(k)), m(k).is_lt_spec(m(l))]
        0 <= j < i && 0 <= k < i && 0 <= l < i && !m(j).is_lt_spec(m(k)) && !m(k).is_lt_spec(m(l))
            ==> !m(j).is_lt_spec(m(l))
}

/// Where "less than" orders the first `i` magnitudes in ranks, the pass
/// finds the first index that attains their maximum: none of them is
/// larger than the one found, and every one before it is smaller.
pub proof fn lemma_first_max_is_first_maximum<T: Real>(m: spec_fn(int) -> T, i: int)
    requires
        ranked(m, i),
        i >= 1,
    ensures
        0 <= first_max(m, i) < i,
        forall|j: int| 0 <= j < i ==> !m(first_max(m, i)).is_lt_spec(#[trigger] m(j)),
        forall|j: int| 0 <= j < first_max(m, i) ==> (#[trigger] m(j)).is_lt_spec(m(first_max(m, i))),
    decreases i,
{
    if i > 1 {
        assert(ranked(m, i - 1));
        lemma_first_max_is_first_maximum(m, i - 1);
        let p = first_max(m, i - 1);
        if m(p).is_lt_spec(m(i - 1)) {
            assert forall|j: int| 0 <= j < i implies !m(i - 1).is_lt_spec(#[trigger] m(j)) by {
                if j < i - 1 && m(i - 1).is_lt_spec(m(j)) {
                    assert(m(p).is_lt_spec(m(i - 1)) && m(i - 1).is_lt_spec(m(j)));
                    assert(m(p).is_lt_spec(m(j)));
                }
            }
            assert forall|j: int| 0 <= j < i - 1 implies (#[trigger] m(j)).is_lt_spec(m(i - 1)) by {
                if !m(j).is_lt_spec(m(i - 1)) {
                    assert(!m(p).is_lt_spec(m(j)) && !m(j).is_lt_spec(m(i - 1)));
                    assert(!m(p).is_lt_spec(m(i - 1)));
                }
            }
        }
    }
}

/// Where "less than" orders the first `i` magnitudes in ranks, the pass
/// finds the first index that attains their minimum: none of them is
/// smaller than the one found, and every one before it is larger.
pub proof fn lemma_first_min_is_first_minimum<T: Real>(m: spec_fn(int) -> T, i: int)
    requires
        ranked(m, i),
        i >= 1,
    ensures
        0 <= first_min(m, i) < i,
        forall|j: int| 0 <= j < i ==> !(#[trigger] m(j)).is_lt_spec(m(first_min(m, i))),
        forall|j: int| 0 <= j < first_min(m, i) ==> m(first_min(m, i)).is_lt_spec(#[trigger] m(j)),
    decreases i,
{
    if i > 1 {
        assert(ranked(m, i - 1));
        lemma_first_min_is_first_minimum(m, i - 1);
        let p = first_min(m, i - 1);
        if m(i - 1).is_lt_spec(m(p)) {
            assert forall|j: int| 0 <= j < i implies !(#[trigger] m(j)).is_lt_spec(m(i - 1)) by {
                if j < i - 1 && m(j).is_lt_spec(m(i - 1)) {
                    assert(m(j).is_lt_spec(m(i - 1)) && m(i - 1).is_lt_spec(m(p)));
                    assert(m(j).is_lt_spec(m(p)));
                }
            }
            assert forall|j: int| 0 <= j < i - 1 implies m(i - 1).is_lt_spec(#[trigger] m(j)) by {
                if !m(i - 1).is_lt_spec(m(j)) {
                    assert(!m(i - 1).is_lt_spec(m(j)) && !m(j).is_lt_spec(m(p)));
                    assert(!m(i - 1).is_lt_spec(m(p)));
                }
            }
        }
    }
}

/// Finds the position in the buffer of the first element of largest
/// absolute value among the `n` logical elements of `x`; 0 when `n` or the
/// increment is not positive.
pub fn sd_iamax<T: Real>(n: BlasInt, x: &[T], inc_x: BlasInt) -> (r: BlasIndex)
    requires
        n > 0 && inc_x > 0 ==> extent(n as int, inc_x as int) <= x@.len(),
    ensures
        n < 1 || inc_x <= 0 ==> r == 0,
        n >= 1 && inc_x > 0 ==> r == offset(
            n as int,
            inc_x as int,
            first_max(magnitudes(x@, inc_x as int, n as int), n as int),
        ),
{
    if n < 1 || inc_x <= 0 {
        return 0;
    }
    let ghost m = magnitudes(x@, inc_x as int, n as int);
    let mut cx = Cursor::first(x, n, inc_x);
    let mut best = cx.at;
    let mut extreme = cx.get(x).abs();
    let ghost mut at: int = 0;
    cx.step();
    while cx.i < n
        invariant
            inc_x > 0,
            cx.walks(n as int, inc_x as int),
            cx.i >= 1,
            x@.len() >= extent(n as int, inc_x as int),
            m == magnitudes(x@, inc_x as int, n as int),
            at == first_max(m, cx.i as int),
            0 <= at < cx.i,
            best == offset(n as int, inc_x as int, at),
            extreme == m(at),
        decreases n - cx.i,
    {
        let tmp = cx.get(x).abs();
        if extreme.is_lt(tmp) {
            best = cx.at;
            extreme = tmp;
            proof {
                at = cx.i as int;
            }
        }
        cx.step();
    }
    proof {
        lemma_offset_in_extent(n as int, inc_x as int, at);
        assert(x.len() == x@.len());
    }
    best as usize
}

/// Finds the position in the buffer of the first element of smallest
/// absolute value among the `n` logical elements of `x`; 0 when `n` or the
/// increment is not positive.
pub fn sd_iamin<T: Real>(n: BlasInt, x: &[T], inc_x: BlasInt) -> (r: BlasIndex)
    requires
        n > 0 && inc_x > 0 ==> extent(n as int, inc_x as int) <= x@.len(),
    ensures
        n < 1 || inc_x <= 0 ==> r == 0,
        n >= 1 && inc_x > 0 ==> r == offset(
            n as int,
            inc_x as int,
            first_min(magnitudes(x@, inc_x as int, n as int), n as int),
        ),
{
    if n < 1 || inc_x <= 0 {
        return 0;
    }
    let ghost m = magnitudes(x@, inc_x as int, n as int);
    let mut cx = Cursor::first(x, n, inc_x);
    let mut best = cx.at;
    let mut extreme = cx.get(x).abs();
    let ghost mut at: int = 0;
    cx.step();
    while cx.i < n
        invariant
            inc_x > 0,
            cx.walks(n as int, inc_x as int),
            cx.i >= 1,
            x@.len() >= extent(n as int, inc_x as int),
            m == magnitudes(x@, inc_x as int, n as int),
            at == first_min(m, cx.i as int),
            0 <= at < cx.i,
            best == offset(n as int, inc_x as int, at),
            extreme == m(at),
        decreases n - cx.i,
    {
        let tmp = cx.get(x).abs();
        if tmp.is_lt(extreme) {
            best = cx.at;
            extreme = tmp;
            proof {
                at = cx.i as int;
            }
        }
        cx.step();
    }
    proof {
        lemma_offset_in_extent(n as int, inc_x as int, at);
        assert(x.len() == x@.len());
    }
    best as usize
}

/// Finds the position in the buffer of the first element of largest
/// magnitude `|re| + |im|` among the `n` logical elements of the complex
/// vector `x`; 0 when `n` or the increment is not positive.
pub fn cz_iamax<T: Real>(n: BlasInt, x: &[Complex<T>], inc_x: BlasInt) -> (r: BlasIndex)
    requires
        n > 0 && inc_x > 0 ==> extent(n as int, inc_x as int) <= x@.len(),
    ensures
        n < 1 || inc_x <= 0 ==> r == 0,
        n >= 1 && inc_x > 0 ==> r == offset(
            n as int,
            inc_x as int,
            first_max(taxicabs(x@, inc_x as int, n as int), n as int),
        ),
{
    if n < 1 || inc_x <= 0 {
        return 0;
    }
    let ghost m = taxicabs(x@, inc_x as int, n as int);
    let mut cx = Cursor::first(x, n, inc_x);
    let mut best = cx.at;
    let mut extreme = cx.get(x).l1_norm();
    let ghost mut at: int = 0;
    cx.step();
    while cx.i < n
        invariant
            inc_x > 0,
            cx.walks(n as int, inc_x as int),
            cx.i >= 1,
            x@.len() >= extent(n as int, inc_x as int),
            m == taxicabs(x@, inc_x as int, n as int),
            at == first_max(m, cx.i as int),
            0 <= at < cx.i,
            best == offset(n as int, inc_x as int, at),
            extreme == m(at),
        decreases n - cx.i,
    {
        let tmp = cx.get(x).l1_norm();
        if extreme.is_lt(tmp) {
            best = cx.at;
            extreme = tmp;
            proof {
                at = cx.i as int;
            }
        }
        cx.step();
    }
    proof {
        lemma_offset_in_extent(n as int, inc_x as int, at);
        assert(x.len() == x@.len());
    }
    best as usize
}

/// Finds the position in the buffer of the first element of smallest
/// magnitude `|re| + |im|` among the `n` logical elements of the complex
/// vector `x`; 0 when `n` or the increment is not positive.
pub fn cz_iamin<T: Real>(n: BlasInt, x: &[Complex<T>], inc_x: BlasInt) -> (r: BlasIndex)
    requires
        n > 0 && inc_x > 0 ==> extent(n as int, inc_x as int) <= x@.len(),
    ensures
        n < 1 || inc_x <= 0 ==> r == 0,
        n >= 1 && inc_x > 0 ==> r == offset(
            n as int,
            inc_x as int,
            first_min(taxicabs(x@, inc_x as int, n as int), n as int),
        ),
{
    if n < 1 || inc_x <= 0 {
        return 0;
    }
    let ghost m = taxicabs(x@, inc_x as int, n as int);
    let mut cx = Cursor::first(x, n, inc_x);
    let mut best = cx.at;
    let mut extreme = cx.get(x).l1_norm();
    let ghost mut at: int = 0;
    cx.step();
    while cx.i < n
        invariant
            inc_x > 0,
            cx.walks(n as int, inc_x as int),
            cx.i >= 1,
            x@.len() >= extent(n as int, inc_x as int),
            m == taxicabs(x@, inc_x as int, n as int),
            at == first_min(m, cx.i as int),
            0 <= at < cx.i,
            best == offset(n as int, inc_x as int, at),
            extreme == m(at),
        decreases n - cx.i,
    {
        let tmp = cx.get(x).l1_norm();
        if tmp.is_lt(extreme) {
            best = cx.at;
            extreme = tmp;
            proof {
                at = cx.i as int;
            }
        }
        cx.step();
    }
    proof {
        lemma_offset_in_extent(n as int, inc_x as int, at);
        assert(x.len() == x@.len());
    }
    best as usize
}

} // verus!
