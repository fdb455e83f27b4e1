//! Argument errors and the parameter numbering by which they are reported.
use vstd::prelude::*;

verus! {

/// What a routine reports instead of a result.
#[derive(Debug, Clone, Copy, PartialEq, Eq)]
pub enum BlasError {
    /// The argument in position `index`, counted from 1, of `routine` was
    /// not acceptable.
    InvalidArgument { index: isize, routine: &'static str },
}

/// Whether `needle` occurs in `hay` as a contiguous run.
pub open spec fn occurs_in(needle: Seq<char>, hay: Seq<char>) -> bool {
    exists|i: int|
        0 <= i && i + needle.len() <= hay.len() && #[trigger] hay.subrange(i, i + needle.len())
            == needle
}

/// `v` with `a` and `b` exchanged.
pub open spec fn exchanged(v: int, a: int, b: int) -> int {
    if v == a {
        b
    } else if v == b {
        a
    } else {
        v
    }
}

/// The position under which a row-major caller knows the argument that a
/// column-major routine numbers `param_info`.
///
/// A row-major call reaches the routine with some of its arguments in
/// exchanged places; which ones depends on the family of the routine, found
/// by the letters in its name. With a column-major caller nothing moves.
pub open spec fn spec_param_info_transform(row_major: bool, param_info: int, rout: Seq<char>) -> int {
    if !row_major {
        param_info
    } else if occurs_in("gemm"@, rout) {
        exchanged(exchanged(param_info, 4, 5), 9, 11)
    } else if occurs_in("symm"@, rout) || occurs_in("hemm"@, rout) {
        exchanged(param_info, 4, 5)
    } else if occurs_in("trmm"@, rout) || occurs_in("trsm"@, rout) {
        exchanged(param_info, 6, 7)
    } else if occurs_in("gemv"@, rout) {
        exchanged(param_info, 3, 4)
    } else if occurs_in("gbmv"@, rout) {
        exchanged(exchanged(param_info, 3, 4), 5, 6)
    } else if occurs_in("ger"@, rout) {
        exchanged(exchanged(param_info, 2, 3), 6, 8)
    } else if occurs_in("her2"@, rout) || occurs_in("hpr2"@, rout) {
        exchanged(param_info, 6, 8)
    } else {
        param_info
    }
}

/// Whether `needle` stands in `hay` at position `at`.
fn occurs_at(needle: &str, hay: &str, at: usize, n_needle: usize, n_hay: usize) -> (r: bool)
    requires
        n_needle == needle@.len(),
        n_hay == hay@.len(),
        at + n_needle <= n_hay,
    ensures
        r == (hay@.subrange(at as int, at + n_needle) == needle@),
{
    let mut j: usize = 0;
    while j < n_needle
        invariant
            0 <= j <= n_needle,
            n_needle == needle@.len(),
            n_hay == hay@.len(),
            at + n_needle <= n_hay,
            forall|t: int| 0 <= t < j ==> hay@[at + t] == needle@[t],
        decreases n_needle - j,
    {
        if hay.get_char(at + j) != needle.get_char(j) {
            assert(hay@.subrange(at as int, at + n_needle)[j as int] != needle@[j as int]);
            return false;
        }
        j += 1;
    }
    assert(hay@.subrange(at as int, at + n_needle) =~= needle@);
    true
}

/// Whether `needle` occurs anywhere in `hay`.
fn contains(hay: &str, needle: &str) -> (r: bool)
    ensures
        r == occurs_in(needle@, hay@),
{
    let n_hay = hay.unicode_len();
    let n_needle = needle.unicode_len();
    if n_needle > n_hay {
        return false;
    }
    let last: usize = n_hay - n_needle;
    let mut i: usize = 0;
    while i < last
        invariant
            0 <= i <= last,
            last == n_hay - n_needle,
            n_needle == needle@.len(),
            n_hay == hay@.len(),
            forall|k: int| 0 <= k < i ==> #[trigger] hay@.subrange(k, k + n_needle) != needle@,
        decreases last - i,
    {
        if occurs_at(needle, hay, i, n_needle, n_hay) {
            return true;
        }
        i += 1;
    }
    occurs_at(needle, hay, last, n_needle, n_hay)
}

fn exchange(v: isize, a: isize, b: isize) -> (r: isize)
    ensures
        r == exchanged(v as int, a as int, b as int),
{
    if v == a {
        b
    } else if v == b {
        a
    } else {
        v
    }
}

/// Gives the position that the caller counts for the argument that the
/// column-major routine `rout` numbers `param_info`.
pub fn param_info_transform(row_major: bool, param_info: isize, rout: &str) -> (r: isize)
    ensures
        r == spec_param_info_transform(row_major, param_info as int, rout@),
{
    if !row_major {
        param_info
    } else if contains(rout, "gemm") {
        exchange(exchange(param_info, 4, 5), 9, 11)
    } else if contains(rout, "symm") || contains(rout, "hemm") {
        exchange(param_info, 4, 5)
    } else if contains(rout, "trmm") || contains(rout, "trsm") {
        exchange(param_info, 6, 7)
    } else if contains(rout, "gemv") {
        exchange(param_info, 3, 4)
    } else if contains(rout, "gbmv") {
        exchange(exchange(param_info, 3, 4), 5, 6)
    } else if contains(rout, "ger") {
        exchange(exchange(param_info, 2, 3), 6, 8)
    } else if contains(rout, "her2") || contains(rout, "hpr2") {
        exchange(param_info, 6, 8)
    } else {
        param_info
    }
}

} // verus!
