//! Index arithmetic shared by the kernels.
use vstd::prelude::*;
use crate::common::BlasInt;
use crate::stride::start_offset;

verus! {

/// The code point of `c` with the ASCII lower-case letters folded onto
/// their upper-case forms.
pub open spec fn ascii_upper(c: char) -> int {
    if 'a' <= c && c <= 'z' {
        c as int - 32
    } else {
        c as int
    }
}

fn ascii_upper_code(c: char) -> (r: u32)
    ensures
        r == ascii_upper(c),
{
    let code: u32 = c as u32;
    if 97 <= code && code <= 122 {
        code - 32
    } else {
        code
    }
}

/// Compares two letters without regard to ASCII case.
pub fn letter_same(l: char, r: char) -> (same: bool)
    ensures
        same == (ascii_upper(l) == ascii_upper(r)),
{
    ascii_upper_code(l) == ascii_upper_code(r)
}

/// Position of element (`i`, `j`) of a column-major matrix whose columns lie
/// `lda` elements apart.
pub open spec fn spec_col_major_index(i: int, j: int, lda: int) -> int {
    i + j * lda
}

/// Computes the position of element (`i`, `j`) of a column-major matrix with
/// leading dimension `lda`.
pub fn col_major_index(i: usize, j: usize, lda: BlasInt) -> (r: usize)
    requires
        lda >= 0,
        spec_col_major_index(i as int, j as int, lda as int) <= usize::MAX,
    ensures
        r == spec_col_major_index(i as int, j as int, lda as int),
{
    assert(0 <= j * lda <= i + j * lda) by (nonlinear_arith)
        requires
            i >= 0,
            j >= 0,
            lda >= 0,
    ;
    i + j * (lda as usize)
}

/// Computes the position at which a walk over `n` elements with increment
/// `inc` begins: the front of the buffer when `inc` is not negative, and
/// `-inc * (n - 1)` when it is, so that adding `inc` step by step visits the
/// elements from the logical first to the logical last. A backward walk
/// needs an element to start on.
pub fn iteration_start(n: BlasInt, inc: BlasInt) -> (r: usize)
    requires
        0 <= start_offset(n as int, inc as int) <= usize::MAX,
    ensures
        r == start_offset(n as int, inc as int),
{
    if inc >= 0 {
        0
    } else {
        let step: i64 = -(inc as i64);
        let last: i64 = n as i64 - 1;
        assert(0 <= last) by (nonlinear_arith)
            requires
                0 < step,
                0 <= step * last,
        ;
        assert(step * last <= 0x4000_0000_0000_0000) by (nonlinear_arith)
            requires
                0 < step <= 0x8000_0000,
                0 <= last < 0x8000_0000,
        ;
        (step * last) as usize
    }
}

} // verus!
