//! The general matrix-vector product.
use vstd::prelude::*;
use crate::common::{BlasInt, CBlasOrder, CBlasTranspose};
use crate::error::BlasError;
use crate::scalar::{Real, Scalar};
use crate::stride::{
    elementwise, extent, lemma_elementwise_identity, lemma_elementwise_same,
    lemma_elementwise_twice, lemma_settled_none, logical, offset, settled, span, Cursor,
};
use crate::utils::{ascii_upper, col_major_index, letter_same, spec_col_major_index};

verus! {

/// Whether `trans` asks for the matrix as it is stored: the letter N.
pub open spec fn is_no_trans(trans: char) -> bool {
    ascii_upper(trans) == ascii_upper('N')
}

/// Whether `trans` is one of the letters N, T and C, in either case.
pub open spec fn is_trans_letter(trans: char) -> bool {
    ||| ascii_upper(trans) == ascii_upper('N')
    ||| ascii_upper(trans) == ascii_upper('T')
    ||| ascii_upper(trans) == ascii_upper('C')
}

/// The position, counted from 1, of the first argument of the product that
/// is not acceptable, or 0 when all are: the letter, the two dimensions,
/// the leading dimension, which has to reach `max(1, m)`, and the two
/// increments, which must not be zero.
pub open spec fn gemv_info(trans: char, m: int, n: int, lda: int, inc_x: int, inc_y: int) -> int {
    if !is_trans_letter(trans) {
        1
    } else if m < 0 {
        2
    } else if n < 0 {
        3
    } else if lda < 1 || lda < m {
        6
    } else if inc_x == 0 {
        8
    } else if inc_y == 0 {
        11
    } else {
        0
    }
}

/// Number of elements of `x` that the product reads.
pub open spec fn gemv_len_x(trans: char, m: int, n: int) -> int {
    if is_no_trans(trans) {
        n
    } else {
        m
    }
}

/// Number of elements of `y` that the product writes.
pub open spec fn gemv_len_y(trans: char, m: int, n: int) -> int {
    if is_no_trans(trans) {
        m
    } else {
        n
    }
}

/// Number of buffer positions that an `m` by `n` column-major matrix with
/// leading dimension `lda` spans.
pub open spec fn matrix_extent(m: int, n: int, lda: int) -> int {
    if m <= 0 || n <= 0 {
        0
    } else {
        (n - 1) * lda + m
    }
}

/// Whether the product returns without touching `y`: an empty matrix, or
/// `alpha` zero together with `beta` one.
pub open spec fn gemv_is_trivial<T: Real>(m: int, n: int, alpha: T, beta: T) -> bool {
    m == 0 || n == 0 || (alpha.is_eq_spec(T::zero_spec()) && beta.is_eq_spec(T::one_spec()))
}

/// `beta * y`, where a `beta` of one leaves `y` as it is and a `beta` of
/// zero gives zero whatever `y` holds.
pub open spec fn scaled_by<T: Real>(beta: T, y: T) -> T {
    if beta.is_eq_spec(T::one_spec()) {
        y
    } else if beta.is_eq_spec(T::zero_spec()) {
        T::zero_spec()
    } else {
        beta.times_spec(y)
    }
}

/// Row `i` of `alpha * A * x` added to `base`, the first `j` columns taken
/// in turn: each step adds `(alpha * x[j]) * A[i, j]`.
pub open spec fn row_sum<T: Real>(
    alpha: T,
    a: Seq<T>,
    lda: int,
    x: Seq<T>,
    n: int,
    inc_x: int,
    i: int,
    base: T,
    j: int,
) -> T
    decreases j,
{
    if j <= 0 {
        base
    } else {
        row_sum(alpha, a, lda, x, n, inc_x, i, base, j - 1).plus_spec(
            alpha.times_spec(x[offset(n, inc_x, j - 1)]).times_spec(
                a[spec_col_major_index(i, j - 1, lda)],
            ),
        )
    }
}

/// The inner product of the first `i` entries of column `j` of `A` with
/// `x`, summed from zero in the order of the rows.
pub open spec fn column_dot<T: Real>(a: Seq<T>, lda: int, x: Seq<T>, m: int, inc_x: int, j: int, i: int) -> T
    decreases i,
{
    if i <= 0 {
        T::zero_spec()
    } else {
        column_dot(a, lda, x, m, inc_x, j, i - 1).plus_spec(
            a[spec_col_major_index(i - 1, j, lda)].times_spec(x[offset(m, inc_x, i - 1)]),
        )
    }
}

/// What the product leaves in logical element `k` of `y`.
///
/// First `y` is scaled by `beta`. Then, unless `alpha` is zero, the matrix
/// term is added: for the letter N the row sum over all `n` columns, for T
/// and C `alpha` times the inner product of column `k` with `x`.
pub open spec fn gemv_element<T: Real>(
    trans: char,
    m: int,
    n: int,
    alpha: T,
    a: Seq<T>,
    lda: int,
    x: Seq<T>,
    inc_x: int,
    beta: T,
    y: Seq<T>,
    inc_y: int,
) -> spec_fn(int) -> T {
    |k: int|
        {
            let base = scaled_by(beta, y[offset(gemv_len_y(trans, m, n), inc_y, k)]);
            if alpha.is_eq_spec(T::zero_spec()) {
                base
            } else if is_no_trans(trans) {
                row_sum(alpha, a, lda, x, n, inc_x, k, base, n)
            } else {
                base.plus_spec(alpha.times_spec(column_dot(a, lda, x, m, inc_x, k, m)))
            }
        }
}

fn check_arguments(trans: char, m: BlasInt, n: BlasInt, lda: BlasInt, inc_x: BlasInt, inc_y: BlasInt) -> (info: isize)
    ensures
        info == gemv_info(trans, m as int, n as int, lda as int, inc_x as int, inc_y as int),
{
    if !letter_same(trans, 'N') && !letter_same(trans, 'T') && !letter_same(trans, 'C') {
        1
    } else if m < 0 {
        2
    } else if n < 0 {
        3
    } else if lda < 1 || lda < m {
        6
    } else if inc_x == 0 {
        8
    } else if inc_y == 0 {
        11
    } else {
        0
    }
}

/// Forms `y := beta * y` over the `len` logical elements of `y`.
fn scale_y<T: Real>(len: BlasInt, beta: T, y: &mut [T], inc_y: BlasInt)
    requires
        len > 0,
        inc_y != 0,
        extent(len as int, inc_y as int) <= old(y)@.len(),
    ensures
        elementwise(
            old(y)@,
            final(y)@,
            len as int,
            inc_y as int,
            |k: int| scaled_by(beta, old(y)@[offset(len as int, inc_y as int, k)]),
        ),
{
    let ghost y0 = y@;
    let ghost f = |k: int| scaled_by(beta, y0[offset(len as int, inc_y as int, k)]);
    proof {
        lemma_settled_none(y0, len as int, inc_y as int, f);
    }
    if beta.is_eq(T::one()) {
        proof {
            assert forall|j: int| 0 <= j < len implies y0[#[trigger] offset(len as int, inc_y as int, j)]
                == f(j) by {}
        }
        return;
    }
    let to_zero = beta.is_eq(T::zero());
    let mut cy = Cursor::first(y, len, inc_y);
    while cy.i < len
        invariant
            inc_y != 0,
            cy.walks(len as int, inc_y as int),
            extent(len as int, inc_y as int) <= y0.len(),
            settled(y0, y@, len as int, inc_y as int, f, cy.i as int),
            f == (|k: int| scaled_by(beta, y0[offset(len as int, inc_y as int, k)])),
            !beta.is_eq_spec(T::one_spec()),
            to_zero == beta.is_eq_spec(T::zero_spec()),
        decreases len - cy.i,
    {
        let v = if to_zero {
            T::zero()
        } else {
            beta.times(cy.get(y))
        };
        cy.put(y, v, Ghost(y0), Ghost(f));
        cy.step();
    }
}

/// Reads element (`i`, `j`) of the matrix.
fn entry<T: Copy>(a: &[T], i: BlasInt, j: BlasInt, lda: BlasInt, Ghost(m): Ghost<int>, Ghost(n): Ghost<int>) -> (v: T)
    requires
        0 <= i < m,
        0 <= j < n,
        m <= lda,
        matrix_extent(m, n, lda as int) <= a@.len(),
    ensures
        v == a@[spec_col_major_index(i as int, j as int, lda as int)],
{
    proof {
        assert(a.len() == a@.len());
        assert(0 <= j * lda <= (n - 1) * lda) by (nonlinear_arith)
            requires
                0 <= j <= n - 1,
                0 <= lda,
        ;
    }
    a[col_major_index(i as usize, j as usize, lda)]
}

/// Forms `y := alpha * A * x + y`, one column of `A` after the other.
fn add_columns<T: Real>(
    m: BlasInt,
    n: BlasInt,
    alpha: T,
    a: &[T],
    lda: BlasInt,
    x: &[T],
    inc_x: BlasInt,
    y: &mut [T],
    inc_y: BlasInt,
)
    requires
        m > 0,
        n > 0,
        m <= lda,
        inc_y != 0,
        matrix_extent(m as int, n as int, lda as int) <= a@.len(),
        extent(n as int, inc_x as int) <= x@.len(),
        extent(m as int, inc_y as int) <= old(y)@.len(),
    ensures
        elementwise(
            old(y)@,
            final(y)@,
            m as int,
            inc_y as int,
            |k: int|
                row_sum(
                    alpha,
                    a@,
                    lda as int,
                    x@,
                    n as int,
                    inc_x as int,
                    k,
                    old(y)@[offset(m as int, inc_y as int, k)],
                    n as int,
                ),
        ),
{
    let ghost y0 = y@;
    let ghost sum = |j: int|
        |k: int|
            row_sum(
                alpha,
                a@,
                lda as int,
                x@,
                n as int,
                inc_x as int,
                k,
                y0[offset(m as int, inc_y as int, k)],
                j,
            );
    proof {
        lemma_elementwise_identity(y0, m as int, inc_y as int);
        lemma_elementwise_same(
            y0,
            y0,
            m as int,
            inc_y as int,
            logical(y0, m as int, inc_y as int),
            sum(0),
        );
    }
    let mut cx = Cursor::first(x, n, inc_x);
    while cx.i < n
        invariant
            m > 0,
            m <= lda,
            inc_y != 0,
            cx.walks(n as int, inc_x as int),
            matrix_extent(m as int, n as int, lda as int) <= a@.len(),
            extent(n as int, inc_x as int) <= x@.len(),
            extent(m as int, inc_y as int) <= y0.len(),
            elementwise(y0, y@, m as int, inc_y as int, sum(cx.i as int)),
            sum == (|j: int|
                |k: int|
                    row_sum(
                        alpha,
                        a@,
                        lda as int,
                        x@,
                        n as int,
                        inc_x as int,
                        k,
                        y0[offset(m as int, inc_y as int, k)],
                        j,
                    )),
        decreases n - cx.i,
    {
        let j = cx.i;
        let temp = alpha.times(cx.get(x));
        let ghost ycol = y@;
        let ghost step = |k: int|
            ycol[offset(m as int, inc_y as int, k)].plus_spec(
                temp.times_spec(a@[spec_col_major_index(k, j as int, lda as int)]),
            );
        proof {
            lemma_settled_none(ycol, m as int, inc_y as int, step);
        }
        let mut cy = Cursor::first(y, m, inc_y);
        while cy.i < m
            invariant
                0 <= j < n,
                m <= lda,
                inc_y != 0,
                cy.walks(m as int, inc_y as int),
                matrix_extent(m as int, n as int, lda as int) <= a@.len(),
                extent(m as int, inc_y as int) <= ycol.len(),
                settled(ycol, y@, m as int, inc_y as int, step, cy.i as int),
                step == (|k: int|
                    ycol[offset(m as int, inc_y as int, k)].plus_spec(
                        temp.times_spec(a@[spec_col_major_index(k, j as int, lda as int)]),
                    )),
            decreases m - cy.i,
        {
            let yv = cy.get(y);
            let av = entry(a, cy.i, j, lda, Ghost(m as int), Ghost(n as int));
            cy.put(y, yv.plus(temp.times(av)), Ghost(ycol), Ghost(step));
            cy.step();
        }
        proof {
            assert forall|k: int| 0 <= k < m implies step(k) == #[trigger] sum(j + 1)(k) by {
                assert(ycol[offset(m as int, inc_y as int, k)] == sum(j as int)(k));
            }
            lemma_elementwise_twice(
                y0,
                ycol,
                y@,
                m as int,
                inc_y as int,
                sum(j as int),
                step,
                sum(j + 1),
            );
        }
        cx.step();
    }
    proof {
        lemma_elementwise_same(
            y0,
            y@,
            m as int,
            inc_y as int,
            sum(n as int),
            |k: int|
                row_sum(
                    alpha,
                    a@,
                    lda as int,
                    x@,
                    n as int,
                    inc_x as int,
                    k,
                    y0[offset(m as int, inc_y as int, k)],
                    n as int,
                ),
        );
    }
}

/// Forms `y := alpha * A^T * x + y`, one inner product per element of `y`.
fn add_column_dots<T: Real>(
    m: BlasInt,
    n: BlasInt,
    alpha: T,
    a: &[T],
    lda: BlasInt,
    x: &[T],
    inc_x: BlasInt,
    y: &mut [T],
    inc_y: BlasInt,
)
    requires
        m > 0,
        n > 0,
        m <= lda,
        inc_y != 0,
        matrix_extent(m as int, n as int, lda as int) <= a@.len(),
        extent(m as int, inc_x as int) <= x@.len(),
        extent(n as int, inc_y as int) <= old(y)@.len(),
    ensures
        elementwise(
            old(y)@,
            final(y)@,
            n as int,
            inc_y as int,
            |k: int|
                old(y)@[offset(n as int, inc_y as int, k)].plus_spec(
                    alpha.times_spec(
                        column_dot(a@, lda as int, x@, m as int, inc_x as int, k, m as int),
                    ),
                ),
        ),
{
    let ghost y0 = y@;
    let ghost f = |k: int|
        y0[offset(n as int, inc_y as int, k)].plus_spec(
            alpha.times_spec(column_dot(a@, lda as int, x@, m as int, inc_x as int, k, m as int)),
        );
    proof {
        lemma_settled_none(y0, n as int, inc_y as int, f);
    }
    let mut cy = Cursor::first(y, n, inc_y);
    while cy.i < n
        invariant
            m > 0,
            m <= lda,
            inc_y != 0,
            cy.walks(n as int, inc_y as int),
            matrix_extent(m as int, n as int, lda as int) <= a@.len(),
            extent(m as int, inc_x as int) <= x@.len(),
            extent(n as int, inc_y as int) <= y0.len(),
            settled(y0, y@, n as int, inc_y as int, f, cy.i as int),
            f == (|k: int|
                y0[offset(n as int, inc_y as int, k)].plus_spec(
                    alpha.times_spec(
                        column_dot(a@, lda as int, x@, m as int, inc_x as int, k, m as int),
                    ),
                )),
        decreases n - cy.i,
    {
        let j = cy.i;
        let mut temp = T::zero();
        let mut cx = Cursor::first(x, m, inc_x);
        while cx.i < m
            invariant
                0 <= j < n,
                m <= lda,
                cx.walks(m as int, inc_x as int),
                matrix_extent(m as int, n as int, lda as int) <= a@.len(),
                extent(m as int, inc_x as int) <= x@.len(),
                temp == column_dot(a@, lda as int, x@, m as int, inc_x as int, j as int, cx.i as int),
            decreases m - cx.i,
        {
            let av = entry(a, cx.i, j, lda, Ghost(m as int), Ghost(n as int));
            temp = temp.plus(av.times(cx.get(x)));
            cx.step();
        }
        let yv = cy.get(y);
        cy.put(y, yv.plus(alpha.times(temp)), Ghost(y0), Ghost(f));
        cy.step();
    }
}

/// The least lengths of the matrix buffer and of the buffers of `x` and
/// `y` for a call of the product, in this order: where the arguments are
/// acceptable and the matrix is not empty, what the dimensions and
/// increments say; nothing elsewhere, for then no buffer is walked.
pub open spec fn gemv_needs(trans: char, m: int, n: int, lda: int, inc_x: int, inc_y: int) -> (int, int, int) {
    if gemv_info(trans, m, n, lda, inc_x, inc_y) == 0 && m > 0 && n > 0 {
        (
            matrix_extent(m, n, lda),
            extent(gemv_len_x(trans, m, n), inc_x),
            extent(gemv_len_y(trans, m, n), inc_y),
        )
    } else {
        (0, 0, 0)
    }
}

/// What a call of the product asks of its buffers: each is as long as the
/// call needs.
pub open spec fn gemv_fits<T>(
    trans: char,
    m: int,
    n: int,
    a: Seq<T>,
    lda: int,
    x: Seq<T>,
    inc_x: int,
    y: Seq<T>,
    inc_y: int,
) -> bool {
    let need = gemv_needs(trans, m, n, lda, inc_x, inc_y);
    need.0 <= a.len() && need.1 <= x.len() && need.2 <= y.len()
}

/// Computes the number of buffer positions that an `m` by `n` column-major
/// matrix with leading dimension `lda` spans.
pub fn matrix_span(m: BlasInt, n: BlasInt, lda: BlasInt) -> (r: i64)
    ensures
        r == matrix_extent(m as int, n as int, lda as int),
{
    if m <= 0 || n <= 0 {
        0
    } else {
        let cols: i64 = n as i64 - 1;
        let ld: i64 = lda as i64;
        assert(-0x4000_0000_0000_0000 <= cols * ld <= 0x4000_0000_0000_0000) by (nonlinear_arith)
            requires
                0 <= cols < 0x8000_0000,
                -0x8000_0000 <= ld < 0x8000_0000,
        ;
        cols * ld + m as i64
    }
}

/// Computes the least lengths of the matrix buffer and of the buffers of
/// `x` and `y` for a call of the product.
pub fn gemv_spans(
    trans: char,
    m: BlasInt,
    n: BlasInt,
    lda: BlasInt,
    inc_x: BlasInt,
    inc_y: BlasInt,
) -> (r: (u64, u64, u64))
    ensures
        (r.0 as int, r.1 as int, r.2 as int) == gemv_needs(
            trans,
            m as int,
            n as int,
            lda as int,
            inc_x as int,
            inc_y as int,
        ),
{
    if check_arguments(trans, m, n, lda, inc_x, inc_y) != 0 || m == 0 || n == 0 {
        return (0, 0, 0);
    }
    let whole = matrix_span(m, n, lda);
    proof {
        assert(0 <= (n - 1) * lda) by (nonlinear_arith)
            requires
                n >= 1,
                lda >= 1,
        ;
    }
    if letter_same(trans, 'N') {
        (whole as u64, span(n, inc_x), span(m, inc_y))
    } else {
        (whole as u64, span(m, inc_x), span(n, inc_y))
    }
}

/// What a call of the product returns and leaves in `y`.
///
/// An argument that is not acceptable is reported by its position, under
/// the routine's name, and `y` is left alone. Otherwise the call succeeds;
/// it leaves `y` alone when the matrix is empty or `alpha` is zero and
/// `beta` one, and else replaces each logical element of `y` as
/// `gemv_element` says.
pub open spec fn gemv_done<T: Real>(
    trans: char,
    m: int,
    n: int,
    alpha: T,
    a: Seq<T>,
    lda: int,
    x: Seq<T>,
    inc_x: int,
    beta: T,
    y: Seq<T>,
    inc_y: int,
    r: Result<(), BlasError>,
    y_after: Seq<T>,
) -> bool {
    let info = gemv_info(trans, m, n, lda, inc_x, inc_y);
    if info != 0 {
        &&& r == Err::<(), BlasError>(BlasError::InvalidArgument { index: info as isize, routine: "SGEMV" })
        &&& y_after == y
    } else if gemv_is_trivial(m, n, alpha, beta) {
        &&& r is Ok
        &&& y_after == y
    } else {
        &&& r is Ok
        &&& elementwise(
            y,
            y_after,
            gemv_len_y(trans, m, n),
            inc_y,
            gemv_element(trans, m, n, alpha, a, lda, x, inc_x, beta, y, inc_y),
        )
    }
}

/// Computes `y := alpha * op(A) * x + beta * y` for an `m` by `n`
/// column-major matrix `A`, where `op(A)` is `A` for the letter N and the
/// transpose of `A` for the letters T and C.
pub fn sd_gemv<T: Real>(
    trans: char,
    m: BlasInt,
    n: BlasInt,
    alpha: T,
    a: &[T],
    lda: BlasInt,
    x: &[T],
    inc_x: BlasInt,
    beta: T,
    y: &mut [T],
    inc_y: BlasInt,
) -> (r: Result<(), BlasError>)
    requires
        gemv_fits(trans, m as int, n as int, a@, lda as int, x@, inc_x as int, old(y)@, inc_y as int),
    ensures
        gemv_done(
            trans,
            m as int,
            n as int,
            alpha,
            a@,
            lda as int,
            x@,
            inc_x as int,
            beta,
            old(y)@,
            inc_y as int,
            r,
            final(y)@,
        ),
{
    let info = check_arguments(trans, m, n, lda, inc_x, inc_y);
    if info != 0 {
        return Err(BlasError::InvalidArgument { index: info, routine: "SGEMV" });
    }
    let zero = T::zero();
    let one = T::one();
    let no_effect = alpha.is_eq(zero) && beta.is_eq(one);
    if m == 0 || n == 0 || no_effect {
        return Ok(());
    }
    let no_trans = letter_same(trans, 'N');
    let len_y = if no_trans { m } else { n };
    let ghost y0 = y@;
    let ghost scaled = |k: int| scaled_by(beta, y0[offset(len_y as int, inc_y as int, k)]);
    let ghost whole = gemv_element(
        trans,
        m as int,
        n as int,
        alpha,
        a@,
        lda as int,
        x@,
        inc_x as int,
        beta,
        y0,
        inc_y as int,
    );
    scale_y(len_y, beta, y, inc_y);
    let ghost y1 = y@;
    if alpha.is_eq(zero) {
        proof {
            lemma_elementwise_same(y0, y1, len_y as int, inc_y as int, scaled, whole);
        }
        return Ok(());
    }
    if no_trans {
        add_columns(m, n, alpha, a, lda, x, inc_x, y, inc_y);
        proof {
            let added = |k: int|
                row_sum(
                    alpha,
                    a@,
                    lda as int,
                    x@,
                    n as int,
                    inc_x as int,
                    k,
                    y1[offset(m as int, inc_y as int, k)],
                    n as int,
                );
            assert forall|k: int| 0 <= k < m implies added(k) == #[trigger] whole(k) by {
                assert(y1[offset(m as int, inc_y as int, k)] == scaled(k));
            }
            lemma_elementwise_twice(y0, y1, y@, m as int, inc_y as int, scaled, added, whole);
        }
    } else {
        add_column_dots(m, n, alpha, a, lda, x, inc_x, y, inc_y);
        proof {
            let added = |k: int|
                y1[offset(n as int, inc_y as int, k)].plus_spec(
                    alpha.times_spec(
                        column_dot(a@, lda as int, x@, m as int, inc_x as int, k, m as int),
                    ),
                );
            assert forall|k: int| 0 <= k < n implies added(k) == #[trigger] whole(k) by {
                assert(y1[offset(n as int, inc_y as int, k)] == scaled(k));
            }
            lemma_elementwise_twice(y0, y1, y@, n as int, inc_y as int, scaled, added, whole);
        }
    }
    Ok(())
}

/// The letter and the dimensions under which a matrix of the given layout
/// reaches the column-major product, or nothing for a transposition flag
/// that the product does not take. A row-major matrix is the transpose of
/// the column-major matrix in the same buffer, so its dimensions change
/// places and a transposition becomes none and the reverse. The elements
/// being real, the conjugate transpose is the transpose.
pub open spec fn gemv_call(order: CBlasOrder, trans_a: CBlasTranspose, m: int, n: int) -> Option<(char, int, int)> {
    match (order, trans_a) {
        (_, CBlasTranspose::ConjNoTrans) => None,
        (CBlasOrder::ColMajor, CBlasTranspose::NoTrans) => Some(('N', m, n)),
        (CBlasOrder::ColMajor, CBlasTranspose::Trans) => Some(('T', m, n)),
        (CBlasOrder::ColMajor, _) => Some(('C', m, n)),
        (CBlasOrder::RowMajor, CBlasTranspose::NoTrans) => Some(('T', n, m)),
        (CBlasOrder::RowMajor, _) => Some(('N', n, m)),
    }
}

/// The least lengths of the matrix buffer and of the buffers of `x` and
/// `y` for a call of the product with a matrix of either layout: those of
/// the column-major product that `gemv_call` names, and nothing where it
/// names none.
pub open spec fn cblas_sgemv_needs(
    order: CBlasOrder,
    trans_a: CBlasTranspose,
    m: int,
    n: int,
    lda: int,
    inc_x: int,
    inc_y: int,
) -> (int, int, int) {
    match gemv_call(order, trans_a, m, n) {
        Some((ta, rows, cols)) => gemv_needs(ta, rows, cols, lda, inc_x, inc_y),
        None => (0, 0, 0),
    }
}

/// The letter and the dimensions under which a matrix of the given layout
/// reaches the column-major product, or nothing for a transposition flag
/// that the product does not take.
fn letter_and_shape(
    order: CBlasOrder,
    trans_a: CBlasTranspose,
    m: BlasInt,
    n: BlasInt,
) -> (r: Option<(char, BlasInt, BlasInt)>)
    ensures
        match r {
            Some((ta, rows, cols)) => gemv_call(order, trans_a, m as int, n as int) == Some(
                (ta, rows as int, cols as int),
            ),
            None => gemv_call(order, trans_a, m as int, n as int) is None,
        },
{
    match order {
        CBlasOrder::ColMajor => match trans_a {
            CBlasTranspose::NoTrans => Some(('N', m, n)),
            CBlasTranspose::Trans => Some(('T', m, n)),
            CBlasTranspose::ConjTrans => Some(('C', m, n)),
            CBlasTranspose::ConjNoTrans => None,
        },
        CBlasOrder::RowMajor => match trans_a {
            CBlasTranspose::NoTrans => Some(('T', n, m)),
            CBlasTranspose::Trans => Some(('N', n, m)),
            CBlasTranspose::ConjTrans => Some(('N', n, m)),
            CBlasTranspose::ConjNoTrans => None,
        },
    }
}

/// Computes the least lengths of the matrix buffer and of the buffers of
/// `x` and `y` for a call of the product with a matrix of either layout.
pub fn cblas_sgemv_spans(
    order: CBlasOrder,
    trans_a: CBlasTranspose,
    m: BlasInt,
    n: BlasInt,
    lda: BlasInt,
    inc_x: BlasInt,
    inc_y: BlasInt,
) -> (r: (u64, u64, u64))
    ensures
        (r.0 as int, r.1 as int, r.2 as int) == cblas_sgemv_needs(
            order,
            trans_a,
            m as int,
            n as int,
            lda as int,
            inc_x as int,
            inc_y as int,
        ),
{
    match letter_and_shape(order, trans_a, m, n) {
        Some((ta, rows, cols)) => gemv_spans(ta, rows, cols, lda, inc_x, inc_y),
        None => (0, 0, 0),
    }
}

/// Computes `y := alpha * op(A) * x + beta * y` for a matrix of either
/// layout.
///
/// A transposition flag that the product does not take is reported as the
/// second argument, and `y` is left alone; any other call is the
/// column-major product that `gemv_call` names.
pub fn cblas_sgemv<T: Real>(
    order: CBlasOrder,
    trans_a: CBlasTranspose,
    m: BlasInt,
    n: BlasInt,
    alpha: T,
    a: &[T],
    lda: BlasInt,
    x: &[T],
    inc_x: BlasInt,
    beta: T,
    y: &mut [T],
    inc_y: BlasInt,
) -> (r: Result<(), BlasError>)
    requires
        cblas_sgemv_needs(order, trans_a, m as int, n as int, lda as int, inc_x as int, inc_y as int).0
            <= a@.len(),
        cblas_sgemv_needs(order, trans_a, m as int, n as int, lda as int, inc_x as int, inc_y as int).1
            <= x@.len(),
        cblas_sgemv_needs(order, trans_a, m as int, n as int, lda as int, inc_x as int, inc_y as int).2
            <= old(y)@.len(),
    ensures
        match gemv_call(order, trans_a, m as int, n as int) {
            Some((ta, rows, cols)) => gemv_done(
                ta,
                rows,
                cols,
                alpha,
                a@,
                lda as int,
                x@,
                inc_x as int,
                beta,
                old(y)@,
                inc_y as int,
                r,
                final(y)@,
            ),
            None => {
                &&& r == Err::<(), BlasError>(
                    BlasError::InvalidArgument { index: 2, routine: "cblas_sgemv" },
                )
                &&& final(y)@ == old(y)@
            },
        },
{
    match letter_and_shape(order, trans_a, m, n) {
        Some((ta, rows, cols)) => sd_gemv(ta, rows, cols, alpha, a, lda, x, inc_x, beta, y, inc_y),
        None => Err(BlasError::InvalidArgument { index: 2, routine: "cblas_sgemv" }),
    }
}

} // verus!
