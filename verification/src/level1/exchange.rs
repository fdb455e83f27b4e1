//! Kernels that move elements without arithmetic: swap and copy.
use vstd::prelude::*;
use crate::common::BlasInt;
use crate::stride::{
    elementwise, extent, lemma_elementwise_empty, lemma_offset_in_extent, lemma_settled_none,
    logical, offset, settled, visited, Cursor,
};

verus! {

/// `(x1, y1)` is `(x0, y0)` with the `n` logical elements of the two
/// vectors exchanged: logical element `i` of `x1` is that of `y0`, logical
/// element `i` of `y1` is that of `x0`, and every other position is as it
/// was.
pub open spec fn swapped<T>(
    x0: Seq<T>,
    y0: Seq<T>,
    x1: Seq<T>,
    y1: Seq<T>,
    n: int,
    inc_x: int,
    inc_y: int,
) -> bool {
    &&& elementwise(x0, x1, n, inc_x, logical(y0, n, inc_y))
    &&& elementwise(y0, y1, n, inc_y, logical(x0, n, inc_x))
}

/// Swapping twice restores both vectors, whatever the increments and
/// their signs.
pub proof fn lemma_swap_involution<T>(
    x0: Seq<T>,
    y0: Seq<T>,
    x1: Seq<T>,
    y1: Seq<T>,
    x2: Seq<T>,
    y2: Seq<T>,
    n: int,
    inc_x: int,
    inc_y: int,
)
    requires
        n > 0 ==> inc_x != 0 && inc_y != 0,
        extent(n, inc_x) <= x0.len(),
        extent(n, inc_y) <= y0.len(),
        swapped(x0, y0, x1, y1, n, inc_x, inc_y),
        swapped(x1, y1, x2, y2, n, inc_x, inc_y),
    ensures
        x2 == x0,
        y2 == y0,
{
    assert forall|k: int| 0 <= k < x0.len() implies x2[k] == x0[k] by {
        if visited(n, inc_x, k) {
            let j = choose|j: int| 0 <= j < n && #[trigger] offset(n, inc_x, j) == k;
            lemma_offset_in_extent(n, inc_y, j);
            assert(x2[offset(n, inc_x, j)] == y1[offset(n, inc_y, j)]);
            assert(y1[offset(n, inc_y, j)] == x0[offset(n, inc_x, j)]);
        }
    }
    assert forall|k: int| 0 <= k < y0.len() implies y2[k] == y0[k] by {
        if visited(n, inc_y, k) {
            let j = choose|j: int| 0 <= j < n && #[trigger] offset(n, inc_y, j) == k;
            lemma_offset_in_extent(n, inc_x, j);
            assert(y2[offset(n, inc_y, j)] == x1[offset(n, inc_x, j)]);
            assert(x1[offset(n, inc_x, j)] == y0[offset(n, inc_y, j)]);
        }
    }
    assert(x2 =~= x0);
    assert(y2 =~= y0);
}

/// Exchanges the `n` logical elements of `x` with those of `y`.
///
/// Afterwards logical element `i` of `x` holds what logical element `i` of
/// `y` held and the reverse; positions between the elements are untouched.
/// Nothing happens when `n` is not positive.
pub fn a_swap<T: Copy>(n: BlasInt, x: &mut [T], inc_x: BlasInt, y: &mut [T], inc_y: BlasInt)
    requires
        n > 0 ==> inc_x != 0 && inc_y != 0,
        extent(n as int, inc_x as int) <= old(x)@.len(),
        extent(n as int, inc_y as int) <= old(y)@.len(),
    ensures
        swapped(old(x)@, old(y)@, final(x)@, final(y)@, n as int, inc_x as int, inc_y as int),
        n <= 0 ==> final(x)@ == old(x)@ && final(y)@ == old(y)@,
{
    let ghost x0 = x@;
    let ghost y0 = y@;
    let ghost fx = logical(y0, n as int, inc_y as int);
    let ghost fy = logical(x0, n as int, inc_x as int);
    proof {
        lemma_settled_none(x0, n as int, inc_x as int, fx);
        lemma_settled_none(y0, n as int, inc_y as int, fy);
    }
    if n < 0 {
        return;
    }
    if inc_x == 1 && inc_y == 1 {
        // Both increments are 1: a short clean-up loop, then three at a time.
        let m = n % 3;
        let mut cx = Cursor::unit(n);
        let mut cy = Cursor::unit(n);
        while cx.i < m
            invariant
                0 <= m <= n,
                cx.i <= m,
                cx.walks(n as int, 1),
                cy.walks(n as int, 1),
                cx.i == cy.i,
                x0.len() >= extent(n as int, 1),
                y0.len() >= extent(n as int, 1),
                settled(x0, x@, n as int, 1, fx, cx.i as int),
                settled(y0, y@, n as int, 1, fy, cy.i as int),
                fx == logical(y0, n as int, 1),
                fy == logical(x0, n as int, 1),
            decreases m - cx.i,
        {
            let xv = cx.get(x);
            let yv = cy.get(y);
            cx.put(x, yv, Ghost(x0), Ghost(fx));
            cy.put(y, xv, Ghost(y0), Ghost(fy));
            cx.step();
            cy.step();
        }
        while cx.i < n
            invariant
                (n - cx.i) % 3 == 0,
                cx.walks(n as int, 1),
                cy.walks(n as int, 1),
                cx.i == cy.i,
                x0.len() >= extent(n as int, 1),
                y0.len() >= extent(n as int, 1),
                settled(x0, x@, n as int, 1, fx, cx.i as int),
                settled(y0, y@, n as int, 1, fy, cy.i as int),
                fx == logical(y0, n as int, 1),
                fy == logical(x0, n as int, 1),
            decreases n - cx.i,
        {
            let xv = cx.get(x);
            let yv = cy.get(y);
            cx.put(x, yv, Ghost(x0), Ghost(fx));
            cy.put(y, xv, Ghost(y0), Ghost(fy));
            cx.step();
            cy.step();
            let xv = cx.get(x);
            let yv = cy.get(y);
            cx.put(x, yv, Ghost(x0), Ghost(fx));
            cy.put(y, xv, Ghost(y0), Ghost(fy));
            cx.step();
            cy.step();
            let xv = cx.get(x);
            let yv = cy.get(y);
            cx.put(x, yv, Ghost(x0), Ghost(fx));
            cy.put(y, xv, Ghost(y0), Ghost(fy));
            cx.step();
            cy.step();
        }
    } else if n > 0 {
        // Unequal increments, or equal increments other than 1.
        let mut cx = Cursor::first(x, n, inc_x);
        let mut cy = Cursor::first(y, n, inc_y);
        while cx.i < n
            invariant
                inc_x != 0 && inc_y != 0,
                cx.walks(n as int, inc_x as int),
                cy.walks(n as int, inc_y as int),
                cx.i == cy.i,
                x0.len() >= extent(n as int, inc_x as int),
                y0.len() >= extent(n as int, inc_y as int),
                settled(x0, x@, n as int, inc_x as int, fx, cx.i as int),
                settled(y0, y@, n as int, inc_y as int, fy, cy.i as int),
                fx == logical(y0, n as int, inc_y as int),
                fy == logical(x0, n as int, inc_x as int),
            decreases n - cx.i,
        {
            let xv = cx.get(x);
            let yv = cy.get(y);
            cx.put(x, yv, Ghost(x0), Ghost(fx));
            cy.put(y, xv, Ghost(y0), Ghost(fy));
            cx.step();
            cy.step();
        }
    }
    proof {
        if n == 0 {
            lemma_elementwise_empty(x0, x@, 0, inc_x as int, fx);
            lemma_elementwise_empty(y0, y@, 0, inc_y as int, fy);
        }
    }
}

/// Copies the `n` logical elements of `x` to those of `y`.
///
/// Afterwards logical element `i` of `y` holds logical element `i` of `x`;
/// positions between the elements are untouched. Nothing happens when `n`
/// is not positive.
pub fn a_copy<T: Copy>(n: BlasInt, x: &[T], inc_x: BlasInt, y: &mut [T], inc_y: BlasInt)
    requires
        n > 0 ==> inc_y != 0,
        extent(n as int, inc_x as int) <= x@.len(),
        extent(n as int, inc_y as int) <= old(y)@.len(),
    ensures
        elementwise(old(y)@, final(y)@, n as int, inc_y as int, logical(x@, n as int, inc_x as int)),
        n <= 0 ==> final(y)@ == old(y)@,
{
    let ghost y0 = y@;
    let ghost f = logical(x@, n as int, inc_x as int);
    proof {
        lemma_settled_none(y0, n as int, inc_y as int, f);
    }
    if n <= 0 {
        return;
    }
    if inc_x == 1 && inc_y == 1 {
        // Both increments are 1: a short clean-up loop, then seven at a time.
        let m = n % 7;
        let mut cx = Cursor::unit(n);
        let mut cy = Cursor::unit(n);
        while cx.i < m
            invariant
                0 <= m <= n,
                cx.i <= m,
                cx.walks(n as int, 1),
                cy.walks(n as int, 1),
                cx.i == cy.i,
                x@.len() >= extent(n as int, 1),
                y0.len() >= extent(n as int, 1),
                settled(y0, y@, n as int, 1, f, cy.i as int),
                f == logical(x@, n as int, 1),
            decreases m - cx.i,
        {
            cy.put(y, cx.get(x), Ghost(y0), Ghost(f));
            cx.step();
            cy.step();
        }
        while cx.i < n
            invariant
                (n - cx.i) % 7 == 0,
                cx.walks(n as int, 1),
                cy.walks(n as int, 1),
                cx.i == cy.i,
                x@.len() >= extent(n as int, 1),
                y0.len() >= extent(n as int, 1),
                settled(y0, y@, n as int, 1, f, cy.i as int),
                f == logical(x@, n as int, 1),
            decreases n - cx.i,
        {
            cy.put(y, cx.get(x), Ghost(y0), Ghost(f));
            cx.step();
            cy.step();
            cy.put(y, cx.get(x), Ghost(y0), Ghost(f));
            cx.step();
            cy.step();
            cy.put(y, cx.get(x), Ghost(y0), Ghost(f));
            cx.step();
            cy.step();
            cy.put(y, cx.get(x), Ghost(y0), Ghost(f));
            cx.step();
            cy.step();
            cy.put(y, cx.get(x), Ghost(y0), Ghost(f));
            cx.step();
            cy.step();
            cy.put(y, cx.get(x), Ghost(y0), Ghost(f));
            cx.step();
            cy.step();
            cy.put(y, cx.get(x), Ghost(y0), Ghost(f));
            cx.step();
            cy.step();
        }
    } else {
        let mut cx = Cursor::first(x, n, inc_x);
        let mut cy = Cursor::first(y, n, inc_y);
        while cx.i < n
            invariant
                inc_y != 0,
                cx.walks(n as int, inc_x as int),
                cy.walks(n as int, inc_y as int),
                cx.i == cy.i,
                x@.len() >= extent(n as int, inc_x as int),
                y0.len() >= extent(n as int, inc_y as int),
                settled(y0, y@, n as int, inc_y as int, f, cy.i as int),
                f == logical(x@, n as int, inc_x as int),
            decreases n - cx.i,
        {
            cy.put(y, cx.get(x), Ghost(y0), Ghost(f));
            cx.step();
            cy.step();
        }
    }
}

} // verus!
