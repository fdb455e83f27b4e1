//! The model of a strided vector: `n` logical elements laid `inc` positions
//! apart in a buffer, read from the far end when `inc` is negative.
use vstd::prelude::*;
use crate::common::BlasInt;
use crate::utils::iteration_start;

verus! {

/// Position of logical element 0: the front of the buffer for a forward
/// walk, the far end of the spanned range for a backward one.
pub open spec fn start_offset(n: int, inc: int) -> int {
    if inc >= 0 {
        0
    } else {
        -inc * (n - 1)
    }
}

/// Position of logical element `i` of an `n`-element view with increment `inc`.
pub open spec fn offset(n: int, inc: int, i: int) -> int {
    start_offset(n, inc) + i * inc
}

/// Number of buffer positions that the view spans.
pub open spec fn extent(n: int, inc: int) -> int {
    if n <= 0 {
        0
    } else if inc >= 0 {
        (n - 1) * inc + 1
    } else {
        (n - 1) * (-inc) + 1
    }
}

/// Whether position `k` holds one of the view's logical elements.
pub open spec fn visited(n: int, inc: int, k: int) -> bool {
    exists|i: int| 0 <= i < n && #[trigger] offset(n, inc, i) == k
}

/// The logical elements of the view, by logical index.
pub open spec fn logical<T>(buf: Seq<T>, n: int, inc: int) -> spec_fn(int) -> T {
    |i: int| buf[offset(n, inc, i)]
}

/// A view whose length and increment are 32-bit integers spans at most
/// 2^62 + 1 positions.
pub proof fn lemma_extent_bounded(n: int, inc: int)
    requires
        n <= i32::MAX,
        i32::MIN <= inc <= i32::MAX,
    ensures
        0 <= extent(n, inc) <= 0x4000_0000_0000_0000,
{
    if n > 0 {
        if inc >= 0 {
            assert(0 <= (n - 1) * inc < 0x4000_0000_0000_0000) by (nonlinear_arith)
                requires
                    0 < n <= 0x7fff_ffff,
                    0 <= inc <= 0x7fff_ffff,
            ;
        } else {
            assert(0 <= (n - 1) * (-inc) < 0x4000_0000_0000_0000) by (nonlinear_arith)
                requires
                    0 < n <= 0x7fff_ffff,
                    0 < -inc <= 0x8000_0000,
            ;
        }
    }
}

/// Every logical element lies inside the spanned range.
pub proof fn lemma_offset_in_extent(n: int, inc: int, i: int)
    requires
        0 <= i < n,
    ensures
        0 <= offset(n, inc, i) < extent(n, inc),
{
    if inc >= 0 {
        assert(0 <= i * inc <= (n - 1) * inc) by (nonlinear_arith)
            requires
                0 <= i < n,
                inc >= 0,
        ;
    } else {
        assert(0 <= -inc * (n - 1) + i * inc <= (n - 1) * (-inc)) by (nonlinear_arith)
            requires
                0 <= i < n,
                inc < 0,
        ;
    }
}

/// Consecutive logical elements lie `inc` positions apart.
pub proof fn lemma_offset_next(n: int, inc: int, i: int)
    ensures
        offset(n, inc, i + 1) == offset(n, inc, i) + inc,
{
    assert((i + 1) * inc == i * inc + inc) by (nonlinear_arith);
}

/// With a non-zero increment no two logical elements share a position.
pub proof fn lemma_offset_injective(n: int, inc: int, i: int, j: int)
    requires
        inc != 0,
        i != j,
    ensures
        offset(n, inc, i) != offset(n, inc, j),
{
    assert(i * inc != j * inc) by (nonlinear_arith)
        requires
            inc != 0,
            i != j,
    ;
}

/// `after` is `before` with the first `i` logical elements of the view
/// replaced by `f` of their logical index, and nothing else changed.
pub open spec fn settled<T>(
    before: Seq<T>,
    after: Seq<T>,
    n: int,
    inc: int,
    f: spec_fn(int) -> T,
    i: int,
) -> bool {
    &&& after.len() == before.len()
    &&& forall|j: int| 0 <= j < i && j < n ==> after[#[trigger] offset(n, inc, j)] == f(j)
    &&& forall|j: int|
        i <= j < n && 0 <= j ==> after[#[trigger] offset(n, inc, j)] == before[offset(n, inc, j)]
    &&& forall|k: int| 0 <= k < before.len() && !visited(n, inc, k) ==> #[trigger] after[k] == before[k]
}

/// `after` is `before` with every logical element of the view replaced by
/// `f` of its logical index, and every other position unchanged.
pub open spec fn elementwise<T>(
    before: Seq<T>,
    after: Seq<T>,
    n: int,
    inc: int,
    f: spec_fn(int) -> T,
) -> bool {
    settled(before, after, n, inc, f, n)
}

/// Nothing is settled before the first step.
pub proof fn lemma_settled_none<T>(before: Seq<T>, n: int, inc: int, f: spec_fn(int) -> T)
    ensures
        settled(before, before, n, inc, f, 0),
{
}

/// Writing `f(i)` at logical element `i` settles one more element.
pub proof fn lemma_settled_next<T>(
    before: Seq<T>,
    cur: Seq<T>,
    n: int,
    inc: int,
    f: spec_fn(int) -> T,
    i: int,
)
    requires
        settled(before, cur, n, inc, f, i),
        0 <= i < n,
        inc != 0,
        extent(n, inc) <= before.len(),
    ensures
        0 <= offset(n, inc, i) < before.len(),
        cur[offset(n, inc, i)] == before[offset(n, inc, i)],
        settled(before, cur.update(offset(n, inc, i), f(i)), n, inc, f, i + 1),
{
    let k = offset(n, inc, i);
    let next = cur.update(k, f(i));
    lemma_offset_in_extent(n, inc, i);
    assert forall|j: int| 0 <= j < i + 1 && j < n implies next[#[trigger] offset(n, inc, j)] == f(j) by {
        if j != i {
            lemma_offset_injective(n, inc, i, j);
            lemma_offset_in_extent(n, inc, j);
        }
    }
    assert forall|j: int| i + 1 <= j < n && 0 <= j implies next[#[trigger] offset(n, inc, j)]
        == before[offset(n, inc, j)] by {
        lemma_offset_injective(n, inc, i, j);
        lemma_offset_in_extent(n, inc, j);
    }
    assert forall|m: int| 0 <= m < before.len() && !visited(n, inc, m) implies #[trigger] next[m]
        == before[m] by {
        if m == k {
            assert(offset(n, inc, i) == m);
            assert(visited(n, inc, m));
        }
    }
}

/// A buffer is itself with every logical element replaced by itself.
pub proof fn lemma_elementwise_identity<T>(buf: Seq<T>, n: int, inc: int)
    ensures
        elementwise(buf, buf, n, inc, logical(buf, n, inc)),
{
}

/// Two passes over the same view, one after the other, are one pass whose
/// element function gives what the second pass wrote.
pub proof fn lemma_elementwise_twice<T>(
    before: Seq<T>,
    mid: Seq<T>,
    after: Seq<T>,
    n: int,
    inc: int,
    first: spec_fn(int) -> T,
    second: spec_fn(int) -> T,
    both: spec_fn(int) -> T,
)
    requires
        elementwise(before, mid, n, inc, first),
        elementwise(mid, after, n, inc, second),
        forall|i: int| 0 <= i < n ==> second(i) == #[trigger] both(i),
    ensures
        elementwise(before, after, n, inc, both),
{
    assert forall|j: int| 0 <= j < n implies after[#[trigger] offset(n, inc, j)] == both(j) by {
        assert(second(j) == both(j));
    }
}

/// An element function may be replaced by one that agrees with it on the
/// view.
pub proof fn lemma_elementwise_same<T>(
    before: Seq<T>,
    after: Seq<T>,
    n: int,
    inc: int,
    f: spec_fn(int) -> T,
    g: spec_fn(int) -> T,
)
    requires
        elementwise(before, after, n, inc, f),
        forall|i: int| 0 <= i < n ==> f(i) == #[trigger] g(i),
    ensures
        elementwise(before, after, n, inc, g),
{
    assert forall|j: int| 0 <= j < n implies after[#[trigger] offset(n, inc, j)] == g(j) by {
        assert(f(j) == g(j));
    }
}

/// The element function and the buffer before determine the buffer after:
/// a contract stated by `elementwise` leaves one result only, by whichever
/// path a kernel reaches it.
pub proof fn lemma_elementwise_unique<T>(
    before: Seq<T>,
    one: Seq<T>,
    other: Seq<T>,
    n: int,
    inc: int,
    f: spec_fn(int) -> T,
)
    requires
        elementwise(before, one, n, inc, f),
        elementwise(before, other, n, inc, f),
    ensures
        one == other,
{
    assert forall|k: int| 0 <= k < before.len() implies one[k] == other[k] by {
        if visited(n, inc, k) {
            let j = choose|j: int| 0 <= j < n && #[trigger] offset(n, inc, j) == k;
            assert(one[offset(n, inc, j)] == f(j));
            assert(other[offset(n, inc, j)] == f(j));
        }
    }
    assert(one =~= other);
}

/// When the view has no elements, nothing changes.
pub proof fn lemma_elementwise_empty<T>(before: Seq<T>, after: Seq<T>, n: int, inc: int, f: spec_fn(int) -> T)
    requires
        n <= 0,
        elementwise(before, after, n, inc, f),
    ensures
        after == before,
{
    assert forall|k: int| 0 <= k < before.len() implies after[k] == before[k] by {
        assert(!visited(n, inc, k));
    }
    assert(after =~= before);
}

/// Computes the number of buffer positions that a view of `n` elements
/// with increment `inc` spans: the least length of a buffer that holds it.
pub fn span(n: BlasInt, inc: BlasInt) -> (r: u64)
    ensures
        r == extent(n as int, inc as int),
{
    proof {
        lemma_extent_bounded(n as int, inc as int);
    }
    if n <= 0 {
        0
    } else {
        let last: u64 = (n - 1) as u64;
        let step: u64 = if inc >= 0 {
            inc as u64
        } else {
            (-(inc as i64)) as u64
        };
        assert(last * step <= 0x4000_0000_0000_0000) by (nonlinear_arith)
            requires
                0 <= last < 0x8000_0000,
                0 <= step <= 0x8000_0000,
        ;
        assert(last * step == (n - 1) * step) by (nonlinear_arith)
            requires
                last == n - 1,
        ;
        last * step + 1
    }
}

/// A place in a walk over a view: a logical index together with the
/// position in the buffer that belongs to it.
pub(crate) struct Cursor {
    /// Logical index of the element under the cursor.
    pub i: BlasInt,
    /// Position of that element in the buffer.
    pub at: i64,
    /// Number of elements of the view.
    pub n: BlasInt,
    /// Increment of the view.
    pub inc: BlasInt,
}

impl Cursor {
    /// Whether the cursor stands in a walk over the view of `n` elements
    /// with increment `inc`: on one of its elements, or behind the last.
    pub(crate) open spec fn walks(self, n: int, inc: int) -> bool {
        &&& self.n == n
        &&& self.inc == inc
        &&& 0 <= self.i <= n
        &&& self.at == offset(n, inc, self.i as int)
    }

    /// The cursor on logical element 0 of a view over `buf`.
    pub(crate) fn first<T>(buf: &[T], n: BlasInt, inc: BlasInt) -> (c: Cursor)
        requires
            n >= 1,
            extent(n as int, inc as int) <= buf@.len(),
        ensures
            c.walks(n as int, inc as int),
            c.i == 0,
    {
        proof {
            assert(buf.len() == buf@.len());
            lemma_extent_bounded(n as int, inc as int);
            lemma_offset_in_extent(n as int, inc as int, 0);
        }
        Cursor { i: 0, at: iteration_start(n, inc) as i64, n, inc }
    }

    /// The cursor on logical element 0 of a view with increment 1.
    pub(crate) fn unit(n: BlasInt) -> (c: Cursor)
        requires
            n >= 0,
        ensures
            c.walks(n as int, 1),
            c.i == 0,
    {
        Cursor { i: 0, at: 0, n, inc: 1 }
    }

    /// Reads the element under the cursor.
    pub(crate) fn get<T: Copy>(&self, buf: &[T]) -> (v: T)
        requires
            self.walks(self.n as int, self.inc as int),
            self.i < self.n,
            extent(self.n as int, self.inc as int) <= buf@.len(),
        ensures
            v == buf@[offset(self.n as int, self.inc as int, self.i as int)],
    {
        proof {
            assert(buf.len() == buf@.len());
            lemma_offset_in_extent(self.n as int, self.inc as int, self.i as int);
        }
        buf[self.at as usize]
    }

    /// Writes `v` to the element under the cursor, and so settles it.
    pub(crate) fn put<T: Copy>(
        &self,
        buf: &mut [T],
        v: T,
        Ghost(before): Ghost<Seq<T>>,
        Ghost(f): Ghost<spec_fn(int) -> T>,
    )
        requires
            self.walks(self.n as int, self.inc as int),
            self.i < self.n,
            self.inc != 0,
            extent(self.n as int, self.inc as int) <= before.len(),
            settled(before, old(buf)@, self.n as int, self.inc as int, f, self.i as int),
            v == f(self.i as int),
        ensures
            settled(before, final(buf)@, self.n as int, self.inc as int, f, self.i + 1),
    {
        proof {
            assert(buf.len() == buf@.len());
            lemma_settled_next(before, buf@, self.n as int, self.inc as int, f, self.i as int);
        }
        buf[self.at as usize] = v;
    }

    /// Moves the cursor to the next element, or behind the last.
    pub(crate) fn step(&mut self)
        requires
            old(self).walks(old(self).n as int, old(self).inc as int),
            old(self).i < old(self).n,
        ensures
            final(self).walks(old(self).n as int, old(self).inc as int),
            final(self).i == old(self).i + 1,
    {
        proof {
            lemma_extent_bounded(self.n as int, self.inc as int);
            lemma_offset_in_extent(self.n as int, self.inc as int, self.i as int);
            lemma_offset_next(self.n as int, self.inc as int, self.i as int);
        }
        self.at = self.at + self.inc as i64;
        self.i = self.i + 1;
    }
}

} // verus!
