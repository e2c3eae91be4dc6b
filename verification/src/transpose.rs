//! In-place transposition of a square grid of fixed-size cells. The cell pairs
//! below the diagonal are numbered row by row and dealt out to the workers in
//! turn: pair `k` belongs to worker `k % w`. No two workers share a byte, so
//! the result does not depend on how many there are.

use vstd::prelude::*;
use crate::grid::{
    byte_at, col_of, lane_of, lemma_byte_at, lemma_byte_parts, lemma_mirror, lemma_pair_index_bound,
    lemma_pair_index_injective, lemma_pair_of_bound, mirror, pair_index, pair_of, row_of, tri,
};

verus! {

/// The grid `b` with every cell `(i, j)` exchanged with cell `(j, i)`.
pub open spec fn transposed(b: Seq<u8>, s: int, d: int) -> Seq<u8> {
    Seq::new(b.len(), |p: int| b[mirror(p, s, d)])
}

/// The bytes of cell `(i, j)`.
pub open spec fn cell(b: Seq<u8>, s: int, d: int, i: int, j: int) -> Seq<u8> {
    b.subrange(byte_at(i, j, 0, s, d), byte_at(i, j, 0, s, d) + s)
}

/// The worker that pair `k` belongs to when `w` workers share the pairs.
pub open spec fn worker_of(k: int, w: int) -> int {
    k % w
}

/// Whether `k` is a pair, and one of worker `idx`.
pub open spec fn own_pair(k: int, w: int, idx: int) -> bool {
    0 <= k && worker_of(k, w) == idx
}

/// The buffer `b` after worker `idx` of `w` has exchanged its pairs, and no
/// other worker has done anything.
pub open spec fn share_exchanged(b: Seq<u8>, s: int, d: int, w: int, idx: int) -> Seq<u8> {
    Seq::new(
        b.len(),
        |p: int|
            if own_pair(pair_of(p, s, d), w, idx) {
                b[mirror(p, s, d)]
            } else {
                b[p]
            },
    )
}

/// The buffer `b` after the first `n` of `w` workers have exchanged their
/// pairs.
pub open spec fn after_workers(b: Seq<u8>, s: int, d: int, w: int, n: int) -> Seq<u8> {
    Seq::new(
        b.len(),
        |p: int|
            if 0 <= pair_of(p, s, d) && worker_of(pair_of(p, s, d), w) < n {
                b[mirror(p, s, d)]
            } else {
                b[p]
            },
    )
}

/// The buffer `b` while worker `idx` stands at its pair `next` and has
/// exchanged the first `lanes` bytes of it.
spec fn in_progress(b: Seq<u8>, s: int, d: int, w: int, idx: int, next: int, lanes: int) -> Seq<
    u8,
> {
    Seq::new(
        b.len(),
        |p: int|
            if (own_pair(pair_of(p, s, d), w, idx) && pair_of(p, s, d) < next) || (pair_of(p, s, d)
                == next && lane_of(p, s) < lanes) {
                b[mirror(p, s, d)]
            } else {
                b[p]
            },
    )
}

/// Pairs left for a worker that stands at pair `next` of a grid of side `d`.
spec fn pairs_left(d: int, next: int) -> int {
    if next < tri(d as nat) {
        tri(d as nat) - next
    } else {
        0
    }
}

proof fn lemma_same_worker_next(k: int, next: int, w: int)
    requires
        0 < w,
        0 <= next <= k < next + w,
        k % w == next % w,
    ensures
        k == next,
{
    vstd::arithmetic::div_mod::lemma_fundamental_div_mod(k, w);
    vstd::arithmetic::div_mod::lemma_fundamental_div_mod(next, w);
    let a = k / w;
    let b = next / w;
    assert(a == b) by (nonlinear_arith)
        requires
            0 < w,
            0 <= w * a - w * b < w,
    ;
}

/// Exchanging one lane of the pair `(i, j)` moves the buffer one lane on.
proof fn lemma_lane_exchanged(
    b: Seq<u8>,
    before: Seq<u8>,
    after: Seq<u8>,
    s: int,
    d: int,
    w: int,
    idx: int,
    i: int,
    j: int,
    t: int,
)
    requires
        0 < s,
        0 <= j < i < d,
        0 <= t < s,
        b.len() == s * d * d,
        before == in_progress(b, s, d, w, idx, pair_index(i, j), t),
        after == before.update(byte_at(i, j, t, s, d), before[byte_at(j, i, t, s, d)]).update(
            byte_at(j, i, t, s, d),
            before[byte_at(i, j, t, s, d)],
        ),
    ensures
        after == in_progress(b, s, d, w, idx, pair_index(i, j), t + 1),
{
    let k = pair_index(i, j);
    let lo = byte_at(i, j, t, s, d);
    let hi = byte_at(j, i, t, s, d);
    lemma_byte_at(i, j, t, s, d);
    lemma_byte_at(j, i, t, s, d);
    let goal = in_progress(b, s, d, w, idx, k, t + 1);
    assert forall|p: int| 0 <= p < after.len() implies after[p] == goal[p] by {
        lemma_byte_parts(p, s, d);
        if p == lo || p == hi {
            assert(pair_of(p, s, d) == k);
            assert(mirror(lo, s, d) == hi);
            assert(mirror(hi, s, d) == lo);
        } else if pair_of(p, s, d) == k && lane_of(p, s) == t {
            let r = row_of(p, s, d);
            let c = col_of(p, s, d);
            if r > c {
                lemma_pair_index_injective(r, c, i, j);
            } else {
                lemma_pair_index_injective(c, r, i, j);
            }
        }
    }
    assert(after =~= goal);
}

/// When every lane of the pair at `next` is exchanged, the worker stands at
/// its next pair, `w` further on.
proof fn lemma_pair_exchanged(b: Seq<u8>, s: int, d: int, w: int, idx: int, next: int)
    requires
        0 < s,
        0 <= d,
        0 < w,
        0 <= next,
        next % w == idx,
        b.len() == s * d * d,
    ensures
        in_progress(b, s, d, w, idx, next, s) == in_progress(b, s, d, w, idx, next + w, 0),
{
    let x = in_progress(b, s, d, w, idx, next, s);
    let y = in_progress(b, s, d, w, idx, next + w, 0);
    assert forall|p: int| 0 <= p < x.len() implies x[p] == y[p] by {
        lemma_byte_parts(p, s, d);
        let k = pair_of(p, s, d);
        if k >= next && k < next + w && k % w == idx {
            lemma_same_worker_next(k, next, w);
        }
    }
    assert(x =~= y);
}

/// No pair before the one at a worker's own number is its own: as long as
/// the worker stands there, the buffer is untouched.
proof fn lemma_worker_start(b: Seq<u8>, s: int, d: int, w: int, idx: int)
    requires
        0 < s,
        0 <= idx < w,
    ensures
        in_progress(b, s, d, w, idx, idx, 0) == b,
{
    let x = in_progress(b, s, d, w, idx, idx, 0);
    assert forall|p: int| 0 <= p < x.len() implies x[p] == b[p] by {
        let k = pair_of(p, s, d);
        vstd::arithmetic::div_mod::lemma_mod_bound(p, s);
        if 0 <= k < idx {
            vstd::arithmetic::div_mod::lemma_small_mod(k as nat, w as nat);
        }
    }
    assert(x =~= b);
}

/// A worker that has gone past the last pair has exchanged its share.
proof fn lemma_worker_finished(b: Seq<u8>, s: int, d: int, w: int, idx: int, next: int)
    requires
        0 < s,
        0 <= d,
        next >= tri(d as nat),
        b.len() == s * d * d,
    ensures
        in_progress(b, s, d, w, idx, next, 0) == share_exchanged(b, s, d, w, idx),
{
    let x = in_progress(b, s, d, w, idx, next, 0);
    let y = share_exchanged(b, s, d, w, idx);
    assert forall|p: int| 0 <= p < x.len() implies x[p] == y[p] by {
        lemma_pair_of_bound(p, s, d);
    }
    assert(x =~= y);
}

/// The share of the next worker, exchanged after those of the workers
/// before it, gives what one worker more leaves behind.
pub proof fn lemma_next_share(b: Seq<u8>, s: int, d: int, w: int, n: int)
    requires
        0 < s,
        0 <= d,
        b.len() == s * d * d,
    ensures
        share_exchanged(after_workers(b, s, d, w, n), s, d, w, n) == after_workers(
            b,
            s,
            d,
            w,
            n + 1,
        ),
{
    let x = share_exchanged(after_workers(b, s, d, w, n), s, d, w, n);
    let y = after_workers(b, s, d, w, n + 1);
    assert forall|p: int| 0 <= p < x.len() implies x[p] == y[p] by {
        lemma_mirror(p, s, d);
    }
    assert(x =~= y);
}

/// A worker changes no byte but those of its own pairs, and the shares of
/// two workers can be exchanged in either order.
pub proof fn lemma_shares_apart(b: Seq<u8>, s: int, d: int, w: int, one: int, other: int)
    requires
        0 < s,
        0 <= d,
        b.len() == s * d * d,
    ensures
        forall|p: int|
            0 <= p < b.len() && !own_pair(pair_of(p, s, d), w, one) ==> #[trigger] share_exchanged(
                b,
                s,
                d,
                w,
                one,
            )[p] == b[p],
        share_exchanged(share_exchanged(b, s, d, w, one), s, d, w, other) == share_exchanged(
            share_exchanged(b, s, d, w, other),
            s,
            d,
            w,
            one,
        ),
{
    let x = share_exchanged(share_exchanged(b, s, d, w, one), s, d, w, other);
    let y = share_exchanged(share_exchanged(b, s, d, w, other), s, d, w, one);
    assert forall|p: int| 0 <= p < x.len() implies x[p] == y[p] by {
        lemma_mirror(p, s, d);
    }
    assert(x =~= y);
}

/// Once all of the workers have finished, whatever their number, the grid is
/// transposed; and so it is once as many have finished as the grid has
/// pairs, for the workers after those have no pair of their own.
pub proof fn lemma_all_workers_transpose(b: Seq<u8>, s: int, d: int, w: int, n: int)
    requires
        0 < s,
        0 <= d,
        0 < w,
        n >= w || n >= tri(d as nat),
        b.len() == s * d * d,
    ensures
        after_workers(b, s, d, w, n) == transposed(b, s, d),
{
    let x = after_workers(b, s, d, w, n);
    let y = transposed(b, s, d);
    assert forall|p: int| 0 <= p < x.len() implies x[p] == y[p] by {
        lemma_pair_of_bound(p, s, d);
        lemma_mirror(p, s, d);
        let k = pair_of(p, s, d);
        if k >= 0 {
            vstd::arithmetic::div_mod::lemma_mod_bound(k, w);
            vstd::arithmetic::div_mod::lemma_mod_decreases(k as nat, w as nat);
        }
    }
    assert(x =~= y);
}

/// Before any worker has run the buffer is untouched.
pub proof fn lemma_no_worker(b: Seq<u8>, s: int, d: int, w: int)
    requires
        0 < w,
    ensures
        after_workers(b, s, d, w, 0) == b,
{
    let x = after_workers(b, s, d, w, 0);
    assert forall|p: int| 0 <= p < x.len() implies x[p] == b[p] by {
        let k = pair_of(p, s, d);
        if k >= 0 {
            vstd::arithmetic::div_mod::lemma_mod_bound(k, w);
        }
    }
    assert(x =~= b);
}

/// Two groups of workers of different sizes leave the same bytes behind.
pub proof fn lemma_worker_invariance(b: Seq<u8>, s: int, d: int, w1: int, w2: int)
    requires
        0 < s,
        0 <= d,
        0 < w1,
        0 < w2,
        b.len() == s * d * d,
    ensures
        after_workers(b, s, d, w1, w1) == after_workers(b, s, d, w2, w2),
{
    lemma_all_workers_transpose(b, s, d, w1, w1);
    lemma_all_workers_transpose(b, s, d, w2, w2);
}

/// Every pair has exactly one worker, and that worker is one of the group.
pub proof fn lemma_one_worker_per_pair(k: int, w: int)
    requires
        0 <= k,
        0 < w,
    ensures
        0 <= worker_of(k, w) < w,
        forall|idx: int| #[trigger] own_pair(k, w, idx) <==> idx == worker_of(k, w),
{
    vstd::arithmetic::div_mod::lemma_mod_bound(k, w);
}

/// Transposing twice gives the grid back.
pub proof fn lemma_transpose_involution(b: Seq<u8>, s: int, d: int)
    requires
        0 < s,
        0 <= d,
        b.len() == s * d * d,
    ensures
        transposed(transposed(b, s, d), s, d) == b,
{
    let once = transposed(b, s, d);
    let twice = transposed(once, s, d);
    assert forall|p: int| 0 <= p < b.len() implies twice[p] == b[p] by {
        lemma_mirror(p, s, d);
    }
    assert(twice =~= b);
}

/// Cell `(i, j)` of the transposed grid is cell `(j, i)` of the grid.
pub proof fn lemma_transpose_cells(b: Seq<u8>, s: int, d: int, i: int, j: int)
    requires
        0 < s,
        0 <= i < d,
        0 <= j < d,
        b.len() == s * d * d,
    ensures
        cell(transposed(b, s, d), s, d, i, j) == cell(b, s, d, j, i),
{
    let x = cell(transposed(b, s, d), s, d, i, j);
    let y = cell(b, s, d, j, i);
    lemma_byte_at(i, j, 0, s, d);
    lemma_byte_at(i, j, s - 1, s, d);
    lemma_byte_at(j, i, 0, s, d);
    lemma_byte_at(j, i, s - 1, s, d);
    assert(x.len() == s);
    assert(y.len() == s);
    assert forall|t: int| 0 <= t < s implies x[t] == y[t] by {
        lemma_byte_at(i, j, t, s, d);
        lemma_byte_at(j, i, t, s, d);
        assert(x[t] == transposed(b, s, d)[byte_at(i, j, t, s, d)]);
        assert(mirror(byte_at(i, j, t, s, d), s, d) == byte_at(j, i, t, s, d));
    }
    assert(x =~= y);
}

/// A cell on the diagonal is left as it was.
pub proof fn lemma_transpose_diagonal(b: Seq<u8>, s: int, d: int, i: int)
    requires
        0 < s,
        0 <= i < d,
        b.len() == s * d * d,
    ensures
        cell(transposed(b, s, d), s, d, i, i) == cell(b, s, d, i, i),
{
    lemma_transpose_cells(b, s, d, i, i);
}

/// Moves `step` pairs on from the pair `(i, j)`; the row is `d` when that
/// leaves the grid.
fn advance(i: usize, j: usize, step: usize, d: usize) -> (at: (usize, usize))
    requires
        j < i < d,
    ensures
        pair_index(i as int, j as int) + step < tri(d as nat) ==> at.1 < at.0 < d && pair_index(
            at.0 as int,
            at.1 as int,
        ) == pair_index(i as int, j as int) + step,
        pair_index(i as int, j as int) + step >= tri(d as nat) ==> at.0 == d,
{
    let mut row: usize = i;
    let mut col: usize = j;
    let mut left: usize = step;
    while row < d && left >= row - col
        invariant
            col < row <= d,
            pair_index(row as int, col as int) + left == pair_index(i as int, j as int) + step,
        decreases d - row,
    {
        assert(tri((row + 1) as nat) == tri(row as nat) + row);
        left = left - (row - col);
        col = 0;
        row = row + 1;
    }
    if row < d {
        col = col + left;
        proof {
            lemma_pair_index_bound(row as int, col as int, d as int);
        }
    }
    (row, col)
}

/// Exchanges the cells `(i, j)` and `(j, i)` byte by byte.
fn exchange_pair(
    buf: &mut Vec<u8>,
    s: usize,
    d: usize,
    i: usize,
    j: usize,
    Ghost(b): Ghost<Seq<u8>>,
    Ghost(w): Ghost<int>,
    Ghost(idx): Ghost<int>,
)
    requires
        0 < s,
        0 < w,
        j < i < d,
        b.len() == s * d * d,
        pair_index(i as int, j as int) % w == idx,
        old(buf)@ == in_progress(b, s as int, d as int, w, idx, pair_index(i as int, j as int), 0),
    ensures
        final(buf)@ == in_progress(
            b,
            s as int,
            d as int,
            w,
            idx,
            pair_index(i as int, j as int) + w,
            0,
        ),
{
    proof {
        lemma_byte_at(i as int, j as int, 0, s as int, d as int);
        lemma_byte_at(j as int, i as int, 0, s as int, d as int);
        lemma_byte_at(i as int, j as int, s - 1, s as int, d as int);
        lemma_byte_at(j as int, i as int, s - 1, s as int, d as int);
        assert(buf.len() == b.len());
        assert(0 <= i * d <= i * d + j <= (i * d + j) * s) by (nonlinear_arith)
            requires
                0 <= i * d + j,
                1 <= s,
                0 <= i,
                0 <= d,
                0 <= j,
        ;
        assert(0 <= j * d <= j * d + i <= (j * d + i) * s) by (nonlinear_arith)
            requires
                0 <= j * d + i,
                1 <= s,
                0 <= i,
                0 <= d,
                0 <= j,
        ;
    }
    let lower: usize = (i * d + j) * s;
    let upper: usize = (j * d + i) * s;
    let mut t: usize = 0;
    while t < s
        invariant
            0 < s,
            0 < w,
            j < i < d,
            t <= s,
            b.len() == s * d * d,
            buf.len() == b.len(),
            lower == (i * d + j) * s,
            upper == (j * d + i) * s,
            lower + s <= b.len(),
            upper + s <= b.len(),
            pair_index(i as int, j as int) % w == idx,
            buf@ == in_progress(
                b,
                s as int,
                d as int,
                w,
                idx,
                pair_index(i as int, j as int),
                t as int,
            ),
        decreases s - t,
    {
        let ghost before = buf@;
        let x = buf[lower + t];
        let y = buf[upper + t];
        buf.set(lower + t, y);
        buf.set(upper + t, x);
        proof {
            lemma_lane_exchanged(
                b,
                before,
                buf@,
                s as int,
                d as int,
                w,
                idx,
                i as int,
                j as int,
                t as int,
            );
        }
        t = t + 1;
    }
    proof {
        lemma_pair_exchanged(b, s as int, d as int, w, idx, pair_index(i as int, j as int));
    }
}

/// Runs worker `idx` of `w` on the grid in `buf`: exchanges the pairs `idx`,
/// `idx + w`, `idx + 2w` and so on, as far as the grid has pairs. Says
/// whether the worker was idle, which it is when the grid has no pair for
/// it.
pub fn exchange_share(buf: &mut Vec<u8>, s: usize, d: usize, w: usize, idx: usize) -> (idle: bool)
    requires
        s >= 1,
        idx < w,
        old(buf)@.len() == s * d * d,
    ensures
        final(buf)@ == share_exchanged(old(buf)@, s as int, d as int, w as int, idx as int),
        idle == (idx >= tri(d as nat)),
{
    let ghost b = buf@;
    if d < 2 {
        proof {
            assert(tri(d as nat) == 0) by {
                reveal_with_fuel(tri, 3);
            }
            lemma_worker_start(b, s as int, d as int, w as int, idx as int);
            lemma_worker_finished(b, s as int, d as int, w as int, idx as int, idx as int);
        }
        return true;
    }
    proof {
        assert(pair_index(1, 0) == 0) by {
            reveal_with_fuel(tri, 3);
        }
        vstd::arithmetic::div_mod::lemma_small_mod(idx as nat, w as nat);
        lemma_worker_start(b, s as int, d as int, w as int, idx as int);
    }
    let start = advance(1, 0, idx, d);
    let idle = start.0 >= d;
    let mut i: usize = start.0;
    let mut j: usize = start.1;
    let ghost mut next: int = idx as int;
    while i < d
        invariant
            0 < s,
            0 < w,
            i <= d,
            b.len() == s * d * d,
            0 <= next,
            next % (w as int) == idx,
            i < d ==> j < i && pair_index(i as int, j as int) == next,
            i == d ==> next >= tri(d as nat),
            buf@ == in_progress(b, s as int, d as int, w as int, idx as int, next, 0),
        decreases pairs_left(d as int, next),
    {
        proof {
            lemma_pair_index_bound(i as int, j as int, d as int);
        }
        exchange_pair(buf, s, d, i, j, Ghost(b), Ghost(w as int), Ghost(idx as int));
        let at = advance(i, j, w, d);
        proof {
            vstd::arithmetic::div_mod::lemma_mod_add_multiples_vanish(next, w as int);
            next = next + w;
        }
        i = at.0;
        j = at.1;
    }
    proof {
        lemma_worker_finished(b, s as int, d as int, w as int, idx as int, next);
    }
    idle
}

/// Transposes the `d` by `d` grid of `s`-byte cells in `buf`, where it lies,
/// with the work dealt out to `w` workers, one share after the other.
pub fn transpose_in_place(buf: &mut Vec<u8>, s: usize, d: usize, w: usize)
    requires
        s >= 1,
        w >= 1,
        old(buf)@.len() == s * d * d,
    ensures
        final(buf)@ == transposed(old(buf)@, s as int, d as int),
{
    let ghost b = buf@;
    proof {
        lemma_no_worker(b, s as int, d as int, w as int);
    }
    let mut idx: usize = 0;
    let mut idle = false;
    while idx < w && !idle
        invariant
            0 < s,
            idx <= w,
            b.len() == s * d * d,
            idle ==> idx > tri(d as nat),
            buf@ == after_workers(b, s as int, d as int, w as int, idx as int),
        decreases w - idx,
    {
        idle = exchange_share(buf, s, d, w, idx);
        proof {
            lemma_next_share(b, s as int, d as int, w as int, idx as int);
        }
        idx = idx + 1;
    }
    proof {
        lemma_all_workers_transpose(b, s as int, d as int, w as int, idx as int);
    }
}

} // verus!
