//! Index arithmetic of a square grid of fixed-size cells stored row by row,
//! and the numbering of its cell pairs below the diagonal.

use vstd::prelude::*;
use vstd::arithmetic::div_mod::{lemma_fundamental_div_mod, lemma_fundamental_div_mod_converse};

verus! {

/// Index of byte `t` of cell `(i, j)` in a grid of side `d` with `s` bytes per cell.
pub open spec fn byte_at(i: int, j: int, t: int, s: int, d: int) -> int {
    (i * d + j) * s + t
}

/// Row of the cell that byte `p` belongs to.
pub open spec fn row_of(p: int, s: int, d: int) -> int {
    (p / s) / d
}

/// Column of the cell that byte `p` belongs to.
pub open spec fn col_of(p: int, s: int, d: int) -> int {
    (p / s) % d
}

/// Position of byte `p` inside its cell.
pub open spec fn lane_of(p: int, s: int) -> int {
    p % s
}

/// The byte that sits where `p` sits, in the cell across the diagonal.
pub open spec fn mirror(p: int, s: int, d: int) -> int {
    byte_at(col_of(p, s, d), row_of(p, s, d), lane_of(p, s), s, d)
}

/// Number of cell pairs `(i, j)` with `j < i < n`.
pub open spec fn tri(n: nat) -> nat
    decreases n,
{
    if n == 0 {
        0
    } else {
        tri((n - 1) as nat) + (n - 1) as nat
    }
}

/// Position of the pair `(i, j)`, `j < i`, when the pairs below the diagonal
/// are listed row by row.
pub open spec fn pair_index(i: int, j: int) -> int {
    tri(i as nat) + j
}

/// Position of the pair that byte `p` takes part in, or -1 on the diagonal.
pub open spec fn pair_of(p: int, s: int, d: int) -> int {
    let r = row_of(p, s, d);
    let c = col_of(p, s, d);
    if r > c {
        pair_index(r, c)
    } else if c > r {
        pair_index(c, r)
    } else {
        -1
    }
}

/// A cell inside the grid has its bytes inside the buffer, and row, column
/// and lane are read back from a byte's index.
pub proof fn lemma_byte_at(i: int, j: int, t: int, s: int, d: int)
    requires
        0 <= i < d,
        0 <= j < d,
        0 <= t < s,
    ensures
        0 <= i * d + j < d * d,
        0 <= (i * d + j) * s,
        0 <= byte_at(i, j, t, s, d) < s * d * d,
        row_of(byte_at(i, j, t, s, d), s, d) == i,
        col_of(byte_at(i, j, t, s, d), s, d) == j,
        lane_of(byte_at(i, j, t, s, d), s) == t,
{
    let c = i * d + j;
    assert(0 <= c < d * d) by (nonlinear_arith)
        requires
            0 <= i < d,
            0 <= j < d,
            c == i * d + j,
    ;
    assert(0 <= c * s && c * s + t < s * d * d) by (nonlinear_arith)
        requires
            0 <= c < d * d,
            0 <= t < s,
    ;
    lemma_fundamental_div_mod_converse(c * s + t, s, c, t);
    lemma_fundamental_div_mod_converse(c, d, i, j);
}

/// Every byte of the buffer lies in exactly one lane of one cell of the grid.
pub proof fn lemma_byte_parts(p: int, s: int, d: int)
    requires
        0 < s,
        0 <= d,
        0 <= p < s * d * d,
    ensures
        0 < d,
        0 <= row_of(p, s, d) < d,
        0 <= col_of(p, s, d) < d,
        0 <= lane_of(p, s) < s,
        p == byte_at(row_of(p, s, d), col_of(p, s, d), lane_of(p, s), s, d),
{
    assert(d > 0) by (nonlinear_arith)
        requires
            0 <= d,
            0 <= p < s * d * d,
    ;
    let c = p / s;
    lemma_fundamental_div_mod(p, s);
    assert(0 <= c < d * d) by (nonlinear_arith)
        requires
            0 < s,
            0 <= p < s * d * d,
            p == s * c + p % s,
            0 <= p % s < s,
    ;
    lemma_fundamental_div_mod(c, d);
    let r = c / d;
    assert(0 <= r < d) by (nonlinear_arith)
        requires
            0 < d,
            0 <= c < d * d,
            c == d * r + c % d,
            0 <= c % d < d,
    ;
    assert((r * d + c % d) * s + p % s == p) by (nonlinear_arith)
        requires
            p == s * c + p % s,
            c == d * r + c % d,
    ;
}

/// Crossing the diagonal swaps row and column, keeps the lane and the pair,
/// and leads back when done twice.
pub proof fn lemma_mirror(p: int, s: int, d: int)
    requires
        0 < s,
        0 <= d,
        0 <= p < s * d * d,
    ensures
        0 <= mirror(p, s, d) < s * d * d,
        row_of(mirror(p, s, d), s, d) == col_of(p, s, d),
        col_of(mirror(p, s, d), s, d) == row_of(p, s, d),
        lane_of(mirror(p, s, d), s) == lane_of(p, s),
        pair_of(mirror(p, s, d), s, d) == pair_of(p, s, d),
        mirror(mirror(p, s, d), s, d) == p,
        row_of(p, s, d) == col_of(p, s, d) ==> mirror(p, s, d) == p,
{
    lemma_byte_parts(p, s, d);
    lemma_byte_at(col_of(p, s, d), row_of(p, s, d), lane_of(p, s), s, d);
}

/// The count of pairs grows with the side of the grid.
pub proof fn lemma_tri_monotonic(a: nat, b: nat)
    requires
        a <= b,
    ensures
        tri(a) <= tri(b),
    decreases b,
{
    if a < b {
        lemma_tri_monotonic(a, (b - 1) as nat);
    }
}

/// A pair of a grid of side `d` has a position below `tri(d)`.
pub proof fn lemma_pair_index_bound(i: int, j: int, d: int)
    requires
        0 <= j < i < d,
    ensures
        0 <= pair_index(i, j) < tri(d as nat),
{
    assert(tri((i + 1) as nat) == tri(i as nat) + i);
    lemma_tri_monotonic((i + 1) as nat, d as nat);
}

/// Two pairs at the same position are the same pair.
pub proof fn lemma_pair_index_injective(i: int, j: int, i2: int, j2: int)
    requires
        0 <= j < i,
        0 <= j2 < i2,
        pair_index(i, j) == pair_index(i2, j2),
    ensures
        i == i2,
        j == j2,
{
    if i < i2 {
        lemma_pair_index_bound(i, j, i2);
    } else if i2 < i {
        lemma_pair_index_bound(i2, j2, i);
    }
}

/// The pair of a byte off the diagonal lies inside the grid's pair list; a
/// byte on the diagonal has none.
pub proof fn lemma_pair_of_bound(p: int, s: int, d: int)
    requires
        0 < s,
        0 <= d,
        0 <= p < s * d * d,
    ensures
        -1 <= pair_of(p, s, d) < tri(d as nat),
        pair_of(p, s, d) == -1 <==> row_of(p, s, d) == col_of(p, s, d),
{
    lemma_byte_parts(p, s, d);
    let r = row_of(p, s, d);
    let c = col_of(p, s, d);
    if r > c {
        lemma_pair_index_bound(r, c, d);
    } else if c > r {
        lemma_pair_index_bound(c, r, d);
    }
}

} // verus!
