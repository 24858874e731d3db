use crate::arith::{lemma_mod_close, lemma_mod_shift, lemma_row_bound, lemma_split};
use crate::grid::WrappingCoords2d;
use crate::shape::{offsets_within_two, ring16, ring24, ring4, ring8, GridShape};
use vstd::arithmetic::div_mod::lemma_fundamental_div_mod;
use vstd::prelude::*;

verus! {

/// The column and row of a cell index split it exactly.
proof fn lemma_index_parts(s: GridShape, idx: int)
    requires
        s.valid(),
        0 <= idx < s.size(),
    ensures
        0 <= s.col_of(idx) < s.width,
        0 <= s.row_of(idx) < s.height,
        idx == s.row_of(idx) * s.width + s.col_of(idx),
{
    lemma_fundamental_div_mod(idx, s.width);
    lemma_row_bound(idx, s.width, s.height);
    assert(s.width * s.row_of(idx) == s.row_of(idx) * s.width) by (nonlinear_arith);
}

/// Wrapping `a` first, then adding `b`, leaves the same remainder as adding
/// first.
proof fn lemma_wrap_then_add(a: int, b: int, m: int)
    requires
        m > 0,
    ensures
        (a % m + b) % m == (a + b) % m,
{
    lemma_fundamental_div_mod(a, m);
    assert(a + b == (a % m + b) + (a / m) * m) by (nonlinear_arith)
        requires
            a == m * (a / m) + a % m,
    ;
    lemma_mod_shift(a % m + b, a / m, m);
}

/// A round trip through `coords` and `index` gives back the index on a
/// square grid.
pub proof fn lemma_square_round_trip(g: WrappingCoords2d, idx: int)
    requires
        g@.valid(),
        g@.width == g@.height,
        0 <= idx < g@.size(),
    ensures
        g@.index_of(g@.coords_of(idx).0, g@.coords_of(idx).1) == idx,
{
    let s = g@;
    lemma_index_parts(s, idx);
    let row = s.row_of(idx);
    let col = s.col_of(idx);
    lemma_split(0, col, s.width);
    lemma_split(0, row, s.height);
}

/// Shifting by a whole number of widths along x, or of heights along y, lands
/// on the same cell.
pub proof fn lemma_shift_periodic(g: WrappingCoords2d, idx: int, dx: int, dy: int, k: int)
    requires
        g@.valid(),
    ensures
        g@.shift_of(idx, dx + k * g@.width, dy) == g@.shift_of(idx, dx, dy),
        g@.shift_of(idx, dx, dy + k * g@.height) == g@.shift_of(idx, dx, dy),
{
    let s = g@;
    let col = s.col_of(idx);
    let row = s.row_of(idx);
    lemma_mod_shift(col + dx, k, s.width);
    lemma_mod_shift(row + dy, k, s.height);
    assert(col + (dx + k * s.width) == (col + dx) + k * s.width);
    assert(row + (dy + k * s.height) == (row + dy) + k * s.height);
}

/// Shifting the cell at `(x, y)` by `(dx, dy)` gives the cell at
/// `(x + dx, y + dy)`.
pub proof fn lemma_shift_of_index(g: WrappingCoords2d, x: int, y: int, dx: int, dy: int)
    requires
        g@.valid(),
    ensures
        g@.shift_of(g@.index_of(x, y), dx, dy) == g@.index_of(x + dx, y + dy),
{
    let s = g@;
    let w = s.width;
    let h = s.height;
    lemma_fundamental_div_mod(x, w);
    lemma_fundamental_div_mod(y, h);
    lemma_split(y % h, x % w, w);
    lemma_wrap_then_add(x, dx, w);
    lemma_wrap_then_add(y, dy, h);
}

/// On a grid at least 5 cells wide and high, two different offsets of at most
/// two cells along each axis lead from one cell to two different cells.
proof fn lemma_offsets_apart(s: GridShape, idx: int, a: (int, int), b: (int, int))
    requires
        s.valid(),
        s.width >= 5,
        s.height >= 5,
        -2 <= a.0 <= 2,
        -2 <= a.1 <= 2,
        -2 <= b.0 <= 2,
        -2 <= b.1 <= 2,
        s.shift_of(idx, a.0, a.1) == s.shift_of(idx, b.0, b.1),
    ensures
        a == b,
{
    let w = s.width;
    let h = s.height;
    let col = s.col_of(idx);
    let row = s.row_of(idx);
    lemma_fundamental_div_mod(col + a.0, w);
    lemma_fundamental_div_mod(col + b.0, w);
    lemma_fundamental_div_mod(row + a.1, h);
    lemma_fundamental_div_mod(row + b.1, h);
    lemma_split((row + a.1) % h, (col + a.0) % w, w);
    lemma_split((row + b.1) % h, (col + b.0) % w, w);
    lemma_mod_close(col + a.0, col + b.0, w);
    lemma_mod_close(row + a.1, row + b.1, h);
}

/// A cell shifted by nothing is itself.
proof fn lemma_shift_zero(s: GridShape, idx: int)
    requires
        s.valid(),
        0 <= idx < s.size(),
    ensures
        s.shift_of(idx, 0, 0) == idx,
{
    lemma_index_parts(s, idx);
    lemma_split(0, s.col_of(idx), s.width);
    lemma_split(0, s.row_of(idx), s.height);
}

/// The cells at distinct small offsets other than `(0, 0)` are distinct and
/// differ from the cell itself.
proof fn lemma_ring_cells_distinct(s: GridShape, idx: int, ring: Seq<(int, int)>)
    requires
        s.valid(),
        s.width >= 5,
        s.height >= 5,
        0 <= idx < s.size(),
        offsets_within_two(ring),
        ring.no_duplicates(),
        !ring.contains((0, 0)),
    ensures
        s.ring_cells(idx, ring).no_duplicates(),
        !s.ring_cells(idx, ring).contains(idx),
{
    let cells = s.ring_cells(idx, ring);
    assert forall|i: int, j: int| 0 <= i < cells.len() && 0 <= j < cells.len() && i != j implies cells[i]
        != cells[j] by {
        if cells[i] == cells[j] {
            lemma_offsets_apart(s, idx, ring[i], ring[j]);
        }
    }
    lemma_shift_zero(s, idx);
    if cells.contains(idx) {
        let i = choose|i: int| 0 <= i < cells.len() && cells[i] == idx;
        lemma_offsets_apart(s, idx, ring[i], (0, 0));
        assert(ring.contains((0, 0)));
    }
}

/// On a grid at least 5 cells wide and high, each ring of neighbors holds
/// distinct cells, none of them the cell itself.
pub proof fn lemma_rings_distinct(g: WrappingCoords2d, idx: int)
    requires
        g@.valid(),
        g@.width >= 5,
        g@.height >= 5,
        0 <= idx < g@.size(),
    ensures
        g@.ring_cells(idx, ring4()).no_duplicates(),
        !g@.ring_cells(idx, ring4()).contains(idx),
        g@.ring_cells(idx, ring8()).no_duplicates(),
        !g@.ring_cells(idx, ring8()).contains(idx),
        g@.ring_cells(idx, ring16()).no_duplicates(),
        !g@.ring_cells(idx, ring16()).contains(idx),
        g@.ring_cells(idx, ring24()).no_duplicates(),
        !g@.ring_cells(idx, ring24()).contains(idx),
{
    assert(ring4().no_duplicates());
    assert(ring8().no_duplicates());
    assert(ring16().no_duplicates());
    assert(ring24().no_duplicates());
    assert(!ring4().contains((0, 0)));
    assert(!ring8().contains((0, 0)));
    assert(!ring16().contains((0, 0)));
    assert(!ring24().contains((0, 0)));
    lemma_ring_cells_distinct(g@, idx, ring4());
    lemma_ring_cells_distinct(g@, idx, ring8());
    lemma_ring_cells_distinct(g@, idx, ring16());
    lemma_ring_cells_distinct(g@, idx, ring24());
}

} // verus!
