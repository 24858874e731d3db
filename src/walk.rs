use crate::arith::{lemma_cell_bound, lemma_mod_shift, lemma_row_bound, lemma_row_mod, lemma_split};
use crate::grid::WrappingCoords2d;
use crate::shape::{
    offsets_within_two, ring16, ring24, ring4, ring8, table_holds, GridShape, Neighborhood,
};
use vstd::arithmetic::div_mod::lemma_fundamental_div_mod;
use vstd::prelude::*;

verus! {

/// Moving from cell `n` to cell `n + 1` either steps one column right within
/// the row, or starts the next row at column 0.
proof fn lemma_next_cell(n: int, w: int)
    requires
        w > 0,
        n >= 0,
    ensures
        (n + 1) % w == 0 ==> n % w == w - 1 && (n + 1) / w == n / w + 1,
        (n + 1) % w != 0 ==> (n + 1) % w == n % w + 1 && (n + 1) / w == n / w,
{
    lemma_fundamental_div_mod(n, w);
    let q = n / w;
    let c = n % w;
    if c + 1 < w {
        assert(n + 1 == q * w + (c + 1)) by (nonlinear_arith)
            requires
                n == w * q + c,
        ;
        lemma_split(q, c + 1, w);
    } else {
        assert(n + 1 == (q + 1) * w + 0) by (nonlinear_arith)
            requires
                n == w * q + c,
                c + 1 == w,
        ;
        lemma_split(q + 1, 0, w);
    }
}

/// A row-major pass over every cell of a grid that reports, for each cell,
/// the cells of a ring around it.
///
/// For each offset of the ring it keeps a column accumulator and a row
/// accumulator, each raised by a whole multiple of the dimension so that it
/// never goes negative. Stepping to the next cell adds 1 to the column
/// accumulators, or, at the start of a row, resets them and adds the width to
/// the row accumulators. A neighbor is then one remainder of each, with no
/// division of the cell index.
pub struct NeighborWalk {
    /// Width of the grid.
    width: u64,
    /// Number of cells of the grid.
    cells: u64,
    /// Number of cells of the grid, as a `usize`.
    count: usize,
    /// Column accumulators at the start of a row: `2 * width + dx`.
    x_start: Vec<u64>,
    /// Column accumulators of the next cell: `2 * width + dx + col`.
    x_acc: Vec<u64>,
    /// Row accumulators of the next cell: `2 * cells + (row + dy) * width`.
    yw_acc: Vec<u64>,
    /// The next cell to report.
    next: usize,
    shape: Ghost<GridShape>,
    ring: Ghost<Seq<(int, int)>>,
}

impl NeighborWalk {
    /// The grid that the walk covers.
    pub closed spec fn shape(&self) -> GridShape {
        self.shape@
    }

    /// The offsets of the ring that it reports around each cell.
    pub closed spec fn ring(&self) -> Seq<(int, int)> {
        self.ring@
    }

    /// The cell that the next step reports; the cell count once all are done.
    pub closed spec fn next_index(&self) -> int {
        self.next as int
    }

    spec fn x_start_holds(&self, j: int) -> bool {
        self.x_start@[j] == 2 * self.shape@.width + self.ring@[j].0
    }

    spec fn x_acc_holds(&self, j: int, n: int) -> bool {
        self.x_acc@[j] == 2 * self.shape@.width + self.ring@[j].0 + self.shape@.col_of(n)
    }

    spec fn yw_acc_holds(&self, j: int, n: int) -> bool {
        self.yw_acc@[j] == 2 * self.shape@.size() + (self.shape@.row_of(n) + self.ring@[j].1)
            * self.shape@.width
    }

    /// The accumulators agree with the shape, the ring and the next cell.
    pub closed spec fn wf(&self) -> bool {
        let s = self.shape@;
        let len = self.ring@.len();
        &&& s.valid()
        &&& self.width == s.width
        &&& self.cells == s.size()
        &&& self.count == s.size()
        &&& self.next <= self.count
        &&& offsets_within_two(self.ring@)
        &&& self.x_start@.len() == len
        &&& self.x_acc@.len() == len
        &&& self.yw_acc@.len() == len
        &&& forall|j: int| 0 <= j < len ==> #[trigger] self.x_start_holds(j)
        &&& forall|j: int| 0 <= j < len ==> #[trigger] self.x_acc_holds(j, self.next as int)
        &&& forall|j: int| 0 <= j < len ==> #[trigger] self.yw_acc_holds(j, self.next as int)
    }

    /// Writes into `out` the ring around the next cell.
    fn fill(&self, out: &mut Vec<usize>)
        requires
            self.wf(),
            self.next < self.count,
        ensures
            final(out)@.map_values(|v: usize| v as int) == self.shape@.ring_cells(
                self.next as int,
                self.ring@,
            ),
    {
        let ghost s = self.shape@;
        let ghost n = self.next as int;
        let ghost w = s.width;
        let ghost h = s.height;
        proof {
            lemma_fundamental_div_mod(n, w);
            lemma_row_bound(n, w, h);
        }
        out.clear();
        let mut j: usize = 0;
        while j < self.x_acc.len()
            invariant
                self.wf(),
                self.next < self.count,
                s == self.shape@,
                n == self.next,
                w == s.width,
                h == s.height,
                0 <= s.row_of(n) < h,
                j <= self.x_acc@.len(),
                out@.len() == j,
                forall|k: int|
                    0 <= k < j ==> out@[k] == s.shift_of(
                        n,
                        (#[trigger] self.ring@[k]).0,
                        self.ring@[k].1,
                    ),
            decreases self.x_acc@.len() - j,
        {
            proof {
                assert(self.x_acc_holds(j as int, n));
                assert(self.yw_acc_holds(j as int, n));
                let dx = self.ring@[j as int].0;
                let dy = self.ring@[j as int].1;
                let row = s.row_of(n);
                let col = s.col_of(n);
                lemma_mod_shift(col + dx, 2, w);
                lemma_mod_shift((row + dy) * w, 2, w * h);
                lemma_row_mod(row + dy, w, h);
                lemma_cell_bound((row + dy) % h, (col + dx) % w, w, h);
                assert(2 * w + dx + col == (col + dx) + 2 * w);
                assert(2 * s.size() + (row + dy) * w == (row + dy) * w + 2 * (w * h));
            }
            let v = self.x_acc[j] % self.width + self.yw_acc[j] % self.cells;
            out.push(v as usize);
            j += 1;
        }
        assert(out@.map_values(|v: usize| v as int) =~= s.ring_cells(n, self.ring@));
    }

    /// Moves the accumulators from the next cell to the one after it.
    fn advance(&mut self)
        requires
            old(self).wf(),
            old(self).next < old(self).count,
        ensures
            final(self).wf(),
            final(self).shape@ == old(self).shape@,
            final(self).ring@ == old(self).ring@,
            final(self).next == old(self).next + 1,
    {
        let ghost s = self.shape@;
        let ghost ring = self.ring@;
        let ghost n = self.next as int;
        let ghost w = s.width;
        let ghost h = s.height;
        let ghost old_x = self.x_acc@;
        let ghost old_yw = self.yw_acc@;
        let ghost row = s.row_of(n);
        let ghost col = s.col_of(n);
        proof {
            lemma_next_cell(n, w);
            lemma_fundamental_div_mod(n, w);
            lemma_row_bound(n, w, h);
            assert((h + 2) * w == w * h + 2 * w) by (nonlinear_arith);
            assert(w <= w * h) by (nonlinear_arith)
                requires
                    w > 0,
                    h >= 1,
            ;
            assert forall|k: int| 0 <= k < ring.len() implies self.x_start@[k] == 2 * w + (
            #[trigger] ring[k]).0 by {
                assert(self.x_start_holds(k));
            }
            assert forall|k: int| 0 <= k < ring.len() implies old_x[k] == 2 * w + (
            #[trigger] ring[k]).0 + col by {
                assert(self.x_acc_holds(k, n));
            }
            assert forall|k: int| 0 <= k < ring.len() implies old_yw[k] == 2 * s.size() + (row + (
            #[trigger] ring[k]).1) * w by {
                assert(self.yw_acc_holds(k, n));
            }
        }
        self.next = self.next + 1;
        let len = self.x_acc.len();
        if (self.next as u64) % self.width == 0 {
            let mut j: usize = 0;
            while j < len
                invariant
                    len == ring.len(),
                    s == self.shape@,
                    ring == self.ring@,
                    self.next == n + 1,
                    self.next <= self.count,
                    self.count == s.size(),
                    self.cells == s.size(),
                    self.width == w,
                    w == s.width,
                    h == s.height,
                    s.valid(),
                    self.width == w,
                    self.cells == s.size(),
                    w <= s.size(),
                    0 <= row < h,
                    offsets_within_two(ring),
                    (h + 2) * w == w * h + 2 * w,
                    self.x_start@.len() == len,
                    self.x_acc@.len() == len,
                    self.yw_acc@.len() == len,
                    j <= len,
                    forall|k: int|
                        0 <= k < len ==> self.x_start@[k] == 2 * w + (#[trigger] ring[k]).0,
                    forall|k: int|
                        0 <= k < len ==> old_yw[k] == 2 * s.size() + (row + (#[trigger] ring[k]).1)
                            * w,
                    forall|k: int| 0 <= k < j ==> self.x_acc@[k] == self.x_start@[k],
                    forall|k: int| 0 <= k < j ==> self.yw_acc@[k] == old_yw[k] + w,
                    forall|k: int| j <= k < len ==> self.yw_acc@[k] == old_yw[k],
                decreases len - j,
            {
                proof {
                    let dy = ring[j as int].1;
                    assert(-2 <= dy <= 2);
                    assert((row + dy) * w <= (h + 2) * w) by (nonlinear_arith)
                        requires
                            row + dy <= h + 2,
                            w > 0,
                    ;
                }
                let start = self.x_start[j];
                self.x_acc.set(j, start);
                let acc = self.yw_acc[j];
                self.yw_acc.set(j, acc + self.width);
                j += 1;
            }
            proof {
                assert forall|k: int| 0 <= k < len implies #[trigger] self.x_acc_holds(k, n + 1) by {
                    assert(self.x_start@[k] == 2 * w + ring[k].0);
                }
                assert forall|k: int| 0 <= k < len implies #[trigger] self.yw_acc_holds(k, n + 1) by {
                    let dy = ring[k].1;
                    assert(old_yw[k] == 2 * s.size() + (row + dy) * w);
                    assert((row + 1 + dy) * w == (row + dy) * w + w) by (nonlinear_arith);
                }
            }
        } else {
            let mut j: usize = 0;
            while j < len
                invariant
                    len == ring.len(),
                    s == self.shape@,
                    ring == self.ring@,
                    self.next == n + 1,
                    self.next <= self.count,
                    self.count == s.size(),
                    self.cells == s.size(),
                    self.width == w,
                    w == s.width,
                    s.valid(),
                    w <= s.size(),
                    self.yw_acc@ == old_yw,
                    self.x_start@.len() == len,
                    self.yw_acc@.len() == len,
                    forall|k: int|
                        0 <= k < len ==> self.x_start@[k] == 2 * w + (#[trigger] ring[k]).0,
                    0 <= col < w,
                    offsets_within_two(ring),
                    self.x_acc@.len() == len,
                    j <= len,
                    forall|k: int|
                        0 <= k < len ==> old_x[k] == 2 * w + (#[trigger] ring[k]).0 + col,
                    forall|k: int| 0 <= k < j ==> self.x_acc@[k] == old_x[k] + 1,
                    forall|k: int| j <= k < len ==> self.x_acc@[k] == old_x[k],
                decreases len - j,
            {
                proof {
                    assert(-2 <= ring[j as int].0 <= 2);
                    assert(old_x[j as int] == 2 * w + ring[j as int].0 + col);
                }
                let acc = self.x_acc[j];
                self.x_acc.set(j, acc + 1);
                j += 1;
            }
            proof {
                assert forall|k: int| 0 <= k < len implies #[trigger] self.x_acc_holds(k, n + 1) by {
                    assert(old_x[k] == 2 * w + ring[k].0 + col);
                }
                assert forall|k: int| 0 <= k < len implies #[trigger] self.yw_acc_holds(k, n + 1) by {
                    assert(old_yw[k] == 2 * s.size() + (row + ring[k].1) * w);
                }
            }
        }
        proof {
            assert forall|k: int| 0 <= k < len implies #[trigger] self.x_start_holds(k) by {
                assert(self.x_start@[k] == 2 * w + ring[k].0);
            }
        }
    }

    /// Reports the next cell: writes its ring into `neighbors` and returns its
    /// index. Once every cell has been reported, returns `None` and changes
    /// nothing.
    pub fn next_cell(&mut self, neighbors: &mut Vec<usize>) -> (r: Option<usize>)
        requires
            old(self).wf(),
        ensures
            final(self).wf(),
            final(self).shape() == old(self).shape(),
            final(self).ring() == old(self).ring(),
            old(self).next_index() < old(self).shape().size() ==> {
                &&& r == Some(old(self).next_index() as usize)
                &&& final(self).next_index() == old(self).next_index() + 1
                &&& final(neighbors)@.map_values(|v: usize| v as int) == old(self).shape().ring_cells(
                    old(self).next_index(),
                    old(self).ring(),
                )
            },
            old(self).next_index() >= old(self).shape().size() ==> {
                &&& r is None
                &&& final(self).next_index() == old(self).next_index()
                &&& final(neighbors)@ == old(neighbors)@
            },
    {
        if self.next >= self.count {
            return None;
        }
        let cell = self.next;
        self.fill(neighbors);
        self.advance();
        Some(cell)
    }
}

/// The visitor was called on cell `i` with the ring of `i`.
pub open spec fn visited<F: FnMut(usize, &Vec<usize>)>(
    f: F,
    shape: GridShape,
    ring: Seq<(int, int)>,
    i: usize,
) -> bool {
    exists|v: &Vec<usize>|
        v@.map_values(|x: usize| x as int) == shape.ring_cells(i as int, ring)
            && #[trigger] call_ensures(f, (i, v), ())
}

/// A call of the visitor on cell `i` with the list `v` is one that the walk
/// makes: a cell of the grid and its ring.
pub open spec fn visit_ok(shape: GridShape, ring: Seq<(int, int)>, i: usize, v: Seq<usize>) -> bool {
    &&& i < shape.size()
    &&& v.map_values(|x: usize| x as int) == shape.ring_cells(i as int, ring)
}

/// The pair visitor was called on cell `i` and the `k`-th cell of its ring.
pub open spec fn pair_visited<F: FnMut(usize, usize)>(
    f: F,
    shape: GridShape,
    ring: Seq<(int, int)>,
    i: usize,
    k: int,
) -> bool {
    call_ensures(f, (i, shape.ring_cells(i as int, ring)[k] as usize), ())
}

/// The pair visitor accepts cell `i` with the `k`-th cell of its ring.
pub open spec fn pair_accepted<F: FnMut(usize, usize)>(
    f: F,
    shape: GridShape,
    ring: Seq<(int, int)>,
    i: usize,
    k: int,
) -> bool {
    call_requires(f, (i, shape.ring_cells(i as int, ring)[k] as usize))
}

impl WrappingCoords2d {
    /// A walk over every cell of the grid, in increasing index order, that
    /// reports the given ring around each cell.
    pub fn walk(&self, around: Neighborhood) -> (r: NeighborWalk)
        ensures
            r.wf(),
            r.shape() == self@,
            r.ring() == around.offsets(),
            r.next_index() == 0,
    {
        let (wu, szu) = self.dims();
        let ghost s = self@;
        let ghost ring = around.offsets();
        let table = around.table();
        let width = wu as u64;
        let cells = szu as u64;
        let mut x_start: Vec<u64> = Vec::with_capacity(table.len());
        let mut yw_acc: Vec<u64> = Vec::with_capacity(table.len());
        let mut j: usize = 0;
        while j < table.len()
            invariant
                s == self@,
                s.valid(),
                wu == s.width,
                szu == s.size(),
                width == s.width,
                cells == s.size(),
                table_holds(table@, ring),
                offsets_within_two(ring),
                j <= table@.len(),
                x_start@.len() == j,
                yw_acc@.len() == j,
                forall|k: int|
                    0 <= k < j ==> x_start@[k] == 2 * s.width + (#[trigger] ring[k]).0,
                forall|k: int|
                    0 <= k < j ==> yw_acc@[k] == 2 * s.size() + (#[trigger] ring[k]).1 * s.width,
            decreases table@.len() - j,
        {
            let (dx, dy) = table[j];
            proof {
                assert(table@[j as int] == (dx, dy));
                assert(-2 <= ring[j as int].0 <= 2 && -2 <= ring[j as int].1 <= 2);
                assert(-2 * s.width <= dy * s.width <= 2 * s.width) by (nonlinear_arith)
                    requires
                        -2 <= dy <= 2,
                        s.width > 0,
                ;
                assert(s.width <= s.size()) by (nonlinear_arith)
                    requires
                        s.height >= 1,
                        s.width > 0,
                ;
            }
            x_start.push((2 * wu as i64 + dx as i64) as u64);
            yw_acc.push((2 * szu as i64 + dy as i64 * wu as i64) as u64);
            j += 1;
        }
        let x_acc = x_start.clone();
        let walk = NeighborWalk {
            width,
            cells,
            count: szu,
            x_start,
            x_acc,
            yw_acc,
            next: 0,
            shape: Ghost(s),
            ring: Ghost(ring),
        };
        proof {
            lemma_split(0, 0, s.width);
            assert forall|k: int| 0 <= k < ring.len() implies #[trigger] walk.x_acc_holds(k, 0) by {
                assert(walk.x_start_holds(k));
            }
            assert forall|k: int| 0 <= k < ring.len() implies #[trigger] walk.yw_acc_holds(k, 0) by {
            }
        }
        walk
    }

    /// Calls `f` once on each cell, in increasing index order, with the list
    /// of the cells of the ring around it.
    fn visit_all<F>(&self, mut f: F, around: Neighborhood)
        where
            F: FnMut(usize, &Vec<usize>),
        requires
            forall|i: usize, v: &Vec<usize>|
                visit_ok(self@, around.offsets(), i, v@) ==> #[trigger] call_requires(f, (i, v)),
        ensures
            forall|i: usize| i < self@.size() ==> #[trigger] visited(f, self@, around.offsets(), i),
    {
        let ghost f0 = f;
        let ghost ring = around.offsets();
        let mut walk = self.walk(around);
        let mut neighbors: Vec<usize> = Vec::new();
        loop
            invariant
                f == f0,
                walk.wf(),
                walk.shape() == self@,
                walk.ring() == ring,
                forall|i: usize, v: &Vec<usize>|
                    visit_ok(self@, ring, i, v@) ==> #[trigger] call_requires(f, (i, v)),
                forall|i: usize| i < walk.next_index() ==> #[trigger] visited(f, self@, ring, i),
            ensures
                f == f0,
                forall|i: usize| i < self@.size() ==> #[trigger] visited(f, self@, ring, i),
            decreases self@.size() - walk.next_index(),
        {
            match walk.next_cell(&mut neighbors) {
                Some(i) => {
                    assert(visit_ok(self@, ring, i, neighbors@));
                    f(i, &neighbors);
                    assert(visited(f, self@, ring, i));
                },
                None => {
                    break ;
                },
            }
        }
    }

    /// Calls `f` on each cell and on each cell of the ring around it, one
    /// call per pair, cell by cell in increasing index order.
    fn visit_pairs<F>(&self, mut f: F, around: Neighborhood)
        where
            F: FnMut(usize, usize),
        requires
            forall|i: usize, k: int|
                i < self@.size() && 0 <= k < around.offsets().len() ==> #[trigger] pair_accepted(
                    f,
                    self@,
                    around.offsets(),
                    i,
                    k,
                ),
        ensures
            forall|i: usize, k: int|
                i < self@.size() && 0 <= k < around.offsets().len() ==> #[trigger] pair_visited(
                    f,
                    self@,
                    around.offsets(),
                    i,
                    k,
                ),
    {
        let ghost f0 = f;
        let ghost ring = around.offsets();
        let mut walk = self.walk(around);
        let mut neighbors: Vec<usize> = Vec::new();
        loop
            invariant
                f == f0,
                walk.wf(),
                walk.shape() == self@,
                walk.ring() == ring,
                forall|i: usize, k: int|
                    i < self@.size() && 0 <= k < ring.len() ==> #[trigger] pair_accepted(f, self@, ring, i, k),
                forall|i: usize, k: int|
                    i < walk.next_index() && i < self@.size() && 0 <= k < ring.len() ==> #[trigger] pair_visited(f, self@, ring, i, k),
            ensures
                f == f0,
                forall|i: usize, k: int|
                    i < self@.size() && 0 <= k < ring.len() ==> #[trigger] pair_visited(f, self@, ring, i, k),
            decreases self@.size() - walk.next_index(),
        {
            match walk.next_cell(&mut neighbors) {
                Some(i) => {
                    let ghost cells = self@.ring_cells(i as int, ring);
                    assert(neighbors@.len() == ring.len()) by {
                        assert(neighbors@.map_values(|v: usize| v as int).len() == cells.len());
                    }
                    let mut k: usize = 0;
                    while k < neighbors.len()
                        invariant
                            f == f0,
                            i < self@.size(),
                            cells == self@.ring_cells(i as int, ring),
                            neighbors@.map_values(|v: usize| v as int) == cells,
                            neighbors@.len() == ring.len(),
                            k <= neighbors@.len(),
                            forall|i: usize, k: int|
                                i < self@.size() && 0 <= k < ring.len() ==> #[trigger] pair_accepted(f, self@, ring, i, k),
                            forall|j: int| 0 <= j < k ==> #[trigger] pair_visited(f, self@, ring, i, j),
                        decreases neighbors@.len() - k,
                    {
                        let n = neighbors[k];
                        proof {
                            assert(neighbors@.map_values(|v: usize| v as int)[k as int] == n as int);
                            assert(pair_accepted(f, self@, ring, i, k as int));
                        }
                        f(i, n);
                        assert(pair_visited(f, self@, ring, i, k as int));
                        k += 1;
                    }
                },
                None => {
                    break ;
                },
            }
        }
    }

    /// Calls `f` once on each cell, in increasing index order, with the
    /// indices of its 4 neighbors as `neighbors4` gives them.
    ///
    /// `f` is called only on cells of the grid, each with its own list, so
    /// its precondition may ask for exactly that; when this returns, it has
    /// been called on every cell. `walk` gives the same lists one cell at a
    /// time.
    pub fn for_each4<F>(&self, f: F)
        where
            F: FnMut(usize, &Vec<usize>),
        requires
            forall|i: usize, v: &Vec<usize>|
                visit_ok(self@, ring4(), i, v@) ==> #[trigger] call_requires(f, (i, v)),
        ensures
            forall|i: usize| i < self@.size() ==> #[trigger] visited(f, self@, ring4(), i),
    {
        let ghost g = f;
        self.visit_all(f, Neighborhood::Four);
        assert(Neighborhood::Four.offsets() == ring4());
        assert forall|i: usize| i < self@.size() implies #[trigger] visited(g, self@, ring4(), i) by {
            assert(visited(g, self@, Neighborhood::Four.offsets(), i));
        }
    }

    /// Calls `f` on each cell and each of its 4 neighbors, one call per pair.
    ///
    /// `f` is called only on a cell of the grid with a cell of its ring; when
    /// this returns, it has been called on every such pair.
    pub fn for_each_pair4<F>(&self, f: F)
        where
            F: FnMut(usize, usize),
        requires
            forall|i: usize, k: int|
                i < self@.size() && 0 <= k < 4 ==> #[trigger] pair_accepted(f, self@, ring4(), i, k),
        ensures
            forall|i: usize, k: int|
                i < self@.size() && 0 <= k < 4 ==> #[trigger] pair_visited(f, self@, ring4(), i, k),
    {
        let ghost g = f;
        self.visit_pairs(f, Neighborhood::Four);
        assert(Neighborhood::Four.offsets() == ring4());
        assert forall|i: usize, k: int| i < self@.size() && 0 <= k < 4 implies #[trigger] pair_visited(
            g,
            self@,
            ring4(),
            i,
            k,
        ) by {
            assert(pair_visited(g, self@, Neighborhood::Four.offsets(), i, k));
        }
    }

    /// Calls `f` once on each cell, in increasing index order, with the
    /// indices of its 8 neighbors as `neighbors8` gives them.
    ///
    /// `f` is called only on cells of the grid, each with its own list, so
    /// its precondition may ask for exactly that; when this returns, it has
    /// been called on every cell. `walk` gives the same lists one cell at a
    /// time.
    pub fn for_each8<F>(&self, f: F)
        where
            F: FnMut(usize, &Vec<usize>),
        requires
            forall|i: usize, v: &Vec<usize>|
                visit_ok(self@, ring8(), i, v@) ==> #[trigger] call_requires(f, (i, v)),
        ensures
            forall|i: usize| i < self@.size() ==> #[trigger] visited(f, self@, ring8(), i),
    {
        let ghost g = f;
        self.visit_all(f, Neighborhood::Eight);
        assert(Neighborhood::Eight.offsets() == ring8());
        assert forall|i: usize| i < self@.size() implies #[trigger] visited(g, self@, ring8(), i) by {
            assert(visited(g, self@, Neighborhood::Eight.offsets(), i));
        }
    }

    /// Calls `f` on each cell and each of its 8 neighbors, one call per pair.
    ///
    /// `f` is called only on a cell of the grid with a cell of its ring; when
    /// this returns, it has been called on every such pair.
    pub fn for_each_pair8<F>(&self, f: F)
        where
            F: FnMut(usize, usize),
        requires
            forall|i: usize, k: int|
                i < self@.size() && 0 <= k < 8 ==> #[trigger] pair_accepted(f, self@, ring8(), i, k),
        ensures
            forall|i: usize, k: int|
                i < self@.size() && 0 <= k < 8 ==> #[trigger] pair_visited(f, self@, ring8(), i, k),
    {
        let ghost g = f;
        self.visit_pairs(f, Neighborhood::Eight);
        assert(Neighborhood::Eight.offsets() == ring8());
        assert forall|i: usize, k: int| i < self@.size() && 0 <= k < 8 implies #[trigger] pair_visited(
            g,
            self@,
            ring8(),
            i,
            k,
        ) by {
            assert(pair_visited(g, self@, Neighborhood::Eight.offsets(), i, k));
        }
    }

    /// Calls `f` once on each cell, in increasing index order, with the
    /// indices of the 16 cells at distance two as `neighbors16` gives them.
    ///
    /// `f` is called only on cells of the grid, each with its own list, so
    /// its precondition may ask for exactly that; when this returns, it has
    /// been called on every cell. `walk` gives the same lists one cell at a
    /// time.
    pub fn for_each16<F>(&self, f: F)
        where
            F: FnMut(usize, &Vec<usize>),
        requires
            forall|i: usize, v: &Vec<usize>|
                visit_ok(self@, ring16(), i, v@) ==> #[trigger] call_requires(f, (i, v)),
        ensures
            forall|i: usize| i < self@.size() ==> #[trigger] visited(f, self@, ring16(), i),
    {
        let ghost g = f;
        self.visit_all(f, Neighborhood::Sixteen);
        assert(Neighborhood::Sixteen.offsets() == ring16());
        assert forall|i: usize| i < self@.size() implies #[trigger] visited(g, self@, ring16(), i) by {
            assert(visited(g, self@, Neighborhood::Sixteen.offsets(), i));
        }
    }

    /// Calls `f` on each cell and each of the 16 cells at distance two
    /// from it, one call per pair.
    ///
    /// `f` is called only on a cell of the grid with a cell of its ring; when
    /// this returns, it has been called on every such pair.
    pub fn for_each_pair16<F>(&self, f: F)
        where
            F: FnMut(usize, usize),
        requires
            forall|i: usize, k: int|
                i < self@.size() && 0 <= k < 16 ==> #[trigger] pair_accepted(f, self@, ring16(), i, k),
        ensures
            forall|i: usize, k: int|
                i < self@.size() && 0 <= k < 16 ==> #[trigger] pair_visited(f, self@, ring16(), i, k),
    {
        let ghost g = f;
        self.visit_pairs(f, Neighborhood::Sixteen);
        assert(Neighborhood::Sixteen.offsets() == ring16());
        assert forall|i: usize, k: int| i < self@.size() && 0 <= k < 16 implies #[trigger] pair_visited(
            g,
            self@,
            ring16(),
            i,
            k,
        ) by {
            assert(pair_visited(g, self@, Neighborhood::Sixteen.offsets(), i, k));
        }
    }

    /// Calls `f` once on each cell, in increasing index order, with the
    /// indices of the 24 cells at distance one or two as `neighbors24` gives them.
    ///
    /// `f` is called only on cells of the grid, each with its own list, so
    /// its precondition may ask for exactly that; when this returns, it has
    /// been called on every cell. `walk` gives the same lists one cell at a
    /// time.
    pub fn for_each24<F>(&self, f: F)
        where
            F: FnMut(usize, &Vec<usize>),
        requires
            forall|i: usize, v: &Vec<usize>|
                visit_ok(self@, ring24(), i, v@) ==> #[trigger] call_requires(f, (i, v)),
        ensures
            forall|i: usize| i < self@.size() ==> #[trigger] visited(f, self@, ring24(), i),
    {
        let ghost g = f;
        self.visit_all(f, Neighborhood::TwentyFour);
        assert(Neighborhood::TwentyFour.offsets() == ring24());
        assert forall|i: usize| i < self@.size() implies #[trigger] visited(g, self@, ring24(), i) by {
            assert(visited(g, self@, Neighborhood::TwentyFour.offsets(), i));
        }
    }

    /// Calls `f` on each cell and each of the 24 cells at distance one
    /// or two from it, one call per pair.
    ///
    /// `f` is called only on a cell of the grid with a cell of its ring; when
    /// this returns, it has been called on every such pair.
    pub fn for_each_pair24<F>(&self, f: F)
        where
            F: FnMut(usize, usize),
        requires
            forall|i: usize, k: int|
                i < self@.size() && 0 <= k < 24 ==> #[trigger] pair_accepted(f, self@, ring24(), i, k),
        ensures
            forall|i: usize, k: int|
                i < self@.size() && 0 <= k < 24 ==> #[trigger] pair_visited(f, self@, ring24(), i, k),
    {
        let ghost g = f;
        self.visit_pairs(f, Neighborhood::TwentyFour);
        assert(Neighborhood::TwentyFour.offsets() == ring24());
        assert forall|i: usize, k: int| i < self@.size() && 0 <= k < 24 implies #[trigger] pair_visited(
            g,
            self@,
            ring24(),
            i,
            k,
        ) by {
            assert(pair_visited(g, self@, Neighborhood::TwentyFour.offsets(), i, k));
        }
    }
}

} // verus!
