use crate::arith::{lemma_cell_bound, lemma_row_mod, lemma_split, lemma_truncated_rem_neg};
use crate::shape::{ring16, ring24, ring4, ring8, table_holds, GridShape, Neighborhood};
use vstd::arithmetic::div_mod::lemma_fundamental_div_mod;
use vstd::prelude::*;

verus! {

/// The Euclidean remainder on 64-bit values, which hold every intermediate
/// sum and product of 32-bit coordinates and offsets without overflow.
fn wrap64(lhs: i64, rhs: i64) -> (r: i64)
    requires
        rhs > 0,
    ensures
        r == lhs % rhs,
{
    let mut res = lhs % rhs;
    if res < 0 {
        res += rhs;
    }
    proof {
        if lhs < 0 {
            lemma_truncated_rem_neg(lhs as int, rhs as int);
        }
    }
    res
}

/// Errors in the construction of a grid.
#[derive(Debug, Clone, Copy, PartialEq, Eq, Structural)]
pub enum ErrorKind {
    /// `width` or `height` less than 1.
    DimensionsLessThan1,
    /// The product of `width` and `height` exceeds `i32::MAX`.
    DimensionsTooLarge,
}

impl ErrorKind {
    /// A sentence that describes the error.
    pub fn message(&self) -> (r: &'static str)
        ensures
            *self == ErrorKind::DimensionsLessThan1 ==> r@ == "width or height less than 1"@,
            *self == ErrorKind::DimensionsTooLarge
                ==> r@ == "the product of width and height exceeds i32::MAX = 2147483647"@,
    {
        match self {
            ErrorKind::DimensionsLessThan1 => "width or height less than 1",
            ErrorKind::DimensionsTooLarge => "the product of width and height exceeds i32::MAX = 2147483647",
        }
    }
}

/// A two-dimensional grid whose edges wrap around, mapped onto a flat buffer of
/// `width * height` cells. It holds no cells itself; it translates between
/// coordinates and indices.
#[derive(Debug, Clone, Copy, PartialEq, Eq, Structural)]
pub struct WrappingCoords2d {
    /// Width of the grid; at least 1.
    w32: i32,
    /// Height of the grid; at least 1.
    h32: i32,
    /// Number of cells, `w32 * h32`.
    sz32: i32,
    /// The width as a `usize`.
    wu: usize,
    /// The number of cells as a `usize`.
    szu: usize,
}

impl View for WrappingCoords2d {
    type V = GridShape;

    closed spec fn view(&self) -> GridShape {
        GridShape { width: self.w32 as int, height: self.h32 as int }
    }
}

impl WrappingCoords2d {
    #[verifier::type_invariant]
    spec fn inv(&self) -> bool {
        &&& self@.valid()
        &&& self.sz32 == self.w32 * self.h32
        &&& self.sz32 >= 1
        &&& self.wu == self.w32
        &&& self.szu == self.sz32
    }

    /// Builds a grid of the given dimensions.
    ///
    /// Fails with `DimensionsLessThan1` when a dimension is not positive, and
    /// with `DimensionsTooLarge` when `width * height` does not fit in an `i32`.
    pub fn new(width: i32, height: i32) -> (r: Result<WrappingCoords2d, ErrorKind>)
        ensures
            r matches Ok(g) ==> g@ == (GridShape { width: width as int, height: height as int })
                && g@.valid(),
            r is Ok <==> width > 0 && height > 0 && width * height <= i32::MAX,
            r == Err::<WrappingCoords2d, ErrorKind>(ErrorKind::DimensionsLessThan1) <==> width <= 0
                || height <= 0,
            r == Err::<WrappingCoords2d, ErrorKind>(ErrorKind::DimensionsTooLarge) <==> width > 0
                && height > 0 && width * height > i32::MAX,
    {
        if width > 0 && height > 0 {
            proof {
                assert(width * height > 0) by (nonlinear_arith)
                    requires
                        width > 0,
                        height > 0,
                ;
            }
            match width.checked_mul(height) {
                Some(s) => Ok(
                    WrappingCoords2d {
                        w32: width,
                        h32: height,
                        sz32: s,
                        wu: width as usize,
                        szu: s as usize,
                    },
                ),
                None => Err(ErrorKind::DimensionsTooLarge),
            }
        } else {
            Err(ErrorKind::DimensionsLessThan1)
        }
    }

    /// Width of the grid.
    pub fn width(&self) -> (r: i32)
        ensures
            r == self@.width,
            r >= 1,
    {
        proof {
            use_type_invariant(self);
        }
        self.w32
    }

    /// Height of the grid.
    pub fn height(&self) -> (r: i32)
        ensures
            r == self@.height,
            r >= 1,
    {
        proof {
            use_type_invariant(self);
        }
        self.h32
    }

    /// Number of cells in the grid; the length of a buffer that holds them.
    pub fn size(&self) -> (r: usize)
        ensures
            r == self@.size(),
            1 <= r <= i32::MAX,
    {
        proof {
            use_type_invariant(self);
        }
        self.szu
    }

    /// Number of cells in the grid, as an `i32`.
    pub fn size32(&self) -> (r: i32)
        ensures
            r == self@.size(),
            r >= 1,
    {
        proof {
            use_type_invariant(self);
        }
        self.sz32
    }

    /// The dimensions as `usize` (width, cell count), with the facts that
    /// hold of every grid.
    pub(crate) fn dims(&self) -> (r: (usize, usize))
        ensures
            self@.valid(),
            r.0 == self@.width,
            r.1 == self@.size(),
    {
        proof {
            use_type_invariant(self);
        }
        (self.wu, self.szu)
    }

    /// The Euclidean remainder of `lhs` by `rhs`: never negative, unlike `%`
    /// (`-11 % 10 == -1`, while `modulo(-11, 10) == 9`).
    pub fn modulo(lhs: i32, rhs: i32) -> (r: i32)
        requires
            rhs > 0,
        ensures
            r == lhs % rhs,
            0 <= r < rhs,
            (lhs - r) % (rhs as int) == 0,
    {
        let mut res = lhs % rhs;
        if res < 0 {
            res += rhs;
        }
        proof {
            if lhs < 0 {
                lemma_truncated_rem_neg(lhs as int, rhs as int);
            }
            lemma_fundamental_div_mod(lhs as int, rhs as int);
            lemma_split((lhs as int) / (rhs as int), 0, rhs as int);
        }
        res
    }

    /// The index of the cell at `(x, y)`; both coordinates wrap around.
    pub fn index(&self, x: i32, y: i32) -> (r: usize)
        ensures
            r == self@.index_of(x as int, y as int),
            r < self@.size(),
    {
        proof {
            use_type_invariant(self);
        }
        let mx = WrappingCoords2d::modulo(x, self.w32);
        proof {
            assert(-0x8000_0000_0000_0000 <= y * self.w32 <= 0x7fff_ffff_ffff_ffff) by (nonlinear_arith)
                requires
                    -0x8000_0000 <= y < 0x8000_0000,
                    0 < self.w32 < 0x8000_0000,
            ;
        }
        let myw = wrap64(y as i64 * self.w32 as i64, self.sz32 as i64);
        proof {
            let w = self.w32 as int;
            let h = self.h32 as int;
            lemma_row_mod(y as int, w, h);
            lemma_cell_bound((y as int) % h, mx as int, w, h);
        }
        (myw + mx as i64) as usize
    }

    /// The pair `(index % width, index / height)` for an index of the grid.
    /// On a square grid this is the column and the row of the cell, and
    /// `index` maps it back; on other grids the second value is not the row.
    pub fn coords(&self, index: usize) -> (r: (i32, i32))
        requires
            index < self@.size(),
        ensures
            (r.0 as int, r.1 as int) == self@.coords_of(index as int),
    {
        proof {
            use_type_invariant(self);
        }
        let idx32 = index as i32;
        (idx32 % self.w32, idx32 / self.h32)
    }

    /// The cell `dx` columns and `dy` rows away from the cell whose column is
    /// `col` and whose row starts at `yw`.
    fn offset_from(&self, col: i64, yw: i64, dx: i32, dy: i32) -> (r: usize)
        requires
            0 <= col < self@.width,
            0 <= yw < self@.size(),
            (yw as int) % self@.width == 0,
        ensures
            r == self@.index_of(col + dx, (yw as int) / self@.width + dy),
            r < self@.size(),
    {
        proof {
            use_type_invariant(self);
        }
        let w = self.w32 as i64;
        proof {
            assert(-0x8000_0000_0000_0000 <= dy * w <= 0x7fff_ffff_ffff_ffff) by (nonlinear_arith)
                requires
                    -0x8000_0000 <= dy < 0x8000_0000,
                    0 < w < 0x8000_0000,
            ;
            assert(dy * w < 0x4000_0000_0000_0000 && dy * w > -0x4000_0000_0000_0000) by (nonlinear_arith)
                requires
                    -0x8000_0000 <= dy < 0x8000_0000,
                    0 < w < 0x8000_0000,
            ;
        }
        let new_x = wrap64(col + dx as i64, w);
        let new_yw = wrap64(yw + dy as i64 * w, self.sz32 as i64);
        proof {
            let wi = w as int;
            let h = self.h32 as int;
            let row = (yw as int) / wi;
            lemma_fundamental_div_mod(yw as int, wi);
            assert(yw + dy * wi == (row + dy) * wi) by (nonlinear_arith)
                requires
                    yw == wi * row,
            ;
            lemma_row_mod(row + dy, wi, h);
            lemma_cell_bound((row + dy) % h, new_x as int, wi, h);
        }
        (new_yw + new_x) as usize
    }

    /// The index of the cell `delta_x` columns and `delta_y` rows away from
    /// `start_index`, wrapping around the edges.
    pub fn shift(&self, start_index: usize, delta_x: i32, delta_y: i32) -> (r: usize)
        requires
            start_index < self@.size(),
        ensures
            r == self@.shift_of(start_index as int, delta_x as int, delta_y as int),
            r < self@.size(),
    {
        proof {
            use_type_invariant(self);
        }
        let index = start_index as i64;
        let x = index % (self.w32 as i64);
        let yw = index - x;
        proof {
            let w = self.w32 as int;
            lemma_fundamental_div_mod(index as int, w);
            lemma_split((index as int) / w, 0, w);
        }
        self.offset_from(x, yw, delta_x, delta_y)
    }

    /// The cells at the offsets of `table` (which holds those of `ring`) from
    /// `start_index`, in the order of the table.
    fn gather(&self, start_index: usize, table: &Vec<(i32, i32)>, Ghost(ring): Ghost<Seq<(int, int)>>) -> (r: Vec<usize>)
        requires
            start_index < self@.size(),
            table_holds(table@, ring),
        ensures
            r@.map_values(|v: usize| v as int) == self@.ring_cells(start_index as int, ring),
    {
        proof {
            use_type_invariant(self);
        }
        let index = start_index as i64;
        let x = index % (self.w32 as i64);
        let yw = index - x;
        proof {
            let w = self.w32 as int;
            lemma_fundamental_div_mod(index as int, w);
            lemma_split((index as int) / w, 0, w);
        }
        let mut out: Vec<usize> = Vec::with_capacity(table.len());
        let mut k: usize = 0;
        while k < table.len()
            invariant
                k <= table@.len(),
                table_holds(table@, ring),
                out@.len() == k,
                start_index < self@.size(),
                0 <= x < self@.width,
                x == self@.col_of(start_index as int),
                (yw as int) / self@.width == self@.row_of(start_index as int),
                0 <= yw < self@.size(),
                (yw as int) % self@.width == 0,
                forall|j: int|
                    0 <= j < k ==> out@[j] == self@.shift_of(
                        start_index as int,
                        (#[trigger] ring[j]).0,
                        ring[j].1,
                    ),
            decreases table@.len() - k,
        {
            let (dx, dy) = table[k];
            proof {
                assert(table@[k as int] == (dx, dy));
            }
            out.push(self.offset_from(x, yw, dx, dy));
            k += 1;
        }
        assert(out@.map_values(|v: usize| v as int) =~= self@.ring_cells(start_index as int, ring));
        out
    }

    /// The indices of the 4 cells that share an edge with `start_index`:
    /// right, up, left, down.
    pub fn neighbors4(&self, start_index: usize) -> (r: Vec<usize>)
        requires
            start_index < self@.size(),
        ensures
            r@.map_values(|v: usize| v as int) == self@.ring_cells(start_index as int, ring4()),
    {
        self.gather(start_index, &Neighborhood::Four.table(), Ghost(ring4()))
    }

    /// The indices of the 4 cells that share an edge with the cell at
    /// `(start_x, start_y)`.
    pub fn neighbors4xy(&self, start_x: i32, start_y: i32) -> (r: Vec<usize>)
        ensures
            r@.map_values(|v: usize| v as int) == self@.ring_cells(
                self@.index_of(start_x as int, start_y as int),
                ring4(),
            ),
    {
        self.neighbors4(self.index(start_x, start_y))
    }

    /// The indices of the 8 cells around `start_index` (its Moore
    /// neighborhood), counter-clockwise from the cell to the right.
    pub fn neighbors8(&self, start_index: usize) -> (r: Vec<usize>)
        requires
            start_index < self@.size(),
        ensures
            r@.map_values(|v: usize| v as int) == self@.ring_cells(start_index as int, ring8()),
    {
        self.gather(start_index, &Neighborhood::Eight.table(), Ghost(ring8()))
    }

    /// The indices of the 8 cells around the cell at `(start_x, start_y)`.
    pub fn neighbors8xy(&self, start_x: i32, start_y: i32) -> (r: Vec<usize>)
        ensures
            r@.map_values(|v: usize| v as int) == self@.ring_cells(
                self@.index_of(start_x as int, start_y as int),
                ring8(),
            ),
    {
        self.neighbors8(self.index(start_x, start_y))
    }

    /// The indices of the 16 cells at distance two from `start_index` (the
    /// ring just outside its Moore neighborhood), counter-clockwise from the
    /// second cell to the right.
    pub fn neighbors16(&self, start_index: usize) -> (r: Vec<usize>)
        requires
            start_index < self@.size(),
        ensures
            r@.map_values(|v: usize| v as int) == self@.ring_cells(start_index as int, ring16()),
    {
        self.gather(start_index, &Neighborhood::Sixteen.table(), Ghost(ring16()))
    }

    /// The indices of the 16 cells at distance two from the cell at
    /// `(start_x, start_y)`.
    pub fn neighbors16xy(&self, start_x: i32, start_y: i32) -> (r: Vec<usize>)
        ensures
            r@.map_values(|v: usize| v as int) == self@.ring_cells(
                self@.index_of(start_x as int, start_y as int),
                ring16(),
            ),
    {
        self.neighbors16(self.index(start_x, start_y))
    }

    /// The indices of the 24 other cells of the 5x5 block centred on
    /// `start_index`: its 8 neighbors, then the 16 cells at distance two, each
    /// ring counter-clockwise from the right.
    pub fn neighbors24(&self, start_index: usize) -> (r: Vec<usize>)
        requires
            start_index < self@.size(),
        ensures
            r@.map_values(|v: usize| v as int) == self@.ring_cells(start_index as int, ring24()),
    {
        self.gather(start_index, &Neighborhood::TwentyFour.table(), Ghost(ring24()))
    }

    /// The indices of the 24 other cells of the 5x5 block centred on the cell
    /// at `(start_x, start_y)`.
    pub fn neighbors24xy(&self, start_x: i32, start_y: i32) -> (r: Vec<usize>)
        ensures
            r@.map_values(|v: usize| v as int) == self@.ring_cells(
                self@.index_of(start_x as int, start_y as int),
                ring24(),
            ),
    {
        self.neighbors24(self.index(start_x, start_y))
    }
}

} // verus!
