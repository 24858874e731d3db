use vstd::prelude::*;

verus! {

/// The mathematical model of a wrapping grid: its two dimensions.
///
/// A cell is named by its linear index `row * width + col`, with
/// `0 <= col < width` and `0 <= row < height`. Coordinates outside those
/// ranges wrap around the torus.
pub struct GridShape {
    pub width: int,
    pub height: int,
}

impl GridShape {
    pub open spec fn size(self) -> int {
        self.width * self.height
    }

    /// Both dimensions positive, and the cell count fits in an `i32`.
    pub open spec fn valid(self) -> bool {
        &&& self.width >= 1
        &&& self.height >= 1
        &&& self.size() <= i32::MAX
    }

    /// Column of a linear index.
    pub open spec fn col_of(self, idx: int) -> int {
        idx % self.width
    }

    /// Row of a linear index.
    pub open spec fn row_of(self, idx: int) -> int {
        idx / self.width
    }

    /// Linear index of the cell at `(x, y)`, each coordinate wrapped
    /// around its own dimension (Euclidean remainder).
    pub open spec fn index_of(self, x: int, y: int) -> int {
        (y % self.height) * self.width + x % self.width
    }

    /// The pair that `coords` reports for a linear index: the column, and the
    /// index divided by the height. The second component is the row only
    /// when the grid is square.
    pub open spec fn coords_of(self, idx: int) -> (int, int) {
        (idx % self.width, idx / self.height)
    }

    /// Linear index of the cell `dx` columns and `dy` rows away from `idx`.
    pub open spec fn shift_of(self, idx: int, dx: int, dy: int) -> int {
        self.index_of(self.col_of(idx) + dx, self.row_of(idx) + dy)
    }

    /// The cells at the given offsets from `idx`, in the order of the offsets.
    pub open spec fn ring_cells(self, idx: int, ring: Seq<(int, int)>) -> Seq<int> {
        ring.map_values(|o: (int, int)| self.shift_of(idx, o.0, o.1))
    }
}

/// An executable offset table holds exactly the offsets of `ring`.
pub open spec fn table_holds(table: Seq<(i32, i32)>, ring: Seq<(int, int)>) -> bool {
    &&& table.len() == ring.len()
    &&& forall|k: int|
        0 <= k < table.len() ==> (#[trigger] table[k]).0 == ring[k].0 && table[k].1 == ring[k].1
}

/// Offsets of the 4-neighborhood: right, up, left, down.
pub open spec fn ring4() -> Seq<(int, int)> {
    seq![(1, 0), (0, 1), (-1, 0), (0, -1)]
}

/// Offsets of the 8-neighborhood, counter-clockwise from the right.
pub open spec fn ring8() -> Seq<(int, int)> {
    seq![(1, 0), (1, 1), (0, 1), (-1, 1), (-1, 0), (-1, -1), (0, -1), (1, -1)]
}

/// Offsets of the 16 cells at Chebyshev distance two, counter-clockwise from
/// two cells to the right.
pub open spec fn ring16() -> Seq<(int, int)> {
    seq![
        (2, 0), (2, 1), (2, 2), (1, 2), (0, 2), (-1, 2), (-2, 2), (-2, 1),
        (-2, 0), (-2, -1), (-2, -2), (-1, -2), (0, -2), (1, -2), (2, -2), (2, -1),
    ]
}

/// Offsets of the 24 cells of the 5x5 block around a cell: the 8-neighborhood
/// followed by the distance-two ring.
pub open spec fn ring24() -> Seq<(int, int)> {
    ring8() + ring16()
}

/// Every offset moves at most two cells along each axis.
pub open spec fn offsets_within_two(ring: Seq<(int, int)>) -> bool {
    forall|k: int|
        0 <= k < ring.len() ==> -2 <= (#[trigger] ring[k]).0 <= 2 && -2 <= ring[k].1 <= 2
}

/// The rings of cells around a cell that the grid reports.
#[derive(Debug, Clone, Copy, PartialEq, Eq, Structural)]
pub enum Neighborhood {
    /// The 4 cells that share an edge.
    Four,
    /// The 8 cells at distance one.
    Eight,
    /// The 16 cells at distance two.
    Sixteen,
    /// The 24 cells at distance one or two.
    TwentyFour,
}

impl Neighborhood {
    /// The offsets of the ring, in the order in which its cells are reported.
    pub open spec fn offsets(self) -> Seq<(int, int)> {
        match self {
            Neighborhood::Four => ring4(),
            Neighborhood::Eight => ring8(),
            Neighborhood::Sixteen => ring16(),
            Neighborhood::TwentyFour => ring24(),
        }
    }

    /// The offsets of the ring as `(dx, dy)` pairs.
    pub fn table(self) -> (r: Vec<(i32, i32)>)
        ensures
            table_holds(r@, self.offsets()),
            offsets_within_two(self.offsets()),
    {
        match self {
            Neighborhood::Four => vec![(1, 0), (0, 1), (-1, 0), (0, -1)],
            Neighborhood::Eight => vec![
                (1, 0),
                (1, 1),
                (0, 1),
                (-1, 1),
                (-1, 0),
                (-1, -1),
                (0, -1),
                (1, -1),
            ],
            Neighborhood::Sixteen => vec![
                (2, 0),
                (2, 1),
                (2, 2),
                (1, 2),
                (0, 2),
                (-1, 2),
                (-2, 2),
                (-2, 1),
                (-2, 0),
                (-2, -1),
                (-2, -2),
                (-1, -2),
                (0, -2),
                (1, -2),
                (2, -2),
                (2, -1),
            ],
            Neighborhood::TwentyFour => vec![
                (1, 0),
                (1, 1),
                (0, 1),
                (-1, 1),
                (-1, 0),
                (-1, -1),
                (0, -1),
                (1, -1),
                (2, 0),
                (2, 1),
                (2, 2),
                (1, 2),
                (0, 2),
                (-1, 2),
                (-2, 2),
                (-2, 1),
                (-2, 0),
                (-2, -1),
                (-2, -2),
                (-1, -2),
                (0, -2),
                (1, -2),
                (2, -2),
                (2, -1),
            ],
        }
    }
}

} // verus!
