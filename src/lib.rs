//! Translation between 1D indices into a flat buffer and 2D coordinates on a
//! grid whose edges wrap around (a torus), with the indices of the cells
//! around a cell at distances one and two.

mod arith;
mod grid;
mod laws;
mod shape;
mod walk;

pub use grid::{ErrorKind, WrappingCoords2d};
pub use laws::{
    lemma_rings_distinct, lemma_shift_of_index, lemma_shift_periodic, lemma_square_round_trip,
};
pub use shape::{
    offsets_within_two, ring16, ring24, ring4, ring8, table_holds, GridShape, Neighborhood,
};
pub use walk::{pair_accepted, pair_visited, visit_ok, visited, NeighborWalk};
