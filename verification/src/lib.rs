//! Functionality for working with 2D grids.
//!
//! A [`Grid`] is a dense, row-major two-dimensional container addressed by
//! `(row, col)` coordinates, where the row index grows downward and the
//! column index grows rightward. It offers construction, indexed access,
//! structural transforms (transpose, rotate, flip, fold) and adjacency
//! queries over the Moore neighborhood of a cell.

mod grid;

pub use grid::Grid;
pub use grid::UnequalColumnsError;
pub use grid::col_down_seq;
pub use grid::col_neighbors_seq;
pub use grid::col_up_seq;
pub use grid::diag_neighbors_seq;
pub use grid::flipped;
pub use grid::fold_pair_count;
pub use grid::grid_cols;
pub use grid::grid_rows;
pub use grid::in_bounds;
pub use grid::lemma_adjacency_in_bounds;
pub use grid::lemma_flip_flip_identity;
pub use grid::lemma_rotate_four_identity;
pub use grid::neighbors_seq;
pub use grid::rectangular;
pub use grid::rotated;
pub use grid::row_left_seq;
pub use grid::row_neighbors_seq;
pub use grid::row_right_seq;
pub use grid::rows_view;
pub use grid::transposed;
