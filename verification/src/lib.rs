//! A solver for exact-cover tetromino tilings of a rectangular grid.
//!
//! The board and the piece masks are rectangular arrays of cells, each cell
//! empty or occupied by one of the seven tetromino shapes. The solver places
//! an ordered list of pieces, each in any of its rotational variants, and
//! reports the first complete tiling found, or that none exists.

pub mod grid;
pub mod piece;
pub mod render;
pub mod search;
pub mod shape;

pub use piece::Tetromino;
pub use render::render_figure;
pub use search::solve;
pub use shape::Shape;
