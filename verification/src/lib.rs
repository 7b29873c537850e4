//! Conway's Game of Life on a toroidal grid of cells, with a catalog of
//! well-known patterns that can be stamped onto the grid.

pub mod bitset;
pub mod grid;
pub mod shapes;
pub mod universe;
pub mod laws;

pub use shapes::AvailableShapes;
pub use shapes::Shape;
pub use shapes::ShapeError;
pub use universe::Universe;
