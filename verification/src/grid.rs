//! Grid primitives: coordinates, rows of cells and the ring-buffer row storage.

pub mod index;
pub mod row;
pub mod storage;

pub use index::{Boundary, Column, Dimensions, GridSize, Line, Point};
pub use row::{GridCell, GridRow};
pub use storage::RowStorage;
