//! The terminal state: two screen buffers of cell rows with scrollback, a cursor, modes and
//! tab stops, driven by the operations that escape sequences ask for.

pub mod cells;
pub mod color;
pub mod edit;
pub mod line;
pub mod resize;
pub mod screen;
pub mod state;
pub mod width;

pub use cells::{CellAttributes, TerminalCell, TerminalColor};
pub use color::{cell_colors, CellColors, Rgb};
pub use screen::BufferRow;
pub use state::{MouseTrackingMode, TerminalState, VisibleLineInfo};

use vstd::prelude::*;

verus! {

/// A row's position counted from the first row the buffer ever held.
pub type StableRowIndex = usize;

} // verus!
