//! Drawing helpers that do not depend on the terminal.

pub use crate::grid::bresenham;
