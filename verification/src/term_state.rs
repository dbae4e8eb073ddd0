//! Terminal state as the accessibility projection reads it: a grid of cells, a
//! cursor and a title.

use vstd::prelude::*;

verus! {

/// Position of the cursor on the grid.
#[derive(Debug, Clone, Copy, PartialEq, Eq, Structural, Hash)]
pub struct CursorPosition {
    /// Row, from zero.
    pub row: usize,
    /// Column, from zero.
    pub col: usize,
}

/// The cursor.
#[derive(Debug, Clone, Copy, PartialEq, Eq, Structural, Hash)]
pub struct Cursor {
    /// Where it stands.
    pub position: CursorPosition,
    /// Whether it is shown.
    pub visible: bool,
}

/// One cell of the grid.
#[derive(Debug, Clone, PartialEq, Eq)]
pub struct Cell {
    /// The base character.
    pub glyph: char,
    /// Combining characters on the base.
    pub zerowidth: Vec<char>,
    /// Whether the cell is the trailing half of a wide character.
    pub spacer: bool,
}

/// The visible state of a terminal, cells row by row.
#[derive(Debug, Clone, PartialEq, Eq)]
pub struct Snapshot {
    /// Columns.
    pub width: usize,
    /// Rows.
    pub height: usize,
    /// Cells, row by row.
    pub cells: Vec<Cell>,
    /// The cursor.
    pub cursor: Cursor,
    /// The window title.
    pub title: String,
}

} // verus!
