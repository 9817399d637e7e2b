//! Static geometry of the board: bounds, coordinates and the split of the
//! rows between the two sides.

use vstd::prelude::*;

verus! {

/// Number of rows of the board.
pub const ROWS: usize = 10;

/// Number of columns of the board.
pub const COLUMNS: usize = 10;

/// Number of cells of the board.
pub const CELL_COUNT: usize = 100;

/// A cell coordinate, `(row, column)`.
#[derive(Clone, Copy, Debug, PartialEq, Eq, Structural)]
pub struct Coord {
    pub row: usize,
    pub column: usize,
}

/// The half of the board a cell belongs to.
#[derive(Clone, Copy, Debug, PartialEq, Eq, Structural)]
pub enum CellSide {
    Player,
    Enemy,
}

/// The cell lies on the board.
pub open spec fn in_bounds(c: Coord) -> bool {
    c.row < ROWS && c.column < COLUMNS
}

/// Rows `0 .. ROWS / 2` are the player's territory, the rest the enemy's.
pub open spec fn side_of_row(row: int) -> CellSide {
    if row < ROWS / 2 {
        CellSide::Player
    } else {
        CellSide::Enemy
    }
}

/// Position of a cell in the row-major list of all cells.
pub open spec fn cell_index(c: Coord) -> int {
    c.row * COLUMNS + c.column
}

impl Coord {
    pub fn new(row: usize, column: usize) -> (c: Coord)
        ensures
            c.row == row,
            c.column == column,
    {
        Coord { row, column }
    }

    /// Whether the coordinate lies on the board.
    pub fn is_in_bounds(&self) -> (r: bool)
        ensures
            r == in_bounds(*self),
    {
        self.row < ROWS && self.column < COLUMNS
    }

    /// The side whose territory holds this coordinate's row.
    pub fn side(&self) -> (s: CellSide)
        ensures
            s == side_of_row(self.row as int),
    {
        side_of(self.row)
    }
}

/// The side whose territory holds `row`.
pub fn side_of(row: usize) -> (s: CellSide)
    ensures
        s == side_of_row(row as int),
{
    if row < ROWS / 2 {
        CellSide::Player
    } else {
        CellSide::Enemy
    }
}

} // verus!
