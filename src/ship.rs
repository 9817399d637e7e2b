//! Ship kinds, orientations and placed ships.

use vstd::prelude::*;
use crate::grid::{Coord, COLUMNS, ROWS};

verus! {

pub const SUBMARINE_SIZE: usize = 1;
pub const BATTLESHIP_SIZE: usize = 3;
pub const LARGE_BATTLESHIP_SIZE: usize = 4;
pub const AIRCRAFT_CARRIER_SIZE: usize = 5;

/// The kinds of ship of a fleet.
#[derive(Clone, Copy, Debug, PartialEq, Eq, Structural)]
pub enum ShipType {
    Submarine,
    Battleship,
    LargeBattleship,
    AircraftCarrier,
}

/// How a ship extends from its anchor: along a row or along a column.
#[derive(Clone, Copy, Debug, PartialEq, Eq, Structural)]
pub enum ShipDirection {
    Horizontal,
    Vertical,
}

/// Number of cells a ship of kind `t` occupies.
pub open spec fn ship_size(t: ShipType) -> nat {
    match t {
        ShipType::Submarine => 1,
        ShipType::Battleship => 3,
        ShipType::LargeBattleship => 4,
        ShipType::AircraftCarrier => 5,
    }
}

impl ShipType {
    /// Number of cells a ship of this kind occupies.
    pub fn size(&self) -> (n: usize)
        ensures
            n == ship_size(*self),
    {
        match self {
            ShipType::Submarine => SUBMARINE_SIZE,
            ShipType::Battleship => BATTLESHIP_SIZE,
            ShipType::LargeBattleship => LARGE_BATTLESHIP_SIZE,
            ShipType::AircraftCarrier => AIRCRAFT_CARRIER_SIZE,
        }
    }
}

/// The `i`-th cell of a ship anchored at `anchor`, counted from the anchor
/// along `dir`.
pub open spec fn cell_along(dir: ShipDirection, anchor: Coord, i: int) -> Coord {
    match dir {
        ShipDirection::Horizontal => Coord { row: anchor.row, column: (anchor.column + i) as usize },
        ShipDirection::Vertical => Coord { row: (anchor.row + i) as usize, column: anchor.column },
    }
}

/// The `len` cells of a ship anchored at `anchor` and extending along `dir`.
pub open spec fn footprint(dir: ShipDirection, anchor: Coord, len: nat) -> Seq<Coord> {
    Seq::new(len, |i: int| cell_along(dir, anchor, i))
}

/// Every cell of a ship of length `len` at `anchor` along `dir` lies on the
/// board (for `len >= 1`).
pub open spec fn fits_on_board(dir: ShipDirection, anchor: Coord, len: nat) -> bool {
    match dir {
        ShipDirection::Horizontal => anchor.row < ROWS && anchor.column + len <= COLUMNS,
        ShipDirection::Vertical => anchor.column < COLUMNS && anchor.row + len <= ROWS,
    }
}

/// The mathematical content of a ship.
pub struct ShipView {
    pub ship_type: ShipType,
    pub direction: ShipDirection,
    pub cells: Seq<Coord>,
    pub sunk: bool,
}

/// A placed ship: its kind, orientation, the cells it occupies (from the
/// anchor on) and whether it has been sunk.
#[derive(Debug)]
pub struct Ship {
    pub ship_type: ShipType,
    pub direction: ShipDirection,
    pub cells: Vec<Coord>,
    pub sunk: bool,
}

impl View for Ship {
    type V = ShipView;

    open spec fn view(&self) -> ShipView {
        ShipView {
            ship_type: self.ship_type,
            direction: self.direction,
            cells: self.cells@,
            sunk: self.sunk,
        }
    }
}

impl Ship {
    /// Whether the ship occupies `c`.
    pub fn occupies(&self, c: Coord) -> (r: bool)
        ensures
            r == self.cells@.contains(c),
    {
        let mut i: usize = 0;
        while i < self.cells.len()
            invariant
                i <= self.cells@.len(),
                forall|j: int| 0 <= j < i ==> self.cells@[j] != c,
            decreases self.cells@.len() - i,
        {
            if self.cells[i] == c {
                return true;
            }
            i = i + 1;
        }
        false
    }

    /// The cells of a ship of length `len` anchored at `anchor` along
    /// `direction`.
    pub fn find_cells_for_ship(anchor: Coord, len: usize, direction: ShipDirection) -> (cells: Vec<Coord>)
        requires
            fits_on_board(direction, anchor, len as nat),
        ensures
            cells@ == footprint(direction, anchor, len as nat),
    {
        let mut cells: Vec<Coord> = Vec::new();
        let mut i: usize = 0;
        while i < len
            invariant
                i <= len,
                fits_on_board(direction, anchor, len as nat),
                cells@ == footprint(direction, anchor, i as nat),
            decreases len - i,
        {
            let c = match direction {
                ShipDirection::Horizontal => Coord { row: anchor.row, column: anchor.column + i },
                ShipDirection::Vertical => Coord { row: anchor.row + i, column: anchor.column },
            };
            cells.push(c);
            i = i + 1;
        }
        cells
    }
}

} // verus!
