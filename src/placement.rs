//! Validation of ship placement: bounds, territory and overlap.

use vstd::prelude::*;
use crate::grid::{CellSide, Coord, side_of, side_of_row};
use crate::ship::{
    Ship, ShipDirection, ShipType, fits_on_board, footprint, ship_size,
};

verus! {

/// Why a placement was rejected.
#[derive(Clone, Copy, Debug, PartialEq, Eq, Structural)]
pub enum PlacementError {
    /// Some cell of the ship would lie off the board.
    OutOfBounds,
    /// Some cell of the ship would lie outside the placing side's half.
    WrongTerritory,
    /// Some cell of the ship is already taken by another ship of the side.
    Overlap,
}

/// Some ship of `fleet` occupies `c`.
pub open spec fn occupied(fleet: Seq<Ship>, c: Coord) -> bool {
    exists|k: int| 0 <= k < fleet.len() && #[trigger] fleet[k].cells@.contains(c)
}

/// Some cell of `cells` is occupied by a ship of `fleet`.
pub open spec fn overlaps(fleet: Seq<Ship>, cells: Seq<Coord>) -> bool {
    exists|i: int| 0 <= i < cells.len() && occupied(fleet, #[trigger] cells[i])
}

/// Every cell of `cells` lies in the territory of `side`.
pub open spec fn within_territory(side: CellSide, cells: Seq<Coord>) -> bool {
    forall|i: int| 0 <= i < cells.len() ==> side_of_row(#[trigger] cells[i].row as int) == side
}

/// The outcome that placing a ship of kind `t` at `anchor` along `dir` for
/// `side` must have, given the side's current fleet.
pub open spec fn placement_verdict(
    side: CellSide,
    t: ShipType,
    dir: ShipDirection,
    anchor: Coord,
    fleet: Seq<Ship>,
) -> Option<PlacementError> {
    let cells = footprint(dir, anchor, ship_size(t));
    if !fits_on_board(dir, anchor, ship_size(t)) {
        Some(PlacementError::OutOfBounds)
    } else if !within_territory(side, cells) {
        Some(PlacementError::WrongTerritory)
    } else if overlaps(fleet, cells) {
        Some(PlacementError::Overlap)
    } else {
        None
    }
}

/// Whether some ship of `fleet` occupies `c`.
pub fn is_occupied(fleet: &Vec<Ship>, c: Coord) -> (r: bool)
    ensures
        r == occupied(fleet@, c),
{
    let mut k: usize = 0;
    while k < fleet.len()
        invariant
            k <= fleet@.len(),
            forall|j: int| 0 <= j < k ==> !(#[trigger] fleet@[j].cells@.contains(c)),
        decreases fleet@.len() - k,
    {
        if fleet[k].occupies(c) {
            return true;
        }
        k = k + 1;
    }
    false
}

/// Checks a placement and, when it is valid, builds the ship: the cells
/// extend `size - 1` steps from the anchor `(anchor_row, anchor_col)` along
/// `direction`. Bounds are checked first, then territory, then overlap with
/// the ships `existing` already placed on the same side.
#[verifier::loop_isolation(false)]
pub fn place(
    side: CellSide,
    ship_type: ShipType,
    direction: ShipDirection,
    anchor_row: usize,
    anchor_col: usize,
    existing: &Vec<Ship>,
) -> (r: Result<Ship, PlacementError>)
    ensures
        ({
            let anchor = Coord { row: anchor_row, column: anchor_col };
            match r {
                Ok(s) => {
                    &&& placement_verdict(side, ship_type, direction, anchor, existing@) is None
                    &&& s.ship_type == ship_type
                    &&& s.direction == direction
                    &&& s.cells@ == footprint(direction, anchor, ship_size(ship_type))
                    &&& !s.sunk
                },
                Err(e) => placement_verdict(side, ship_type, direction, anchor, existing@)
                    == Some(e),
            }
        }),
{
    let anchor = Coord { row: anchor_row, column: anchor_col };
    let len = ship_type.size();
    let fits = match direction {
        ShipDirection::Horizontal => anchor_row < crate::grid::ROWS && anchor_col
            <= crate::grid::COLUMNS - len,
        ShipDirection::Vertical => anchor_col < crate::grid::COLUMNS && anchor_row
            <= crate::grid::ROWS - len,
    };
    if !fits {
        return Err(PlacementError::OutOfBounds);
    }
    let cells = Ship::find_cells_for_ship(anchor, len, direction);
    let ghost fp = footprint(direction, anchor, ship_size(ship_type));
    let mut i: usize = 0;
    while i < len
        invariant
            i <= len,
            len == cells@.len(),
            cells@ == fp,
            forall|j: int| 0 <= j < i ==> side_of_row(#[trigger] fp[j].row as int) == side,
        decreases len - i,
    {
        if side_of(cells[i].row) != side {
            assert(!within_territory(side, fp)) by {
                assert(side_of_row(fp[i as int].row as int) != side);
            }
            return Err(PlacementError::WrongTerritory);
        }
        i = i + 1;
    }
    let mut i: usize = 0;
    while i < len
        invariant
            i <= len,
            len == cells@.len(),
            cells@ == fp,
            within_territory(side, fp),
            forall|j: int| 0 <= j < i ==> !occupied(existing@, #[trigger] fp[j]),
        decreases len - i,
    {
        if is_occupied(existing, cells[i]) {
            assert(overlaps(existing@, fp)) by {
                assert(occupied(existing@, fp[i as int]));
            }
            return Err(PlacementError::Overlap);
        }
        i = i + 1;
    }
    Ok(Ship { ship_type, direction, cells, sunk: false })
}

} // verus!
