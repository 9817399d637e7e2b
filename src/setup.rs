//! Setting up a fleet: listing the valid placements of a ship and placing
//! ships at random among them.

use vstd::prelude::*;
use crate::chance::random_below;
use crate::engine::{GameState, Participant, fleet_view, home_side, opponent};
use crate::grid::{CellSide, Coord, COLUMNS, ROWS, side_of_row};
use crate::placement::{occupied, place, placement_verdict};
use crate::ship::{Ship, ShipDirection, ShipType, ShipView, footprint, ship_size};

verus! {

/// Where a ship goes: its orientation and its anchor cell.
#[derive(Clone, Copy, Debug, PartialEq, Eq, Structural)]
pub struct Placement {
    pub direction: ShipDirection,
    pub row: usize,
    pub column: usize,
}

/// A ship of kind `t` may go at `p` for `side`, next to `fleet`.
pub open spec fn is_valid_placement(
    side: CellSide,
    t: ShipType,
    fleet: Seq<Ship>,
    p: Placement,
) -> bool {
    placement_verdict(side, t, p.direction, Coord { row: p.row, column: p.column }, fleet) is None
}

/// The `i`-th kind of ship of a fleet, in the order they are placed:
/// smallest first, which guarantees that each finds a place.
pub open spec fn fleet_kind(i: int) -> ShipType {
    if i == 0 {
        ShipType::Submarine
    } else if i == 1 {
        ShipType::Battleship
    } else if i == 2 {
        ShipType::LargeBattleship
    } else {
        ShipType::AircraftCarrier
    }
}

/// The kinds of ship of a fleet, in the order they are placed.
pub open spec fn fleet_kinds() -> Seq<ShipType> {
    Seq::new(4, |i: int| fleet_kind(i))
}

/// Number of cells taken by the first `i` ships of a fleet.
pub open spec fn kinds_total(i: int) -> int {
    if i <= 0 {
        0
    } else if i == 1 {
        1
    } else if i == 2 {
        4
    } else if i == 3 {
        8
    } else {
        13
    }
}

/// Number of cells taken by the ships of `fv`.
pub open spec fn cell_total(fv: Seq<ShipView>) -> nat
    decreases fv.len(),
{
    if fv.len() == 0 {
        0
    } else {
        cell_total(fv.drop_last()) + fv.last().cells.len()
    }
}

/// The columns in which some ship of `fv` has a cell.
pub open spec fn fleet_columns(fv: Seq<ShipView>) -> Set<int>
    decreases fv.len(),
{
    if fv.len() == 0 {
        Set::empty()
    } else {
        fleet_columns(fv.drop_last()).union(
            fv.last().cells.map_values(|c: Coord| c.column as int).to_set(),
        )
    }
}

/// The first row of the half of `side`.
pub open spec fn first_row(side: CellSide) -> usize {
    match side {
        CellSide::Player => 0,
        CellSide::Enemy => 5,
    }
}

/// The columns a fleet touches are no more than its cells, and include the
/// column of each of its cells.
proof fn lemma_fleet_columns(fv: Seq<ShipView>)
    ensures
        fleet_columns(fv).finite(),
        fleet_columns(fv).len() <= cell_total(fv),
        forall|k: int, j: int|
            0 <= k < fv.len() && 0 <= j < fv[k].cells.len() ==> fleet_columns(fv).contains(
                #[trigger] fv[k].cells[j].column as int,
            ),
    decreases fv.len(),
{
    if fv.len() > 0 {
        let rest = fv.drop_last();
        let cols = fv.last().cells.map_values(|c: Coord| c.column as int);
        lemma_fleet_columns(rest);
        vstd::seq_lib::seq_to_set_is_finite(cols);
        cols.lemma_cardinality_of_set();
        vstd::set_lib::lemma_len_union(fleet_columns(rest), cols.to_set());
        assert forall|k: int, j: int|
            0 <= k < fv.len() && 0 <= j < fv[k].cells.len() implies fleet_columns(fv).contains(
                #[trigger] fv[k].cells[j].column as int,
            ) by {
            if k < rest.len() {
                assert(rest[k] == fv[k]);
            } else {
                assert(cols[j] == fv[k].cells[j].column as int);
                assert(cols.to_set().contains(cols[j]));
            }
        }
    }
}

/// A fleet of fewer cells than the board has columns leaves some column
/// untouched.
proof fn lemma_free_column(fv: Seq<ShipView>) -> (c: int)
    requires
        cell_total(fv) < COLUMNS,
    ensures
        0 <= c < COLUMNS,
        !fleet_columns(fv).contains(c),
{
    lemma_fleet_columns(fv);
    let all = vstd::set_lib::set_int_range(0, COLUMNS as int);
    vstd::set_lib::lemma_int_range(0, COLUMNS as int);
    if forall|c: int| 0 <= c < COLUMNS ==> #[trigger] fleet_columns(fv).contains(c) {
        assert(all.subset_of(fleet_columns(fv)));
        vstd::set_lib::lemma_len_subset(all, fleet_columns(fv));
        assert(false);
    }
    choose|c: int| 0 <= c < COLUMNS && !fleet_columns(fv).contains(c)
}

/// A ship standing upright from the first row of the side's half, in a
/// column no ship of the fleet touches, is a valid placement.
proof fn lemma_upright_in_free_column(side: CellSide, t: ShipType, fleet: Seq<Ship>, c: int)
    requires
        0 <= c < COLUMNS,
        !fleet_columns(fleet_view(fleet)).contains(c),
    ensures
        is_valid_placement(
            side,
            t,
            fleet,
            Placement { direction: ShipDirection::Vertical, row: first_row(side), column: c as usize },
        ),
{
    let anchor = Coord { row: first_row(side), column: c as usize };
    let fp = footprint(ShipDirection::Vertical, anchor, ship_size(t));
    lemma_fleet_columns(fleet_view(fleet));
    assert forall|i: int| 0 <= i < fp.len() implies side_of_row(#[trigger] fp[i].row as int) == side by {}
    assert forall|i: int| 0 <= i < fp.len() implies !occupied(fleet, #[trigger] fp[i]) by {
        if occupied(fleet, fp[i]) {
            let k = choose|k: int| 0 <= k < fleet.len() && #[trigger] fleet[k].cells@.contains(fp[i]);
            let j = choose|j: int| 0 <= j < fleet[k].cells@.len() && fleet[k].cells@[j] == fp[i];
            assert(fleet_view(fleet)[k].cells[j] == fp[i]);
        }
    }
}

/// Appends to `out` every valid placement along `direction`, row by row.
fn collect_placements(
    side: CellSide,
    ship_type: ShipType,
    direction: ShipDirection,
    fleet: &Vec<Ship>,
    out: &mut Vec<Placement>,
)
    ensures
        old(out)@.len() <= final(out)@.len(),
        final(out)@.subrange(0, old(out)@.len() as int) == old(out)@,
        forall|j: int|
            old(out)@.len() <= j < final(out)@.len() ==> is_valid_placement(
                side,
                ship_type,
                fleet@,
                #[trigger] final(out)@[j],
            ) && final(out)@[j].direction == direction,
        forall|p: Placement|
            p.direction == direction && is_valid_placement(side, ship_type, fleet@, p)
                ==> #[trigger] final(out)@.contains(p),
{
    let ghost start = out@;
    let mut r: usize = 0;
    while r < ROWS
        invariant
            r <= ROWS,
            start.len() <= out@.len(),
            out@.subrange(0, start.len() as int) == start,
            forall|j: int|
                start.len() <= j < out@.len() ==> is_valid_placement(side, ship_type, fleet@, #[trigger] out@[j])
                    && out@[j].direction == direction,
            forall|p: Placement|
                p.direction == direction && p.row < r && is_valid_placement(side, ship_type, fleet@, p)
                    ==> #[trigger] out@.contains(p),
        decreases ROWS - r,
    {
        let mut k: usize = 0;
        while k < COLUMNS
            invariant
                r < ROWS,
                k <= COLUMNS,
                start.len() <= out@.len(),
                out@.subrange(0, start.len() as int) == start,
                forall|j: int|
                    start.len() <= j < out@.len() ==> is_valid_placement(side, ship_type, fleet@, #[trigger] out@[j])
                        && out@[j].direction == direction,
                forall|p: Placement|
                    p.direction == direction && (p.row < r || (p.row == r && p.column < k))
                        && is_valid_placement(side, ship_type, fleet@, p) ==> #[trigger] out@.contains(p),
            decreases COLUMNS - k,
        {
            let ghost before = out@;
            let verdict = place(side, ship_type, direction, r, k, fleet);
            if verdict.is_ok() {
                out.push(Placement { direction, row: r, column: k });
                proof {
                    assert forall|p: Placement| #[trigger] before.contains(p) implies out@.contains(p) by {
                        let j = choose|j: int| 0 <= j < before.len() && before[j] == p;
                        assert(out@[j] == p);
                    }
                    assert(out@[before.len() as int] == Placement { direction, row: r, column: k });
                    assert(out@.subrange(0, start.len() as int) =~= before.subrange(0, start.len() as int));
                }
            }
            proof {
                assert forall|p: Placement|
                    p.direction == direction && (p.row < r || (p.row == r && p.column <= k))
                        && is_valid_placement(side, ship_type, fleet@, p) implies #[trigger] out@.contains(p) by {
                    if p.row == r && p.column == k {
                        assert(p == Placement { direction, row: r, column: k });
                        if verdict.is_ok() {
                            assert(out@[before.len() as int] == p);
                        }
                    } else {
                        assert(before.contains(p));
                        let j = choose|j: int| 0 <= j < before.len() && before[j] == p;
                        assert(out@[j] == p);
                    }
                }
            }
            k = k + 1;
        }
        r = r + 1;
    }
    proof {
        assert forall|p: Placement|
            p.direction == direction && is_valid_placement(side, ship_type, fleet@, p) implies #[trigger] out@.contains(p) by {
            assert(crate::ship::fits_on_board(p.direction, Coord { row: p.row, column: p.column }, ship_size(ship_type)));
        }
    }
}

/// Every placement at which a ship of kind `ship_type` may go for `side`,
/// next to the ships of `fleet`.
pub fn valid_placements(side: CellSide, ship_type: ShipType, fleet: &Vec<Ship>) -> (r: Vec<Placement>)
    ensures
        forall|p: Placement| #[trigger] r@.contains(p) <==> is_valid_placement(side, ship_type, fleet@, p),
{
    let mut out: Vec<Placement> = Vec::new();
    collect_placements(side, ship_type, ShipDirection::Horizontal, fleet, &mut out);
    let ghost mid = out@;
    collect_placements(side, ship_type, ShipDirection::Vertical, fleet, &mut out);
    proof {
        assert forall|p: Placement| #[trigger] out@.contains(p) <==> is_valid_placement(side, ship_type, fleet@, p) by {
            if out@.contains(p) {
                let j = choose|j: int| 0 <= j < out@.len() && out@[j] == p;
                if j < mid.len() {
                    assert(out@.subrange(0, mid.len() as int)[j] == p);
                    assert(mid[j] == p);
                }
            }
            if is_valid_placement(side, ship_type, fleet@, p) && p.direction == ShipDirection::Horizontal {
                assert(mid.contains(p));
                let j = choose|j: int| 0 <= j < mid.len() && mid[j] == p;
                assert(out@.subrange(0, mid.len() as int)[j] == p);
                assert(out@[j] == p);
            }
        }
    }
    out
}

impl GameState {
    /// Places a ship of kind `ship_type` for `side` at a placement chosen at
    /// random among all valid ones, and returns that placement; `None`, with
    /// nothing changed, when the ship fits nowhere.
    pub fn place_ship_randomly(&mut self, side: Participant, ship_type: ShipType) -> (r: Option<
        Placement,
    >)
        requires
            old(self).wf(),
            old(self).shot_history.cells@.len() == 0,
        ensures
            final(self).wf(),
            final(self).shot_history.cells@.len() == 0,
            r is None <==> forall|p: Placement|
                !is_valid_placement(home_side(side), ship_type, old(self).fleet_of(side), p),
            r is None ==> *final(self) == *old(self),
            r matches Some(p) ==> {
                &&& is_valid_placement(home_side(side), ship_type, old(self).fleet_of(side), p)
                &&& fleet_view(final(self).fleet_of(side)) == fleet_view(
                    old(self).fleet_of(side),
                ).push(
                    ShipView {
                        ship_type,
                        direction: p.direction,
                        cells: footprint(
                            p.direction,
                            Coord { row: p.row, column: p.column },
                            ship_size(ship_type),
                        ),
                        sunk: false,
                    },
                )
                &&& final(self).total_of(side) == old(self).total_of(side) + 1
                &&& final(self).fleet_of(opponent(side)) == old(self).fleet_of(opponent(side))
                &&& final(self).total_of(opponent(side)) == old(self).total_of(opponent(side))
                &&& final(self).cells@ == old(self).cells@
                &&& final(self).phase == old(self).phase
                &&& final(self).winner == old(self).winner
                &&& final(self).player_score == old(self).player_score
                &&& final(self).bot_score == old(self).bot_score
            },
    {
        let options = match side {
            Participant::Player => valid_placements(CellSide::Player, ship_type, &self.player_ships),
            Participant::Bot => valid_placements(CellSide::Enemy, ship_type, &self.bot_ships),
        };
        if options.len() == 0 {
            proof {
                assert forall|p: Placement|
                    !is_valid_placement(home_side(side), ship_type, self.fleet_of(side), p) by {
                    if is_valid_placement(home_side(side), ship_type, self.fleet_of(side), p) {
                        assert(options@.contains(p));
                    }
                }
            }
            return None;
        }
        let p = options[random_below(options.len())];
        assert(options@.contains(p));
        match self.place_ship(side, ship_type, p.direction, p.row, p.column) {
            Ok(_) => Some(p),
            Err(_) => None,
        }
    }

    /// Places a whole fleet for `side` at random: a submarine, a battleship,
    /// a large battleship and an aircraft carrier, in that order. Returns
    /// whether every ship found a place; the ships that did stay placed. On a
    /// side with no ships yet every ship finds a place.
    #[verifier::loop_isolation(false)]
    pub fn place_fleet_randomly(&mut self, side: Participant) -> (r: bool)
        requires
            old(self).wf(),
            old(self).shot_history.cells@.len() == 0,
        ensures
            final(self).wf(),
            final(self).shot_history.cells@.len() == 0,
            final(self).fleet_of(opponent(side)) == old(self).fleet_of(opponent(side)),
            final(self).phase == old(self).phase,
            final(self).total_of(opponent(side)) == old(self).total_of(opponent(side)),
            final(self).winner == old(self).winner,
            final(self).player_score == old(self).player_score,
            final(self).bot_score == old(self).bot_score,
            final(self).cells@ == old(self).cells@,
            old(self).fleet_of(side).len() <= final(self).fleet_of(side).len(),
            final(self).total_of(side) == final(self).fleet_of(side).len(),
            forall|j: int|
                0 <= j < old(self).fleet_of(side).len() ==> #[trigger] fleet_view(
                    final(self).fleet_of(side),
                )[j] == fleet_view(old(self).fleet_of(side))[j],
            forall|j: int|
                old(self).fleet_of(side).len() <= j < final(self).fleet_of(side).len()
                    ==> !(#[trigger] final(self).fleet_of(side)[j]).sunk,
            !r ==> exists|i: int|
                0 <= i < 4 && final(self).fleet_of(side).len() == old(self).fleet_of(side).len() + i
                    && forall|p: Placement|
                    !is_valid_placement(
                        home_side(side),
                        #[trigger] fleet_kinds()[i],
                        final(self).fleet_of(side),
                        p,
                    ),
            old(self).fleet_of(side).len() == 0 ==> r,
            r ==> {
                &&& final(self).fleet_of(side).len() == old(self).fleet_of(side).len() + 4
                &&& final(self).total_of(side) == old(self).total_of(side) + 4
                &&& forall|i: int|
                    0 <= i < 4 ==> (#[trigger] final(self).fleet_of(side)[old(self).fleet_of(
                        side,
                    ).len() + i]).ship_type == fleet_kinds()[i]
            },
    {
        let kinds: [ShipType; 4] = [
            ShipType::Submarine,
            ShipType::Battleship,
            ShipType::LargeBattleship,
            ShipType::AircraftCarrier,
        ];
        assert(kinds@ =~= fleet_kinds());
        let ghost n0 = self.fleet_of(side).len();
        let ghost g0 = *self;
        let mut i: usize = 0;
        while i < 4
            invariant
                0 <= i <= 4,
                kinds@ == fleet_kinds(),
                self.wf(),
                self.shot_history.cells@.len() == 0,
                self.fleet_of(opponent(side)) == g0.fleet_of(opponent(side)),
                self.phase == g0.phase,
                self.total_of(opponent(side)) == g0.total_of(opponent(side)),
                self.winner == g0.winner,
                self.player_score == g0.player_score,
                self.bot_score == g0.bot_score,
                self.cells@ == g0.cells@,
                forall|j: int| 0 <= j < n0 ==> #[trigger] fleet_view(self.fleet_of(side))[j] == fleet_view(g0.fleet_of(side))[j],
                forall|j: int| n0 <= j < self.fleet_of(side).len() ==> !(#[trigger] self.fleet_of(side)[j]).sunk,
                self.fleet_of(side).len() == n0 + i,
                self.total_of(side) == g0.total_of(side) + i,
                forall|j: int|
                    0 <= j < i ==> (#[trigger] self.fleet_of(side)[n0 + j]).ship_type == fleet_kinds()[j],
                n0 == 0 ==> cell_total(fleet_view(self.fleet_of(side))) == kinds_total(i as int),
            decreases 4 - i,
        {
            let ghost before = self.fleet_of(side);
            proof {
                if n0 == 0 {
                    let c = lemma_free_column(fleet_view(before));
                    lemma_upright_in_free_column(home_side(side), kinds[i as int], before, c);
                }
            }
            match self.place_ship_randomly(side, kinds[i]) {
                None => {
                    assert(fleet_kinds()[i as int] == kinds[i as int]);
                    return false;
                },
                Some(_) => {
                    proof {
                        let after = self.fleet_of(side);
                        assert forall|j: int| 0 <= j < before.len() implies after[j].ship_type == before[j].ship_type by {
                            assert(fleet_view(after)[j] == fleet_view(before)[j]);
                        }
                        assert(fleet_view(after)[before.len() as int].ship_type == kinds[i as int]);
                        assert(fleet_view(after)[before.len() as int].sunk == after[before.len() as int].sunk);
                        assert forall|j: int| n0 <= j < after.len() implies !(#[trigger] after[j]).sunk by {
                            assert(fleet_view(after)[j].sunk == after[j].sunk);
                            if j < before.len() {
                                assert(fleet_view(before)[j].sunk == before[j].sunk);
                            }
                        }
                        assert(fleet_view(after).drop_last() =~= fleet_view(before));
                        assert(kinds_total(i + 1) == kinds_total(i as int) + ship_size(fleet_kind(i as int)));
                    }
                },
            }
            i = i + 1;
        }
        true
    }
}

} // verus!
