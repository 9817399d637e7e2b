//! The turn engine: game state, fleet bookkeeping, shot resolution, turn
//! alternation and win detection.

use vstd::prelude::*;
use vstd::set_lib::{lemma_int_range, lemma_len_subset, set_int_range};
use crate::cell::{Cell, TurnError};
use crate::grid::{
    CellSide, Coord, COLUMNS, ROWS, CELL_COUNT, cell_index, in_bounds, side_of, side_of_row,
};
use crate::placement::{PlacementError, place, placement_verdict, within_territory};
use crate::ship::{
    Ship, ShipDirection, ShipType, ShipView, fits_on_board, footprint, ship_size,
};

verus! {

/// One of the two sides of a game.
#[derive(Clone, Copy, Debug, PartialEq, Eq, Structural)]
pub enum Participant {
    Player,
    Bot,
}

/// Whose move it is, or that the game has ended.
#[derive(Clone, Copy, Debug, PartialEq, Eq, Structural)]
pub enum Phase {
    PlayerTurn,
    BotTurn,
    GameOver,
}

/// The result of a shot that was taken.
#[derive(Clone, Copy, Debug, PartialEq, Eq, Structural)]
pub struct ShotOutcome {
    /// Index, in the opponent's fleet, of the ship that was hit; `None` on a miss.
    pub hit_ship: Option<usize>,
    /// Whether the shot sank that ship.
    pub sunk: bool,
    pub player_score: u32,
    pub bot_score: u32,
    /// Whether the shot ended the game.
    pub game_over: bool,
}

impl ShotOutcome {
    /// Whether the shot hit a ship.
    pub fn hit(&self) -> (r: bool)
        ensures
            r == self.hit_ship.is_some(),
    {
        self.hit_ship.is_some()
    }
}

/// The shot ledger: every cell ever targeted, in the order of the shots.
#[derive(Debug)]
pub struct ClickedCells {
    pub cells: Vec<Coord>,
}

impl ClickedCells {
    /// An empty ledger.
    pub fn new() -> (r: ClickedCells)
        ensures
            r.cells@ == Seq::<Coord>::empty(),
    {
        ClickedCells { cells: Vec::new() }
    }

    /// Whether `c` has been targeted.
    pub fn contains(&self, c: Coord) -> (r: bool)
        ensures
            r == self.cells@.contains(c),
    {
        let mut i: usize = 0;
        while i < self.cells.len()
            invariant
                i <= self.cells@.len(),
                forall|j: int| 0 <= j < i ==> self.cells@[j] != c,
            decreases self.cells@.len() - i,
        {
            if self.cells[i] == c {
                return true;
            }
            i = i + 1;
        }
        false
    }
}

/// The whole state of a game: turn, scores, fleet sizes, winner, the board's
/// cells, both fleets and the shot ledger.
#[derive(Debug)]
pub struct GameState {
    pub phase: Phase,
    pub player_score: u32,
    pub bot_score: u32,
    pub total_player_ships: u32,
    pub total_bot_ships: u32,
    pub winner: Option<Participant>,
    pub cells: Vec<Cell>,
    pub player_ships: Vec<Ship>,
    pub bot_ships: Vec<Ship>,
    pub shot_history: ClickedCells,
}

impl GameState {
    /// The fleet that `p` placed.
    pub open spec fn fleet_of(&self, p: Participant) -> Seq<Ship> {
        match p {
            Participant::Player => self.player_ships@,
            Participant::Bot => self.bot_ships@,
        }
    }

    /// The score of `p`: how many of the opponent's ships it has sunk.
    pub open spec fn score_of(&self, p: Participant) -> u32 {
        match p {
            Participant::Player => self.player_score,
            Participant::Bot => self.bot_score,
        }
    }

    /// How many ships `p` placed.
    pub open spec fn total_of(&self, p: Participant) -> u32 {
        match p {
            Participant::Player => self.total_player_ships,
            Participant::Bot => self.total_bot_ships,
        }
    }

    /// The state's invariant.
    pub open spec fn wf(&self) -> bool {
        &&& board_wf(self.cells@)
        &&& ledger_wf(self.shot_history.cells@, self.cells@)
        &&& fleet_wf(self.player_ships@, CellSide::Player, self.cells@)
        &&& fleet_wf(self.bot_ships@, CellSide::Enemy, self.cells@)
        &&& self.total_player_ships == self.player_ships@.len()
        &&& self.total_bot_ships == self.bot_ships@.len()
        &&& self.player_score == sunk_count(self.bot_ships@)
        &&& self.bot_score == sunk_count(self.player_ships@)
        &&& (self.phase == Phase::GameOver <==> self.winner is Some)
    }
}

/// The half of the board that `p` owns and places its ships in.
pub open spec fn home_side(p: Participant) -> CellSide {
    match p {
        Participant::Player => CellSide::Player,
        Participant::Bot => CellSide::Enemy,
    }
}

/// The half of the board that `p` fires at.
pub open spec fn target_side(p: Participant) -> CellSide {
    match p {
        Participant::Player => CellSide::Enemy,
        Participant::Bot => CellSide::Player,
    }
}

/// The other side.
pub open spec fn opponent(p: Participant) -> Participant {
    match p {
        Participant::Player => Participant::Bot,
        Participant::Bot => Participant::Player,
    }
}

/// The phase in which `p` may fire.
pub open spec fn turn_of(p: Participant) -> Phase {
    match p {
        Participant::Player => Phase::PlayerTurn,
        Participant::Bot => Phase::BotTurn,
    }
}

/// Whether the cell at `c` has been targeted.
pub open spec fn marked_at(cells: Seq<Cell>, c: Coord) -> bool {
    cells[cell_index(c)].marked
}

/// Every cell of `ship_cells` has been targeted.
pub open spec fn all_marked(cells: Seq<Cell>, ship_cells: Seq<Coord>) -> bool {
    forall|j: int| 0 <= j < ship_cells.len() ==> marked_at(cells, #[trigger] ship_cells[j])
}

/// Number of sunk ships of `fleet`.
pub open spec fn sunk_count(fleet: Seq<Ship>) -> nat
    decreases fleet.len(),
{
    if fleet.len() == 0 {
        0
    } else {
        sunk_count(fleet.drop_last()) + if fleet.last().sunk {
            1nat
        } else {
            0nat
        }
    }
}

/// The mathematical content of each ship of `fleet`.
pub open spec fn fleet_view(fleet: Seq<Ship>) -> Seq<ShipView> {
    fleet.map_values(|s: Ship| s@)
}

/// The board holds one cell per coordinate, in row-major order.
pub open spec fn board_wf(cells: Seq<Cell>) -> bool {
    &&& cells.len() == CELL_COUNT
    &&& forall|c: Coord|
        in_bounds(c) ==> (#[trigger] cells[cell_index(c)]).row == c.row && cells[cell_index(
            c,
        )].column == c.column
}

/// The ledger lists each targeted cell exactly once, and nothing else.
pub open spec fn ledger_wf(history: Seq<Coord>, cells: Seq<Cell>) -> bool {
    &&& history.no_duplicates()
    &&& forall|j: int| 0 <= j < history.len() ==> in_bounds(#[trigger] history[j])
    &&& forall|c: Coord| in_bounds(c) ==> (#[trigger] history.contains(c) <==> marked_at(cells, c))
}

/// A ship of `side`: as long as its kind, contiguous from its first cell,
/// on the board, in the side's half, and sunk exactly when every cell of it
/// has been targeted.
pub open spec fn ship_wf(s: Ship, side: CellSide, cells: Seq<Cell>) -> bool {
    &&& s.cells@.len() == ship_size(s.ship_type)
    &&& fits_on_board(s.direction, s.cells@[0], ship_size(s.ship_type))
    &&& s.cells@ == footprint(s.direction, s.cells@[0], ship_size(s.ship_type))
    &&& forall|j: int| 0 <= j < s.cells@.len() ==> in_bounds(#[trigger] s.cells@[j])
    &&& within_territory(side, s.cells@)
    &&& s.sunk == all_marked(cells, s.cells@)
}

/// No two ships of `fleet` share a cell.
pub open spec fn fleet_disjoint(fleet: Seq<Ship>) -> bool {
    forall|k1: int, k2: int, c: Coord|
        0 <= k1 < fleet.len() && 0 <= k2 < fleet.len() && k1 != k2 && #[trigger] fleet[k1].cells@.contains(c)
            ==> !(#[trigger] fleet[k2].cells@.contains(c))
}

/// Every ship of `fleet` is well formed for `side`, and no two overlap.
pub open spec fn fleet_wf(fleet: Seq<Ship>, side: CellSide, cells: Seq<Cell>) -> bool {
    &&& forall|k: int| 0 <= k < fleet.len() ==> ship_wf(#[trigger] fleet[k], side, cells)
    &&& fleet_disjoint(fleet)
}

/// Why a shot by `p` at `t` must be refused in state `g`, if it must: the
/// turn is checked first, then whether the cell was already targeted, then
/// whether it lies on the board in the opponent's half.
pub open spec fn shot_error(g: GameState, t: Coord, p: Participant) -> Option<TurnError> {
    if g.phase != turn_of(p) {
        Some(TurnError::OutOfTurn)
    } else if in_bounds(t) && marked_at(g.cells@, t) {
        Some(TurnError::AlreadyTargeted)
    } else if !in_bounds(t) || side_of_row(t.row as int) != target_side(p) {
        Some(TurnError::InvalidTarget)
    } else {
        None
    }
}

/// `new` is `old` after `p` took a valid shot at `t` with outcome `o`: the
/// cell is marked and recorded; the ship holding it, if any, is sunk once all
/// its cells are marked, which scores one for `p`; `p` wins when its score
/// reaches the opponent's fleet size, and otherwise the turn passes.
pub open spec fn shot_effect(
    old: GameState,
    new: GameState,
    t: Coord,
    p: Participant,
    o: ShotOutcome,
) -> bool {
    let opp = opponent(p);
    let f_old = old.fleet_of(opp);
    let f_new = new.fleet_of(opp);
    &&& new.cells@ == old.cells@.update(
        cell_index(t),
        Cell { row: t.row, column: t.column, marked: true },
    )
    &&& new.shot_history.cells@ == old.shot_history.cells@.push(t)
    &&& new.fleet_of(p) == old.fleet_of(p)
    &&& new.total_player_ships == old.total_player_ships
    &&& new.total_bot_ships == old.total_bot_ships
    &&& match o.hit_ship {
        None => {
            &&& !crate::placement::occupied(f_old, t)
            &&& f_new == f_old
            &&& !o.sunk
        },
        Some(k) => {
            &&& k < f_old.len()
            &&& f_old[k as int].cells@.contains(t)
            &&& o.sunk == all_marked(new.cells@, f_old[k as int].cells@)
            &&& fleet_view(f_new) == fleet_view(f_old).update(
                k as int,
                ShipView {
                    ship_type: f_old[k as int].ship_type,
                    direction: f_old[k as int].direction,
                    cells: f_old[k as int].cells@,
                    sunk: o.sunk,
                },
            )
        },
    }
    &&& new.score_of(p) == old.score_of(p) + if o.sunk { 1int } else { 0int }
    &&& new.score_of(opp) == old.score_of(opp)
    &&& o.game_over == (new.score_of(p) == old.total_of(opp))
    &&& if o.game_over {
        new.winner == Some(p) && new.phase == Phase::GameOver
    } else {
        new.winner is None && new.phase == turn_of(opp)
    }
    &&& o.player_score == new.player_score
    &&& o.bot_score == new.bot_score
}

/// Once the game is over every shot is refused as out of turn, so by the
/// contract of `resolve_shot` it changes nothing.
pub proof fn lemma_game_over_is_final(g: GameState, t: Coord, p: Participant)
    requires
        g.phase == Phase::GameOver,
    ensures
        shot_error(g, t, p) == Some(TurnError::OutOfTurn),
{
}

/// A shot that is taken and does not end the game hands the turn to the
/// other side; a refused shot leaves the state, and so the turn, unchanged.
pub proof fn lemma_turn_alternates(old: GameState, new: GameState, t: Coord, p: Participant, o: ShotOutcome)
    requires
        shot_error(old, t, p) is None,
        shot_effect(old, new, t, p, o),
        !o.game_over,
    ensures
        old.phase == turn_of(p),
        new.phase == turn_of(opponent(p)),
        new.phase != old.phase,
{
}

/// Marking is done once: after a shot at `t` is taken, the cell stays
/// marked and any later shot at `t`, whoever's turn it is, is refused as
/// already targeted, so it cannot score again.
pub proof fn lemma_marking_is_idempotent(
    old: GameState,
    new: GameState,
    t: Coord,
    p: Participant,
    o: ShotOutcome,
    q: Participant,
)
    requires
        old.wf(),
        shot_error(old, t, p) is None,
        shot_effect(old, new, t, p, o),
        new.phase == turn_of(q),
    ensures
        marked_at(new.cells@, t),
        shot_error(new, t, q) == Some(TurnError::AlreadyTargeted),
{
}

/// A side wins exactly when it has sunk the whole opposing fleet: a shot
/// ends the game if and only if, after it, every ship of the opponent is
/// sunk.
pub proof fn lemma_win_means_fleet_sunk(
    old: GameState,
    new: GameState,
    t: Coord,
    p: Participant,
    o: ShotOutcome,
)
    requires
        new.wf(),
        shot_effect(old, new, t, p, o),
    ensures
        o.game_over <==> forall|k: int|
            0 <= k < new.fleet_of(opponent(p)).len() ==> (#[trigger] new.fleet_of(opponent(p))[k]).sunk,
{
    lemma_sunk_count_all(new.fleet_of(opponent(p)));
}

/// Sinking or raising ship `k` changes the count by exactly that ship.
proof fn lemma_sunk_count_update(fleet: Seq<Ship>, k: int, s: Ship)
    requires
        0 <= k < fleet.len(),
    ensures
        sunk_count(fleet.update(k, s)) + (if fleet[k].sunk { 1int } else { 0int })
            == sunk_count(fleet) + (if s.sunk { 1int } else { 0int }),
    decreases fleet.len(),
{
    if k == fleet.len() - 1 {
        assert(fleet.update(k, s).drop_last() =~= fleet.drop_last());
    } else {
        assert(fleet.update(k, s).drop_last() =~= fleet.drop_last().update(k, s));
        lemma_sunk_count_update(fleet.drop_last(), k, s);
    }
}

/// A new ship adds one to the count exactly when it is sunk.
proof fn lemma_sunk_count_push(fleet: Seq<Ship>, s: Ship)
    ensures
        sunk_count(fleet.push(s)) == sunk_count(fleet) + if s.sunk { 1nat } else { 0nat },
{
    assert(fleet.push(s).drop_last() =~= fleet);
}

/// No more ships are sunk than there are ships.
proof fn lemma_sunk_count_bound(fleet: Seq<Ship>)
    ensures
        sunk_count(fleet) <= fleet.len(),
    decreases fleet.len(),
{
    if fleet.len() > 0 {
        lemma_sunk_count_bound(fleet.drop_last());
    }
}

/// Every ship is sunk exactly when the count of sunk ships is the fleet size.
proof fn lemma_sunk_count_all(fleet: Seq<Ship>)
    ensures
        sunk_count(fleet) == fleet.len() <==> forall|k: int| 0 <= k < fleet.len() ==> (#[trigger] fleet[k]).sunk,
    decreases fleet.len(),
{
    if fleet.len() > 0 {
        let rest = fleet.drop_last();
        lemma_sunk_count_all(rest);
        lemma_sunk_count_bound(rest);
        if forall|k: int| 0 <= k < fleet.len() ==> (#[trigger] fleet[k]).sunk {
            assert forall|k: int| 0 <= k < rest.len() implies (#[trigger] rest[k]).sunk by {
                assert(fleet[k].sunk);
            }
        }
        if sunk_count(fleet) == fleet.len() {
            assert forall|k: int| 0 <= k < fleet.len() implies (#[trigger] fleet[k]).sunk by {
                if k < rest.len() {
                    assert(rest[k].sunk);
                }
            }
        }
    }
}

/// Distinct coordinates on the board have distinct cell indices.
proof fn lemma_cell_index_injective(a: Coord, b: Coord)
    requires
        in_bounds(a),
        in_bounds(b),
        a != b,
    ensures
        cell_index(a) != cell_index(b),
        0 <= cell_index(a) < CELL_COUNT,
{
}

/// A fleet of pairwise disjoint, non-empty ships on the board has at most
/// one ship per cell.
proof fn lemma_fleet_size(fleet: Seq<Ship>, side: CellSide, cells: Seq<Cell>)
    requires
        fleet_wf(fleet, side, cells),
    ensures
        fleet.len() <= CELL_COUNT,
{
    let anchors = Seq::new(fleet.len(), |k: int| cell_index(fleet[k].cells@[0]));
    assert forall|k: int| 0 <= k < fleet.len() implies in_bounds(#[trigger] fleet[k].cells@[0])
        && fleet[k].cells@.contains(fleet[k].cells@[0]) by {
        assert(ship_wf(fleet[k], side, cells));
    }
    assert(anchors.no_duplicates()) by {
        assert forall|i: int, j: int|
            0 <= i < anchors.len() && 0 <= j < anchors.len() && i != j implies anchors[i]
            != anchors[j] by {
            let a = fleet[i].cells@[0];
            let b = fleet[j].cells@[0];
            assert(fleet[i].cells@.contains(a));
            assert(fleet[j].cells@.contains(b));
            if a == b {
                assert(!fleet[j].cells@.contains(a));
            } else {
                lemma_cell_index_injective(a, b);
            }
        }
    }
    anchors.unique_seq_to_set();
    let range = set_int_range(0, CELL_COUNT as int);
    lemma_int_range(0, CELL_COUNT as int);
    assert forall|x: int| anchors.to_set().contains(x) implies range.contains(x) by {
        let k = choose|k: int| 0 <= k < anchors.len() && anchors[k] == x;
        assert(in_bounds(fleet[k].cells@[0]));
    }
    lemma_len_subset(anchors.to_set(), range);
}

/// Marking the cell at `t` leaves the marked status of every other cell as
/// it was.
proof fn lemma_all_marked_frame(prev: Seq<Cell>, cells: Seq<Cell>, sc: Seq<Coord>, t: Coord)
    requires
        board_wf(prev),
        in_bounds(t),
        cells == prev.update(cell_index(t), Cell { row: t.row, column: t.column, marked: true }),
        forall|j: int| 0 <= j < sc.len() ==> in_bounds(#[trigger] sc[j]),
        !sc.contains(t),
    ensures
        all_marked(cells, sc) == all_marked(prev, sc),
{
    assert forall|j: int| 0 <= j < sc.len() implies marked_at(cells, #[trigger] sc[j]) == marked_at(prev, sc[j]) by {
        assert(sc[j] != t);
        lemma_cell_index_injective(sc[j], t);
    }
}

/// A fleet none of whose ships holds `t` stays well formed when `t` is
/// marked.
proof fn lemma_fleet_frame(
    fleet: Seq<Ship>,
    side: CellSide,
    prev: Seq<Cell>,
    cells: Seq<Cell>,
    t: Coord,
)
    requires
        fleet_wf(fleet, side, prev),
        board_wf(prev),
        in_bounds(t),
        side_of_row(t.row as int) != side,
        cells == prev.update(cell_index(t), Cell { row: t.row, column: t.column, marked: true }),
    ensures
        fleet_wf(fleet, side, cells),
{
    assert forall|k: int| 0 <= k < fleet.len() implies ship_wf(#[trigger] fleet[k], side, cells) by {
        assert(ship_wf(fleet[k], side, prev));
        if fleet[k].cells@.contains(t) {
            let j = choose|j: int| 0 <= j < fleet[k].cells@.len() && fleet[k].cells@[j] == t;
            assert(side_of_row(fleet[k].cells@[j].row as int) == side);
        }
        lemma_all_marked_frame(prev, cells, fleet[k].cells@, t);
    }
}

/// Whether every cell of `ship` has been targeted.
fn all_cells_marked(cells: &Vec<Cell>, ship: &Ship) -> (r: bool)
    requires
        board_wf(cells@),
        forall|j: int| 0 <= j < ship.cells@.len() ==> in_bounds(#[trigger] ship.cells@[j]),
    ensures
        r == all_marked(cells@, ship.cells@),
{
    let mut i: usize = 0;
    while i < ship.cells.len()
        invariant
            i <= ship.cells@.len(),
            board_wf(cells@),
            forall|j: int| 0 <= j < ship.cells@.len() ==> in_bounds(#[trigger] ship.cells@[j]),
            forall|j: int| 0 <= j < i ==> marked_at(cells@, #[trigger] ship.cells@[j]),
        decreases ship.cells@.len() - i,
    {
        let c = ship.cells[i];
        assert(in_bounds(c));
        if !cells[c.row * COLUMNS + c.column].marked {
            return false;
        }
        i = i + 1;
    }
    true
}

/// Resolves a shot at `t`, already marked in `cells`, against `fleet`: finds
/// the ship holding `t`, if any, and sinks it when all its cells are marked.
/// Returns that ship's index and whether it was sunk.
#[verifier::loop_isolation(false)]
fn strike_fleet(
    fleet: &mut Vec<Ship>,
    cells: &Vec<Cell>,
    t: Coord,
    side: CellSide,
    prev: Ghost<Seq<Cell>>,
) -> (r: (Option<usize>, bool))
    requires
        fleet_wf(old(fleet)@, side, prev@),
        board_wf(prev@),
        in_bounds(t),
        !marked_at(prev@, t),
        cells@ == prev@.update(cell_index(t), Cell { row: t.row, column: t.column, marked: true }),
    ensures
        fleet_wf(final(fleet)@, side, cells@),
        final(fleet)@.len() == old(fleet)@.len(),
        sunk_count(final(fleet)@) == sunk_count(old(fleet)@) + if r.1 { 1nat } else { 0nat },
        match r.0 {
            None => {
                &&& !crate::placement::occupied(old(fleet)@, t)
                &&& final(fleet)@ == old(fleet)@
                &&& !r.1
            },
            Some(k) => {
                &&& k < old(fleet)@.len()
                &&& old(fleet)@[k as int].cells@.contains(t)
                &&& r.1 == all_marked(cells@, old(fleet)@[k as int].cells@)
                &&& fleet_view(final(fleet)@) == fleet_view(old(fleet)@).update(
                    k as int,
                    ShipView {
                        ship_type: old(fleet)@[k as int].ship_type,
                        direction: old(fleet)@[k as int].direction,
                        cells: old(fleet)@[k as int].cells@,
                        sunk: r.1,
                    },
                )
            },
        },
{
    let ghost f0 = fleet@;
    assert(board_wf(cells@)) by {
        assert forall|c: Coord| in_bounds(c) implies (#[trigger] cells@[cell_index(c)]).row == c.row
            && cells@[cell_index(c)].column == c.column by {
            if c != t {
                lemma_cell_index_injective(c, t);
            }
        }
    }
    let mut k: usize = 0;
    while k < fleet.len()
        invariant
            k <= fleet@.len(),
            fleet@ == f0,
            forall|j: int| 0 <= j < k ==> !(#[trigger] f0[j].cells@.contains(t)),
        decreases fleet@.len() - k,
    {
        if fleet[k].occupies(t) {
            assert(ship_wf(f0[k as int], side, prev@));
            let sunk = all_cells_marked(cells, &fleet[k]);
            proof {
                // every other ship keeps its status
                assert forall|j: int| 0 <= j < f0.len() && j != k implies ship_wf(#[trigger] f0[j], side, cells@) by {
                    assert(ship_wf(f0[j], side, prev@));
                    assert(!f0[j].cells@.contains(t));
                    lemma_all_marked_frame(prev@, cells@, f0[j].cells@, t);
                }
                // the struck ship was afloat: `t` was not yet marked
                let i = choose|i: int| 0 <= i < f0[k as int].cells@.len() && f0[k as int].cells@[i] == t;
                assert(!marked_at(prev@, f0[k as int].cells@[i]));
                assert(!f0[k as int].sunk);
            }
            if sunk {
                fleet[k].sunk = true;
            }
            proof {
                let nf = fleet@;
                lemma_sunk_count_update(f0, k as int, nf[k as int]);
                assert forall|j: int| 0 <= j < nf.len() implies ship_wf(#[trigger] nf[j], side, cells@) by {
                    if j != k {
                        assert(nf[j] == f0[j]);
                    }
                }
                assert forall|k1: int, k2: int, c: Coord|
                    0 <= k1 < nf.len() && 0 <= k2 < nf.len() && k1 != k2
                        && #[trigger] nf[k1].cells@.contains(c) implies !(
                    #[trigger] nf[k2].cells@.contains(c)) by {
                    assert(nf[k1].cells@ == f0[k1].cells@);
                    assert(nf[k2].cells@ == f0[k2].cells@);
                    assert(f0[k1].cells@.contains(c));
                }
                assert(fleet_view(nf) =~= fleet_view(f0).update(
                    k as int,
                    ShipView {
                        ship_type: f0[k as int].ship_type,
                        direction: f0[k as int].direction,
                        cells: f0[k as int].cells@,
                        sunk: sunk,
                    },
                ));
            }
            return (Some(k), sunk);
        }
        k = k + 1;
    }
    proof {
        lemma_fleet_frame_struck_none(f0, side, prev@, cells@, t);
    }
    (None, false)
}

/// A fleet none of whose ships holds `t` stays well formed when `t` is
/// marked, whatever half `t` lies in.
proof fn lemma_fleet_frame_struck_none(
    fleet: Seq<Ship>,
    side: CellSide,
    prev: Seq<Cell>,
    cells: Seq<Cell>,
    t: Coord,
)
    requires
        fleet_wf(fleet, side, prev),
        board_wf(prev),
        in_bounds(t),
        forall|j: int| 0 <= j < fleet.len() ==> !(#[trigger] fleet[j].cells@.contains(t)),
        cells == prev.update(cell_index(t), Cell { row: t.row, column: t.column, marked: true }),
    ensures
        fleet_wf(fleet, side, cells),
{
    assert forall|k: int| 0 <= k < fleet.len() implies ship_wf(#[trigger] fleet[k], side, cells) by {
        assert(ship_wf(fleet[k], side, prev));
        assert(!fleet[k].cells@.contains(t));
        lemma_all_marked_frame(prev, cells, fleet[k].cells@, t);
    }
}

/// Validates a placement against `fleet` and, when it is valid, appends the
/// ship to the fleet and counts it in `total`.
fn place_in_fleet(
    fleet: &mut Vec<Ship>,
    total: &mut u32,
    side: CellSide,
    cells: &Vec<Cell>,
    ship_type: ShipType,
    direction: ShipDirection,
    anchor_row: usize,
    anchor_col: usize,
) -> (r: Result<(), PlacementError>)
    requires
        fleet_wf(old(fleet)@, side, cells@),
        *old(total) == old(fleet)@.len(),
        board_wf(cells@),
        forall|c: Coord| in_bounds(c) ==> !marked_at(cells@, c),
    ensures
        fleet_wf(final(fleet)@, side, cells@),
        *final(total) == final(fleet)@.len(),
        sunk_count(final(fleet)@) == sunk_count(old(fleet)@),
        ({
            let anchor = Coord { row: anchor_row, column: anchor_col };
            match r {
                Ok(_) => {
                    &&& placement_verdict(side, ship_type, direction, anchor, old(fleet)@) is None
                    &&& *final(total) == *old(total) + 1
                    &&& fleet_view(final(fleet)@) == fleet_view(old(fleet)@).push(
                        ShipView {
                            ship_type,
                            direction,
                            cells: footprint(direction, anchor, ship_size(ship_type)),
                            sunk: false,
                        },
                    )
                },
                Err(e) => {
                    &&& placement_verdict(side, ship_type, direction, anchor, old(fleet)@) == Some(e)
                    &&& *final(fleet) == *old(fleet)
                    &&& *final(total) == *old(total)
                },
            }
        }),
{
    match place(side, ship_type, direction, anchor_row, anchor_col, fleet) {
        Err(e) => Err(e),
        Ok(s) => {
            let ghost anchor = Coord { row: anchor_row, column: anchor_col };
            let ghost len = ship_size(ship_type);
            let ghost old_fleet = fleet@;
            proof {
                lemma_fleet_size(old_fleet, side, cells@);
                assert(s.cells@[0] == anchor);
                assert forall|j: int| 0 <= j < s.cells@.len() implies in_bounds(#[trigger] s.cells@[j]) by {
                    assert(s.cells@[j] == crate::ship::cell_along(direction, anchor, j));
                }
                assert(!marked_at(cells@, s.cells@[0]));
                assert(ship_wf(s, side, cells@));
                assert forall|k: int, c: Coord|
                    0 <= k < old_fleet.len() && #[trigger] old_fleet[k].cells@.contains(c)
                        implies !s.cells@.contains(c) by {
                    if s.cells@.contains(c) {
                        let i = choose|i: int| 0 <= i < s.cells@.len() && s.cells@[i] == c;
                        assert(!crate::placement::occupied(old_fleet, s.cells@[i]));
                    }
                }
                lemma_sunk_count_push(old_fleet, s);
            }
            fleet.push(s);
            *total = *total + 1;
            proof {
                let nf = fleet@;
                assert(nf.drop_last() == old_fleet);
                assert forall|k: int| 0 <= k < nf.len() implies ship_wf(#[trigger] nf[k], side, cells@) by {
                    if k < old_fleet.len() {
                        assert(nf[k] == old_fleet[k]);
                    }
                }
                assert forall|k1: int, k2: int, c: Coord|
                    0 <= k1 < nf.len() && 0 <= k2 < nf.len() && k1 != k2
                        && #[trigger] nf[k1].cells@.contains(c) implies !(
                    #[trigger] nf[k2].cells@.contains(c)) by {
                    if k1 < old_fleet.len() && k2 < old_fleet.len() {
                        assert(nf[k1] == old_fleet[k1]);
                        assert(nf[k2] == old_fleet[k2]);
                    } else if k1 < old_fleet.len() {
                        assert(nf[k1] == old_fleet[k1]);
                    } else {
                        assert(nf[k2] == old_fleet[k2]);
                    }
                }
                assert(fleet_view(nf) =~= fleet_view(old_fleet).push(s@));
            }
            Ok(())
        },
    }
}

impl GameState {
    /// A new game: an unmarked board, no ships, no shots, the player to move.
    pub fn new() -> (g: GameState)
        ensures
            g.wf(),
            g.phase == Phase::PlayerTurn,
            g.winner is None,
            g.player_score == 0,
            g.bot_score == 0,
            g.player_ships@.len() == 0,
            g.bot_ships@.len() == 0,
            g.shot_history.cells@.len() == 0,
            forall|c: Coord| in_bounds(c) ==> !marked_at(g.cells@, c),
    {
        let mut cells: Vec<Cell> = Vec::new();
        let mut r: usize = 0;
        while r < ROWS
            invariant
                r <= ROWS,
                cells@.len() == r * COLUMNS,
                forall|c: Coord|
                    in_bounds(c) && c.row < r ==> #[trigger] cells@[cell_index(c)] == Cell::new_spec(c),
            decreases ROWS - r,
        {
            let mut k: usize = 0;
            while k < COLUMNS
                invariant
                    r < ROWS,
                    k <= COLUMNS,
                    cells@.len() == r * COLUMNS + k,
                    forall|c: Coord|
                        in_bounds(c) && (c.row < r || (c.row == r && c.column < k))
                            ==> #[trigger] cells@[cell_index(c)] == Cell::new_spec(c),
                decreases COLUMNS - k,
            {
                cells.push(Cell::new(r, k));
                k = k + 1;
            }
            r = r + 1;
        }
        let g = GameState {
            phase: Phase::PlayerTurn,
            player_score: 0,
            bot_score: 0,
            total_player_ships: 0,
            total_bot_ships: 0,
            winner: None,
            cells,
            player_ships: Vec::new(),
            bot_ships: Vec::new(),
            shot_history: ClickedCells::new(),
        };
        assert(sunk_count(g.player_ships@) == 0);
        assert(sunk_count(g.bot_ships@) == 0);
        g
    }

    /// The cell at `c`, or `None` when `c` is off the board.
    pub fn cell(&self, c: Coord) -> (r: Option<Cell>)
        requires
            self.wf(),
        ensures
            r == if in_bounds(c) {
                Some(self.cells@[cell_index(c)])
            } else {
                None::<Cell>
            },
    {
        if c.is_in_bounds() {
            Some(self.cells[c.row * COLUMNS + c.column])
        } else {
            None
        }
    }

    /// Places a ship of kind `ship_type` for `side`, anchored at
    /// `(anchor_row, anchor_col)` and extending along `direction`. Ships are
    /// placed while setting up, before the first shot. A rejected placement
    /// changes nothing.
    pub fn place_ship(
        &mut self,
        side: Participant,
        ship_type: ShipType,
        direction: ShipDirection,
        anchor_row: usize,
        anchor_col: usize,
    ) -> (r: Result<(), PlacementError>)
        requires
            old(self).wf(),
            old(self).shot_history.cells@.len() == 0,
        ensures
            final(self).wf(),
            ({
                let anchor = Coord { row: anchor_row, column: anchor_col };
                let verdict = placement_verdict(
                    home_side(side),
                    ship_type,
                    direction,
                    anchor,
                    old(self).fleet_of(side),
                );
                match r {
                    Ok(_) => {
                        &&& verdict is None
                        &&& fleet_view(final(self).fleet_of(side)) == fleet_view(
                            old(self).fleet_of(side),
                        ).push(
                            ShipView {
                                ship_type,
                                direction,
                                cells: footprint(direction, anchor, ship_size(ship_type)),
                                sunk: false,
                            },
                        )
                        &&& final(self).total_of(side) == old(self).total_of(side) + 1
                        &&& final(self).fleet_of(opponent(side)) == old(self).fleet_of(opponent(side))
                        &&& final(self).total_of(opponent(side)) == old(self).total_of(opponent(side))
                        &&& final(self).cells@ == old(self).cells@
                        &&& final(self).shot_history.cells@ == old(self).shot_history.cells@
                        &&& final(self).phase == old(self).phase
                        &&& final(self).winner == old(self).winner
                        &&& final(self).player_score == old(self).player_score
                        &&& final(self).bot_score == old(self).bot_score
                    },
                    Err(e) => {
                        &&& verdict == Some(e)
                        &&& *final(self) == *old(self)
                    },
                }
            }),
    {
        proof {
            assert forall|c: Coord| in_bounds(c) implies !marked_at(self.cells@, c) by {
                assert(!self.shot_history.cells@.contains(c));
            }
        }
        match side {
            Participant::Player => place_in_fleet(
                &mut self.player_ships,
                &mut self.total_player_ships,
                CellSide::Player,
                &self.cells,
                ship_type,
                direction,
                anchor_row,
                anchor_col,
            ),
            Participant::Bot => place_in_fleet(
                &mut self.bot_ships,
                &mut self.total_bot_ships,
                CellSide::Enemy,
                &self.cells,
                ship_type,
                direction,
                anchor_row,
                anchor_col,
            ),
        }
    }

    /// Resolves a shot by `acting` at `target`. A shot out of turn (or after
    /// the game ended), at a cell already targeted, or at a cell off the board
    /// or outside the opponent's half is refused and changes nothing.
    /// Otherwise the cell is marked and recorded, a ship is sunk once all its
    /// cells are marked, the acting side wins when it has sunk the whole
    /// opposing fleet, and else the turn passes to the other side.
    pub fn resolve_shot(&mut self, target: Coord, acting: Participant) -> (r: Result<
        ShotOutcome,
        TurnError,
    >)
        requires
            old(self).wf(),
        ensures
            final(self).wf(),
            match r {
                Ok(o) => {
                    &&& shot_error(*old(self), target, acting) is None
                    &&& shot_effect(*old(self), *final(self), target, acting, o)
                },
                Err(e) => {
                    &&& shot_error(*old(self), target, acting) == Some(e)
                    &&& *final(self) == *old(self)
                },
            },
    {
        let my_turn = match acting {
            Participant::Player => self.phase == Phase::PlayerTurn,
            Participant::Bot => self.phase == Phase::BotTurn,
        };
        if !my_turn {
            return Err(TurnError::OutOfTurn);
        }
        if !target.is_in_bounds() {
            return Err(TurnError::InvalidTarget);
        }
        let idx = target.row * COLUMNS + target.column;
        if self.cells[idx].marked {
            return Err(TurnError::AlreadyTargeted);
        }
        let aim = match acting {
            Participant::Player => CellSide::Enemy,
            Participant::Bot => CellSide::Player,
        };
        if side_of(target.row) != aim {
            return Err(TurnError::InvalidTarget);
        }
        let ghost g0 = *self;
        let ghost prev = self.cells@;
        self.cells.set(idx, Cell { row: target.row, column: target.column, marked: true });
        proof {
            assert(!g0.shot_history.cells@.contains(target));
        }
        self.shot_history.cells.push(target);
        let (hit_ship, sunk) = match acting {
            Participant::Player => {
                proof {
                    lemma_fleet_frame(self.player_ships@, CellSide::Player, prev, self.cells@, target);
                }
                strike_fleet(&mut self.bot_ships, &self.cells, target, CellSide::Enemy, Ghost(prev))
            },
            Participant::Bot => {
                proof {
                    lemma_fleet_frame(self.bot_ships@, CellSide::Enemy, prev, self.cells@, target);
                }
                strike_fleet(&mut self.player_ships, &self.cells, target, CellSide::Player, Ghost(prev))
            },
        };
        proof {
            lemma_sunk_count_bound(self.bot_ships@);
            lemma_sunk_count_bound(self.player_ships@);
        }
        if sunk {
            match acting {
                Participant::Player => self.player_score = self.player_score + 1,
                Participant::Bot => self.bot_score = self.bot_score + 1,
            }
        }
        let game_over = match acting {
            Participant::Player => self.player_score == self.total_bot_ships,
            Participant::Bot => self.bot_score == self.total_player_ships,
        };
        if game_over {
            self.winner = Some(acting);
            self.phase = Phase::GameOver;
        } else {
            self.phase = match acting {
                Participant::Player => Phase::BotTurn,
                Participant::Bot => Phase::PlayerTurn,
            };
        }
        proof {
            let h = self.shot_history.cells@;
            assert(h == g0.shot_history.cells@.push(target));
            assert(h.no_duplicates());
            assert forall|c: Coord| in_bounds(c) implies (#[trigger] h.contains(c) <==> marked_at(self.cells@, c)) by {
                if c != target {
                    lemma_cell_index_injective(c, target);
                    vstd::seq_lib::lemma_seq_contains_after_push(g0.shot_history.cells@, target, c);
                } else {
                    vstd::seq_lib::lemma_seq_contains_after_push(g0.shot_history.cells@, target, c);
                }
            }
            assert(board_wf(self.cells@)) by {
                assert forall|c: Coord| in_bounds(c) implies (#[trigger] self.cells@[cell_index(c)]).row == c.row
                    && self.cells@[cell_index(c)].column == c.column by {
                    if c != target {
                        lemma_cell_index_injective(c, target);
                    }
                }
            }
        }
        Ok(ShotOutcome {
            hit_ship,
            sunk,
            player_score: self.player_score,
            bot_score: self.bot_score,
            game_over,
        })
    }
}

impl Cell {
    /// Takes a shot by `acting` at this cell of `game`: the whole turn, as
    /// `GameState::resolve_shot` describes it. A refused shot changes
    /// nothing; a taken one marks and records the cell, sinks the ship it
    /// completes and scores it, and then ends the game or passes the turn.
    pub fn mark(&self, game: &mut GameState, acting: Participant) -> (r: Result<ShotOutcome, TurnError>)
        requires
            old(game).wf(),
        ensures
            final(game).wf(),
            ({
                let t = Coord { row: self.row, column: self.column };
                match r {
                    Ok(o) => {
                        &&& shot_error(*old(game), t, acting) is None
                        &&& shot_effect(*old(game), *final(game), t, acting, o)
                    },
                    Err(e) => {
                        &&& shot_error(*old(game), t, acting) == Some(e)
                        &&& *final(game) == *old(game)
                    },
                }
            }),
    {
        game.resolve_shot(Coord { row: self.row, column: self.column }, acting)
    }
}

} // verus!
