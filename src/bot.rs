//! The bot's choice of target: a uniformly random cell of the player's half
//! that has not been targeted yet.

use vstd::prelude::*;
use crate::chance::random_below;
use crate::engine::{
    ClickedCells, GameState, Participant, Phase, ShotOutcome, shot_effect, shot_error,
};
use crate::grid::{CellSide, Coord, COLUMNS, cell_index, in_bounds, side_of_row};

verus! {

/// Number of cells in the player's half.
pub const PLAYER_CELL_COUNT: usize = 50;

/// The `i`-th cell of the player's half in row-major order.
pub open spec fn territory_cell(i: int) -> Coord {
    Coord { row: (i / COLUMNS as int) as usize, column: (i % COLUMNS as int) as usize }
}

/// The bot may fire at `c` given the ledger `h`: a cell of the player's half
/// not yet targeted.
pub open spec fn is_candidate(h: Seq<Coord>, c: Coord) -> bool {
    &&& in_bounds(c)
    &&& side_of_row(c.row as int) == CellSide::Player
    &&& !h.contains(c)
}

/// The untried cells among the first `n` cells of the player's half, in
/// row-major order.
pub open spec fn untried_prefix(h: Seq<Coord>, n: nat) -> Seq<Coord>
    decreases n,
{
    if n == 0 {
        Seq::empty()
    } else {
        let prev = untried_prefix(h, (n - 1) as nat);
        let c = territory_cell(n - 1);
        if h.contains(c) {
            prev
        } else {
            prev.push(c)
        }
    }
}

/// The cells the bot may still fire at, in row-major order.
pub open spec fn untried(h: Seq<Coord>) -> Seq<Coord> {
    untried_prefix(h, PLAYER_CELL_COUNT as nat)
}

/// The set of cells the bot may still fire at.
pub open spec fn untried_set(h: Seq<Coord>) -> Set<Coord> {
    Set::new(|c: Coord| is_candidate(h, c))
}

/// Row-major numbering of the player's half matches the board's cell index.
proof fn lemma_territory_cell(i: int)
    requires
        0 <= i < PLAYER_CELL_COUNT,
    ensures
        cell_index(territory_cell(i)) == i,
        in_bounds(territory_cell(i)),
        side_of_row(territory_cell(i).row as int) == CellSide::Player,
{
}

/// A cell of the player's half is the cell numbered by its index.
proof fn lemma_territory_index(c: Coord)
    requires
        in_bounds(c),
        side_of_row(c.row as int) == CellSide::Player,
    ensures
        0 <= cell_index(c) < PLAYER_CELL_COUNT,
        territory_cell(cell_index(c)) == c,
{
}

/// The untried prefix holds exactly the untried cells numbered below `n`,
/// in increasing order.
proof fn lemma_untried_prefix(h: Seq<Coord>, n: nat)
    requires
        n <= PLAYER_CELL_COUNT,
    ensures
        forall|j: int|
            0 <= j < untried_prefix(h, n).len() ==> {
                let c = #[trigger] untried_prefix(h, n)[j];
                &&& is_candidate(h, c)
                &&& cell_index(c) < n
            },
        forall|i: int|
            0 <= i < n && !h.contains(territory_cell(i)) ==> untried_prefix(h, n).contains(
                #[trigger] territory_cell(i),
            ),
        forall|j1: int, j2: int|
            0 <= j1 < j2 < untried_prefix(h, n).len() ==> cell_index(
                #[trigger] untried_prefix(h, n)[j1],
            ) < cell_index(#[trigger] untried_prefix(h, n)[j2]),
    decreases n,
{
    if n > 0 {
        let m = (n - 1) as nat;
        lemma_untried_prefix(h, m);
        lemma_territory_cell(m as int);
        let prev = untried_prefix(h, m);
        let c = territory_cell(m as int);
        if !h.contains(c) {
            assert forall|i: int| 0 <= i < n && !h.contains(territory_cell(i)) implies untried_prefix(
                h,
                n,
            ).contains(#[trigger] territory_cell(i)) by {
                if i < m {
                    let j = choose|j: int| 0 <= j < prev.len() && prev[j] == territory_cell(i);
                    assert(untried_prefix(h, n)[j] == territory_cell(i));
                } else {
                    assert(untried_prefix(h, n)[prev.len() as int] == c);
                }
            }
        }
    }
}

/// What the bot may fire at, as a sequence and as a set, is exactly the
/// untried cells of the player's half, each once.
pub proof fn lemma_untried(h: Seq<Coord>)
    ensures
        forall|c: Coord| #[trigger] untried(h).contains(c) <==> is_candidate(h, c),
        untried(h).no_duplicates(),
        untried_set(h).finite(),
        untried_set(h).len() == untried(h).len(),
        untried(h).to_set() == untried_set(h),
{
    let u = untried(h);
    lemma_untried_prefix(h, PLAYER_CELL_COUNT as nat);
    assert forall|c: Coord| #[trigger] u.contains(c) <==> is_candidate(h, c) by {
        if is_candidate(h, c) {
            lemma_territory_index(c);
            assert(u.contains(territory_cell(cell_index(c))));
        }
    }
    assert(u.to_set() =~= untried_set(h));
    u.unique_seq_to_set();
}

/// The cells the bot may still fire at, in row-major order.
pub fn untried_cells(history: &ClickedCells) -> (r: Vec<Coord>)
    ensures
        r@ == untried(history.cells@),
{
    let mut r: Vec<Coord> = Vec::new();
    let mut i: usize = 0;
    while i < PLAYER_CELL_COUNT
        invariant
            i <= PLAYER_CELL_COUNT,
            r@ == untried_prefix(history.cells@, i as nat),
        decreases PLAYER_CELL_COUNT - i,
    {
        let c = Coord { row: i / COLUMNS, column: i % COLUMNS };
        if !history.contains(c) {
            r.push(c);
        }
        i = i + 1;
    }
    r
}

/// The `index`-th cell, in row-major order, that the bot may still fire at;
/// `None` when there are not that many.
pub fn untried_at(history: &ClickedCells, index: usize) -> (r: Option<Coord>)
    ensures
        r == if index < untried(history.cells@).len() {
            Some(untried(history.cells@)[index as int])
        } else {
            None::<Coord>
        },
{
    let cells = untried_cells(history);
    if index < cells.len() {
        Some(cells[index])
    } else {
        None
    }
}

/// Picks uniformly at random a cell of the player's half that is not in the
/// ledger; `None` when every such cell has been targeted.
pub fn choose_target(history: &ClickedCells) -> (r: Option<Coord>)
    ensures
        r is None <==> untried_set(history.cells@).len() == 0,
        r matches Some(c) ==> is_candidate(history.cells@, c),
{
    proof {
        lemma_untried(history.cells@);
    }
    let n = untried_cells(history).len();
    if n == 0 {
        return None;
    }
    let r = untried_at(history, random_below(n));
    proof {
        let c = r.unwrap();
        assert(untried(history.cells@).contains(c));
    }
    r
}

/// The bot never fires twice at one cell. Take a run of picks, each one a
/// cell the bot may fire at given the ledger `h0` grown by the picks before
/// it: no cell occurs twice in the run, and each pick uses up exactly one of
/// the cells that were left, so after as many picks as `h0` left cells,
/// none is left and the bot has nothing to choose.
pub proof fn lemma_bot_never_repeats(h0: Seq<Coord>, picks: Seq<Coord>)
    requires
        forall|i: int| 0 <= i < picks.len() ==> is_candidate(h0 + picks.take(i), #[trigger] picks[i]),
    ensures
        picks.no_duplicates(),
        picks.len() + untried_set(h0 + picks).len() == untried_set(h0).len(),
    decreases picks.len(),
{
    if picks.len() == 0 {
        assert(h0 + picks =~= h0);
    } else {
        let n = picks.len() - 1;
        let rest = picks.drop_last();
        let c = picks[n];
        assert forall|i: int| 0 <= i < rest.len() implies is_candidate(h0 + rest.take(i), #[trigger] rest[i]) by {
            assert(rest.take(i) =~= picks.take(i));
            assert(is_candidate(h0 + picks.take(i), picks[i]));
        }
        lemma_bot_never_repeats(h0, rest);
        let h1 = h0 + rest;
        assert(picks.take(n) =~= rest);
        assert(is_candidate(h1, c));
        assert(h0 + picks =~= h1.push(c));
        assert(untried_set(h1.push(c)) =~= untried_set(h1).remove(c)) by {
            assert forall|x: Coord| #[trigger] h1.push(c).contains(x) <==> (h1.contains(x) || x == c) by {
                vstd::seq_lib::lemma_seq_contains_after_push(h1, c, x);
            }
        }
        lemma_untried(h1);
        assert(untried_set(h1).contains(c));
        assert forall|j: int| 0 <= j < rest.len() implies #[trigger] rest[j] != c by {
            assert(h1[h0.len() + j] == rest[j]);
            assert(h1.contains(rest[j]));
        }
        assert(picks =~= rest.push(c));
        assert forall|i: int, j: int| 0 <= i < picks.len() && 0 <= j < picks.len() && i != j implies picks[i] != picks[j] by {
            if i < n && j < n {
                assert(rest[i] != rest[j]);
            } else if i < n {
                assert(rest[i] != c);
            } else {
                assert(rest[j] != c);
            }
        }
    }
}

/// Number of the moves in `actors` that are the bot's.
pub open spec fn bot_moves(actors: Seq<Participant>) -> nat
    decreases actors.len(),
{
    if actors.len() == 0 {
        0
    } else {
        bot_moves(actors.drop_last()) + if actors.last() == Participant::Bot {
            1nat
        } else {
            0nat
        }
    }
}

/// In play no cell is ever fired at twice, and the bot uses up its choices
/// one by one. Take a run of taken shots: `games[i]` becomes `games[i + 1]`
/// by the shot of `actors[i]` at `shots[i]` with outcome `outcomes[i]`, as
/// `resolve_shot` (and so `bot_turn`) states it. Then the shots are pairwise
/// distinct, the ledger at the end is the ledger at the start followed by
/// the shots, and every bot shot removes exactly one of the cells the bot
/// could choose from while the player's shots remove none: after as many bot
/// shots as there were such cells at the start, the bot has none left.
pub proof fn lemma_play_never_repeats(
    games: Seq<GameState>,
    shots: Seq<Coord>,
    actors: Seq<Participant>,
    outcomes: Seq<ShotOutcome>,
)
    requires
        games.len() == shots.len() + 1,
        actors.len() == shots.len(),
        outcomes.len() == shots.len(),
        forall|i: int|
            0 <= i < shots.len() ==> {
                &&& games[i].wf()
                &&& shot_error(games[i], #[trigger] shots[i], actors[i]) is None
                &&& shot_effect(games[i], games[i + 1], shots[i], actors[i], outcomes[i])
            },
    ensures
        shots.no_duplicates(),
        games.last().shot_history.cells@ == games[0].shot_history.cells@ + shots,
        bot_moves(actors) + untried_set(games.last().shot_history.cells@).len() == untried_set(
            games[0].shot_history.cells@,
        ).len(),
    decreases shots.len(),
{
    let n = shots.len();
    let h0 = games[0].shot_history.cells@;
    if n == 0 {
        assert(h0 + shots =~= h0);
    } else {
        let m = n - 1;
        let gs = games.drop_last();
        let rest = shots.drop_last();
        let ra = actors.drop_last();
        let ro = outcomes.drop_last();
        assert forall|i: int| 0 <= i < rest.len() implies {
            &&& gs[i].wf()
            &&& shot_error(gs[i], #[trigger] rest[i], ra[i]) is None
            &&& shot_effect(gs[i], gs[i + 1], rest[i], ra[i], ro[i])
        } by {
            assert(shots[i] == rest[i]);
        }
        lemma_play_never_repeats(gs, rest, ra, ro);
        let g = games[m];
        let t = shots[m];
        assert(gs.last() == g);
        assert(shot_error(g, shots[m], actors[m]) is None);
        let h = g.shot_history.cells@;
        assert(h == h0 + rest);
        assert(!h.contains(t));
        assert(games.last().shot_history.cells@ =~= h0 + shots) by {
            assert(h0 + shots =~= (h0 + rest).push(t));
        }
        assert forall|j: int| 0 <= j < rest.len() implies #[trigger] rest[j] != t by {
            assert(h[h0.len() + j] == rest[j]);
        }
        assert(shots =~= rest.push(t));
        assert forall|i: int, j: int| 0 <= i < n && 0 <= j < n && i != j implies shots[i] != shots[j] by {
            if i < m && j < m {
                assert(rest[i] != rest[j]);
            } else if i < m {
                assert(rest[i] != t);
            } else {
                assert(rest[j] != t);
            }
        }
        let hn = h.push(t);
        assert forall|x: Coord| #[trigger] hn.contains(x) <==> (h.contains(x) || x == t) by {
            vstd::seq_lib::lemma_seq_contains_after_push(h, t, x);
        }
        lemma_untried(h);
        assert(actors.drop_last() == ra);
        if actors[m] == Participant::Bot {
            assert(untried_set(hn) =~= untried_set(h).remove(t));
            assert(untried_set(h).contains(t));
        } else {
            assert(untried_set(hn) =~= untried_set(h));
        }
    }
}

impl GameState {
    /// Plays the bot's move: when it is the bot's turn and some cell of the
    /// player's half is untried, fires at one such cell chosen at random and
    /// returns it with the shot's outcome. Otherwise changes nothing.
    pub fn bot_turn(&mut self) -> (r: Option<(Coord, ShotOutcome)>)
        requires
            old(self).wf(),
        ensures
            final(self).wf(),
            r is Some <==> old(self).phase == Phase::BotTurn && untried_set(
                old(self).shot_history.cells@,
            ).len() > 0,
            r is None ==> *final(self) == *old(self),
            r matches Some((t, o)) ==> {
                &&& is_candidate(old(self).shot_history.cells@, t)
                &&& shot_error(*old(self), t, Participant::Bot) is None
                &&& shot_effect(*old(self), *final(self), t, Participant::Bot, o)
            },
    {
        if self.phase != Phase::BotTurn {
            return None;
        }
        match choose_target(&self.shot_history) {
            None => None,
            Some(t) => {
                proof {
                    assert(!self.shot_history.cells@.contains(t));
                }
                match self.resolve_shot(t, Participant::Bot) {
                    Ok(o) => Some((t, o)),
                    Err(_) => None,
                }
            },
        }
    }
}

} // verus!
