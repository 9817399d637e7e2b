use batalha_naval::cell::{Cell, Celula, TurnError};
use batalha_naval::engine::{GameState, Participant, Phase};
use batalha_naval::grid::{CellSide, Coord};
use batalha_naval::ship::{ShipDirection, ShipType};

/// A game with the given ships placed for each side.
fn game_with(player: &[(ShipType, ShipDirection, usize, usize)], bot: &[(ShipType, ShipDirection, usize, usize)]) -> GameState {
    let mut g = GameState::new();
    for &(t, d, r, c) in player {
        g.place_ship(Participant::Player, t, d, r, c).unwrap();
    }
    for &(t, d, r, c) in bot {
        g.place_ship(Participant::Bot, t, d, r, c).unwrap();
    }
    g
}

fn simple_game() -> GameState {
    game_with(
        &[(ShipType::Battleship, ShipDirection::Horizontal, 0, 0)],
        &[(ShipType::Battleship, ShipDirection::Horizontal, 6, 0), (ShipType::Submarine, ShipDirection::Horizontal, 9, 9)],
    )
}

fn marked(g: &GameState, r: usize, c: usize) -> bool {
    g.cell(Coord::new(r, c)).unwrap().marked
}

#[test]
fn new_game_has_a_full_unmarked_board() {
    let g = GameState::new();
    assert_eq!(g.phase, Phase::PlayerTurn);
    assert_eq!(g.winner, None);
    assert_eq!(g.player_score, 0);
    assert_eq!(g.bot_score, 0);
    assert_eq!(g.cells.len(), 100);
    for r in 0..10 {
        for c in 0..10 {
            let cell = g.cell(Coord::new(r, c)).unwrap();
            assert_eq!(cell, Cell::new(r, c));
            let expected = if r < 5 { CellSide::Player } else { CellSide::Enemy };
            assert_eq!(cell.side(), expected);
        }
    }
    assert_eq!(g.cell(Coord::new(10, 0)), None);
    assert_eq!(g.cell(Coord::new(0, 10)), None);
    assert!(g.shot_history.cells.is_empty());
}

#[test]
fn cell_set_marked_reports_a_second_mark() {
    let mut cell = Cell::new(7, 2);
    assert_eq!(cell.set_marked(), Ok(()));
    assert!(cell.marked);
    assert_eq!(cell.set_marked(), Err(TurnError::AlreadyTargeted));
    assert!(cell.marked);
    assert_eq!((cell.row, cell.column), (7, 2));
}

#[test]
fn cell_mark_takes_a_whole_shot() {
    let mut g = simple_game();
    let target = Cell::new(6, 0);
    let o = target.mark(&mut g, Participant::Player).unwrap();
    assert_eq!(o.hit_ship, Some(0));
    assert!(marked(&g, 6, 0));
    assert_eq!(g.shot_history.cells, vec![Coord::new(6, 0)]);
    assert_eq!(g.phase, Phase::BotTurn);
    assert_eq!(target.mark(&mut g, Participant::Player), Err(TurnError::OutOfTurn));
    assert_eq!(Cell::new(1, 1).mark(&mut g, Participant::Bot).unwrap().hit_ship, None);
    assert_eq!(Cell::new(6, 0).mark(&mut g, Participant::Player), Err(TurnError::AlreadyTargeted));
    assert_eq!(Cell::new(2, 0).mark(&mut g, Participant::Player), Err(TurnError::InvalidTarget));
    assert!(!marked(&g, 2, 0));
    assert_eq!(g.phase, Phase::PlayerTurn);
}

#[test]
fn cell_mark_after_the_game_is_a_no_op() {
    let mut g = game_with(
        &[(ShipType::Submarine, ShipDirection::Horizontal, 0, 0)],
        &[(ShipType::Submarine, ShipDirection::Horizontal, 5, 0)],
    );
    assert!(Cell::new(5, 0).mark(&mut g, Participant::Player).unwrap().game_over);
    assert_eq!(Cell::new(7, 7).mark(&mut g, Participant::Player), Err(TurnError::OutOfTurn));
    assert_eq!(Cell::new(0, 0).mark(&mut g, Participant::Bot), Err(TurnError::OutOfTurn));
    assert!(!marked(&g, 7, 7));
    assert!(!marked(&g, 0, 0));
    assert_eq!(g.shot_history.cells.len(), 1);
    assert_eq!(g.winner, Some(Participant::Player));
}

#[test]
fn celula_shots_follow_the_board_rule() {
    let mut enemy = Celula { linha: 7, coluna: 2, marcada: false };
    assert_eq!(enemy.atirar(), Ok(()));
    assert!(enemy.esta_marcada());
    assert_eq!(enemy.atirar(), Err(TurnError::AlreadyTargeted));
    let mut own = Celula { linha: 4, coluna: 2, marcada: false };
    assert_eq!(own.atirar(), Err(TurnError::InvalidTarget));
    assert!(!own.esta_marcada());
    let mut own_marked = Celula { linha: 0, coluna: 0, marcada: true };
    assert_eq!(own_marked.atirar(), Err(TurnError::AlreadyTargeted));
}

#[test]
fn celula_marks() {
    let mut c = Celula { linha: 1, coluna: 2, marcada: false };
    assert!(!c.esta_marcada());
    c.marcar();
    assert!(c.esta_marcada());
    assert_eq!((c.linha, c.coluna), (1, 2));
}

#[test]
fn marking_a_cell_twice_is_refused_and_scores_once() {
    let mut g = game_with(
        &[(ShipType::Battleship, ShipDirection::Horizontal, 0, 0)],
        &[(ShipType::Submarine, ShipDirection::Horizontal, 7, 2), (ShipType::Submarine, ShipDirection::Horizontal, 9, 9)],
    );
    let o = g.resolve_shot(Coord::new(7, 2), Participant::Player).unwrap();
    assert!(o.sunk);
    assert_eq!(g.player_score, 1);
    assert!(marked(&g, 7, 2));
    g.resolve_shot(Coord::new(4, 4), Participant::Bot).unwrap();
    let again = g.resolve_shot(Coord::new(7, 2), Participant::Player);
    assert_eq!(again, Err(TurnError::AlreadyTargeted));
    assert!(marked(&g, 7, 2));
    assert_eq!(g.player_score, 1);
    assert_eq!(g.phase, Phase::PlayerTurn);
    assert_eq!(g.shot_history.cells, vec![Coord::new(7, 2), Coord::new(4, 4)]);
}

#[test]
fn ship_sinks_only_when_every_cell_is_hit() {
    let mut g = simple_game();
    let o = g.resolve_shot(Coord::new(6, 0), Participant::Player).unwrap();
    assert_eq!(o.hit_ship, Some(0));
    assert!(o.hit());
    assert!(!o.sunk);
    assert!(!g.bot_ships[0].sunk);
    assert_eq!(g.player_score, 0);
    g.resolve_shot(Coord::new(3, 3), Participant::Bot).unwrap();
    let o = g.resolve_shot(Coord::new(6, 1), Participant::Player).unwrap();
    assert!(!o.sunk);
    assert!(!g.bot_ships[0].sunk);
    g.resolve_shot(Coord::new(3, 4), Participant::Bot).unwrap();
    let o = g.resolve_shot(Coord::new(6, 2), Participant::Player).unwrap();
    assert_eq!(o.hit_ship, Some(0));
    assert!(o.sunk);
    assert!(g.bot_ships[0].sunk);
    assert!(!g.bot_ships[1].sunk);
    assert_eq!(g.player_score, 1);
    assert_eq!(o.player_score, 1);
    assert_eq!(o.bot_score, 0);
    assert!(!o.game_over);
    assert_eq!(g.phase, Phase::BotTurn);
}

#[test]
fn a_miss_changes_no_score() {
    let mut g = simple_game();
    let o = g.resolve_shot(Coord::new(8, 8), Participant::Player).unwrap();
    assert_eq!(o.hit_ship, None);
    assert!(!o.hit());
    assert!(!o.sunk);
    assert_eq!((o.player_score, o.bot_score), (0, 0));
    assert!(marked(&g, 8, 8));
}

#[test]
fn sinking_the_whole_fleet_wins_and_ends_the_game() {
    let mut g = game_with(
        &[(ShipType::Battleship, ShipDirection::Horizontal, 0, 0)],
        &[
            (ShipType::Submarine, ShipDirection::Horizontal, 5, 0),
            (ShipType::Submarine, ShipDirection::Horizontal, 6, 0),
            (ShipType::Submarine, ShipDirection::Horizontal, 7, 0),
        ],
    );
    assert_eq!(g.total_bot_ships, 3);
    let o = g.resolve_shot(Coord::new(5, 0), Participant::Player).unwrap();
    assert!(o.sunk && !o.game_over);
    g.resolve_shot(Coord::new(4, 0), Participant::Bot).unwrap();
    let o = g.resolve_shot(Coord::new(6, 0), Participant::Player).unwrap();
    assert!(o.sunk && !o.game_over);
    g.resolve_shot(Coord::new(4, 1), Participant::Bot).unwrap();
    let o = g.resolve_shot(Coord::new(7, 0), Participant::Player).unwrap();
    assert!(o.sunk);
    assert!(o.game_over);
    assert_eq!(g.player_score, 3);
    assert_eq!(g.winner, Some(Participant::Player));
    assert_eq!(g.phase, Phase::GameOver);

    let history = g.shot_history.cells.clone();
    assert_eq!(g.resolve_shot(Coord::new(1, 1), Participant::Bot), Err(TurnError::OutOfTurn));
    assert_eq!(g.resolve_shot(Coord::new(8, 8), Participant::Player), Err(TurnError::OutOfTurn));
    assert_eq!(g.shot_history.cells, history);
    assert!(!marked(&g, 1, 1));
    assert!(!marked(&g, 8, 8));
    assert_eq!(g.phase, Phase::GameOver);
    assert_eq!(g.winner, Some(Participant::Player));
    assert_eq!(g.bot_turn(), None);
}

#[test]
fn the_bot_can_win() {
    let mut g = game_with(
        &[(ShipType::Submarine, ShipDirection::Horizontal, 2, 2)],
        &[(ShipType::Submarine, ShipDirection::Horizontal, 9, 9)],
    );
    g.resolve_shot(Coord::new(5, 5), Participant::Player).unwrap();
    let o = g.resolve_shot(Coord::new(2, 2), Participant::Bot).unwrap();
    assert!(o.sunk && o.game_over);
    assert_eq!(o.bot_score, 1);
    assert_eq!(g.winner, Some(Participant::Bot));
    assert_eq!(g.phase, Phase::GameOver);
}

#[test]
fn a_valid_shot_passes_the_turn() {
    let mut g = simple_game();
    assert_eq!(g.phase, Phase::PlayerTurn);
    g.resolve_shot(Coord::new(5, 5), Participant::Player).unwrap();
    assert_eq!(g.phase, Phase::BotTurn);
    g.resolve_shot(Coord::new(4, 4), Participant::Bot).unwrap();
    assert_eq!(g.phase, Phase::PlayerTurn);
}

#[test]
fn refused_shots_keep_the_turn() {
    let mut g = simple_game();
    g.resolve_shot(Coord::new(5, 5), Participant::Player).unwrap();
    g.resolve_shot(Coord::new(4, 4), Participant::Bot).unwrap();
    assert_eq!(g.phase, Phase::PlayerTurn);

    assert_eq!(g.resolve_shot(Coord::new(5, 5), Participant::Player), Err(TurnError::AlreadyTargeted));
    assert_eq!(g.phase, Phase::PlayerTurn);
    assert_eq!(g.resolve_shot(Coord::new(2, 2), Participant::Player), Err(TurnError::InvalidTarget));
    assert_eq!(g.phase, Phase::PlayerTurn);
    assert_eq!(g.resolve_shot(Coord::new(10, 2), Participant::Player), Err(TurnError::InvalidTarget));
    assert_eq!(g.resolve_shot(Coord::new(6, 10), Participant::Player), Err(TurnError::InvalidTarget));
    assert_eq!(g.phase, Phase::PlayerTurn);
    assert_eq!(g.resolve_shot(Coord::new(3, 3), Participant::Bot), Err(TurnError::OutOfTurn));
    assert_eq!(g.phase, Phase::PlayerTurn);
    assert!(!marked(&g, 2, 2));
    assert!(!marked(&g, 3, 3));
    assert_eq!(g.shot_history.cells.len(), 2);
}

#[test]
fn an_already_targeted_cell_is_reported_before_the_wrong_half() {
    let mut g = simple_game();
    g.resolve_shot(Coord::new(5, 5), Participant::Player).unwrap();
    g.resolve_shot(Coord::new(4, 4), Participant::Bot).unwrap();
    assert_eq!(g.resolve_shot(Coord::new(4, 4), Participant::Player), Err(TurnError::AlreadyTargeted));
}

#[test]
fn the_bot_hits_player_ships() {
    let mut g = simple_game();
    g.resolve_shot(Coord::new(5, 5), Participant::Player).unwrap();
    let o = g.resolve_shot(Coord::new(0, 1), Participant::Bot).unwrap();
    assert_eq!(o.hit_ship, Some(0));
    assert!(!o.sunk);
    assert_eq!(g.bot_score, 0);
}
