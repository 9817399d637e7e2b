use batalha_naval::engine::{GameState, Participant};
use batalha_naval::grid::{CellSide, Coord};
use batalha_naval::placement::{place, PlacementError};
use batalha_naval::setup::valid_placements;
use batalha_naval::ship::{Ship, ShipDirection, ShipType};

fn no_ships() -> Vec<Ship> {
    Vec::new()
}

fn coords(cells: &[(usize, usize)]) -> Vec<Coord> {
    cells.iter().map(|&(r, c)| Coord::new(r, c)).collect()
}

#[test]
fn ship_sizes() {
    assert_eq!(ShipType::Submarine.size(), 1);
    assert_eq!(ShipType::Battleship.size(), 3);
    assert_eq!(ShipType::LargeBattleship.size(), 4);
    assert_eq!(ShipType::AircraftCarrier.size(), 5);
}

#[test]
fn battleship_past_the_right_edge_is_out_of_bounds() {
    let r = place(CellSide::Player, ShipType::Battleship, ShipDirection::Horizontal, 0, 8, &no_ships());
    assert_eq!(r.unwrap_err(), PlacementError::OutOfBounds);
}

#[test]
fn battleship_touching_the_right_edge_fits() {
    let s = place(CellSide::Player, ShipType::Battleship, ShipDirection::Horizontal, 0, 7, &no_ships()).unwrap();
    assert_eq!(s.cells, coords(&[(0, 7), (0, 8), (0, 9)]));
}

#[test]
fn vertical_ship_past_the_bottom_is_out_of_bounds() {
    let r = place(CellSide::Enemy, ShipType::AircraftCarrier, ShipDirection::Vertical, 7, 0, &no_ships());
    assert_eq!(r.unwrap_err(), PlacementError::OutOfBounds);
}

#[test]
fn huge_anchor_is_out_of_bounds() {
    let r = place(CellSide::Enemy, ShipType::Submarine, ShipDirection::Horizontal, usize::MAX, usize::MAX, &no_ships());
    assert_eq!(r.unwrap_err(), PlacementError::OutOfBounds);
    let r = place(CellSide::Enemy, ShipType::Battleship, ShipDirection::Vertical, usize::MAX - 1, 0, &no_ships());
    assert_eq!(r.unwrap_err(), PlacementError::OutOfBounds);
}

#[test]
fn ship_straddling_the_halves_is_in_wrong_territory() {
    let r = place(CellSide::Player, ShipType::Battleship, ShipDirection::Vertical, 3, 2, &no_ships());
    assert_eq!(r.unwrap_err(), PlacementError::WrongTerritory);
    let r = place(CellSide::Enemy, ShipType::Battleship, ShipDirection::Vertical, 3, 2, &no_ships());
    assert_eq!(r.unwrap_err(), PlacementError::WrongTerritory);
}

#[test]
fn ship_in_the_other_half_is_in_wrong_territory() {
    let r = place(CellSide::Player, ShipType::Submarine, ShipDirection::Horizontal, 7, 2, &no_ships());
    assert_eq!(r.unwrap_err(), PlacementError::WrongTerritory);
    let r = place(CellSide::Enemy, ShipType::LargeBattleship, ShipDirection::Horizontal, 4, 0, &no_ships());
    assert_eq!(r.unwrap_err(), PlacementError::WrongTerritory);
}

#[test]
fn bounds_are_checked_before_territory() {
    let r = place(CellSide::Player, ShipType::AircraftCarrier, ShipDirection::Horizontal, 7, 6, &no_ships());
    assert_eq!(r.unwrap_err(), PlacementError::OutOfBounds);
}

#[test]
fn submarine_on_a_battleship_overlaps() {
    let bs = place(CellSide::Player, ShipType::Battleship, ShipDirection::Horizontal, 3, 2, &no_ships()).unwrap();
    assert_eq!(bs.cells, coords(&[(3, 2), (3, 3), (3, 4)]));
    let fleet = vec![bs];
    let r = place(CellSide::Player, ShipType::Submarine, ShipDirection::Horizontal, 3, 3, &fleet);
    assert_eq!(r.unwrap_err(), PlacementError::Overlap);
    let ok = place(CellSide::Player, ShipType::Submarine, ShipDirection::Horizontal, 3, 5, &fleet);
    assert!(ok.is_ok());
}

#[test]
fn territory_is_checked_before_overlap() {
    let bs = place(CellSide::Player, ShipType::Battleship, ShipDirection::Vertical, 2, 2, &no_ships()).unwrap();
    let fleet = vec![bs];
    let r = place(CellSide::Player, ShipType::LargeBattleship, ShipDirection::Vertical, 2, 2, &fleet);
    assert_eq!(r.unwrap_err(), PlacementError::WrongTerritory);
}

#[test]
fn placed_ship_has_its_kind_direction_and_cells() {
    let s = place(CellSide::Enemy, ShipType::LargeBattleship, ShipDirection::Vertical, 5, 9, &no_ships()).unwrap();
    assert_eq!(s.ship_type, ShipType::LargeBattleship);
    assert_eq!(s.direction, ShipDirection::Vertical);
    assert_eq!(s.cells, coords(&[(5, 9), (6, 9), (7, 9), (8, 9)]));
    assert!(!s.sunk);
}

#[test]
fn place_ship_records_the_ship_and_counts_it() {
    let mut g = GameState::new();
    g.place_ship(Participant::Player, ShipType::Battleship, ShipDirection::Horizontal, 3, 2).unwrap();
    assert_eq!(g.total_player_ships, 1);
    assert_eq!(g.total_bot_ships, 0);
    assert_eq!(g.player_ships.len(), 1);
    let r = g.place_ship(Participant::Player, ShipType::Submarine, ShipDirection::Horizontal, 3, 3);
    assert_eq!(r, Err(PlacementError::Overlap));
    assert_eq!(g.total_player_ships, 1);
    assert_eq!(g.player_ships.len(), 1);
    g.place_ship(Participant::Bot, ShipType::Submarine, ShipDirection::Horizontal, 3 + 5, 3).unwrap();
    assert_eq!(g.total_bot_ships, 1);
    assert_eq!(g.bot_ships[0].cells, coords(&[(8, 3)]));
}

#[test]
fn ships_of_different_sides_do_not_collide() {
    let mut g = GameState::new();
    g.place_ship(Participant::Player, ShipType::Submarine, ShipDirection::Horizontal, 4, 4).unwrap();
    let r = g.place_ship(Participant::Bot, ShipType::Submarine, ShipDirection::Horizontal, 4, 4);
    assert_eq!(r, Err(PlacementError::WrongTerritory));
    g.place_ship(Participant::Bot, ShipType::Submarine, ShipDirection::Horizontal, 5, 4).unwrap();
}

#[test]
fn valid_placements_are_counted_exactly() {
    let subs = valid_placements(CellSide::Player, ShipType::Submarine, &no_ships());
    assert_eq!(subs.len(), 100);
    let bs = valid_placements(CellSide::Player, ShipType::Battleship, &no_ships());
    assert_eq!(bs.len(), 40 + 30);
    let carriers = valid_placements(CellSide::Enemy, ShipType::AircraftCarrier, &no_ships());
    assert_eq!(carriers.len(), 30 + 10);
}

#[test]
fn valid_placements_avoid_existing_ships() {
    let carrier = place(CellSide::Enemy, ShipType::AircraftCarrier, ShipDirection::Vertical, 5, 0, &no_ships()).unwrap();
    let fleet = vec![carrier];
    let subs = valid_placements(CellSide::Enemy, ShipType::Submarine, &fleet);
    assert_eq!(subs.len(), 2 * (50 - 5));
    for p in &subs {
        assert!(!(p.column == 0));
        assert!(p.row >= 5);
    }
}

#[test]
fn random_fleet_is_complete_and_disjoint() {
    let mut g = GameState::new();
    assert!(g.place_fleet_randomly(Participant::Bot));
    assert_eq!(g.total_bot_ships, 4);
    let kinds: Vec<ShipType> = g.bot_ships.iter().map(|s| s.ship_type).collect();
    assert_eq!(
        kinds,
        vec![ShipType::Submarine, ShipType::Battleship, ShipType::LargeBattleship, ShipType::AircraftCarrier]
    );
    let mut seen: Vec<Coord> = Vec::new();
    for s in &g.bot_ships {
        assert_eq!(s.cells.len(), s.ship_type.size());
        for c in &s.cells {
            assert!(c.row >= 5 && c.row < 10 && c.column < 10);
            assert!(!seen.contains(c));
            seen.push(*c);
        }
    }
    assert_eq!(seen.len(), 13);
    assert_eq!(g.total_player_ships, 0);
}

#[test]
fn random_fleets_always_fit_on_both_sides() {
    for _ in 0..200 {
        let mut g = GameState::new();
        assert!(g.place_fleet_randomly(Participant::Player));
        assert!(g.place_fleet_randomly(Participant::Bot));
        assert_eq!((g.total_player_ships, g.total_bot_ships), (4, 4));
        assert!(g.player_ships.iter().all(|s| s.cells.iter().all(|c| c.row < 5)));
        assert!(g.bot_ships.iter().all(|s| s.cells.iter().all(|c| c.row >= 5 && c.row < 10)));
    }
}

#[test]
fn random_fleet_keeps_the_rest_of_the_game() {
    let mut g = GameState::new();
    g.place_ship(Participant::Bot, ShipType::Submarine, ShipDirection::Horizontal, 9, 9).unwrap();
    assert!(g.place_fleet_randomly(Participant::Player));
    assert!(g.place_fleet_randomly(Participant::Bot));
    assert_eq!(g.total_bot_ships, 5);
    assert_eq!(g.bot_ships[0].cells, coords(&[(9, 9)]));
    assert_eq!(g.winner, None);
    assert_eq!((g.player_score, g.bot_score), (0, 0));
    assert!(g.cells.iter().all(|c| !c.marked));
    assert!(g.player_ships.iter().chain(g.bot_ships.iter()).all(|s| !s.sunk));
}

#[test]
fn random_ship_lands_on_a_valid_placement() {
    let mut g = GameState::new();
    let p = g.place_ship_randomly(Participant::Player, ShipType::LargeBattleship).unwrap();
    let s = &g.player_ships[0];
    assert_eq!(s.cells[0], Coord::new(p.row, p.column));
    assert_eq!(s.direction, p.direction);
    for c in &s.cells {
        assert!(c.row < 5);
    }
}
