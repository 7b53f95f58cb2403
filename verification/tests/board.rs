use battleship::board::{Board, Impact};
use battleship::geometry::{Point, Position};
use battleship::ship::{Ship, ShipType};

fn cell(x: i32, y: i32) -> Point {
    Point { x, y }
}

fn empty_grid() -> [[bool; 10]; 10] {
    [[false; 10]; 10]
}

fn two_ship_board() -> Board {
    let ships = vec![
        Ship::new(ShipType::Destroyer, Position::Horizontal { start_x: 2, end_x: 3, y: 5 }),
        Ship::new(ShipType::Submarine, Position::Horizontal { start_x: 3, end_x: 3, y: 3 }),
    ];
    Board::new(empty_grid(), ships)
}

#[test]
fn new_board_has_no_history() {
    let mut grid = empty_grid();
    grid[3][3] = true;
    let board = two_ship_board();
    assert!(board.impacts.is_empty());
    assert_eq!(board.ships.len(), 2);
    let board = Board::new(grid, Vec::new());
    assert_eq!(board.occupied, grid);
    assert!(board.ships.is_empty());
    assert!(board.impacts.is_empty());
}

#[test]
fn strike_on_open_water_misses_and_changes_no_ship() {
    let mut board = two_ship_board();
    let before = board.ships.clone();
    assert!(!board.register_strike(cell(4, 4)));
    assert_eq!(board.ships, before);
    assert!(board.impacts.is_empty());
}

#[test]
fn strike_on_a_ship_kills_that_cell_only() {
    let mut board = two_ship_board();
    assert!(board.register_strike(cell(3, 5)));
    assert_eq!(board.ships[0].health, vec![true, false]);
    assert_eq!(board.ships[1].health, vec![true]);
    assert!(board.impacts.is_empty());
}

#[test]
fn strike_is_taken_by_the_first_ship_that_covers_the_cell() {
    let ships = vec![
        Ship::new(ShipType::Submarine, Position::Horizontal { start_x: 0, end_x: 0, y: 0 }),
        Ship::new(ShipType::Destroyer, Position::Horizontal { start_x: 1, end_x: 2, y: 1 }),
        Ship::new(ShipType::Destroyer, Position::Vertical { start_y: 1, end_y: 2, x: 1 }),
    ];
    let mut board = Board::new(empty_grid(), ships);
    assert!(board.register_strike(cell(1, 1)));
    assert_eq!(board.ships[0].health, vec![true]);
    assert_eq!(board.ships[1].health, vec![false, true]);
    assert_eq!(board.ships[2].health, vec![true, true]);
}

#[test]
fn board_without_ships_counts_as_sunk() {
    let board = Board::new(empty_grid(), Vec::new());
    assert!(board.all_ships_sunk());
}

#[test]
fn fleet_is_sunk_when_the_last_cell_dies() {
    let mut board = two_ship_board();
    assert!(!board.all_ships_sunk());
    assert!(board.register_strike(cell(3, 3)));
    assert!(!board.all_ships_sunk());
    assert!(board.register_strike(cell(2, 5)));
    assert!(!board.all_ships_sunk());
    assert!(board.register_strike(cell(3, 5)));
    assert!(board.all_ships_sunk());
    assert!(board.register_strike(cell(3, 5)));
    assert!(board.all_ships_sunk());
}

#[test]
fn one_live_cell_keeps_the_fleet_afloat() {
    let ships = vec![
        Ship {
            health: vec![false, false],
            pos: Position::Horizontal { start_x: 0, end_x: 1, y: 0 },
            ship_type: ShipType::Destroyer,
        },
        Ship {
            health: vec![false, true, false],
            pos: Position::Horizontal { start_x: 0, end_x: 2, y: 2 },
            ship_type: ShipType::Cruiser,
        },
    ];
    let board = Board::new(empty_grid(), ships);
    assert!(!board.all_ships_sunk());
}

#[test]
fn recorded_strike_is_found_again() {
    let mut board = two_ship_board();
    assert!(!board.already_struck(cell(4, 4)));
    assert!(board.record_impact(Impact { coords: cell(4, 4), hit: false }));
    assert!(board.already_struck(cell(4, 4)));
    assert!(!board.already_struck(cell(4, 5)));
    assert!(!board.already_struck(cell(5, 4)));
}

#[test]
fn struck_cell_stays_struck() {
    let mut board = two_ship_board();
    board.record_impact(Impact { coords: cell(1, 1), hit: true });
    for i in 0..10 {
        board.register_strike(cell(i, 5));
        board.record_impact(Impact { coords: cell(i, 9), hit: i % 2 == 0 });
        assert!(board.already_struck(cell(1, 1)));
        assert_eq!(board.impacts.len(), 2 + i as usize);
    }
}

#[test]
fn asking_does_not_change_the_board() {
    let mut board = two_ship_board();
    board.record_impact(Impact { coords: cell(1, 1), hit: true });
    let ships = board.ships.clone();
    let impacts = board.impacts.clone();
    assert!(board.already_struck(cell(1, 1)));
    assert!(!board.already_struck(cell(2, 2)));
    assert!(!board.all_ships_sunk());
    assert_eq!(board.ships, ships);
    assert_eq!(board.impacts, impacts);
}

#[test]
fn equal_record_is_not_entered_twice() {
    let mut board = two_ship_board();
    let impact = Impact { coords: cell(7, 2), hit: true };
    assert!(board.record_impact(impact));
    assert!(!board.record_impact(impact));
    assert_eq!(board.impacts, vec![impact]);
    // Only an equal record is held back: the same cell with another outcome is another record.
    let other = Impact { coords: cell(7, 2), hit: false };
    assert!(board.record_impact(other));
    assert_eq!(board.impacts, vec![impact, other]);
}

#[test]
fn stats_of_an_empty_history() {
    let board = two_ship_board();
    assert_eq!(board.hit_stats(), (0, 0));
}

#[test]
fn stats_count_hits_and_strikes() {
    let mut board = two_ship_board();
    board.record_impact(Impact { coords: cell(0, 0), hit: true });
    board.record_impact(Impact { coords: cell(1, 0), hit: false });
    board.record_impact(Impact { coords: cell(2, 0), hit: true });
    board.record_impact(Impact { coords: cell(3, 0), hit: false });
    board.record_impact(Impact { coords: cell(4, 0), hit: true });
    assert_eq!(board.hit_stats(), (3, 5));
}

#[test]
fn total_is_the_number_of_struck_cells() {
    let mut board = two_ship_board();
    let mut struck = Vec::new();
    for i in 0..30 {
        let p = cell(i % 10, i / 10);
        board.record_impact(Impact { coords: p, hit: i % 3 == 0 });
        struck.push(p);
        let (hits, total) = board.hit_stats();
        assert!(0 <= hits && hits <= total);
        assert_eq!(total as usize, struck.len());
        assert_eq!(hits, (i / 3) + 1);
    }
    for y in 0..10 {
        for x in 0..10 {
            assert_eq!(board.already_struck(cell(x, y)), struck.contains(&cell(x, y)));
        }
    }
}

#[test]
fn first_open_cell_goes_row_by_row() {
    let mut board = two_ship_board();
    assert_eq!(board.first_open_cell(), Some(cell(0, 0)));
    board.record_impact(Impact { coords: cell(0, 0), hit: false });
    board.record_impact(Impact { coords: cell(1, 0), hit: false });
    assert_eq!(board.first_open_cell(), Some(cell(2, 0)));
    for x in 2..10 {
        board.record_impact(Impact { coords: cell(x, 0), hit: false });
    }
    assert_eq!(board.first_open_cell(), Some(cell(0, 1)));
}

#[test]
fn fully_struck_board_has_no_open_cell() {
    let mut board = two_ship_board();
    for y in 0..10 {
        for x in 0..10 {
            assert!(board.first_open_cell().is_some());
            board.record_impact(Impact { coords: cell(x, y), hit: false });
        }
    }
    assert_eq!(board.first_open_cell(), None);
    assert_eq!(board.hit_stats(), (0, 100));
}

#[test]
fn strikes_off_the_board_do_not_fill_it() {
    let mut board = two_ship_board();
    board.record_impact(Impact { coords: cell(-1, 0), hit: false });
    board.record_impact(Impact { coords: cell(0, 10), hit: false });
    assert_eq!(board.first_open_cell(), Some(cell(0, 0)));
}

#[test]
fn placed_board_is_well_formed() {
    let mut board = two_ship_board();
    assert!(board.is_well_formed());
    board.register_strike(cell(2, 5));
    board.record_impact(Impact { coords: cell(9, 9), hit: false });
    assert!(board.is_well_formed());
}

#[test]
fn overlapping_ships_are_not_well_formed() {
    let ships = vec![
        Ship::new(ShipType::Destroyer, Position::Horizontal { start_x: 1, end_x: 2, y: 1 }),
        Ship::new(ShipType::Destroyer, Position::Vertical { start_y: 0, end_y: 1, x: 2 }),
    ];
    assert!(!Board::new(empty_grid(), ships).is_well_formed());
}

#[test]
fn ship_off_the_board_is_not_well_formed() {
    let ships = vec![Ship::new(ShipType::Destroyer, Position::Horizontal { start_x: 9, end_x: 10, y: 1 })];
    assert!(!Board::new(empty_grid(), ships).is_well_formed());
}

#[test]
fn ship_of_the_wrong_length_is_not_well_formed() {
    let ships = vec![Ship::new(ShipType::Cruiser, Position::Horizontal { start_x: 0, end_x: 1, y: 1 })];
    assert!(!Board::new(empty_grid(), ships).is_well_formed());
    let ships = vec![Ship {
        health: vec![true],
        pos: Position::Horizontal { start_x: 0, end_x: 1, y: 1 },
        ship_type: ShipType::Destroyer,
    }];
    assert!(!Board::new(empty_grid(), ships).is_well_formed());
}

#[test]
fn history_with_a_repeated_cell_is_not_well_formed() {
    let mut board = two_ship_board();
    board.record_impact(Impact { coords: cell(1, 1), hit: true });
    board.record_impact(Impact { coords: cell(2, 1), hit: true });
    assert!(board.is_well_formed());
    board.record_impact(Impact { coords: cell(1, 1), hit: false });
    assert!(!board.is_well_formed());
}

#[test]
fn history_off_the_board_is_not_well_formed() {
    let mut board = two_ship_board();
    board.record_impact(Impact { coords: cell(10, 1), hit: false });
    assert!(!board.is_well_formed());
}
