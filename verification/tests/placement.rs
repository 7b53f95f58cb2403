use battleship::board::Board;
use battleship::geometry::{Point, Position};
use battleship::helpers::{
    candidate_position, check_position_valid, first_valid_position, generate_random_position,
    mark_position,
};
use battleship::placement::{auto_place_ships, place_ship};
use battleship::ship::{Ship, ShipType};

fn blank() -> [[bool; 10]; 10] {
    [[false; 10]; 10]
}

fn taken_count(grid: &[[bool; 10]; 10]) -> usize {
    grid.iter().map(|row| row.iter().filter(|c| **c).count()).sum()
}

#[test]
fn run_on_free_cells_of_the_board_is_valid() {
    let grid = blank();
    assert!(check_position_valid(&Position::Horizontal { start_x: 0, end_x: 9, y: 0 }, &grid));
    assert!(check_position_valid(&Position::Vertical { start_y: 5, end_y: 9, x: 9 }, &grid));
    assert!(check_position_valid(&Position::Horizontal { start_x: 4, end_x: 4, y: 4 }, &grid));
}

#[test]
fn run_that_leaves_the_board_is_invalid() {
    let grid = blank();
    assert!(!check_position_valid(&Position::Horizontal { start_x: 6, end_x: 10, y: 0 }, &grid));
    assert!(!check_position_valid(&Position::Horizontal { start_x: -1, end_x: 3, y: 0 }, &grid));
    assert!(!check_position_valid(&Position::Horizontal { start_x: 0, end_x: 3, y: 10 }, &grid));
    assert!(!check_position_valid(&Position::Horizontal { start_x: 0, end_x: 3, y: -1 }, &grid));
    assert!(!check_position_valid(&Position::Vertical { start_y: 8, end_y: 10, x: 0 }, &grid));
    assert!(!check_position_valid(&Position::Vertical { start_y: -2, end_y: 0, x: 0 }, &grid));
    assert!(!check_position_valid(&Position::Vertical { start_y: 0, end_y: 1, x: 10 }, &grid));
    assert!(!check_position_valid(&Position::Vertical { start_y: 0, end_y: 1, x: -1 }, &grid));
}

#[test]
fn run_whose_start_exceeds_its_end_is_invalid() {
    let grid = blank();
    assert!(!check_position_valid(&Position::Horizontal { start_x: 5, end_x: 4, y: 0 }, &grid));
    assert!(!check_position_valid(&Position::Vertical { start_y: 9, end_y: 0, x: 0 }, &grid));
}

#[test]
fn run_over_a_taken_cell_is_invalid() {
    let mut grid = blank();
    grid[2][6] = true;
    assert!(!check_position_valid(&Position::Horizontal { start_x: 4, end_x: 6, y: 2 }, &grid));
    assert!(!check_position_valid(&Position::Horizontal { start_x: 6, end_x: 8, y: 2 }, &grid));
    assert!(!check_position_valid(&Position::Vertical { start_y: 0, end_y: 2, x: 6 }, &grid));
    assert!(check_position_valid(&Position::Horizontal { start_x: 3, end_x: 5, y: 2 }, &grid));
    assert!(check_position_valid(&Position::Horizontal { start_x: 7, end_x: 9, y: 2 }, &grid));
    assert!(check_position_valid(&Position::Vertical { start_y: 3, end_y: 5, x: 6 }, &grid));
    // Row and column are not mixed up.
    assert!(check_position_valid(&Position::Horizontal { start_x: 1, end_x: 3, y: 6 }, &grid));
}

#[test]
fn marking_takes_the_cells_of_the_run() {
    let mut grid = blank();
    mark_position(&mut grid, &Position::Horizontal { start_x: 1, end_x: 3, y: 8 });
    mark_position(&mut grid, &Position::Vertical { start_y: 0, end_y: 1, x: 9 });
    for y in 0..10 {
        for x in 0..10 {
            let want = (y == 8 && (1..=3).contains(&x)) || (x == 9 && y <= 1);
            assert_eq!(grid[y][x], want);
        }
    }
}

#[test]
fn candidate_runs_from_its_start() {
    assert_eq!(candidate_position(false, 2, 7, 3), Position::Horizontal { start_x: 2, end_x: 4, y: 7 });
    assert_eq!(candidate_position(true, 0, 9, 5), Position::Vertical { start_y: 0, end_y: 4, x: 9 });
    assert_eq!(candidate_position(true, 9, 0, 1), Position::Vertical { start_y: 9, end_y: 9, x: 0 });
}

#[test]
fn first_room_on_an_empty_board_is_the_top_left() {
    let grid = blank();
    for len in 1..=10 {
        assert_eq!(
            first_valid_position(len, &grid),
            Some(Position::Horizontal { start_x: 0, end_x: len - 1, y: 0 })
        );
    }
    assert_eq!(first_valid_position(11, &grid), None);
}

#[test]
fn first_room_skips_taken_cells() {
    let mut grid = blank();
    grid[0][1] = true;
    assert_eq!(first_valid_position(1, &grid), Some(Position::Horizontal { start_x: 0, end_x: 0, y: 0 }));
    assert_eq!(first_valid_position(2, &grid), Some(Position::Horizontal { start_x: 2, end_x: 3, y: 0 }));
    assert_eq!(first_valid_position(9, &grid), Some(Position::Horizontal { start_x: 0, end_x: 8, y: 1 }));
}

#[test]
fn columns_are_tried_after_all_rows() {
    // Every row is blocked in the middle; only columns have room for five.
    let mut grid = blank();
    for y in 0..10 {
        grid[y][4] = true;
        grid[y][5] = true;
    }
    assert_eq!(first_valid_position(5, &grid), Some(Position::Vertical { start_y: 0, end_y: 4, x: 0 }));
    assert_eq!(first_valid_position(4, &grid), Some(Position::Horizontal { start_x: 0, end_x: 3, y: 0 }));
}

#[test]
fn full_board_has_no_room() {
    let grid = [[true; 10]; 10];
    for len in 1..=10 {
        assert_eq!(first_valid_position(len, &grid), None);
    }
}

#[test]
fn random_position_is_valid_and_marked() {
    for len in 1..=10 {
        for _ in 0..50 {
            let mut grid = blank();
            grid[3][3] = true;
            grid[7][1] = true;
            let before = grid;
            let pos = generate_random_position(len, &mut grid);
            assert_eq!(pos.length(), len as u64);
            assert!(check_position_valid(&pos, &before));
            let mut want = before;
            mark_position(&mut want, &pos);
            assert_eq!(grid, want);
            assert_eq!(taken_count(&grid), 2 + len as usize);
        }
    }
}

#[test]
fn random_position_takes_the_only_room_there_is() {
    // One free run of three in the whole board.
    let mut grid = [[true; 10]; 10];
    grid[6][2] = false;
    grid[7][2] = false;
    grid[8][2] = false;
    let pos = generate_random_position(3, &mut grid);
    assert_eq!(pos, Position::Vertical { start_y: 6, end_y: 8, x: 2 });
    assert_eq!(grid, [[true; 10]; 10]);
}

#[test]
fn random_positions_vary() {
    let mut horizontal = 0;
    let mut vertical = 0;
    let mut starts = Vec::new();
    let mut lines = Vec::new();
    for _ in 0..400 {
        let mut grid = blank();
        match generate_random_position(3, &mut grid) {
            Position::Horizontal { start_x, end_x, y } => {
                horizontal += 1;
                assert_eq!(end_x, start_x + 2);
                starts.push(start_x);
                lines.push(y);
            }
            Position::Vertical { start_y, end_y, x } => {
                vertical += 1;
                assert_eq!(end_y, start_y + 2);
                starts.push(start_y);
                lines.push(x);
            }
        }
    }
    assert!(horizontal > 0 && vertical > 0);
    assert!(starts.iter().all(|s| (0..=7).contains(s)));
    assert!(lines.iter().all(|l| (0..=9).contains(l)));
    starts.sort();
    starts.dedup();
    lines.sort();
    lines.dedup();
    assert!(starts.len() > 1);
    assert!(lines.len() > 1);
}

#[test]
fn ship_is_placed_on_free_cells() {
    let mut grid = blank();
    let mut ships = Vec::new();
    let pos = Position::Horizontal { start_x: 2, end_x: 4, y: 4 };
    assert!(place_ship(ShipType::Cruiser, pos, &mut grid, &mut ships));
    assert_eq!(ships, vec![Ship::new(ShipType::Cruiser, pos)]);
    assert_eq!(taken_count(&grid), 3);
    assert!(grid[4][2] && grid[4][3] && grid[4][4]);
}

#[test]
fn ship_is_not_placed_across_another() {
    let mut grid = blank();
    let mut ships = Vec::new();
    assert!(place_ship(ShipType::Cruiser, Position::Horizontal { start_x: 2, end_x: 4, y: 4 }, &mut grid, &mut ships));
    let grid_before = grid;
    let ships_before = ships.clone();
    assert!(!place_ship(ShipType::Destroyer, Position::Vertical { start_y: 3, end_y: 4, x: 3 }, &mut grid, &mut ships));
    assert_eq!(grid, grid_before);
    assert_eq!(ships, ships_before);
}

#[test]
fn ship_is_not_placed_off_the_board() {
    let mut grid = blank();
    let mut ships = Vec::new();
    assert!(!place_ship(ShipType::Destroyer, Position::Horizontal { start_x: 9, end_x: 10, y: 0 }, &mut grid, &mut ships));
    assert_eq!(grid, blank());
    assert!(ships.is_empty());
}

#[test]
fn ship_is_not_placed_on_a_run_of_another_length() {
    let mut grid = blank();
    let mut ships = Vec::new();
    assert!(!place_ship(ShipType::Carrier, Position::Horizontal { start_x: 0, end_x: 3, y: 0 }, &mut grid, &mut ships));
    assert!(!place_ship(ShipType::Submarine, Position::Horizontal { start_x: 0, end_x: 1, y: 0 }, &mut grid, &mut ships));
    assert!(!place_ship(ShipType::Submarine, Position::Horizontal { start_x: 1, end_x: 0, y: 0 }, &mut grid, &mut ships));
    assert_eq!(grid, blank());
    assert!(ships.is_empty());
}

#[test]
fn automatic_placement_gives_a_whole_fleet() {
    for _ in 0..200 {
        let mut ships = Vec::new();
        let grid = auto_place_ships(&mut ships);
        assert_eq!(ships.len(), 5);
        let kinds: Vec<ShipType> = ships.iter().map(|s| s.ship_type).collect();
        assert_eq!(kinds, ShipType::all());
        let mut covered = Vec::new();
        for ship in &ships {
            let cells = ship.pos.coordinates();
            assert_eq!(cells.len(), ship.ship_type.length() as usize);
            assert_eq!(ship.health, vec![true; cells.len()]);
            assert!(ship.pos.is_in_bounds());
            for c in cells {
                assert!(!covered.contains(&c));
                covered.push(c);
            }
        }
        assert_eq!(covered.len(), 15);
        for y in 0..10 {
            for x in 0..10 {
                assert_eq!(grid[y][x], covered.contains(&Point { x: x as i32, y: y as i32 }));
            }
        }
        assert!(Board::new(grid, ships).is_well_formed());
    }
}

#[test]
fn automatic_placement_adds_to_the_list() {
    let mut ships = vec![Ship::new(ShipType::Submarine, Position::Horizontal { start_x: 0, end_x: 0, y: 0 })];
    let first = ships[0].clone();
    auto_place_ships(&mut ships);
    assert_eq!(ships.len(), 6);
    assert_eq!(ships[0], first);
    assert_eq!(ships[1].ship_type, ShipType::Submarine);
    assert_eq!(ships[5].ship_type, ShipType::Carrier);
}
