use battleship::board::{Board, Impact};
use battleship::geometry::{Point, Position};
use battleship::helpers::generate_random_position_from;
use battleship::placement::auto_place_ships_from;
use battleship::player::RandomSelect;
use battleship::rng::{RandomSource, ThreadSource, DRAW_LIMIT};
use battleship::ship::ShipType;

/// A source with known draws: the numbers and the coins are handed out in
/// turn, and from the start again when they run out.
struct Script {
    numbers: Vec<i32>,
    coins: Vec<bool>,
    numbers_drawn: usize,
    coins_drawn: usize,
    bounds: Vec<i32>,
}

impl Script {
    fn new(numbers: Vec<i32>, coins: Vec<bool>) -> Script {
        Script { numbers, coins, numbers_drawn: 0, coins_drawn: 0, bounds: Vec::new() }
    }
}

impl RandomSource for Script {
    fn below(&mut self, bound: i32) -> i32 {
        let n = self.numbers[self.numbers_drawn % self.numbers.len()];
        self.numbers_drawn += 1;
        if self.bounds.len() < 16 {
            self.bounds.push(bound);
        }
        assert!(0 <= n && n < bound);
        n
    }

    fn coin(&mut self) -> bool {
        let c = self.coins[self.coins_drawn % self.coins.len()];
        self.coins_drawn += 1;
        c
    }
}

fn board_with_strikes(cells: &[(i32, i32)]) -> Board {
    let mut board = Board::new([[false; 10]; 10], Vec::new());
    for (x, y) in cells {
        board.record_impact(Impact { coords: Point { x: *x, y: *y }, hit: false });
    }
    board
}

#[test]
fn draw_limit_is_ten_thousand() {
    assert_eq!(DRAW_LIMIT, 10_000);
}

#[test]
fn thread_source_stays_below_the_bound() {
    let mut source = ThreadSource::new();
    let mut seen = [false; 10];
    for _ in 0..1000 {
        let n = source.below(10);
        assert!((0..10).contains(&n));
        seen[n as usize] = true;
        assert_eq!(source.below(1), 0);
    }
    assert!(seen.iter().filter(|s| **s).count() > 1);
}

#[test]
fn thread_source_gives_both_sides_of_the_coin() {
    let mut source = ThreadSource::new();
    let heads = (0..1000).filter(|_| source.coin()).count();
    assert!(0 < heads && heads < 1000);
}

#[test]
fn first_draw_is_taken_when_the_cell_is_open() {
    let board = board_with_strikes(&[(0, 0)]);
    let mut source = Script::new(vec![6, 2], vec![]);
    assert_eq!(RandomSelect::target_from(&mut source, &board), Point { x: 6, y: 2 });
    assert_eq!(source.numbers_drawn, 2);
    assert_eq!(source.bounds, vec![10, 10]);
}

#[test]
fn struck_cell_is_drawn_again() {
    let board = board_with_strikes(&[(3, 3), (4, 4)]);
    let mut source = Script::new(vec![3, 3, 4, 4, 3, 3, 4, 3, 9, 9], vec![]);
    assert_eq!(RandomSelect::target_from(&mut source, &board), Point { x: 4, y: 3 });
    assert_eq!(source.numbers_drawn, 8);
}

#[test]
fn first_open_cell_is_taken_when_the_draws_run_out() {
    let board = board_with_strikes(&[(0, 0), (1, 0), (5, 5)]);
    let mut source = Script::new(vec![5, 5], vec![]);
    assert_eq!(RandomSelect::target_from(&mut source, &board), Point { x: 2, y: 0 });
    assert_eq!(source.numbers_drawn, 2 * DRAW_LIMIT as usize);
}

#[test]
fn drawn_run_is_taken_when_it_is_free() {
    let mut grid = [[false; 10]; 10];
    let mut source = Script::new(vec![2, 5], vec![true]);
    let pos = generate_random_position_from(&mut source, 3, &mut grid);
    assert_eq!(pos, Position::Vertical { start_y: 2, end_y: 4, x: 5 });
    assert_eq!(source.bounds, vec![8, 10]);
    assert_eq!(source.coins_drawn, 1);
    let mut source = Script::new(vec![0, 9], vec![false]);
    let pos = generate_random_position_from(&mut source, 5, &mut grid);
    assert_eq!(pos, Position::Horizontal { start_x: 0, end_x: 4, y: 9 });
    assert_eq!(source.bounds, vec![6, 10]);
    for y in 0..10 {
        for x in 0..10 {
            assert_eq!(grid[y][x], (x == 5 && (2..=4).contains(&y)) || (y == 9 && x <= 4));
        }
    }
}

#[test]
fn blocked_run_is_drawn_again() {
    let mut grid = [[false; 10]; 10];
    grid[4][5] = true;
    // First a column across the taken cell, then a row through it, then a free row.
    let mut source = Script::new(vec![2, 5, 4, 4, 6, 4], vec![true, false, false]);
    let pos = generate_random_position_from(&mut source, 3, &mut grid);
    assert_eq!(pos, Position::Horizontal { start_x: 6, end_x: 8, y: 4 });
    assert_eq!(source.numbers_drawn, 6);
    assert_eq!(source.coins_drawn, 3);
}

#[test]
fn first_free_run_is_taken_when_the_draws_run_out() {
    let mut grid = [[false; 10]; 10];
    grid[0][0] = true;
    grid[0][3] = true;
    let mut source = Script::new(vec![0, 0], vec![false]);
    let pos = generate_random_position_from(&mut source, 2, &mut grid);
    assert_eq!(pos, Position::Horizontal { start_x: 1, end_x: 2, y: 0 });
    assert_eq!(source.coins_drawn, DRAW_LIMIT as usize);
    assert!(grid[0][1] && grid[0][2]);
}

#[test]
fn fleet_is_placed_by_the_draws() {
    // Each ship on its own row, from the left edge.
    let mut source = Script::new(vec![0, 0, 0, 1, 0, 2, 0, 3, 0, 4], vec![false]);
    let mut ships = Vec::new();
    let grid = auto_place_ships_from(&mut source, &mut ships);
    assert_eq!(ships.len(), 5);
    for (row, kind) in ShipType::all().into_iter().enumerate() {
        assert_eq!(ships[row].ship_type, kind);
        assert_eq!(
            ships[row].pos,
            Position::Horizontal { start_x: 0, end_x: kind.length() - 1, y: row as i32 }
        );
        assert_eq!(ships[row].health, vec![true; kind.length() as usize]);
    }
    for y in 0..10 {
        for x in 0..10 {
            assert_eq!(grid[y][x], y < 5 && x <= y);
        }
    }
}

#[test]
fn fleet_is_placed_even_by_a_source_that_repeats_itself() {
    // Every draw asks for the same corner; all ships but the first find their place in order.
    let mut source = Script::new(vec![0, 0], vec![false]);
    let mut ships = Vec::new();
    let grid = auto_place_ships_from(&mut source, &mut ships);
    let places: Vec<Position> = ships.iter().map(|s| s.pos).collect();
    assert_eq!(
        places,
        vec![
            Position::Horizontal { start_x: 0, end_x: 0, y: 0 },
            Position::Horizontal { start_x: 1, end_x: 2, y: 0 },
            Position::Horizontal { start_x: 3, end_x: 5, y: 0 },
            Position::Horizontal { start_x: 6, end_x: 9, y: 0 },
            Position::Horizontal { start_x: 0, end_x: 4, y: 1 },
        ]
    );
    assert!(Board::new(grid, ships).is_well_formed());
}
