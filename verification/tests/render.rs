use battleship::board::{Board, Impact};
use battleship::geometry::{Point, Position};
use battleship::render::letter_of;
use battleship::ship::{Ship, ShipType};

fn at(x: i32, y: i32) -> Point {
    Point { x, y }
}

fn sample_board() -> Board {
    let ships = vec![
        Ship::new(ShipType::Submarine, Position::Horizontal { start_x: 0, end_x: 0, y: 0 }),
        Ship::new(ShipType::Destroyer, Position::Vertical { start_y: 1, end_y: 2, x: 9 }),
        Ship::new(ShipType::Cruiser, Position::Horizontal { start_x: 2, end_x: 4, y: 4 }),
        Ship::new(ShipType::Battleship, Position::Vertical { start_y: 6, end_y: 9, x: 0 }),
        Ship::new(ShipType::Carrier, Position::Horizontal { start_x: 5, end_x: 9, y: 9 }),
    ];
    let mut board = Board::new([[false; 10]; 10], ships);
    board.register_strike(at(3, 4));
    board.register_strike(at(0, 9));
    board.record_impact(Impact { coords: at(1, 0), hit: true });
    board.record_impact(Impact { coords: at(2, 0), hit: false });
    board.record_impact(Impact { coords: at(9, 9), hit: true });
    board
}

#[test]
fn kinds_have_their_letters() {
    assert_eq!(letter_of(ShipType::Submarine), 's');
    assert_eq!(letter_of(ShipType::Destroyer), 'd');
    assert_eq!(letter_of(ShipType::Cruiser), 'c');
    assert_eq!(letter_of(ShipType::Battleship), 'B');
    assert_eq!(letter_of(ShipType::Carrier), 'C');
}

#[test]
fn panel_of_strikes_shows_hits_only() {
    let panel = sample_board().impact_grid();
    for y in 0..10 {
        for x in 0..10 {
            let want = if (x, y) == (1, 0) || (x, y) == (9, 9) { 'X' } else { '.' };
            assert_eq!(panel[y][x], want);
        }
    }
}

#[test]
fn later_record_at_a_cell_decides_its_mark() {
    let mut board = Board::new([[false; 10]; 10], Vec::new());
    board.record_impact(Impact { coords: at(4, 2), hit: true });
    assert_eq!(board.impact_grid()[2][4], 'X');
    board.record_impact(Impact { coords: at(4, 2), hit: false });
    assert_eq!(board.impact_grid()[2][4], '.');
}

#[test]
fn panel_of_ships_shows_letters_and_wrecks() {
    let panel = sample_board().ship_grid();
    let rows: Vec<String> = panel.iter().map(|r| r.iter().collect()).collect();
    assert_eq!(
        rows,
        vec![
            "s.........",
            ".........d",
            ".........d",
            "..........",
            "..c\u{2020}c.....",
            "..........",
            "B.........",
            "B.........",
            "B.........",
            "\u{2020}....CCCCC",
        ]
    );
}

#[test]
fn later_ship_covers_an_earlier_one_in_the_panel() {
    let ships = vec![
        Ship::new(ShipType::Destroyer, Position::Horizontal { start_x: 1, end_x: 2, y: 1 }),
        Ship::new(ShipType::Submarine, Position::Horizontal { start_x: 2, end_x: 2, y: 1 }),
    ];
    let board = Board::new([[false; 10]; 10], ships);
    let panel = board.ship_grid();
    assert_eq!(panel[1][1], 'd');
    assert_eq!(panel[1][2], 's');
}

#[test]
fn empty_board_as_text() {
    let board = Board::new([[false; 10]; 10], Vec::new());
    let mut want = String::new();
    want.push_str("Impacts\n");
    want.push_str("  0 1 2 3 4 5 6 7 8 9\n");
    for y in 0..10 {
        want.push_str(&format!("{} . . . . . . . . . . \n", y));
    }
    want.push_str("---------------------\n");
    want.push_str("Your ships\n");
    want.push_str("  0 1 2 3 4 5 6 7 8 9\n");
    for y in 0..10 {
        want.push_str(&format!("{} . . . . . . . . . . \n", y));
    }
    assert_eq!(board.draw_board(), want);
}

#[test]
fn board_in_play_as_text() {
    let want = "Impacts\n\
\x20 0 1 2 3 4 5 6 7 8 9\n\
0 . X . . . . . . . . \n\
1 . . . . . . . . . . \n\
2 . . . . . . . . . . \n\
3 . . . . . . . . . . \n\
4 . . . . . . . . . . \n\
5 . . . . . . . . . . \n\
6 . . . . . . . . . . \n\
7 . . . . . . . . . . \n\
8 . . . . . . . . . . \n\
9 . . . . . . . . . X \n\
---------------------\n\
Your ships\n\
\x20 0 1 2 3 4 5 6 7 8 9\n\
0 s . . . . . . . . . \n\
1 . . . . . . . . . d \n\
2 . . . . . . . . . d \n\
3 . . . . . . . . . . \n\
4 . . c \u{2020} c . . . . . \n\
5 . . . . . . . . . . \n\
6 B . . . . . . . . . \n\
7 B . . . . . . . . . \n\
8 B . . . . . . . . . \n\
9 \u{2020} . . . . C C C C C \n";
    assert_eq!(sample_board().draw_board(), want);
}
