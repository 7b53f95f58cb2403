use vstd::prelude::*;

use crate::board::grid_view;
use crate::enums::{direction_of, Direction, BOARD_SIZE};
use crate::geometry::{Point, Position};
use crate::rng::{RandomSource, ThreadSource, DRAW_LIMIT};
use crate::text::{
    chars_of, count_of, first_index_of, index_value, lowercased, parse_index, to_lowercase, trim,
    trim_bounds, trimmed,
};

verus! {

/// The grid holds a ship on cell `p`.
pub open spec fn taken(grid: Seq<Seq<bool>>, p: Point) -> bool {
    grid[p.y as int][p.x as int]
}

/// A ship may be put at `pos`: the run lies on the board, it is not empty,
/// and none of its cells is taken.
pub open spec fn position_valid(pos: Position, grid: Seq<Seq<bool>>) -> bool {
    &&& pos.in_bounds()
    &&& pos.start() <= pos.end()
    &&& forall|i: int| 0 <= i < pos.len() ==> !taken(grid, #[trigger] pos.cell(i))
}

/// The grid after a ship has been put at `pos`.
pub open spec fn marked(grid: Seq<Seq<bool>>, pos: Position) -> Seq<Seq<bool>> {
    Seq::new(
        BOARD_SIZE as nat,
        |y: int|
            Seq::new(
                BOARD_SIZE as nat,
                |x: int| grid[y][x] || pos.covers(Point { x: x as i32, y: y as i32 }),
            ),
    )
}

/// The run of `len` cells that starts at `start` on row or column `line`.
pub open spec fn run_at(vertical: bool, start: int, line: int, len: int) -> Position {
    if vertical {
        Position::Vertical { start_y: start as i32, end_y: (start + len - 1) as i32, x: line as i32 }
    } else {
        Position::Horizontal {
            start_x: start as i32,
            end_x: (start + len - 1) as i32,
            y: line as i32,
        }
    }
}

/// The grid has room for a ship of `len` cells.
pub open spec fn has_room(len: int, grid: Seq<Seq<bool>>) -> bool {
    exists|pos: Position| pos.len() == len && #[trigger] position_valid(pos, grid)
}

/// Decides whether a ship may be put at `pos` on a board with the cells of
/// `occupied` taken. The answer is no where the run leaves the board, where
/// its start exceeds its end, and where one of its cells is taken.
pub fn check_position_valid(pos: &Position, occupied: &[[bool; BOARD_SIZE]; BOARD_SIZE]) -> (valid:
    bool)
    ensures
        valid == position_valid(*pos, grid_view(*occupied)),
{
    let ghost grid = grid_view(*occupied);
    match pos {
        Position::Horizontal { start_x, end_x, y } => {
            if *y < 0 || *y >= BOARD_SIZE as i32 || *start_x < 0 || *end_x >= BOARD_SIZE as i32
                || *start_x > *end_x {
                return false;
            }
            let mut x: i32 = *start_x;
            while x <= *end_x
                invariant
                    0 <= *start_x <= x <= *end_x + 1 <= BOARD_SIZE,
                    0 <= *y < BOARD_SIZE,
                    *pos == (Position::Horizontal { start_x: *start_x, end_x: *end_x, y: *y }),
                    grid == grid_view(*occupied),
                    forall|i: int| 0 <= i < x - *start_x ==> !taken(grid, #[trigger] pos.cell(i)),
                decreases *end_x + 1 - x,
            {
                if occupied[*y as usize][x as usize] {
                    assert(taken(grid, pos.cell(x - *start_x)));
                    return false;
                }
                x = x + 1;
            }
        },
        Position::Vertical { start_y, end_y, x } => {
            if *x < 0 || *x >= BOARD_SIZE as i32 || *start_y < 0 || *end_y >= BOARD_SIZE as i32
                || *start_y > *end_y {
                return false;
            }
            let mut y: i32 = *start_y;
            while y <= *end_y
                invariant
                    0 <= *start_y <= y <= *end_y + 1 <= BOARD_SIZE,
                    0 <= *x < BOARD_SIZE,
                    *pos == (Position::Vertical { start_y: *start_y, end_y: *end_y, x: *x }),
                    grid == grid_view(*occupied),
                    forall|i: int| 0 <= i < y - *start_y ==> !taken(grid, #[trigger] pos.cell(i)),
                decreases *end_y + 1 - y,
            {
                if occupied[y as usize][*x as usize] {
                    assert(taken(grid, pos.cell(y - *start_y)));
                    return false;
                }
                y = y + 1;
            }
        },
    }
    true
}

/// Takes the cells of `pos` on the grid.
pub fn mark_position(occupied: &mut [[bool; BOARD_SIZE]; BOARD_SIZE], pos: &Position)
    requires
        pos.in_bounds(),
    ensures
        grid_view(*final(occupied)) == marked(grid_view(*old(occupied)), *pos),
{
    let ghost before = grid_view(*occupied);
    match pos {
        Position::Horizontal { start_x, end_x, y } => {
            let mut x: i32 = *start_x;
            while x <= *end_x
                invariant
                    0 <= *start_x <= x,
                    x <= *end_x + 1 || x == *start_x,
                    *end_x < BOARD_SIZE,
                    0 <= *y < BOARD_SIZE,
                    *pos == (Position::Horizontal { start_x: *start_x, end_x: *end_x, y: *y }),
                    forall|cx: int, cy: int|
                        0 <= cx < BOARD_SIZE && 0 <= cy < BOARD_SIZE ==> #[trigger] occupied@[cy]@[cx]
                            == (before[cy][cx] || (cy == *y && *start_x <= cx < x)),
                decreases *end_x + 1 - x,
            {
                occupied[*y as usize][x as usize] = true;
                x = x + 1;
            }
            assert(grid_view(*occupied) =~~= marked(before, *pos));
        },
        Position::Vertical { start_y, end_y, x } => {
            let mut y: i32 = *start_y;
            while y <= *end_y
                invariant
                    0 <= *start_y <= y,
                    y <= *end_y + 1 || y == *start_y,
                    *end_y < BOARD_SIZE,
                    0 <= *x < BOARD_SIZE,
                    *pos == (Position::Vertical { start_y: *start_y, end_y: *end_y, x: *x }),
                    forall|cx: int, cy: int|
                        0 <= cx < BOARD_SIZE && 0 <= cy < BOARD_SIZE ==> #[trigger] occupied@[cy]@[cx]
                            == (before[cy][cx] || (cx == *x && *start_y <= cy < y)),
                decreases *end_y + 1 - y,
            {
                occupied[y as usize][*x as usize] = true;
                y = y + 1;
            }
            assert(grid_view(*occupied) =~~= marked(before, *pos));
        },
    }
}

/// The run of `ship_length` cells that starts at `start` on row or column
/// `line`.
pub fn candidate_position(vertical: bool, start: i32, line: i32, ship_length: i32) -> (pos:
    Position)
    requires
        0 <= start,
        1 <= ship_length,
        start + ship_length - 1 <= i32::MAX,
    ensures
        pos == run_at(vertical, start as int, line as int, ship_length as int),
        pos.len() == ship_length,
{
    if vertical {
        Position::Vertical { start_y: start, end_y: start + (ship_length - 1), x: line }
    } else {
        Position::Horizontal { start_x: start, end_x: start + (ship_length - 1), y: line }
    }
}

/// Every run that may be put on a board is `run_at` for a start and a line
/// on the board.
pub proof fn lemma_valid_runs(pos: Position, grid: Seq<Seq<bool>>)
    requires
        position_valid(pos, grid),
    ensures
        1 <= pos.len() <= BOARD_SIZE,
        0 <= pos.line() < BOARD_SIZE,
        0 <= pos.start() <= BOARD_SIZE - pos.len(),
        pos == run_at(pos is Vertical, pos.start(), pos.line(), pos.len() as int),
{
}

/// The order in which free runs are looked for: rows before columns, among
/// rows or columns the lower line first, and on one line the lower start.
pub open spec fn comes_before(a: Position, b: Position) -> bool {
    if (a is Vertical) != (b is Vertical) {
        b is Vertical
    } else {
        a.line() < b.line() || (a.line() == b.line() && a.start() < b.start())
    }
}

/// No run of `len` cells that comes before `pos` may be taken.
pub open spec fn no_room_before(pos: Position, len: int, grid: Seq<Seq<bool>>) -> bool {
    forall|other: Position|
        other.len() == len && #[trigger] position_valid(other, grid) ==> !comes_before(other, pos)
}

/// Looks for room for a ship of `ship_length` cells: row by row from the
/// top, in each row from the left, and then column by column in the same
/// way. The first run that may be taken is returned.
pub fn first_valid_position(ship_length: i32, occupied: &[[bool; BOARD_SIZE]; BOARD_SIZE]) -> (found:
    Option<Position>)
    requires
        1 <= ship_length,
    ensures
        found matches Some(pos) ==> pos.len() == ship_length && position_valid(
            pos,
            grid_view(*occupied),
        ) && no_room_before(pos, ship_length as int, grid_view(*occupied)),
        found is None <==> !has_room(ship_length as int, grid_view(*occupied)),
{
    let ghost grid = grid_view(*occupied);
    let ghost len = ship_length as int;
    if ship_length > BOARD_SIZE as i32 {
        assert forall|pos: Position| pos.len() == len implies !#[trigger] position_valid(
            pos,
            grid,
        ) by {
            if position_valid(pos, grid) {
                lemma_valid_runs(pos, grid);
            }
        }
        return None;
    }
    let starts: i32 = BOARD_SIZE as i32 - ship_length + 1;
    let mut turn: usize = 0;
    while turn < 2
        invariant
            0 <= turn <= 2,
            1 <= ship_length <= BOARD_SIZE,
            len == ship_length,
            starts == BOARD_SIZE - ship_length + 1,
            grid == grid_view(*occupied),
            turn < 2 ==> no_room_before(run_at(turn == 1, 0, 0, len), len, grid),
            turn == 2 ==> !has_room(len, grid),
        decreases 2 - turn,
    {
        let vertical = turn == 1;
        let mut line: i32 = 0;
        while line < BOARD_SIZE as i32
            invariant
                0 <= line <= BOARD_SIZE,
                0 <= turn < 2,
                vertical == (turn == 1),
                1 <= ship_length <= BOARD_SIZE,
                len == ship_length,
                starts == BOARD_SIZE - ship_length + 1,
                grid == grid_view(*occupied),
                no_room_before(run_at(vertical, 0, line as int, len), len, grid),
            decreases BOARD_SIZE - line,
        {
            let mut start: i32 = 0;
            while start < starts
                invariant
                    0 <= start <= starts,
                    0 <= line < BOARD_SIZE,
                    1 <= ship_length <= BOARD_SIZE,
                    len == ship_length,
                    starts == BOARD_SIZE - ship_length + 1,
                    grid == grid_view(*occupied),
                    no_room_before(run_at(vertical, start as int, line as int, len), len, grid),
                decreases starts - start,
            {
                let pos = candidate_position(vertical, start, line, ship_length);
                if check_position_valid(&pos, occupied) {
                    return Some(pos);
                }
                proof {
                    let next = run_at(vertical, start + 1, line as int, len);
                    assert forall|other: Position|
                        other.len() == len && #[trigger] position_valid(
                            other,
                            grid,
                        ) implies !comes_before(other, next) by {
                        lemma_valid_runs(other, grid);
                        assert(!comes_before(other, pos));
                    }
                }
                start = start + 1;
            }
            proof {
                let here = run_at(vertical, starts as int, line as int, len);
                let next = run_at(vertical, 0, line + 1, len);
                assert forall|other: Position|
                    other.len() == len && #[trigger] position_valid(other, grid) implies !comes_before(
                    other,
                    next,
                ) by {
                    lemma_valid_runs(other, grid);
                    assert(!comes_before(other, here));
                }
            }
            line = line + 1;
        }
        proof {
            let here = run_at(vertical, 0, BOARD_SIZE as int, len);
            if turn == 0 {
                let next = run_at(true, 0, 0, len);
                assert forall|other: Position|
                    other.len() == len && #[trigger] position_valid(other, grid) implies !comes_before(
                    other,
                    next,
                ) by {
                    lemma_valid_runs(other, grid);
                    assert(!comes_before(other, here));
                }
            } else {
                assert forall|other: Position| other.len() == len implies !#[trigger] position_valid(
                    other,
                    grid,
                ) by {
                    if position_valid(other, grid) {
                        lemma_valid_runs(other, grid);
                        assert(!comes_before(other, here));
                    }
                }
            }
        }
        turn = turn + 1;
    }
    None
}

/// Picks a place for a ship of `ship_length` cells among the runs that may
/// still be taken, by the draws of `source`, and takes its cells on the
/// grid.
///
/// A run is drawn with its direction, its start and its line, and drawn
/// again as long as it may not be taken. After `DRAW_LIMIT` draws in vain
/// the first free run in the order of `first_valid_position` is taken.
pub fn generate_random_position_from<S: RandomSource>(
    source: &mut S,
    ship_length: i32,
    occupied: &mut [[bool; BOARD_SIZE]; BOARD_SIZE],
) -> (pos: Position)
    requires
        1 <= ship_length <= BOARD_SIZE,
        has_room(ship_length as int, grid_view(*old(occupied))),
    ensures
        pos.len() == ship_length,
        position_valid(pos, grid_view(*old(occupied))),
        grid_view(*final(occupied)) == marked(grid_view(*old(occupied)), pos),
{
    let mut draws: u32 = 0;
    while draws < DRAW_LIMIT
        invariant
            0 <= draws <= DRAW_LIMIT,
            1 <= ship_length <= BOARD_SIZE,
            *occupied == *old(occupied),
        decreases DRAW_LIMIT - draws,
    {
        let vertical = source.coin();
        let start = source.below(BOARD_SIZE as i32 - ship_length + 1);
        let line = source.below(BOARD_SIZE as i32);
        let pos = candidate_position(vertical, start, line, ship_length);
        if check_position_valid(&pos, occupied) {
            mark_position(occupied, &pos);
            return pos;
        }
        draws = draws + 1;
    }
    let found = first_valid_position(ship_length, occupied);
    let pos = found.unwrap();
    mark_position(occupied, &pos);
    pos
}

/// Picks at random a place for a ship of `ship_length` cells among the runs
/// that may still be taken, and takes its cells on the grid. The draws are
/// those of the calling thread's generator: see
/// `generate_random_position_from`.
pub fn generate_random_position(
    ship_length: i32,
    occupied: &mut [[bool; BOARD_SIZE]; BOARD_SIZE],
) -> (pos: Position)
    requires
        1 <= ship_length <= BOARD_SIZE,
        has_room(ship_length as int, grid_view(*old(occupied))),
    ensures
        pos.len() == ship_length,
        position_valid(pos, grid_view(*old(occupied))),
        grid_view(*final(occupied)) == marked(grid_view(*old(occupied)), pos),
{
    let mut source = ThreadSource::new();
    generate_random_position_from(&mut source, ship_length, occupied)
}

/// Why a line of input names no cell of the board.
#[derive(Debug, Clone, Copy, PartialEq, Eq, Structural)]
pub enum CoordinateError {
    /// The line is not two fields with one comma between them.
    Format,
    /// The first field is no column number of the board.
    XCoordinate,
    /// The second field is no row number of the board.
    YCoordinate,
}

/// Why an answer gives no orientation for a ship.
#[derive(Debug, Clone, Copy, PartialEq, Eq, Structural)]
pub enum OrientationError {
    /// The answer is none of the four letters.
    Unrecognized,
    /// The ship would leave the board in that direction.
    NotAllowed,
}

/// The cell that a line of input names: a column and a row, each a number
/// of the board written in decimal, with one comma between them. White
/// space is ignored around the line and nowhere else.
pub open spec fn coordinates_of(line: Seq<char>) -> Result<Point, CoordinateError> {
    let text = trimmed(line);
    let comma = first_index_of(text, ',', 0);
    if count_of(text, ',') != 1 {
        Err(CoordinateError::Format)
    } else {
        match index_value(text.take(comma), BOARD_SIZE as int) {
            None => Err(CoordinateError::XCoordinate),
            Some(x) => match index_value(text.skip(comma + 1), BOARD_SIZE as int) {
                None => Err(CoordinateError::YCoordinate),
                Some(y) => Ok(Point { x, y }),
            },
        }
    }
}

/// A ship of `ship_length` cells that starts at `start` and runs in
/// `direction` stays on the board in that direction.
pub open spec fn direction_allowed(start: Point, ship_length: int, direction: Direction) -> bool {
    match direction {
        Direction::Down => start.y + (ship_length - 1) < BOARD_SIZE,
        Direction::Up => start.y - (ship_length - 1) >= 0,
        Direction::Left => start.x - (ship_length - 1) >= 0,
        Direction::Right => start.x + (ship_length - 1) < BOARD_SIZE,
    }
}

/// The run of `ship_length` cells from `start` in `direction`. The run is
/// written with its smaller end first, so towards `Up` and `Left` it ends
/// at `start`.
pub open spec fn run_towards(start: Point, direction: Direction, ship_length: int) -> Position {
    match direction {
        Direction::Down => Position::Vertical {
            start_y: start.y,
            end_y: (start.y + (ship_length - 1)) as i32,
            x: start.x,
        },
        Direction::Up => Position::Vertical {
            start_y: (start.y - (ship_length - 1)) as i32,
            end_y: start.y,
            x: start.x,
        },
        Direction::Left => Position::Horizontal {
            start_x: (start.x - (ship_length - 1)) as i32,
            end_x: start.x,
            y: start.y,
        },
        Direction::Right => Position::Horizontal {
            start_x: start.x,
            end_x: (start.x + (ship_length - 1)) as i32,
            y: start.y,
        },
    }
}

/// The directions of a list that are allowed from `start`, in the order of
/// the list.
pub open spec fn allowed_among(directions: Seq<Direction>, start: Point, ship_length: int) -> Seq<
    Direction,
>
    decreases directions.len(),
{
    if directions.len() == 0 {
        Seq::empty()
    } else if direction_allowed(start, ship_length, directions.last()) {
        allowed_among(directions.drop_last(), start, ship_length).push(directions.last())
    } else {
        allowed_among(directions.drop_last(), start, ship_length)
    }
}

/// What a word says of how to lay a ship of `ship_length` cells from
/// `start`: the run, or why there is none.
pub open spec fn orientation_of(start: Point, ship_length: int, word: Seq<char>) -> Result<
    Position,
    OrientationError,
> {
    match direction_of(word) {
        None => Err(OrientationError::Unrecognized),
        Some(direction) => if direction_allowed(start, ship_length, direction) {
            Ok(run_towards(start, direction, ship_length))
        } else {
            Err(OrientationError::NotAllowed)
        },
    }
}

/// Reads a line of input as a cell of the board.
pub fn parse_coordinates(line: &str) -> (parsed: Result<Point, CoordinateError>)
    ensures
        parsed == coordinates_of(line@),
        parsed matches Ok(p) ==> p.in_bounds(),
{
    let chars = chars_of(line);
    let (start, end) = trim_bounds(&chars);
    let ghost text = trimmed(line@);
    // Count the commas and remember the first.
    let mut commas: usize = 0;
    let mut comma: usize = end;
    let mut i: usize = start;
    while i < end
        invariant
            start <= i <= end <= chars.len(),
            text == chars@.subrange(start as int, end as int),
            commas == count_of(text.take(i - start), ','),
            commas <= i - start,
            commas == 0 ==> comma == end,
            commas == 0 ==> first_index_of(text, ',', 0) == first_index_of(text, ',', i - start),
            commas > 0 ==> start <= comma < i && first_index_of(text, ',', 0) == comma - start,
        decreases end - i,
    {
        assert(text.take(i - start + 1).drop_last() =~= text.take(i - start));
        assert(text[i - start] == chars@[i as int]);
        if chars[i] == ',' {
            if commas == 0 {
                comma = i;
            }
            commas = commas + 1;
        }
        i = i + 1;
    }
    assert(text.take(end - start) =~= text);
    if commas != 1 {
        return Err(CoordinateError::Format);
    }
    assert(text.take(comma - start) =~= chars@.subrange(start as int, comma as int));
    assert(text.skip(comma - start + 1) =~= chars@.subrange(comma as int + 1, end as int));
    let x = match parse_index(&chars, start, comma, BOARD_SIZE as i32) {
        Some(x) => x,
        None => {
            return Err(CoordinateError::XCoordinate);
        },
    };
    let y = match parse_index(&chars, comma + 1, end, BOARD_SIZE as i32) {
        Some(y) => y,
        None => {
            return Err(CoordinateError::YCoordinate);
        },
    };
    Ok(Point { x, y })
}

/// Tells whether a ship of `ship_length` cells that starts at `start` and
/// runs in `direction` stays on the board in that direction.
pub fn is_direction_allowed(start: Point, ship_length: i32, direction: Direction) -> (allowed: bool)
    ensures
        allowed == direction_allowed(start, ship_length as int, direction),
{
    let reach: i64 = ship_length as i64 - 1;
    match direction {
        Direction::Down => start.y as i64 + reach < BOARD_SIZE as i64,
        Direction::Up => start.y as i64 - reach >= 0,
        Direction::Left => start.x as i64 - reach >= 0,
        Direction::Right => start.x as i64 + reach < BOARD_SIZE as i64,
    }
}

/// `allowed_among` keeps the directions that are allowed and no others.
pub proof fn lemma_allowed_among(directions: Seq<Direction>, start: Point, ship_length: int)
    ensures
        forall|d: Direction|
            #![trigger allowed_among(directions, start, ship_length).contains(d)]
            #![trigger directions.contains(d)]
            allowed_among(directions, start, ship_length).contains(d) <==> directions.contains(d)
                && direction_allowed(start, ship_length, d),
    decreases directions.len(),
{
    let kept = allowed_among(directions, start, ship_length);
    if directions.len() > 0 {
        let rest = directions.drop_last();
        let last = directions.last();
        let kept_rest = allowed_among(rest, start, ship_length);
        lemma_allowed_among(rest, start, ship_length);
        assert forall|d: Direction|
            #![trigger kept.contains(d)]
            #![trigger directions.contains(d)]
            kept.contains(d) <==> directions.contains(d) && direction_allowed(
                start,
                ship_length,
                d,
            ) by {
            if kept.contains(d) {
                let n = choose|n: int| 0 <= n < kept.len() && kept[n] == d;
                if n < kept_rest.len() {
                    assert(kept_rest[n] == d);
                    assert(kept_rest.contains(d));
                    let k = choose|k: int| 0 <= k < rest.len() && rest[k] == d;
                    assert(directions[k] == d);
                } else {
                    assert(directions[directions.len() - 1] == d);
                }
            }
            if directions.contains(d) && direction_allowed(start, ship_length, d) {
                let k = choose|k: int| 0 <= k < directions.len() && directions[k] == d;
                if k < rest.len() {
                    assert(rest[k] == d);
                    assert(rest.contains(d));
                    let n = choose|n: int| 0 <= n < kept_rest.len() && kept_rest[n] == d;
                    assert(kept[n] == d);
                } else {
                    assert(kept[kept.len() - 1] == d);
                }
            }
        }
    }
}

/// The directions in which a ship of `ship_length` cells may run from
/// `start`, in the order in which directions are offered.
pub fn allowed_directions(start: Point, ship_length: i32) -> (allowed: Vec<Direction>)
    ensures
        allowed@ == allowed_among(Direction::every(), start, ship_length as int),
        forall|d: Direction| allowed@.contains(d) <==> direction_allowed(start, ship_length as int, d),
{
    let every = Direction::all();
    let mut allowed: Vec<Direction> = Vec::new();
    let mut i: usize = 0;
    while i < every.len()
        invariant
            0 <= i <= every.len(),
            every@ == Direction::every(),
            allowed@ == allowed_among(every@.take(i as int), start, ship_length as int),
        decreases every.len() - i,
    {
        assert(every@.take(i as int + 1).drop_last() =~= every@.take(i as int));
        if is_direction_allowed(start, ship_length, every[i]) {
            allowed.push(every[i]);
        }
        i = i + 1;
    }
    proof {
        assert(every@.take(i as int) =~= every@);
        lemma_allowed_among(every@, start, ship_length as int);
        assert forall|d: Direction| every@.contains(d) by {
            let k: int = match d {
                Direction::Up => 0,
                Direction::Down => 1,
                Direction::Left => 2,
                Direction::Right => 3,
            };
            assert(every@[k] == d);
        }
    }
    allowed
}

/// The run of `ship_length` cells from `start` in `direction`.
pub fn position_towards(start: Point, direction: Direction, ship_length: i32) -> (pos: Position)
    requires
        start.in_bounds(),
        1 <= ship_length <= BOARD_SIZE,
    ensures
        pos == run_towards(start, direction, ship_length as int),
        pos.len() == ship_length,
        pos.covers(start),
        direction_allowed(start, ship_length as int, direction) ==> pos.in_bounds(),
{
    match direction {
        Direction::Down => Position::Vertical {
            start_y: start.y,
            end_y: start.y + (ship_length - 1),
            x: start.x,
        },
        Direction::Up => Position::Vertical {
            start_y: start.y - (ship_length - 1),
            end_y: start.y,
            x: start.x,
        },
        Direction::Left => Position::Horizontal {
            start_x: start.x - (ship_length - 1),
            end_x: start.x,
            y: start.y,
        },
        Direction::Right => Position::Horizontal {
            start_x: start.x,
            end_x: start.x + (ship_length - 1),
            y: start.y,
        },
    }
}

/// Lays a ship of `ship_length` cells from `start` as a word says. The word
/// is one of the four letters that name a direction, in lower case.
pub fn position_from_word(start: Point, ship_length: i32, word: &str) -> (laid: Result<
    Position,
    OrientationError,
>)
    requires
        start.in_bounds(),
        1 <= ship_length <= BOARD_SIZE,
    ensures
        laid == orientation_of(start, ship_length as int, word@),
        laid matches Ok(pos) ==> pos.len() == ship_length && pos.in_bounds() && pos.covers(start),
{
    match Direction::string_to_direction(word) {
        None => Err(OrientationError::Unrecognized),
        Some(direction) => {
            if is_direction_allowed(start, ship_length, direction) {
                Ok(position_towards(start, direction, ship_length))
            } else {
                Err(OrientationError::NotAllowed)
            }
        },
    }
}

/// Lays a ship of `ship_length` cells from `start` as an answer says. White
/// space around the answer is ignored, and so is the case of its letter.
pub fn position_from_answer(start: Point, ship_length: i32, answer: &str) -> (laid: Result<
    Position,
    OrientationError,
>)
    requires
        start.in_bounds(),
        1 <= ship_length <= BOARD_SIZE,
    ensures
        laid == orientation_of(start, ship_length as int, lowercased(trimmed(answer@))),
        laid matches Ok(pos) ==> pos.len() == ship_length && pos.in_bounds() && pos.covers(start),
{
    let word = to_lowercase(trim(answer));
    position_from_word(start, ship_length, word.as_str())
}

} // verus!
