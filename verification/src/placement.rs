//! Putting a fleet on an empty board.

use vstd::prelude::*;

use crate::board::{grid_view, ships_view};
use crate::enums::BOARD_SIZE;
use crate::geometry::{lemma_cells_cover, Point, Position};
use crate::helpers::{
    check_position_valid, generate_random_position_from, has_room, mark_position, marked,
    position_valid, run_at, taken,
};
use crate::rng::{RandomSource, ThreadSource};
use crate::ship::{Ship, ShipType, ShipView};

verus! {

/// A grid has one row for each line of the board and one entry for each cell
/// of a row.
pub open spec fn is_grid(grid: Seq<Seq<bool>>) -> bool {
    &&& grid.len() == BOARD_SIZE
    &&& forall|y: int| 0 <= y < BOARD_SIZE ==> (#[trigger] grid[y]).len() == BOARD_SIZE
}

/// Number of taken cells among the first `n` of a row.
pub open spec fn row_count(row: Seq<bool>, n: int) -> int
    decreases n,
{
    if n <= 0 {
        0
    } else {
        row_count(row, n - 1) + if row[n - 1] {
            1int
        } else {
            0int
        }
    }
}

/// Number of taken cells in the first `m` rows of a grid.
pub open spec fn grid_count(grid: Seq<Seq<bool>>, m: int) -> int
    decreases m,
{
    if m <= 0 {
        0
    } else {
        grid_count(grid, m - 1) + row_count(grid[m - 1], BOARD_SIZE as int)
    }
}

/// Number of taken cells of a grid.
pub open spec fn taken_cells(grid: Seq<Seq<bool>>) -> int {
    grid_count(grid, BOARD_SIZE as int)
}

/// The grid after the first `n` cells of `pos` have been taken.
pub open spec fn marked_upto(grid: Seq<Seq<bool>>, pos: Position, n: int) -> Seq<Seq<bool>> {
    Seq::new(
        BOARD_SIZE as nat,
        |y: int|
            Seq::new(
                BOARD_SIZE as nat,
                |x: int|
                    {
                        let p = Point { x: x as i32, y: y as i32 };
                        grid[y][x] || (pos.covers(p) && pos.index_of(p) < n)
                    },
            ),
    )
}

/// The ships lie as placement leaves them, and `grid` shows where: each ship
/// is well-formed and on the board, no two share a cell, and a cell of the
/// board is taken exactly where a ship covers it.
pub open spec fn fleet_layout(ships: Seq<ShipView>, grid: Seq<Seq<bool>>) -> bool {
    &&& is_grid(grid)
    &&& forall|i: int| 0 <= i < ships.len() ==> (#[trigger] ships[i]).wf() && ships[i].pos.in_bounds()
    &&& forall|i: int, j: int, p: Point|
        0 <= i < j < ships.len() && #[trigger] ships[i].pos.covers(p) ==> !#[trigger] ships[j].pos.covers(
            p,
        )
    &&& forall|p: Point| #[trigger]
        p.in_bounds() ==> (taken(grid, p) <==> exists|i: int|
            0 <= i < ships.len() && (#[trigger] ships[i]).pos.covers(p))
}

/// The ships are a whole fleet, newly placed: one ship of each kind in
/// placement order, every cell alive.
pub open spec fn fresh_fleet(ships: Seq<ShipView>) -> bool {
    &&& ships.len() == ShipType::fleet().len()
    &&& forall|k: int|
        0 <= k < ships.len() ==> #[trigger] ships[k] == ShipView::fresh(
            ShipType::fleet()[k],
            ships[k].pos,
        )
}

/// A row holds at least as many taken cells as any part of it, and one more
/// than the part before a taken cell.
pub proof fn lemma_row_count_grows(row: Seq<bool>, k: int, n: int)
    requires
        0 <= k <= n,
    ensures
        0 <= row_count(row, k) <= row_count(row, n),
        k < n && row[k] ==> row_count(row, k) + 1 <= row_count(row, n),
    decreases n,
{
    if k < n {
        lemma_row_count_grows(row, k, n - 1);
    } else {
        if n > 0 {
            lemma_row_count_grows(row, 0, n - 1);
        }
    }
}

/// Taking one free cell of a row adds one to its count.
pub proof fn lemma_row_take(row: Seq<bool>, x: int, n: int)
    requires
        0 <= x < row.len(),
        !row[x],
        0 <= n <= row.len(),
    ensures
        row_count(row.update(x, true), n) == row_count(row, n) + if x < n {
            1int
        } else {
            0int
        },
    decreases n,
{
    if n > 0 {
        lemma_row_take(row, x, n - 1);
    }
}

/// Taking one free cell of a grid adds one to its count.
pub proof fn lemma_grid_take(grid: Seq<Seq<bool>>, x: int, y: int, m: int)
    requires
        is_grid(grid),
        0 <= x < BOARD_SIZE,
        0 <= y < BOARD_SIZE,
        !grid[y][x],
        0 <= m <= BOARD_SIZE,
    ensures
        grid_count(grid.update(y, grid[y].update(x, true)), m) == grid_count(grid, m) + if y < m {
            1int
        } else {
            0int
        },
    decreases m,
{
    if m > 0 {
        lemma_grid_take(grid, x, y, m - 1);
        if y == m - 1 {
            lemma_row_take(grid[y], x, BOARD_SIZE as int);
        }
    }
}

/// Putting a ship on free cells adds its length to the number of taken cells.
pub proof fn lemma_marking_counts(grid: Seq<Seq<bool>>, pos: Position, n: int)
    requires
        is_grid(grid),
        position_valid(pos, grid),
        0 <= n <= pos.len(),
    ensures
        is_grid(marked_upto(grid, pos, n)),
        taken_cells(marked_upto(grid, pos, n)) == taken_cells(grid) + n,
        n == pos.len() ==> marked_upto(grid, pos, n) == marked(grid, pos),
    decreases n,
{
    lemma_cells_cover(pos);
    if n == 0 {
        assert(marked_upto(grid, pos, 0) =~~= grid);
    } else {
        lemma_marking_counts(grid, pos, n - 1);
        let before = marked_upto(grid, pos, n - 1);
        let c = pos.cell(n - 1);
        assert(pos.covers(c) && pos.index_of(c) == n - 1);
        assert(!taken(grid, c));
        assert(!before[c.y as int][c.x as int]);
        lemma_grid_take(before, c.x as int, c.y as int, BOARD_SIZE as int);
        assert(marked_upto(grid, pos, n) =~~= before.update(
            c.y as int,
            before[c.y as int].update(c.x as int, true),
        )) by {
            let after = marked_upto(grid, pos, n);
            let stepped = before.update(c.y as int, before[c.y as int].update(c.x as int, true));
            assert forall|y: int, x: int| 0 <= y < BOARD_SIZE && 0 <= x < BOARD_SIZE implies after[y][x]
                == stepped[y][x] by {
                let p = Point { x: x as i32, y: y as i32 };
                if pos.covers(p) && pos.index_of(p) == n - 1 {
                    assert(p == c);
                }
            }
        }
    }
    if n == pos.len() {
        assert(marked_upto(grid, pos, n) =~~= marked(grid, pos));
    }
}

/// Fewer than two taken cells for each row leave one row with at most one.
pub proof fn lemma_sparse_row(grid: Seq<Seq<bool>>, m: int)
    requires
        0 <= m,
        grid_count(grid, m) < 2 * m,
    ensures
        exists|y: int| 0 <= y < m && #[trigger] row_count(grid[y], BOARD_SIZE as int) <= 1,
    decreases m,
{
    if m > 0 {
        if row_count(grid[m - 1], BOARD_SIZE as int) <= 1 {
        } else {
            lemma_sparse_row(grid, m - 1);
        }
    }
}

/// A grid with fewer than twenty taken cells has room for any ship of the
/// fleet: some row holds at most one taken cell, and that cell cannot block
/// both halves of the row.
pub proof fn lemma_room_for_fleet_ship(grid: Seq<Seq<bool>>, len: int)
    requires
        is_grid(grid),
        taken_cells(grid) < 20,
        1 <= len <= 5,
    ensures
        has_room(len, grid),
{
    lemma_sparse_row(grid, BOARD_SIZE as int);
    let y = choose|y: int| 0 <= y < BOARD_SIZE && #[trigger] row_count(grid[y], BOARD_SIZE as int) <= 1;
    let row = grid[y];
    let left = run_at(false, 0, y, len);
    let right = run_at(false, len, y, len);
    if forall|x: int| 0 <= x < len ==> !row[x] {
        assert forall|i: int| 0 <= i < left.len() implies !taken(grid, #[trigger] left.cell(i)) by {
            assert(!row[i]);
        }
        assert(position_valid(left, grid));
    } else {
        let a = choose|x: int| 0 <= x < len && row[x];
        assert forall|i: int| 0 <= i < right.len() implies !taken(grid, #[trigger] right.cell(i)) by {
            let b = len + i;
            if row[b] {
                lemma_row_count_grows(row, a, b);
                lemma_row_count_grows(row, b, BOARD_SIZE as int);
                lemma_row_count_grows(row, 0, a);
            }
        }
        assert(position_valid(right, grid));
    }
}

/// An empty grid has no taken cell.
pub proof fn lemma_empty_grid(grid: Seq<Seq<bool>>)
    requires
        is_grid(grid),
        forall|y: int, x: int| 0 <= y < BOARD_SIZE && 0 <= x < BOARD_SIZE ==> !#[trigger] grid[y][x],
    ensures
        taken_cells(grid) == 0,
        fleet_layout(Seq::<ShipView>::empty(), grid),
{
    assert forall|y: int| 0 <= y < BOARD_SIZE implies row_count(#[trigger] grid[y], BOARD_SIZE as int)
        == 0 by {
        lemma_blank_row(grid[y], BOARD_SIZE as int);
    }
    lemma_blank_rows(grid, BOARD_SIZE as int);
}

/// A row without a taken cell counts none.
proof fn lemma_blank_row(row: Seq<bool>, n: int)
    requires
        0 <= n <= row.len(),
        forall|x: int| 0 <= x < n ==> !#[trigger] row[x],
    ensures
        row_count(row, n) == 0,
    decreases n,
{
    if n > 0 {
        lemma_blank_row(row, n - 1);
    }
}

/// Rows that count none add up to none.
proof fn lemma_blank_rows(grid: Seq<Seq<bool>>, m: int)
    requires
        0 <= m <= grid.len(),
        forall|y: int| 0 <= y < m ==> row_count(#[trigger] grid[y], BOARD_SIZE as int) == 0,
    ensures
        grid_count(grid, m) == 0,
    decreases m,
{
    if m > 0 {
        lemma_blank_rows(grid, m - 1);
    }
}

/// One more ship on free cells keeps the layout.
pub proof fn lemma_layout_grows(
    ships: Seq<ShipView>,
    grid: Seq<Seq<bool>>,
    ship_type: ShipType,
    pos: Position,
)
    requires
        fleet_layout(ships, grid),
        position_valid(pos, grid),
        pos.len() == ship_type.len(),
    ensures
        fleet_layout(ships.push(ShipView::fresh(ship_type, pos)), marked(grid, pos)),
        ShipView::fresh(ship_type, pos).wf(),
{
    lemma_cells_cover(pos);
    let ship = ShipView::fresh(ship_type, pos);
    let grown = ships.push(ship);
    let after = marked(grid, pos);
    assert forall|i: int| 0 <= i < grown.len() implies (#[trigger] grown[i]).wf()
        && grown[i].pos.in_bounds() by {
        if i < ships.len() {
            assert(ships[i].wf());
        }
    }
    assert forall|p: Point| #[trigger] pos.covers(p) implies p.in_bounds() && !taken(grid, p) by {
        assert(pos.cell(pos.index_of(p)) == p);
    }
    assert forall|i: int, j: int, p: Point|
        0 <= i < j < grown.len() && #[trigger] grown[i].pos.covers(p)
        implies !#[trigger] grown[j].pos.covers(p) by {
        if j < ships.len() {
            assert(ships[i].pos.covers(p));
        } else {
            if pos.covers(p) {
                assert(p.in_bounds());
                assert(ships[i].pos.covers(p));
            }
        }
    }
    assert forall|p: Point| #[trigger] p.in_bounds() implies (taken(after, p) <==> exists|i: int|
        0 <= i < grown.len() && (#[trigger] grown[i]).pos.covers(p)) by {
        assert(after[p.y as int][p.x as int] == (grid[p.y as int][p.x as int] || pos.covers(
            Point { x: p.x as int as i32, y: p.y as int as i32 },
        )));
        if taken(after, p) {
            if taken(grid, p) {
                let i = choose|i: int| 0 <= i < ships.len() && (#[trigger] ships[i]).pos.covers(p);
                assert(grown[i].pos.covers(p));
            } else {
                assert(grown[ships.len() as int].pos.covers(p));
            }
        }
        if exists|i: int| 0 <= i < grown.len() && (#[trigger] grown[i]).pos.covers(p) {
            let i = choose|i: int| 0 <= i < grown.len() && (#[trigger] grown[i]).pos.covers(p);
            if i < ships.len() {
                assert(ships[i].pos.covers(p));
            }
        }
    }
}

/// Puts a ship of the given kind at `position` if it may lie there: the run
/// must have the length of the kind, lie on the board, and cover free cells
/// only. The cells are then taken on the grid and the ship, every cell
/// alive, is added to the list. Otherwise nothing changes.
pub fn place_ship(
    ship_type: ShipType,
    position: Position,
    occupied: &mut [[bool; BOARD_SIZE]; BOARD_SIZE],
    player_placements: &mut Vec<Ship>,
) -> (placed: bool)
    ensures
        placed == (position.len() == ship_type.len() && position_valid(
            position,
            grid_view(*old(occupied)),
        )),
        placed ==> grid_view(*final(occupied)) == marked(grid_view(*old(occupied)), position)
            && ships_view(final(player_placements)@) == ships_view(old(player_placements)@).push(
            ShipView::fresh(ship_type, position),
        ),
        !placed ==> grid_view(*final(occupied)) == grid_view(*old(occupied)) && ships_view(
            final(player_placements)@,
        ) == ships_view(old(player_placements)@),
{
    if position.length() != ship_type.length() as u64 {
        return false;
    }
    if !check_position_valid(&position, occupied) {
        return false;
    }
    mark_position(occupied, &position);
    player_placements.push(Ship::new(ship_type, position));
    assert(ships_view(player_placements@) =~= ships_view(old(player_placements)@).push(
        ShipView::fresh(ship_type, position),
    ));
    true
}

/// Places a whole fleet on an empty board by the draws of `source`: one ship
/// of each kind, shortest first, each where no earlier one lies. The ships
/// are added to `player_placements`, and the grid of the cells they cover
/// is returned.
pub fn auto_place_ships_from<S: RandomSource>(source: &mut S, player_placements: &mut Vec<Ship>) -> (occupied:
    [[bool; BOARD_SIZE]; BOARD_SIZE])
    ensures
        final(player_placements)@.len() == old(player_placements)@.len() + 5,
        ships_view(final(player_placements)@).take(old(player_placements)@.len() as int)
            == ships_view(old(player_placements)@),
        fresh_fleet(ships_view(final(player_placements)@).skip(old(player_placements)@.len() as int)),
        fleet_layout(
            ships_view(final(player_placements)@).skip(old(player_placements)@.len() as int),
            grid_view(occupied),
        ),
{
    let ghost before = ships_view(player_placements@);
    let ghost mut placed: Seq<ShipView> = Seq::empty();
    let mut occupied: [[bool; BOARD_SIZE]; BOARD_SIZE] = [[false; BOARD_SIZE]; BOARD_SIZE];
    proof {
        lemma_empty_grid(grid_view(occupied));
    }
    let kinds = ShipType::all();
    let mut k: usize = 0;
    while k < kinds.len()
        invariant
            0 <= k <= kinds.len(),
            kinds@ == ShipType::fleet(),
            placed.len() == k,
            ships_view(player_placements@) == before + placed,
            before == ships_view(old(player_placements)@),
            fleet_layout(placed, grid_view(occupied)),
            forall|j: int|
                0 <= j < k ==> #[trigger] placed[j] == ShipView::fresh(
                    ShipType::fleet()[j],
                    placed[j].pos,
                ),
            2 * taken_cells(grid_view(occupied)) == k * (k + 1),
        decreases kinds.len() - k,
    {
        let ship_type = kinds[k];
        let ship_length = ship_type.length();
        assert(ship_length == k + 1);
        let ghost grid = grid_view(occupied);
        proof {
            assert(taken_cells(grid) < 20) by (nonlinear_arith)
                requires
                    2 * taken_cells(grid) == k * (k + 1),
                    0 <= k < 5,
            ;
            lemma_room_for_fleet_ship(grid, ship_length as int);
        }
        let position = generate_random_position_from(source, ship_length, &mut occupied);
        proof {
            lemma_marking_counts(grid, position, ship_length as int);
            lemma_layout_grows(placed, grid, ship_type, position);
            assert(2 * (taken_cells(grid) + ship_length) == (k + 1) * (k + 2)) by (nonlinear_arith)
                requires
                    2 * taken_cells(grid) == k * (k + 1),
                    ship_length == k + 1,
            ;
            placed = placed.push(ShipView::fresh(ship_type, position));
        }
        let ghost listed = ships_view(player_placements@);
        player_placements.push(Ship::new(ship_type, position));
        assert(ships_view(player_placements@) =~= listed.push(
            ShipView::fresh(ship_type, position),
        ));
        assert(ships_view(player_placements@) =~= before + placed);
        k = k + 1;
    }
    proof {
        let all = ships_view(player_placements@);
        let n = old(player_placements)@.len() as int;
        assert(all.take(n) =~= before);
        assert(all.skip(n) =~= placed);
    }
    occupied
}

/// Places a whole fleet at random on an empty board: one ship of each kind,
/// shortest first, each where no earlier one lies. The ships are added to
/// `player_placements`, and the grid of the cells they cover is returned.
/// The draws are those of the calling thread's generator.
pub fn auto_place_ships(player_placements: &mut Vec<Ship>) -> (occupied: [[bool; BOARD_SIZE];
    BOARD_SIZE])
    ensures
        final(player_placements)@.len() == old(player_placements)@.len() + 5,
        ships_view(final(player_placements)@).take(old(player_placements)@.len() as int)
            == ships_view(old(player_placements)@),
        fresh_fleet(ships_view(final(player_placements)@).skip(old(player_placements)@.len() as int)),
        fleet_layout(
            ships_view(final(player_placements)@).skip(old(player_placements)@.len() as int),
            grid_view(occupied),
        ),
{
    let mut source = ThreadSource::new();
    auto_place_ships_from(&mut source, player_placements)
}

} // verus!
