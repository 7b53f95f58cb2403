use vstd::prelude::*;

use crate::board::{Board, BoardView, Impact};
use crate::enums::BOARD_SIZE;
use crate::geometry::{lemma_cells_cover, Point};
use crate::ship::{ShipType, ShipView};

verus! {

/// The mark of a cell that shows nothing.
pub const BLANK: char = '.';

/// The mark of a strike that hit.
pub const HIT: char = 'X';

/// The mark of a ship's dead cell.
pub const WRECK: char = '\u{2020}';

/// The letter that marks a live cell of a ship of the given kind.
pub open spec fn kind_letter(kind: ShipType) -> char {
    match kind {
        ShipType::Submarine => 's',
        ShipType::Destroyer => 'd',
        ShipType::Cruiser => 'c',
        ShipType::Battleship => 'B',
        ShipType::Carrier => 'C',
    }
}

/// The mark that one ship puts on a cell that it covers.
pub open spec fn ship_cell_mark(ship: ShipView, p: Point) -> char {
    if ship.health[ship.pos.index_of(p)] {
        kind_letter(ship.ship_type)
    } else {
        WRECK
    }
}

/// The mark of cell `p` in the panel of strikes: the latest record at `p`
/// decides, and only a hit shows.
pub open spec fn impact_mark(impacts: Seq<Impact>, p: Point) -> char
    decreases impacts.len(),
{
    if impacts.len() == 0 {
        BLANK
    } else if impacts.last().coords == p {
        if impacts.last().hit {
            HIT
        } else {
            BLANK
        }
    } else {
        impact_mark(impacts.drop_last(), p)
    }
}

/// The mark of cell `p` in the panel of ships: the last ship in list order
/// that covers `p` decides.
pub open spec fn ship_mark(ships: Seq<ShipView>, p: Point) -> char
    decreases ships.len(),
{
    if ships.len() == 0 {
        BLANK
    } else if ships.last().pos.covers(p) {
        ship_cell_mark(ships.last(), p)
    } else {
        ship_mark(ships.drop_last(), p)
    }
}

/// A panel as rows of marks.
pub open spec fn panel_view(panel: [[char; BOARD_SIZE]; BOARD_SIZE]) -> Seq<Seq<char>> {
    Seq::new(BOARD_SIZE as nat, |y: int| panel@[y]@)
}

/// The panel of strikes of a board: row `y`, column `x` holds the mark of
/// the cell `(x, y)`.
pub open spec fn impact_panel(board: BoardView) -> Seq<Seq<char>> {
    Seq::new(
        BOARD_SIZE as nat,
        |y: int|
            Seq::new(
                BOARD_SIZE as nat,
                |x: int| impact_mark(board.impacts, Point { x: x as i32, y: y as i32 }),
            ),
    )
}

/// The panel of ships of a board.
pub open spec fn ship_panel(board: BoardView) -> Seq<Seq<char>> {
    Seq::new(
        BOARD_SIZE as nat,
        |y: int|
            Seq::new(
                BOARD_SIZE as nat,
                |x: int| ship_mark(board.ships, Point { x: x as i32, y: y as i32 }),
            ),
    )
}

/// The marks of a row, each followed by a blank.
pub open spec fn marks_text(marks: Seq<char>) -> Seq<char>
    decreases marks.len(),
{
    if marks.len() == 0 {
        Seq::empty()
    } else {
        marks_text(marks.drop_last()).push(marks.last()).push(' ')
    }
}

/// One printed row: the row's number, a blank, the marks, a line break.
pub open spec fn row_text(y: int, marks: Seq<char>) -> Seq<char> {
    seq!["0123456789"@[y], ' '] + marks_text(marks) + seq!['\n']
}

/// The first `n` rows of a panel, printed.
pub open spec fn rows_text(panel: Seq<Seq<char>>, n: nat) -> Seq<char>
    decreases n,
{
    if n == 0 {
        Seq::empty()
    } else {
        rows_text(panel, (n - 1) as nat) + row_text(n - 1, panel[n - 1])
    }
}

/// A panel with the line of column numbers above it.
pub open spec fn panel_text(panel: Seq<Seq<char>>) -> Seq<char> {
    "  0 1 2 3 4 5 6 7 8 9\n"@ + rows_text(panel, BOARD_SIZE as nat)
}

/// The two panels of a board as they are shown to its owner: the strikes
/// made so far above, the owner's ships below.
pub open spec fn board_text(board: BoardView) -> Seq<char> {
    "Impacts\n"@ + panel_text(impact_panel(board)) + "---------------------\n"@ + "Your ships\n"@
        + panel_text(ship_panel(board))
}

/// `String::push`, which appends one character to the end of the string.
#[verifier::external_body]
fn push_char(text: &mut String, c: char)
    ensures
        final(text)@ == old(text)@.push(c),
{
    text.push(c);
}

/// The letter that marks a live cell of a ship of the given kind.
pub fn letter_of(kind: ShipType) -> (c: char)
    ensures
        c == kind_letter(kind),
{
    match kind {
        ShipType::Submarine => 's',
        ShipType::Destroyer => 'd',
        ShipType::Cruiser => 'c',
        ShipType::Battleship => 'B',
        ShipType::Carrier => 'C',
    }
}

/// Appends a panel to `text`: the line of column numbers, then the rows.
fn append_panel(text: &mut String, panel: &[[char; BOARD_SIZE]; BOARD_SIZE])
    ensures
        final(text)@ == old(text)@ + panel_text(panel_view(*panel)),
{
    let ghost rows = panel_view(*panel);
    let ghost start = text@;
    text.append("  0 1 2 3 4 5 6 7 8 9\n");
    let digits = "0123456789";
    proof {
        reveal_strlit("0123456789");
    }
    let mut y: usize = 0;
    while y < BOARD_SIZE
        invariant
            0 <= y <= BOARD_SIZE,
            rows == panel_view(*panel),
            digits@ == "0123456789"@,
            digits@.len() == 10,
            text@ == start + "  0 1 2 3 4 5 6 7 8 9\n"@ + rows_text(rows, y as nat),
        decreases BOARD_SIZE - y,
    {
        let ghost line_start = text@;
        push_char(text, digits.get_char(y));
        push_char(text, ' ');
        let mut x: usize = 0;
        while x < BOARD_SIZE
            invariant
                0 <= x <= BOARD_SIZE,
                0 <= y < BOARD_SIZE,
                rows == panel_view(*panel),
                text@ == line_start + seq!["0123456789"@[y as int], ' '] + marks_text(
                    rows[y as int].take(x as int),
                ),
            decreases BOARD_SIZE - x,
        {
            assert(rows[y as int].take(x as int + 1).drop_last() =~= rows[y as int].take(x as int));
            assert(rows[y as int].take(x as int + 1).last() == panel@[y as int]@[x as int]);
            push_char(text, panel[y][x]);
            push_char(text, ' ');
            x = x + 1;
        }
        assert(rows[y as int].take(BOARD_SIZE as int) =~= rows[y as int]);
        push_char(text, '\n');
        y = y + 1;
        assert(text@ =~= start + "  0 1 2 3 4 5 6 7 8 9\n"@ + rows_text(rows, y as nat));
    }
}

impl Board {
    /// The panel of strikes: an `X` where the owner's strike hit, a dot
    /// everywhere else, also where a strike missed.
    pub fn impact_grid(&self) -> (panel: [[char; BOARD_SIZE]; BOARD_SIZE])
        requires
            self@.impacts_in_bounds(),
        ensures
            panel_view(panel) == impact_panel(self@),
    {
        let mut panel: [[char; BOARD_SIZE]; BOARD_SIZE] = [[BLANK; BOARD_SIZE]; BOARD_SIZE];
        let mut i: usize = 0;
        while i < self.impacts.len()
            invariant
                0 <= i <= self.impacts.len(),
                self@.impacts_in_bounds(),
                forall|x: int, y: int|
                    0 <= x < BOARD_SIZE && 0 <= y < BOARD_SIZE ==> #[trigger] panel@[y]@[x]
                        == impact_mark(
                        self.impacts@.take(i as int),
                        Point { x: x as i32, y: y as i32 },
                    ),
            decreases self.impacts.len() - i,
        {
            let impact = self.impacts[i];
            assert(self@.impacts[i as int].coords.in_bounds());
            assert(self.impacts@.take(i as int + 1).drop_last() =~= self.impacts@.take(i as int));
            if impact.hit {
                panel[impact.coords.y as usize][impact.coords.x as usize] = HIT;
            } else {
                panel[impact.coords.y as usize][impact.coords.x as usize] = BLANK;
            }
            i = i + 1;
        }
        assert(self.impacts@.take(i as int) =~= self.impacts@);
        assert(panel_view(panel) =~~= impact_panel(self@));
        panel
    }

    /// The panel of the owner's ships: a dagger on each dead cell, the
    /// letter of the ship's kind on each live one, a dot on open water.
    pub fn ship_grid(&self) -> (panel: [[char; BOARD_SIZE]; BOARD_SIZE])
        requires
            self@.ships_wf(),
            self@.ships_in_bounds(),
        ensures
            panel_view(panel) == ship_panel(self@),
    {
        let mut panel: [[char; BOARD_SIZE]; BOARD_SIZE] = [[BLANK; BOARD_SIZE]; BOARD_SIZE];
        let mut k: usize = 0;
        while k < self.ships.len()
            invariant
                0 <= k <= self.ships.len(),
                self@.ships_wf(),
                self@.ships_in_bounds(),
                forall|x: int, y: int|
                    0 <= x < BOARD_SIZE && 0 <= y < BOARD_SIZE ==> #[trigger] panel@[y]@[x]
                        == ship_mark(self@.ships.take(k as int), Point { x: x as i32, y: y as i32 }),
            decreases self.ships.len() - k,
        {
            let ship = &self.ships[k];
            let ghost sv = self@.ships[k as int];
            assert(sv == ship@);
            assert(sv.wf() && sv.pos.in_bounds());
            assert(self@.ships.take(k as int + 1).drop_last() =~= self@.ships.take(k as int));
            assert(self@.ships.take(k as int + 1).last() == sv);
            let coords = ship.pos.coordinates();
            proof {
                lemma_cells_cover(sv.pos);
            }
            let mut j: usize = 0;
            while j < coords.len()
                invariant
                    0 <= j <= coords.len(),
                    0 <= k < self.ships.len(),
                    sv == self@.ships[k as int],
                    sv == ship@,
                    sv.wf(),
                    sv.pos.in_bounds(),
                    coords@ == sv.pos.cells(),
                    forall|n: int|
                        0 <= n < sv.pos.len() ==> sv.pos.covers(#[trigger] sv.pos.cell(n))
                            && sv.pos.index_of(sv.pos.cell(n)) == n,
                    forall|p: Point| #[trigger]
                        sv.pos.covers(p) ==> 0 <= sv.pos.index_of(p) < sv.pos.len() && sv.pos.cell(
                            sv.pos.index_of(p),
                        ) == p,
                    forall|x: int, y: int|
                        0 <= x < BOARD_SIZE && 0 <= y < BOARD_SIZE ==> #[trigger] panel@[y]@[x] == ({
                            let p = Point { x: x as i32, y: y as i32 };
                            if sv.pos.covers(p) && sv.pos.index_of(p) < j {
                                ship_cell_mark(sv, p)
                            } else {
                                ship_mark(self@.ships.take(k as int), p)
                            }
                        }),
                decreases coords.len() - j,
            {
                let coord = coords[j];
                assert(coord == sv.pos.cell(j as int));
                assert(sv.pos.covers(coord));
                assert(coord.in_bounds());
                let mark = if !ship.health[j] {
                    WRECK
                } else {
                    letter_of(ship.ship_type)
                };
                assert(mark == ship_cell_mark(sv, coord));
                panel[coord.y as usize][coord.x as usize] = mark;
                j = j + 1;
            }
            k = k + 1;
        }
        assert(self@.ships.take(k as int) =~= self@.ships);
        assert(panel_view(panel) =~~= ship_panel(self@));
        panel
    }

    /// The board as text for its owner: the panel of strikes, a rule, the
    /// panel of ships, each under its title and a line of column numbers.
    pub fn draw_board(&self) -> (text: String)
        requires
            self@.impacts_in_bounds(),
            self@.ships_wf(),
            self@.ships_in_bounds(),
        ensures
            text@ == board_text(self@),
    {
        let impacts = self.impact_grid();
        let ships = self.ship_grid();
        let mut text = String::new();
        text.append("Impacts\n");
        append_panel(&mut text, &impacts);
        text.append("---------------------\n");
        text.append("Your ships\n");
        append_panel(&mut text, &ships);
        assert(text@ =~= board_text(self@));
        text
    }
}

} // verus!
