use vstd::prelude::*;

use crate::enums::BOARD_SIZE;

verus! {

/// A cell of the board, counted from zero in both directions.
#[derive(Debug, Clone, Copy, PartialEq, Eq, Hash, Structural)]
pub struct Point {
    pub x: i32,
    pub y: i32,
}

impl Point {
    /// Both coordinates lie on the board.
    pub open spec fn in_bounds(self) -> bool {
        0 <= self.x < BOARD_SIZE as int && 0 <= self.y < BOARD_SIZE as int
    }

    /// Tells whether the cell lies on the board.
    pub fn is_in_bounds(&self) -> (r: bool)
        ensures
            r == self.in_bounds(),
    {
        0 <= self.x && self.x < BOARD_SIZE as i32 && 0 <= self.y && self.y < BOARD_SIZE as i32
    }
}

/// A straight run of cells. Ships lie along a row or along a column, never
/// diagonally; both ends of the range belong to the run.
#[derive(Debug, Clone, Copy, PartialEq, Eq, Hash, Structural)]
pub enum Position {
    Horizontal { start_x: i32, end_x: i32, y: i32 },
    Vertical { start_y: i32, end_y: i32, x: i32 },
}

impl Position {
    /// First value of the range along which the run extends.
    pub open spec fn start(self) -> int {
        match self {
            Position::Horizontal { start_x, .. } => start_x as int,
            Position::Vertical { start_y, .. } => start_y as int,
        }
    }

    /// Last value of the range along which the run extends.
    pub open spec fn end(self) -> int {
        match self {
            Position::Horizontal { end_x, .. } => end_x as int,
            Position::Vertical { end_y, .. } => end_y as int,
        }
    }

    /// The row of a horizontal run, the column of a vertical one.
    pub open spec fn line(self) -> int {
        match self {
            Position::Horizontal { y, .. } => y as int,
            Position::Vertical { x, .. } => x as int,
        }
    }

    /// Number of cells in the run; a range whose start exceeds its end is empty.
    pub open spec fn len(self) -> nat {
        if self.start() <= self.end() {
            (self.end() - self.start() + 1) as nat
        } else {
            0
        }
    }

    /// The `i`-th cell of the run, counted from its start.
    pub open spec fn cell(self, i: int) -> Point {
        match self {
            Position::Horizontal { start_x, y, .. } => Point { x: (start_x + i) as i32, y },
            Position::Vertical { start_y, x, .. } => Point { x, y: (start_y + i) as i32 },
        }
    }

    /// The cells of the run in ascending order.
    pub open spec fn cells(self) -> Seq<Point> {
        Seq::new(self.len(), |i: int| self.cell(i))
    }

    /// The run contains `p`.
    pub open spec fn covers(self, p: Point) -> bool {
        match self {
            Position::Horizontal { start_x, end_x, y } => p.y == y && start_x <= p.x <= end_x,
            Position::Vertical { start_y, end_y, x } => p.x == x && start_y <= p.y <= end_y,
        }
    }

    /// Where `p` stands in `cells()`, for a `p` that the run covers.
    pub open spec fn index_of(self, p: Point) -> int {
        match self {
            Position::Horizontal { start_x, .. } => p.x - start_x,
            Position::Vertical { start_y, .. } => p.y - start_y,
        }
    }

    /// The whole range lies on the board.
    pub open spec fn in_bounds(self) -> bool {
        &&& 0 <= self.line() < BOARD_SIZE as int
        &&& 0 <= self.start()
        &&& self.end() < BOARD_SIZE as int
    }

    /// The two runs share a cell.
    pub open spec fn overlaps(self, other: Position) -> bool {
        exists|p: Point| self.covers(p) && other.covers(p)
    }

    /// Tells whether the whole range lies on the board.
    pub fn is_in_bounds(&self) -> (r: bool)
        ensures
            r == self.in_bounds(),
    {
        match self {
            Position::Horizontal { start_x, end_x, y } => {
                0 <= *y && *y < BOARD_SIZE as i32 && 0 <= *start_x && *end_x < BOARD_SIZE as i32
            },
            Position::Vertical { start_y, end_y, x } => {
                0 <= *x && *x < BOARD_SIZE as i32 && 0 <= *start_y && *end_y < BOARD_SIZE as i32
            },
        }
    }

    /// Tells whether the two runs share a cell.
    pub fn intersects(&self, other: &Position) -> (r: bool)
        ensures
            r == self.overlaps(*other),
    {
        match (self, other) {
            (
                Position::Horizontal { start_x: a1, end_x: b1, y: y1 },
                Position::Horizontal { start_x: a2, end_x: b2, y: y2 },
            ) => {
                let low: i32 = if *a1 >= *a2 {
                    *a1
                } else {
                    *a2
                };
                let shared = *y1 == *y2 && low <= *b1 && low <= *b2;
                if shared {
                    assert(self.covers(Point { x: low, y: *y1 }) && other.covers(Point { x: low, y: *y1 }));
                }
                shared
            },
            (
                Position::Vertical { start_y: a1, end_y: b1, x: x1 },
                Position::Vertical { start_y: a2, end_y: b2, x: x2 },
            ) => {
                let low: i32 = if *a1 >= *a2 {
                    *a1
                } else {
                    *a2
                };
                let shared = *x1 == *x2 && low <= *b1 && low <= *b2;
                if shared {
                    assert(self.covers(Point { x: *x1, y: low }) && other.covers(Point { x: *x1, y: low }));
                }
                shared
            },
            (Position::Horizontal { start_x, end_x, y }, Position::Vertical { start_y, end_y, x }) => {
                let shared = *start_x <= *x && *x <= *end_x && *start_y <= *y && *y <= *end_y;
                if shared {
                    assert(self.covers(Point { x: *x, y: *y }) && other.covers(Point { x: *x, y: *y }));
                }
                shared
            },
            (Position::Vertical { start_y, end_y, x }, Position::Horizontal { start_x, end_x, y }) => {
                let shared = *start_x <= *x && *x <= *end_x && *start_y <= *y && *y <= *end_y;
                if shared {
                    assert(self.covers(Point { x: *x, y: *y }) && other.covers(Point { x: *x, y: *y }));
                }
                shared
            },
        }
    }

    /// Number of cells in the run.
    pub fn length(&self) -> (n: u64)
        ensures
            n == self.len(),
    {
        match self {
            Position::Horizontal { start_x, end_x, .. } => {
                if *start_x <= *end_x {
                    (*end_x as i64 - *start_x as i64 + 1) as u64
                } else {
                    0
                }
            },
            Position::Vertical { start_y, end_y, .. } => {
                if *start_y <= *end_y {
                    (*end_y as i64 - *start_y as i64 + 1) as u64
                } else {
                    0
                }
            },
        }
    }

    /// Expands the run into its cells, in ascending order along the range.
    pub fn coordinates(&self) -> (coords: Vec<Point>)
        ensures
            coords@ == self.cells(),
    {
        let mut coords: Vec<Point> = Vec::new();
        match self {
            Position::Horizontal { start_x, end_x, y } => {
                if *start_x <= *end_x {
                    let mut x: i32 = *start_x;
                    loop
                        invariant_except_break
                            *start_x <= x <= *end_x,
                            coords@ == Seq::new((x - *start_x) as nat, |i: int| self.cell(i)),
                        invariant
                            *self == (Position::Horizontal { start_x: *start_x, end_x: *end_x, y: *y }),
                            *start_x <= *end_x,
                        ensures
                            coords@ == self.cells(),
                        decreases *end_x - x,
                    {
                        coords.push(Point { x, y: *y });
                        if x == *end_x {
                            assert(coords@ =~= self.cells());
                            break;
                        }
                        x = x + 1;
                        assert(coords@ =~= Seq::new((x - *start_x) as nat, |i: int| self.cell(i)));
                    }
                } else {
                    assert(coords@ =~= self.cells());
                }
            },
            Position::Vertical { start_y, end_y, x } => {
                if *start_y <= *end_y {
                    let mut y: i32 = *start_y;
                    loop
                        invariant_except_break
                            *start_y <= y <= *end_y,
                            coords@ == Seq::new((y - *start_y) as nat, |i: int| self.cell(i)),
                        invariant
                            *self == (Position::Vertical { start_y: *start_y, end_y: *end_y, x: *x }),
                            *start_y <= *end_y,
                        ensures
                            coords@ == self.cells(),
                        decreases *end_y - y,
                    {
                        coords.push(Point { x: *x, y });
                        if y == *end_y {
                            assert(coords@ =~= self.cells());
                            break;
                        }
                        y = y + 1;
                        assert(coords@ =~= Seq::new((y - *start_y) as nat, |i: int| self.cell(i)));
                    }
                } else {
                    assert(coords@ =~= self.cells());
                }
            },
        }
        coords
    }
}

impl Default for Position {
    fn default() -> (pos: Position)
        ensures
            pos == (Position::Horizontal { start_x: 0, end_x: 0, y: 0 }),
    {
        Position::Horizontal { start_x: 0, end_x: 0, y: 0 }
    }
}

/// A run covers exactly the cells that it lists, and `index_of` finds each
/// of them again.
pub proof fn lemma_cells_cover(pos: Position)
    ensures
        forall|i: int| 0 <= i < pos.len() ==> pos.covers(#[trigger] pos.cell(i)) && pos.index_of(pos.cell(i)) == i,
        forall|p: Point| #[trigger] pos.covers(p) ==> 0 <= pos.index_of(p) < pos.len() && pos.cell(pos.index_of(p)) == p,
        forall|p: Point| pos.cells().contains(p) <==> #[trigger] pos.covers(p),
{
    assert forall|p: Point| pos.cells().contains(p) <==> #[trigger] pos.covers(p) by {
        if pos.covers(p) {
            let k = pos.index_of(p);
            assert(pos.cells()[k] == p);
        }
    }
}

/// The expansion of a run has as many cells as the range has values. They
/// all share the fixed coordinate; the other coordinate starts at the
/// range's start and grows by one from each cell to the next, so the cells
/// come in ascending order and none comes twice.
pub proof fn lemma_coordinates_line(pos: Position)
    ensures
        pos.cells().len() == pos.len(),
        pos.start() <= pos.end() ==> pos.cells().len() == pos.end() - pos.start() + 1,
        pos.start() > pos.end() ==> pos.cells().len() == 0,
        pos matches Position::Horizontal { start_x, y, .. } ==> forall|i: int|
            0 <= i < pos.len() ==> (#[trigger] pos.cells()[i]).y == y && pos.cells()[i].x == start_x + i,
        pos matches Position::Vertical { start_y, x, .. } ==> forall|i: int|
            0 <= i < pos.len() ==> (#[trigger] pos.cells()[i]).x == x && pos.cells()[i].y == start_y + i,
        pos is Horizontal ==> forall|i: int, j: int|
            0 <= i < j < pos.len() ==> (#[trigger] pos.cells()[i]).x < (#[trigger] pos.cells()[j]).x,
        pos is Vertical ==> forall|i: int, j: int|
            0 <= i < j < pos.len() ==> (#[trigger] pos.cells()[i]).y < (#[trigger] pos.cells()[j]).y,
        forall|i: int, j: int|
            0 <= i < j < pos.len() ==> (#[trigger] pos.cells()[i]) != (#[trigger] pos.cells()[j]),
{
}

} // verus!
