use vstd::prelude::*;

use crate::enums::BOARD_SIZE;
use crate::geometry::Point;
use crate::ship::{Ship, ShipView};

verus! {

/// The record of one resolved strike: where it fell and whether it hit.
#[derive(Debug, Clone, Copy, PartialEq, Eq, Hash, Structural)]
pub struct Impact {
    pub coords: Point,
    pub hit: bool,
}

/// One side's board: its ships, the strikes that its owner has made so far,
/// and the grid of cells that ships were placed on. Ships are neither added
/// nor removed once the board exists, and the strike history only grows.
///
/// The history holds no record twice. That no two records share a
/// coordinate is up to whoever records them: see `already_struck`.
#[derive(Debug)]
pub struct Board {
    pub occupied: [[bool; BOARD_SIZE]; BOARD_SIZE],
    pub ships: Vec<Ship>,
    pub impacts: Vec<Impact>,
}

/// What a `Board` stands for.
pub struct BoardView {
    /// `occupied[y][x]` tells whether a ship was placed on column `x` of row `y`.
    pub occupied: Seq<Seq<bool>>,
    pub ships: Seq<ShipView>,
    pub impacts: Seq<Impact>,
}

/// The rows of an occupancy grid.
pub open spec fn grid_view(grid: [[bool; BOARD_SIZE]; BOARD_SIZE]) -> Seq<Seq<bool>> {
    Seq::new(BOARD_SIZE as nat, |y: int| grid@[y]@)
}

/// The ships of a list, each as what it stands for.
pub open spec fn ships_view(ships: Seq<Ship>) -> Seq<ShipView> {
    Seq::new(ships.len(), |i: int| ships[i]@)
}

/// Index of the first ship at or after `from` that covers `p`; the number of
/// ships if there is none.
pub open spec fn first_covering(ships: Seq<ShipView>, p: Point, from: int) -> int
    decreases ships.len() - from,
{
    if from >= ships.len() {
        ships.len() as int
    } else if ships[from].pos.covers(p) {
        from
    } else {
        first_covering(ships, p, from + 1)
    }
}

/// Number of hits among the records.
pub open spec fn count_hits(impacts: Seq<Impact>) -> nat
    decreases impacts.len(),
{
    if impacts.len() == 0 {
        0
    } else {
        count_hits(impacts.drop_last()) + if impacts.last().hit {
            1nat
        } else {
            0nat
        }
    }
}

impl View for Board {
    type V = BoardView;

    open spec fn view(&self) -> BoardView {
        BoardView {
            occupied: grid_view(self.occupied),
            ships: ships_view(self.ships@),
            impacts: self.impacts@,
        }
    }
}

impl BoardView {
    /// Every ship has one health entry for each cell and the length of its kind.
    pub open spec fn ships_wf(self) -> bool {
        forall|i: int| 0 <= i < self.ships.len() ==> (#[trigger] self.ships[i]).wf()
    }

    /// Every ship lies on the board.
    pub open spec fn ships_in_bounds(self) -> bool {
        forall|i: int| 0 <= i < self.ships.len() ==> (#[trigger] self.ships[i]).pos.in_bounds()
    }

    /// No cell belongs to two ships.
    pub open spec fn ships_disjoint(self) -> bool {
        forall|i: int, j: int, p: Point|
            0 <= i < j < self.ships.len() && #[trigger] self.ships[i].pos.covers(p)
                ==> !#[trigger] self.ships[j].pos.covers(p)
    }

    /// No two records of the history share a coordinate.
    pub open spec fn impacts_distinct(self) -> bool {
        forall|i: int, j: int|
            0 <= i < j < self.impacts.len() ==> (#[trigger] self.impacts[i]).coords
                != (#[trigger] self.impacts[j]).coords
    }

    /// Every recorded strike fell on the board.
    pub open spec fn impacts_in_bounds(self) -> bool {
        forall|i: int| 0 <= i < self.impacts.len() ==> (#[trigger] self.impacts[i]).coords.in_bounds()
    }

    /// A board as placement and play leave it: well-formed ships that lie on
    /// the board and do not overlap, and a history of distinct cells of the
    /// board.
    pub open spec fn wf(self) -> bool {
        &&& self.ships_wf()
        &&& self.ships_in_bounds()
        &&& self.ships_disjoint()
        &&& self.impacts_distinct()
        &&& self.impacts_in_bounds()
    }

    /// Every ship is sunk. True of a board without ships.
    pub open spec fn all_sunk(self) -> bool {
        forall|i: int| 0 <= i < self.ships.len() ==> (#[trigger] self.ships[i]).sunk()
    }

    /// The history holds a strike at `p`, hit or miss.
    pub open spec fn struck(self, p: Point) -> bool {
        exists|i: int| 0 <= i < self.impacts.len() && (#[trigger] self.impacts[i]).coords == p
    }

    /// The cells that the history holds a strike at.
    pub open spec fn struck_points(self) -> Set<Point> {
        Set::new(|p: Point| self.struck(p))
    }

    /// Some cell of the board has not been struck yet.
    pub open spec fn has_open_cell(self) -> bool {
        exists|p: Point| #[trigger] p.in_bounds() && !self.struck(p)
    }

    /// Some ship covers `p`.
    pub open spec fn hit_by(self, p: Point) -> bool {
        first_covering(self.ships, p, 0) < self.ships.len()
    }

    /// The board after a strike at `p` against it: the first ship in list
    /// order that covers `p` has taken the hit, and nothing else has changed.
    pub open spec fn after_strike(self, p: Point) -> BoardView {
        let k = first_covering(self.ships, p, 0);
        if k < self.ships.len() {
            BoardView { ships: self.ships.update(k, self.ships[k].after_hit(p)), ..self }
        } else {
            self
        }
    }

    /// The board after `impact` has been entered into its history. A record
    /// that the history holds already is not entered again.
    pub open spec fn recorded(self, impact: Impact) -> BoardView {
        if self.impacts.contains(impact) {
            self
        } else {
            BoardView { impacts: self.impacts.push(impact), ..self }
        }
    }

    /// Number of hits in the history.
    pub open spec fn hits(self) -> nat {
        count_hits(self.impacts)
    }
}

impl Board {
    /// A board with the given ships and an empty strike history.
    pub fn new(occupied: [[bool; BOARD_SIZE]; BOARD_SIZE], ships: Vec<Ship>) -> (board: Board)
        ensures
            board@.occupied == grid_view(occupied),
            board@.ships == ships_view(ships@),
            board@.impacts == Seq::<Impact>::empty(),
            board.occupied == occupied,
            board.ships == ships,
    {
        Board { occupied, ships, impacts: Vec::new() }
    }

    /// Resolves a strike at `strike_coords` against this board. The ships are
    /// asked in list order, and the first that covers the cell takes the
    /// hit. The result tells whether there was one. The strike is not
    /// entered into any history: that is the attacker's part.
    pub fn register_strike(&mut self, strike_coords: Point) -> (hit: bool)
        requires
            old(self)@.ships_wf(),
        ensures
            hit == old(self)@.hit_by(strike_coords),
            final(self)@ == old(self)@.after_strike(strike_coords),
            !hit ==> final(self)@ == old(self)@,
    {
        let ghost before = self@;
        let mut hit = false;
        let mut i: usize = 0;
        while i < self.ships.len()
            invariant_except_break
                !hit,
                self@ == before,
                first_covering(before.ships, strike_coords, 0) == first_covering(
                    before.ships,
                    strike_coords,
                    i as int,
                ),
            invariant
                0 <= i <= self.ships.len(),
                before == old(self)@,
                before.ships_wf(),
            ensures
                hit == before.hit_by(strike_coords),
                self@ == before.after_strike(strike_coords),
            decreases self.ships.len() - i,
        {
            assert(before.ships[i as int] == self.ships@[i as int]@);
            if self.ships[i].hit(&strike_coords) {
                assert(self@.ships =~= before.ships.update(
                    i as int,
                    before.ships[i as int].after_hit(strike_coords),
                ));
                assert(self@ == before.after_strike(strike_coords));
                hit = true;
                break;
            }
            assert(self@.ships =~= before.ships);
            i = i + 1;
        }
        hit
    }

    /// Tells whether every ship of the board is sunk.
    pub fn all_ships_sunk(&self) -> (r: bool)
        ensures
            r == self@.all_sunk(),
    {
        let mut i: usize = 0;
        while i < self.ships.len()
            invariant
                0 <= i <= self.ships.len(),
                forall|k: int| 0 <= k < i ==> (#[trigger] self@.ships[k]).sunk(),
            decreases self.ships.len() - i,
        {
            if !self.ships[i].sunk() {
                assert(!self@.ships[i as int].sunk());
                return false;
            }
            i = i + 1;
        }
        true
    }

    /// Tells whether the history holds a strike at `strike_coords`, hit or miss.
    pub fn already_struck(&self, strike_coords: Point) -> (r: bool)
        ensures
            r == self@.struck(strike_coords),
    {
        let mut i: usize = 0;
        while i < self.impacts.len()
            invariant
                0 <= i <= self.impacts.len(),
                forall|k: int| 0 <= k < i ==> (#[trigger] self.impacts@[k]).coords != strike_coords,
            decreases self.impacts.len() - i,
        {
            if self.impacts[i].coords.x == strike_coords.x && self.impacts[i].coords.y
                == strike_coords.y {
                assert(self@.impacts[i as int].coords == strike_coords);
                return true;
            }
            i = i + 1;
        }
        false
    }

    /// Enters `impact` into the history, unless the history holds an equal
    /// record already. The result tells whether it was entered.
    pub fn record_impact(&mut self, impact: Impact) -> (entered: bool)
        ensures
            entered == !old(self)@.impacts.contains(impact),
            final(self)@ == old(self)@.recorded(impact),
            final(self)@.struck(impact.coords),
    {
        let mut i: usize = 0;
        while i < self.impacts.len()
            invariant
                0 <= i <= self.impacts.len(),
                *self == *old(self),
                forall|k: int| 0 <= k < i ==> self.impacts@[k] != impact,
            decreases self.impacts.len() - i,
        {
            if self.impacts[i].coords.x == impact.coords.x && self.impacts[i].coords.y
                == impact.coords.y && self.impacts[i].hit == impact.hit {
                assert(self@.impacts[i as int] == impact);
                return false;
            }
            i = i + 1;
        }
        self.impacts.push(impact);
        assert(self@.impacts[old(self)@.impacts.len() as int].coords == impact.coords);
        true
    }

    /// Tells whether every ship is well-formed and lies on the board.
    fn ships_fit(&self) -> (r: bool)
        ensures
            r == (self@.ships_wf() && self@.ships_in_bounds()),
    {
        let mut i: usize = 0;
        while i < self.ships.len()
            invariant
                0 <= i <= self.ships.len(),
                forall|k: int| 0 <= k < i ==> (#[trigger] self@.ships[k]).wf() && self@.ships[k].pos.in_bounds(),
            decreases self.ships.len() - i,
        {
            let ship = &self.ships[i];
            assert(ship@ == self@.ships[i as int]);
            let cells = ship.pos.length();
            if ship.health.len() as u64 != cells || cells != ship.ship_type.length() as u64
                || !ship.pos.is_in_bounds() {
                return false;
            }
            i = i + 1;
        }
        true
    }

    /// Tells whether no cell belongs to two ships.
    fn ships_apart(&self) -> (r: bool)
        ensures
            r == self@.ships_disjoint(),
    {
        let mut j: usize = 0;
        while j < self.ships.len()
            invariant
                0 <= j <= self.ships.len(),
                forall|a: int, b: int, p: Point|
                    0 <= a < b < j && #[trigger] self@.ships[a].pos.covers(p)
                        ==> !#[trigger] self@.ships[b].pos.covers(p),
            decreases self.ships.len() - j,
        {
            let mut i: usize = 0;
            while i < j
                invariant
                    0 <= i <= j < self.ships.len(),
                    forall|a: int, p: Point|
                        0 <= a < i && #[trigger] self@.ships[a].pos.covers(p)
                            ==> !self@.ships[j as int].pos.covers(p),
                decreases j - i,
            {
                assert(self.ships@[i as int]@ == self@.ships[i as int]);
                assert(self.ships@[j as int]@ == self@.ships[j as int]);
                if self.ships[i].pos.intersects(&self.ships[j].pos) {
                    let ghost p = choose|p: Point|
                        self@.ships[i as int].pos.covers(p) && self@.ships[j as int].pos.covers(p);
                    assert(self@.ships[i as int].pos.covers(p) && self@.ships[j as int].pos.covers(p));
                    return false;
                }
                assert forall|p: Point| #[trigger]
                    self@.ships[i as int].pos.covers(p) implies !self@.ships[j as int].pos.covers(p) by {
                    if self@.ships[j as int].pos.covers(p) {
                        assert(self@.ships[i as int].pos.overlaps(self@.ships[j as int].pos));
                    }
                }
                i = i + 1;
            }
            j = j + 1;
        }
        true
    }

    /// Tells whether the history holds distinct cells of the board.
    fn history_sound(&self) -> (r: bool)
        ensures
            r == (self@.impacts_distinct() && self@.impacts_in_bounds()),
    {
        let mut j: usize = 0;
        while j < self.impacts.len()
            invariant
                0 <= j <= self.impacts.len(),
                forall|k: int| 0 <= k < j ==> (#[trigger] self@.impacts[k]).coords.in_bounds(),
                forall|a: int, b: int|
                    0 <= a < b < j ==> (#[trigger] self@.impacts[a]).coords != (
                    #[trigger] self@.impacts[b]).coords,
            decreases self.impacts.len() - j,
        {
            if !self.impacts[j].coords.is_in_bounds() {
                assert(!self@.impacts[j as int].coords.in_bounds());
                return false;
            }
            let mut i: usize = 0;
            while i < j
                invariant
                    0 <= i <= j < self.impacts.len(),
                    forall|a: int|
                        0 <= a < i ==> (#[trigger] self@.impacts[a]).coords
                            != self@.impacts[j as int].coords,
                decreases j - i,
            {
                if self.impacts[i].coords.x == self.impacts[j].coords.x && self.impacts[i].coords.y
                    == self.impacts[j].coords.y {
                    assert(self@.impacts[i as int].coords == self@.impacts[j as int].coords);
                    return false;
                }
                i = i + 1;
            }
            j = j + 1;
        }
        true
    }

    /// Tells whether the board is as placement and play leave it.
    pub fn is_well_formed(&self) -> (r: bool)
        ensures
            r == self@.wf(),
    {
        self.ships_fit() && self.ships_apart() && self.history_sound()
    }

    /// Looks for a cell of the board that has not been struck: row by row
    /// from the top, in each row from the left.
    pub fn first_open_cell(&self) -> (found: Option<Point>)
        ensures
            found matches Some(p) ==> p.in_bounds() && !self@.struck(p) && forall|q: Point|
                #[trigger] q.in_bounds() && !self@.struck(q) ==> p.y < q.y || (p.y == q.y && p.x
                    <= q.x),
            found is None <==> !self@.has_open_cell(),
    {
        let mut y: i32 = 0;
        while y < BOARD_SIZE as i32
            invariant
                0 <= y <= BOARD_SIZE,
                forall|p: Point| #[trigger] p.in_bounds() && p.y < y ==> self@.struck(p),
            decreases BOARD_SIZE - y,
        {
            let mut x: i32 = 0;
            while x < BOARD_SIZE as i32
                invariant
                    0 <= x <= BOARD_SIZE,
                    0 <= y < BOARD_SIZE,
                    forall|p: Point| #[trigger] p.in_bounds() && p.y < y ==> self@.struck(p),
                    forall|p: Point| #[trigger] p.in_bounds() && p.y == y && p.x < x ==> self@.struck(p),
                decreases BOARD_SIZE - x,
            {
                let p = Point { x, y };
                if !self.already_struck(p) {
                    assert(p.in_bounds());
                    return Some(p);
                }
                x = x + 1;
            }
            y = y + 1;
        }
        None
    }

    /// Counts the strikes of the history: first those that hit, then all of them.
    pub fn hit_stats(&self) -> (stats: (i32, i32))
        requires
            self@.impacts.len() <= i32::MAX,
        ensures
            stats.0 == self@.hits(),
            stats.1 == self@.impacts.len(),
            0 <= stats.0 <= stats.1,
    {
        let mut hit_count: i32 = 0;
        let mut i: usize = 0;
        while i < self.impacts.len()
            invariant
                0 <= i <= self.impacts.len(),
                self.impacts@.len() <= i32::MAX,
                hit_count == count_hits(self.impacts@.take(i as int)),
                0 <= hit_count <= i,
            decreases self.impacts.len() - i,
        {
            assert(self.impacts@.take(i as int + 1).drop_last() =~= self.impacts@.take(i as int));
            if self.impacts[i].hit {
                hit_count = hit_count + 1;
            }
            i = i + 1;
        }
        assert(self.impacts@.take(i as int) =~= self.impacts@);
        (hit_count, self.impacts.len() as i32)
    }
}

/// Something that happens to a board in the course of a match.
pub enum BoardEvent {
    /// The opponent strikes at a cell of this board.
    Strike(Point),
    /// The owner enters a strike of its own into the history.
    Record(Impact),
}

impl BoardView {
    /// The board after one event.
    pub open spec fn after_event(self, event: BoardEvent) -> BoardView {
        match event {
            BoardEvent::Strike(p) => self.after_strike(p),
            BoardEvent::Record(impact) => self.recorded(impact),
        }
    }

    /// The board after a series of events, in their order.
    pub open spec fn after_events(self, events: Seq<BoardEvent>) -> BoardView
        decreases events.len(),
    {
        if events.len() == 0 {
            self
        } else {
            self.after_events(events.drop_last()).after_event(events.last())
        }
    }
}

/// `first_covering` finds a ship that covers the point and skips none that does.
pub proof fn lemma_first_covering(ships: Seq<ShipView>, p: Point, from: int)
    requires
        0 <= from <= ships.len(),
    ensures
        from <= first_covering(ships, p, from) <= ships.len(),
        first_covering(ships, p, from) < ships.len() ==> ships[first_covering(ships, p, from)].pos.covers(p),
        forall|j: int| from <= j < first_covering(ships, p, from) ==> !(#[trigger] ships[j]).pos.covers(p),
    decreases ships.len() - from,
{
    if from < ships.len() && !ships[from].pos.covers(p) {
        lemma_first_covering(ships, p, from + 1);
    }
}

/// A strike hits exactly when some ship covers the struck cell.
pub proof fn lemma_hit_iff_covered(board: BoardView, p: Point)
    ensures
        board.hit_by(p) <==> exists|i: int| 0 <= i < board.ships.len() && (#[trigger] board.ships[i]).pos.covers(p),
{
    lemma_first_covering(board.ships, p, 0);
    if board.hit_by(p) {
        let k = first_covering(board.ships, p, 0);
        assert(board.ships[k].pos.covers(p));
    }
}

/// A strike at a cell that no ship covers hits nothing and changes nothing.
pub proof fn lemma_strike_on_open_water(board: BoardView, p: Point)
    requires
        forall|i: int| 0 <= i < board.ships.len() ==> !(#[trigger] board.ships[i]).pos.covers(p),
    ensures
        !board.hit_by(p),
        board.after_strike(p) == board,
        board.after_strike(p).ships == board.ships,
{
    lemma_hit_iff_covered(board, p);
}

/// A strike changes at most one ship, and of that ship only the struck cell.
pub proof fn lemma_strike_changes_one_ship(board: BoardView, p: Point)
    ensures
        board.after_strike(p).ships.len() == board.ships.len(),
        board.after_strike(p).impacts == board.impacts,
        board.after_strike(p).occupied == board.occupied,
        forall|i: int|
            0 <= i < board.ships.len() && i != first_covering(board.ships, p, 0) ==> (
            #[trigger] board.after_strike(p).ships[i]) == board.ships[i],
        forall|i: int|
            0 <= i < board.ships.len() ==> (#[trigger] board.after_strike(p).ships[i]).pos
                == board.ships[i].pos && board.after_strike(p).ships[i].ship_type
                == board.ships[i].ship_type,
        board.hit_by(p) ==> board.after_strike(p).ships[first_covering(board.ships, p, 0)]
            == board.ships[first_covering(board.ships, p, 0)].after_hit(p),
{
    lemma_first_covering(board.ships, p, 0);
}

/// All ships are sunk exactly when no ship has a live cell.
pub proof fn lemma_all_sunk_iff_no_live_cell(board: BoardView)
    ensures
        board.all_sunk() <==> forall|i: int, k: int|
            0 <= i < board.ships.len() && 0 <= k < board.ships[i].health.len()
                ==> !#[trigger] board.ships[i].health[k],
{
    if board.all_sunk() {
        assert forall|i: int, k: int|
            0 <= i < board.ships.len() && 0 <= k < board.ships[i].health.len()
            implies !#[trigger] board.ships[i].health[k] by {
            assert(board.ships[i].sunk());
        }
    }
}

/// One live cell on one ship is enough for the fleet not to be sunk.
pub proof fn lemma_live_cell_keeps_fleet_afloat(board: BoardView, i: int, k: int)
    requires
        0 <= i < board.ships.len(),
        0 <= k < board.ships[i].health.len(),
        board.ships[i].health[k],
    ensures
        !board.all_sunk(),
{
    assert(!board.ships[i].sunk());
}

/// A recorded strike is found again, and recording loses nothing.
pub proof fn lemma_recorded_is_struck(board: BoardView, impact: Impact)
    ensures
        board.recorded(impact).struck(impact.coords),
        forall|p: Point| board.struck(p) ==> board.recorded(impact).struck(p),
        forall|p: Point| board.recorded(impact).struck(p) ==> board.struck(p) || p == impact.coords,
{
    let after = board.recorded(impact);
    if board.impacts.contains(impact) {
        let k = choose|k: int| 0 <= k < board.impacts.len() && board.impacts[k] == impact;
        assert(board.impacts[k].coords == impact.coords);
    } else {
        assert(after.impacts[board.impacts.len() as int].coords == impact.coords);
    }
    assert forall|p: Point| board.struck(p) implies after.struck(p) by {
        let k = choose|k: int| 0 <= k < board.impacts.len() && board.impacts[k].coords == p;
        assert(after.impacts[k].coords == p);
    }
    assert forall|p: Point| after.struck(p) implies board.struck(p) || p == impact.coords by {
        let k = choose|k: int| 0 <= k < after.impacts.len() && after.impacts[k].coords == p;
        if k < board.impacts.len() {
            assert(board.impacts[k].coords == p);
        }
    }
}

/// Once a cell has been struck it stays struck, whatever happens to the
/// board afterwards: the history only grows.
pub proof fn lemma_history_only_grows(board: BoardView, events: Seq<BoardEvent>, p: Point)
    requires
        board.struck(p),
    ensures
        board.after_events(events).struck(p),
        board.after_events(events).impacts.len() >= board.impacts.len(),
    decreases events.len(),
{
    if events.len() > 0 {
        lemma_history_only_grows(board, events.drop_last(), p);
        let before = board.after_events(events.drop_last());
        match events.last() {
            BoardEvent::Strike(q) => {
                lemma_strike_changes_one_ship(before, q);
            },
            BoardEvent::Record(impact) => {
                lemma_recorded_is_struck(before, impact);
            },
        }
    }
}

/// There are no more hits than strikes.
pub proof fn lemma_hits_at_most_total(impacts: Seq<Impact>)
    ensures
        count_hits(impacts) <= impacts.len(),
    decreases impacts.len(),
{
    if impacts.len() > 0 {
        lemma_hits_at_most_total(impacts.drop_last());
    }
}

/// Where no two records share a coordinate, the history has as many
/// records as there are struck cells.
pub proof fn lemma_total_counts_struck_cells(board: BoardView)
    requires
        board.impacts_distinct(),
    ensures
        board.struck_points().finite(),
        board.struck_points().len() == board.impacts.len(),
{
    let coords = Seq::new(board.impacts.len(), |i: int| board.impacts[i].coords);
    assert(coords.no_duplicates());
    assert(coords.to_set() =~= board.struck_points()) by {
        assert forall|p: Point| coords.to_set().contains(p) <==> board.struck_points().contains(p) by {
            if coords.contains(p) {
                let k = choose|k: int| 0 <= k < coords.len() && coords[k] == p;
                assert(board.impacts[k].coords == p);
            }
            if board.struck(p) {
                let k = choose|k: int| 0 <= k < board.impacts.len() && board.impacts[k].coords == p;
                assert(coords[k] == p);
            }
        }
    }
    coords.unique_seq_to_set();
    vstd::seq_lib::seq_to_set_is_finite(coords);
}

/// A history of distinct cells of the board has at most as many records as
/// the board has cells.
pub proof fn lemma_history_fits_board(board: BoardView)
    requires
        board.impacts_distinct(),
        board.impacts_in_bounds(),
    ensures
        board.impacts.len() <= BOARD_SIZE * BOARD_SIZE,
{
    let codes = Seq::new(
        board.impacts.len(),
        |i: int| board.impacts[i].coords.y * BOARD_SIZE + board.impacts[i].coords.x,
    );
    assert(codes.no_duplicates()) by {
        assert forall|i: int, j: int|
            0 <= i < codes.len() && 0 <= j < codes.len() && i != j implies codes[i] != codes[j] by {
            assert(board.impacts[i].coords.in_bounds());
            assert(board.impacts[j].coords.in_bounds());
            if i < j {
                assert(board.impacts[i].coords != board.impacts[j].coords);
            } else {
                assert(board.impacts[j].coords != board.impacts[i].coords);
            }
        }
    }
    let all = vstd::set_lib::set_int_range(0, 100);
    vstd::set_lib::lemma_int_range(0, 100);
    assert(codes.to_set().subset_of(all)) by {
        assert forall|c: int| codes.to_set().contains(c) implies all.contains(c) by {
            let k = choose|k: int| 0 <= k < codes.len() && codes[k] == c;
            assert(board.impacts[k].coords.in_bounds());
        }
    }
    vstd::set_lib::lemma_len_subset(codes.to_set(), all);
    codes.unique_seq_to_set();
}

/// A strike against a board keeps it well-formed.
pub proof fn lemma_strike_keeps_wf(board: BoardView, p: Point)
    requires
        board.wf(),
    ensures
        board.after_strike(p).wf(),
{
    lemma_strike_changes_one_ship(board, p);
    let after = board.after_strike(p);
    assert forall|i: int| 0 <= i < after.ships.len() implies (#[trigger] after.ships[i]).wf() by {
        assert(board.ships[i].wf());
    }
    assert forall|i: int| 0 <= i < after.ships.len() implies (#[trigger] after.ships[i]).pos.in_bounds() by {
        assert(board.ships[i].pos.in_bounds());
    }
    assert forall|i: int, j: int, q: Point|
        0 <= i < j < after.ships.len() && #[trigger] after.ships[i].pos.covers(q)
        implies !#[trigger] after.ships[j].pos.covers(q) by {
        assert(board.ships[i].pos.covers(q));
        assert(after.ships[j].pos == board.ships[j].pos);
    }
}

/// Recording a strike at a cell of the board that had not been struck keeps
/// the board well-formed.
pub proof fn lemma_record_keeps_wf(board: BoardView, impact: Impact)
    requires
        board.wf(),
        impact.coords.in_bounds(),
        !board.struck(impact.coords),
    ensures
        board.recorded(impact).wf(),
        board.recorded(impact).impacts == board.impacts.push(impact),
{
    if board.impacts.contains(impact) {
        let k = choose|k: int| 0 <= k < board.impacts.len() && board.impacts[k] == impact;
        assert(board.impacts[k].coords == impact.coords);
    }
    let after = board.recorded(impact);
    assert forall|i: int, j: int| 0 <= i < j < after.impacts.len() implies (
    #[trigger] after.impacts[i]).coords != (#[trigger] after.impacts[j]).coords by {
        if j < board.impacts.len() {
            assert(board.impacts[i].coords != board.impacts[j].coords);
        } else {
            assert(board.impacts[i].coords != impact.coords);
        }
    }
    assert forall|i: int| 0 <= i < after.impacts.len() implies (
    #[trigger] after.impacts[i]).coords.in_bounds() by {
        if i < board.impacts.len() {
            assert(board.impacts[i].coords.in_bounds());
        }
    }
}

} // verus!
