use vstd::prelude::*;

use crate::geometry::{lemma_cells_cover, Point, Position};

verus! {

/// The five kinds of ship. The kind fixes the ship's length.
#[derive(Debug, Clone, Copy, PartialEq, Eq, Hash, Structural)]
pub enum ShipType {
    Submarine,
    Destroyer,
    Cruiser,
    Battleship,
    Carrier,
}

impl ShipType {
    /// Number of cells that a ship of this kind occupies.
    pub open spec fn len(self) -> nat {
        match self {
            ShipType::Submarine => 1,
            ShipType::Destroyer => 2,
            ShipType::Cruiser => 3,
            ShipType::Battleship => 4,
            ShipType::Carrier => 5,
        }
    }

    /// The kinds in the order in which a fleet is placed: shortest first.
    pub open spec fn fleet() -> Seq<ShipType> {
        seq![
            ShipType::Submarine,
            ShipType::Destroyer,
            ShipType::Cruiser,
            ShipType::Battleship,
            ShipType::Carrier,
        ]
    }

    /// Number of cells that a ship of this kind occupies.
    pub fn length(&self) -> (n: i32)
        ensures
            n == self.len(),
    {
        match self {
            ShipType::Submarine => 1,
            ShipType::Destroyer => 2,
            ShipType::Cruiser => 3,
            ShipType::Battleship => 4,
            ShipType::Carrier => 5,
        }
    }

    /// Every kind once, in placement order.
    pub fn all() -> (kinds: Vec<ShipType>)
        ensures
            kinds@ == ShipType::fleet(),
    {
        let mut kinds: Vec<ShipType> = Vec::new();
        kinds.push(ShipType::Submarine);
        kinds.push(ShipType::Destroyer);
        kinds.push(ShipType::Cruiser);
        kinds.push(ShipType::Battleship);
        kinds.push(ShipType::Carrier);
        assert(kinds@ =~= ShipType::fleet());
        kinds
    }

    /// The kind's name as it is shown to players.
    pub fn to_string(&self) -> (name: String)
        ensures
            name@ == match *self {
                ShipType::Submarine => "Submarine"@,
                ShipType::Destroyer => "Destroyer"@,
                ShipType::Cruiser => "Cruiser"@,
                ShipType::Battleship => "Battleship"@,
                ShipType::Carrier => "Carrier"@,
            },
    {
        match self {
            ShipType::Submarine => "Submarine".to_owned(),
            ShipType::Destroyer => "Destroyer".to_owned(),
            ShipType::Cruiser => "Cruiser".to_owned(),
            ShipType::Battleship => "Battleship".to_owned(),
            ShipType::Carrier => "Carrier".to_owned(),
        }
    }
}

/// A ship on a board: its kind, where it lies, and for each of its cells
/// whether that cell is still alive. `health[i]` belongs to the `i`-th cell
/// of `pos.coordinates()`.
#[derive(Debug, Clone, PartialEq, Eq, Hash)]
pub struct Ship {
    pub health: Vec<bool>,
    pub pos: Position,
    pub ship_type: ShipType,
}

/// What a `Ship` stands for.
pub struct ShipView {
    pub health: Seq<bool>,
    pub pos: Position,
    pub ship_type: ShipType,
}

impl View for Ship {
    type V = ShipView;

    open spec fn view(&self) -> ShipView {
        ShipView { health: self.health@, pos: self.pos, ship_type: self.ship_type }
    }
}

impl ShipView {
    /// There is one health entry for each cell, and as many cells as the
    /// kind prescribes.
    pub open spec fn wf(self) -> bool {
        &&& self.health.len() == self.pos.len()
        &&& self.pos.len() == self.ship_type.len()
    }

    /// No cell is alive.
    pub open spec fn sunk(self) -> bool {
        forall|i: int| 0 <= i < self.health.len() ==> !self.health[i]
    }

    /// The cell at `p` belongs to the ship and is still alive.
    pub open spec fn alive_at(self, p: Point) -> bool {
        self.pos.covers(p) && self.health[self.pos.index_of(p)]
    }

    /// A newly placed ship: every cell alive.
    pub open spec fn fresh(ship_type: ShipType, pos: Position) -> ShipView {
        ShipView { health: Seq::new(ship_type.len(), |i: int| true), pos, ship_type }
    }

    /// The ship after a strike at `p`: the cell at `p` is dead if the ship
    /// covers `p`, and nothing has changed if it does not.
    pub open spec fn after_hit(self, p: Point) -> ShipView {
        if self.pos.covers(p) {
            ShipView { health: self.health.update(self.pos.index_of(p), false), ..self }
        } else {
            self
        }
    }

    /// The ship after the strikes `shots`, in their order.
    pub open spec fn after_hits(self, shots: Seq<Point>) -> ShipView
        decreases shots.len(),
    {
        if shots.len() == 0 {
            self
        } else {
            self.after_hits(shots.drop_last()).after_hit(shots.last())
        }
    }
}

impl Ship {
    /// A ship of the given kind at `pos`, with every cell alive.
    pub fn new(ship_type: ShipType, pos: Position) -> (ship: Ship)
        ensures
            ship@ == ShipView::fresh(ship_type, pos),
    {
        let n = ship_type.length();
        let mut health: Vec<bool> = Vec::new();
        let mut i: i32 = 0;
        while i < n
            invariant
                0 <= i <= n,
                n == ship_type.len(),
                health@ == Seq::new(i as nat, |k: int| true),
            decreases n - i,
        {
            health.push(true);
            i = i + 1;
            assert(health@ =~= Seq::new(i as nat, |k: int| true));
        }
        Ship { health, pos, ship_type }
    }

    /// Tells whether the ship has no cell left alive.
    pub fn sunk(&self) -> (r: bool)
        ensures
            r == self@.sunk(),
    {
        let mut i: usize = 0;
        while i < self.health.len()
            invariant
                0 <= i <= self.health.len(),
                forall|k: int| 0 <= k < i ==> !self.health@[k],
            decreases self.health.len() - i,
        {
            if self.health[i] {
                assert(self@.health[i as int]);
                return false;
            }
            i = i + 1;
        }
        true
    }

    /// Resolves a strike at `impact_point` against this ship. Where the point
    /// is one of the ship's cells, that cell is marked dead and the result is
    /// `true`, also when the cell was dead already. Otherwise the ship is
    /// left as it was and the result is `false`.
    pub fn hit(&mut self, impact_point: &Point) -> (r: bool)
        requires
            old(self)@.wf(),
        ensures
            r == old(self)@.pos.covers(*impact_point),
            final(self)@ == old(self)@.after_hit(*impact_point),
            !r ==> final(self)@ == old(self)@,
    {
        let coords = self.pos.coordinates();
        proof {
            lemma_cells_cover(self.pos);
        }
        let mut i: usize = 0;
        while i < coords.len()
            invariant
                0 <= i <= coords.len(),
                coords@ == self.pos.cells(),
                *self == *old(self),
                self@.wf(),
                forall|k: int| 0 <= k < i ==> coords@[k] != *impact_point,
                forall|k: int|
                    0 <= k < self.pos.len() ==> self.pos.covers(#[trigger] self.pos.cell(k))
                        && self.pos.index_of(self.pos.cell(k)) == k,
                forall|p: Point| #[trigger]
                    self.pos.covers(p) ==> 0 <= self.pos.index_of(p) < self.pos.len()
                        && self.pos.cell(self.pos.index_of(p)) == p,
            decreases coords.len() - i,
        {
            if coords[i].x == impact_point.x && coords[i].y == impact_point.y {
                assert(coords@[i as int] == self.pos.cell(i as int));
                assert(self.pos.cell(i as int) == *impact_point);
                self.health[i] = false;
                assert(self@.health =~= old(self)@.health.update(i as int, false));
                return true;
            }
            i = i + 1;
        }
        assert(!self.pos.covers(*impact_point)) by {
            if self.pos.covers(*impact_point) {
                let k = self.pos.index_of(*impact_point);
                assert(coords@[k] == self.pos.cell(k));
            }
        }
        false
    }
}

/// A strike that misses the ship leaves it as it was: every health entry,
/// and with them whether the ship is sunk.
pub proof fn lemma_miss_changes_nothing(ship: ShipView, p: Point)
    requires
        !ship.pos.covers(p),
    ensures
        ship.after_hit(p) == ship,
        ship.after_hit(p).health == ship.health,
        ship.after_hit(p).sunk() == ship.sunk(),
{
}

/// Strikes change neither a ship's place nor its kind nor the number of its
/// health entries, and a dead cell stays dead.
pub proof fn lemma_hits_only_kill(ship: ShipView, shots: Seq<Point>)
    requires
        ship.wf(),
    ensures
        ship.after_hits(shots).wf(),
        ship.after_hits(shots).pos == ship.pos,
        ship.after_hits(shots).ship_type == ship.ship_type,
        forall|i: int| 0 <= i < ship.health.len() && !ship.health[i] ==> !ship.after_hits(shots).health[i],
    decreases shots.len(),
{
    if shots.len() > 0 {
        lemma_hits_only_kill(ship, shots.drop_last());
        lemma_cells_cover(ship.pos);
    }
}

/// After a series of strikes, the cell at every struck point of the ship is
/// dead.
pub proof fn lemma_struck_cells_are_dead(ship: ShipView, shots: Seq<Point>, k: int)
    requires
        ship.wf(),
        0 <= k < shots.len(),
        ship.pos.covers(shots[k]),
    ensures
        !ship.after_hits(shots).health[ship.pos.index_of(shots[k])],
    decreases shots.len(),
{
    lemma_cells_cover(ship.pos);
    let before = ship.after_hits(shots.drop_last());
    lemma_hits_only_kill(ship, shots.drop_last());
    if k < shots.len() - 1 {
        lemma_struck_cells_are_dead(ship, shots.drop_last(), k);
        assert(shots.drop_last()[k] == shots[k]);
    }
}

/// A ship is sunk once each of its cells has been struck, in whatever order
/// and among whatever other strikes, and whatever its health was before.
pub proof fn lemma_all_cells_hit_sinks(ship: ShipView, shots: Seq<Point>)
    requires
        ship.wf(),
        forall|i: int| 0 <= i < ship.pos.len() ==> shots.contains(#[trigger] ship.pos.cell(i)),
    ensures
        ship.after_hits(shots).sunk(),
{
    lemma_cells_cover(ship.pos);
    lemma_hits_only_kill(ship, shots);
    let after = ship.after_hits(shots);
    assert forall|i: int| 0 <= i < after.health.len() implies !after.health[i] by {
        let c = ship.pos.cell(i);
        assert(shots.contains(c));
        let k = choose|k: int| 0 <= k < shots.len() && shots[k] == c;
        lemma_struck_cells_are_dead(ship, shots, k);
    }
}

/// Striking the cells of a ship one after the other, as `coordinates()`
/// lists them, sinks it.
pub proof fn lemma_hitting_every_coordinate_sinks(ship: ShipView)
    requires
        ship.wf(),
    ensures
        ship.after_hits(ship.pos.cells()).sunk(),
{
    assert forall|i: int| 0 <= i < ship.pos.len() implies ship.pos.cells().contains(
        #[trigger] ship.pos.cell(i),
    ) by {
        assert(ship.pos.cells()[i] == ship.pos.cell(i));
    }
    lemma_all_cells_hit_sinks(ship, ship.pos.cells());
}

} // verus!
