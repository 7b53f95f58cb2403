//! The match: two combatants who strike in turn until a fleet is sunk.

use vstd::prelude::*;

pub use crate::board::{Board, Impact};
pub use crate::geometry::{Point, Position};
pub use crate::placement::{auto_place_ships, place_ship};
pub use crate::ship::{Ship, ShipType};

use crate::board::{
    first_covering, lemma_first_covering, lemma_history_fits_board, lemma_record_keeps_wf,
    lemma_strike_changes_one_ship, lemma_strike_keeps_wf, BoardView,
};
use crate::geometry::lemma_cells_cover;
use crate::player::{attack_outcome, attacker_after, defender_after, Player};

verus! {

/// What a match knows of a combatant.
pub struct PlayerView {
    pub board: BoardView,
    pub number: int,
    pub automated: bool,
}

/// What a `GameState` stands for.
pub struct GameView {
    pub player1: PlayerView,
    pub player2: PlayerView,
    /// The next half-turn is the second combatant's.
    pub second_to_move: bool,
}

/// What a call of `GameState::advance` has come to.
#[derive(Debug, Clone, Copy, PartialEq, Eq)]
pub enum Step {
    /// A fleet is sunk. Nothing was done. `winner` is 1 or 2; `hits` and
    /// `total` count the winner's strikes.
    GameOver { winner: i32, hits: i32, total: i32 },
    /// The combatant whose turn it is waits for a cell to strike, and none
    /// was given. Nothing was done.
    NeedsCoordinates { player: i32 },
    /// The combatant whose turn it is has struck the given cell before.
    /// Nothing was done, and the turn is still that combatant's.
    Repeated { player: i32 },
    /// The combatant whose turn it was has struck, and the turn has passed.
    Struck { player: i32, impact: Impact },
}

/// Every strike in the attacker's history has been resolved against the
/// defender's ships: where the attacker has struck, no ship has a live cell.
pub open spec fn strikes_resolved(attacker: BoardView, defender: BoardView) -> bool {
    forall|i: int, j: int|
        0 <= i < attacker.impacts.len() && 0 <= j < defender.ships.len() ==> !(
        #[trigger] defender.ships[j]).alive_at((#[trigger] attacker.impacts[i]).coords)
}

impl GameView {
    /// Both boards are well-formed, and each history agrees with the state
    /// of the ships that it was made against.
    pub open spec fn wf(self) -> bool {
        &&& self.player1.board.wf()
        &&& self.player2.board.wf()
        &&& strikes_resolved(self.player1.board, self.player2.board)
        &&& strikes_resolved(self.player2.board, self.player1.board)
    }

    /// One of the fleets is sunk.
    pub open spec fn game_over(self) -> bool {
        self.player1.board.all_sunk() || self.player2.board.all_sunk()
    }

    /// The side that has won once the game is over. The first board is
    /// looked at first: where both fleets are sunk, the second side wins.
    pub open spec fn winner(self) -> int {
        if self.player1.board.all_sunk() {
            2
        } else {
            1
        }
    }

    /// The board of the side that has won. Its history holds the winner's
    /// strikes.
    pub open spec fn winner_board(self) -> BoardView {
        if self.winner() == 2 {
            self.player2.board
        } else {
            self.player1.board
        }
    }

    /// The side whose half-turn is next: 1 or 2.
    pub open spec fn active(self) -> int {
        if self.second_to_move {
            2
        } else {
            1
        }
    }

    /// The combatant whose half-turn is next.
    pub open spec fn attacker(self) -> PlayerView {
        if self.second_to_move {
            self.player2
        } else {
            self.player1
        }
    }

    /// The combatant whose board is struck next.
    pub open spec fn defender(self) -> PlayerView {
        if self.second_to_move {
            self.player1
        } else {
            self.player2
        }
    }

    /// The match after the active combatant has struck at `p`, a cell that
    /// it had not struck before: the strike is resolved against the
    /// defender's ships, entered into the attacker's history, and the turn
    /// has passed.
    pub open spec fn after_attack(self, p: Point) -> GameView {
        let attacker = PlayerView {
            board: attacker_after(self.attacker().board, self.defender().board, p),
            ..self.attacker()
        };
        let defender = PlayerView {
            board: defender_after(self.attacker().board, self.defender().board, p),
            ..self.defender()
        };
        if self.second_to_move {
            GameView { player1: defender, player2: attacker, second_to_move: false }
        } else {
            GameView { player1: attacker, player2: defender, second_to_move: true }
        }
    }
}

/// As long as the defender has a ship afloat, the attacker has a cell of the
/// board left to strike.
pub proof fn lemma_afloat_means_open_cell(attacker: BoardView, defender: BoardView)
    requires
        defender.ships_wf(),
        defender.ships_in_bounds(),
        strikes_resolved(attacker, defender),
        !defender.all_sunk(),
    ensures
        attacker.has_open_cell(),
{
    let j = choose|j: int| 0 <= j < defender.ships.len() && !(#[trigger] defender.ships[j]).sunk();
    let ship = defender.ships[j];
    let k = choose|k: int| 0 <= k < ship.health.len() && ship.health[k];
    assert(ship.wf() && ship.pos.in_bounds());
    lemma_cells_cover(ship.pos);
    let c = ship.pos.cell(k);
    assert(ship.pos.covers(c) && ship.pos.index_of(c) == k);
    assert(ship.alive_at(c));
    assert(c.in_bounds());
    if attacker.struck(c) {
        let i = choose|i: int| 0 <= i < attacker.impacts.len() && (#[trigger] attacker.impacts[i]).coords
            == c;
        assert(!defender.ships[j].alive_at(attacker.impacts[i].coords));
    }
}

/// Histories that hold nothing agree with any fleet.
pub proof fn lemma_fresh_boards_agree(attacker: BoardView, defender: BoardView)
    requires
        attacker.impacts.len() == 0,
    ensures
        strikes_resolved(attacker, defender),
{
}

/// An attack at a cell of the board keeps the two boards well-formed and
/// their histories in agreement with the ships.
pub proof fn lemma_attack_keeps_wf(attacker: BoardView, defender: BoardView, p: Point)
    requires
        attacker.wf(),
        defender.wf(),
        strikes_resolved(attacker, defender),
        strikes_resolved(defender, attacker),
        p.in_bounds(),
    ensures
        attacker_after(attacker, defender, p).wf(),
        defender_after(attacker, defender, p).wf(),
        strikes_resolved(attacker_after(attacker, defender, p), defender_after(attacker, defender, p)),
        strikes_resolved(defender_after(attacker, defender, p), attacker_after(attacker, defender, p)),
{
    if !attacker.struck(p) {
        let impact = Impact { coords: p, hit: defender.hit_by(p) };
        let a2 = attacker.recorded(impact);
        let d2 = defender.after_strike(p);
        lemma_record_keeps_wf(attacker, impact);
        lemma_strike_keeps_wf(defender, p);
        lemma_strike_changes_one_ship(defender, p);
        lemma_first_covering(defender.ships, p, 0);
        let k = first_covering(defender.ships, p, 0);
        assert forall|i: int, j: int| 0 <= i < a2.impacts.len() && 0 <= j < d2.ships.len() implies !(
        #[trigger] d2.ships[j]).alive_at((#[trigger] a2.impacts[i]).coords) by {
            let q = a2.impacts[i].coords;
            let before = defender.ships[j];
            assert(before.wf());
            lemma_cells_cover(before.pos);
            if i < attacker.impacts.len() {
                assert(!defender.ships[j].alive_at(attacker.impacts[i].coords));
            } else {
                assert(q == p);
                if before.pos.covers(p) && j != k {
                    assert(defender.ships[k].pos.covers(p));
                    if j < k {
                        assert(!defender.ships[k].pos.covers(p));
                    } else {
                        assert(!defender.ships[j].pos.covers(p));
                    }
                }
            }
        }
        assert forall|i: int, j: int| 0 <= i < d2.impacts.len() && 0 <= j < a2.ships.len() implies !(
        #[trigger] a2.ships[j]).alive_at((#[trigger] d2.impacts[i]).coords) by {
            assert(!attacker.ships[j].alive_at(defender.impacts[i].coords));
        }
    }
}

/// A match between two combatants. The first combatant strikes first, and
/// the two strike in turn from then on.
pub struct GameState<P1: Player, P2: Player> {
    player1: P1,
    player2: P2,
    second_to_move: bool,
}

impl<P1: Player, P2: Player> View for GameState<P1, P2> {
    type V = GameView;

    closed spec fn view(&self) -> GameView {
        GameView {
            player1: PlayerView {
                board: self.player1.board(),
                number: self.player1.number(),
                automated: self.player1.automated(),
            },
            player2: PlayerView {
                board: self.player2.board(),
                number: self.player2.number(),
                automated: self.player2.automated(),
            },
            second_to_move: self.second_to_move,
        }
    }
}

/// What one half-turn has come to.
enum HalfTurn {
    NeedsCoordinates,
    Repeated,
    Struck(Impact),
}

/// One half-turn of `attacker` against `defender`.
fn half_turn<A: Player, D: Player>(attacker: &mut A, defender: &mut D, input: Option<Point>) -> (outcome:
    HalfTurn)
    requires
        old(attacker).board().wf(),
        old(defender).board().wf(),
        strikes_resolved(old(attacker).board(), old(defender).board()),
        strikes_resolved(old(defender).board(), old(attacker).board()),
        !old(defender).board().all_sunk(),
        input matches Some(p) ==> p.in_bounds(),
    ensures
        final(attacker).number() == old(attacker).number(),
        final(attacker).automated() == old(attacker).automated(),
        final(defender).number() == old(defender).number(),
        final(defender).automated() == old(defender).automated(),
        final(attacker).board().wf(),
        final(defender).board().wf(),
        strikes_resolved(final(attacker).board(), final(defender).board()),
        strikes_resolved(final(defender).board(), final(attacker).board()),
        match outcome {
            HalfTurn::NeedsCoordinates => {
                &&& !old(attacker).automated()
                &&& input is None
                &&& final(attacker).board() == old(attacker).board()
                &&& final(defender).board() == old(defender).board()
            },
            HalfTurn::Repeated => {
                &&& !old(attacker).automated()
                &&& input matches Some(p)
                &&& old(attacker).board().struck(p)
                &&& final(attacker).board() == old(attacker).board()
                &&& final(defender).board() == old(defender).board()
            },
            HalfTurn::Struck(impact) => {
                &&& impact.coords.in_bounds()
                &&& !old(attacker).board().struck(impact.coords)
                &&& !old(attacker).automated() ==> input == Some(impact.coords)
                &&& Some(impact) == attack_outcome(
                    old(attacker).board(),
                    old(defender).board(),
                    impact.coords,
                )
                &&& final(attacker).board() == attacker_after(
                    old(attacker).board(),
                    old(defender).board(),
                    impact.coords,
                )
                &&& final(defender).board() == defender_after(
                    old(attacker).board(),
                    old(defender).board(),
                    impact.coords,
                )
            },
        },
{
    proof {
        lemma_afloat_means_open_cell(attacker.board(), defender.board());
    }
    let picked = attacker.select_target();
    let strike_coords = match picked {
        Some(p) => p,
        None => match input {
            Some(p) => p,
            None => {
                return HalfTurn::NeedsCoordinates;
            },
        },
    };
    proof {
        lemma_attack_keeps_wf(attacker.board(), defender.board(), strike_coords);
    }
    match attacker.attack(defender.get_board_mut(), strike_coords) {
        Some(impact) => HalfTurn::Struck(impact),
        None => HalfTurn::Repeated,
    }
}

impl<P1: Player, P2: Player> GameState<P1, P2> {
    /// A match between two combatants whose boards are as placement left
    /// them, or as an earlier part of this match between the two left them.
    pub fn new(player1: P1, player2: P2) -> (game: GameState<P1, P2>)
        requires
            player1.board().wf(),
            player2.board().wf(),
            strikes_resolved(player1.board(), player2.board()),
            strikes_resolved(player2.board(), player1.board()),
        ensures
            game@.wf(),
            game@.player1 == (PlayerView {
                board: player1.board(),
                number: player1.number(),
                automated: player1.automated(),
            }),
            game@.player2 == (PlayerView {
                board: player2.board(),
                number: player2.number(),
                automated: player2.automated(),
            }),
            !game@.second_to_move,
    {
        GameState { player1, player2, second_to_move: false }
    }

    /// Tells whether one of the fleets is sunk.
    pub fn game_over(&self) -> (over: bool)
        ensures
            over == self@.game_over(),
    {
        self.player1.get_board().all_ships_sunk() || self.player2.get_board().all_ships_sunk()
    }

    /// The side that has won, once a fleet is sunk: 1 or 2.
    pub fn winner(&self) -> (side: Option<i32>)
        ensures
            side is Some <==> self@.game_over(),
            side matches Some(n) ==> n == self@.winner(),
    {
        if self.player1.get_board().all_ships_sunk() {
            Some(2)
        } else if self.player2.get_board().all_ships_sunk() {
            Some(1)
        } else {
            None
        }
    }

    /// The side whose half-turn is next: 1 or 2.
    pub fn active_player(&self) -> (side: i32)
        ensures
            side == self@.active(),
    {
        if self.second_to_move {
            2
        } else {
            1
        }
    }

    /// The first combatant.
    pub fn player1(&self) -> (player: &P1)
        ensures
            player.board() == self@.player1.board,
            player.number() == self@.player1.number,
            player.automated() == self@.player1.automated,
    {
        &self.player1
    }

    /// The second combatant.
    pub fn player2(&self) -> (player: &P2)
        ensures
            player.board() == self@.player2.board,
            player.number() == self@.player2.number,
            player.automated() == self@.player2.automated,
    {
        &self.player2
    }

    /// Takes the match one step further.
    ///
    /// Where a fleet is sunk the match is over, and the step reports the
    /// winner. Otherwise the combatant whose turn it is attacks once: at
    /// the cell it picks, if it picks by itself, and else at `input`. An
    /// attack at a cell it had not struck before passes the turn to the
    /// other side. Without a cell to strike, or with one that it has struck
    /// before, the combatant keeps the turn and the match stays as it is.
    pub fn advance(&mut self, input: Option<Point>) -> (step: Step)
        requires
            old(self)@.wf(),
            input matches Some(p) ==> p.in_bounds(),
        ensures
            final(self)@.wf(),
            match step {
                Step::GameOver { winner, hits, total } => {
                    &&& old(self)@.game_over()
                    &&& final(self)@ == old(self)@
                    &&& winner == old(self)@.winner()
                    &&& hits == old(self)@.winner_board().hits()
                    &&& total == old(self)@.winner_board().impacts.len()
                },
                Step::NeedsCoordinates { player } => {
                    &&& !old(self)@.game_over()
                    &&& !old(self)@.attacker().automated
                    &&& input is None
                    &&& player == old(self)@.active()
                    &&& final(self)@ == old(self)@
                },
                Step::Repeated { player } => {
                    &&& !old(self)@.game_over()
                    &&& !old(self)@.attacker().automated
                    &&& input matches Some(p)
                    &&& old(self)@.attacker().board.struck(p)
                    &&& player == old(self)@.active()
                    &&& final(self)@ == old(self)@
                },
                Step::Struck { player, impact } => {
                    &&& !old(self)@.game_over()
                    &&& player == old(self)@.active()
                    &&& impact.coords.in_bounds()
                    &&& !old(self)@.attacker().board.struck(impact.coords)
                    &&& !old(self)@.attacker().automated ==> input == Some(impact.coords)
                    &&& impact.hit == old(self)@.defender().board.hit_by(impact.coords)
                    &&& final(self)@ == old(self)@.after_attack(impact.coords)
                },
            },
    {
        let player = self.active_player();
        match self.winner() {
            Some(winner) => {
                proof {
                    lemma_history_fits_board(self@.player1.board);
                    lemma_history_fits_board(self@.player2.board);
                }
                let stats = if winner == 2 {
                    self.player2.hit_stats()
                } else {
                    self.player1.hit_stats()
                };
                return Step::GameOver { winner, hits: stats.0, total: stats.1 };
            },
            None => {},
        }
        let outcome = if self.second_to_move {
            half_turn(&mut self.player2, &mut self.player1, input)
        } else {
            half_turn(&mut self.player1, &mut self.player2, input)
        };
        match outcome {
            HalfTurn::NeedsCoordinates => Step::NeedsCoordinates { player },
            HalfTurn::Repeated => Step::Repeated { player },
            HalfTurn::Struck(impact) => {
                self.second_to_move = !self.second_to_move;
                Step::Struck { player, impact }
            },
        }
    }
}

} // verus!
