use vstd::prelude::*;

use crate::board::{Board, BoardView, Impact};
use crate::enums::BOARD_SIZE;
use crate::geometry::Point;
use crate::rng::{RandomSource, ThreadSource, DRAW_LIMIT};

verus! {

/// The way in which a combatant that plays by itself picks the cell to
/// strike next. It is shown the combatant's own board, whose history says
/// which cells have been tried.
pub trait TargetingAlgorithm {
    /// Picks a cell of the board that has not been struck yet. There must be
    /// one.
    fn target(&mut self, board: &Board) -> (p: Point)
        requires
            board@.has_open_cell(),
        ensures
            p.in_bounds(),
            !board@.struck(p),
    ;
}

/// Picks every cell of the board with the same chance and draws again while
/// the cell drawn has been struck before. The fuller the history, the more
/// draws it takes.
pub struct RandomSelect;

impl RandomSelect {
    /// Judges one draw: the cell `(x, y)` is taken if it has not been struck,
    /// and otherwise another draw is due.
    pub fn consider(board: &Board, x: i32, y: i32) -> (taken: Option<Point>)
        ensures
            taken == if board@.struck(Point { x, y }) {
                None
            } else {
                Some(Point { x, y })
            },
    {
        let strike_coords = Point { x, y };
        if !board.already_struck(strike_coords) {
            Some(strike_coords)
        } else {
            None
        }
    }

    /// Picks a cell of the board that has not been struck yet, by the draws
    /// of `source`: a column and a row are drawn, and drawn again while the
    /// cell has been struck. After `DRAW_LIMIT` draws in vain the first open
    /// cell in the order of `Board::first_open_cell` is returned.
    pub fn target_from<S: RandomSource>(source: &mut S, board: &Board) -> (p: Point)
        requires
            board@.has_open_cell(),
        ensures
            p.in_bounds(),
            !board@.struck(p),
    {
        let mut draws: u32 = 0;
        while draws < DRAW_LIMIT
            invariant
                0 <= draws <= DRAW_LIMIT,
            decreases DRAW_LIMIT - draws,
        {
            let x = source.below(BOARD_SIZE as i32);
            let y = source.below(BOARD_SIZE as i32);
            match RandomSelect::consider(board, x, y) {
                Some(strike_coords) => {
                    return strike_coords;
                },
                None => {},
            }
            draws = draws + 1;
        }
        let found = board.first_open_cell();
        found.unwrap()
    }
}

impl TargetingAlgorithm for RandomSelect {
    /// The draws are those of the calling thread's generator: see
    /// `RandomSelect::target_from`.
    fn target(&mut self, board: &Board) -> (p: Point) {
        let mut source = ThreadSource::new();
        RandomSelect::target_from(&mut source, board)
    }
}

/// One side of a match. A combatant owns its board for good; the
/// opponent's board it sees only while it attacks.
pub trait Player {
    /// The combatant's own board.
    spec fn board(&self) -> BoardView;

    /// The number under which the combatant plays.
    spec fn number(&self) -> int;

    /// The combatant picks its targets by itself.
    spec fn automated(&self) -> bool;

    /// The number under which the combatant plays.
    fn player_number(&self) -> (n: i32)
        ensures
            n == self.number(),
    ;

    /// Tells whether the combatant picks its targets by itself.
    fn is_ai(&self) -> (automated: bool)
        ensures
            automated == self.automated(),
    ;

    /// The combatant's own board.
    fn get_board(&self) -> (board: &Board)
        ensures
            board@ == self.board(),
    ;

    /// The combatant's own board, to change it. What the board is when the
    /// borrow ends is the combatant's board from then on.
    fn get_board_mut(&mut self) -> (board: &mut Board)
        ensures
            board@ == old(self).board(),
            final(self).board() == final(board)@,
            final(self).number() == old(self).number(),
            final(self).automated() == old(self).automated(),
    ;

    /// Counts the combatant's strikes so far: first those that hit, then
    /// all of them.
    fn hit_stats(&self) -> (stats: (i32, i32))
        requires
            self.board().impacts.len() <= i32::MAX,
        ensures
            stats.0 == self.board().hits(),
            stats.1 == self.board().impacts.len(),
            0 <= stats.0 <= stats.1,
    ;

    /// The cell that the combatant means to strike next, if it picks its
    /// targets by itself; `None` if it waits to be given one. A combatant
    /// that picks by itself must have a cell left to pick.
    fn select_target(&mut self) -> (picked: Option<Point>)
        requires
            old(self).automated() ==> old(self).board().has_open_cell(),
        ensures
            final(self).board() == old(self).board(),
            final(self).number() == old(self).number(),
            final(self).automated() == old(self).automated(),
            picked is Some <==> old(self).automated(),
            picked matches Some(p) ==> p.in_bounds() && !old(self).board().struck(p),
    ;

    /// Strikes the opponent's board at `strike_coords`, unless the combatant
    /// has struck there before. The strike is resolved against the
    /// opponent's ships and entered, with its outcome, into the combatant's
    /// own history. A repeated cell changes nothing and gives `None`.
    fn attack(&mut self, opponent: &mut Board, strike_coords: Point) -> (outcome: Option<Impact>)
        requires
            old(opponent)@.ships_wf(),
        ensures
            final(self).number() == old(self).number(),
            final(self).automated() == old(self).automated(),
            outcome == attack_outcome(old(self).board(), old(opponent)@, strike_coords),
            final(self).board() == attacker_after(old(self).board(), old(opponent)@, strike_coords),
            final(opponent)@ == defender_after(old(self).board(), old(opponent)@, strike_coords),
    ;
}

/// What an attack at `p` gives: nothing where the attacker has struck
/// before, and else the record of the strike.
pub open spec fn attack_outcome(attacker: BoardView, defender: BoardView, p: Point) -> Option<
    Impact,
> {
    if attacker.struck(p) {
        None
    } else {
        Some(Impact { coords: p, hit: defender.hit_by(p) })
    }
}

/// The attacker's board after an attack at `p`.
pub open spec fn attacker_after(attacker: BoardView, defender: BoardView, p: Point) -> BoardView {
    if attacker.struck(p) {
        attacker
    } else {
        attacker.recorded(Impact { coords: p, hit: defender.hit_by(p) })
    }
}

/// The defender's board after an attack at `p`.
pub open spec fn defender_after(attacker: BoardView, defender: BoardView, p: Point) -> BoardView {
    if attacker.struck(p) {
        defender
    } else {
        defender.after_strike(p)
    }
}

/// One attack, as every combatant makes it: `own` is the attacker's board,
/// `opponent` the board under attack.
pub fn resolve_attack(own: &mut Board, opponent: &mut Board, strike_coords: Point) -> (outcome:
    Option<Impact>)
    requires
        old(opponent)@.ships_wf(),
    ensures
        outcome == attack_outcome(old(own)@, old(opponent)@, strike_coords),
        final(own)@ == attacker_after(old(own)@, old(opponent)@, strike_coords),
        final(opponent)@ == defender_after(old(own)@, old(opponent)@, strike_coords),
{
    if own.already_struck(strike_coords) {
        return None;
    }
    let hit = opponent.register_strike(strike_coords);
    let impact = Impact { coords: strike_coords, hit };
    own.record_impact(impact);
    Some(impact)
}

/// A combatant whose targets come from outside.
pub struct HumanPlayer {
    player_number: i32,
    board: Board,
}

impl HumanPlayer {
    /// A combatant with the given number and board.
    pub fn new(player_number: i32, board: Board) -> (player: HumanPlayer)
        ensures
            player.board() == board@,
            player.number() == player_number,
            !player.automated(),
    {
        HumanPlayer { player_number, board }
    }
}

impl Player for HumanPlayer {
    closed spec fn board(&self) -> BoardView {
        self.board@
    }

    closed spec fn number(&self) -> int {
        self.player_number as int
    }

    open spec fn automated(&self) -> bool {
        false
    }

    fn player_number(&self) -> (n: i32) {
        self.player_number
    }

    fn is_ai(&self) -> (automated: bool) {
        false
    }

    fn get_board(&self) -> (board: &Board) {
        &self.board
    }

    fn get_board_mut(&mut self) -> (board: &mut Board) {
        &mut self.board
    }

    fn hit_stats(&self) -> (stats: (i32, i32)) {
        self.board.hit_stats()
    }

    fn select_target(&mut self) -> (picked: Option<Point>) {
        None
    }

    fn attack(&mut self, opponent: &mut Board, strike_coords: Point) -> (outcome: Option<Impact>) {
        resolve_attack(&mut self.board, opponent, strike_coords)
    }
}

/// A combatant that picks its targets by an algorithm.
pub struct AIPlayer {
    pub player_number: i32,
    pub board: Board,
    pub algorithm: Box<dyn TargetingAlgorithm>,
}

impl AIPlayer {
    /// A combatant with the given number and board that picks its targets
    /// by `algorithm`.
    pub fn new(player_number: i32, board: Board, algorithm: Box<dyn TargetingAlgorithm>) -> (player:
        AIPlayer)
        ensures
            player.board() == board@,
            player.number() == player_number,
            player.automated(),
    {
        AIPlayer { player_number, board, algorithm }
    }
}

impl Player for AIPlayer {
    open spec fn board(&self) -> BoardView {
        self.board@
    }

    open spec fn number(&self) -> int {
        self.player_number as int
    }

    open spec fn automated(&self) -> bool {
        true
    }

    fn player_number(&self) -> (n: i32) {
        self.player_number
    }

    fn is_ai(&self) -> (automated: bool) {
        true
    }

    fn get_board(&self) -> (board: &Board) {
        &self.board
    }

    fn get_board_mut(&mut self) -> (board: &mut Board) {
        &mut self.board
    }

    fn hit_stats(&self) -> (stats: (i32, i32)) {
        self.board.hit_stats()
    }

    fn select_target(&mut self) -> (picked: Option<Point>) {
        Some(self.algorithm.target(&self.board))
    }

    fn attack(&mut self, opponent: &mut Board, strike_coords: Point) -> (outcome: Option<Impact>) {
        resolve_attack(&mut self.board, opponent, strike_coords)
    }
}

} // verus!
