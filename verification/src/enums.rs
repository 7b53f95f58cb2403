use vstd::prelude::*;

use crate::text::{lowercased, same_text, to_lowercase, trim, trimmed};

verus! {

/// Edge length of the square board.
pub const BOARD_SIZE: usize = 10;

/// Who the second combatant is.
#[derive(Debug, Clone, Copy, PartialEq, Eq, Structural)]
pub enum OpponentChoice {
    Human,
    AI,
}

/// A yes-or-no answer.
#[derive(Debug, Clone, Copy, PartialEq, Eq, Structural)]
pub enum Choice {
    Yes,
    No,
}

/// The way a ship extends from its anchor cell. `Up` and `Left` run towards
/// zero, `Down` and `Right` away from it.
#[derive(Debug, Clone, Copy, PartialEq, Eq, Hash, Structural)]
pub enum Direction {
    Up,
    Down,
    Left,
    Right,
}

/// The opponent that a word names: `human` or `computer`, in lower case.
pub open spec fn opponent_of(word: Seq<char>) -> Option<OpponentChoice> {
    if word == "human"@ {
        Some(OpponentChoice::Human)
    } else if word == "computer"@ {
        Some(OpponentChoice::AI)
    } else {
        None
    }
}

/// The answer that a word gives: `yes` or `no`, in lower case.
pub open spec fn choice_of(word: Seq<char>) -> Option<Choice> {
    if word == "yes"@ {
        Some(Choice::Yes)
    } else if word == "no"@ {
        Some(Choice::No)
    } else {
        None
    }
}

/// The direction that a letter names: `u`, `d`, `l` or `r`.
pub open spec fn direction_of(word: Seq<char>) -> Option<Direction> {
    if word == "u"@ {
        Some(Direction::Up)
    } else if word == "d"@ {
        Some(Direction::Down)
    } else if word == "l"@ {
        Some(Direction::Left)
    } else if word == "r"@ {
        Some(Direction::Right)
    } else {
        None
    }
}

impl OpponentChoice {
    /// Reads the answer to the question who the opponent is. White space
    /// around the word is ignored; the word itself is taken as it stands,
    /// so `Human` is no answer.
    pub fn from_answer(answer: &str) -> (choice: Option<OpponentChoice>)
        ensures
            choice == opponent_of(trimmed(answer@)),
    {
        let word = trim(answer);
        if same_text(word, "human") {
            Some(OpponentChoice::Human)
        } else if same_text(word, "computer") {
            Some(OpponentChoice::AI)
        } else {
            None
        }
    }
}

impl Choice {
    /// Reads a word that is already trimmed and in lower case.
    pub fn from_word(word: &str) -> (choice: Option<Choice>)
        ensures
            choice == choice_of(word@),
    {
        if same_text(word, "yes") {
            Some(Choice::Yes)
        } else if same_text(word, "no") {
            Some(Choice::No)
        } else {
            None
        }
    }

    /// Reads the answer to a yes-or-no question. White space around the
    /// word is ignored, and so is the case of its letters.
    pub fn from_answer(answer: &str) -> (choice: Option<Choice>)
        ensures
            choice == choice_of(lowercased(trimmed(answer@))),
    {
        let word = to_lowercase(trim(answer));
        Choice::from_word(word.as_str())
    }
}

impl Direction {
    /// The four directions in the order in which they are offered.
    pub open spec fn every() -> Seq<Direction> {
        seq![Direction::Up, Direction::Down, Direction::Left, Direction::Right]
    }

    /// The four directions in the order in which they are offered.
    pub fn all() -> (directions: Vec<Direction>)
        ensures
            directions@ == Direction::every(),
    {
        let mut directions: Vec<Direction> = Vec::new();
        directions.push(Direction::Up);
        directions.push(Direction::Down);
        directions.push(Direction::Left);
        directions.push(Direction::Right);
        assert(directions@ =~= Direction::every());
        directions
    }

    /// The direction that the letter names, if it names one.
    pub fn string_to_direction(input: &str) -> (direction: Option<Direction>)
        ensures
            direction == direction_of(input@),
    {
        if same_text(input, "u") {
            Some(Direction::Up)
        } else if same_text(input, "d") {
            Some(Direction::Down)
        } else if same_text(input, "l") {
            Some(Direction::Left)
        } else if same_text(input, "r") {
            Some(Direction::Right)
        } else {
            None
        }
    }

    /// The letter that names the direction.
    pub fn direction_to_string(&self) -> (letter: &'static str)
        ensures
            direction_of(letter@) == Some(*self),
            letter@ == match *self {
                Direction::Up => "u"@,
                Direction::Down => "d"@,
                Direction::Left => "l"@,
                Direction::Right => "r"@,
            },
    {
        proof {
            lemma_direction_letters(*self);
        }
        match self {
            Direction::Up => "u",
            Direction::Down => "d",
            Direction::Left => "l",
            Direction::Right => "r",
        }
    }

    /// The direction's name as it is shown to players.
    pub fn to_string(&self) -> (name: String)
        ensures
            name@ == match *self {
                Direction::Up => "Up"@,
                Direction::Down => "Down"@,
                Direction::Left => "Left"@,
                Direction::Right => "Right"@,
            },
    {
        match self {
            Direction::Up => "Up".to_owned(),
            Direction::Down => "Down".to_owned(),
            Direction::Left => "Left".to_owned(),
            Direction::Right => "Right".to_owned(),
        }
    }
}

/// A direction is read back from the letter that names it.
pub proof fn lemma_direction_letters(direction: Direction)
    ensures
        direction_of(
            match direction {
                Direction::Up => "u"@,
                Direction::Down => "d"@,
                Direction::Left => "l"@,
                Direction::Right => "r"@,
            },
        ) == Some(direction),
{
    reveal_strlit("u");
    reveal_strlit("d");
    reveal_strlit("l");
    reveal_strlit("r");
    assert("u"@[0] == 'u' && "d"@[0] == 'd' && "l"@[0] == 'l' && "r"@[0] == 'r');
}

} // verus!
