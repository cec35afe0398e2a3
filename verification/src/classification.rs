//! How a move is classified for the player who makes it, and how a whole
//! position is evaluated.

use crate::board::Player;
use std::cmp::Ordering;
use vstd::prelude::*;
use vstd::std_specs::cmp::PartialOrdSpecImpl;

verus! {

/// The result of a position under best play, named by the player who wins.
#[derive(Debug, Clone, Copy, PartialEq, Eq, Structural)]
pub enum Evaluation {
    XWins,
    OWins,
    Draw,
}

/// What a move leads to under best play, for the player who makes it.
/// The variants are ordered `Lose < Draw < Win`.
#[derive(PartialEq, Eq, Ord, Debug, Clone, Copy, Structural)]
pub enum Analysis {
    Lose,
    Draw,
    Win,
}

impl Analysis {
    /// The place of a classification in the order `Lose < Draw < Win`.
    pub open spec fn rank(self) -> int {
        match self {
            Analysis::Lose => 0,
            Analysis::Draw => 1,
            Analysis::Win => 2,
        }
    }

    /// The same outcome seen by the other player.
    pub open spec fn inverse(self) -> Analysis {
        match self {
            Analysis::Win => Analysis::Lose,
            Analysis::Draw => Analysis::Draw,
            Analysis::Lose => Analysis::Win,
        }
    }

    /// Turns a classification into the one the opponent sees: a win becomes a
    /// loss, a loss a win, and a draw stays a draw.
    pub fn flip(&self) -> (flipped: Analysis)
        ensures
            flipped == self.inverse(),
            flipped.inverse() == *self,
            flipped.rank() == 2 - self.rank(),
    {
        match *self {
            Self::Win => Self::Lose,
            Self::Draw => Self::Draw,
            Self::Lose => Self::Win,
        }
    }
}

impl PartialOrd for Analysis {
    fn partial_cmp(&self, other: &Self) -> (order: Option<Ordering>) {
        let order = match (*self, *other) {
            (Analysis::Lose, Analysis::Lose) => Ordering::Equal,
            (Analysis::Lose, _) => Ordering::Less,
            (Analysis::Draw, Analysis::Lose) => Ordering::Greater,
            (Analysis::Draw, Analysis::Draw) => Ordering::Equal,
            (Analysis::Draw, Analysis::Win) => Ordering::Less,
            (Analysis::Win, Analysis::Win) => Ordering::Equal,
            (Analysis::Win, _) => Ordering::Greater,
        };
        Some(order)
    }
}

impl PartialOrdSpecImpl for Analysis {
    open spec fn obeys_partial_cmp_spec() -> bool {
        true
    }

    open spec fn partial_cmp_spec(&self, other: &Self) -> Option<Ordering> {
        if self.rank() < other.rank() {
            Some(Ordering::Less)
        } else if self.rank() > other.rank() {
            Some(Ordering::Greater)
        } else {
            Some(Ordering::Equal)
        }
    }
}

/// The evaluation in which `player` wins.
pub open spec fn win_for(player: Player) -> Evaluation {
    match player {
        Player::X => Evaluation::XWins,
        Player::O => Evaluation::OWins,
    }
}

/// The evaluation of a position whose outcome for the player to move,
/// `turn`, is `outcome`.
pub open spec fn verdict(turn: Player, outcome: Analysis) -> Evaluation {
    match outcome {
        Analysis::Win => win_for(turn),
        Analysis::Draw => Evaluation::Draw,
        Analysis::Lose => win_for(turn.opponent()),
    }
}

/// Names the result of a position in absolute terms, given its outcome for
/// the player to move.
pub fn evaluate(turn: Player, outcome: Analysis) -> (eval: Evaluation)
    ensures
        eval == verdict(turn, outcome),
{
    match outcome {
        Analysis::Lose => {
            if turn == Player::X {
                Evaluation::OWins
            } else {
                Evaluation::XWins
            }
        },
        Analysis::Draw => Evaluation::Draw,
        Analysis::Win => {
            if turn == Player::X {
                Evaluation::XWins
            } else {
                Evaluation::OWins
            }
        },
    }
}

} // verus!
