//! The errors of the engine.

use vstd::prelude::*;
use vstd::string::*;
use crate::text::{decimal, decimal_string};

verus! {

/// Which of the two indices of a match was out of range.
#[derive(Debug, Clone, Copy, PartialEq, Eq, Structural)]
pub enum IndexKind {
    Round,
    Match,
}

/// Which of the two teams of a match was not found.
#[derive(Debug, Clone, Copy, PartialEq, Eq, Structural)]
pub enum TeamSlot {
    First,
    Second,
}

/// Why an operation of the engine failed.
#[derive(Debug, Clone, Copy, PartialEq, Eq, Structural)]
pub enum TournamentError {
    /// The eligible list holds fewer opponents than the bracket needs.
    InsufficientOpponents { required: usize, available: usize },
    /// The caller named a round or a match that does not exist.
    IndexOutOfRange(IndexKind),
    /// A match to simulate names a team that is not among the participants.
    TeamNotFound(TeamSlot),
}

/// The text of an error.
pub open spec fn error_text(e: TournamentError) -> Seq<char> {
    match e {
        TournamentError::InsufficientOpponents { required, available } => {
            "Not enough eligible opponents. Required: "@ + decimal(required as nat)
                + ", Available: "@ + decimal(available as nat)
        },
        TournamentError::IndexOutOfRange(IndexKind::Round) => "Round index out of bounds."@,
        TournamentError::IndexOutOfRange(IndexKind::Match) => "Match index out of bounds."@,
        TournamentError::TeamNotFound(TeamSlot::First) => "Team 1 not found"@,
        TournamentError::TeamNotFound(TeamSlot::Second) => "Team 2 not found"@,
    }
}

impl TournamentError {
    /// Writes the text of the error.
    pub fn message(&self) -> (res: String)
        ensures
            res@ == error_text(*self),
    {
        match self {
            TournamentError::InsufficientOpponents { required, available } => {
                let mut text = String::from_str("Not enough eligible opponents. Required: ");
                let needed = decimal_string(*required);
                text.append(needed.as_str());
                text.append(", Available: ");
                let found = decimal_string(*available);
                text.append(found.as_str());
                text
            },
            TournamentError::IndexOutOfRange(IndexKind::Round) => String::from_str(
                "Round index out of bounds.",
            ),
            TournamentError::IndexOutOfRange(IndexKind::Match) => String::from_str(
                "Match index out of bounds.",
            ),
            TournamentError::TeamNotFound(TeamSlot::First) => String::from_str("Team 1 not found"),
            TournamentError::TeamNotFound(TeamSlot::Second) => String::from_str(
                "Team 2 not found",
            ),
        }
    }
}

} // verus!
