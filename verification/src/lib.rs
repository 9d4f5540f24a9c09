//! Single-elimination tournament engine: eligibility filtering, bracket
//! building, match resolution and round advancement.
//!
//! The engine keeps no state of its own. Every operation takes the whole
//! state as a value and returns the new one.
//!
//! - [`model`]: the records of a tournament and their mathematical views.
//! - [`catalog`]: one opponent per identifier, from the rows of a roster.
//! - [`eligibility`]: who may enter a bracket, and at which tier.
//! - [`bracket`]: drawing the participants and pairing a round.
//! - [`resolver`]: who wins a match that the player takes no part in.
//! - [`rounds`]: submitting a result and moving on.
//! - [`laws`]: what holds of every bracket and every submitted result.
//! - [`text`], [`error`]: the words and the errors of the engine.
//! - [`random`]: the random source.
//!
//! Every function is verified against its contract, with these exceptions,
//! whose contracts are taken on trust: the calls into `rand` in [`random`],
//! and in [`catalog`] the calls into `indexmap` and the call of `str::trim`.

pub mod bracket;
pub mod catalog;
pub mod eligibility;
pub mod error;
pub mod laws;
pub mod model;
pub mod random;
pub mod resolver;
pub mod rounds;
pub mod text;

pub use crate::bracket::generate_tournament;
pub use crate::catalog::{get_all_opponents, CatalogRecord};
pub use crate::eligibility::{get_eligible_opponents, get_playable_opponents_info};
pub use crate::error::{IndexKind, TeamSlot, TournamentError};
pub use crate::model::{
    Difficulty, Match, Opponent, PlayableOpponentInfo, Tournament, TournamentSettings,
};
pub use crate::rounds::update_match_result;
