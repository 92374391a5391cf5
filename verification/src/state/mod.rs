//! A seat's view of the game: the legal actions it has and the checks on
//! the reactions it sends.

pub mod action;
pub mod getter;
pub mod player_state;

pub use action::{ActionCandidate, ReactionError};
pub use player_state::PlayerState;
