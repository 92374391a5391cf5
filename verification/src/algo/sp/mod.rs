//! The integer part of the single-player calculator: the mutable hand and
//! wall state and the candidate tiles to discard and draw.

pub mod calc;
pub mod state;
pub mod tile;

pub use calc::{SPCalculator, MAX_TSUMOS_LEFT};
pub use state::{InitState, State};
pub use tile::{DiscardTile, DrawTile, RequiredTile};
