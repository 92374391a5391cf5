pub mod board;
pub mod kyoku;
pub mod result;
pub mod schedule;

pub use board::Board;
pub use result::{kyoku_end_state, kyoku_end_states, rankings, KyokuEndState, KyokuResult, Rankings};
