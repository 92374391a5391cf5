//! Shapes of the observation and action spaces.

use vstd::prelude::*;

verus! {

pub const OBS_SHAPE: (usize, usize) = (938, 34);
pub const ORACLE_OBS_SHAPE: (usize, usize) = (211, 34);
/// 37 discards or kan choices, then riichi, three chis, pon, kan, agari,
/// ryukyoku and pass.
pub const ACTION_SPACE: usize = 46;
pub const GRP_SIZE: usize = 7;

} // verus!
