//! Training records read from game logs.

pub mod grp;
pub mod invisible;
pub mod label;

pub use grp::{GrpError, GrpRecord};
pub use invisible::Invisible;
