pub mod event;

pub use event::{BoundedU8, Event, EventWithCanAct, OutOfBoundError};
