pub mod tsumogiri;

pub use tsumogiri::{EmptyTsumo, Tsumogiri};
