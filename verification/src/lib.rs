//! Riichi mahjong core logic: tiles, hands, shanten numbers, scoring tables,
//! mjai events and player-side action checks.

pub mod algo;
pub mod chi_type;
pub mod consts;
pub mod dataset;
pub mod hand;
pub mod tile;
pub mod vec_ops;
pub mod mjai;
pub mod arena;
pub mod array;
pub mod state;
pub mod agent;
