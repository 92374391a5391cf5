pub mod point;
pub mod shanten;
pub mod sp;
