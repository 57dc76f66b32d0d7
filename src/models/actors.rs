pub mod bandid;
pub mod mountain;
pub mod player;
pub mod water;
