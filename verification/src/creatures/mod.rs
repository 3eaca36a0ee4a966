pub mod ai;
pub mod player;
pub mod goblin;
