pub mod aerial;
pub mod attack;
