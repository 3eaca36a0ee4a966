pub mod follow;
pub mod wrapping;
pub mod timer;
