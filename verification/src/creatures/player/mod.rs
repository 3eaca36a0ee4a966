pub mod actions;
