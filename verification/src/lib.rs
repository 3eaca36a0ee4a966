//! The logic of the game "The Curse": the networking layer (wrapping sequence
//! numbers, a fixed-window ring buffer of packets, the byte representation of
//! messages and packets, the reliable-delivery state of a UDP communicator and
//! the framing of TCP messages) and the decisions of the game's characters,
//! creatures and items, each taken from plain values so that the game engine
//! only carries them out.

pub mod utils;
pub mod action_controller;
pub mod networking;
pub mod character_controller;
pub mod shared;
pub mod creatures;
pub mod items;
pub mod spells;
