//! Verified core of a terminal UI for Docker engines: row marks, docker
//! contexts, resource rows, sorting and the keyboard-driven state machine.

pub mod text;
pub mod docker;
pub mod mark;
pub mod contexts;
pub mod bignum;
pub mod size;
pub mod display;
pub mod app;
pub mod events;
pub mod actions;
pub mod ops;
pub mod keys;
pub mod engine;
pub mod ssh_wrap;
pub mod groups;
pub mod screen;
pub mod stats;
pub mod float;
