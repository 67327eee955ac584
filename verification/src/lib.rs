use vstd::prelude::*;

pub mod text;
pub mod item;
pub mod cli;
pub mod store;
pub mod commands;
pub mod board;
pub mod tui;
pub mod render;
pub mod screen;

verus! {

} // verus!
