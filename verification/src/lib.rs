//! Tile grids for procedurally built levels, and the generators that fill them.
//!
//! The heart of the crate is the faction diffusion in [`generator`]: an automaton that
//! lets territories spread over a grid, one generation at a time, with a random stream
//! of its own for every cell.

pub mod util;
pub mod tile;
pub mod level;
pub mod generator;
