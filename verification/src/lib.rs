//! Conway's Game of Life on a fixed-size, bounded grid.
//!
//! The grid has hard edges: cells outside it do not exist and never count as
//! neighbours. One call of [`grid::Grid::step`] advances every cell by exactly
//! one generation, all of them judged against the same earlier generation.

pub mod board;
pub mod driver;
pub mod grid;
pub mod laws;
pub mod render;
pub mod rule;
