//! Conway's Game of Life: a bounded grid of cells, a command language to drive
//! it, and a simulator that advances the grid one generation at a time.

pub mod game;
