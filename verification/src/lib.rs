//! Rule engine of a Minesweeper game: the grid of cells, mine placement,
//! reveal and flag transitions, cascading reveal and the test for a solved grid.

pub mod cell;
pub mod board;
pub mod tally;
pub mod field;
pub mod cascade;
pub mod layout;
pub mod sampling;
pub mod targets;
pub mod placement;
pub mod game;
pub mod laws;
