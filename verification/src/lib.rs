//! Generation of 5x5 "Quinta" word grids and per-letter hint coloring.
//!
//! A grid is built from a corpus of five-letter clue/word pairs by a pruned
//! backtracking search: five across words are chosen so that the five columns,
//! read top to bottom, are corpus words as well, distinct from the across
//! words.  A separately chosen target word (the "plusword") then yields a
//! green/yellow coloring of every word in the grid.

pub mod assemble;
pub mod hints;
pub mod models;
pub mod prefix;
pub mod solver;
