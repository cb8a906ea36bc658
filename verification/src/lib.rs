//! Core engine of a falling-block color-matching puzzle game.
//!
//! The playing field is a fixed grid of columns; three-block pieces (cargoes)
//! descend, land on a pile, and runs of three or more same-colored blocks in a
//! row, column or diagonal are detected, removed and scored, with gravity
//! compaction and chained matches.

pub mod blocks;
pub mod constants;
pub mod input;
pub mod snapshot;
pub mod stages;
