//! A fixed-depth search engine for Ultimate Tic-Tac-Toe, verified with Verus.
//!
//! The board is a packed bitfield; every function that reads or writes it is
//! specified over the cells, zone owners and active zone that the bits stand
//! for.
//!
//! - `grid`: lines of a 3x3 grid.
//! - `bits`: the fields of a packed word.
//! - `board`: the board and the move transition.
//! - `moves`: move generation.
//! - `tables`: the lookup tables and the static evaluation.
//! - `search`: alpha-beta search.
//! - `minimax`: the search returns the negamax value.
//! - `sound`: what legal play keeps true of a board.
//! - `text`, `notation`, `encoding`: moves, scores and boards as text.
//! - `round_trip`: a board read back from its text.
//! - `request`: a search request given as text.

pub mod bits;
pub mod board;
pub mod encoding;
pub mod grid;
pub mod minimax;
pub mod moves;
pub mod notation;
pub mod request;
pub mod round_trip;
pub mod search;
pub mod sound;
pub mod tables;
pub mod text;
