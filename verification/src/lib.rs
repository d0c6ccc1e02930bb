//! A tic-tac-toe engine whose rules and perfect-play search are proved correct.
//!
//! The board keeps the nine cells together with cached line sums and an
//! ascending list of the free cells; `GameState::wf` ties the caches to the
//! cells.  The search is an exhaustive minimax whose result is stated against
//! a recursive mathematical definition of the game value.

pub mod board;
pub mod coord;
pub mod game;
pub mod piece;
pub mod play;
pub mod search;

pub use coord::{coord_to_index, index_to_coord, is_coordinate};
pub use game::{init, BoardState, GameState, GameView};
pub use piece::{Piece, Turn};
pub use search::Root;
