//! A chess rules and game-tree engine: it keeps a legal chess position,
//! generates fully legal moves, classifies game-ending conditions, converts
//! positions and games to and from the standard text notations (SAN, FEN,
//! PGN), records the history of a game behind a browsing cursor, and performs
//! a depth-bounded search to pick a move.

pub use crate::board::BoardState;
pub use crate::gamestate::{GameOverState, GameState};
pub use crate::history::Board;
pub use crate::movegen::{null_move, CastleSide, Move, MoveType};
pub use crate::pieces::{Piece, PieceColour, PieceType, Square};
pub use crate::util::{eval_to_string, hash_to_string};

pub mod board;
pub mod errors;
pub mod fen;
pub mod gamestate;
pub mod history;
pub mod movegen;
pub mod notation;
pub mod pgn;
pub mod pieces;
pub mod search;
pub mod text;
pub mod util;
