//! The error values returned by the engine. Every failure is reported as a
//! typed result to the immediate caller; mutating operations leave the board
//! unchanged on failure.

use vstd::prelude::*;

use crate::gamestate::{GameOverState, GameState};

verus! {

/// A failure of an operation on a board or a position: an illegal move, the
/// reserved null move, a query that required legal moves on a terminal
/// position, a lazy move-generation query outside its supported sequence, or
/// a move attempted after the game has ended.
#[derive(Debug)]
pub enum BoardStateError {
    IllegalMove(String),
    NullMove(String),
    NoLegalMoves(GameState),
    LazyIncompatiblity(String),
    GameOver(GameOverState),
}

impl BoardStateError {
    /// A description of the error, with its context.
    pub fn describe(&self) -> (r: String)
        ensures
            match self {
                BoardStateError::IllegalMove(s) => r@ == "Illegal move: "@ + s@,
                BoardStateError::NullMove(s) => r@ == "Null move: "@ + s@,
                BoardStateError::NoLegalMoves(gs) => r@ == "No legal moves in GameState: "@
                    + gs.spec_describe(),
                BoardStateError::LazyIncompatiblity(s) => r@
                    == "Lazy legal move generation incompatibility: "@ + s@,
                BoardStateError::GameOver(gos) => r@ == "Game over: "@ + gos.spec_describe(),
            },
    {
        match self {
            BoardStateError::IllegalMove(s) => {
                let mut r = String::from_str("Illegal move: ");
                r.append(s.as_str());
                r
            },
            BoardStateError::NullMove(s) => {
                let mut r = String::from_str("Null move: ");
                r.append(s.as_str());
                r
            },
            BoardStateError::NoLegalMoves(gs) => {
                let mut r = String::from_str("No legal moves in GameState: ");
                let d = gs.describe();
                r.append(d.as_str());
                r
            },
            BoardStateError::LazyIncompatiblity(s) => {
                let mut r = String::from_str("Lazy legal move generation incompatibility: ");
                r.append(s.as_str());
                r
            },
            BoardStateError::GameOver(gos) => {
                let mut r = String::from_str("Game over: ");
                let d = gos.describe();
                r.append(d.as_str());
                r
            },
        }
    }
}

/// A failure to parse FEN text, with a description of the offending field.
#[derive(Debug)]
pub struct FenParseError(pub String);

impl FenParseError {
    /// A description of the error, with its context.
    pub fn describe(&self) -> (r: String)
        ensures
            r@ == "Error parsing FEN: "@ + self.0@,
    {
        let mut r = String::from_str("Error parsing FEN: ");
        r.append(self.0.as_str());
        r
    }
}

/// A failure to parse PGN text or one of its SAN tokens: a malformed tag
/// pair, a malformed notation token, a failure to read a PGN source, or a
/// token that could not be resolved to a unique legal move.
#[derive(Debug)]
pub enum PGNParseError {
    InvalidTag(String),
    NotationParseError(String),
    FileError(String),
    MoveNotFound(String),
}

impl PGNParseError {
    /// A description of the error, with its context.
    pub fn describe(&self) -> (r: String)
        ensures
            match self {
                PGNParseError::InvalidTag(s) => r@ == "Invalid tag: "@ + s@,
                PGNParseError::NotationParseError(s) => r@ == "Error parsing notation: "@ + s@,
                PGNParseError::FileError(s) => r@ == "Error reading file: "@ + s@,
                PGNParseError::MoveNotFound(s) => r@ == "Move not found: "@ + s@,
            },
    {
        match self {
            PGNParseError::InvalidTag(s) => {
                let mut r = String::from_str("Invalid tag: ");
                r.append(s.as_str());
                r
            },
            PGNParseError::NotationParseError(s) => {
                let mut r = String::from_str("Error parsing notation: ");
                r.append(s.as_str());
                r
            },
            PGNParseError::FileError(s) => {
                let mut r = String::from_str("Error reading file: ");
                r.append(s.as_str());
                r
            },
            PGNParseError::MoveNotFound(s) => {
                let mut r = String::from_str("Move not found: ");
                r.append(s.as_str());
                r
            },
        }
    }
}

} // verus!
