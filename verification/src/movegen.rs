//! The representation of one ply: the moved piece, the origin and destination
//! cells, and a tag for the kind of move. The legal-move generator for a
//! position lives in [`crate::board`], where the position model is defined.

use vstd::prelude::*;

use crate::pieces::{Piece, PieceColour, PieceType};

verus! {

/// The side of the board a castling move goes to.
#[derive(Debug, Clone, Copy, PartialEq, Eq, Structural)]
pub enum CastleSide {
    Short,
    Long,
}

/// The kind of a move. A promotion records the resulting piece kind and
/// whether the move also captures.
#[derive(Debug, Clone, Copy, PartialEq, Eq, Structural)]
pub enum MoveType {
    Normal,
    DoublePawnPush,
    Capture,
    EnPassant,
    Castle(CastleSide),
    Promotion(PieceType, bool),
}

impl MoveType {
    /// True when the move removes an enemy piece from the board.
    pub open spec fn spec_is_capture(self) -> bool {
        match self {
            MoveType::Capture => true,
            MoveType::EnPassant => true,
            MoveType::Promotion(_, cap) => cap,
            _ => false,
        }
    }

    /// True when the move removes an enemy piece from the board.
    #[verifier::when_used_as_spec(spec_is_capture)]
    pub fn is_capture(self) -> (r: bool)
        ensures
            r == self.spec_is_capture(),
    {
        match self {
            MoveType::Capture => true,
            MoveType::EnPassant => true,
            MoveType::Promotion(_, cap) => cap,
            _ => false,
        }
    }
}

impl CastleSide {
    /// The side this castling move goes to.
    pub open spec fn spec_get_castle_side(self) -> CastleSide {
        self
    }

    /// The side this castling move goes to.
    #[verifier::when_used_as_spec(spec_get_castle_side)]
    pub fn get_castle_side(self) -> (r: CastleSide)
        ensures
            r == self,
    {
        self
    }
}

/// One ply: a piece, an origin cell, a destination cell and a kind tag.
/// Cells are indexed as in [`crate::util`]; the reserved null move uses the
/// out-of-board sentinel 65 for both cells.
#[derive(Debug, Clone, Copy, PartialEq, Eq, Structural)]
pub struct Move {
    pub piece: Piece,
    pub from: usize,
    pub to: usize,
    pub move_type: MoveType,
}

/// The out-of-board sentinel cell used by the null move.
pub const NULL_CELL: usize = 65;

/// The reserved null move: a placeholder that is never legal, and always
/// rejected when played.
pub open spec fn spec_null_move() -> Move {
    Move {
        piece: Piece { pcolour: PieceColour::White, ptype: PieceType::Pawn },
        from: NULL_CELL,
        to: NULL_CELL,
        move_type: MoveType::Normal,
    }
}

/// The reserved null move: a placeholder that is never legal, and always
/// rejected when played.
#[verifier::when_used_as_spec(spec_null_move)]
pub fn null_move() -> (m: Move)
    ensures
        m == spec_null_move(),
{
    Move {
        piece: Piece { pcolour: PieceColour::White, ptype: PieceType::Pawn },
        from: NULL_CELL,
        to: NULL_CELL,
        move_type: MoveType::Normal,
    }
}

impl Move {
    /// True when the move is the reserved null move.
    pub open spec fn spec_is_null(self) -> bool {
        self == spec_null_move()
    }

    /// True when the move is the reserved null move.
    #[verifier::when_used_as_spec(spec_is_null)]
    pub fn is_null(self) -> (r: bool)
        ensures
            r == self.spec_is_null(),
    {
        self == null_move()
    }
}

} // verus!
