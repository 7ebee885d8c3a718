//! Piece colours, piece kinds, and the contents of one board cell.

use vstd::prelude::*;

verus! {

/// The colour of a piece, also used for the side to move.
#[derive(Debug, Clone, Copy, PartialEq, Eq, Structural)]
pub enum PieceColour {
    White,
    Black,
}

impl PieceColour {
    /// The other colour.
    pub open spec fn spec_opposite(self) -> PieceColour {
        match self {
            PieceColour::White => PieceColour::Black,
            PieceColour::Black => PieceColour::White,
        }
    }

    /// The other colour.
    #[verifier::when_used_as_spec(spec_opposite)]
    pub fn opposite(self) -> (r: PieceColour)
        ensures
            r == self.spec_opposite(),
    {
        match self {
            PieceColour::White => PieceColour::Black,
            PieceColour::Black => PieceColour::White,
        }
    }
}

/// The kind of a piece.
#[derive(Debug, Clone, Copy, PartialEq, Eq, Structural)]
pub enum PieceType {
    Pawn,
    Knight,
    Bishop,
    Rook,
    Queen,
    King,
}

/// A piece: a colour and a kind. A value type with no identity beyond its fields.
#[derive(Debug, Clone, Copy, PartialEq, Eq, Structural)]
pub struct Piece {
    pub pcolour: PieceColour,
    pub ptype: PieceType,
}

/// The contents of one board cell: a piece, or nothing.
#[derive(Debug, Clone, Copy, PartialEq, Eq, Structural)]
pub enum Square {
    Piece(Piece),
    Empty,
}

impl Square {
    /// True when the cell holds a piece of the given colour.
    pub open spec fn spec_is_colour(self, c: PieceColour) -> bool {
        match self {
            Square::Piece(p) => p.pcolour == c,
            Square::Empty => false,
        }
    }

    /// True when the cell holds a piece of the given colour.
    #[verifier::when_used_as_spec(spec_is_colour)]
    pub fn is_colour(self, c: PieceColour) -> (r: bool)
        ensures
            r == self.spec_is_colour(c),
    {
        match self {
            Square::Piece(p) => p.pcolour == c,
            Square::Empty => false,
        }
    }

    /// True when the cell is empty.
    pub open spec fn spec_is_empty(self) -> bool {
        self is Empty
    }

    /// True when the cell is empty.
    #[verifier::when_used_as_spec(spec_is_empty)]
    pub fn is_empty(self) -> (r: bool)
        ensures
            r == self.spec_is_empty(),
    {
        match self {
            Square::Piece(_) => false,
            Square::Empty => true,
        }
    }

    /// True when the cell holds the given kind of piece of the given colour.
    pub open spec fn spec_holds(self, c: PieceColour, t: PieceType) -> bool {
        match self {
            Square::Piece(p) => p.pcolour == c && p.ptype == t,
            Square::Empty => false,
        }
    }

    /// True when the cell holds the given kind of piece of the given colour.
    #[verifier::when_used_as_spec(spec_holds)]
    pub fn holds(self, c: PieceColour, t: PieceType) -> (r: bool)
        ensures
            r == self.spec_holds(c, t),
    {
        match self {
            Square::Piece(p) => p.pcolour == c && p.ptype == t,
            Square::Empty => false,
        }
    }
}

} // verus!
