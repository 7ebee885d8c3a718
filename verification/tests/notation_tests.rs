//! Tests of the SAN notation codec: parsing, rendering, and conversion
//! between notations and moves in the context of a position.

use chess::board::BoardState;
use chess::movegen::{Move, MoveType};
use chess::notation::Notation;
use chess::pieces::{Piece, PieceColour, PieceType};

#[test]
fn test_notation_new() {
    let notation = Notation::new();

    assert!(notation.piece.is_none());
    assert!(notation.dis_file.is_none());
    assert!(notation.dis_rank.is_none());
    assert!(!notation.capture);
    assert_eq!(notation.to_file, ' ');
    assert_eq!(notation.to_rank, ' ');
    assert!(notation.promotion.is_none());
    assert!(!notation.check);
    assert!(!notation.checkmate);
}

#[test]
fn test_notation_to_string() {
    let mut notation = Notation::new();
    notation.piece = Some('N');
    notation.to_file = 'f';
    notation.to_rank = '3';
    notation.capture = true;

    assert_eq!(notation.to_string(), "Nxf3");
}

#[test]
fn test_notation_from_mv_with_context() {
    let bs = BoardState::new_starting();
    let mv = Move {
        piece: Piece {
            ptype: PieceType::Knight,
            pcolour: PieceColour::White,
        },
        from: 62,
        to: 45,
        move_type: MoveType::Normal,
    };
    let notation = Notation::from_mv_with_context(&bs, &mv);
    assert!(notation.is_ok());
    assert_eq!(notation.unwrap().to_string(), "Nf3");
}

#[test]
fn test_notation_from_str() -> Result<(), chess::errors::PGNParseError> {
    let notation_str = "Qf3xf5+";
    let notation = Notation::from_str(notation_str);
    match notation {
        Ok(notation) => {
            assert_eq!(notation.piece, Some('Q'));
            assert_eq!(notation.to_file, 'f');
            assert_eq!(notation.to_rank, '5');
            assert_eq!(notation.capture, true);
            assert_eq!(notation.check, true);
            assert_eq!(notation.dis_file.is_some(), true);
            assert_eq!(notation.dis_rank.is_some(), true);
            assert_eq!(notation.dis_file.unwrap(), 'f');
            assert_eq!(notation.dis_rank.unwrap(), '3');
            Ok(())
        }
        Err(e) => Err(e),
    }
}

#[test]
fn test_notation_from_str_castle() -> Result<(), chess::errors::PGNParseError> {
    let notation_str = "O-O";
    let notation = Notation::from_str(notation_str)?;
    assert_eq!(notation.castle_str, Some("O-O".to_string()));
    assert!(!notation.check);
    assert!(!notation.checkmate);

    let notation_str = "O-O+";
    let notation = Notation::from_str(notation_str)?;
    assert_eq!(notation.castle_str, Some("O-O".to_string()));
    assert!(notation.check);
    assert!(!notation.checkmate);

    let notation_str = "O-O-O#";
    let notation = Notation::from_str(notation_str)?;
    assert_eq!(notation.castle_str, Some("O-O-O".to_string()));
    assert!(!notation.check);
    assert!(notation.checkmate);

    Ok(())
}

#[test]
fn test_notation_from_str_promotion() -> Result<(), chess::errors::PGNParseError> {
    let notation_str = "e8=Q";
    let notation = Notation::from_str(notation_str)?;
    assert_eq!(notation.piece, None);
    assert_eq!(notation.to_file, 'e');
    assert_eq!(notation.to_rank, '8');
    assert_eq!(notation.promotion, Some('Q'));
    assert!(!notation.capture);
    assert!(!notation.check);
    assert!(!notation.checkmate);

    let notation_str = "e8=Q+";
    let notation = Notation::from_str(notation_str)?;
    assert_eq!(notation.piece, None);
    assert_eq!(notation.to_file, 'e');
    assert_eq!(notation.to_rank, '8');
    assert_eq!(notation.promotion, Some('Q'));
    assert!(!notation.capture);
    assert!(notation.check);
    assert!(!notation.checkmate);

    let notation_str = "e8=Q#";
    let notation = Notation::from_str(notation_str)?;
    assert_eq!(notation.piece, None);
    assert_eq!(notation.to_file, 'e');
    assert_eq!(notation.to_rank, '8');
    assert_eq!(notation.promotion, Some('Q'));
    assert!(!notation.capture);
    assert!(!notation.check);
    assert!(notation.checkmate);

    Ok(())
}

#[test]
fn test_notation_from_str_invalid() {
    let notation_str = "Qf9";
    let notation = Notation::from_str(notation_str);
    assert!(notation.is_err());

    let notation_str = "Qz3";
    let notation = Notation::from_str(notation_str);
    assert!(notation.is_err());

    let notation_str = "Qf3x";
    let notation = Notation::from_str(notation_str);
    assert!(notation.is_err());

    let notation_str = "Qf3=";
    let notation = Notation::from_str(notation_str);
    assert!(notation.is_err());

    let notation_str = "Qf3++";
    let notation = Notation::from_str(notation_str);
    assert!(notation.is_err());

    let notation_str = "Qf3##";
    let notation = Notation::from_str(notation_str);
    assert!(notation.is_err());
}

#[test]
fn test_notation_to_move_with_context() {
    let bs = BoardState::new_starting();
    let notation = Notation::from_str("Nf3").unwrap();
    let mv = notation.to_move_with_context(&bs);
    assert!(mv.is_ok());
    let mv = mv.unwrap();
    assert_eq!(mv.piece.ptype, PieceType::Knight);
    assert_eq!(mv.from, 62);
    assert_eq!(mv.to, 45);

    let notation = Notation::from_str("e4").unwrap();
    let mv = notation.to_move_with_context(&bs);
    assert!(mv.is_ok());
    let mv = mv.unwrap();
    assert_eq!(mv.piece.ptype, PieceType::Pawn);
    assert_eq!(mv.from, 52);
    assert_eq!(mv.to, 36);
}
