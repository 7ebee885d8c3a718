//! Tests of the PGN codec and the Chess960 starting arrangements.

use chess::history::Board;
use chess::notation::Notation;
use chess::pgn::PGN;
use chess::pieces::{PieceColour, PieceType, Square};

fn play(board: &mut Board, san: &str) {
    let notation = Notation::from_str(san).unwrap();
    let tip = board.len() - 1;
    let mv = notation.to_move_with_context(board.get_state_at(tip)).unwrap();
    board.make_move(&mv).unwrap();
}

#[test]
fn test_pgn_encode() {
    let mut board = Board::new();
    for san in ["e4", "e5", "Nf3"] {
        play(&mut board, san);
    }
    let pgn = PGN::from_board(&board);
    let text = pgn.to_string();
    assert!(text.starts_with("[Event \"?\"]\n"));
    assert!(text.contains("[Result \"*\"]\n"));
    assert!(text.ends_with("\n1. e4 e5 2. Nf3 *"));
}

#[test]
fn test_pgn_round_trip() {
    let mut board = Board::new();
    for san in ["d4", "d5", "c4", "e6", "Nc3", "Nf6"] {
        play(&mut board, san);
    }
    let text = PGN::from_board(&board).to_string();
    let parsed = PGN::from_str(&text).unwrap();
    assert_eq!(
        parsed.moves,
        vec!["d4", "d5", "c4", "e6", "Nc3", "Nf6"]
    );
    let replayed = Board::try_from_pgn(&parsed).unwrap();
    assert_eq!(replayed.len(), board.len());
    let a = board.get_state_at(board.len() - 1);
    let b = replayed.get_state_at(replayed.len() - 1);
    assert_eq!(a.position_hash, b.position_hash);
    assert_eq!(a.board_hash, b.board_hash);
}

#[test]
fn test_pgn_invalid_tag() {
    let text = "[Event ?]\n\n1. e4 *";
    let r = PGN::from_str(text);
    assert!(matches!(r, Err(chess::errors::PGNParseError::InvalidTag(_))));
}

#[test]
fn test_pgn_unresolvable_move() {
    let text = "[Event \"?\"]\n\n1. e4 Qh4 *";
    let parsed = PGN::from_str(text).unwrap();
    let r = Board::try_from_pgn(&parsed);
    assert!(matches!(
        r,
        Err(chess::errors::PGNParseError::MoveNotFound(_))
    ));
}

#[test]
fn test_chess960_arrangements() {
    for n in [0u32, 1, 233, 518, 959] {
        let board = Board::new_chess960(n);
        let state = board.get_state_at(0);
        // pawns on both second ranks, empty middle
        for c in 0..8usize {
            assert!(matches!(state.pos64[8 + c], Square::Piece(p)
                if p.ptype == PieceType::Pawn && p.pcolour == PieceColour::Black));
            assert!(matches!(state.pos64[48 + c], Square::Piece(p)
                if p.ptype == PieceType::Pawn && p.pcolour == PieceColour::White));
        }
        for i in 16..48usize {
            assert!(matches!(state.pos64[i], Square::Empty));
        }
        // mirrored back ranks with bishops on opposite colours and the king
        // between the rooks
        let mut bishops = Vec::new();
        let mut rooks = Vec::new();
        let mut king = 0usize;
        for c in 0..8usize {
            let black = match state.pos64[c] {
                Square::Piece(p) => p,
                Square::Empty => panic!("empty back rank cell"),
            };
            let white = match state.pos64[56 + c] {
                Square::Piece(p) => p,
                Square::Empty => panic!("empty back rank cell"),
            };
            assert_eq!(black.ptype, white.ptype);
            match white.ptype {
                PieceType::Bishop => bishops.push(c),
                PieceType::Rook => rooks.push(c),
                PieceType::King => king = c,
                _ => {}
            }
        }
        assert_eq!(bishops.len(), 2);
        assert_eq!(rooks.len(), 2);
        assert_eq!((bishops[0] + bishops[1]) % 2, 1);
        assert!(rooks[0] < king && king < rooks[1]);
        // the engine can move from any arrangement
        let legal = state.get_legal_moves().unwrap();
        assert!(!legal.is_empty());
    }
    // equal numbers give equal arrangements, and the number decides them
    let a = Board::new_chess960(233);
    let b = Board::new_chess960(233);
    assert_eq!(a.get_state_at(0).position_hash, b.get_state_at(0).position_hash);
    let c = Board::new_chess960(0);
    assert_ne!(a.get_state_at(0).position_hash, c.get_state_at(0).position_hash);
    // arrangement 518 is the standard start
    let board = Board::new_chess960(518);
    let fresh = chess::board::BoardState::new_starting();
    assert_eq!(board.get_state_at(0).position_hash, fresh.position_hash);
}
