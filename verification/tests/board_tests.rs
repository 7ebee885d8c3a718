//! Tests of the board history, the move generator, the game-state
//! classifier, the FEN codec and the search engine.

use chess::board::BoardState;
use chess::errors::BoardStateError;
use chess::fen::FEN;
use chess::gamestate::{GameOverState, GameState};
use chess::history::Board;
use chess::movegen::{null_move, Move, MoveType};
use chess::notation::Notation;
use chess::pieces::{Piece, PieceColour, PieceType};

fn play(board: &mut Board, san: &str) {
    let notation = Notation::from_str(san).unwrap();
    let tip = board.len() - 1;
    let mv = notation.to_move_with_context(board.get_state_at(tip)).unwrap();
    board.make_move(&mv).unwrap();
}

#[test]
fn test_history_growth_and_cursor() {
    // after N successful moves from a fresh board the history holds N + 1
    // positions, the cursor sits at the tip, and the cursor is attached
    let mut board = Board::new();
    assert_eq!(board.len(), 1);
    let moves = ["e4", "e5", "Nf3", "Nc6"];
    for (n, san) in moves.iter().enumerate() {
        play(&mut board, san);
        assert_eq!(board.len(), n + 2);
        assert!(!board.is_detatched());
        assert_eq!(board.get_current_move_count(), (n / 2 + 1) as u32 + (n % 2) as u32);
    }
    assert_eq!(board.len(), 5);
}

#[test]
fn test_checkout_prev_and_latest() {
    // checkout_prev k times then checkout_latest_state restores the cursor
    // to the tip and clears the detached flag
    let mut board = Board::new();
    play(&mut board, "e4");
    play(&mut board, "e5");
    play(&mut board, "Nf3");
    let detached = board.checkout_prev();
    assert!(detached);
    let detached = board.checkout_prev();
    assert!(detached);
    assert!(board.is_detatched());
    board.checkout_latest_state();
    assert!(!board.is_detatched());
    assert_eq!(board.get_current_move_count(), 2);
    // prev at the starting position stays put
    let mut fresh = Board::new();
    let detached = fresh.checkout_prev();
    assert!(!detached);
}

#[test]
fn test_null_move_always_fails() {
    // the reserved null move fails with the null-move error whatever the
    // position
    let mut board = Board::new();
    let r = board.make_move(&null_move());
    assert!(matches!(r, Err(BoardStateError::NullMove(_))));
    play(&mut board, "e4");
    let r = board.make_move(&null_move());
    assert!(matches!(r, Err(BoardStateError::NullMove(_))));
    assert_eq!(board.len(), 2);
}

#[test]
fn test_illegal_move_rejected() {
    let mut board = Board::new();
    let mv = Move {
        piece: Piece {
            pcolour: PieceColour::White,
            ptype: PieceType::Pawn,
        },
        from: 52,
        to: 20,
        move_type: MoveType::Normal,
    };
    let r = board.make_move(&mv);
    assert!(matches!(r, Err(BoardStateError::IllegalMove(_))));
    assert_eq!(board.len(), 1);
}

#[test]
fn test_knight_disambiguation() {
    // two same-colour knights able to reach the same destination get
    // distinct SAN texts
    let fen = FEN::from_str("4k3/8/8/8/2N1N3/8/8/4K3 w - - 0 1").unwrap();
    let bs = &fen.state;
    let m1 = Move {
        piece: Piece {
            pcolour: PieceColour::White,
            ptype: PieceType::Knight,
        },
        from: 34,
        to: 19,
        move_type: MoveType::Normal,
    };
    let m2 = Move {
        piece: Piece {
            pcolour: PieceColour::White,
            ptype: PieceType::Knight,
        },
        from: 36,
        to: 19,
        move_type: MoveType::Normal,
    };
    let n1 = Notation::from_mv_with_context(bs, &m1).unwrap().to_string();
    let n2 = Notation::from_mv_with_context(bs, &m2).unwrap().to_string();
    assert_ne!(n1, n2);
    assert_eq!(n1, "Ncd6+");
    assert_eq!(n2, "Ned6+");
}

#[test]
fn test_fools_mate_checkmate() {
    // from the standard start, f3 e5 g4 Qh4# is checkmate
    let mut board = Board::new();
    play(&mut board, "f3");
    play(&mut board, "e5");
    play(&mut board, "g4");
    play(&mut board, "Qh4");
    assert_eq!(board.get_gamestate(), GameState::Checkmate);
    let tip = board.len() - 1;
    let legal = board.get_state_at(tip).get_legal_moves().unwrap();
    assert!(legal.is_empty());
    assert_eq!(board.last_move_string_notation(), "Qh4#");
    assert_eq!(
        board.get_game_over_state(),
        Some(GameOverState::Forced(GameState::Checkmate))
    );
    // a further move fails with the game-over error
    let mv = Move {
        piece: Piece {
            pcolour: PieceColour::White,
            ptype: PieceType::Pawn,
        },
        from: 51,
        to: 43,
        move_type: MoveType::Normal,
    };
    assert!(matches!(
        board.make_move(&mv),
        Err(BoardStateError::GameOver(_))
    ));
}

#[test]
fn test_fen_import_matches_standard_start() {
    // importing the standard-start FEN gives a position hash-equal to a
    // fresh standard board's initial position
    let fen = FEN::from_str("rnbqkbnr/pppppppp/8/8/8/8/PPPPPPPP/RNBQKBNR w KQkq - 0 1").unwrap();
    let board = Board::from_fen(fen);
    assert_eq!(board.len(), 1);
    let fresh = BoardState::new_starting();
    assert_eq!(
        board.get_state_at(0).position_hash,
        fresh.position_hash
    );
    assert_eq!(board.get_state_at(0).board_hash, fresh.board_hash);
}

#[test]
fn test_fen_encode_standard_start() {
    let bs = BoardState::new_starting();
    let fen = FEN::from_position(&bs);
    assert_eq!(
        fen.to_string(),
        "rnbqkbnr/pppppppp/8/8/8/8/PPPPPPPP/RNBQKBNR w KQkq - 0 1"
    );
}

#[test]
fn test_fen_round_trip() {
    // decoding an encoded position gives the position back
    let mut board = Board::new();
    play(&mut board, "e4");
    let tip = board.len() - 1;
    let text = FEN::from_position(board.get_state_at(tip)).to_string();
    assert_eq!(text, "rnbqkbnr/pppppppp/8/8/4P3/8/PPPP1PPP/RNBQKBNR b KQkq e3 0 1");
    let parsed = FEN::from_str(&text).unwrap();
    assert_eq!(parsed.state.position_hash, board.get_state_at(tip).position_hash);
    assert_eq!(parsed.to_string(), text);
}

#[test]
fn test_fen_invalid_inputs() {
    assert!(FEN::from_str("").is_err());
    assert!(FEN::from_str("rnbqkbnr/pppppppp/8/8/8/8/PPPPPPPP w KQkq - 0 1").is_err());
    assert!(FEN::from_str("rnbqkbnr/pppppppp/9/8/8/8/PPPPPPPP/RNBQKBNR w KQkq - 0 1").is_err());
    assert!(FEN::from_str("rnbqkbnr/pppppppp/8/8/8/8/PPPPPPPP/RNBQKBNR x KQkq - 0 1").is_err());
    assert!(FEN::from_str("rnbqkbnr/pppppppp/8/8/8/8/PPPPPPPP/RNBQKBNR w QKkq - 0 1").is_err());
    assert!(FEN::from_str("rnbqkbnr/pppppppp/8/8/8/8/PPPPPPPP/RNBQKBNR w KQkq z9 0 1").is_err());
    assert!(FEN::from_str("rnbqkbnr/pppppppp/8/8/8/8/PPPPPPPP/RNBQKBNR w KQkq - x 1").is_err());
    assert!(FEN::from_str("rnbqkbnr/pppppppp/8/8/8/8/PPPPPPPP/RNBQKBNR w KQkq - 0 0").is_err());
}

#[test]
fn test_search_depth_one_determinism() {
    // at depth 1 from the standard start the search returns the move whose
    // one-ply evaluation is the maximum, ties broken by generation order
    let bs = BoardState::new_starting();
    let legal = bs.get_legal_moves().unwrap();
    let mut best = i32::MIN;
    let mut best_idx = 0;
    for (i, m) in legal.iter().enumerate() {
        let child = bs.next_state(m).unwrap();
        let score = -chess::search::negamax(&child, 0);
        if score > best {
            best = score;
            best_idx = i;
        }
    }
    let (mv, eval) = chess::search::search(&bs, 1).unwrap();
    assert_eq!(mv, legal[best_idx]);
    assert_eq!(eval, best);
    // from the start every reply keeps material level
    assert_eq!(eval, 0);
}

#[test]
fn test_search_rejects_terminal_position() {
    let mut board = Board::new();
    play(&mut board, "f3");
    play(&mut board, "e5");
    play(&mut board, "g4");
    play(&mut board, "Qh4");
    let tip = board.len() - 1;
    let r = chess::search::search(board.get_state_at(tip), 2);
    assert!(matches!(r, Err(BoardStateError::NoLegalMoves(_))));
}

#[test]
fn test_engine_prefers_capture() {
    // with a queen hanging, a depth-2 engine move takes it
    let fen = FEN::from_str("4k3/8/8/3q4/4P3/8/8/4K3 w - - 0 1").unwrap();
    let mut board = Board::from_fen(fen);
    let (mv, eval) = board.make_engine_move(2).unwrap();
    assert_eq!(mv.to, 27);
    assert!(mv.move_type.is_capture());
    assert!(eval > 0);
    assert_eq!(board.len(), 2);
}

#[test]
fn test_castling_and_en_passant() {
    let mut board = Board::new();
    for san in ["e4", "e5", "Nf3", "Nc6", "Bc4", "Bc5"] {
        play(&mut board, san);
    }
    play(&mut board, "O-O");
    assert_eq!(board.last_move_string_notation(), "O-O");
    // en passant: set up a double push beside a white pawn on the fifth rank
    let mut b2 = Board::new();
    for san in ["e4", "a6", "e5", "d5"] {
        play(&mut b2, san);
    }
    let tip = b2.len() - 1;
    let legal = b2.get_state_at(tip).get_legal_moves().unwrap();
    let ep: Vec<&Move> = legal
        .iter()
        .filter(|m| m.move_type == MoveType::EnPassant)
        .collect();
    assert_eq!(ep.len(), 1);
    let ep_mv = *ep[0];
    b2.make_move(&ep_mv).unwrap();
    assert_eq!(b2.last_move_string_notation(), "exd6");
}

#[test]
fn test_promotion_moves() {
    let fen = FEN::from_str("8/4P1k1/8/8/8/8/8/4K3 w - - 0 1").unwrap();
    let bs = &fen.state;
    let legal = bs.get_legal_moves().unwrap();
    let promos: Vec<&Move> = legal
        .iter()
        .filter(|m| matches!(m.move_type, MoveType::Promotion(_, _)))
        .collect();
    assert_eq!(promos.len(), 4);
    let n = Notation::from_str("e8=Q").unwrap();
    let mv = n.to_move_with_context(bs).unwrap();
    assert_eq!(mv.move_type, MoveType::Promotion(PieceType::Queen, false));
    let rendered = Notation::from_mv_with_context(bs, &mv).unwrap().to_string();
    assert_eq!(rendered, "e8=Q");
}

#[test]
fn test_move_not_found() {
    let bs = BoardState::new_starting();
    let n = Notation::from_str("Qh4").unwrap();
    let r = n.to_move_with_context(&bs);
    assert!(matches!(
        r,
        Err(chess::errors::PGNParseError::MoveNotFound(_))
    ));
}

#[test]
fn test_find_states_by_notation() {
    let mut board = Board::new();
    for san in ["e4", "e5", "Nf3", "Nc6"] {
        play(&mut board, san);
    }
    let hits = board.find_states_by_notation("Nf3");
    assert_eq!(hits, vec![3]);
    let hits = board.find_states_by_notation("d4");
    assert!(hits.is_empty());
    // checkout by matching state
    let target = board.get_state_at(2).clone_state();
    board.checkout_state(&target).unwrap();
    assert!(board.is_detatched());
    assert_eq!(board.get_current_move_count(), 2);
}

#[test]
fn test_resign_and_agreed_draw() {
    let mut board = Board::new();
    board.resign(PieceColour::White);
    assert_eq!(
        board.get_game_over_state(),
        Some(GameOverState::WhiteResign)
    );
    assert!(matches!(
        board.make_move(&null_move()),
        Err(BoardStateError::NullMove(_))
    ));
    let mut b2 = Board::new();
    b2.agree_draw();
    assert_eq!(b2.get_game_over_state(), Some(GameOverState::AgreedDraw));
}

#[test]
fn test_move_with_detached_cursor() {
    // a move made while the cursor is detached still commits against the
    // tip of history and re-attaches the cursor; nothing is discarded
    let mut board = Board::new();
    play(&mut board, "e4");
    play(&mut board, "e5");
    board.checkout_prev();
    board.checkout_prev();
    assert!(board.is_detatched());
    assert_eq!(board.get_current_move_count(), 1);
    // Nf3 is legal at the tip (after e4 e5), not at the viewed start position
    let n = Notation::from_str("Nf3").unwrap();
    let mv = n.to_move_with_context(board.get_state_at(2)).unwrap();
    board.make_move(&mv).unwrap();
    assert_eq!(board.len(), 4);
    assert!(!board.is_detatched());
    assert_eq!(board.last_move_string_notation(), "Nf3");
    // the earlier record is intact
    assert_eq!(board.find_states_by_notation("e4"), vec![1]);
}

#[test]
fn test_stalemate_and_insufficient_material() {
    // a classic stalemate: black king cornered
    let fen = FEN::from_str("7k/5Q2/6K1/8/8/8/8/8 b - - 0 1").unwrap();
    let bs = &fen.state;
    assert_eq!(bs.get_gamestate(), GameState::Stalemate);
    // bare kings cannot mate
    let fen = FEN::from_str("4k3/8/8/8/8/8/8/4K3 w - - 0 1").unwrap();
    assert_eq!(fen.state.get_gamestate(), GameState::InsufficientMaterial);
    // fifty-move rule by clock
    let fen = FEN::from_str("4k3/8/8/8/8/8/4R3/4K3 w - - 100 60").unwrap();
    assert_eq!(fen.state.get_gamestate(), GameState::FiftyMove);
}

#[test]
fn test_material_table_edges() {
    // a king and one minor piece cannot mate
    let fen = FEN::from_str("4k3/8/8/8/8/8/4N3/4K3 w - - 0 1").unwrap();
    assert_eq!(fen.state.get_gamestate(), GameState::InsufficientMaterial);
    // knight against knight is not a dead position
    let fen = FEN::from_str("4k3/4n3/8/8/8/8/4N3/4K3 w - - 0 1").unwrap();
    assert_eq!(fen.state.get_gamestate(), GameState::Normal);
    // single bishops on cells of the same colour are a dead position:
    // c1 is dark and f8 is dark
    let fen = FEN::from_str("4kb2/8/8/8/8/8/8/2B1K3 w - - 0 1").unwrap();
    assert_eq!(fen.state.get_gamestate(), GameState::InsufficientMaterial);
    // single bishops on cells of opposite colours are not:
    // c1 is dark and e6 is light
    let fen = FEN::from_str("4k3/8/4b3/8/8/8/8/2B1K3 w - - 0 1").unwrap();
    assert_eq!(fen.state.get_gamestate(), GameState::Normal);
}

#[test]
fn test_threefold_repetition() {
    // shuffling the knights back and forth repeats the start position
    let mut board = Board::new();
    for san in ["Nf3", "Nc6", "Ng1", "Nb8", "Nf3", "Nc6", "Ng1", "Nb8"] {
        play(&mut board, san);
    }
    assert_eq!(board.get_gamestate(), GameState::Repetition);
    assert_eq!(
        board.get_game_over_state(),
        Some(GameOverState::Forced(GameState::Repetition))
    );
}

#[test]
fn test_string_helpers() {
    assert_eq!(chess::util::hash_to_string(255), "ff");
    assert_eq!(chess::util::hash_to_string(0), "0");
    assert_eq!(chess::util::eval_to_string(-125), "-1.25");
    assert_eq!(chess::util::eval_to_string(0), "0.00");
    assert_eq!(chess::util::eval_to_string(905), "9.05");
    assert_eq!(chess::util::index_to_file_notation(62), 'g');
    assert_eq!(chess::util::index_to_rank_notation(62), '1');
}
