//! The search engine: a depth-bounded adversarial tree search over the legal
//! moves, with a material evaluation at the leaves. The chosen move is the
//! first, in generation order, whose line reaches the best value for the
//! side to move; the reported evaluation is signed with positive values
//! favouring White.

use vstd::prelude::*;

use crate::board::{spec_apply_move, spec_in_check, spec_legal_moves, BoardState, BoardStateV};
use crate::errors::BoardStateError;
use crate::movegen::Move;
use crate::pieces::{PieceColour, PieceType, Square};

verus! {

/// The value of a mated side, beyond any material difference.
pub const MATE_VALUE: i32 = 1000000;

/// The material value of a piece kind, in centipawns.
pub open spec fn spec_piece_value(t: PieceType) -> int {
    match t {
        PieceType::Pawn => 100,
        PieceType::Knight => 320,
        PieceType::Bishop => 330,
        PieceType::Rook => 500,
        PieceType::Queen => 900,
        PieceType::King => 0,
    }
}

/// The signed material sum from cell `i` onwards: White pieces count
/// positive, Black pieces negative.
pub open spec fn eval_from(pos: Seq<Square>, i: int) -> int
    decreases 64 - i,
{
    if i < 0 || i >= 64 {
        0
    } else {
        (match pos[i] {
            Square::Piece(p) => (match p.pcolour {
                PieceColour::White => spec_piece_value(p.ptype),
                PieceColour::Black => -spec_piece_value(p.ptype),
            }),
            Square::Empty => 0int,
        }) + eval_from(pos, i + 1)
    }
}

/// The static evaluation of a position: the signed material sum, positive
/// for White.
pub open spec fn spec_eval(pos: Seq<Square>) -> int {
    eval_from(pos, 0)
}

/// The static evaluation from the side to move's own point of view.
pub open spec fn side_eval(v: BoardStateV) -> int {
    if v.side_to_move is White {
        spec_eval(v.pos)
    } else {
        -spec_eval(v.pos)
    }
}

/// The larger of two values.
pub open spec fn spec_max(a: int, b: int) -> int {
    if a >= b {
        a
    } else {
        b
    }
}

/// The value of a position for the side to move, looking `depth` plies
/// ahead: a mated side scores the mate value against it, a stalemated side
/// scores zero, a leaf scores its static evaluation, and otherwise the best
/// reply counts, each reply scoring the negated value of the position it
/// reaches.
pub open spec fn value_of(v: BoardStateV, depth: nat) -> int
    decreases depth, 1int, 0int,
{
    let ms = spec_legal_moves(v);
    if ms.len() == 0 {
        if spec_in_check(v.pos, v.side_to_move) {
            -(MATE_VALUE as int)
        } else {
            0
        }
    } else if depth == 0 {
        side_eval(v)
    } else {
        best_from(v, ms, 0, depth)
    }
}

/// The best reply value among the moves of `ms` from index `i` onwards.
pub open spec fn best_from(v: BoardStateV, ms: Seq<Move>, i: int, depth: nat) -> int
    decreases depth, 0int, ms.len() - i,
{
    if i < 0 || i >= ms.len() || depth == 0 {
        -2 * (MATE_VALUE as int)
    } else {
        spec_max(
            -value_of(spec_apply_move(v, ms[i]), (depth - 1) as nat),
            best_from(v, ms, i + 1, depth),
        )
    }
}

/// The score of one reply: the negated value of the position it reaches.
pub open spec fn reply_score(v: BoardStateV, m: Move, depth: nat) -> int {
    -value_of(spec_apply_move(v, m), (depth - 1) as nat)
}

/// The signed material sum stays within one mate value.
pub proof fn lemma_eval_bound(pos: Seq<Square>, i: int)
    requires
        0 <= i <= 64,
    ensures
        -(64 - i) * 900 <= eval_from(pos, i) <= (64 - i) * 900,
        -(MATE_VALUE as int) < eval_from(pos, i) < MATE_VALUE as int,
    decreases 64 - i,
{
    if 0 <= i < 64 {
        lemma_eval_bound(pos, i + 1);
    }
}

/// The value of any position stays within one mate value, and the best reply
/// among any moves within two.
pub proof fn lemma_value_bound(v: BoardStateV, ms: Seq<Move>, i: int, depth: nat)
    ensures
        -(MATE_VALUE as int) <= value_of(v, depth) <= MATE_VALUE as int,
        -2 * (MATE_VALUE as int) <= best_from(v, ms, i, depth) <= MATE_VALUE as int,
    decreases depth, 1int, ms.len() - i,
{
    lemma_eval_bound(v.pos, 0);
    if depth > 0 {
        lemma_best_bound(v, spec_legal_moves(v), 0, depth);
        lemma_best_bound(v, ms, i, depth);
        if spec_legal_moves(v).len() > 0 {
            lemma_best_some(v, spec_legal_moves(v), 0, depth);
        }
    }
}

/// The best reply among any moves stays within the mate bounds.
pub proof fn lemma_best_bound(v: BoardStateV, ms: Seq<Move>, i: int, depth: nat)
    requires
        depth > 0,
    ensures
        -2 * (MATE_VALUE as int) <= best_from(v, ms, i, depth) <= MATE_VALUE as int,
    decreases depth, 0int, ms.len() - i,
{
    if 0 <= i < ms.len() {
        lemma_value_bound(spec_apply_move(v, ms[i]), Seq::empty(), 0, (depth - 1) as nat);
        lemma_best_bound(v, ms, i + 1, depth);
    }
}

/// With at least one move to pick, the best reply value exceeds the
/// sentinel floor.
pub proof fn lemma_best_some(v: BoardStateV, ms: Seq<Move>, i: int, depth: nat)
    requires
        depth > 0,
        0 <= i < ms.len(),
    ensures
        best_from(v, ms, i, depth) >= -(MATE_VALUE as int),
    decreases depth, 0int, ms.len() - i,
{
    lemma_value_bound(spec_apply_move(v, ms[i]), Seq::empty(), 0, (depth - 1) as nat);
    lemma_best_bound(v, ms, i + 1, depth);
}

/// At depth one, a reply of the search scores the static evaluation of the
/// position it reaches, taken for the searching side: the mate value when
/// the reply mates, zero when it stalemates. With the contract of
/// [`search`], the depth-one result is therefore the first move, in
/// generation order, whose one-ply evaluation is the maximum, and repeated
/// calls return the same move.
pub proof fn lemma_depth_one_reply_score(v: BoardStateV, m: Move)
    ensures
        reply_score(v, m, 1) == ({
            let child = spec_apply_move(v, m);
            if spec_legal_moves(child).len() == 0 {
                if spec_in_check(child.pos, child.side_to_move) {
                    MATE_VALUE as int
                } else {
                    0int
                }
            } else {
                -side_eval(child)
            }
        }),
{
}

/// The static evaluation of a position, as [`spec_eval`] says.
pub fn evaluate(pos: &Vec<Square>) -> (r: i32)
    requires
        pos@.len() == 64,
    ensures
        r == spec_eval(pos@),
{
    let mut acc: i32 = 0;
    let mut i: usize = 0;
    while i < 64
        invariant
            i <= 64,
            pos@.len() == 64,
            -900 * i <= acc <= 900 * i,
            spec_eval(pos@) == acc + eval_from(pos@, i as int),
        decreases 64 - i,
    {
        let d: i32 = match pos[i] {
            Square::Piece(p) => {
                let val: i32 = match p.ptype {
                    PieceType::Pawn => 100,
                    PieceType::Knight => 320,
                    PieceType::Bishop => 330,
                    PieceType::Rook => 500,
                    PieceType::Queen => 900,
                    PieceType::King => 0,
                };
                match p.pcolour {
                    PieceColour::White => val,
                    PieceColour::Black => -val,
                }
            },
            Square::Empty => 0,
        };
        acc = acc + d;
        i = i + 1;
    }
    proof {
        lemma_eval_bound(pos@, 64);
    }
    acc
}

/// The value of a position for the side to move, as [`value_of`] says.
pub fn negamax(state: &BoardState, depth: u8) -> (r: i32)
    requires
        state.wf(),
    ensures
        r == value_of(state@, depth as nat),
        -(MATE_VALUE as int) <= r <= MATE_VALUE as int,
    decreases depth,
{
    proof {
        lemma_value_bound(state@, Seq::empty(), 0, depth as nat);
    }
    let legal = match state.get_legal_moves() {
        Ok(moves) => moves,
        Err(_) => {
            proof {
                assert(false);
            }
            return 0;
        },
    };
    if legal.len() == 0 {
        if state.is_in_check() {
            return -MATE_VALUE;
        } else {
            return 0;
        }
    }
    if depth == 0 {
        let e = evaluate(&state.pos64);
        proof {
            lemma_eval_bound(state@.pos, 0);
        }
        return match state.side_to_move {
            PieceColour::White => e,
            PieceColour::Black => -e,
        };
    }
    let mut best: i32 = -2 * MATE_VALUE;
    let mut i: usize = 0;
    while i < legal.len()
        invariant
            state.wf(),
            depth >= 1,
            legal@ == spec_legal_moves(state@),
            legal@.len() > 0,
            i <= legal@.len(),
            -2 * (MATE_VALUE as int) <= best <= MATE_VALUE as int,
            spec_max(best as int, best_from(state@, legal@, i as int, depth as nat)) == best_from(
                state@,
                legal@,
                0,
                depth as nat,
            ),
            forall|k: int|
                0 <= k < legal@.len() ==> crate::board::move_ok(state@, #[trigger] legal@[k]),
        decreases legal@.len() - i,
    {
        let m = legal[i];
        let child = match state.next_state(&m) {
            Ok(b) => b,
            Err(_) => {
                proof {
                    assert(spec_legal_moves(state@).contains(legal@[i as int]));
                    assert(crate::board::move_ok(state@, legal@[i as int]));
                    assert(legal@[i as int].to < 64);
                    assert(false);
                }
                return 0;
            },
        };
        let score = -negamax(&child, depth - 1);
        proof {
            lemma_value_bound(child@, Seq::empty(), 0, (depth - 1) as nat);
            lemma_best_bound(state@, legal@, i + 1, depth as nat);
        }
        if score > best {
            best = score;
        }
        i = i + 1;
    }
    proof {
        lemma_best_some(state@, legal@, 0, depth as nat);
    }
    best
}

/// Searches `depth` plies ahead from `state` and returns the first move, in
/// generation order, whose line reaches the best value for the side to move,
/// together with the signed evaluation of that line (positive favours
/// White). Fails with the no-legal-moves error, carrying the position's
/// classification, exactly when the position is terminal.
pub fn search(state: &BoardState, depth: u8) -> (r: Result<(Move, i32), BoardStateError>)
    requires
        state.wf(),
        depth >= 1,
    ensures
        r is Ok <==> spec_legal_moves(state@).len() > 0,
        r is Err ==> r->Err_0 is NoLegalMoves,
        r is Ok ==> ({
            let ms = spec_legal_moves(state@);
            let best = best_from(state@, ms, 0, depth as nat);
            &&& (exists|i: int|
                0 <= i < ms.len() && r->Ok_0.0 == ms[i] && reply_score(state@, ms[i], depth as nat)
                    == best && (forall|j: int|
                    0 <= j < i ==> reply_score(state@, #[trigger] ms[j], depth as nat) < best))
            &&& r->Ok_0.1 == (if state@.side_to_move is White {
                best
            } else {
                -best
            })
        }),
{
    let legal = match state.get_legal_moves() {
        Ok(moves) => moves,
        Err(e) => {
            proof {
                assert(false);
            }
            return Err(e);
        },
    };
    if legal.len() == 0 {
        let gs = state.classify(&legal);
        return Err(BoardStateError::NoLegalMoves(gs));
    }
    proof {
        lemma_best_bound(state@, legal@, 0, depth as nat);
    }
    let mut best: i32 = -2 * MATE_VALUE;
    let mut best_idx: usize = 0;
    let mut i: usize = 0;
    while i < legal.len()
        invariant
            state.wf(),
            depth >= 1,
            legal@ == spec_legal_moves(state@),
            legal@.len() > 0,
            i <= legal@.len(),
            -2 * (MATE_VALUE as int) <= best <= MATE_VALUE as int,
            spec_max(best as int, best_from(state@, legal@, i as int, depth as nat)) == best_from(
                state@,
                legal@,
                0,
                depth as nat,
            ),
            i > 0 ==> (best_idx < i && reply_score(state@, legal@[best_idx as int], depth as nat)
                == best && (forall|j: int|
                0 <= j < best_idx ==> reply_score(state@, #[trigger] legal@[j], depth as nat)
                    < best) && (forall|j: int|
                0 <= j < i ==> reply_score(state@, #[trigger] legal@[j], depth as nat) <= best)),
            i == 0 ==> best == -2 * (MATE_VALUE as int),
            forall|k: int|
                0 <= k < legal@.len() ==> crate::board::move_ok(state@, #[trigger] legal@[k]),
        decreases legal@.len() - i,
    {
        let m = legal[i];
        let child = match state.next_state(&m) {
            Ok(b) => b,
            Err(_) => {
                proof {
                    assert(spec_legal_moves(state@).contains(legal@[i as int]));
                    assert(crate::board::move_ok(state@, legal@[i as int]));
                    assert(legal@[i as int].to < 64);
                    assert(false);
                }
                return Err(BoardStateError::NullMove(String::new()));
            },
        };
        let score = -negamax(&child, depth - 1);
        proof {
            lemma_value_bound(child@, Seq::empty(), 0, (depth - 1) as nat);
            lemma_best_bound(state@, legal@, i + 1, depth as nat);
        }
        if score > best {
            best = score;
            best_idx = i;
        }
        i = i + 1;
    }
    proof {
        lemma_best_some(state@, legal@, 0, depth as nat);
    }
    let chosen = legal[best_idx];
    let eval: i32 = match state.side_to_move {
        PieceColour::White => best,
        PieceColour::Black => -best,
    };
    Ok((chosen, eval))
}

} // verus!
