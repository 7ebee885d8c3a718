//! The game history: an ordered record of every position reached from the
//! game's start, a browsing cursor independent of the committed tip, and the
//! operations that advance, rewind or search it.
//!
//! Moves are always validated and committed against the position at the tip
//! of history, never the cursor: browsing backwards detaches the cursor but
//! leaves the record alone, and a committed move re-attaches it to the new
//! tip.

use vstd::prelude::*;

use crate::board::{
    spec_apply_move, spec_gamestate, spec_legal_moves, BoardState, BoardStateV,
};
use crate::errors::BoardStateError;
use crate::gamestate::{GameOverState, GameState};
use crate::movegen::Move;
use crate::pieces::PieceColour;

verus! {

/// The mathematical value of a [`Board`]: the recorded positions, the
/// cursor, the detached flag and the game-over status.
pub struct BoardV {
    pub states: Seq<BoardStateV>,
    pub cursor: int,
    pub detached: bool,
    pub game_over: Option<GameOverState>,
}

/// How often position hash `h` occurs among the recorded positions.
pub open spec fn count_hash(states: Seq<BoardStateV>, h: int) -> int
    decreases states.len(),
{
    if states.len() == 0 {
        0
    } else {
        count_hash(states.drop_last(), h) + (if states.last().position_hash == h {
            1int
        } else {
            0int
        })
    }
}

/// The classification of the newest position in the context of the whole
/// history: the position's own classification, upgraded to a repetition draw
/// when its position hash has occurred at least three times and no
/// move-availability state ends the game first.
pub open spec fn spec_board_gamestate(states: Seq<BoardStateV>) -> GameState {
    let tip = states.last();
    let gs = spec_gamestate(tip);
    if (gs is Normal || gs is Check) && count_hash(states, tip.position_hash) >= 3 {
        GameState::Repetition
    } else {
        gs
    }
}

/// The game-over status after the newest position: a rule-based termination
/// wraps its classification; otherwise play goes on.
pub open spec fn spec_game_over_after(states: Seq<BoardStateV>) -> Option<GameOverState> {
    let gs = spec_board_gamestate(states);
    if gs.spec_is_terminal() {
        Some(GameOverState::Forced(gs))
    } else {
        None
    }
}

/// True when every recorded position after the first was reached from its
/// predecessor by a legal move, recorded as its incoming move.
#[verifier::opaque]
pub open spec fn states_linked(states: Seq<BoardStateV>) -> bool {
    forall|i: int|
        1 <= i < states.len() ==> (#[trigger] states[i]).last_move is Some && spec_legal_moves(
            states[i - 1],
        ).contains(states[i].last_move->0) && states[i] == spec_apply_move(
            states[i - 1],
            states[i].last_move->0,
        )
}

/// Appending a position reached from the tip by a legal move keeps the
/// record linked.
pub proof fn lemma_states_linked_push(states: Seq<BoardStateV>, next: BoardStateV, mv: Move)
    requires
        states_linked(states),
        states.len() >= 1,
        spec_legal_moves(states.last()).contains(mv),
        next == spec_apply_move(states.last(), mv),
    ensures
        states_linked(states.push(next)),
{
    reveal(states_linked);
    reveal(crate::board::spec_apply_move);
    let s2 = states.push(next);
    assert(next.last_move == Some(mv));
    assert forall|i: int|
        1 <= i < s2.len() implies (#[trigger] s2[i]).last_move is Some && spec_legal_moves(
        s2[i - 1],
    ).contains(s2[i].last_move->0) && s2[i] == spec_apply_move(s2[i - 1], s2[i].last_move->0) by {
        if i < s2.len() - 1 {
            assert(s2[i] == states[i]);
            assert(s2[i - 1] == states[i - 1]);
        } else {
            assert(s2[i] == next);
            assert(s2[i - 1] == states.last());
        }
    }
}

/// What [`states_linked`] says of one index of the record.
pub proof fn lemma_linked_at(states: Seq<BoardStateV>, i: int)
    requires
        states_linked(states),
        1 <= i < states.len(),
    ensures
        states[i].last_move is Some,
        spec_legal_moves(states[i - 1]).contains(states[i].last_move->0),
        states[i] == spec_apply_move(states[i - 1], states[i].last_move->0),
{
    reveal(states_linked);
}

/// The game history: every position reached from the start (index 0 is the
/// starting position), a cursor selecting the position being viewed, and the
/// game-over status.
pub struct Board {
    states: Vec<BoardState>,
    cursor: usize,
    detached: bool,
    game_over: Option<GameOverState>,
}

impl View for Board {
    type V = BoardV;

    closed spec fn view(&self) -> BoardV {
        BoardV {
            states: Seq::new(self.states@.len(), |i: int| self.states@[i]@),
            cursor: self.cursor as int,
            detached: self.detached,
            game_over: self.game_over,
        }
    }
}

impl Board {
    /// Well-formedness: at least the starting position is recorded, the
    /// cursor stays inside the record and is detached exactly when it is
    /// behind the tip, every recorded position is well formed, and every
    /// later position was reached from its predecessor by a legal move.
    pub open spec fn wf(self) -> bool {
        &&& self@.states.len() >= 1
        &&& 0 <= self@.cursor < self@.states.len()
        &&& self@.detached <==> self@.cursor != self@.states.len() - 1
        &&& forall|i: int|
            0 <= i < self@.states.len() ==> crate::board::state_wf(#[trigger] self@.states[i])
        &&& states_linked(self@.states)
    }

    /// A fresh game from the standard starting position.
    pub fn new() -> (r: Board)
        ensures
            r.wf(),
            r@.states.len() == 1,
            r@.states[0] == crate::board::spec_start_state(),
            r@.states[0].pos == crate::board::spec_start_pos(),
            r@.cursor == 0,
            !r@.detached,
            r@.game_over is None,
    {
        let start = BoardState::new_starting();
        let mut states: Vec<BoardState> = Vec::new();
        states.push(start);
        proof {
            reveal(states_linked);
        }
        Board { states: states, cursor: 0, detached: false, game_over: None }
    }

    /// A fresh game from a given well-formed initial position.
    pub fn from_initial_state(state: BoardState) -> (r: Board)
        requires
            state.wf(),
        ensures
            r.wf(),
            r@.states.len() == 1,
            r@.states[0] == state@,
            r@.cursor == 0,
            !r@.detached,
            r@.game_over is None,
    {
        let mut states: Vec<BoardState> = Vec::new();
        states.push(state);
        proof {
            reveal(states_linked);
        }
        Board { states: states, cursor: 0, detached: false, game_over: None }
    }

    /// A fresh game from a Chess960 starting arrangement derived from `n`.
    pub fn new_chess960(n: u32) -> (r: Board)
        ensures
            r.wf(),
            r@.states.len() == 1,
            r@.cursor == 0,
            !r@.detached,
            r@.game_over is None,
            r@.states[0].side_to_move is White,
    {
        Board::from_initial_state(BoardState::new_chess960(n))
    }

    /// A fresh game whose single recorded position was imported from FEN.
    pub fn from_fen(fen: crate::fen::FEN) -> (r: Board)
        requires
            fen.state.wf(),
        ensures
            r.wf(),
            r@.states.len() == 1,
            r@.states[0] == fen@,
            r@.cursor == 0,
            !r@.detached,
            r@.game_over is None,
    {
        Board::from_initial_state(fen.state)
    }

    /// The position the cursor views.
    pub fn get_current_state(&self) -> (r: &BoardState)
        requires
            self.wf(),
        ensures
            r@ == self@.states[self@.cursor],
            r.wf(),
    {
        &self.states[self.cursor]
    }

    /// The recorded position at index `i`.
    pub fn get_state_at(&self, i: usize) -> (r: &BoardState)
        requires
            self.wf(),
            i < self@.states.len(),
        ensures
            r@ == self@.states[i as int],
            r.wf(),
    {
        &self.states[i]
    }

    /// The number of recorded positions.
    pub fn len(&self) -> (r: usize)
        ensures
            r == self@.states.len(),
    {
        self.states.len()
    }

    /// The side to move at the tip of history.
    pub fn get_side_to_move(&self) -> (r: PieceColour)
        requires
            self.wf(),
        ensures
            r == self@.states.last().side_to_move,
    {
        self.states[self.states.len() - 1].side_to_move
    }

    /// The fullmove counter of the position the cursor views.
    pub fn get_current_move_count(&self) -> (r: u32)
        requires
            self.wf(),
        ensures
            r == self@.states[self@.cursor].movecount,
    {
        self.states[self.cursor].movecount
    }

    /// The game-over status, if the game has ended.
    pub fn get_game_over_state(&self) -> (r: Option<GameOverState>)
        ensures
            r == self@.game_over,
    {
        self.game_over
    }

    /// True when the cursor is behind the tip of history.
    pub fn is_detatched(&self) -> (r: bool)
        ensures
            r == self@.detached,
    {
        self.detached
    }

    /// Records a resignation by `colour`: the game is over.
    pub fn resign(&mut self, colour: PieceColour)
        requires
            old(self).wf(),
        ensures
            final(self).wf(),
            final(self)@.states == old(self)@.states,
            final(self)@.cursor == old(self)@.cursor,
            final(self)@.detached == old(self)@.detached,
            final(self)@.game_over == Some(
                match colour {
                    PieceColour::White => GameOverState::WhiteResign,
                    PieceColour::Black => GameOverState::BlackResign,
                },
            ),
    {
        self.game_over = Some(
            match colour {
                PieceColour::White => GameOverState::WhiteResign,
                PieceColour::Black => GameOverState::BlackResign,
            },
        );
    }

    /// Records an agreed draw: the game is over.
    pub fn agree_draw(&mut self)
        requires
            old(self).wf(),
        ensures
            final(self).wf(),
            final(self)@.states == old(self)@.states,
            final(self)@.cursor == old(self)@.cursor,
            final(self)@.detached == old(self)@.detached,
            final(self)@.game_over == Some(GameOverState::AgreedDraw),
    {
        self.game_over = Some(GameOverState::AgreedDraw);
    }

    /// The classification of the tip position in the context of the whole
    /// history, as [`spec_board_gamestate`] says.
    pub fn get_gamestate(&self) -> (r: GameState)
        requires
            self.wf(),
        ensures
            r == spec_board_gamestate(self@.states),
    {
        let tip_idx = self.states.len() - 1;
        let gs = self.states[tip_idx].get_gamestate();
        let keep = match gs {
            GameState::Normal | GameState::Check => false,
            _ => true,
        };
        if keep {
            return gs;
        }
        let h = self.states[tip_idx].position_hash;
        let mut count: u64 = 0;
        let mut i: usize = 0;
        while i < self.states.len()
            invariant
                self.wf(),
                i <= self@.states.len(),
                count <= i,
                count == count_hash(self@.states.subrange(0, i as int), h as int),
            decreases self@.states.len() - i,
        {
            if self.states[i].position_hash == h {
                count = count + 1;
            }
            i = i + 1;
            proof {
                let pre = self@.states.subrange(0, i as int);
                assert(pre.drop_last() =~= self@.states.subrange(0, i - 1));
                assert(pre.last() == self@.states[i - 1]);
            }
        }
        proof {
            assert(self@.states.subrange(0, i as int) =~= self@.states);
        }
        if count >= 3 {
            GameState::Repetition
        } else {
            gs
        }
    }

    /// Plays `mv` against the tip of history. The reserved null move always
    /// fails with the null-move error, whatever the position; after that, a
    /// finished game fails with the game-over error, and a move outside the
    /// tip's legal set fails with the illegal-move error. On success the new
    /// position is appended, the cursor re-attaches to the new tip, and the
    /// game-over status follows the new position's classification. On any
    /// failure the board is left exactly as it was.
    #[verifier::rlimit(100)]
    pub fn make_move(&mut self, mv: &Move) -> (r: Result<(), BoardStateError>)
        requires
            old(self).wf(),
        ensures
            final(self).wf(),
            r is Ok <==> (!mv.spec_is_null() && old(self)@.game_over is None && spec_legal_moves(
                old(self)@.states.last(),
            ).contains(*mv)),
            r is Ok ==> final(self)@.states == old(self)@.states.push(
                spec_apply_move(old(self)@.states.last(), *mv),
            ) && final(self)@.cursor == old(self)@.states.len() && !final(self)@.detached && final(self)@.game_over == spec_game_over_after(final(self)@.states),
            r is Err ==> final(self)@ == old(self)@ && (if mv.spec_is_null() {
                r->Err_0 is NullMove
            } else if old(self)@.game_over is Some {
                r->Err_0 is GameOver
            } else {
                r->Err_0 is IllegalMove
            }),
    {
        if mv.is_null() {
            return Err(
                BoardStateError::NullMove(
                    String::from_str("the reserved null move cannot be played"),
                ),
            );
        }
        if let Some(gos) = self.game_over {
            return Err(BoardStateError::GameOver(gos));
        }
        let tip_idx = self.states.len() - 1;
        let next = match self.states[tip_idx].next_state(mv) {
            Ok(b) => b,
            Err(e) => {
                return Err(e);
            },
        };
        let ghost next_v = next@;
        self.states.push(next);
        self.cursor = tip_idx + 1;
        self.detached = false;
        proof {
            assert(self@.states =~= old(self)@.states.push(
                spec_apply_move(old(self)@.states.last(), *mv),
            ));
            lemma_states_linked_push(old(self)@.states, next_v, *mv);
            assert forall|i: int|
                0 <= i < self@.states.len() implies crate::board::state_wf(
                #[trigger] self@.states[i],
            ) by {
                if i < self@.states.len() - 1 {
                    assert(self@.states[i] == old(self)@.states[i]);
                }
            }
        }
        let gs = self.get_gamestate();
        self.game_over = if gs.is_terminal() {
            Some(GameOverState::Forced(gs))
        } else {
            None
        };
        Ok(())
    }

    /// Moves the cursor one step back, if it can go back, and returns
    /// whether the cursor is now detached from the tip. The record itself
    /// never changes.
    pub fn checkout_prev(&mut self) -> (r: bool)
        requires
            old(self).wf(),
        ensures
            final(self).wf(),
            final(self)@.states == old(self)@.states,
            final(self)@.game_over == old(self)@.game_over,
            final(self)@.cursor == (if old(self)@.cursor > 0 {
                old(self)@.cursor - 1
            } else {
                0int
            }),
            r == final(self)@.detached,
    {
        if self.cursor > 0 {
            self.cursor = self.cursor - 1;
        }
        self.detached = self.cursor != self.states.len() - 1;
        self.detached
    }

    /// Moves the cursor one step forward, up to the tip, and returns whether
    /// the cursor is still detached from the tip. The record itself never
    /// changes.
    pub fn checkout_next(&mut self) -> (r: bool)
        requires
            old(self).wf(),
        ensures
            final(self).wf(),
            final(self)@.states == old(self)@.states,
            final(self)@.game_over == old(self)@.game_over,
            final(self)@.cursor == (if old(self)@.cursor + 1 < old(self)@.states.len() {
                old(self)@.cursor + 1
            } else {
                old(self)@.states.len() - 1
            }),
            r == final(self)@.detached,
    {
        let n = self.states.len();
        if self.cursor + 1 < n {
            self.cursor = self.cursor + 1;
        }
        self.detached = self.cursor != n - 1;
        self.detached
    }

    /// Re-attaches the cursor to the tip of history and clears the detached
    /// flag, from wherever the cursor stood.
    pub fn checkout_latest_state(&mut self)
        requires
            old(self).wf(),
        ensures
            final(self).wf(),
            final(self)@.states == old(self)@.states,
            final(self)@.game_over == old(self)@.game_over,
            final(self)@.cursor == old(self)@.states.len() - 1,
            !final(self)@.detached,
    {
        self.cursor = self.states.len() - 1;
        self.detached = false;
    }

    /// Sets the cursor to the first recorded position whose record hash
    /// equals the given position's; fails with the illegal-move error when
    /// none matches. The record itself never changes.
    #[verifier::rlimit(100)]
    pub fn checkout_state(&mut self, state: &BoardState) -> (r: Result<(), BoardStateError>)
        requires
            old(self).wf(),
        ensures
            final(self).wf(),
            final(self)@.states == old(self)@.states,
            final(self)@.game_over == old(self)@.game_over,
            r is Ok <==> (exists|i: int|
                0 <= i < old(self)@.states.len() && (#[trigger] old(self)@.states[i]).board_hash
                    == state@.board_hash),
            r is Ok ==> 0 <= final(self)@.cursor < final(self)@.states.len() && final(self)@.states[final(self)@.cursor].board_hash == state@.board_hash,
            r is Err ==> final(self)@ == old(self)@,
    {
        let n = self.states.len();
        let mut i: usize = 0;
        let mut found: usize = n;
        while i < n
            invariant
                *self == *old(self),
                self.wf(),
                n == self@.states.len(),
                i <= n,
                found <= n,
                found == n ==> forall|j: int|
                    0 <= j < i ==> (#[trigger] self@.states[j]).board_hash != state@.board_hash,
                found < n ==> self@.states[found as int].board_hash == state@.board_hash,
            decreases n - i,
        {
            if found == n && self.states[i].board_hash == state.board_hash {
                found = i;
            }
            i = i + 1;
        }
        if found < n {
            self.cursor = found;
            self.detached = found != n - 1;
            proof {
                assert(self@.states =~= old(self)@.states);
            }
            Ok(())
        } else {
            Err(BoardStateError::IllegalMove(String::from_str("no recorded state matches")))
        }
    }
}

/// The SAN text of the move that produced position `i` of the record,
/// rendered against its parent position.
#[verifier::opaque]
pub open spec fn san_at(b: BoardV, i: int) -> Seq<char> {
    crate::notation::spec_render(
        crate::notation::spec_notation_for_move(b.states[i - 1], b.states[i].last_move->0),
    )
}

impl Board {
    /// The SAN text of the move that produced the position the cursor views,
    /// or the empty string at the starting position.
    pub fn last_move_string_notation(&self) -> (r: String)
        requires
            self.wf(),
        ensures
            self@.cursor == 0 ==> r@ == Seq::<char>::empty(),
            self@.cursor > 0 ==> r@ == san_at(self@, self@.cursor),
    {
        if self.cursor == 0 {
            return String::new();
        }
        proof {
            reveal(san_at);
            lemma_linked_at(self@.states, self@.cursor);
        }
        let mv = match self.states[self.cursor].last_move {
            Some(m) => m,
            None => {
                proof {
                    assert(false);
                }
                return String::new();
            },
        };
        match crate::notation::Notation::from_mv_with_context(&self.states[self.cursor - 1], &mv) {
            Ok(n) => n.to_string(),
            Err(_) => {
                proof {
                    assert(false);
                }
                String::new()
            },
        }
    }

    /// The SAN texts of every move of the record, in game order: entry `i`
    /// is the text of the move that produced position `i + 1`.
    pub fn move_history_string_notation(&self) -> (r: Vec<String>)
        requires
            self.wf(),
        ensures
            r@.len() == self@.states.len() - 1,
            forall|i: int| 0 <= i < r@.len() ==> (#[trigger] r@[i])@ == san_at(self@, i + 1),
    {
        let mut result: Vec<String> = Vec::new();
        let n = self.states.len();
        let mut i: usize = 1;
        while i < n
            invariant
                self.wf(),
                states_linked(self@.states),
                1 <= i <= n,
                n == self@.states.len(),
                result@.len() == i - 1,
                forall|j: int| 0 <= j < result@.len() ==> (#[trigger] result@[j])@ == san_at(
                    self@,
                    j + 1,
                ),
            decreases n - i,
        {
            proof {
                reveal(san_at);
                lemma_linked_at(self@.states, i as int);
            }
            let mv = match self.states[i].last_move {
                Some(m) => m,
                None => {
                    proof {
                        assert(false);
                    }
                    return result;
                },
            };
            let text = match crate::notation::Notation::from_mv_with_context(
                &self.states[i - 1],
                &mv,
            ) {
                Ok(notation) => notation.to_string(),
                Err(_) => {
                    proof {
                        assert(false);
                    }
                    return result;
                },
            };
            result.push(text);
            i = i + 1;
        }
        result
    }

    /// The indices of every recorded position whose incoming move renders as
    /// exactly `text`, in game order. More than one index is possible when
    /// the same SAN text recurs; choosing between them is the caller's
    /// responsibility.
    pub fn find_states_by_notation(&self, text: &str) -> (r: Vec<usize>)
        requires
            self.wf(),
        ensures
            forall|k: int|
                0 <= k < r@.len() ==> 1 <= #[trigger] r@[k] < self@.states.len() && san_at(
                    self@,
                    r@[k] as int,
                ) == text@,
            forall|i: int|
                1 <= i < self@.states.len() && san_at(self@, i) == text@ ==> (exists|k: int|
                    0 <= k < r@.len() && r@[k] == i),
    {
        let moves = self.move_history_string_notation();
        let mut result: Vec<usize> = Vec::new();
        let mut i: usize = 0;
        while i < moves.len()
            invariant
                self.wf(),
                moves@.len() == self@.states.len() - 1,
                forall|j: int| 0 <= j < moves@.len() ==> (#[trigger] moves@[j])@ == san_at(
                    self@,
                    j + 1,
                ),
                i <= moves@.len(),
                forall|k: int|
                    0 <= k < result@.len() ==> 1 <= #[trigger] result@[k] < self@.states.len()
                        && san_at(self@, result@[k] as int) == text@,
                forall|j: int|
                    1 <= j < i + 1 && san_at(self@, j) == text@ ==> (exists|k: int|
                        0 <= k < result@.len() && result@[k] == j),
            decreases moves@.len() - i,
        {
            let entry: &String = &moves[i];
            let ghost pre = result@;
            if crate::text::str_eq(entry.as_str(), text) {
                result.push(i + 1);
            }
            i = i + 1;
            proof {
                assert forall|j: int|
                    1 <= j < i + 1 && san_at(self@, j) == text@ implies (exists|k: int|
                    0 <= k < result@.len() && result@[k] == j) by {
                    if j < i {
                        let k = choose|k: int| 0 <= k < pre.len() && pre[k] == j;
                        assert(result@[k] == j);
                    } else {
                        assert(moves@[i - 1]@ == san_at(self@, i as int));
                        assert(result@[result@.len() - 1] == j);
                    }
                }
            }
        }
        result
    }
}

impl Board {
    /// Searches `depth` plies ahead from the tip of history, commits the
    /// chosen move, and returns it with its signed evaluation. A finished
    /// game fails with the game-over error and a terminal tip position with
    /// the no-legal-moves error; on failure the board is left as it was.
    pub fn make_engine_move(&mut self, depth: u8) -> (r: Result<
        (Move, i32),
        BoardStateError,
    >)
        requires
            old(self).wf(),
            depth >= 1,
        ensures
            final(self).wf(),
            r is Ok <==> (old(self)@.game_over is None && spec_legal_moves(
                old(self)@.states.last(),
            ).len() > 0),
            r is Err ==> final(self)@ == old(self)@ && (if old(self)@.game_over is Some {
                r->Err_0 is GameOver
            } else {
                r->Err_0 is NoLegalMoves
            }),
            r is Ok ==> ({
                let tip = old(self)@.states.last();
                let ms = spec_legal_moves(tip);
                let best = crate::search::best_from(tip, ms, 0, depth as nat);
                &&& final(self)@.states == old(self)@.states.push(
                    spec_apply_move(tip, r->Ok_0.0),
                )
                &&& final(self)@.cursor == old(self)@.states.len()
                &&& !final(self)@.detached
                &&& (exists|i: int|
                    0 <= i < ms.len() && r->Ok_0.0 == ms[i] && crate::search::reply_score(
                        tip,
                        ms[i],
                        depth as nat,
                    ) == best && (forall|j: int|
                        0 <= j < i ==> crate::search::reply_score(tip, #[trigger] ms[j], depth as nat)
                            < best))
                &&& r->Ok_0.1 == (if tip.side_to_move is White {
                    best
                } else {
                    -best
                })
            }),
    {
        if let Some(gos) = self.game_over {
            return Err(BoardStateError::GameOver(gos));
        }
        let tip_idx = self.states.len() - 1;
        let (mv, eval) = match crate::search::search(&self.states[tip_idx], depth) {
            Ok(pair) => pair,
            Err(e) => {
                return Err(e);
            },
        };
        proof {
            let tip = self@.states.last();
            let ms = spec_legal_moves(tip);
            let i = choose|i: int|
                0 <= i < ms.len() && mv == ms[i] && crate::search::reply_score(
                    tip,
                    ms[i],
                    depth as nat,
                ) == crate::search::best_from(tip, ms, 0, depth as nat) && (forall|j: int|
                    0 <= j < i ==> crate::search::reply_score(tip, #[trigger] ms[j], depth as nat)
                        < crate::search::best_from(tip, ms, 0, depth as nat));
            assert(ms.contains(mv));
            crate::board::lemma_legal_move_ok(tip, mv);
            assert(mv.to < 64);
        }
        match self.make_move(&mv) {
            Ok(()) => Ok((mv, eval)),
            Err(_) => {
                proof {
                    assert(false);
                }
                Err(BoardStateError::NullMove(String::new()))
            },
        }
    }
}

} // verus!
