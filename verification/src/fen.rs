//! The FEN codec: conversion between a position and the standard six-field
//! interchange text (piece placement by rank, active colour, castling
//! availability, en-passant target, halfmove clock, fullmove number).
//!
//! Decoding checks structural well-formedness (eight ranks of eight files,
//! valid field shapes); it does not judge chess-legality of the arrangement.

use vstd::prelude::*;

use crate::board::{BoardState, BoardStateV};
use crate::errors::FenParseError;
use crate::pieces::{Piece, PieceColour, PieceType, Square};
use crate::text::{all_digits, dec_digits, dec_value, digit_char};

verus! {

/// The FEN piece letter of a piece: upper case for White, lower case for
/// Black.
pub open spec fn spec_piece_fen_char(p: Piece) -> char {
    match p.pcolour {
        PieceColour::White => match p.ptype {
            PieceType::Pawn => 'P',
            PieceType::Knight => 'N',
            PieceType::Bishop => 'B',
            PieceType::Rook => 'R',
            PieceType::Queen => 'Q',
            PieceType::King => 'K',
        },
        PieceColour::Black => match p.ptype {
            PieceType::Pawn => 'p',
            PieceType::Knight => 'n',
            PieceType::Bishop => 'b',
            PieceType::Rook => 'r',
            PieceType::Queen => 'q',
            PieceType::King => 'k',
        },
    }
}

/// The piece a FEN letter stands for.
pub open spec fn spec_fen_char_piece(c: char) -> Option<Piece> {
    if c == 'P' {
        Some(Piece { pcolour: PieceColour::White, ptype: PieceType::Pawn })
    } else if c == 'N' {
        Some(Piece { pcolour: PieceColour::White, ptype: PieceType::Knight })
    } else if c == 'B' {
        Some(Piece { pcolour: PieceColour::White, ptype: PieceType::Bishop })
    } else if c == 'R' {
        Some(Piece { pcolour: PieceColour::White, ptype: PieceType::Rook })
    } else if c == 'Q' {
        Some(Piece { pcolour: PieceColour::White, ptype: PieceType::Queen })
    } else if c == 'K' {
        Some(Piece { pcolour: PieceColour::White, ptype: PieceType::King })
    } else if c == 'p' {
        Some(Piece { pcolour: PieceColour::Black, ptype: PieceType::Pawn })
    } else if c == 'n' {
        Some(Piece { pcolour: PieceColour::Black, ptype: PieceType::Knight })
    } else if c == 'b' {
        Some(Piece { pcolour: PieceColour::Black, ptype: PieceType::Bishop })
    } else if c == 'r' {
        Some(Piece { pcolour: PieceColour::Black, ptype: PieceType::Rook })
    } else if c == 'q' {
        Some(Piece { pcolour: PieceColour::Black, ptype: PieceType::Queen })
    } else if c == 'k' {
        Some(Piece { pcolour: PieceColour::Black, ptype: PieceType::King })
    } else {
        None
    }
}

/// The FEN text of the cells of one rank from column `c` onwards, with `run`
/// empty cells pending: empties collapse to one digit, written before the
/// next piece letter or the end of the rank.
pub open spec fn render_row_from(row: Seq<Square>, c: int, run: int) -> Seq<char>
    decreases 8 - c,
{
    if c < 0 || c >= 8 {
        if run > 0 {
            seq![digit_char(run)]
        } else {
            Seq::empty()
        }
    } else {
        match row[c] {
            Square::Empty => render_row_from(row, c + 1, run + 1),
            Square::Piece(p) => (if run > 0 {
                seq![digit_char(run)]
            } else {
                Seq::empty()
            }) + seq![spec_piece_fen_char(p)] + render_row_from(row, c + 1, 0),
        }
    }
}

/// The cells of rank-row `r` of a position.
pub open spec fn row_of(pos: Seq<Square>, r: int) -> Seq<Square> {
    pos.subrange(r * 8, r * 8 + 8)
}

/// The placement field: the eight rank texts joined by `/`, top rank first.
pub open spec fn render_placement_from(pos: Seq<Square>, r: int) -> Seq<char>
    decreases 8 - r,
{
    if r < 0 || r >= 8 {
        Seq::empty()
    } else {
        (if r > 0 {
            seq!['/']
        } else {
            Seq::empty()
        }) + render_row_from(row_of(pos, r), 0, 0) + render_placement_from(pos, r + 1)
    }
}

/// The castling field: the letters of the rights still held, or `-`.
pub open spec fn render_castling(wk: bool, wq: bool, bk: bool, bq: bool) -> Seq<char> {
    if !wk && !wq && !bk && !bq {
        seq!['-']
    } else {
        (if wk {
            seq!['K']
        } else {
            Seq::empty()
        }) + (if wq {
            seq!['Q']
        } else {
            Seq::empty()
        }) + (if bk {
            seq!['k']
        } else {
            Seq::empty()
        }) + (if bq {
            seq!['q']
        } else {
            Seq::empty()
        })
    }
}

/// The en-passant field: the target cell in file-rank notation, or `-`.
pub open spec fn render_ep(ep: Option<int>) -> Seq<char> {
    match ep {
        Some(i) => seq![
            crate::util::spec_file_char(i),
            crate::util::spec_rank_char(i),
        ],
        None => seq!['-'],
    }
}

/// The whole FEN text of a position value: the six fields separated by
/// single spaces.
pub open spec fn render_fen(v: BoardStateV) -> Seq<char> {
    render_placement_from(v.pos, 0) + seq![' '] + (if v.side_to_move is White {
        seq!['w']
    } else {
        seq!['b']
    }) + seq![' '] + render_castling(v.castle_wk, v.castle_wq, v.castle_bk, v.castle_bq) + seq![' ']
        + render_ep(v.en_passant) + seq![' '] + dec_digits(v.halfmove) + seq![' '] + dec_digits(
        v.movecount,
    )
}

/// Reads the cells of one rank from its FEN text: piece letters and digit
/// runs of empty cells, exactly eight cells in all.
pub open spec fn parse_row_from(t: Seq<char>, i: int, acc: Seq<Square>) -> Option<Seq<Square>>
    decreases t.len() - i,
{
    if i < 0 || i >= t.len() {
        if acc.len() == 8 {
            Some(acc)
        } else {
            None
        }
    } else {
        let c = t[i];
        if 49 <= c as u32 <= 56 {
            let d = c as u32 - 48;
            if acc.len() + d <= 8 {
                parse_row_from(t, i + 1, acc + Seq::new(d as nat, |k: int| Square::Empty))
            } else {
                None
            }
        } else {
            match spec_fen_char_piece(c) {
                Some(p) => if acc.len() < 8 {
                    parse_row_from(t, i + 1, acc.push(Square::Piece(p)))
                } else {
                    None
                },
                None => None,
            }
        }
    }
}

/// Splits a text at every occurrence of `sep`.
pub open spec fn split_chars(t: Seq<char>, sep: char) -> Seq<Seq<char>>
    decreases t.len(),
{
    if t.len() == 0 {
        seq![Seq::empty()]
    } else if t.last() == sep {
        split_chars(t.drop_last(), sep).push(Seq::empty())
    } else {
        let rest = split_chars(t.drop_last(), sep);
        rest.update(rest.len() - 1, rest.last().push(t.last()))
    }
}

/// Reads the placement field: eight `/`-separated rank texts of eight cells
/// each, top rank first.
pub open spec fn parse_placement(t: Seq<char>) -> Option<Seq<Square>> {
    let rows = split_chars(t, '/');
    if rows.len() != 8 {
        None
    } else {
        parse_rows(rows, 0, Seq::empty())
    }
}

/// Reads rank texts from `r` onwards, appending their cells to `acc`.
pub open spec fn parse_rows(rows: Seq<Seq<char>>, r: int, acc: Seq<Square>) -> Option<Seq<Square>>
    decreases 8 - r,
{
    if r < 0 || r >= 8 {
        Some(acc)
    } else {
        match parse_row_from(rows[r], 0, Seq::empty()) {
            Some(row) => parse_rows(rows, r + 1, acc + row),
            None => None,
        }
    }
}

/// Reads the active-colour field.
pub open spec fn parse_side(t: Seq<char>) -> Option<PieceColour> {
    if t =~= seq!['w'] {
        Some(PieceColour::White)
    } else if t =~= seq!['b'] {
        Some(PieceColour::Black)
    } else {
        None
    }
}

/// Reads the castling field: `-`, or a subsequence of `KQkq` in that order
/// with at least one letter.
pub open spec fn parse_castling(t: Seq<char>) -> Option<(bool, bool, bool, bool)> {
    if t =~= seq!['-'] {
        Some((false, false, false, false))
    } else {
        let wk = t.contains('K');
        let wq = t.contains('Q');
        let bk = t.contains('k');
        let bq = t.contains('q');
        if t.len() >= 1 && t =~= render_castling(wk, wq, bk, bq) {
            Some((wk, wq, bk, bq))
        } else {
            None
        }
    }
}

/// Reads the en-passant field: `-`, or a file letter and a rank digit.
pub open spec fn parse_ep(t: Seq<char>) -> Option<Option<int>> {
    if t =~= seq!['-'] {
        Some(None)
    } else if t.len() == 2 && 97 <= t[0] as u32 <= 104 && 49 <= t[1] as u32 <= 56 {
        let col = t[0] as u32 - 97;
        let rank = t[1] as u32 - 49;
        Some(Some((7 - rank) * 8 + col))
    } else {
        None
    }
}

/// Reads a counter field: a decimal number of at most `u32::MAX`.
pub open spec fn parse_counter(t: Seq<char>) -> Option<int> {
    if t.len() >= 1 && all_digits(t) && dec_value(t) <= u32::MAX {
        Some(dec_value(t))
    } else {
        None
    }
}

/// The position value a FEN text stands for: six space-separated fields,
/// each read by its own reader, with a fullmove number of at least one. The
/// hashes and the incoming move of the value are those of an imported
/// initial position.
pub open spec fn parse_fen(t: Seq<char>) -> Option<BoardStateV> {
    let fields = split_chars(t, ' ');
    if fields.len() != 6 {
        None
    } else {
        match parse_placement(fields[0]) {
            None => None,
            Some(pos) => match parse_side(fields[1]) {
                None => None,
                Some(side) => match parse_castling(fields[2]) {
                    None => None,
                    Some(fl) => match parse_ep(fields[3]) {
                        None => None,
                        Some(ep) => match parse_counter(fields[4]) {
                            None => None,
                            Some(halfmove) => match parse_counter(fields[5]) {
                                None => None,
                                Some(movecount) => if movecount >= 1 {
                                    Some(fen_state(pos, side, fl, ep, halfmove, movecount))
                                } else {
                                    None
                                },
                            },
                        },
                    },
                },
            },
        }
    }
}

/// The position value built from parsed FEN fields.
pub open spec fn fen_state(
    pos: Seq<Square>,
    side: PieceColour,
    fl: (bool, bool, bool, bool),
    ep: Option<int>,
    halfmove: int,
    movecount: int,
) -> BoardStateV {
    let position_hash = crate::board::spec_position_hash(pos, side, fl.0, fl.1, fl.2, fl.3, ep);
    BoardStateV {
        pos: pos,
        side_to_move: side,
        castle_wk: fl.0,
        castle_wq: fl.1,
        castle_bk: fl.2,
        castle_bq: fl.3,
        en_passant: ep,
        halfmove: halfmove,
        movecount: movecount,
        last_move: None,
        position_hash: position_hash,
        board_hash: crate::board::spec_record_hash(0, position_hash, None, movecount),
    }
}

/// A parsed FEN record: the position it stands for.
pub struct FEN {
    pub state: BoardState,
}

impl View for FEN {
    type V = BoardStateV;

    open spec fn view(&self) -> BoardStateV {
        self.state@
    }
}

/// Appends the FEN text of one rank, as [`render_row_from`] says.
fn push_row_text(v: &mut Vec<char>, row: &Vec<Square>, c: usize, run: u32)
    requires
        row@.len() == 8,
        c <= 8,
        run <= c,
    ensures
        final(v)@ == old(v)@ + render_row_from(row@, c as int, run as int),
    decreases 8 - c,
{
    if c >= 8 {
        if run > 0 {
            let b: u8 = 48 + (run as u8);
            v.push(b as char);
        }
        proof {
            assert(v@ =~= old(v)@ + render_row_from(row@, c as int, run as int));
        }
        return ;
    }
    match row[c] {
        Square::Empty => {
            push_row_text(v, row, c + 1, run + 1);
        },
        Square::Piece(p) => {
            if run > 0 {
                let b: u8 = 48 + (run as u8);
                v.push(b as char);
            }
            let pc: char = match p.pcolour {
                PieceColour::White => match p.ptype {
                    PieceType::Pawn => 'P',
                    PieceType::Knight => 'N',
                    PieceType::Bishop => 'B',
                    PieceType::Rook => 'R',
                    PieceType::Queen => 'Q',
                    PieceType::King => 'K',
                },
                PieceColour::Black => match p.ptype {
                    PieceType::Pawn => 'p',
                    PieceType::Knight => 'n',
                    PieceType::Bishop => 'b',
                    PieceType::Rook => 'r',
                    PieceType::Queen => 'q',
                    PieceType::King => 'k',
                },
            };
            v.push(pc);
            let ghost mid = v@;
            push_row_text(v, row, c + 1, 0);
            proof {
                assert(v@ =~= old(v)@ + render_row_from(row@, c as int, run as int));
            }
        },
    }
}

/// Reads the cells of one rank, as [`parse_row_from`] says.
fn parse_row_exec(t: &Vec<char>, i: usize, acc: Vec<Square>) -> (r: Option<Vec<Square>>)
    requires
        i <= t@.len(),
        acc@.len() <= 8,
    ensures
        (match r {
            Some(row) => parse_row_from(t@, i as int, acc@) == Some(row@),
            None => parse_row_from(t@, i as int, acc@) is None,
        }),
    decreases t@.len() - i,
{
    if i >= t.len() {
        if acc.len() == 8 {
            return Some(acc);
        } else {
            return None;
        }
    }
    let c = t[i];
    let u = c as u32;
    if 49 <= u && u <= 56 {
        let d = (u - 48) as usize;
        if acc.len() + d <= 8 {
            let mut acc2 = acc;
            let ghost acc0 = acc2@;
            let mut k: usize = 0;
            while k < d
                invariant
                    k <= d,
                    acc2@ =~= acc0 + Seq::new(k as nat, |j: int| Square::Empty),
                decreases d - k,
            {
                acc2.push(Square::Empty);
                k = k + 1;
                proof {
                    assert(acc2@ =~= acc0 + Seq::new(k as nat, |j: int| Square::Empty));
                }
            }
            proof {
                assert(acc2@.len() == acc0.len() + d);
            }
            parse_row_exec(t, i + 1, acc2)
        } else {
            None
        }
    } else {
        let piece: Option<Piece> = fen_char_piece_exec(c);
        match piece {
            Some(p) => {
                if acc.len() < 8 {
                    let mut acc2 = acc;
                    acc2.push(Square::Piece(p));
                    parse_row_exec(t, i + 1, acc2)
                } else {
                    None
                }
            },
            None => None,
        }
    }
}

/// The piece a FEN letter stands for, as [`spec_fen_char_piece`] says.
fn fen_char_piece_exec(c: char) -> (r: Option<Piece>)
    ensures
        r == spec_fen_char_piece(c),
{
    if c == 'P' {
        Some(Piece { pcolour: PieceColour::White, ptype: PieceType::Pawn })
    } else if c == 'N' {
        Some(Piece { pcolour: PieceColour::White, ptype: PieceType::Knight })
    } else if c == 'B' {
        Some(Piece { pcolour: PieceColour::White, ptype: PieceType::Bishop })
    } else if c == 'R' {
        Some(Piece { pcolour: PieceColour::White, ptype: PieceType::Rook })
    } else if c == 'Q' {
        Some(Piece { pcolour: PieceColour::White, ptype: PieceType::Queen })
    } else if c == 'K' {
        Some(Piece { pcolour: PieceColour::White, ptype: PieceType::King })
    } else if c == 'p' {
        Some(Piece { pcolour: PieceColour::Black, ptype: PieceType::Pawn })
    } else if c == 'n' {
        Some(Piece { pcolour: PieceColour::Black, ptype: PieceType::Knight })
    } else if c == 'b' {
        Some(Piece { pcolour: PieceColour::Black, ptype: PieceType::Bishop })
    } else if c == 'r' {
        Some(Piece { pcolour: PieceColour::Black, ptype: PieceType::Rook })
    } else if c == 'q' {
        Some(Piece { pcolour: PieceColour::Black, ptype: PieceType::Queen })
    } else if c == 'k' {
        Some(Piece { pcolour: PieceColour::Black, ptype: PieceType::King })
    } else {
        None
    }
}

impl FEN {
    /// Records the position a FEN text will be rendered from.
    pub fn from_position(bs: &BoardState) -> (r: FEN)
        requires
            bs.wf(),
        ensures
            r@.pos == bs@.pos,
            r@.side_to_move == bs@.side_to_move,
            r@.castle_wk == bs@.castle_wk,
            r@.castle_wq == bs@.castle_wq,
            r@.castle_bk == bs@.castle_bk,
            r@.castle_bq == bs@.castle_bq,
            r@.en_passant == bs@.en_passant,
            r@.halfmove == bs@.halfmove,
            r@.movecount == bs@.movecount,
            r.state.wf(),
    {
        let pos = crate::board::clone_squares(&bs.pos64);
        let state = BoardState::from_parts(
            pos,
            bs.side_to_move,
            bs.castle_wk,
            bs.castle_wq,
            bs.castle_bk,
            bs.castle_bq,
            bs.en_passant,
            bs.halfmove_clock,
            bs.movecount,
        );
        FEN { state: state }
    }

    /// Renders the six FEN fields of the position, as [`render_fen`] says.
    #[verifier::rlimit(100)]
    pub fn to_string(&self) -> (r: String)
        requires
            self.state.wf(),
        ensures
            r@ == render_fen(self@),
    {
        let mut v: Vec<char> = Vec::new();
        let mut r: usize = 0;
        while r < 8
            invariant
                self.state.wf(),
                r <= 8,
                v@ + render_placement_from(self@.pos, r as int) =~= render_placement_from(
                    self@.pos,
                    0,
                ),
            decreases 8 - r,
        {
            if r > 0 {
                v.push('/');
            }
            let mut row: Vec<Square> = Vec::new();
            let mut k: usize = 0;
            while k < 8
                invariant
                    self.state.wf(),
                    r < 8,
                    k <= 8,
                    row@ =~= self@.pos.subrange((r * 8) as int, (r * 8) as int + k as int),
                decreases 8 - k,
            {
                row.push(self.state.pos64[r * 8 + k]);
                k = k + 1;
                proof {
                    assert(row@ =~= self@.pos.subrange((r * 8) as int, (r * 8) as int + k as int));
                }
            }
            proof {
                assert(row@ =~= row_of(self@.pos, r as int));
            }
            push_row_text(&mut v, &row, 0, 0);
            r = r + 1;
            proof {
                assert(v@ + render_placement_from(self@.pos, r as int) =~= render_placement_from(
                    self@.pos,
                    0,
                ));
            }
        }
        proof {
            assert(v@ =~= render_placement_from(self@.pos, 0));
        }
        v.push(' ');
        v.push(
            match self.state.side_to_move {
                PieceColour::White => 'w',
                PieceColour::Black => 'b',
            },
        );
        v.push(' ');
        let ghost before_castling = v@;
        if !self.state.castle_wk && !self.state.castle_wq && !self.state.castle_bk
            && !self.state.castle_bq {
            v.push('-');
        } else {
            if self.state.castle_wk {
                v.push('K');
            }
            if self.state.castle_wq {
                v.push('Q');
            }
            if self.state.castle_bk {
                v.push('k');
            }
            if self.state.castle_bq {
                v.push('q');
            }
        }
        proof {
            assert(v@ =~= before_castling + render_castling(
                self@.castle_wk,
                self@.castle_wq,
                self@.castle_bk,
                self@.castle_bq,
            ));
        }
        v.push(' ');
        match self.state.en_passant {
            Some(i) => {
                v.push(crate::util::index_to_file_notation(i));
                v.push(crate::util::index_to_rank_notation(i));
            },
            None => {
                v.push('-');
            },
        }
        v.push(' ');
        crate::text::push_dec(&mut v, self.state.halfmove_clock as u64);
        v.push(' ');
        crate::text::push_dec(&mut v, self.state.movecount as u64);
        proof {
            assert(v@ =~= render_fen(self@));
        }
        crate::text::chars_to_string(&v)
    }

    /// Reads the six FEN fields of a position, as [`parse_fen`] says: fails
    /// with a description of the offending field on text that does not split
    /// into six fields or has a malformed field.
    pub fn from_str(fen_str: &str) -> (r: Result<FEN, FenParseError>)
        ensures
            r is Ok <==> parse_fen(fen_str@) is Some,
            r is Ok ==> r->Ok_0@ == parse_fen(fen_str@)->0 && r->Ok_0.state.wf(),
    {
        let chars = crate::text::str_to_chars(fen_str);
        let fields = crate::text::split_at_char(&chars, ' ');
        proof {
            assert(crate::text::views_of(fields@) == split_chars(fen_str@, ' '));
            assert(forall|i: int|
                0 <= i < fields@.len() ==> (#[trigger] fields@[i])@ == crate::text::views_of(
                    fields@,
                )[i]);
        }
        if fields.len() != 6 {
            return Err(FenParseError(String::from_str("expected six space-separated fields")));
        }
        let pos = match parse_placement_exec(&fields[0]) {
            Some(pos) => pos,
            None => {
                return Err(FenParseError(String::from_str("malformed placement field")));
            },
        };
        let side = match parse_side_exec(&fields[1]) {
            Some(side) => side,
            None => {
                return Err(FenParseError(String::from_str("malformed active colour field")));
            },
        };
        let flags = match parse_castling_exec(&fields[2]) {
            Some(flags) => flags,
            None => {
                return Err(FenParseError(String::from_str("malformed castling field")));
            },
        };
        let ep = match parse_ep_exec(&fields[3]) {
            Some(ep) => ep,
            None => {
                return Err(FenParseError(String::from_str("malformed en passant field")));
            },
        };
        let hf = &fields[4];
        let halfmove = match crate::text::parse_u32(hf, 0, hf.len()) {
            Some(n) => n,
            None => {
                proof {
                    assert(hf@.subrange(0, hf@.len() as int) =~= hf@);
                }
                return Err(FenParseError(String::from_str("malformed halfmove clock field")));
            },
        };
        let mf = &fields[5];
        let movecount = match crate::text::parse_u32(mf, 0, mf.len()) {
            Some(n) => n,
            None => {
                proof {
                    assert(mf@.subrange(0, mf@.len() as int) =~= mf@);
                }
                return Err(FenParseError(String::from_str("malformed fullmove number field")));
            },
        };
        proof {
            assert(hf@.subrange(0, hf@.len() as int) =~= hf@);
            assert(mf@.subrange(0, mf@.len() as int) =~= mf@);
        }
        if movecount < 1 {
            return Err(FenParseError(String::from_str("fullmove number must be at least one")));
        }
        let state = BoardState::from_parts(
            pos,
            side,
            flags.0,
            flags.1,
            flags.2,
            flags.3,
            ep,
            halfmove,
            movecount,
        );
        proof {
            assert(state@ == parse_fen(fen_str@)->0);
        }
        Ok(FEN { state: state })
    }
}

/// Reads the placement field, as [`parse_placement`] says.
fn parse_placement_exec(field: &Vec<char>) -> (r: Option<Vec<Square>>)
    ensures
        (match r {
            Some(pos) => parse_placement(field@) == Some(pos@) && pos@.len() == 64,
            None => parse_placement(field@) is None,
        }),
{
    let rows = crate::text::split_at_char(field, '/');
    proof {
        assert(crate::text::views_of(rows@) == split_chars(field@, '/'));
    }
    proof {
        assert(crate::text::views_of(rows@).len() == rows@.len());
    }
    if rows.len() != 8 {
        return None;
    }
    let ghost rows_v = crate::text::views_of(rows@);
    let mut pos: Vec<Square> = Vec::new();
    let mut r: usize = 0;
    while r < 8
        invariant
            r <= 8,
            rows@.len() == 8,
            rows_v == crate::text::views_of(rows@),
            rows_v == split_chars(field@, '/'),
            rows_v.len() == 8,
            parse_rows(rows_v, 0, Seq::empty()) == parse_rows(rows_v, r as int, pos@),
            pos@.len() == 8 * r,
        decreases 8 - r,
    {
        let empty_acc: Vec<Square> = Vec::new();
        let row = match parse_row_exec(&rows[r], 0, empty_acc) {
            Some(row) => row,
            None => {
                proof {
                    assert(rows@[r as int]@ == rows_v[r as int]);
                    assert(parse_rows(rows_v, r as int, pos@) is None);
                    assert(rows_v.len() == rows@.len());
                    assert(rows_v == split_chars(field@, '/'));
                    assert(parse_placement(field@) is None);
                }
                return None;
            },
        };
        proof {
            assert(rows@[r as int]@ == rows_v[r as int]);
            assert(parse_row_from(rows_v[r as int], 0, Seq::empty()) == Some(row@));
            lemma_parse_row_len(rows_v[r as int], 0, Seq::empty(), row@);
        }
        let ghost pos0 = pos@;
        let mut k: usize = 0;
        while k < row.len()
            invariant
                k <= row@.len(),
                pos@ =~= pos0 + row@.subrange(0, k as int),
            decreases row@.len() - k,
        {
            pos.push(row[k]);
            k = k + 1;
            proof {
                assert(pos@ =~= pos0 + row@.subrange(0, k as int));
            }
        }
        proof {
            assert(row@.subrange(0, row@.len() as int) =~= row@);
            assert(pos@ =~= pos0 + row@);
        }
        r = r + 1;
    }
    Some(pos)
}

/// Reads the active-colour field, as [`parse_side`] says.
fn parse_side_exec(sf: &Vec<char>) -> (r: Option<PieceColour>)
    ensures
        r == parse_side(sf@),
{
    if sf.len() == 1 && sf[0] == 'w' {
        proof {
            assert(sf@ =~= seq!['w']);
        }
        Some(PieceColour::White)
    } else if sf.len() == 1 && sf[0] == 'b' {
        proof {
            assert(sf@ =~= seq!['b']);
        }
        Some(PieceColour::Black)
    } else {
        proof {
            assert(!(sf@ =~= seq!['w']));
            assert(!(sf@ =~= seq!['b']));
        }
        None
    }
}

/// Reads the castling field, as [`parse_castling`] says.
fn parse_castling_exec(cf: &Vec<char>) -> (r: Option<(bool, bool, bool, bool)>)
    ensures
        r == parse_castling(cf@),
{
    if cf.len() == 1 && cf[0] == '-' {
        proof {
            assert(cf@ =~= seq!['-']);
        }
        return Some((false, false, false, false));
    }
    let mut wk = false;
    let mut wq = false;
    let mut bk = false;
    let mut bq = false;
    let mut ci: usize = 0;
    while ci < cf.len()
        invariant
            ci <= cf@.len(),
            wk <==> cf@.subrange(0, ci as int).contains('K'),
            wq <==> cf@.subrange(0, ci as int).contains('Q'),
            bk <==> cf@.subrange(0, ci as int).contains('k'),
            bq <==> cf@.subrange(0, ci as int).contains('q'),
        decreases cf@.len() - ci,
    {
        let c = cf[ci];
        if c == 'K' {
            wk = true;
        } else if c == 'Q' {
            wq = true;
        } else if c == 'k' {
            bk = true;
        } else if c == 'q' {
            bq = true;
        }
        ci = ci + 1;
        proof {
            let pre = cf@.subrange(0, ci as int);
            let prev = cf@.subrange(0, ci - 1);
            assert(pre =~= prev.push(c));
            lemma_contains_push(prev, c, 'K');
            lemma_contains_push(prev, c, 'Q');
            lemma_contains_push(prev, c, 'k');
            lemma_contains_push(prev, c, 'q');
        }
    }
    proof {
        assert(cf@.subrange(0, ci as int) =~= cf@);
        assert(!(cf@ =~= seq!['-'])) by {
            if cf@ =~= seq!['-'] {
                assert(cf@.len() == 1 && cf@[0] == '-');
            }
        }
    }
    let mut expected: Vec<char> = Vec::new();
    if wk {
        expected.push('K');
    }
    if wq {
        expected.push('Q');
    }
    if bk {
        expected.push('k');
    }
    if bq {
        expected.push('q');
    }
    if !(wk || wq || bk || bq) {
        proof {
            assert(!(cf@ =~= render_castling(wk, wq, bk, bq)));
        }
        return None;
    }
    proof {
        assert(expected@ =~= render_castling(wk, wq, bk, bq));
    }
    if cf.len() >= 1 && crate::text::chars_eq(cf, &expected) {
        Some((wk, wq, bk, bq))
    } else {
        None
    }
}

/// Reads the en-passant field, as [`parse_ep`] says.
fn parse_ep_exec(ef: &Vec<char>) -> (r: Option<Option<usize>>)
    ensures
        (match r {
            Some(Some(i)) => parse_ep(ef@) == Some(Some(i as int)) && i < 64,
            Some(None) => parse_ep(ef@) == Some(None::<int>),
            None => parse_ep(ef@) is None,
        }),
{
    if ef.len() == 1 && ef[0] == '-' {
        proof {
            assert(ef@ =~= seq!['-']);
        }
        return Some(None);
    }
    proof {
        assert(!(ef@ =~= seq!['-'])) by {
            if ef@ =~= seq!['-'] {
                assert(ef@.len() == 1 && ef@[0] == '-');
            }
        }
    }
    if ef.len() == 2 {
        let f = ef[0] as u32;
        let rk = ef[1] as u32;
        if 97 <= f && f <= 104 && 49 <= rk && rk <= 56 {
            Some(Some(((7 - (rk - 49)) * 8 + (f - 97)) as usize))
        } else {
            None
        }
    } else {
        None
    }
}

/// Eight parsed ranks hold 64 cells.
pub proof fn lemma_parse_rows_len(rows: Seq<Seq<char>>, r: int, acc: Seq<Square>, out: Seq<Square>)
    requires
        0 <= r <= 8,
        parse_rows(rows, r, acc) == Some(out),
    ensures
        out.len() == acc.len() + 8 * (8 - r),
    decreases 8 - r,
{
    if r < 8 {
        match parse_row_from(rows[r], 0, Seq::empty()) {
            Some(row) => {
                lemma_parse_row_len(rows[r], 0, Seq::empty(), row);
                lemma_parse_rows_len(rows, r + 1, acc + row, out);
            },
            None => {},
        }
    }
}

/// A parsed rank holds exactly eight cells.
pub proof fn lemma_parse_row_len(t: Seq<char>, i: int, acc: Seq<Square>, out: Seq<Square>)
    requires
        parse_row_from(t, i, acc) == Some(out),
    ensures
        out.len() == 8,
    decreases t.len() - i,
{
    if 0 <= i < t.len() {
        let c = t[i];
        if 49 <= c as u32 <= 56 {
            let d = c as u32 - 48;
            if acc.len() + d <= 8 {
                lemma_parse_row_len(t, i + 1, acc + Seq::new(d as nat, |k: int| Square::Empty), out);
            }
        } else {
            match spec_fen_char_piece(c) {
                Some(p) => {
                    if acc.len() < 8 {
                        lemma_parse_row_len(t, i + 1, acc.push(Square::Piece(p)), out);
                    }
                },
                None => {},
            }
        }
    }
}

/// A pushed element joins the members of a sequence.
pub proof fn lemma_contains_push(s: Seq<char>, c: char, x: char)
    ensures
        s.push(c).contains(x) <==> (s.contains(x) || c == x),
{
    if s.contains(x) {
        let j = choose|j: int| 0 <= j < s.len() && s[j] == x;
        assert(s.push(c)[j] == x);
    }
    if c == x {
        assert(s.push(c)[s.len() as int] == x);
    }
    if s.push(c).contains(x) {
        let j = choose|j: int| 0 <= j < s.push(c).len() && s.push(c)[j] == x;
        if j < s.len() {
            assert(s[j] == x);
        }
    }
}

/// A FEN letter reads back as the piece it was rendered from.
proof fn lemma_piece_char_round_trip(p: Piece)
    ensures
        spec_fen_char_piece(spec_piece_fen_char(p)) == Some(p),
{
}

/// Reading the rendered text of a rank, from column `c` with `run` pending
/// empty cells and the cells before them already read, gives the whole rank
/// back.
proof fn lemma_row_round_trip_from(t: Seq<char>, i: int, row: Seq<Square>, c: int, run: int)
    requires
        row.len() == 8,
        0 <= run <= c <= 8,
        0 <= i <= t.len(),
        t.subrange(i, t.len() as int) == render_row_from(row, c, run),
        forall|k: int| c - run <= k < c ==> row[k] is Empty,
    ensures
        parse_row_from(t, i, row.subrange(0, c - run)) == Some(row),
    decreases 8 - c, run + 1,
{
    let acc = row.subrange(0, c - run);
    let suffix = t.subrange(i, t.len() as int);
    assert(forall|k: int| #![auto] 0 <= k < suffix.len() ==> suffix[k] == t[i + k]);
    if c == 8 {
        if run > 0 {
            assert(suffix == seq![crate::text::digit_char(run)]);
            assert(t[i] == suffix[0]);
            assert(t[i] == crate::text::digit_char(run));
            assert(49 <= t[i] as u32 <= 56);
            assert(t[i] as u32 - 48 == run);
            let acc2 = acc + Seq::new(run as nat, |k: int| Square::Empty);
            assert(acc2 =~= row);
            assert(i + 1 == t.len());
            assert(parse_row_from(t, i + 1, acc2) == Some(acc2));
        } else {
            assert(suffix.len() == 0);
            assert(i >= t.len());
            assert(acc =~= row);
        }
    } else {
        match row[c] {
            Square::Empty => {
                assert(render_row_from(row, c, run) == render_row_from(row, c + 1, run + 1));
                lemma_row_round_trip_from(t, i, row, c + 1, run + 1);
                assert(row.subrange(0, c + 1 - (run + 1)) =~= acc);
            },
            Square::Piece(p) => {
                lemma_piece_char_round_trip(p);
                if run > 0 {
                    let rest = seq![spec_piece_fen_char(p)] + render_row_from(row, c + 1, 0);
                    assert(suffix == seq![crate::text::digit_char(run)] + rest);
                    assert(t[i] == suffix[0]);
                    assert(t[i] == crate::text::digit_char(run));
                    assert(49 <= t[i] as u32 <= 56);
                    assert(t[i] as u32 - 48 == run);
                    let acc2 = acc + Seq::new(run as nat, |k: int| Square::Empty);
                    assert(acc.len() + run == c);
                    assert forall|k: int| 0 <= k < c implies acc2[k] == row[k] by {
                        if k < c - run {
                            assert(acc2[k] == acc[k]);
                        } else {
                            assert(acc2[k] == Square::Empty);
                            assert(row[k] is Empty);
                        }
                    }
                    assert(acc2 =~= row.subrange(0, c as int));
                    assert(rest.len() == suffix.len() - 1);
                    assert forall|k: int| 0 <= k < rest.len() implies t.subrange(
                        i + 1,
                        t.len() as int,
                    )[k] == rest[k] by {
                        assert(t.subrange(i + 1, t.len() as int)[k] == t[i + 1 + k]);
                        assert(suffix[k + 1] == t[i + 1 + k]);
                        assert(suffix[k + 1] == rest[k]);
                    }
                    assert(t.subrange(i + 1, t.len() as int) =~= rest);
                    lemma_row_round_trip_from(t, i + 1, row, c, 0);
                    assert(parse_row_from(t, i + 1, acc2) == Some(row));
                } else {
                    let rest = render_row_from(row, c + 1, 0);
                    assert(suffix == Seq::<char>::empty() + seq![spec_piece_fen_char(p)] + rest);
                    assert(t[i] == suffix[0]);
                    assert(suffix[0] == spec_piece_fen_char(p));
                    assert(t[i] == spec_piece_fen_char(p));
                    assert(!(49 <= t[i] as u32 <= 56)) by {
                        lemma_piece_char_not_digit(p);
                    }
                    assert(acc.len() == c < 8);
                    assert(rest.len() == suffix.len() - 1);
                    assert forall|k: int| 0 <= k < rest.len() implies t.subrange(
                        i + 1,
                        t.len() as int,
                    )[k] == rest[k] by {
                        assert(t.subrange(i + 1, t.len() as int)[k] == t[i + 1 + k]);
                        assert(suffix[k + 1] == t[i + 1 + k]);
                        assert(suffix[k + 1] == rest[k]);
                    }
                    assert(t.subrange(i + 1, t.len() as int) =~= rest);
                    lemma_row_round_trip_from(t, i + 1, row, c + 1, 0);
                    assert(acc.push(Square::Piece(p)) =~= row.subrange(0, c + 1));
                }
            },
        }
    }
}

/// A FEN piece letter is never a digit.
proof fn lemma_piece_char_not_digit(p: Piece)
    ensures
        !(49 <= spec_piece_fen_char(p) as u32 <= 56),
{
}

/// The placement text of one rank reads back as exactly that rank.
proof fn lemma_row_text_round_trip(row: Seq<Square>)
    requires
        row.len() == 8,
    ensures
        parse_row_from(render_row_from(row, 0, 0), 0, Seq::empty()) == Some(row),
{
    let t = render_row_from(row, 0, 0);
    assert(t.subrange(0, t.len() as int) =~= t);
    lemma_row_round_trip_from(t, 0, row, 0, 0);
    assert(row.subrange(0, 0) =~= Seq::<Square>::empty());
}

/// Splitting a separator-free text gives the text as the only part.
proof fn lemma_split_nosep(u: Seq<char>, sep: char)
    requires
        forall|k: int| 0 <= k < u.len() ==> u[k] != sep,
    ensures
        split_chars(u, sep) =~~= seq![u],
    decreases u.len(),
{
    if u.len() > 0 {
        lemma_split_nosep(u.drop_last(), sep);
        let rest = split_chars(u.drop_last(), sep);
        assert(rest =~~= seq![u.drop_last()]);
        assert(rest.update(rest.len() - 1, rest.last().push(u.last())) =~~= seq![u]) by {
            assert(u.drop_last().push(u.last()) =~= u);
        }
    }
}

/// Appending the separator closes the last part and opens an empty one.
proof fn lemma_split_append_sep(t: Seq<char>, sep: char)
    ensures
        split_chars(t.push(sep), sep) == split_chars(t, sep).push(Seq::empty()),
{
    assert(t.push(sep).drop_last() =~= t);
}

/// Appending separator-free text extends the last part.
proof fn lemma_split_append_nosep(t: Seq<char>, u: Seq<char>, sep: char)
    requires
        forall|k: int| 0 <= k < u.len() ==> u[k] != sep,
    ensures
        split_chars(t + u, sep).len() == split_chars(t, sep).len(),
        split_chars(t + u, sep) =~~= split_chars(t, sep).update(
            split_chars(t, sep).len() - 1,
            split_chars(t, sep).last() + u,
        ),
    decreases u.len(),
{
    lemma_split_len(t, sep);
    if u.len() == 0 {
        assert(t + u =~= t);
        let parts = split_chars(t, sep);
        assert(parts.last() + u =~= parts.last());
        assert(parts.update(parts.len() - 1, parts.last() + u) =~~= parts);
    } else {
        lemma_split_append_nosep(t, u.drop_last(), sep);
        let w = t + u;
        assert(w.drop_last() =~= t + u.drop_last());
        assert(w.last() == u.last());
        let prev = split_chars(t + u.drop_last(), sep);
        let base = split_chars(t, sep);
        assert(prev =~~= base.update(base.len() - 1, base.last() + u.drop_last()));
        assert(split_chars(w, sep) == prev.update(prev.len() - 1, prev.last().push(u.last())));
        assert((base.last() + u.drop_last()).push(u.last()) =~= base.last() + u);
        assert(prev.update(prev.len() - 1, prev.last().push(u.last())) =~~= base.update(
            base.len() - 1,
            base.last() + u,
        ));
    }
}

/// A split always has at least one part.
proof fn lemma_split_len(t: Seq<char>, sep: char)
    ensures
        split_chars(t, sep).len() >= 1,
    decreases t.len(),
{
    if t.len() > 0 {
        lemma_split_len(t.drop_last(), sep);
    }
}

/// A rank's placement text holds only digits and piece letters: never a
/// rank separator, a field separator or a line break.
proof fn lemma_row_text_chars(row: Seq<Square>, c: int, run: int)
    requires
        0 <= run <= 8,
        run <= c,
    ensures
        forall|k: int|
            0 <= k < render_row_from(row, c, run).len() ==> #[trigger] render_row_from(
                row,
                c,
                run,
            )[k] != '/' && render_row_from(row, c, run)[k] != ' ',
    decreases 8 - c,
{
    let t = render_row_from(row, c, run);
    if c < 0 || c >= 8 {
        if run > 0 {
            assert(t == seq![digit_char(run)]);
            assert(digit_char(run) != '/' && digit_char(run) != ' ');
        }
    } else {
        match row[c] {
            Square::Empty => {
                lemma_row_text_chars(row, c + 1, run + 1);
                assert(t == render_row_from(row, c + 1, run + 1));
            },
            Square::Piece(p) => {
                lemma_row_text_chars(row, c + 1, 0);
                let head: Seq<char> = if run > 0 {
                    seq![digit_char(run)]
                } else {
                    Seq::empty()
                };
                let rest = render_row_from(row, c + 1, 0);
                assert(t == head + seq![spec_piece_fen_char(p)] + rest);
                assert(spec_piece_fen_char(p) != '/' && spec_piece_fen_char(p) != ' ');
                assert(run > 0 ==> digit_char(run) != '/' && digit_char(run) != ' ');
                assert forall|k: int| 0 <= k < t.len() implies #[trigger] t[k] != '/' && t[k]
                    != ' ' by {
                    if k < head.len() {
                        assert(t[k] == head[k]);
                    } else if k == head.len() {
                        assert(t[k] == spec_piece_fen_char(p));
                    } else {
                        assert(t[k] == rest[k - head.len() - 1]);
                    }
                }
            },
        }
    }
}

/// The placement field never holds a space.
proof fn lemma_placement_chars(pos: Seq<Square>, r: int)
    ensures
        forall|k: int|
            0 <= k < render_placement_from(pos, r).len() ==> #[trigger] render_placement_from(
                pos,
                r,
            )[k] != ' ',
    decreases 8 - r,
{
    if 0 <= r < 8 {
        lemma_row_text_chars(row_of(pos, r), 0, 0);
        lemma_placement_chars(pos, r + 1);
        let t = render_placement_from(pos, r);
        let head: Seq<char> = if r > 0 {
            seq!['/']
        } else {
            Seq::empty()
        };
        let rowtext = render_row_from(row_of(pos, r), 0, 0);
        let rest = render_placement_from(pos, r + 1);
        assert(t == head + rowtext + rest);
        assert forall|k: int| 0 <= k < t.len() implies #[trigger] t[k] != ' ' by {
            if k < head.len() {
                assert(t[k] == '/');
            } else if k < head.len() + rowtext.len() {
                assert(t[k] == rowtext[k - head.len()]);
            } else {
                assert(t[k] == rest[k - head.len() - rowtext.len()]);
            }
        }
    }
}

/// The rank texts of the eight ranks, top rank first.
pub open spec fn row_texts(pos: Seq<Square>) -> Seq<Seq<char>> {
    Seq::new(8, |r: int| render_row_from(row_of(pos, r), 0, 0))
}

/// Splitting the placement field at the rank separators gives back the
/// eight rank texts.
proof fn lemma_split_placement_from(pos: Seq<Square>, r: int, t: Seq<char>)
    requires
        1 <= r <= 8,
    ensures
        split_chars(t + render_placement_from(pos, r), '/') =~~= split_chars(t, '/') + Seq::new(
            (8 - r) as nat,
            |m: int| render_row_from(row_of(pos, r + m), 0, 0),
        ),
    decreases 8 - r,
{
    lemma_split_len(t, '/');
    if r == 8 {
        assert(t + render_placement_from(pos, r) =~= t);
        assert(split_chars(t, '/') + Seq::new(0, |m: int| render_row_from(row_of(pos, r + m), 0, 0))
            =~~= split_chars(t, '/'));
    } else {
        let rowtext = render_row_from(row_of(pos, r), 0, 0);
        let t1 = t.push('/');
        let t2 = t1 + rowtext;
        assert(t + render_placement_from(pos, r) =~= t2 + render_placement_from(pos, r + 1)) by {
            assert(render_placement_from(pos, r) == seq!['/'] + rowtext + render_placement_from(
                pos,
                r + 1,
            ));
        }
        lemma_split_append_sep(t, '/');
        lemma_row_text_chars(row_of(pos, r), 0, 0);
        lemma_split_append_nosep(t1, rowtext, '/');
        assert(split_chars(t2, '/') =~~= split_chars(t, '/').push(rowtext)) by {
            let b1 = split_chars(t1, '/');
            assert(b1 == split_chars(t, '/').push(Seq::empty()));
            assert(b1.last() + rowtext =~= rowtext);
            assert(b1.update(b1.len() - 1, b1.last() + rowtext) =~~= split_chars(t, '/').push(
                rowtext,
            ));
        }
        lemma_split_placement_from(pos, r + 1, t2);
        assert(split_chars(t, '/').push(rowtext) + Seq::new(
            (8 - r - 1) as nat,
            |m: int| render_row_from(row_of(pos, r + 1 + m), 0, 0),
        ) =~~= split_chars(t, '/') + Seq::new(
            (8 - r) as nat,
            |m: int| render_row_from(row_of(pos, r + m), 0, 0),
        ));
    }
}

/// The placement field splits into exactly the eight rank texts.
proof fn lemma_split_placement(pos: Seq<Square>)
    ensures
        split_chars(render_placement_from(pos, 0), '/') =~~= row_texts(pos),
{
    let t0 = render_row_from(row_of(pos, 0), 0, 0);
    lemma_row_text_chars(row_of(pos, 0), 0, 0);
    lemma_split_nosep(t0, '/');
    assert(render_placement_from(pos, 0) =~= t0 + render_placement_from(pos, 1)) by {
        assert(render_placement_from(pos, 0) == Seq::<char>::empty() + t0
            + render_placement_from(pos, 1));
    }
    lemma_split_placement_from(pos, 1, t0);
    assert(seq![t0] + Seq::new(7, |m: int| render_row_from(row_of(pos, 1 + m), 0, 0)) =~~= row_texts(
        pos,
    ));
}

/// Reading back the placement field of a position gives the position.
proof fn lemma_parse_placement_round_trip(pos: Seq<Square>)
    requires
        pos.len() == 64,
    ensures
        parse_placement(render_placement_from(pos, 0)) == Some(pos),
{
    lemma_split_placement(pos);
    lemma_parse_rows_round_trip(pos, row_texts(pos), 0);
    assert(pos.subrange(0, 0) =~= Seq::<Square>::empty());
    assert(split_chars(render_placement_from(pos, 0), '/').len() == 8);
    assert(parse_rows(split_chars(render_placement_from(pos, 0), '/'), 0, Seq::empty()) == Some(
        pos,
    )) by {
        assert(split_chars(render_placement_from(pos, 0), '/') == row_texts(pos));
        assert(parse_rows(row_texts(pos), 0, pos.subrange(0, 0)) == Some(pos));
    }
}

/// Reading the rank texts from rank `r` onwards, with the earlier ranks
/// already read, gives the whole position.
proof fn lemma_parse_rows_round_trip(pos: Seq<Square>, rows: Seq<Seq<char>>, r: int)
    requires
        pos.len() == 64,
        rows == row_texts(pos),
        0 <= r <= 8,
    ensures
        parse_rows(rows, r, pos.subrange(0, 8 * r)) == Some(pos),
    decreases 8 - r,
{
    if r == 8 {
        assert(pos.subrange(0, 64) =~= pos);
    } else {
        let row = row_of(pos, r);
        lemma_row_text_round_trip(row);
        assert(rows[r] == render_row_from(row, 0, 0));
        assert(pos.subrange(0, 8 * r) + row =~= pos.subrange(0, 8 * (r + 1)));
        lemma_parse_rows_round_trip(pos, rows, r + 1);
    }
}

/// Reading back the castling field of any set of rights gives the rights.
proof fn lemma_castling_round_trip(wk: bool, wq: bool, bk: bool, bq: bool)
    ensures
        parse_castling(render_castling(wk, wq, bk, bq)) == Some((wk, wq, bk, bq)),
{
    let t = render_castling(wk, wq, bk, bq);
    if !wk && !wq && !bk && !bq {
        assert(t =~= seq!['-']);
    } else {
        if wk == true && wq == true && bk == true && bq == true {
            assert(t =~= seq!['K', 'Q', 'k', 'q']);
            assert(!(t =~= seq!['-']));
            assert(t.contains('K') == wk && t.contains('Q') == wq && t.contains('k') == bk
                && t.contains('q') == bq);
            assert(t =~= render_castling(t.contains('K'), t.contains('Q'), t.contains('k'),
                t.contains('q')));
        }
        if wk == true && wq == true && bk == true && bq == false {
            assert(t =~= seq!['K', 'Q', 'k']);
            assert(!(t =~= seq!['-']));
            assert(t.contains('K') == wk && t.contains('Q') == wq && t.contains('k') == bk
                && t.contains('q') == bq);
            assert(t =~= render_castling(t.contains('K'), t.contains('Q'), t.contains('k'),
                t.contains('q')));
        }
        if wk == true && wq == true && bk == false && bq == true {
            assert(t =~= seq!['K', 'Q', 'q']);
            assert(!(t =~= seq!['-']));
            assert(t.contains('K') == wk && t.contains('Q') == wq && t.contains('k') == bk
                && t.contains('q') == bq);
            assert(t =~= render_castling(t.contains('K'), t.contains('Q'), t.contains('k'),
                t.contains('q')));
        }
        if wk == true && wq == true && bk == false && bq == false {
            assert(t =~= seq!['K', 'Q']);
            assert(!(t =~= seq!['-']));
            assert(t.contains('K') == wk && t.contains('Q') == wq && t.contains('k') == bk
                && t.contains('q') == bq);
            assert(t =~= render_castling(t.contains('K'), t.contains('Q'), t.contains('k'),
                t.contains('q')));
        }
        if wk == true && wq == false && bk == true && bq == true {
            assert(t =~= seq!['K', 'k', 'q']);
            assert(!(t =~= seq!['-']));
            assert(t.contains('K') == wk && t.contains('Q') == wq && t.contains('k') == bk
                && t.contains('q') == bq);
            assert(t =~= render_castling(t.contains('K'), t.contains('Q'), t.contains('k'),
                t.contains('q')));
        }
        if wk == true && wq == false && bk == true && bq == false {
            assert(t =~= seq!['K', 'k']);
            assert(!(t =~= seq!['-']));
            assert(t.contains('K') == wk && t.contains('Q') == wq && t.contains('k') == bk
                && t.contains('q') == bq);
            assert(t =~= render_castling(t.contains('K'), t.contains('Q'), t.contains('k'),
                t.contains('q')));
        }
        if wk == true && wq == false && bk == false && bq == true {
            assert(t =~= seq!['K', 'q']);
            assert(!(t =~= seq!['-']));
            assert(t.contains('K') == wk && t.contains('Q') == wq && t.contains('k') == bk
                && t.contains('q') == bq);
            assert(t =~= render_castling(t.contains('K'), t.contains('Q'), t.contains('k'),
                t.contains('q')));
        }
        if wk == true && wq == false && bk == false && bq == false {
            assert(t =~= seq!['K']);
            assert(t[0] == 'K');
            if t =~= seq!['-'] {
                assert(t[0] == '-');
                assert(false);
            }
            assert(t.contains('K') == wk && t.contains('Q') == wq && t.contains('k') == bk
                && t.contains('q') == bq);
            assert(t =~= render_castling(t.contains('K'), t.contains('Q'), t.contains('k'),
                t.contains('q')));
        }
        if wk == false && wq == true && bk == true && bq == true {
            assert(t =~= seq!['Q', 'k', 'q']);
            assert(!(t =~= seq!['-']));
            assert(t.contains('K') == wk && t.contains('Q') == wq && t.contains('k') == bk
                && t.contains('q') == bq);
            assert(t =~= render_castling(t.contains('K'), t.contains('Q'), t.contains('k'),
                t.contains('q')));
        }
        if wk == false && wq == true && bk == true && bq == false {
            assert(t =~= seq!['Q', 'k']);
            assert(!(t =~= seq!['-']));
            assert(t.contains('K') == wk && t.contains('Q') == wq && t.contains('k') == bk
                && t.contains('q') == bq);
            assert(t =~= render_castling(t.contains('K'), t.contains('Q'), t.contains('k'),
                t.contains('q')));
        }
        if wk == false && wq == true && bk == false && bq == true {
            assert(t =~= seq!['Q', 'q']);
            assert(!(t =~= seq!['-']));
            assert(t.contains('K') == wk && t.contains('Q') == wq && t.contains('k') == bk
                && t.contains('q') == bq);
            assert(t =~= render_castling(t.contains('K'), t.contains('Q'), t.contains('k'),
                t.contains('q')));
        }
        if wk == false && wq == true && bk == false && bq == false {
            assert(t =~= seq!['Q']);
            assert(t[0] == 'Q');
            if t =~= seq!['-'] {
                assert(t[0] == '-');
                assert(false);
            }
            assert(t.contains('K') == wk && t.contains('Q') == wq && t.contains('k') == bk
                && t.contains('q') == bq);
            assert(t =~= render_castling(t.contains('K'), t.contains('Q'), t.contains('k'),
                t.contains('q')));
        }
        if wk == false && wq == false && bk == true && bq == true {
            assert(t =~= seq!['k', 'q']);
            assert(!(t =~= seq!['-']));
            assert(t.contains('K') == wk && t.contains('Q') == wq && t.contains('k') == bk
                && t.contains('q') == bq);
            assert(t =~= render_castling(t.contains('K'), t.contains('Q'), t.contains('k'),
                t.contains('q')));
        }
        if wk == false && wq == false && bk == true && bq == false {
            assert(t =~= seq!['k']);
            assert(t[0] == 'k');
            if t =~= seq!['-'] {
                assert(t[0] == '-');
                assert(false);
            }
            assert(t.contains('K') == wk && t.contains('Q') == wq && t.contains('k') == bk
                && t.contains('q') == bq);
            assert(t =~= render_castling(t.contains('K'), t.contains('Q'), t.contains('k'),
                t.contains('q')));
        }
        if wk == false && wq == false && bk == false && bq == true {
            assert(t =~= seq!['q']);
            assert(t[0] == 'q');
            if t =~= seq!['-'] {
                assert(t[0] == '-');
                assert(false);
            }
            assert(t.contains('K') == wk && t.contains('Q') == wq && t.contains('k') == bk
                && t.contains('q') == bq);
            assert(t =~= render_castling(t.contains('K'), t.contains('Q'), t.contains('k'),
                t.contains('q')));
        }
    }
}

/// Reading back the en-passant field gives the target.
proof fn lemma_ep_round_trip(ep: Option<int>)
    requires
        (match ep {
            Some(i) => 0 <= i < 64,
            None => true,
        }),
    ensures
        parse_ep(render_ep(ep)) == Some(ep),
{
    match ep {
        None => {
            assert(render_ep(ep) =~= seq!['-']);
        },
        Some(i) => {
            let t = render_ep(ep);
            assert(t == seq![crate::util::spec_file_char(i), crate::util::spec_rank_char(i)]);
            assert(!(t =~= seq!['-']));
            assert(97 <= t[0] as u32 <= 104);
            assert(49 <= t[1] as u32 <= 56);
            assert((7 - (t[1] as u32 - 49)) * 8 + (t[0] as u32 - 97) == i);
        },
    }
}

/// Reading back a counter field gives the counter.
proof fn lemma_counter_round_trip(n: int)
    requires
        0 <= n <= u32::MAX,
    ensures
        parse_counter(dec_digits(n)) == Some(n),
{
    crate::text::lemma_dec_round_trip(n);
}

/// The rendered side, castling, en-passant and counter fields never hold a
/// space.
proof fn lemma_field_chars(v: BoardStateV)
    requires
        (match v.en_passant {
            Some(i) => 0 <= i < 64,
            None => true,
        }),
        v.halfmove >= 0,
        v.movecount >= 0,
    ensures
        forall|k: int|
            0 <= k < render_castling(v.castle_wk, v.castle_wq, v.castle_bk, v.castle_bq).len()
                ==> #[trigger] render_castling(
                v.castle_wk,
                v.castle_wq,
                v.castle_bk,
                v.castle_bq,
            )[k] != ' ',
        forall|k: int|
            0 <= k < render_ep(v.en_passant).len() ==> #[trigger] render_ep(v.en_passant)[k]
                != ' ',
        forall|k: int|
            0 <= k < dec_digits(v.halfmove).len() ==> #[trigger] dec_digits(v.halfmove)[k] != ' ',
        forall|k: int|
            0 <= k < dec_digits(v.movecount).len() ==> #[trigger] dec_digits(v.movecount)[k]
                != ' ',
{
    let c = render_castling(v.castle_wk, v.castle_wq, v.castle_bk, v.castle_bq);
    assert forall|k: int| 0 <= k < c.len() implies #[trigger] c[k] != ' ' by {
        assert(c[k] == '-' || c[k] == 'K' || c[k] == 'Q' || c[k] == 'k' || c[k] == 'q');
    }
    crate::text::lemma_dec_round_trip(v.halfmove);
    crate::text::lemma_dec_round_trip(v.movecount);
    assert forall|k: int| 0 <= k < dec_digits(v.halfmove).len() implies #[trigger] dec_digits(
        v.halfmove,
    )[k] != ' ' by {
        assert(crate::text::is_digit_char(dec_digits(v.halfmove)[k]));
    }
    assert forall|k: int| 0 <= k < dec_digits(v.movecount).len() implies #[trigger] dec_digits(
        v.movecount,
    )[k] != ' ' by {
        assert(crate::text::is_digit_char(dec_digits(v.movecount)[k]));
    }
}

/// The text rendered for the active-colour field.
pub open spec fn side_text(side: PieceColour) -> Seq<char> {
    if side is White {
        seq!['w']
    } else {
        seq!['b']
    }
}

/// A FEN text splits at the spaces into exactly its six fields.
#[verifier::rlimit(100)]
proof fn lemma_split_fen(v: BoardStateV)
    requires
        (match v.en_passant {
            Some(i) => 0 <= i < 64,
            None => true,
        }),
        v.halfmove >= 0,
        v.movecount >= 0,
    ensures
        split_chars(render_fen(v), ' ') =~~= seq![
            render_placement_from(v.pos, 0),
            side_text(v.side_to_move),
            render_castling(v.castle_wk, v.castle_wq, v.castle_bk, v.castle_bq),
            render_ep(v.en_passant),
            dec_digits(v.halfmove),
            dec_digits(v.movecount),
        ],
{
    let p = render_placement_from(v.pos, 0);
    let sd = side_text(v.side_to_move);
    let ca = render_castling(v.castle_wk, v.castle_wq, v.castle_bk, v.castle_bq);
    let ep = render_ep(v.en_passant);
    let hm = dec_digits(v.halfmove);
    let mc = dec_digits(v.movecount);
    lemma_placement_chars(v.pos, 0);
    lemma_field_chars(v);
    assert(forall|k: int| 0 <= k < sd.len() ==> #[trigger] sd[k] != ' ');
    assert(forall|k: int| 0 <= k < ep.len() ==> #[trigger] ep[k] != ' ') by {
        lemma_ep_chars(v.en_passant);
    }
    lemma_split_nosep(p, ' ');
    let t1 = p.push(' ');
    lemma_split_append_sep(p, ' ');
    let t2 = t1 + sd;
    lemma_split_append_nosep(t1, sd, ' ');
    assert(split_chars(t2, ' ') =~~= seq![p, sd]) by {
        assert(split_chars(t1, ' ') == seq![p].push(Seq::<char>::empty()));
        assert(Seq::<char>::empty() + sd =~= sd);
    }
    let t3 = t2.push(' ');
    lemma_split_append_sep(t2, ' ');
    let t4 = t3 + ca;
    lemma_split_append_nosep(t3, ca, ' ');
    assert(split_chars(t4, ' ') =~~= seq![p, sd, ca]) by {
        assert(Seq::<char>::empty() + ca =~= ca);
    }
    let t5 = t4.push(' ');
    lemma_split_append_sep(t4, ' ');
    let t6 = t5 + ep;
    lemma_split_append_nosep(t5, ep, ' ');
    assert(split_chars(t6, ' ') =~~= seq![p, sd, ca, ep]) by {
        assert(Seq::<char>::empty() + ep =~= ep);
    }
    let t7 = t6.push(' ');
    lemma_split_append_sep(t6, ' ');
    let t8 = t7 + hm;
    lemma_split_append_nosep(t7, hm, ' ');
    assert(split_chars(t8, ' ') =~~= seq![p, sd, ca, ep, hm]) by {
        assert(Seq::<char>::empty() + hm =~= hm);
    }
    let t9 = t8.push(' ');
    lemma_split_append_sep(t8, ' ');
    let t10 = t9 + mc;
    lemma_split_append_nosep(t9, mc, ' ');
    assert(split_chars(t10, ' ') =~~= seq![p, sd, ca, ep, hm, mc]) by {
        assert(Seq::<char>::empty() + mc =~= mc);
    }
    assert(render_fen(v) =~= t10);
}

/// The rendered en-passant field never holds a space.
proof fn lemma_ep_chars(ep: Option<int>)
    requires
        (match ep {
            Some(i) => 0 <= i < 64,
            None => true,
        }),
    ensures
        forall|k: int| 0 <= k < render_ep(ep).len() ==> #[trigger] render_ep(ep)[k] != ' ',
{
    match ep {
        None => {},
        Some(i) => {
            assert(render_ep(ep)[0] == crate::util::spec_file_char(i));
            assert(render_ep(ep)[1] == crate::util::spec_rank_char(i));
        },
    }
}

/// The FEN round trip: reading back the rendered text of any well-formed
/// position gives the position again — the same placement, side to move,
/// castling rights, en-passant target and counters, with the hashes
/// recomputed and no incoming move, as an imported position has them. For a
/// position whose hashes already are the recomputed ones and whose incoming
/// move is absent, the value itself comes back.
#[verifier::rlimit(100)]
pub proof fn lemma_fen_round_trip(v: BoardStateV)
    requires
        v.pos.len() == 64,
        (match v.en_passant {
            Some(i) => 0 <= i < 64,
            None => true,
        }),
        0 <= v.halfmove <= u32::MAX,
        1 <= v.movecount <= u32::MAX,
    ensures
        parse_fen(render_fen(v)) == Some(
            fen_state(
                v.pos,
                v.side_to_move,
                (v.castle_wk, v.castle_wq, v.castle_bk, v.castle_bq),
                v.en_passant,
                v.halfmove,
                v.movecount,
            ),
        ),
        crate::board::state_wf(v) && v.last_move is None && v.board_hash == crate::board::spec_record_hash(
            0,
            v.position_hash,
            None,
            v.movecount,
        ) ==> parse_fen(render_fen(v)) == Some(v),
{
    lemma_split_fen(v);
    let fields = split_chars(render_fen(v), ' ');
    lemma_parse_placement_round_trip(v.pos);
    assert(parse_placement(fields[0]) == Some(v.pos));
    assert(parse_side(fields[1]) == Some(v.side_to_move)) by {
        if v.side_to_move is White {
            assert(fields[1] =~= seq!['w']);
        } else {
            assert(fields[1] =~= seq!['b']);
            assert(fields[1][0] == 'b');
            if fields[1] =~= seq!['w'] {
                assert(false);
            }
        }
    }
    lemma_castling_round_trip(v.castle_wk, v.castle_wq, v.castle_bk, v.castle_bq);
    lemma_ep_round_trip(v.en_passant);
    lemma_counter_round_trip(v.halfmove);
    lemma_counter_round_trip(v.movecount);
    let built = fen_state(
        v.pos,
        v.side_to_move,
        (v.castle_wk, v.castle_wq, v.castle_bk, v.castle_bq),
        v.en_passant,
        v.halfmove,
        v.movecount,
    );
    assert(parse_fen(render_fen(v)) == Some(built));
    if crate::board::state_wf(v) && v.last_move is None && v.board_hash == crate::board::spec_record_hash(
        0,
        v.position_hash,
        None,
        v.movecount,
    ) {
        assert(built == v);
    }
}

} // verus!
