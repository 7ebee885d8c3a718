//! The position model: one complete snapshot of a chess position with its
//! metadata, attack detection, move application, and the legal-move
//! generator.
//!
//! Cells are indexed 0..64 from a8 (index 0) to h1 (index 63), row by row:
//! row `i / 8` counts down from rank 8, column `i % 8` counts up from file a.
//! White pawns therefore move towards smaller indices.

use vstd::prelude::*;

use crate::movegen::{CastleSide, Move, MoveType};
use crate::pieces::{Piece, PieceColour, PieceType, Square};

verus! {

/// The modulus of the position hash: the largest prime below 2^64.
pub const HASH_MODULUS: u64 = 0xFFFF_FFFF_FFFF_FFC5;

/// The multiplier of the position hash.
pub const HASH_FACTOR: u64 = 31;

/// The mathematical value of a [`BoardState`]: the cell contents, the side to
/// move, the four castling rights, the en-passant target, the two counters,
/// the move that produced the position, and the two cached hashes.
pub struct BoardStateV {
    pub pos: Seq<Square>,
    pub side_to_move: PieceColour,
    pub castle_wk: bool,
    pub castle_wq: bool,
    pub castle_bk: bool,
    pub castle_bq: bool,
    pub en_passant: Option<int>,
    pub halfmove: int,
    pub movecount: int,
    pub last_move: Option<Move>,
    pub position_hash: int,
    pub board_hash: int,
}

/// True when `(r, c)` lies on the board.
pub open spec fn on_board(r: int, c: int) -> bool {
    0 <= r < 8 && 0 <= c < 8
}

/// The cell index of row `r`, column `c`.
pub open spec fn cell(r: int, c: int) -> int {
    r * 8 + c
}

/// The contents of `(r, c)`, or empty when off the board.
pub open spec fn sq_at(pos: Seq<Square>, r: int, c: int) -> Square {
    if on_board(r, c) && pos.len() == 64 {
        pos[cell(r, c)]
    } else {
        Square::Empty
    }
}

/// One mixing step of the hashes.
pub open spec fn spec_mix(acc: int, x: int) -> int {
    (acc * (HASH_FACTOR as int) + x) % (HASH_MODULUS as int)
}

/// The hash code of one cell: 0 for an empty cell, 1 to 12 for a piece.
pub open spec fn square_code(sq: Square) -> int {
    match sq {
        Square::Empty => 0int,
        Square::Piece(p) => 1 + (match p.pcolour {
            PieceColour::White => 0int,
            PieceColour::Black => 6int,
        }) + (match p.ptype {
            PieceType::Pawn => 0int,
            PieceType::Knight => 1int,
            PieceType::Bishop => 2int,
            PieceType::Rook => 3int,
            PieceType::Queen => 4int,
            PieceType::King => 5int,
        }),
    }
}

/// Folds the cell codes from cell `i` onwards into `acc`.
pub open spec fn hash_cells_from(pos: Seq<Square>, i: int, acc: int) -> int
    decreases 64 - i,
{
    if i < 0 || i >= 64 {
        acc
    } else {
        hash_cells_from(pos, i + 1, spec_mix(acc, square_code(pos[i])))
    }
}

/// The hash code of the en-passant field.
pub open spec fn ep_code(ep: Option<int>) -> int {
    match ep {
        Some(i) => i + 1,
        None => 0,
    }
}

/// The hash code of one castling right.
pub open spec fn flag_code(b: bool) -> int {
    if b {
        2
    } else {
        1
    }
}

/// The position hash: a fold over piece placement, side to move, castling
/// rights and the en-passant target. Two positions that agree on those fields
/// have equal position hashes, whatever their counters or history.
pub open spec fn spec_position_hash(
    pos: Seq<Square>,
    side: PieceColour,
    wk: bool,
    wq: bool,
    bk: bool,
    bq: bool,
    ep: Option<int>,
) -> int {
    let h0 = hash_cells_from(pos, 0, 7);
    let h1 = spec_mix(h0, if side is White { 3 } else { 4 });
    let h2 = spec_mix(h1, flag_code(wk));
    let h3 = spec_mix(h2, flag_code(wq));
    let h4 = spec_mix(h3, flag_code(bk));
    let h5 = spec_mix(h4, flag_code(bq));
    spec_mix(h5, ep_code(ep))
}

/// The hash code of the move that produced a position.
pub open spec fn move_code(m: Option<Move>) -> int {
    match m {
        Some(mv) => 1 + (mv.from as int) * 64 + (mv.to as int),
        None => 0,
    }
}

/// The record hash of a position reached by `m` from a parent with record
/// hash `parent`: it folds the position hash together with
/// move-sequence-identifying data, so that equal positions reached along
/// different move sequences still get distinct record entries.
pub open spec fn spec_record_hash(parent: int, position_hash: int, m: Option<Move>, movecount: int) -> int {
    spec_mix(spec_mix(spec_mix(parent, position_hash), move_code(m)), movecount)
}

/// One mixing step of the hashes.
pub fn mix(acc: u64, x: u64) -> (r: u64)
    ensures
        r == spec_mix(acc as int, x as int),
        r < HASH_MODULUS,
{
    proof {
        assert((acc as u128) * (HASH_FACTOR as u128) <= 0xFFFF_FFFF_FFFF_FFFFu128 * 31)
            by (nonlinear_arith)
            requires
                acc <= 0xFFFF_FFFF_FFFF_FFFFu64,
        ;
    }
    let wide: u128 = (acc as u128) * (HASH_FACTOR as u128) + (x as u128);
    (wide % (HASH_MODULUS as u128)) as u64
}

/// The hash code of one cell.
pub fn square_code_exec(sq: Square) -> (r: u64)
    ensures
        r == square_code(sq),
        r <= 12,
{
    match sq {
        Square::Empty => 0,
        Square::Piece(p) => {
            let colour_part: u64 = match p.pcolour {
                PieceColour::White => 0,
                PieceColour::Black => 6,
            };
            let type_part: u64 = match p.ptype {
                PieceType::Pawn => 0,
                PieceType::Knight => 1,
                PieceType::Bishop => 2,
                PieceType::Rook => 3,
                PieceType::Queen => 4,
                PieceType::King => 5,
            };
            1 + colour_part + type_part
        },
    }
}

/// Computes the position hash of the given fields.
pub fn position_hash_exec(
    pos: &Vec<Square>,
    side: PieceColour,
    wk: bool,
    wq: bool,
    bk: bool,
    bq: bool,
    ep: Option<usize>,
) -> (r: u64)
    requires
        pos@.len() == 64,
        (match ep {
            Some(i) => i < 64,
            None => true,
        }),
    ensures
        r == spec_position_hash(
            pos@,
            side,
            wk,
            wq,
            bk,
            bq,
            (match ep {
                Some(i) => Some(i as int),
                None => None,
            }),
        ),
{
    let mut acc: u64 = 7;
    let mut i: usize = 0;
    while i < 64
        invariant
            i <= 64,
            pos@.len() == 64,
            hash_cells_from(pos@, 0, 7) == hash_cells_from(pos@, i as int, acc as int),
        decreases 64 - i,
    {
        let code = square_code_exec(pos[i]);
        acc = mix(acc, code);
        i = i + 1;
    }
    let side_code: u64 = match side {
        PieceColour::White => 3,
        PieceColour::Black => 4,
    };
    acc = mix(acc, side_code);
    acc = mix(acc, if wk { 2 } else { 1 });
    acc = mix(acc, if wq { 2 } else { 1 });
    acc = mix(acc, if bk { 2 } else { 1 });
    acc = mix(acc, if bq { 2 } else { 1 });
    let ep_c: u64 = match ep {
        Some(i) => (i as u64) + 1,
        None => 0,
    };
    acc = mix(acc, ep_c)
    ;
    acc
}

/// The first piece strictly along direction `(dr, dc)` from `(r, c)`, within
/// `fuel` steps: the nearest occupant of the ray, if any.
pub open spec fn ray_first_piece(
    pos: Seq<Square>,
    r: int,
    c: int,
    dr: int,
    dc: int,
    fuel: nat,
) -> Option<Piece>
    decreases fuel,
{
    if fuel == 0 {
        None
    } else {
        let nr = r + dr;
        let nc = c + dc;
        if !on_board(nr, nc) {
            None
        } else {
            match sq_at(pos, nr, nc) {
                Square::Piece(p) => Some(p),
                Square::Empty => ray_first_piece(pos, nr, nc, dr, dc, (fuel - 1) as nat),
            }
        }
    }
}

/// True when the nearest piece along the ray is a slider of colour `by` that
/// moves along that ray: `straight` says whether the ray is a rank or file.
pub open spec fn ray_attacks(
    pos: Seq<Square>,
    r: int,
    c: int,
    dr: int,
    dc: int,
    by: PieceColour,
    straight: bool,
) -> bool {
    match ray_first_piece(pos, r, c, dr, dc, 8) {
        Some(p) => p.pcolour == by && (p.ptype is Queen || (if straight {
            p.ptype is Rook
        } else {
            p.ptype is Bishop
        })),
        None => false,
    }
}

/// True when the cell `(r, c)` holds a piece of colour `by` and kind `t`;
/// false off the board.
pub open spec fn piece_at_is(
    pos: Seq<Square>,
    r: int,
    c: int,
    by: PieceColour,
    t: PieceType,
) -> bool {
    sq_at(pos, r, c).spec_holds(by, t)
}

/// True when the cell `(r, c)` is attacked by a piece of colour `by`: a
/// knight a knight's move away, a king on an adjacent cell, a pawn on the
/// proper diagonal, or the nearest piece of one of the eight rays is an
/// enemy slider that moves along that ray. White pawns attack towards smaller
/// rows, black pawns towards larger rows.
pub open spec fn spec_attacked(pos: Seq<Square>, r: int, c: int, by: PieceColour) -> bool {
    ||| piece_at_is(pos, r - 2, c - 1, by, PieceType::Knight)
    ||| piece_at_is(pos, r - 2, c + 1, by, PieceType::Knight)
    ||| piece_at_is(pos, r - 1, c - 2, by, PieceType::Knight)
    ||| piece_at_is(pos, r - 1, c + 2, by, PieceType::Knight)
    ||| piece_at_is(pos, r + 1, c - 2, by, PieceType::Knight)
    ||| piece_at_is(pos, r + 1, c + 2, by, PieceType::Knight)
    ||| piece_at_is(pos, r + 2, c - 1, by, PieceType::Knight)
    ||| piece_at_is(pos, r + 2, c + 1, by, PieceType::Knight)
    ||| piece_at_is(pos, r - 1, c - 1, by, PieceType::King)
    ||| piece_at_is(pos, r - 1, c, by, PieceType::King)
    ||| piece_at_is(pos, r - 1, c + 1, by, PieceType::King)
    ||| piece_at_is(pos, r, c - 1, by, PieceType::King)
    ||| piece_at_is(pos, r, c + 1, by, PieceType::King)
    ||| piece_at_is(pos, r + 1, c - 1, by, PieceType::King)
    ||| piece_at_is(pos, r + 1, c, by, PieceType::King)
    ||| piece_at_is(pos, r + 1, c + 1, by, PieceType::King)
    ||| (by is White && (piece_at_is(pos, r + 1, c - 1, by, PieceType::Pawn) || piece_at_is(
        pos,
        r + 1,
        c + 1,
        by,
        PieceType::Pawn,
    )))
    ||| (by is Black && (piece_at_is(pos, r - 1, c - 1, by, PieceType::Pawn) || piece_at_is(
        pos,
        r - 1,
        c + 1,
        by,
        PieceType::Pawn,
    )))
    ||| ray_attacks(pos, r, c, -1, 0, by, true)
    ||| ray_attacks(pos, r, c, 1, 0, by, true)
    ||| ray_attacks(pos, r, c, 0, -1, by, true)
    ||| ray_attacks(pos, r, c, 0, 1, by, true)
    ||| ray_attacks(pos, r, c, -1, -1, by, false)
    ||| ray_attacks(pos, r, c, -1, 1, by, false)
    ||| ray_attacks(pos, r, c, 1, -1, by, false)
    ||| ray_attacks(pos, r, c, 1, 1, by, false)
}

/// True when some king of colour `side` stands on a cell attacked by the
/// other colour.
pub open spec fn spec_in_check(pos: Seq<Square>, side: PieceColour) -> bool {
    exists|i: int|
        0 <= i < 64 && pos[i].spec_holds(side, PieceType::King) && spec_attacked(
            pos,
            i / 8,
            i % 8,
            side.spec_opposite(),
        )
}

/// The contents of `(r, c)`, or empty when off the board.
pub fn sq_at_exec(pos: &Vec<Square>, r: i32, c: i32) -> (res: Square)
    requires
        pos@.len() == 64,
        -3 <= r <= 10,
        -3 <= c <= 10,
    ensures
        res == sq_at(pos@, r as int, c as int),
{
    if 0 <= r && r < 8 && 0 <= c && c < 8 {
        pos[(r * 8 + c) as usize]
    } else {
        Square::Empty
    }
}

/// True when the cell `(r, c)` holds a piece of colour `by` and kind `t`.
pub fn piece_at_is_exec(pos: &Vec<Square>, r: i32, c: i32, by: PieceColour, t: PieceType) -> (res:
    bool)
    requires
        pos@.len() == 64,
        -3 <= r <= 10,
        -3 <= c <= 10,
    ensures
        res == piece_at_is(pos@, r as int, c as int, by, t),
{
    sq_at_exec(pos, r, c).holds(by, t)
}

/// The first piece strictly along direction `(dr, dc)` from `(r, c)`.
pub fn ray_first_piece_exec(pos: &Vec<Square>, r: i32, c: i32, dr: i32, dc: i32, fuel: u8) -> (res:
    Option<Piece>)
    requires
        pos@.len() == 64,
        -1 <= r <= 8,
        -1 <= c <= 8,
        -1 <= dr <= 1,
        -1 <= dc <= 1,
        fuel <= 8,
    ensures
        res == ray_first_piece(pos@, r as int, c as int, dr as int, dc as int, fuel as nat),
    decreases fuel,
{
    if fuel == 0 {
        return None;
    }
    let nr = r + dr;
    let nc = c + dc;
    if !(0 <= nr && nr < 8 && 0 <= nc && nc < 8) {
        return None;
    }
    match pos[(nr * 8 + nc) as usize] {
        Square::Piece(p) => Some(p),
        Square::Empty => ray_first_piece_exec(pos, nr, nc, dr, dc, fuel - 1),
    }
}

/// True when the nearest piece along the ray is an enemy slider that moves
/// along that ray.
pub fn ray_attacks_exec(
    pos: &Vec<Square>,
    r: i32,
    c: i32,
    dr: i32,
    dc: i32,
    by: PieceColour,
    straight: bool,
) -> (res: bool)
    requires
        pos@.len() == 64,
        0 <= r < 8,
        0 <= c < 8,
        -1 <= dr <= 1,
        -1 <= dc <= 1,
    ensures
        res == ray_attacks(pos@, r as int, c as int, dr as int, dc as int, by, straight),
{
    match ray_first_piece_exec(pos, r, c, dr, dc, 8) {
        Some(p) => p.pcolour == by && (match p.ptype {
            PieceType::Queen => true,
            PieceType::Rook => straight,
            PieceType::Bishop => !straight,
            _ => false,
        }),
        None => false,
    }
}

/// True when the cell `(r, c)` is attacked by a piece of colour `by`, as
/// [`spec_attacked`] says.
pub fn is_attacked(pos: &Vec<Square>, r: i32, c: i32, by: PieceColour) -> (res: bool)
    requires
        pos@.len() == 64,
        0 <= r < 8,
        0 <= c < 8,
    ensures
        res == spec_attacked(pos@, r as int, c as int, by),
{
    let knight = piece_at_is_exec(pos, r - 2, c - 1, by, PieceType::Knight) || piece_at_is_exec(
        pos,
        r - 2,
        c + 1,
        by,
        PieceType::Knight,
    ) || piece_at_is_exec(pos, r - 1, c - 2, by, PieceType::Knight) || piece_at_is_exec(
        pos,
        r - 1,
        c + 2,
        by,
        PieceType::Knight,
    ) || piece_at_is_exec(pos, r + 1, c - 2, by, PieceType::Knight) || piece_at_is_exec(
        pos,
        r + 1,
        c + 2,
        by,
        PieceType::Knight,
    ) || piece_at_is_exec(pos, r + 2, c - 1, by, PieceType::Knight) || piece_at_is_exec(
        pos,
        r + 2,
        c + 1,
        by,
        PieceType::Knight,
    );
    let king = piece_at_is_exec(pos, r - 1, c - 1, by, PieceType::King) || piece_at_is_exec(
        pos,
        r - 1,
        c,
        by,
        PieceType::King,
    ) || piece_at_is_exec(pos, r - 1, c + 1, by, PieceType::King) || piece_at_is_exec(
        pos,
        r,
        c - 1,
        by,
        PieceType::King,
    ) || piece_at_is_exec(pos, r, c + 1, by, PieceType::King) || piece_at_is_exec(
        pos,
        r + 1,
        c - 1,
        by,
        PieceType::King,
    ) || piece_at_is_exec(pos, r + 1, c, by, PieceType::King) || piece_at_is_exec(
        pos,
        r + 1,
        c + 1,
        by,
        PieceType::King,
    );
    let pawn = match by {
        PieceColour::White => piece_at_is_exec(pos, r + 1, c - 1, by, PieceType::Pawn)
            || piece_at_is_exec(pos, r + 1, c + 1, by, PieceType::Pawn),
        PieceColour::Black => piece_at_is_exec(pos, r - 1, c - 1, by, PieceType::Pawn)
            || piece_at_is_exec(pos, r - 1, c + 1, by, PieceType::Pawn),
    };
    let sliders = ray_attacks_exec(pos, r, c, -1, 0, by, true) || ray_attacks_exec(
        pos,
        r,
        c,
        1,
        0,
        by,
        true,
    ) || ray_attacks_exec(pos, r, c, 0, -1, by, true) || ray_attacks_exec(pos, r, c, 0, 1, by, true)
        || ray_attacks_exec(pos, r, c, -1, -1, by, false) || ray_attacks_exec(
        pos,
        r,
        c,
        -1,
        1,
        by,
        false,
    ) || ray_attacks_exec(pos, r, c, 1, -1, by, false) || ray_attacks_exec(pos, r, c, 1, 1, by, false);
    knight || king || pawn || sliders
}

/// True when some king of colour `side` is attacked by the other colour, as
/// [`spec_in_check`] says.
pub fn in_check_exec(pos: &Vec<Square>, side: PieceColour) -> (res: bool)
    requires
        pos@.len() == 64,
    ensures
        res == spec_in_check(pos@, side),
{
    let mut i: usize = 0;
    while i < 64
        invariant
            i <= 64,
            pos@.len() == 64,
            forall|j: int|
                0 <= j < i ==> !(pos@[j].spec_holds(side, PieceType::King) && spec_attacked(
                    pos@,
                    j / 8,
                    j % 8,
                    side.spec_opposite(),
                )),
        decreases 64 - i,
    {
        if pos[i].holds(side, PieceType::King) {
            let r = (i / 8) as i32;
            let c = (i % 8) as i32;
            if is_attacked(pos, r, c, side.opposite()) {
                return true;
            }
        }
        i = i + 1;
    }
    false
}

/// The cells a rook moves between in a castling move: the row is the home
/// row of the castling colour.
pub open spec fn back_row(colour: PieceColour) -> int {
    match colour {
        PieceColour::White => 7,
        PieceColour::Black => 0,
    }
}

/// The cell contents after one move is applied: the moved piece (or the
/// promotion result) leaves its origin and lands on its destination; an
/// en-passant capture also clears the captured pawn's cell; a castling move
/// also moves the rook.
pub open spec fn apply_move_pos(pos: Seq<Square>, m: Move) -> Seq<Square> {
    let landed: Square = Square::Piece(
        match m.move_type {
            MoveType::Promotion(t, _) => Piece { pcolour: m.piece.pcolour, ptype: t },
            _ => m.piece,
        },
    );
    let moved = pos.update(m.from as int, Square::Empty).update(m.to as int, landed);
    match m.move_type {
        MoveType::EnPassant => moved.update(
            cell(m.from as int / 8, m.to as int % 8),
            Square::Empty,
        ),
        MoveType::Castle(side) => {
            let row = back_row(m.piece.pcolour);
            let rook: Square = Square::Piece(
                Piece { pcolour: m.piece.pcolour, ptype: PieceType::Rook },
            );
            match side {
                CastleSide::Short => moved.update(cell(row, 7), Square::Empty).update(
                    cell(row, 5),
                    rook,
                ),
                CastleSide::Long => moved.update(cell(row, 0), Square::Empty).update(
                    cell(row, 3),
                    rook,
                ),
            }
        },
        _ => moved,
    }
}

/// The castling rights after a move: a right is lost when its king or rook
/// leaves its home cell or something lands on the rook's home cell. Rights
/// only ever go from true to false.
pub open spec fn apply_move_flags(v: BoardStateV, m: Move) -> (bool, bool, bool, bool) {
    let f = m.from as int;
    let t = m.to as int;
    (
        v.castle_wk && f != 60 && f != 63 && t != 63,
        v.castle_wq && f != 60 && f != 56 && t != 56,
        v.castle_bk && f != 4 && f != 7 && t != 7,
        v.castle_bq && f != 4 && f != 0 && t != 0,
    )
}

/// The position after one move: the cells change as [`apply_move_pos`] says,
/// the side to move flips, castling rights fall as [`apply_move_flags`] says,
/// the en-passant target is set exactly by a double pawn push (to the cell
/// the pawn skipped), the halfmove clock resets on a pawn move or capture and
/// otherwise counts up, the fullmove counter counts up after Black's move,
/// and the hashes are recomputed. The counters saturate at the machine limit.
#[verifier::opaque]
pub open spec fn spec_apply_move(v: BoardStateV, m: Move) -> BoardStateV {
    let pos = apply_move_pos(v.pos, m);
    let flags = apply_move_flags(v, m);
    let ep: Option<int> = if m.move_type is DoublePawnPush {
        Some((m.from as int + m.to as int) / 2)
    } else {
        None
    };
    let halfmove: int = if m.piece.ptype is Pawn || m.move_type.spec_is_capture() {
        0
    } else if v.halfmove < u32::MAX {
        v.halfmove + 1
    } else {
        v.halfmove
    };
    let movecount: int = if v.side_to_move is Black && v.movecount < u32::MAX {
        v.movecount + 1
    } else {
        v.movecount
    };
    let side = v.side_to_move.spec_opposite();
    let position_hash = spec_position_hash(pos, side, flags.0, flags.1, flags.2, flags.3, ep);
    BoardStateV {
        pos: pos,
        side_to_move: side,
        castle_wk: flags.0,
        castle_wq: flags.1,
        castle_bk: flags.2,
        castle_bq: flags.3,
        en_passant: ep,
        halfmove: halfmove,
        movecount: movecount,
        last_move: Some(m),
        position_hash: position_hash,
        board_hash: spec_record_hash(v.board_hash, position_hash, Some(m), movecount),
    }
}

/// The contents of the standard starting position at cell `i`.
pub open spec fn start_square(i: int) -> Square {
    let r = i / 8;
    let c = i % 8;
    if r == 1 {
        Square::Piece(Piece { pcolour: PieceColour::Black, ptype: PieceType::Pawn })
    } else if r == 6 {
        Square::Piece(Piece { pcolour: PieceColour::White, ptype: PieceType::Pawn })
    } else if r == 0 || r == 7 {
        let colour = if r == 0 {
            PieceColour::Black
        } else {
            PieceColour::White
        };
        Square::Piece(Piece { pcolour: colour, ptype: start_back_type(c) })
    } else {
        Square::Empty
    }
}

/// The piece kind on column `c` of each back rank in the standard start.
pub open spec fn start_back_type(c: int) -> PieceType {
    if c == 0 || c == 7 {
        PieceType::Rook
    } else if c == 1 || c == 6 {
        PieceType::Knight
    } else if c == 2 || c == 5 {
        PieceType::Bishop
    } else if c == 3 {
        PieceType::Queen
    } else {
        PieceType::King
    }
}

/// The standard starting position.
pub open spec fn spec_start_pos() -> Seq<Square> {
    Seq::new(64, |i: int| start_square(i))
}

/// The complete value of the standard starting state: White to move, all
/// castling rights, fresh counters, no incoming move.
pub open spec fn spec_start_state() -> BoardStateV {
    let pos = spec_start_pos();
    let position_hash = spec_position_hash(
        pos,
        PieceColour::White,
        true,
        true,
        true,
        true,
        None,
    );
    BoardStateV {
        pos: pos,
        side_to_move: PieceColour::White,
        castle_wk: true,
        castle_wq: true,
        castle_bk: true,
        castle_bq: true,
        en_passant: None,
        halfmove: 0,
        movecount: 1,
        last_move: None,
        position_hash: position_hash,
        board_hash: spec_record_hash(0, position_hash, None, 1),
    }
}

/// One complete snapshot of a chess position: the 64 cell contents, the side
/// to move, the four castling rights, the optional en-passant target cell,
/// the halfmove clock, the fullmove counter, the move that produced the
/// position (absent for an initial position), and the two cached hashes.
pub struct BoardState {
    pub pos64: Vec<Square>,
    pub side_to_move: PieceColour,
    pub castle_wk: bool,
    pub castle_wq: bool,
    pub castle_bk: bool,
    pub castle_bq: bool,
    pub en_passant: Option<usize>,
    pub halfmove_clock: u32,
    pub movecount: u32,
    pub last_move: Option<Move>,
    pub position_hash: u64,
    pub board_hash: u64,
}

impl View for BoardState {
    type V = BoardStateV;

    open spec fn view(&self) -> BoardStateV {
        BoardStateV {
            pos: self.pos64@,
            side_to_move: self.side_to_move,
            castle_wk: self.castle_wk,
            castle_wq: self.castle_wq,
            castle_bk: self.castle_bk,
            castle_bq: self.castle_bq,
            en_passant: match self.en_passant {
                Some(i) => Some(i as int),
                None => None,
            },
            halfmove: self.halfmove_clock as int,
            movecount: self.movecount as int,
            last_move: self.last_move,
            position_hash: self.position_hash as int,
            board_hash: self.board_hash as int,
        }
    }
}

/// Well-formedness of a position value: 64 cells, an on-board en-passant
/// target, a fullmove counter that starts at one, and a position hash that
/// matches the position fields.
pub open spec fn state_wf(v: BoardStateV) -> bool {
    &&& v.pos.len() == 64
    &&& (match v.en_passant {
        Some(i) => 0 <= i < 64,
        None => true,
    })
    &&& v.movecount >= 1
    &&& v.position_hash == spec_position_hash(
        v.pos,
        v.side_to_move,
        v.castle_wk,
        v.castle_wq,
        v.castle_bk,
        v.castle_bq,
        v.en_passant,
    )
}

impl BoardState {
    /// Well-formedness, as [`state_wf`] says of the value.
    pub open spec fn wf(self) -> bool {
        state_wf(self@)
    }

    /// The standard starting position, White to move, all castling rights.
    pub fn new_starting() -> (r: BoardState)
        ensures
            r.wf(),
            r@.pos == spec_start_pos(),
            r@.side_to_move is White,
            r@.castle_wk && r@.castle_wq && r@.castle_bk && r@.castle_bq,
            r@.en_passant is None,
            r@.halfmove == 0,
            r@.movecount == 1,
            r@.last_move is None,
            r@.board_hash == spec_record_hash(0, r@.position_hash, None, 1),
            r@ == spec_start_state(),
    {
        let mut pos: Vec<Square> = Vec::new();
        let mut i: usize = 0;
        while i < 64
            invariant
                i <= 64,
                pos@.len() == i,
                forall|j: int| 0 <= j < i ==> pos@[j] == start_square(j),
            decreases 64 - i,
        {
            let r = i / 8;
            let c = i % 8;
            let sq: Square = if r == 1 {
                Square::Piece(Piece { pcolour: PieceColour::Black, ptype: PieceType::Pawn })
            } else if r == 6 {
                Square::Piece(Piece { pcolour: PieceColour::White, ptype: PieceType::Pawn })
            } else if r == 0 || r == 7 {
                let colour = if r == 0 {
                    PieceColour::Black
                } else {
                    PieceColour::White
                };
                let t: PieceType = if c == 0 || c == 7 {
                    PieceType::Rook
                } else if c == 1 || c == 6 {
                    PieceType::Knight
                } else if c == 2 || c == 5 {
                    PieceType::Bishop
                } else if c == 3 {
                    PieceType::Queen
                } else {
                    PieceType::King
                };
                Square::Piece(Piece { pcolour: colour, ptype: t })
            } else {
                Square::Empty
            };
            pos.push(sq);
            i = i + 1;
        }
        proof {
            assert(pos@ =~= spec_start_pos());
        }
        let r = Self::from_parts(pos, PieceColour::White, true, true, true, true, None, 0, 1);
        proof {
            assert(r@ == spec_start_state());
        }
        r
    }

    /// Builds a well-formed initial position from its fields: the hashes are
    /// computed, and there is no incoming move.
    pub fn from_parts(
        pos: Vec<Square>,
        side: PieceColour,
        wk: bool,
        wq: bool,
        bk: bool,
        bq: bool,
        ep: Option<usize>,
        halfmove: u32,
        movecount: u32,
    ) -> (r: BoardState)
        requires
            pos@.len() == 64,
            (match ep {
                Some(i) => i < 64,
                None => true,
            }),
            movecount >= 1,
        ensures
            r.wf(),
            r@.pos == pos@,
            r@.side_to_move == side,
            r@.castle_wk == wk,
            r@.castle_wq == wq,
            r@.castle_bk == bk,
            r@.castle_bq == bq,
            r@.en_passant == (match ep {
                Some(i) => Some(i as int),
                None => None::<int>,
            }),
            r@.halfmove == halfmove,
            r@.movecount == movecount,
            r@.last_move is None,
            r@.board_hash == spec_record_hash(0, r@.position_hash, None, movecount as int),
    {
        let position_hash = position_hash_exec(&pos, side, wk, wq, bk, bq, ep);
        let board_hash = mix(mix(mix(0, position_hash), 0), movecount as u64);
        BoardState {
            pos64: pos,
            side_to_move: side,
            castle_wk: wk,
            castle_wq: wq,
            castle_bk: bk,
            castle_bq: bq,
            en_passant: ep,
            halfmove_clock: halfmove,
            movecount: movecount,
            last_move: None,
            position_hash: position_hash,
            board_hash: board_hash,
        }
    }
}

/// The four promotion moves from `from` to `to`, in queen, rook, bishop,
/// knight order.
pub open spec fn promo_moves(p: Piece, from: int, to: int, cap: bool) -> Seq<Move> {
    seq![
        Move {
            piece: p,
            from: from as usize,
            to: to as usize,
            move_type: MoveType::Promotion(PieceType::Queen, cap),
        },
        Move {
            piece: p,
            from: from as usize,
            to: to as usize,
            move_type: MoveType::Promotion(PieceType::Rook, cap),
        },
        Move {
            piece: p,
            from: from as usize,
            to: to as usize,
            move_type: MoveType::Promotion(PieceType::Bishop, cap),
        },
        Move {
            piece: p,
            from: from as usize,
            to: to as usize,
            move_type: MoveType::Promotion(PieceType::Knight, cap),
        },
    ]
}

/// The candidate move of a leaper (knight or king) from `from` by one offset:
/// a normal move to an empty cell, a capture of an enemy piece, and nothing
/// off the board or onto a friendly piece.
pub open spec fn offset_moves(pos: Seq<Square>, p: Piece, from: int, dr: int, dc: int) -> Seq<
    Move,
> {
    let nr = from / 8 + dr;
    let nc = from % 8 + dc;
    if !on_board(nr, nc) {
        Seq::empty()
    } else {
        match pos[cell(nr, nc)] {
            Square::Empty => seq![
                Move {
                    piece: p,
                    from: from as usize,
                    to: cell(nr, nc) as usize,
                    move_type: MoveType::Normal,
                },
            ],
            Square::Piece(q) => if q.pcolour != p.pcolour {
                seq![
                    Move {
                        piece: p,
                        from: from as usize,
                        to: cell(nr, nc) as usize,
                        move_type: MoveType::Capture,
                    },
                ]
            } else {
                Seq::empty()
            },
        }
    }
}

/// The moves of a slider along one ray, scanned from `(r, c)` outwards:
/// normal moves onto the empty cells before the first occupant, then a
/// capture if the occupant is an enemy piece.
pub open spec fn ray_moves(
    pos: Seq<Square>,
    p: Piece,
    from: int,
    r: int,
    c: int,
    dr: int,
    dc: int,
    fuel: nat,
) -> Seq<Move>
    decreases fuel,
{
    if fuel == 0 {
        Seq::empty()
    } else {
        let nr = r + dr;
        let nc = c + dc;
        if !on_board(nr, nc) {
            Seq::empty()
        } else {
            match pos[cell(nr, nc)] {
                Square::Empty => seq![
                    Move {
                        piece: p,
                        from: from as usize,
                        to: cell(nr, nc) as usize,
                        move_type: MoveType::Normal,
                    },
                ] + ray_moves(pos, p, from, nr, nc, dr, dc, (fuel - 1) as nat),
                Square::Piece(q) => if q.pcolour != p.pcolour {
                    seq![
                        Move {
                            piece: p,
                            from: from as usize,
                            to: cell(nr, nc) as usize,
                            move_type: MoveType::Capture,
                        },
                    ]
                } else {
                    Seq::empty()
                },
            }
        }
    }
}

/// A pawn capture candidate onto `(tr, tc)`: a capture of an enemy piece,
/// expanded to the four promotion captures on the promotion row.
pub open spec fn pawn_cap_moves(
    v: BoardStateV,
    p: Piece,
    from: int,
    tr: int,
    tc: int,
    promo_row: int,
) -> Seq<Move> {
    if on_board(tr, tc) && (match v.pos[cell(tr, tc)] {
        Square::Piece(q) => q.pcolour != p.pcolour,
        Square::Empty => false,
    }) {
        if tr == promo_row {
            promo_moves(p, from, cell(tr, tc), true)
        } else {
            seq![
                Move {
                    piece: p,
                    from: from as usize,
                    to: cell(tr, tc) as usize,
                    move_type: MoveType::Capture,
                },
            ]
        }
    } else {
        Seq::empty()
    }
}

/// A pawn en-passant candidate onto `(tr, tc)`: the en-passant target must
/// be exactly that cell.
pub open spec fn pawn_ep_moves(v: BoardStateV, p: Piece, from: int, tr: int, tc: int) -> Seq<
    Move,
> {
    if on_board(tr, tc) && v.en_passant == Some(cell(tr, tc)) {
        seq![
            Move {
                piece: p,
                from: from as usize,
                to: cell(tr, tc) as usize,
                move_type: MoveType::EnPassant,
            },
        ]
    } else {
        Seq::empty()
    }
}

/// A pawn's candidate moves, in order: single push (expanded to the four
/// promotions on the last row), double push from the start row, capture
/// towards the smaller column, capture towards the larger column, then the
/// two en-passant captures. White pawns move towards smaller rows, black
/// pawns towards larger rows.
/// The row direction a pawn of `colour` moves in.
pub open spec fn pawn_dir(colour: PieceColour) -> int {
    if colour is White {
        -1
    } else {
        1
    }
}

/// The row a pawn of `colour` starts on.
pub open spec fn pawn_start_row(colour: PieceColour) -> int {
    if colour is White {
        6
    } else {
        1
    }
}

/// The row a pawn of `colour` promotes on.
pub open spec fn pawn_promo_row(colour: PieceColour) -> int {
    if colour is White {
        0
    } else {
        7
    }
}

/// A pawn's single-push candidate: one step ahead onto an empty cell,
/// expanded to the four promotions on the last row.
pub open spec fn pawn_push1_moves(v: BoardStateV, from: int, p: Piece) -> Seq<Move> {
    let r = from / 8;
    let c = from % 8;
    let d = pawn_dir(p.pcolour);
    let one = cell(r + d, c);
    if on_board(r + d, c) && v.pos[one] is Empty {
        if r + d == pawn_promo_row(p.pcolour) {
            promo_moves(p, from, one, false)
        } else {
            seq![
                Move {
                    piece: p,
                    from: from as usize,
                    to: one as usize,
                    move_type: MoveType::Normal,
                },
            ]
        }
    } else {
        Seq::empty()
    }
}

/// A pawn's double-push candidate: two steps ahead from the start row, both
/// cells empty.
pub open spec fn pawn_push2_moves(v: BoardStateV, from: int, p: Piece) -> Seq<Move> {
    let r = from / 8;
    let c = from % 8;
    let d = pawn_dir(p.pcolour);
    let one = cell(r + d, c);
    let two = cell(r + 2 * d, c);
    if r == pawn_start_row(p.pcolour) && on_board(r + d, c) && v.pos[one] is Empty && on_board(
        r + 2 * d,
        c,
    ) && v.pos[two] is Empty {
        seq![
            Move {
                piece: p,
                from: from as usize,
                to: two as usize,
                move_type: MoveType::DoublePawnPush,
            },
        ]
    } else {
        Seq::empty()
    }
}

/// A pawn's candidate moves, in order: single push (expanded to the four
/// promotions on the last row), double push from the start row, capture
/// towards the smaller column, capture towards the larger column, then the
/// two en-passant captures.
pub open spec fn pawn_moves(v: BoardStateV, from: int, p: Piece) -> Seq<Move> {
    let r = from / 8;
    let c = from % 8;
    let d = pawn_dir(p.pcolour);
    let promo_row = pawn_promo_row(p.pcolour);
    pawn_push1_moves(v, from, p) + pawn_push2_moves(v, from, p) + pawn_cap_moves(
        v,
        p,
        from,
        r + d,
        c - 1,
        promo_row,
    ) + pawn_cap_moves(v, p, from, r + d, c + 1, promo_row) + pawn_ep_moves(v, p, from, r + d, c - 1)
        + pawn_ep_moves(v, p, from, r + d, c + 1)
}

/// The castling candidates of `colour`, short then long. A castle asks that
/// the right is still held, the king and the rook stand on their home cells,
/// the cells between them are empty, and the king's cell, transit cell and
/// destination cell are not attacked.
pub open spec fn castle_moves(v: BoardStateV, colour: PieceColour) -> Seq<Move> {
    let row = back_row(colour);
    let enemy = colour.spec_opposite();
    let king = Piece { pcolour: colour, ptype: PieceType::King };
    let rook = Square::Piece(Piece { pcolour: colour, ptype: PieceType::Rook });
    let short_ok = {
        &&& (if colour is White {
            v.castle_wk
        } else {
            v.castle_bk
        })
        &&& v.pos[cell(row, 4)] == Square::Piece(king)
        &&& v.pos[cell(row, 7)] == rook
        &&& v.pos[cell(row, 5)] is Empty
        &&& v.pos[cell(row, 6)] is Empty
        &&& !spec_attacked(v.pos, row, 4, enemy)
        &&& !spec_attacked(v.pos, row, 5, enemy)
        &&& !spec_attacked(v.pos, row, 6, enemy)
    };
    let long_ok = {
        &&& (if colour is White {
            v.castle_wq
        } else {
            v.castle_bq
        })
        &&& v.pos[cell(row, 4)] == Square::Piece(king)
        &&& v.pos[cell(row, 0)] == rook
        &&& v.pos[cell(row, 1)] is Empty
        &&& v.pos[cell(row, 2)] is Empty
        &&& v.pos[cell(row, 3)] is Empty
        &&& !spec_attacked(v.pos, row, 4, enemy)
        &&& !spec_attacked(v.pos, row, 3, enemy)
        &&& !spec_attacked(v.pos, row, 2, enemy)
    };
    (if short_ok {
        seq![
            Move {
                piece: king,
                from: cell(row, 4) as usize,
                to: cell(row, 6) as usize,
                move_type: MoveType::Castle(CastleSide::Short),
            },
        ]
    } else {
        Seq::empty()
    }) + (if long_ok {
        seq![
            Move {
                piece: king,
                from: cell(row, 4) as usize,
                to: cell(row, 2) as usize,
                move_type: MoveType::Castle(CastleSide::Long),
            },
        ]
    } else {
        Seq::empty()
    })
}

/// A knight's candidate moves: the eight offsets in a fixed order.
pub open spec fn knight_moves(v: BoardStateV, from: int, p: Piece) -> Seq<Move> {
    offset_moves(v.pos, p, from, -2, -1) + offset_moves(v.pos, p, from, -2, 1) + offset_moves(
        v.pos,
        p,
        from,
        -1,
        -2,
    ) + offset_moves(v.pos, p, from, -1, 2) + offset_moves(v.pos, p, from, 1, -2) + offset_moves(
        v.pos,
        p,
        from,
        1,
        2,
    ) + offset_moves(v.pos, p, from, 2, -1) + offset_moves(v.pos, p, from, 2, 1)
}

/// A rook's candidate moves: the four straight rays in a fixed order.
pub open spec fn rook_moves(v: BoardStateV, from: int, p: Piece) -> Seq<Move> {
    ray_moves(v.pos, p, from, from / 8, from % 8, -1, 0, 8) + ray_moves(
        v.pos,
        p,
        from,
        from / 8,
        from % 8,
        1,
        0,
        8,
    ) + ray_moves(v.pos, p, from, from / 8, from % 8, 0, -1, 8) + ray_moves(
        v.pos,
        p,
        from,
        from / 8,
        from % 8,
        0,
        1,
        8,
    )
}

/// A bishop's candidate moves: the four diagonal rays in a fixed order.
pub open spec fn bishop_moves(v: BoardStateV, from: int, p: Piece) -> Seq<Move> {
    ray_moves(v.pos, p, from, from / 8, from % 8, -1, -1, 8) + ray_moves(
        v.pos,
        p,
        from,
        from / 8,
        from % 8,
        -1,
        1,
        8,
    ) + ray_moves(v.pos, p, from, from / 8, from % 8, 1, -1, 8) + ray_moves(
        v.pos,
        p,
        from,
        from / 8,
        from % 8,
        1,
        1,
        8,
    )
}

/// A king's candidate moves: the eight adjacent cells in a fixed order, then
/// the castling candidates.
pub open spec fn king_moves(v: BoardStateV, from: int, p: Piece) -> Seq<Move> {
    offset_moves(v.pos, p, from, -1, -1) + offset_moves(v.pos, p, from, -1, 0) + offset_moves(
        v.pos,
        p,
        from,
        -1,
        1,
    ) + offset_moves(v.pos, p, from, 0, -1) + offset_moves(v.pos, p, from, 0, 1) + offset_moves(
        v.pos,
        p,
        from,
        1,
        -1,
    ) + offset_moves(v.pos, p, from, 1, 0) + offset_moves(v.pos, p, from, 1, 1) + castle_moves(
        v,
        p.pcolour,
    )
}

/// The candidate moves of the piece on cell `i`: empty unless the cell holds
/// a piece of the side to move.
#[verifier::opaque]
pub open spec fn moves_from_cell(v: BoardStateV, i: int) -> Seq<Move> {
    if v.pos.len() != 64 || !(0 <= i < 64) {
        Seq::empty()
    } else {
        match v.pos[i] {
            Square::Empty => Seq::empty(),
            Square::Piece(p) => if p.pcolour != v.side_to_move {
                Seq::empty()
            } else {
                match p.ptype {
                    PieceType::Pawn => pawn_moves(v, i, p),
                    PieceType::Knight => knight_moves(v, i, p),
                    PieceType::Bishop => bishop_moves(v, i, p),
                    PieceType::Rook => rook_moves(v, i, p),
                    PieceType::Queen => rook_moves(v, i, p) + bishop_moves(v, i, p),
                    PieceType::King => king_moves(v, i, p),
                }
            },
        }
    }
}

/// The candidate moves of all cells from `i` onwards, in cell order.
pub open spec fn gen_from_cell(v: BoardStateV, i: int) -> Seq<Move>
    decreases 64 - i,
{
    if i < 0 || i >= 64 {
        Seq::empty()
    } else {
        moves_from_cell(v, i) + gen_from_cell(v, i + 1)
    }
}

/// All pseudo-legal moves of the side to move, in cell order: every movement
/// the pieces could make by shape, before the own-king-safety filter.
pub open spec fn pseudo_legal_moves(v: BoardStateV) -> Seq<Move> {
    gen_from_cell(v, 0)
}

/// True when playing `m` leaves no king of the moving side attacked.
pub open spec fn keeps_king_safe(v: BoardStateV, m: Move) -> bool {
    !spec_in_check(apply_move_pos(v.pos, m), v.side_to_move)
}

/// The own-king-safety filter, keeping the order of `s`.
pub open spec fn filter_safe(v: BoardStateV, s: Seq<Move>) -> Seq<Move>
    decreases s.len(),
{
    if s.len() == 0 {
        Seq::empty()
    } else {
        filter_safe(v, s.drop_last()) + (if keeps_king_safe(v, s.last()) {
            seq![s.last()]
        } else {
            Seq::empty()
        })
    }
}

/// The legal moves of a position: the pseudo-legal moves whose play leaves
/// the mover's own king unattacked, in generation order. The order is a
/// function of the position alone, so it is stable across calls.
#[verifier::opaque]
pub open spec fn spec_legal_moves(v: BoardStateV) -> Seq<Move> {
    filter_safe(v, pseudo_legal_moves(v))
}

/// A structurally sound move of position `v`: both cells on the board, and
/// the moved piece is the side to move's piece on the origin cell.
pub open spec fn move_ok(v: BoardStateV, m: Move) -> bool {
    &&& m.from < 64
    &&& m.to < 64
    &&& v.pos.len() == 64
    &&& v.pos[m.from as int] == Square::Piece(m.piece)
    &&& m.piece.pcolour == v.side_to_move
}

/// Every move of `s` is piece `p` moving from `from` onto the board.
pub open spec fn all_from(s: Seq<Move>, p: Piece, from: int) -> bool {
    forall|k: int|
        0 <= k < s.len() ==> (#[trigger] s[k]).piece == p && s[k].from == from && s[k].to < 64
}

/// Concatenation preserves [`all_from`].
pub proof fn lemma_all_from_concat(a: Seq<Move>, b: Seq<Move>, p: Piece, from: int)
    requires
        all_from(a, p, from),
        all_from(b, p, from),
    ensures
        all_from(a + b, p, from),
{
    assert forall|k: int| 0 <= k < (a + b).len() implies (#[trigger] (a + b)[k]).piece == p && (a
        + b)[k].from == from && (a + b)[k].to < 64 by {
        if k < a.len() {
            assert((a + b)[k] == a[k]);
        } else {
            assert((a + b)[k] == b[k - a.len()]);
        }
    }
}

/// Every offset candidate is the given piece moving from `from` onto the
/// board.
pub proof fn lemma_offset_moves_ok(pos: Seq<Square>, p: Piece, from: int, dr: int, dc: int)
    requires
        0 <= from < 64,
    ensures
        all_from(offset_moves(pos, p, from, dr, dc), p, from),
{
}

/// Every promotion candidate is the given piece moving from `from` to `to`.
pub proof fn lemma_promo_moves_ok(p: Piece, from: int, to: int, cap: bool)
    requires
        0 <= from < 64,
        0 <= to < 64,
    ensures
        all_from(promo_moves(p, from, to, cap), p, from),
{
}

/// Every ray candidate is the given piece moving from `from` onto the board.
pub proof fn lemma_ray_moves_ok(
    pos: Seq<Square>,
    p: Piece,
    from: int,
    r: int,
    c: int,
    dr: int,
    dc: int,
    fuel: nat,
)
    requires
        0 <= from < 64,
    ensures
        all_from(ray_moves(pos, p, from, r, c, dr, dc, fuel), p, from),
    decreases fuel,
{
    if fuel > 0 && on_board(r + dr, c + dc) {
        lemma_ray_moves_ok(pos, p, from, r + dr, c + dc, dr, dc, (fuel - 1) as nat);
        if pos[cell(r + dr, c + dc)] is Empty {
            let head = seq![
                Move {
                    piece: p,
                    from: from as usize,
                    to: cell(r + dr, c + dc) as usize,
                    move_type: MoveType::Normal,
                },
            ];
            lemma_all_from_concat(
                head,
                ray_moves(pos, p, from, r + dr, c + dc, dr, dc, (fuel - 1) as nat),
                p,
                from,
            );
        }
    }
}

/// Every pawn candidate is the given pawn moving from `from` onto the board.
pub proof fn lemma_pawn_moves_ok(v: BoardStateV, from: int, p: Piece)
    requires
        0 <= from < 64,
    ensures
        all_from(pawn_moves(v, from, p), p, from),
{
    let r = from / 8;
    let c = from % 8;
    let d = pawn_dir(p.pcolour);
    let promo_row = pawn_promo_row(p.pcolour);
    if on_board(r + d, c) {
        lemma_promo_moves_ok(p, from, cell(r + d, c), false);
    }
    if on_board(r + d, c - 1) {
        lemma_promo_moves_ok(p, from, cell(r + d, c - 1), true);
    }
    if on_board(r + d, c + 1) {
        lemma_promo_moves_ok(p, from, cell(r + d, c + 1), true);
    }
    let a = pawn_push1_moves(v, from, p);
    let b = pawn_push2_moves(v, from, p);
    let cl = pawn_cap_moves(v, p, from, r + d, c - 1, promo_row);
    let cr = pawn_cap_moves(v, p, from, r + d, c + 1, promo_row);
    let el = pawn_ep_moves(v, p, from, r + d, c - 1);
    let er = pawn_ep_moves(v, p, from, r + d, c + 1);
    assert(all_from(a, p, from));
    assert(all_from(b, p, from));
    assert(all_from(cl, p, from));
    assert(all_from(cr, p, from));
    assert(all_from(el, p, from));
    assert(all_from(er, p, from));
    lemma_all_from_concat(a, b, p, from);
    lemma_all_from_concat(a + b, cl, p, from);
    lemma_all_from_concat(a + b + cl, cr, p, from);
    lemma_all_from_concat(a + b + cl + cr, el, p, from);
    lemma_all_from_concat(a + b + cl + cr + el, er, p, from);
}

/// Every knight candidate is the knight moving from `from` onto the board.
pub proof fn lemma_knight_moves_ok(v: BoardStateV, from: int, p: Piece)
    requires
        0 <= from < 64,
    ensures
        all_from(knight_moves(v, from, p), p, from),
{
    let o1 = offset_moves(v.pos, p, from, -2, -1);
    let o2 = offset_moves(v.pos, p, from, -2, 1);
    let o3 = offset_moves(v.pos, p, from, -1, -2);
    let o4 = offset_moves(v.pos, p, from, -1, 2);
    let o5 = offset_moves(v.pos, p, from, 1, -2);
    let o6 = offset_moves(v.pos, p, from, 1, 2);
    let o7 = offset_moves(v.pos, p, from, 2, -1);
    let o8 = offset_moves(v.pos, p, from, 2, 1);
    lemma_all_from_concat(o1, o2, p, from);
    lemma_all_from_concat(o1 + o2, o3, p, from);
    lemma_all_from_concat(o1 + o2 + o3, o4, p, from);
    lemma_all_from_concat(o1 + o2 + o3 + o4, o5, p, from);
    lemma_all_from_concat(o1 + o2 + o3 + o4 + o5, o6, p, from);
    lemma_all_from_concat(o1 + o2 + o3 + o4 + o5 + o6, o7, p, from);
    lemma_all_from_concat(o1 + o2 + o3 + o4 + o5 + o6 + o7, o8, p, from);
}

/// Every rook-ray candidate is the piece moving from `from` onto the board.
pub proof fn lemma_rook_moves_ok(v: BoardStateV, from: int, p: Piece)
    requires
        0 <= from < 64,
    ensures
        all_from(rook_moves(v, from, p), p, from),
{
    let r1 = ray_moves(v.pos, p, from, from / 8, from % 8, -1, 0, 8);
    let r2 = ray_moves(v.pos, p, from, from / 8, from % 8, 1, 0, 8);
    let r3 = ray_moves(v.pos, p, from, from / 8, from % 8, 0, -1, 8);
    let r4 = ray_moves(v.pos, p, from, from / 8, from % 8, 0, 1, 8);
    lemma_ray_moves_ok(v.pos, p, from, from / 8, from % 8, -1, 0, 8);
    lemma_ray_moves_ok(v.pos, p, from, from / 8, from % 8, 1, 0, 8);
    lemma_ray_moves_ok(v.pos, p, from, from / 8, from % 8, 0, -1, 8);
    lemma_ray_moves_ok(v.pos, p, from, from / 8, from % 8, 0, 1, 8);
    lemma_all_from_concat(r1, r2, p, from);
    lemma_all_from_concat(r1 + r2, r3, p, from);
    lemma_all_from_concat(r1 + r2 + r3, r4, p, from);
}

/// Every bishop-ray candidate is the piece moving from `from` onto the
/// board.
pub proof fn lemma_bishop_moves_ok(v: BoardStateV, from: int, p: Piece)
    requires
        0 <= from < 64,
    ensures
        all_from(bishop_moves(v, from, p), p, from),
{
    let r1 = ray_moves(v.pos, p, from, from / 8, from % 8, -1, -1, 8);
    let r2 = ray_moves(v.pos, p, from, from / 8, from % 8, -1, 1, 8);
    let r3 = ray_moves(v.pos, p, from, from / 8, from % 8, 1, -1, 8);
    let r4 = ray_moves(v.pos, p, from, from / 8, from % 8, 1, 1, 8);
    lemma_ray_moves_ok(v.pos, p, from, from / 8, from % 8, -1, -1, 8);
    lemma_ray_moves_ok(v.pos, p, from, from / 8, from % 8, -1, 1, 8);
    lemma_ray_moves_ok(v.pos, p, from, from / 8, from % 8, 1, -1, 8);
    lemma_ray_moves_ok(v.pos, p, from, from / 8, from % 8, 1, 1, 8);
    lemma_all_from_concat(r1, r2, p, from);
    lemma_all_from_concat(r1 + r2, r3, p, from);
    lemma_all_from_concat(r1 + r2 + r3, r4, p, from);
}

/// Every castling candidate is the colour's king moving between home cells,
/// standing on its origin cell.
pub proof fn lemma_castle_moves_ok(v: BoardStateV, colour: PieceColour)
    requires
        v.pos.len() == 64,
    ensures
        forall|k: int|
            0 <= k < castle_moves(v, colour).len() ==> (#[trigger] castle_moves(v, colour)[k]).from
                < 64 && castle_moves(v, colour)[k].to < 64 && castle_moves(v, colour)[k].piece
                == (Piece { pcolour: colour, ptype: PieceType::King }) && v.pos[castle_moves(
                v,
                colour,
            )[k].from as int] == Square::Piece(castle_moves(v, colour)[k].piece),
{
}

/// Every candidate generated from a cell is a structurally sound move of the
/// position.
pub proof fn lemma_moves_from_cell_ok(v: BoardStateV, i: int)
    requires
        v.pos.len() == 64,
    ensures
        forall|k: int|
            0 <= k < moves_from_cell(v, i).len() ==> move_ok(
                v,
                #[trigger] moves_from_cell(v, i)[k],
            ),
{
    reveal(moves_from_cell);
    if 0 <= i < 64 {
        match v.pos[i] {
            Square::Empty => {},
            Square::Piece(p) => {
                if p.pcolour == v.side_to_move {
                    match p.ptype {
                        PieceType::Pawn => {
                            lemma_pawn_moves_ok(v, i, p);
                        },
                        PieceType::Knight => {
                            lemma_knight_moves_ok(v, i, p);
                        },
                        PieceType::Bishop => {
                            lemma_bishop_moves_ok(v, i, p);
                        },
                        PieceType::Rook => {
                            lemma_rook_moves_ok(v, i, p);
                        },
                        PieceType::Queen => {
                            lemma_rook_moves_ok(v, i, p);
                            lemma_bishop_moves_ok(v, i, p);
                            lemma_all_from_concat(
                                rook_moves(v, i, p),
                                bishop_moves(v, i, p),
                                p,
                                i,
                            );
                        },
                        PieceType::King => {
                            lemma_king_moves_ok(v, i, p);
                        },
                    }
                }
            },
        }
    }
}

/// Every king candidate is a sound move: the adjacent-cell candidates move
/// the king from `from`, and the castling candidates move it from its home
/// cell, where it stands.
#[verifier::rlimit(100)]
pub proof fn lemma_king_moves_ok(v: BoardStateV, from: int, p: Piece)
    requires
        v.pos.len() == 64,
        0 <= from < 64,
        v.pos[from] == Square::Piece(p),
        p.ptype is King,
    ensures
        forall|k: int|
            0 <= k < king_moves(v, from, p).len() ==> (#[trigger] king_moves(v, from, p)[k]).from
                < 64 && king_moves(v, from, p)[k].to < 64 && king_moves(v, from, p)[k].piece.pcolour
                == p.pcolour && v.pos[king_moves(v, from, p)[k].from as int] == Square::Piece(
                king_moves(v, from, p)[k].piece,
            ),
{
    let o1 = offset_moves(v.pos, p, from, -1, -1);
    let o2 = offset_moves(v.pos, p, from, -1, 0);
    let o3 = offset_moves(v.pos, p, from, -1, 1);
    let o4 = offset_moves(v.pos, p, from, 0, -1);
    let o5 = offset_moves(v.pos, p, from, 0, 1);
    let o6 = offset_moves(v.pos, p, from, 1, -1);
    let o7 = offset_moves(v.pos, p, from, 1, 0);
    let o8 = offset_moves(v.pos, p, from, 1, 1);
    lemma_all_from_concat(o1, o2, p, from);
    lemma_all_from_concat(o1 + o2, o3, p, from);
    lemma_all_from_concat(o1 + o2 + o3, o4, p, from);
    lemma_all_from_concat(o1 + o2 + o3 + o4, o5, p, from);
    lemma_all_from_concat(o1 + o2 + o3 + o4 + o5, o6, p, from);
    lemma_all_from_concat(o1 + o2 + o3 + o4 + o5 + o6, o7, p, from);
    lemma_all_from_concat(o1 + o2 + o3 + o4 + o5 + o6 + o7, o8, p, from);
    lemma_castle_moves_ok(v, p.pcolour);
    let base = o1 + o2 + o3 + o4 + o5 + o6 + o7 + o8;
    let cm = castle_moves(v, p.pcolour);
    assert forall|k: int| 0 <= k < (base + cm).len() implies (#[trigger] (base + cm)[k]).from < 64
        && (base + cm)[k].to < 64 && (base + cm)[k].piece.pcolour == p.pcolour && v.pos[(base
        + cm)[k].from as int] == Square::Piece((base + cm)[k].piece) by {
        if k < base.len() {
            assert((base + cm)[k] == base[k]);
        } else {
            assert((base + cm)[k] == cm[k - base.len()]);
        }
    }
}

/// A copy of the 64 cells.
pub fn clone_squares(pos: &Vec<Square>) -> (r: Vec<Square>)
    ensures
        r@ == pos@,
{
    let mut r: Vec<Square> = Vec::new();
    let mut i: usize = 0;
    while i < pos.len()
        invariant
            i <= pos@.len(),
            r@ == pos@.subrange(0, i as int),
        decreases pos@.len() - i,
    {
        r.push(pos[i]);
        i = i + 1;
        proof {
            assert(r@ =~= pos@.subrange(0, i as int));
        }
    }
    proof {
        assert(r@ =~= pos@);
    }
    r
}

/// The cell contents after one move, as [`apply_move_pos`] says.
pub fn apply_move_pos_exec(pos: &Vec<Square>, m: &Move) -> (r: Vec<Square>)
    requires
        pos@.len() == 64,
        m.from < 64,
        m.to < 64,
    ensures
        r@ == apply_move_pos(pos@, *m),
        r@.len() == 64,
{
    let mut r: Vec<Square> = Vec::new();
    let mut i: usize = 0;
    while i < 64
        invariant
            i <= 64,
            pos@.len() == 64,
            r@ == pos@.subrange(0, i as int),
        decreases 64 - i,
    {
        r.push(pos[i]);
        i = i + 1;
        proof {
            assert(r@ =~= pos@.subrange(0, i as int));
        }
    }
    proof {
        assert(r@ =~= pos@);
    }
    let landed: Square = Square::Piece(
        match m.move_type {
            MoveType::Promotion(t, _) => Piece { pcolour: m.piece.pcolour, ptype: t },
            _ => m.piece,
        },
    );
    r[m.from] = Square::Empty;
    r[m.to] = landed;
    match m.move_type {
        MoveType::EnPassant => {
            let cap = (m.from / 8) * 8 + m.to % 8;
            r[cap] = Square::Empty;
        },
        MoveType::Castle(side) => {
            let row: usize = match m.piece.pcolour {
                PieceColour::White => 7,
                PieceColour::Black => 0,
            };
            match side {
                CastleSide::Short => {
                    r[row * 8 + 7] = Square::Empty;
                    r[row * 8 + 5] = Square::Piece(
                        Piece { pcolour: m.piece.pcolour, ptype: PieceType::Rook },
                    );
                },
                CastleSide::Long => {
                    r[row * 8] = Square::Empty;
                    r[row * 8 + 3] = Square::Piece(
                        Piece { pcolour: m.piece.pcolour, ptype: PieceType::Rook },
                    );
                },
            }
        },
        _ => {},
    }
    proof {
        assert(r@ =~= apply_move_pos(pos@, *m));
    }
    r
}

/// Appends the four promotion moves, as [`promo_moves`] says.
fn push_promo_moves(moves: &mut Vec<Move>, p: Piece, from: usize, to: usize, cap: bool)
    requires
        from < 64,
        to < 64,
    ensures
        final(moves)@ == old(moves)@ + promo_moves(p, from as int, to as int, cap),
{
    moves.push(Move { piece: p, from: from, to: to, move_type: MoveType::Promotion(PieceType::Queen, cap) });
    moves.push(Move { piece: p, from: from, to: to, move_type: MoveType::Promotion(PieceType::Rook, cap) });
    moves.push(Move { piece: p, from: from, to: to, move_type: MoveType::Promotion(PieceType::Bishop, cap) });
    moves.push(Move { piece: p, from: from, to: to, move_type: MoveType::Promotion(PieceType::Knight, cap) });
    proof {
        assert(moves@ =~= old(moves)@ + promo_moves(p, from as int, to as int, cap));
    }
}

/// Appends a leaper's candidate for one offset, as [`offset_moves`] says.
fn push_offset_moves(moves: &mut Vec<Move>, pos: &Vec<Square>, p: Piece, from: usize, dr: i32, dc: i32)
    requires
        pos@.len() == 64,
        from < 64,
        -2 <= dr <= 2,
        -2 <= dc <= 2,
    ensures
        final(moves)@ == old(moves)@ + offset_moves(pos@, p, from as int, dr as int, dc as int),
{
    let nr = (from / 8) as i32 + dr;
    let nc = (from % 8) as i32 + dc;
    if 0 <= nr && nr < 8 && 0 <= nc && nc < 8 {
        let to = (nr * 8 + nc) as usize;
        match pos[to] {
            Square::Empty => {
                moves.push(Move { piece: p, from: from, to: to, move_type: MoveType::Normal });
            },
            Square::Piece(q) => {
                if q.pcolour != p.pcolour {
                    moves.push(Move { piece: p, from: from, to: to, move_type: MoveType::Capture });
                }
            },
        }
    }
    proof {
        assert(moves@ =~= old(moves)@ + offset_moves(pos@, p, from as int, dr as int, dc as int));
    }
}

/// Appends a slider's candidates along one ray, as [`ray_moves`] says.
fn push_ray_moves(
    moves: &mut Vec<Move>,
    pos: &Vec<Square>,
    p: Piece,
    from: usize,
    r: i32,
    c: i32,
    dr: i32,
    dc: i32,
    fuel: u8,
)
    requires
        pos@.len() == 64,
        from < 64,
        -1 <= r <= 8,
        -1 <= c <= 8,
        -1 <= dr <= 1,
        -1 <= dc <= 1,
        fuel <= 8,
    ensures
        final(moves)@ == old(moves)@ + ray_moves(
            pos@,
            p,
            from as int,
            r as int,
            c as int,
            dr as int,
            dc as int,
            fuel as nat,
        ),
    decreases fuel,
{
    if fuel == 0 {
        proof {
            assert(moves@ =~= old(moves)@);
        }
        return ;
    }
    let nr = r + dr;
    let nc = c + dc;
    if !(0 <= nr && nr < 8 && 0 <= nc && nc < 8) {
        proof {
            assert(moves@ =~= old(moves)@);
        }
        return ;
    }
    let to = (nr * 8 + nc) as usize;
    match pos[to] {
        Square::Empty => {
            moves.push(Move { piece: p, from: from, to: to, move_type: MoveType::Normal });
            push_ray_moves(moves, pos, p, from, nr, nc, dr, dc, fuel - 1);
            proof {
                assert(moves@ =~= old(moves)@ + ray_moves(
                    pos@,
                    p,
                    from as int,
                    r as int,
                    c as int,
                    dr as int,
                    dc as int,
                    fuel as nat,
                ));
            }
        },
        Square::Piece(q) => {
            if q.pcolour != p.pcolour {
                moves.push(Move { piece: p, from: from, to: to, move_type: MoveType::Capture });
            }
            proof {
                assert(moves@ =~= old(moves)@ + ray_moves(
                    pos@,
                    p,
                    from as int,
                    r as int,
                    c as int,
                    dr as int,
                    dc as int,
                    fuel as nat,
                ));
            }
        },
    }
}

impl BoardState {
    /// Appends a pawn's single-push candidate, as [`pawn_push1_moves`] says.
    fn push_pawn_push1(&self, moves: &mut Vec<Move>, from: usize, p: Piece)
        requires
            self@.pos.len() == 64,
            from < 64,
        ensures
            final(moves)@ == old(moves)@ + pawn_push1_moves(self@, from as int, p),
    {
        let r = (from / 8) as i32;
        let c = (from % 8) as i32;
        let d: i32 = match p.pcolour {
            PieceColour::White => -1,
            PieceColour::Black => 1,
        };
        let promo_row: i32 = match p.pcolour {
            PieceColour::White => 0,
            PieceColour::Black => 7,
        };
        let t1 = r + d;
        if 0 <= t1 && t1 < 8 && sq_at_exec(&self.pos64, t1, c).is_empty() {
            let one = (t1 * 8 + c) as usize;
            if t1 == promo_row {
                push_promo_moves(moves, p, from, one, false);
            } else {
                moves.push(Move { piece: p, from: from, to: one, move_type: MoveType::Normal });
            }
        }
        proof {
            assert(moves@ =~= old(moves)@ + pawn_push1_moves(self@, from as int, p));
        }
    }

    /// Appends a pawn's double-push candidate, as [`pawn_push2_moves`] says.
    fn push_pawn_push2(&self, moves: &mut Vec<Move>, from: usize, p: Piece)
        requires
            self@.pos.len() == 64,
            from < 64,
        ensures
            final(moves)@ == old(moves)@ + pawn_push2_moves(self@, from as int, p),
    {
        let r = (from / 8) as i32;
        let c = (from % 8) as i32;
        let d: i32 = match p.pcolour {
            PieceColour::White => -1,
            PieceColour::Black => 1,
        };
        let start_row: i32 = match p.pcolour {
            PieceColour::White => 6,
            PieceColour::Black => 1,
        };
        let t1 = r + d;
        let t2 = r + 2 * d;
        if r == start_row && 0 <= t1 && t1 < 8 && sq_at_exec(&self.pos64, t1, c).is_empty() && 0
            <= t2 && t2 < 8 && sq_at_exec(&self.pos64, t2, c).is_empty() {
            let two = (t2 * 8 + c) as usize;
            moves.push(Move { piece: p, from: from, to: two, move_type: MoveType::DoublePawnPush });
        }
        proof {
            assert(moves@ =~= old(moves)@ + pawn_push2_moves(self@, from as int, p));
        }
    }

    /// Appends a pawn's candidates, as [`pawn_moves`] says.
    fn push_pawn_moves(&self, moves: &mut Vec<Move>, from: usize, p: Piece)
        requires
            self@.pos.len() == 64,
            from < 64,
        ensures
            final(moves)@ == old(moves)@ + pawn_moves(self@, from as int, p),
    {
        let r = (from / 8) as i32;
        let c = (from % 8) as i32;
        let d: i32 = match p.pcolour {
            PieceColour::White => -1,
            PieceColour::Black => 1,
        };
        let promo_row: i32 = match p.pcolour {
            PieceColour::White => 0,
            PieceColour::Black => 7,
        };
        let t1 = r + d;
        self.push_pawn_push1(moves, from, p);
        self.push_pawn_push2(moves, from, p);
        // captures, smaller column first
        self.push_pawn_cap(moves, from, p, t1, c - 1, promo_row);
        self.push_pawn_cap(moves, from, p, t1, c + 1, promo_row);
        // en-passant captures, smaller column first
        self.push_pawn_ep(moves, from, p, t1, c - 1);
        self.push_pawn_ep(moves, from, p, t1, c + 1);
        proof {
            let m0 = old(moves)@;
            let v = self@;
            let f = from as int;
            let ri = f / 8;
            let ci = f % 8;
            let di = pawn_dir(p.pcolour);
            let pr = pawn_promo_row(p.pcolour);
            let a = pawn_push1_moves(v, f, p);
            let b = pawn_push2_moves(v, f, p);
            let cl = pawn_cap_moves(v, p, f, ri + di, ci - 1, pr);
            let cr = pawn_cap_moves(v, p, f, ri + di, ci + 1, pr);
            let el = pawn_ep_moves(v, p, f, ri + di, ci - 1);
            let er = pawn_ep_moves(v, p, f, ri + di, ci + 1);
            vstd::seq_lib::lemma_concat_associative(m0, a, b);
            vstd::seq_lib::lemma_concat_associative(m0, a + b, cl);
            vstd::seq_lib::lemma_concat_associative(m0, a + b + cl, cr);
            vstd::seq_lib::lemma_concat_associative(m0, a + b + cl + cr, el);
            vstd::seq_lib::lemma_concat_associative(m0, a + b + cl + cr + el, er);
            assert(moves@ == m0 + pawn_moves(v, f, p));
        }
    }

    /// Appends a pawn's capture candidate onto `(tr, tc)`, as
    /// [`pawn_cap_moves`] says.
    fn push_pawn_cap(&self, moves: &mut Vec<Move>, from: usize, p: Piece, tr: i32, tc: i32, promo_row: i32)
        requires
            self@.pos.len() == 64,
            from < 64,
            -2 <= tr <= 9,
            -2 <= tc <= 9,
            promo_row == 0 || promo_row == 7,
        ensures
            final(moves)@ == old(moves)@ + pawn_cap_moves(
                self@,
                p,
                from as int,
                tr as int,
                tc as int,
                promo_row as int,
            ),
    {
        if 0 <= tr && tr < 8 && 0 <= tc && tc < 8 {
            let to = (tr * 8 + tc) as usize;
            match self.pos64[to] {
                Square::Piece(q) => {
                    if q.pcolour != p.pcolour {
                        if tr == promo_row {
                            push_promo_moves(moves, p, from, to, true);
                        } else {
                            moves.push(
                                Move { piece: p, from: from, to: to, move_type: MoveType::Capture },
                            );
                        }
                    }
                },
                Square::Empty => {},
            }
        }
        proof {
            assert(moves@ =~= old(moves)@ + pawn_cap_moves(
                self@,
                p,
                from as int,
                tr as int,
                tc as int,
                promo_row as int,
            ));
        }
    }

    /// Appends a pawn's en-passant candidate onto `(tr, tc)`, as
    /// [`pawn_ep_moves`] says.
    fn push_pawn_ep(&self, moves: &mut Vec<Move>, from: usize, p: Piece, tr: i32, tc: i32)
        requires
            self@.pos.len() == 64,
            from < 64,
            -2 <= tr <= 9,
            -2 <= tc <= 9,
        ensures
            final(moves)@ == old(moves)@ + pawn_ep_moves(
                self@,
                p,
                from as int,
                tr as int,
                tc as int,
            ),
    {
        if 0 <= tr && tr < 8 && 0 <= tc && tc < 8 {
            let to = (tr * 8 + tc) as usize;
            let is_ep = match self.en_passant {
                Some(e) => e == to,
                None => false,
            };
            if is_ep {
                moves.push(Move { piece: p, from: from, to: to, move_type: MoveType::EnPassant });
            }
        }
        proof {
            assert(moves@ =~= old(moves)@ + pawn_ep_moves(
                self@,
                p,
                from as int,
                tr as int,
                tc as int,
            ));
        }
    }

    /// Appends the castling candidates of `colour`, as [`castle_moves`] says.
    fn push_castle_moves(&self, moves: &mut Vec<Move>, colour: PieceColour)
        requires
            self@.pos.len() == 64,
        ensures
            final(moves)@ == old(moves)@ + castle_moves(self@, colour),
    {
        let row: usize = match colour {
            PieceColour::White => 7,
            PieceColour::Black => 0,
        };
        let king = Piece { pcolour: colour, ptype: PieceType::King };
        let rook = Square::Piece(Piece { pcolour: colour, ptype: PieceType::Rook });
        let enemy = colour.opposite();
        let king_home = self.pos64[row * 8 + 4] == Square::Piece(king);
        let short_flag = match colour {
            PieceColour::White => self.castle_wk,
            PieceColour::Black => self.castle_bk,
        };
        let long_flag = match colour {
            PieceColour::White => self.castle_wq,
            PieceColour::Black => self.castle_bq,
        };
        let ri = row as i32;
        if short_flag && king_home && self.pos64[row * 8 + 7] == rook && self.pos64[row * 8
            + 5].is_empty() && self.pos64[row * 8 + 6].is_empty() && !is_attacked(
            &self.pos64,
            ri,
            4,
            enemy,
        ) && !is_attacked(&self.pos64, ri, 5, enemy) && !is_attacked(&self.pos64, ri, 6, enemy) {
            moves.push(
                Move {
                    piece: king,
                    from: row * 8 + 4,
                    to: row * 8 + 6,
                    move_type: MoveType::Castle(CastleSide::Short),
                },
            );
        }
        if long_flag && king_home && self.pos64[row * 8] == rook && self.pos64[row * 8
            + 1].is_empty() && self.pos64[row * 8 + 2].is_empty() && self.pos64[row * 8
            + 3].is_empty() && !is_attacked(&self.pos64, ri, 4, enemy) && !is_attacked(
            &self.pos64,
            ri,
            3,
            enemy,
        ) && !is_attacked(&self.pos64, ri, 2, enemy) {
            moves.push(
                Move {
                    piece: king,
                    from: row * 8 + 4,
                    to: row * 8 + 2,
                    move_type: MoveType::Castle(CastleSide::Long),
                },
            );
        }
        proof {
            assert(moves@ =~= old(moves)@ + castle_moves(self@, colour));
        }
    }

    /// Appends a knight's candidates, as [`knight_moves`] says.
    #[verifier::rlimit(100)]
    fn push_knight_moves(&self, moves: &mut Vec<Move>, i: usize, p: Piece)
        requires
            self@.pos.len() == 64,
            i < 64,
        ensures
            final(moves)@ == old(moves)@ + knight_moves(self@, i as int, p),
    {
        push_offset_moves(moves, &self.pos64, p, i, -2, -1);
        push_offset_moves(moves, &self.pos64, p, i, -2, 1);
        push_offset_moves(moves, &self.pos64, p, i, -1, -2);
        push_offset_moves(moves, &self.pos64, p, i, -1, 2);
        push_offset_moves(moves, &self.pos64, p, i, 1, -2);
        push_offset_moves(moves, &self.pos64, p, i, 1, 2);
        push_offset_moves(moves, &self.pos64, p, i, 2, -1);
        push_offset_moves(moves, &self.pos64, p, i, 2, 1);
        proof {
            let m0 = old(moves)@;
            let v = self@;
            let f = i as int;
            let o1 = offset_moves(v.pos, p, f, -2, -1);
            let o2 = offset_moves(v.pos, p, f, -2, 1);
            let o3 = offset_moves(v.pos, p, f, -1, -2);
            let o4 = offset_moves(v.pos, p, f, -1, 2);
            let o5 = offset_moves(v.pos, p, f, 1, -2);
            let o6 = offset_moves(v.pos, p, f, 1, 2);
            let o7 = offset_moves(v.pos, p, f, 2, -1);
            let o8 = offset_moves(v.pos, p, f, 2, 1);
            vstd::seq_lib::lemma_concat_associative(m0, o1, o2);
            vstd::seq_lib::lemma_concat_associative(m0, o1 + o2, o3);
            vstd::seq_lib::lemma_concat_associative(m0, o1 + o2 + o3, o4);
            vstd::seq_lib::lemma_concat_associative(m0, o1 + o2 + o3 + o4, o5);
            vstd::seq_lib::lemma_concat_associative(m0, o1 + o2 + o3 + o4 + o5, o6);
            vstd::seq_lib::lemma_concat_associative(m0, o1 + o2 + o3 + o4 + o5 + o6, o7);
            vstd::seq_lib::lemma_concat_associative(m0, o1 + o2 + o3 + o4 + o5 + o6 + o7, o8);
            assert(moves@ == m0 + knight_moves(v, f, p));
        }
    }

    /// Appends a bishop's candidates, as [`bishop_moves`] says.
    fn push_bishop_moves(&self, moves: &mut Vec<Move>, i: usize, p: Piece)
        requires
            self@.pos.len() == 64,
            i < 64,
        ensures
            final(moves)@ == old(moves)@ + bishop_moves(self@, i as int, p),
    {
        let r = (i / 8) as i32;
        let c = (i % 8) as i32;
        push_ray_moves(moves, &self.pos64, p, i, r, c, -1, -1, 8);
        push_ray_moves(moves, &self.pos64, p, i, r, c, -1, 1, 8);
        push_ray_moves(moves, &self.pos64, p, i, r, c, 1, -1, 8);
        push_ray_moves(moves, &self.pos64, p, i, r, c, 1, 1, 8);
        proof {
            assert(moves@ =~= old(moves)@ + bishop_moves(self@, i as int, p));
        }
    }

    /// Appends a rook's candidates, as [`rook_moves`] says.
    fn push_rook_moves(&self, moves: &mut Vec<Move>, i: usize, p: Piece)
        requires
            self@.pos.len() == 64,
            i < 64,
        ensures
            final(moves)@ == old(moves)@ + rook_moves(self@, i as int, p),
    {
        let r = (i / 8) as i32;
        let c = (i % 8) as i32;
        push_ray_moves(moves, &self.pos64, p, i, r, c, -1, 0, 8);
        push_ray_moves(moves, &self.pos64, p, i, r, c, 1, 0, 8);
        push_ray_moves(moves, &self.pos64, p, i, r, c, 0, -1, 8);
        push_ray_moves(moves, &self.pos64, p, i, r, c, 0, 1, 8);
        proof {
            assert(moves@ =~= old(moves)@ + rook_moves(self@, i as int, p));
        }
    }

    /// Appends a king's candidates, as [`king_moves`] says.
    #[verifier::rlimit(100)]
    fn push_king_moves(&self, moves: &mut Vec<Move>, i: usize, p: Piece)
        requires
            self@.pos.len() == 64,
            i < 64,
        ensures
            final(moves)@ == old(moves)@ + king_moves(self@, i as int, p),
    {
        push_offset_moves(moves, &self.pos64, p, i, -1, -1);
        push_offset_moves(moves, &self.pos64, p, i, -1, 0);
        push_offset_moves(moves, &self.pos64, p, i, -1, 1);
        push_offset_moves(moves, &self.pos64, p, i, 0, -1);
        push_offset_moves(moves, &self.pos64, p, i, 0, 1);
        push_offset_moves(moves, &self.pos64, p, i, 1, -1);
        push_offset_moves(moves, &self.pos64, p, i, 1, 0);
        push_offset_moves(moves, &self.pos64, p, i, 1, 1);
        self.push_castle_moves(moves, p.pcolour);
        proof {
            let m0 = old(moves)@;
            let v = self@;
            let f = i as int;
            let o1 = offset_moves(v.pos, p, f, -1, -1);
            let o2 = offset_moves(v.pos, p, f, -1, 0);
            let o3 = offset_moves(v.pos, p, f, -1, 1);
            let o4 = offset_moves(v.pos, p, f, 0, -1);
            let o5 = offset_moves(v.pos, p, f, 0, 1);
            let o6 = offset_moves(v.pos, p, f, 1, -1);
            let o7 = offset_moves(v.pos, p, f, 1, 0);
            let o8 = offset_moves(v.pos, p, f, 1, 1);
            let cm = castle_moves(v, p.pcolour);
            vstd::seq_lib::lemma_concat_associative(m0, o1, o2);
            vstd::seq_lib::lemma_concat_associative(m0, o1 + o2, o3);
            vstd::seq_lib::lemma_concat_associative(m0, o1 + o2 + o3, o4);
            vstd::seq_lib::lemma_concat_associative(m0, o1 + o2 + o3 + o4, o5);
            vstd::seq_lib::lemma_concat_associative(m0, o1 + o2 + o3 + o4 + o5, o6);
            vstd::seq_lib::lemma_concat_associative(m0, o1 + o2 + o3 + o4 + o5 + o6, o7);
            vstd::seq_lib::lemma_concat_associative(m0, o1 + o2 + o3 + o4 + o5 + o6 + o7, o8);
            vstd::seq_lib::lemma_concat_associative(
                m0,
                o1 + o2 + o3 + o4 + o5 + o6 + o7 + o8,
                cm,
            );
            assert(moves@ == m0 + king_moves(v, f, p));
        }
    }

    /// Appends the candidates of the piece on cell `i`, as
    /// [`moves_from_cell`] says.
    fn push_moves_at(&self, moves: &mut Vec<Move>, i: usize)
        requires
            self@.pos.len() == 64,
            i < 64,
        ensures
            final(moves)@ == old(moves)@ + moves_from_cell(self@, i as int),
    {
        proof {
            reveal(moves_from_cell);
        }
        let p = match self.pos64[i] {
            Square::Empty => {
                proof {
                    assert(moves@ =~= old(moves)@ + moves_from_cell(self@, i as int));
                }
                return ;
            },
            Square::Piece(p) => p,
        };
        if p.pcolour != self.side_to_move {
            proof {
                assert(moves@ =~= old(moves)@ + moves_from_cell(self@, i as int));
            }
            return ;
        }
        match p.ptype {
            PieceType::Pawn => {
                self.push_pawn_moves(moves, i, p);
            },
            PieceType::Knight => {
                self.push_knight_moves(moves, i, p);
            },
            PieceType::Bishop => {
                self.push_bishop_moves(moves, i, p);
            },
            PieceType::Rook => {
                self.push_rook_moves(moves, i, p);
            },
            PieceType::Queen => {
                self.push_rook_moves(moves, i, p);
                self.push_bishop_moves(moves, i, p);
                proof {
                    vstd::seq_lib::lemma_concat_associative(
                        old(moves)@,
                        rook_moves(self@, i as int, p),
                        bishop_moves(self@, i as int, p),
                    );
                }
            },
            PieceType::King => {
                self.push_king_moves(moves, i, p);
            },
        }
        proof {
            assert(moves@ == old(moves)@ + moves_from_cell(self@, i as int));
        }
    }

    /// All pseudo-legal moves of the side to move, as
    /// [`pseudo_legal_moves`] says.
    fn pseudo_moves_vec(&self) -> (r: Vec<Move>)
        requires
            self@.pos.len() == 64,
        ensures
            r@ == pseudo_legal_moves(self@),
            forall|k: int| 0 <= k < r@.len() ==> move_ok(self@, r@[k]),
    {
        let mut moves: Vec<Move> = Vec::new();
        let mut i: usize = 0;
        while i < 64
            invariant
                self@.pos.len() == 64,
                i <= 64,
                gen_from_cell(self@, 0) == moves@ + gen_from_cell(self@, i as int),
                forall|k: int| 0 <= k < moves@.len() ==> move_ok(self@, moves@[k]),
            decreases 64 - i,
        {
            self.push_moves_at(&mut moves, i);
            proof {
                lemma_moves_from_cell_ok(self@, i as int);
            }
            i = i + 1;
            proof {
                assert(gen_from_cell(self@, 0) =~= moves@ + gen_from_cell(self@, i as int));
            }
        }
        proof {
            assert(gen_from_cell(self@, 0) =~= moves@);
        }
        moves
    }

    /// The legal moves of this position, in generation order, as
    /// [`spec_legal_moves`] says: every returned move is structurally sound
    /// and leaves the mover's own king unattacked. Generation itself never
    /// fails; the result is empty exactly on checkmate and stalemate
    /// positions.
    pub fn get_legal_moves(&self) -> (r: Result<Vec<Move>, crate::errors::BoardStateError>)
        requires
            self.wf(),
        ensures
            r is Ok,
            r->Ok_0@ == spec_legal_moves(self@),
            forall|k: int|
                0 <= k < r->Ok_0@.len() ==> move_ok(self@, r->Ok_0@[k]) && keeps_king_safe(
                    self@,
                    r->Ok_0@[k],
                ),
    {
        proof {
            reveal(spec_legal_moves);
        }
        let pseudo = self.pseudo_moves_vec();
        let mut result: Vec<Move> = Vec::new();
        let mut i: usize = 0;
        while i < pseudo.len()
            invariant
                self.wf(),
                i <= pseudo@.len(),
                pseudo@ == pseudo_legal_moves(self@),
                forall|k: int| 0 <= k < pseudo@.len() ==> move_ok(self@, pseudo@[k]),
                result@ == filter_safe(self@, pseudo@.subrange(0, i as int)),
                forall|k: int|
                    0 <= k < result@.len() ==> move_ok(self@, result@[k]) && keeps_king_safe(
                        self@,
                        result@[k],
                    ),
            decreases pseudo@.len() - i,
        {
            let m = pseudo[i];
            let newpos = apply_move_pos_exec(&self.pos64, &m);
            if !in_check_exec(&newpos, self.side_to_move) {
                result.push(m);
            }
            i = i + 1;
            proof {
                let pre = pseudo@.subrange(0, i as int);
                assert(pre.drop_last() =~= pseudo@.subrange(0, i - 1));
                assert(pre.last() == m);
                assert(result@ =~= filter_safe(self@, pre));
            }
        }
        proof {
            reveal(spec_legal_moves);
            assert(pseudo@.subrange(0, i as int) =~= pseudo@);
        }
        Ok(result)
    }
}

/// True when any pawn, rook or queen stands on the board.
pub open spec fn major_or_pawn_from(pos: Seq<Square>, i: int) -> bool
    decreases 64 - i,
{
    if i < 0 || i >= 64 {
        false
    } else {
        (match pos[i] {
            Square::Piece(p) => p.ptype is Pawn || p.ptype is Rook || p.ptype is Queen,
            Square::Empty => false,
        }) || major_or_pawn_from(pos, i + 1)
    }
}

/// The number of pieces of `colour` and kind `t` from cell `i` onwards.
pub open spec fn colour_type_count(pos: Seq<Square>, c: PieceColour, t: PieceType, i: int) -> int
    decreases 64 - i,
{
    if i < 0 || i >= 64 {
        0
    } else {
        (if pos[i].spec_holds(c, t) {
            1int
        } else {
            0int
        }) + colour_type_count(pos, c, t, i + 1)
    }
}

/// True when the two sides have a single bishop each and the bishops stand
/// on cells of the same colour.
pub open spec fn same_colour_bishops(pos: Seq<Square>) -> bool {
    exists|i: int, j: int|
        0 <= i < 64 && 0 <= j < 64 && pos[i].spec_holds(PieceColour::White, PieceType::Bishop)
            && pos[j].spec_holds(PieceColour::Black, PieceType::Bishop) && (i / 8 + i % 8) % 2 == (
        j / 8 + j % 8) % 2
}

/// True when the position is dead by the standard piece-count table: no
/// pawns, rooks or queens remain, and either at most one minor piece is left
/// in all, or each side keeps exactly one bishop and the two bishops stand
/// on cells of the same colour.
pub open spec fn spec_insufficient_material(pos: Seq<Square>) -> bool {
    let wn = colour_type_count(pos, PieceColour::White, PieceType::Knight, 0);
    let wb = colour_type_count(pos, PieceColour::White, PieceType::Bishop, 0);
    let bn = colour_type_count(pos, PieceColour::Black, PieceType::Knight, 0);
    let bb = colour_type_count(pos, PieceColour::Black, PieceType::Bishop, 0);
    &&& !major_or_pawn_from(pos, 0)
    &&& {
        ||| wn + wb + bn + bb <= 1
        ||| (wn == 0 && bn == 0 && wb == 1 && bb == 1 && same_colour_bishops(pos))
    }
}

/// The count of a piece over the cells is never negative.
pub proof fn lemma_ctc_nonneg(pos: Seq<Square>, c: PieceColour, t: PieceType, i: int)
    ensures
        colour_type_count(pos, c, t, i) >= 0,
    decreases 64 - i,
{
    if 0 <= i < 64 {
        lemma_ctc_nonneg(pos, c, t, i + 1);
    }
}

/// One witness cell at or after `i` puts the count at one or more.
pub proof fn lemma_ctc_ge1(pos: Seq<Square>, c: PieceColour, t: PieceType, i: int, a: int)
    requires
        0 <= i <= a < 64,
        pos[a].spec_holds(c, t),
    ensures
        colour_type_count(pos, c, t, i) >= 1,
    decreases a - i,
{
    lemma_ctc_nonneg(pos, c, t, i + 1);
    if i < a {
        lemma_ctc_ge1(pos, c, t, i + 1, a);
    }
}

/// A positive count from `i` names a cell at or after `i` with the piece.
pub proof fn lemma_ctc_has_witness(pos: Seq<Square>, c: PieceColour, t: PieceType, i: int)
    requires
        pos.len() == 64,
        colour_type_count(pos, c, t, i) >= 1,
    ensures
        exists|y: int| i <= y < 64 && pos[y].spec_holds(c, t),
    decreases 64 - i,
{
    if 0 <= i < 64 {
        if pos[i].spec_holds(c, t) {
        } else {
            lemma_ctc_has_witness(pos, c, t, i + 1);
        }
    }
}

/// Two distinct witness cells at or after `i` put the count at two or more.
pub proof fn lemma_ctc_ge2(pos: Seq<Square>, c: PieceColour, t: PieceType, i: int, a: int, b: int)
    requires
        0 <= i <= a < b < 64,
        pos[a].spec_holds(c, t),
        pos[b].spec_holds(c, t),
    ensures
        colour_type_count(pos, c, t, i) >= 2,
    decreases a - i,
{
    if i < a {
        lemma_ctc_ge2(pos, c, t, i + 1, a, b);
    } else {
        lemma_ctc_ge1(pos, c, t, i + 1, b);
    }
}

/// The rule-based classification of a position: checkmate or stalemate when
/// no legal move exists (check deciding which), else the draw rules
/// (fifty-move on a halfmove clock of 100 or more, then insufficient
/// material), else check or normal play. Repetition needs the game's history
/// and is classified by [`crate::history::Board`].
pub open spec fn spec_gamestate(v: BoardStateV) -> crate::gamestate::GameState {
    let check = spec_in_check(v.pos, v.side_to_move);
    if spec_legal_moves(v).len() == 0 {
        if check {
            crate::gamestate::GameState::Checkmate
        } else {
            crate::gamestate::GameState::Stalemate
        }
    } else if v.halfmove >= 100 {
        crate::gamestate::GameState::FiftyMove
    } else if spec_insufficient_material(v.pos) {
        crate::gamestate::GameState::InsufficientMaterial
    } else if check {
        crate::gamestate::GameState::Check
    } else {
        crate::gamestate::GameState::Normal
    }
}

impl BoardState {
    /// A copy of this position.
    pub fn clone_state(&self) -> (r: BoardState)
        ensures
            r@ == self@,
    {
        BoardState {
            pos64: clone_squares(&self.pos64),
            side_to_move: self.side_to_move,
            castle_wk: self.castle_wk,
            castle_wq: self.castle_wq,
            castle_bk: self.castle_bk,
            castle_bq: self.castle_bq,
            en_passant: self.en_passant,
            halfmove_clock: self.halfmove_clock,
            movecount: self.movecount,
            last_move: self.last_move,
            position_hash: self.position_hash,
            board_hash: self.board_hash,
        }
    }

    /// True when the side to move stands in check.
    pub fn is_in_check(&self) -> (r: bool)
        requires
            self@.pos.len() == 64,
        ensures
            r == spec_in_check(self@.pos, self@.side_to_move),
    {
        in_check_exec(&self.pos64, self.side_to_move)
    }

    /// True when the material left cannot force checkmate, as
    /// [`spec_insufficient_material`] says.
    pub fn insufficient_material(&self) -> (r: bool)
        requires
            self@.pos.len() == 64,
        ensures
            r == spec_insufficient_material(self@.pos),
    {
        let pos = &self.pos64;
        let mut any_major = false;
        let mut wn: u32 = 0;
        let mut wb: u32 = 0;
        let mut bn: u32 = 0;
        let mut bb: u32 = 0;
        let mut wb_at: usize = 64;
        let mut bb_at: usize = 64;
        let mut i: usize = 0;
        while i < 64
            invariant
                i <= 64,
                pos@ == self@.pos,
                pos@.len() == 64,
                wn <= i && wb <= i && bn <= i && bb <= i,
                major_or_pawn_from(pos@, 0) == (any_major || major_or_pawn_from(pos@, i as int)),
                colour_type_count(pos@, PieceColour::White, PieceType::Knight, 0) == wn
                    + colour_type_count(pos@, PieceColour::White, PieceType::Knight, i as int),
                colour_type_count(pos@, PieceColour::White, PieceType::Bishop, 0) == wb
                    + colour_type_count(pos@, PieceColour::White, PieceType::Bishop, i as int),
                colour_type_count(pos@, PieceColour::Black, PieceType::Knight, 0) == bn
                    + colour_type_count(pos@, PieceColour::Black, PieceType::Knight, i as int),
                colour_type_count(pos@, PieceColour::Black, PieceType::Bishop, 0) == bb
                    + colour_type_count(pos@, PieceColour::Black, PieceType::Bishop, i as int),
                wb_at <= 64 && bb_at <= 64,
                wb_at < 64 ==> wb_at < i && pos@[wb_at as int].spec_holds(
                    PieceColour::White,
                    PieceType::Bishop,
                ),
                bb_at < 64 ==> bb_at < i && pos@[bb_at as int].spec_holds(
                    PieceColour::Black,
                    PieceType::Bishop,
                ),
                forall|m: int|
                    0 <= m < i && pos@[m].spec_holds(PieceColour::White, PieceType::Bishop)
                        ==> wb_at < 64 && m <= wb_at,
                forall|m: int|
                    0 <= m < i && pos@[m].spec_holds(PieceColour::Black, PieceType::Bishop)
                        ==> bb_at < 64 && m <= bb_at,
            decreases 64 - i,
        {
            match pos[i] {
                Square::Piece(p) => {
                    match p.ptype {
                        PieceType::Pawn | PieceType::Rook | PieceType::Queen => {
                            any_major = true;
                        },
                        PieceType::Knight => {
                            match p.pcolour {
                                PieceColour::White => {
                                    wn = wn + 1;
                                },
                                PieceColour::Black => {
                                    bn = bn + 1;
                                },
                            }
                        },
                        PieceType::Bishop => {
                            match p.pcolour {
                                PieceColour::White => {
                                    wb = wb + 1;
                                    wb_at = i;
                                },
                                PieceColour::Black => {
                                    bb = bb + 1;
                                    bb_at = i;
                                },
                            }
                        },
                        PieceType::King => {},
                    }
                },
                Square::Empty => {},
            }
            i = i + 1;
        }
        if any_major {
            return false;
        }
        if wn + wb + bn + bb <= 1 {
            return true;
        }
        if !(wn == 0 && bn == 0 && wb == 1 && bb == 1) {
            return false;
        }
        // exactly one bishop each: the recorded cells are the bishops
        proof {
            lemma_ctc_has_witness(self@.pos, PieceColour::White, PieceType::Bishop, 0);
            lemma_ctc_has_witness(self@.pos, PieceColour::Black, PieceType::Bishop, 0);
            assert(wb_at < 64 && bb_at < 64);
        }
        let same_parity = (wb_at / 8 + wb_at % 8) % 2 == (bb_at / 8 + bb_at % 8) % 2;
        proof {
            if same_parity {
                assert(same_colour_bishops(self@.pos));
            } else {
                if same_colour_bishops(self@.pos) {
                    let (x, y) = choose|x: int, y: int|
                        0 <= x < 64 && 0 <= y < 64 && self@.pos[x].spec_holds(
                            PieceColour::White,
                            PieceType::Bishop,
                        ) && self@.pos[y].spec_holds(PieceColour::Black, PieceType::Bishop) && (x
                            / 8 + x % 8) % 2 == (y / 8 + y % 8) % 2;
                    if x != wb_at {
                        lemma_ctc_ge2(
                            self@.pos,
                            PieceColour::White,
                            PieceType::Bishop,
                            0,
                            (if x < wb_at {
                                x
                            } else {
                                wb_at as int
                            }),
                            (if x < wb_at {
                                wb_at as int
                            } else {
                                x
                            }),
                        );
                    }
                    if y != bb_at {
                        lemma_ctc_ge2(
                            self@.pos,
                            PieceColour::Black,
                            PieceType::Bishop,
                            0,
                            (if y < bb_at {
                                y
                            } else {
                                bb_at as int
                            }),
                            (if y < bb_at {
                                bb_at as int
                            } else {
                                y
                            }),
                        );
                    }
                    assert(false);
                }
            }
        }
        same_parity
    }

    /// Classifies the position given its legal moves, as [`spec_gamestate`]
    /// says: checkmate and stalemate take precedence over the clock and
    /// material draws, which take precedence over check.
    pub fn classify(&self, legal_moves: &Vec<Move>) -> (r: crate::gamestate::GameState)
        requires
            self.wf(),
            legal_moves@ == spec_legal_moves(self@),
        ensures
            r == spec_gamestate(self@),
    {
        let check = self.is_in_check();
        if legal_moves.len() == 0 {
            if check {
                crate::gamestate::GameState::Checkmate
            } else {
                crate::gamestate::GameState::Stalemate
            }
        } else if self.halfmove_clock >= 100 {
            crate::gamestate::GameState::FiftyMove
        } else if self.insufficient_material() {
            crate::gamestate::GameState::InsufficientMaterial
        } else if check {
            crate::gamestate::GameState::Check
        } else {
            crate::gamestate::GameState::Normal
        }
    }

    /// Classifies the position, as [`spec_gamestate`] says, generating the
    /// legal moves itself.
    pub fn get_gamestate(&self) -> (r: crate::gamestate::GameState)
        requires
            self.wf(),
        ensures
            r == spec_gamestate(self@),
    {
        let legal = match self.get_legal_moves() {
            Ok(moves) => moves,
            Err(_) => Vec::new(),
        };
        self.classify(&legal)
    }

    /// The position after playing `mv` here: fails with the null-move error
    /// on the reserved null move and with the illegal-move error on any move
    /// not in the legal set; otherwise returns the next position, as
    /// [`spec_apply_move`] says. This position itself is never changed.
    pub fn next_state(&self, mv: &Move) -> (r: Result<BoardState, crate::errors::BoardStateError>)
        requires
            self.wf(),
        ensures
            r is Ok <==> (!mv.spec_is_null() && spec_legal_moves(self@).contains(*mv)),
            r is Ok ==> r->Ok_0@ == spec_apply_move(self@, *mv) && r->Ok_0.wf(),
            r is Err ==> (if mv.spec_is_null() {
                r->Err_0 is NullMove
            } else {
                r->Err_0 is IllegalMove
            }),
    {
        if mv.is_null() {
            return Err(
                crate::errors::BoardStateError::NullMove(
                    String::from_str("the reserved null move cannot be played"),
                ),
            );
        }
        let legal = match self.get_legal_moves() {
            Ok(moves) => moves,
            Err(e) => {
                return Err(e);
            },
        };
        let mut found = false;
        let mut i: usize = 0;
        while i < legal.len()
            invariant
                i <= legal@.len(),
                legal@ == spec_legal_moves(self@),
                found <==> exists|j: int| 0 <= j < i && legal@[j] == *mv,
                forall|k: int|
                    0 <= k < legal@.len() ==> move_ok(self@, legal@[k]) && keeps_king_safe(
                        self@,
                        legal@[k],
                    ),
            decreases legal@.len() - i,
        {
            if legal[i] == *mv {
                found = true;
            }
            i = i + 1;
        }
        if !found {
            proof {
                assert(!spec_legal_moves(self@).contains(*mv));
            }
            return Err(
                crate::errors::BoardStateError::IllegalMove(
                    String::from_str("move is not legal in this position"),
                ),
            );
        }
        proof {
            assert(spec_legal_moves(self@).contains(*mv));
            let j = choose|j: int| 0 <= j < legal@.len() && legal@[j] == *mv;
            assert(move_ok(self@, legal@[j]));
        }
        let newpos = apply_move_pos_exec(&self.pos64, mv);
        let side = self.side_to_move.opposite();
        let wk = self.castle_wk && mv.from != 60 && mv.from != 63 && mv.to != 63;
        let wq = self.castle_wq && mv.from != 60 && mv.from != 56 && mv.to != 56;
        let bk = self.castle_bk && mv.from != 4 && mv.from != 7 && mv.to != 7;
        let bq = self.castle_bq && mv.from != 4 && mv.from != 0 && mv.to != 0;
        let ep: Option<usize> = match mv.move_type {
            MoveType::DoublePawnPush => Some((mv.from + mv.to) / 2),
            _ => None,
        };
        let is_pawn = match mv.piece.ptype {
            PieceType::Pawn => true,
            _ => false,
        };
        let halfmove: u32 = if is_pawn || mv.move_type.is_capture() {
            0
        } else if self.halfmove_clock < u32::MAX {
            self.halfmove_clock + 1
        } else {
            self.halfmove_clock
        };
        let movecount: u32 = match self.side_to_move {
            PieceColour::Black => if self.movecount < u32::MAX {
                self.movecount + 1
            } else {
                self.movecount
            },
            PieceColour::White => self.movecount,
        };
        let position_hash = position_hash_exec(&newpos, side, wk, wq, bk, bq, ep);
        let mcode: u64 = 1 + (mv.from as u64) * 64 + (mv.to as u64);
        let board_hash = mix(mix(mix(self.board_hash, position_hash), mcode), movecount as u64);
        let next = BoardState {
            pos64: newpos,
            side_to_move: side,
            castle_wk: wk,
            castle_wq: wq,
            castle_bk: bk,
            castle_bq: bq,
            en_passant: ep,
            halfmove_clock: halfmove,
            movecount: movecount,
            last_move: Some(*mv),
            position_hash: position_hash,
            board_hash: board_hash,
        };
        proof {
            reveal(spec_apply_move);
            assert(next@.pos == apply_move_pos(self@.pos, *mv));
            assert(next@ == spec_apply_move(self@, *mv));
        }
        Ok(next)
    }
}

/// Every member of the safety filter's output satisfies the safety test.
pub proof fn lemma_filter_safe_members(v: BoardStateV, s: Seq<Move>, m: Move)
    requires
        filter_safe(v, s).contains(m),
    ensures
        keeps_king_safe(v, m),
        s.contains(m),
    decreases s.len(),
{
    if s.len() > 0 {
        if keeps_king_safe(v, s.last()) && m == s.last() {
            assert(s[s.len() - 1] == m);
        } else {
            assert(filter_safe(v, s.drop_last()).contains(m));
            lemma_filter_safe_members(v, s.drop_last(), m);
            let j = choose|j: int| 0 <= j < s.drop_last().len() && s.drop_last()[j] == m;
            assert(s[j] == m);
        }
    }
}

/// For every position and every move of its legal set: playing the move
/// never leaves the moving side's own king attacked.
pub proof fn lemma_legal_moves_king_safe(v: BoardStateV, m: Move)
    requires
        spec_legal_moves(v).contains(m),
    ensures
        !spec_in_check(apply_move_pos(v.pos, m), v.side_to_move),
{
    reveal(spec_legal_moves);
    lemma_filter_safe_members(v, pseudo_legal_moves(v), m);
}

/// Every member of the candidate generator's output is a structurally sound
/// move.
pub proof fn lemma_gen_from_cell_ok(v: BoardStateV, i: int, m: Move)
    requires
        v.pos.len() == 64,
        gen_from_cell(v, i).contains(m),
    ensures
        move_ok(v, m),
    decreases 64 - i,
{
    if 0 <= i < 64 {
        let here = moves_from_cell(v, i);
        let rest = gen_from_cell(v, i + 1);
        let j = choose|j: int| 0 <= j < gen_from_cell(v, i).len() && gen_from_cell(v, i)[j] == m;
        if j < here.len() {
            lemma_moves_from_cell_ok(v, i);
            assert(here[j] == m);
        } else {
            assert(rest[j - here.len()] == m);
            lemma_gen_from_cell_ok(v, i + 1, m);
        }
    }
}

/// Every legal move is a structurally sound move of its position.
pub proof fn lemma_legal_move_ok(v: BoardStateV, m: Move)
    requires
        v.pos.len() == 64,
        spec_legal_moves(v).contains(m),
    ensures
        move_ok(v, m),
{
    reveal(spec_legal_moves);
    lemma_filter_safe_members(v, pseudo_legal_moves(v), m);
    lemma_gen_from_cell_ok(v, 0, m);
}

/// The number of cells holding kind `t` in a back-rank row, from `i` on.
pub open spec fn count_pt(row: Seq<PieceType>, t: PieceType, i: int) -> int
    decreases 8 - i,
{
    if i < 0 || i >= 8 {
        0
    } else {
        (if row[i] == t {
            1int
        } else {
            0int
        }) + count_pt(row, t, i + 1)
    }
}

/// A valid Chess960 back rank: two rooks, two knights, two bishops, one
/// queen and one king, with the bishops on opposite cell colours and the
/// king between the rooks.
pub open spec fn valid_960_row(row: Seq<PieceType>) -> bool {
    &&& row.len() == 8
    &&& count_pt(row, PieceType::Rook, 0) == 2
    &&& count_pt(row, PieceType::Knight, 0) == 2
    &&& count_pt(row, PieceType::Bishop, 0) == 2
    &&& count_pt(row, PieceType::Queen, 0) == 1
    &&& count_pt(row, PieceType::King, 0) == 1
    &&& count_pt(row, PieceType::Pawn, 0) == 0
    &&& (exists|i: int, j: int|
        0 <= i < j < 8 && row[i] is Bishop && row[j] is Bishop && (i + j) % 2 == 1)
    &&& (exists|a: int, k: int, b: int|
        0 <= a < k < 8 && k < b < 8 && row[a] is Rook && row[k] is King && row[b] is Rook)
}

/// The count of `t` from cell `i` onwards is never negative.
pub proof fn lemma_count_nonneg(row: Seq<PieceType>, t: PieceType, i: int)
    ensures
        count_pt(row, t, i) >= 0,
    decreases 8 - i,
{
    if 0 <= i < 8 {
        lemma_count_nonneg(row, t, i + 1);
    }
}

/// One witness cell at or after `i` puts the count at one or more.
pub proof fn lemma_count_ge1(row: Seq<PieceType>, t: PieceType, i: int, a: int)
    requires
        0 <= i <= a < 8,
        row[a] == t,
    ensures
        count_pt(row, t, i) >= 1,
    decreases a - i,
{
    lemma_count_nonneg(row, t, i + 1);
    if i < a {
        lemma_count_ge1(row, t, i + 1, a);
    }
}

/// Two distinct witness cells at or after `i` put the count at two or more.
pub proof fn lemma_count_ge2(row: Seq<PieceType>, t: PieceType, i: int, a: int, b: int)
    requires
        0 <= i <= a < b < 8,
        row[a] == t,
        row[b] == t,
    ensures
        count_pt(row, t, i) >= 2,
    decreases a - i,
{
    if i < a {
        lemma_count_ge2(row, t, i + 1, a, b);
    } else {
        lemma_count_ge1(row, t, i + 1, b);
    }
}

/// Three distinct witness cells put the count at three or more.
pub proof fn lemma_count_ge3(row: Seq<PieceType>, t: PieceType, a: int, b: int, c: int)
    requires
        0 <= a < b < c < 8,
        row[a] == t,
        row[b] == t,
        row[c] == t,
    ensures
        count_pt(row, t, 0) >= 3,
{
    lemma_count_ge3_from(row, t, 0, a, b, c);
}

/// Three distinct witness cells at or after `i` put the count at three or
/// more.
pub proof fn lemma_count_ge3_from(row: Seq<PieceType>, t: PieceType, i: int, a: int, b: int, c: int)
    requires
        0 <= i <= a < b < c < 8,
        row[a] == t,
        row[b] == t,
        row[c] == t,
    ensures
        count_pt(row, t, i) >= 3,
    decreases a - i,
{
    if i < a {
        lemma_count_ge3_from(row, t, i + 1, a, b, c);
    } else {
        lemma_count_ge2(row, t, i + 1, b, c);
    }
}

/// True exactly when the row is a valid Chess960 back rank.
fn check_960_row(row: &Vec<PieceType>) -> (r: bool)
    requires
        row@.len() == 8,
    ensures
        r == valid_960_row(row@),
{
    let mut rooks: u32 = 0;
    let mut knights: u32 = 0;
    let mut bishops: u32 = 0;
    let mut queens: u32 = 0;
    let mut kings: u32 = 0;
    let mut pawns: u32 = 0;
    let mut first_bishop: usize = 8;
    let mut last_bishop: usize = 8;
    let mut first_rook: usize = 8;
    let mut last_rook: usize = 8;
    let mut king_at: usize = 8;
    let mut i: usize = 0;
    while i < 8
        invariant
            i <= 8,
            row@.len() == 8,
            rooks + count_pt(row@, PieceType::Rook, i as int) == count_pt(
                row@,
                PieceType::Rook,
                0,
            ),
            knights + count_pt(row@, PieceType::Knight, i as int) == count_pt(
                row@,
                PieceType::Knight,
                0,
            ),
            bishops + count_pt(row@, PieceType::Bishop, i as int) == count_pt(
                row@,
                PieceType::Bishop,
                0,
            ),
            queens + count_pt(row@, PieceType::Queen, i as int) == count_pt(
                row@,
                PieceType::Queen,
                0,
            ),
            kings + count_pt(row@, PieceType::King, i as int) == count_pt(
                row@,
                PieceType::King,
                0,
            ),
            pawns + count_pt(row@, PieceType::Pawn, i as int) == count_pt(
                row@,
                PieceType::Pawn,
                0,
            ),
            rooks <= i && knights <= i && bishops <= i && queens <= i && kings <= i && pawns <= i,
            first_bishop <= 8 && last_bishop <= 8 && first_rook <= 8 && last_rook <= 8 && king_at
                <= 8,
            first_bishop < 8 <==> last_bishop < 8,
            first_rook < 8 <==> last_rook < 8,
            first_bishop < 8 ==> first_bishop < i && row@[first_bishop as int] is Bishop,
            last_bishop < 8 ==> last_bishop < i && row@[last_bishop as int] is Bishop,
            first_rook < 8 ==> first_rook < i && row@[first_rook as int] is Rook,
            last_rook < 8 ==> last_rook < i && row@[last_rook as int] is Rook,
            king_at < 8 ==> king_at < i && row@[king_at as int] is King,
            // firstness and lastness of the recorded cells
            forall|m: int| 0 <= m < i && row@[m] is Bishop ==> first_bishop < 8 && first_bishop
                <= m <= last_bishop,
            forall|m: int| 0 <= m < i && row@[m] is Rook ==> first_rook < 8 && first_rook <= m
                <= last_rook,
            forall|m: int| 0 <= m < i && row@[m] is King ==> king_at < 8,
        decreases 8 - i,
    {
        match row[i] {
            PieceType::Rook => {
                rooks = rooks + 1;
                if first_rook == 8 {
                    first_rook = i;
                }
                last_rook = i;
            },
            PieceType::Knight => {
                knights = knights + 1;
            },
            PieceType::Bishop => {
                bishops = bishops + 1;
                if first_bishop == 8 {
                    first_bishop = i;
                }
                last_bishop = i;
            },
            PieceType::Queen => {
                queens = queens + 1;
            },
            PieceType::King => {
                kings = kings + 1;
                king_at = i;
            },
            PieceType::Pawn => {
                pawns = pawns + 1;
            },
        }
        i = i + 1;
    }
    if !(rooks == 2 && knights == 2 && bishops == 2 && queens == 1 && kings == 1 && pawns == 0) {
        return false;
    }
    // exactly two bishops and two rooks: the recorded first and last cells
    // are distinct and are the only ones
    proof {
        if first_bishop == 8 || first_bishop == last_bishop {
            assert(!(exists|x: int, y: int|
                0 <= x < y < 8 && row@[x] == PieceType::Bishop && row@[y] == PieceType::Bishop));
            lemma_count_le1(row@, PieceType::Bishop, 0);
        }
        if first_rook == 8 || first_rook == last_rook {
            assert(!(exists|x: int, y: int|
                0 <= x < y < 8 && row@[x] == PieceType::Rook && row@[y] == PieceType::Rook));
            lemma_count_le1(row@, PieceType::Rook, 0);
        }
        lemma_count_has_witness(row@, PieceType::King, 0);
        assert(king_at < 8);
        assert(first_bishop < last_bishop < 8);
        assert(first_rook < last_rook < 8);
    }
    let parity_ok = (first_bishop + last_bishop) % 2 == 1;
    let order_ok = first_rook < king_at && king_at < last_rook;
    proof {
        // soundness of the two structural tests
        if parity_ok {
            assert(row@[first_bishop as int] is Bishop && row@[last_bishop as int] is Bishop
                && first_bishop < last_bishop && (first_bishop + last_bishop) % 2 == 1);
        }
        if order_ok {
            assert(row@[first_rook as int] is Rook && row@[king_at as int] is King
                && row@[last_rook as int] is Rook);
        }
        // completeness: any witnesses must be the recorded cells
        if !parity_ok {
            if exists|a: int, b: int|
                0 <= a < b < 8 && row@[a] is Bishop && row@[b] is Bishop && (a + b) % 2 == 1 {
                let (a, b) = choose|a: int, b: int|
                    0 <= a < b < 8 && row@[a] is Bishop && row@[b] is Bishop && (a + b) % 2 == 1;
                lemma_only_two(row@, PieceType::Bishop, first_bishop as int, last_bishop as int, a);
                lemma_only_two(row@, PieceType::Bishop, first_bishop as int, last_bishop as int, b);
                assert(false);
            }
        }
        if !order_ok {
            if exists|a: int, k: int, b: int|
                0 <= a < k < 8 && k < b < 8 && row@[a] is Rook && row@[k] is King
                    && row@[b] is Rook {
                let (a, k, b) = choose|a: int, k: int, b: int|
                    0 <= a < k < 8 && k < b < 8 && row@[a] is Rook && row@[k] is King
                        && row@[b] is Rook;
                lemma_only_two(row@, PieceType::Rook, first_rook as int, last_rook as int, a);
                lemma_only_two(row@, PieceType::Rook, first_rook as int, last_rook as int, b);
                lemma_count_ge2(row@, PieceType::King, 0, (if k < king_at {
                    k
                } else {
                    king_at as int
                }), (if k < king_at {
                    king_at as int
                } else {
                    k
                }));
                assert(false);
            }
        }
    }
    parity_ok && order_ok
}

/// Without two distinct cells holding `t`, the count from `i` is at most
/// one.
proof fn lemma_count_le1(row: Seq<PieceType>, t: PieceType, i: int)
    requires
        row.len() == 8,
        !(exists|x: int, y: int| 0 <= x < y < 8 && row[x] == t && row[y] == t),
    ensures
        count_pt(row, t, i) <= 1,
    decreases 8 - i,
{
    if 0 <= i < 8 {
        lemma_count_le1(row, t, i + 1);
        if row[i] == t && count_pt(row, t, i + 1) >= 1 {
            lemma_count_has_witness(row, t, i + 1);
            let y = choose|y: int| i + 1 <= y < 8 && row[y] == t;
            assert(row[i] == t && row[y] == t && i < y);
        }
    } else {
        assert(count_pt(row, t, i) == 0);
    }
}

/// A positive count from `i` names a cell at or after `i` holding `t`.
proof fn lemma_count_has_witness(row: Seq<PieceType>, t: PieceType, i: int)
    requires
        row.len() == 8,
        count_pt(row, t, i) >= 1,
    ensures
        exists|y: int| i <= y < 8 && row[y] == t,
    decreases 8 - i,
{
    if 0 <= i < 8 {
        if row[i] == t {
        } else {
            lemma_count_has_witness(row, t, i + 1);
        }
    }
}

/// With a count of two and recorded first and last cells, any cell holding
/// `t` is one of the two.
proof fn lemma_only_two(row: Seq<PieceType>, t: PieceType, fst: int, lst: int, m: int)
    requires
        row.len() == 8,
        count_pt(row, t, 0) == 2,
        0 <= fst < lst < 8,
        row[fst] == t,
        row[lst] == t,
        forall|p: int| 0 <= p < 8 && row[p] == t ==> fst <= p <= lst,
        0 <= m < 8,
        row[m] == t,
    ensures
        m == fst || m == lst,
{
    if m != fst && m != lst {
        assert(fst < m < lst);
        lemma_count_ge3(row, t, fst, m, lst);
    }
}

/// The row after `t` is put on the `k`-th cell, counted from `i`, that still
/// holds the placeholder; the row itself when fewer free cells remain.
pub open spec fn set_nth_free_spec(row: Seq<PieceType>, k: int, t: PieceType, i: int) -> Seq<
    PieceType,
>
    decreases 8 - i,
{
    if i < 0 || i >= 8 {
        row
    } else if row[i] is Pawn {
        if k == 0 {
            row.update(i, t)
        } else {
            set_nth_free_spec(row, k - 1, t, i + 1)
        }
    } else {
        set_nth_free_spec(row, k, t, i + 1)
    }
}

/// Puts `t` on the `k`-th cell of the row that still holds the placeholder,
/// as [`set_nth_free_spec`] says.
fn set_nth_free(row: &mut Vec<PieceType>, k: usize, t: PieceType)
    requires
        old(row)@.len() == 8,
    ensures
        final(row)@ == set_nth_free_spec(old(row)@, k as int, t, 0),
        final(row)@.len() == 8,
{
    let ghost r0 = row@;
    let mut seen: usize = 0;
    let mut i: usize = 0;
    while i < 8
        invariant
            i <= 8,
            seen <= i,
            seen <= k,
            r0 == old(row)@,
            r0.len() == 8,
            row@ == r0,
            set_nth_free_spec(r0, k as int, t, 0) == set_nth_free_spec(
                r0,
                k - seen,
                t,
                i as int,
            ),
        decreases 8 - i,
    {
        let is_free = match row[i] {
            PieceType::Pawn => true,
            _ => false,
        };
        if is_free {
            if seen == k {
                row[i] = t;
                proof {
                    assert(row@ =~= set_nth_free_spec(r0, k as int, t, 0));
                }
                return ;
            }
            seen = seen + 1;
        }
        i = i + 1;
    }
    proof {
        assert(set_nth_free_spec(r0, k - seen, t, 8) == r0);
    }
}

/// The standard back rank, for the fallback and the castling-rights test.
fn standard_back_rank() -> (r: Vec<PieceType>)
    ensures
        r@ =~= standard_types(),
{
    let mut row: Vec<PieceType> = Vec::new();
    row.push(PieceType::Rook);
    row.push(PieceType::Knight);
    row.push(PieceType::Bishop);
    row.push(PieceType::Queen);
    row.push(PieceType::King);
    row.push(PieceType::Bishop);
    row.push(PieceType::Knight);
    row.push(PieceType::Rook);
    row
}

/// The standard back rank as piece kinds.
pub open spec fn standard_types() -> Seq<PieceType> {
    Seq::new(8, |c: int| start_back_type(c))
}

/// The column pair, among the cells left after bishops and queen, that
/// arrangement code `m` gives the knights.
pub open spec fn knight_pair(m: int) -> (int, int) {
    if m == 0 {
        (0, 1)
    } else if m == 1 {
        (0, 2)
    } else if m == 2 {
        (0, 3)
    } else if m == 3 {
        (0, 4)
    } else if m == 4 {
        (1, 2)
    } else if m == 5 {
        (1, 3)
    } else if m == 6 {
        (1, 4)
    } else if m == 7 {
        (2, 3)
    } else if m == 8 {
        (2, 4)
    } else {
        (3, 4)
    }
}

/// The Chess960 back rank of arrangement number `id` (0 to 959): a bishop on
/// a light and a dark cell, the queen and the knights on the remaining cells
/// picked by the digits of `id`, and rook, king, rook on the last three.
pub open spec fn spec_back_rank_960(id: int) -> Seq<PieceType> {
    let base = Seq::new(8, |c: int| PieceType::Pawn);
    let r1 = base.update(2 * (id % 4) + 1, PieceType::Bishop);
    let r2 = r1.update(2 * ((id / 4) % 4), PieceType::Bishop);
    let r3 = set_nth_free_spec(r2, (id / 16) % 6, PieceType::Queen, 0);
    let pair = knight_pair(id / 96);
    let r4 = set_nth_free_spec(r3, pair.1, PieceType::Knight, 0);
    let r5 = set_nth_free_spec(r4, pair.0, PieceType::Knight, 0);
    let r6 = set_nth_free_spec(r5, 0, PieceType::Rook, 0);
    let r7 = set_nth_free_spec(r6, 0, PieceType::King, 0);
    set_nth_free_spec(r7, 0, PieceType::Rook, 0)
}

/// The back rank a game generated from arrangement number `n` starts with:
/// the derived arrangement, or the standard one if the derived row is not a
/// valid Chess960 back rank.
pub open spec fn spec_960_back(n: int) -> Seq<PieceType> {
    let derived = spec_back_rank_960(n % 960);
    if valid_960_row(derived) {
        derived
    } else {
        standard_types()
    }
}

/// The contents the cell `i` gets when the game starts from back rank
/// `back`.
pub open spec fn back_rank_square(back: Seq<PieceType>, i: int) -> Square {
    let r = i / 8;
    let c = i % 8;
    if r == 1 {
        Square::Piece(Piece { pcolour: PieceColour::Black, ptype: PieceType::Pawn })
    } else if r == 6 {
        Square::Piece(Piece { pcolour: PieceColour::White, ptype: PieceType::Pawn })
    } else if r == 0 {
        Square::Piece(Piece { pcolour: PieceColour::Black, ptype: back[c] })
    } else if r == 7 {
        Square::Piece(Piece { pcolour: PieceColour::White, ptype: back[c] })
    } else {
        Square::Empty
    }
}

impl BoardState {
    /// A Chess960 starting position derived from arrangement number `n`
    /// (taken modulo 960): both back ranks hold the arrangement
    /// [`spec_960_back`] gives for `n` — the derived arrangement, falling
    /// back to the standard one if the derivation were ever invalid.
    /// Castling rights are held only for the standard arrangement; castling
    /// from other arrangements is not generated.
    pub fn new_chess960(n: u32) -> (r: BoardState)
        ensures
            r.wf(),
            r@.side_to_move is White,
            r@.en_passant is None,
            r@.halfmove == 0,
            r@.movecount == 1,
            r@.last_move is None,
            forall|i: int|
                #![auto]
                0 <= i < 64 ==> r@.pos[i] == back_rank_square(spec_960_back(n as int), i),
            r@.castle_wk == (spec_960_back(n as int) == standard_types()),
            r@.castle_wq == r@.castle_wk && r@.castle_bk == r@.castle_wk && r@.castle_bq
                == r@.castle_wk,
    {
        let id = n % 960;
        let mut row: Vec<PieceType> = Vec::new();
        let mut f: usize = 0;
        while f < 8
            invariant
                row@.len() == f,
                f <= 8,
                forall|j: int| 0 <= j < f ==> row@[j] is Pawn,
            decreases 8 - f,
        {
            row.push(PieceType::Pawn);
            f = f + 1;
        }
        proof {
            assert(row@ =~= Seq::new(8, |c: int| PieceType::Pawn));
        }
        // light-cell bishop, dark-cell bishop
        let b1 = (id % 4) as usize;
        let n1 = id / 4;
        proof {
            assert(id % 4 < 4) by (nonlinear_arith);
        }
        row[2 * b1 + 1] = PieceType::Bishop;
        let b2 = (n1 % 4) as usize;
        let n2 = n1 / 4;
        proof {
            assert(n1 % 4 < 4) by (nonlinear_arith);
        }
        row[2 * b2] = PieceType::Bishop;
        // queen on the q-th remaining cell
        let q = (n2 % 6) as usize;
        let n3 = n2 / 6;
        proof {
            assert(n2 % 6 < 6) by (nonlinear_arith);
        }
        set_nth_free(&mut row, q, PieceType::Queen);
        // knights on one of the ten pairs of remaining cells
        let pair: (usize, usize) = if n3 == 0 {
            (0, 1)
        } else if n3 == 1 {
            (0, 2)
        } else if n3 == 2 {
            (0, 3)
        } else if n3 == 3 {
            (0, 4)
        } else if n3 == 4 {
            (1, 2)
        } else if n3 == 5 {
            (1, 3)
        } else if n3 == 6 {
            (1, 4)
        } else if n3 == 7 {
            (2, 3)
        } else if n3 == 8 {
            (2, 4)
        } else {
            (3, 4)
        };
        proof {
            assert((pair.0 as int, pair.1 as int) == knight_pair(n3 as int)) by {
                assert(id / 96 < 10) by (nonlinear_arith)
                    requires
                        id < 960,
                ;
                assert(n3 == id / 16 / 6);
                assert(id / 16 / 6 == id / 96) by (nonlinear_arith);
            }
        }
        set_nth_free(&mut row, pair.1, PieceType::Knight);
        set_nth_free(&mut row, pair.0, PieceType::Knight);
        // the remaining three cells get rook, king, rook
        set_nth_free(&mut row, 0, PieceType::Rook);
        set_nth_free(&mut row, 0, PieceType::King);
        set_nth_free(&mut row, 0, PieceType::Rook);
        proof {
            assert(id / 4 / 4 == id / 16) by (nonlinear_arith);
            assert(row@ == spec_back_rank_960(id as int));
            assert(id == n as int % 960);
        }
        let valid = check_960_row(&row);
        let back = if valid {
            row
        } else {
            standard_back_rank()
        };
        proof {
            assert(back@ == spec_960_back(n as int));
        }
        // castling is supported for the standard arrangement only
        let standard = standard_back_rank();
        let mut is_standard = true;
        let mut c: usize = 0;
        while c < 8
            invariant
                c <= 8,
                back@.len() == 8,
                back@ == spec_960_back(n as int),
                standard@ == standard_types(),
                is_standard <==> (forall|j: int| 0 <= j < c ==> back@[j] == standard@[j]),
            decreases 8 - c,
        {
            if back[c] != standard[c] {
                is_standard = false;
            }
            c = c + 1;
        }
        proof {
            if is_standard {
                assert(back@ =~= standard_types());
            } else {
                assert(back@ != standard_types());
            }
        }
        let mut pos: Vec<Square> = Vec::new();
        let mut i: usize = 0;
        while i < 64
            invariant
                i <= 64,
                back@.len() == 8,
                pos@.len() == i,
                forall|j: int| #![auto] 0 <= j < i ==> pos@[j] == back_rank_square(back@, j),
            decreases 64 - i,
        {
            let r = i / 8;
            let col = i % 8;
            let sq: Square = if r == 1 {
                Square::Piece(Piece { pcolour: PieceColour::Black, ptype: PieceType::Pawn })
            } else if r == 6 {
                Square::Piece(Piece { pcolour: PieceColour::White, ptype: PieceType::Pawn })
            } else if r == 0 {
                Square::Piece(Piece { pcolour: PieceColour::Black, ptype: back[col] })
            } else if r == 7 {
                Square::Piece(Piece { pcolour: PieceColour::White, ptype: back[col] })
            } else {
                Square::Empty
            };
            pos.push(sq);
            i = i + 1;
        }
        Self::from_parts(
            pos,
            PieceColour::White,
            is_standard,
            is_standard,
            is_standard,
            is_standard,
            None,
            0,
            1,
        )
    }
}

} // verus!
