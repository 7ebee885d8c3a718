//! The SAN (standard algebraic notation) codec: a structured form of one
//! move's notation text, parsed from text or built from a move in the context
//! of a position, and rendered back to text.

use vstd::prelude::*;

use crate::errors::PGNParseError;
use crate::movegen::{CastleSide, Move, MoveType};
use crate::pieces::{PieceType};

verus! {

/// The structured parts of one SAN token: an optional piece letter, optional
/// disambiguating file and rank, a capture marker, the destination file and
/// rank, an optional promotion letter, check and checkmate markers, and, for
/// castling moves, the castle text in place of all of the above.
#[derive(Debug, Clone)]
pub struct Notation {
    pub piece: Option<char>,
    pub dis_file: Option<char>,
    pub dis_rank: Option<char>,
    pub capture: bool,
    pub to_file: char,
    pub to_rank: char,
    pub promotion: Option<char>,
    pub check: bool,
    pub checkmate: bool,
    pub castle_str: Option<String>,
}

/// The mathematical value of a [`Notation`]: the same parts, with the castle
/// text as a character sequence.
pub struct NotationV {
    pub piece: Option<char>,
    pub dis_file: Option<char>,
    pub dis_rank: Option<char>,
    pub capture: bool,
    pub to_file: char,
    pub to_rank: char,
    pub promotion: Option<char>,
    pub check: bool,
    pub checkmate: bool,
    pub castle: Option<Seq<char>>,
}

impl View for Notation {
    type V = NotationV;

    open spec fn view(&self) -> NotationV {
        NotationV {
            piece: self.piece,
            dis_file: self.dis_file,
            dis_rank: self.dis_rank,
            capture: self.capture,
            to_file: self.to_file,
            to_rank: self.to_rank,
            promotion: self.promotion,
            check: self.check,
            checkmate: self.checkmate,
            castle: match self.castle_str {
                Some(s) => Some(s@),
                None => None,
            },
        }
    }
}

/// True when `c` is a file letter 'a'..='h'.
pub open spec fn spec_is_valid_file(c: char) -> bool {
    97 <= c as u32 <= 104
}

/// True when `c` is a rank digit '1'..='8'.
pub open spec fn spec_is_valid_rank(c: char) -> bool {
    49 <= c as u32 <= 56
}

/// True when `c` is a piece letter.
pub open spec fn spec_is_valid_piece(c: char) -> bool {
    c == 'P' || c == 'N' || c == 'B' || c == 'R' || c == 'Q' || c == 'K'
}

/// True when `c` is a promotion piece letter.
pub open spec fn spec_is_valid_promotion(c: char) -> bool {
    c == 'Q' || c == 'R' || c == 'B' || c == 'N'
}

/// True when `c` is a file letter 'a'..='h'.
#[verifier::when_used_as_spec(spec_is_valid_file)]
pub fn is_valid_file(file: char) -> (r: bool)
    ensures
        r == spec_is_valid_file(file),
{
    let u = file as u32;
    97 <= u && u <= 104
}

/// True when `c` is a rank digit '1'..='8'.
#[verifier::when_used_as_spec(spec_is_valid_rank)]
pub fn is_valid_rank(rank: char) -> (r: bool)
    ensures
        r == spec_is_valid_rank(rank),
{
    let u = rank as u32;
    49 <= u && u <= 56
}

/// True when `c` is a piece letter.
#[verifier::when_used_as_spec(spec_is_valid_piece)]
pub fn is_valid_piece(piece: char) -> (r: bool)
    ensures
        r == spec_is_valid_piece(piece),
{
    piece == 'P' || piece == 'N' || piece == 'B' || piece == 'R' || piece == 'Q' || piece == 'K'
}

/// True when `c` is a promotion piece letter.
#[verifier::when_used_as_spec(spec_is_valid_promotion)]
pub fn is_valid_promotion(promotion: char) -> (r: bool)
    ensures
        r == spec_is_valid_promotion(promotion),
{
    promotion == 'Q' || promotion == 'R' || promotion == 'B' || promotion == 'N'
}

/// The piece letter of a piece kind; pawns have none.
pub open spec fn spec_ptype_to_piece_char(ptype: PieceType) -> Option<char> {
    match ptype {
        PieceType::Pawn => None,
        PieceType::Knight => Some('N'),
        PieceType::Bishop => Some('B'),
        PieceType::Rook => Some('R'),
        PieceType::Queen => Some('Q'),
        PieceType::King => Some('K'),
    }
}

/// The piece letter of a piece kind; pawns have none.
pub fn ptype_to_piece_char(ptype: &PieceType) -> (r: Option<char>)
    ensures
        r == spec_ptype_to_piece_char(*ptype),
{
    match ptype {
        PieceType::Pawn => None,
        PieceType::Knight => Some('N'),
        PieceType::Bishop => Some('B'),
        PieceType::Rook => Some('R'),
        PieceType::Queen => Some('Q'),
        PieceType::King => Some('K'),
    }
}

/// The sequence rendered for an optional single character.
pub open spec fn opt_chars(o: Option<char>) -> Seq<char> {
    match o {
        Some(c) => seq![c],
        None => Seq::empty(),
    }
}

/// The text rendered for a notation value: the castle text with its marker,
/// or piece letter, disambiguation, capture marker, destination, promotion
/// and marker in order.
pub open spec fn spec_render(n: NotationV) -> Seq<char> {
    let marker: Seq<char> = if n.checkmate {
        seq!['#']
    } else if n.check {
        seq!['+']
    } else {
        Seq::empty()
    };
    match n.castle {
        Some(cs) => cs + marker,
        None => opt_chars(n.piece) + opt_chars(n.dis_file) + opt_chars(n.dis_rank) + (if n.capture {
            seq!['x']
        } else {
            Seq::empty()
        }) + seq![n.to_file, n.to_rank] + (match n.promotion {
            Some(p) => seq!['=', p],
            None => Seq::empty(),
        }) + marker,
    }
}

/// The state carried through one scan of a non-castling SAN token: the parts
/// found so far, with the file and rank characters in one run.
pub struct ScanState {
    pub piece: Option<char>,
    pub rf: Seq<char>,
    pub capture: bool,
    pub promotion: Option<char>,
    pub check: bool,
    pub checkmate: bool,
}

/// The empty scan state.
pub open spec fn scan_init() -> ScanState {
    ScanState {
        piece: None,
        rf: Seq::empty(),
        capture: false,
        promotion: None,
        check: false,
        checkmate: false,
    }
}

/// Scans the characters of a non-castling SAN token from position `i`
/// onwards: an uppercase letter is the piece letter (at most one), `x` marks
/// a capture (at most once, and at least two characters must follow), lower
/// case letters and digits join the file-and-rank run, `=` must be followed
/// by a promotion piece letter (at most once), and `+` and `#` set the check
/// and checkmate markers (at most one of each). Any other character fails the
/// scan.
pub open spec fn scan_san(s: Seq<char>, i: int, st: ScanState) -> Option<ScanState>
    decreases s.len() - i,
{
    if i < 0 || i >= s.len() {
        Some(st)
    } else {
        let c = s[i];
        if 65 <= c as u32 <= 90 {
            if st.piece is None {
                scan_san(s, i + 1, ScanState { piece: Some(c), ..st })
            } else {
                None
            }
        } else if c == 'x' {
            if !st.capture && s.len() - i >= 3 {
                scan_san(s, i + 1, ScanState { capture: true, ..st })
            } else {
                None
            }
        } else if 97 <= c as u32 <= 122 || 48 <= c as u32 <= 57 {
            scan_san(s, i + 1, ScanState { rf: st.rf.push(c), ..st })
        } else if c == '=' {
            if st.promotion is None && i + 1 < s.len() && spec_is_valid_promotion(s[i + 1]) {
                scan_san(s, i + 2, ScanState { promotion: Some(s[i + 1]), ..st })
            } else {
                None
            }
        } else if c == '+' {
            if !st.check {
                scan_san(s, i + 1, ScanState { check: true, ..st })
            } else {
                None
            }
        } else if c == '#' {
            if !st.checkmate {
                scan_san(s, i + 1, ScanState { checkmate: true, ..st })
            } else {
                None
            }
        } else {
            None
        }
    }
}

/// Splits a run of 2 to 4 file-and-rank characters into disambiguating file,
/// disambiguating rank, destination file and destination rank, and checks
/// each for validity: 2 characters are the destination alone, 3 carry one
/// disambiguator (a lower case letter is a file, anything else a rank), 4
/// carry both.
pub open spec fn spec_rf_parse(s: Seq<char>) -> Option<(Option<char>, Option<char>, char, char)> {
    let parts: Option<(Option<char>, Option<char>, char, char)> = if s.len() == 2 {
        Some((None, None, s[0], s[1]))
    } else if s.len() == 3 {
        if 97 <= s[0] as u32 <= 122 {
            Some((Some(s[0]), None, s[1], s[2]))
        } else {
            Some((None, Some(s[0]), s[1], s[2]))
        }
    } else if s.len() == 4 {
        Some((Some(s[0]), Some(s[1]), s[2], s[3]))
    } else {
        None
    };
    match parts {
        None => None,
        Some((df, dr, tf, tr)) => {
            if spec_is_valid_file(tf) && spec_is_valid_rank(tr) && (match df {
                Some(c) => spec_is_valid_file(c),
                None => true,
            }) && (match dr {
                Some(c) => spec_is_valid_rank(c),
                None => true,
            }) {
                Some((df, dr, tf, tr))
            } else {
                None
            }
        },
    }
}

/// Builds the notation value of a completed scan: the piece letter must be a
/// valid piece letter, and the file-and-rank run must split as in
/// [`spec_rf_parse`].
pub open spec fn spec_assemble(st: ScanState) -> Option<NotationV> {
    if match st.piece {
        Some(c) => !spec_is_valid_piece(c),
        None => false,
    } {
        None
    } else {
        match spec_rf_parse(st.rf) {
            None => None,
            Some((df, dr, tf, tr)) => Some(
                NotationV {
                    piece: st.piece,
                    dis_file: df,
                    dis_rank: dr,
                    capture: st.capture,
                    to_file: tf,
                    to_rank: tr,
                    promotion: st.promotion,
                    check: st.check,
                    checkmate: st.checkmate,
                    castle: None,
                },
            ),
        }
    }
}

/// True when `s` is exactly the short castle text `O-O`.
pub open spec fn is_short_castle_text(s: Seq<char>) -> bool {
    s.len() == 3 && s[0] == 'O' && s[1] == '-' && s[2] == 'O'
}

/// True when `s` is exactly the long castle text `O-O-O`.
pub open spec fn is_long_castle_text(s: Seq<char>) -> bool {
    s.len() == 5 && s[0] == 'O' && s[1] == '-' && s[2] == 'O' && s[3] == '-' && s[4] == 'O'
}

/// Recognises a castling token: an optional single trailing check or
/// checkmate marker is split off, and the rest must be exactly `O-O` or
/// `O-O-O`.
pub open spec fn spec_castle_parse(s: Seq<char>) -> Option<(Seq<char>, bool, bool)> {
    let body: Seq<char> = if s.len() > 0 && (s.last() == '+' || s.last() == '#') {
        s.drop_last()
    } else {
        s
    };
    let check = s.len() > 0 && s.last() == '+';
    let checkmate = s.len() > 0 && s.last() == '#';
    if is_short_castle_text(body) || is_long_castle_text(body) {
        Some((body, check, checkmate))
    } else {
        None
    }
}

/// Parses one SAN token: the text must be ASCII and between 2 and 8
/// characters long; a castling token is recognised first, and any other token
/// is scanned by [`scan_san`] and assembled by [`spec_assemble`].
pub open spec fn spec_parse_san(s: Seq<char>) -> Option<NotationV> {
    if !vstd::utf8::is_ascii_chars(s) || s.len() < 2 || s.len() > 8 {
        None
    } else {
        match spec_castle_parse(s) {
            Some((cs, check, checkmate)) => Some(
                NotationV {
                    piece: None,
                    dis_file: None,
                    dis_rank: None,
                    capture: false,
                    to_file: ' ',
                    to_rank: ' ',
                    promotion: None,
                    check: check,
                    checkmate: checkmate,
                    castle: Some(cs),
                },
            ),
            None => match scan_san(s, 0, scan_init()) {
                Some(st) => spec_assemble(st),
                None => None,
            },
        }
    }
}

impl Notation {
    /// A new notation with nothing set: no piece letter, no disambiguation,
    /// no capture, blank destination, no promotion, no markers, not a castle.
    pub fn new() -> (r: Notation)
        ensures
            r.piece is None,
            r.dis_file is None,
            r.dis_rank is None,
            !r.capture,
            r.to_file == ' ',
            r.to_rank == ' ',
            r.promotion is None,
            !r.check,
            !r.checkmate,
            r.castle_str is None,
    {
        Notation {
            piece: None,
            dis_file: None,
            dis_rank: None,
            capture: false,
            to_file: ' ',
            to_rank: ' ',
            promotion: None,
            check: false,
            checkmate: false,
            castle_str: None,
        }
    }

    /// Sets the piece letter when one was scanned; fails on a letter that is
    /// not a piece letter. On failure the notation is unchanged.
    fn set_piece_char(&mut self, piece_char: Option<char>) -> (r: Result<(), PGNParseError>)
        ensures
            r is Ok <==> (match piece_char {
                Some(c) => spec_is_valid_piece(c),
                None => true,
            }),
            r is Ok ==> final(self)@ == (match piece_char {
                Some(c) => NotationV { piece: Some(c), ..old(self)@ },
                None => old(self)@,
            }),
            r is Err ==> final(self)@ == old(self)@ && r->Err_0 is NotationParseError,
    {
        if let Some(piece) = piece_char {
            if is_valid_piece(piece) {
                self.piece = Some(piece);
            } else {
                let err = PGNParseError::NotationParseError(
                    String::from_str("Invalid piece char"),
                );
                return Err(err);
            }
        }
        Ok(())
    }

    /// Sets the promotion letter when one was scanned; fails on a letter that
    /// is not a promotion piece letter. On failure the notation is unchanged.
    fn set_promotion_char(&mut self, promotion: Option<char>) -> (r: Result<(), PGNParseError>)
        ensures
            r is Ok <==> (match promotion {
                Some(c) => spec_is_valid_promotion(c),
                None => true,
            }),
            r is Ok ==> final(self)@ == (match promotion {
                Some(c) => NotationV { promotion: Some(c), ..old(self)@ },
                None => old(self)@,
            }),
            r is Err ==> final(self)@ == old(self)@ && r->Err_0 is NotationParseError,
    {
        if let Some(promotion) = promotion {
            if is_valid_promotion(promotion) {
                self.promotion = Some(promotion);
            } else {
                let err = PGNParseError::NotationParseError(
                    String::from_str("Invalid promotion piece char"),
                );
                return Err(err);
            }
        }
        Ok(())
    }

    /// Splits the file-and-rank run into disambiguation and destination as
    /// [`spec_rf_parse`] says, and fails on a run of the wrong length or with
    /// an invalid character. On failure the notation is unchanged.
    fn set_rank_file_chars(&mut self, rank_file_chars: &Vec<char>) -> (r: Result<
        (),
        PGNParseError,
    >)
        ensures
            r is Ok <==> spec_rf_parse(rank_file_chars@) is Some,
            r is Ok ==> final(self)@ == (match spec_rf_parse(rank_file_chars@) {
                Some((df, dr, tf, tr)) => NotationV {
                    dis_file: df,
                    dis_rank: dr,
                    to_file: tf,
                    to_rank: tr,
                    ..old(self)@
                },
                None => old(self)@,
            }),
            r is Err ==> final(self)@ == old(self)@ && r->Err_0 is NotationParseError,
    {
        let to_file: char;
        let to_rank: char;
        let mut dis_file: Option<char> = None;
        let mut dis_rank: Option<char> = None;
        if rank_file_chars.len() == 2 {
            to_file = rank_file_chars[0];
            to_rank = rank_file_chars[1];
        } else if rank_file_chars.len() == 3 {
            let c0 = rank_file_chars[0];
            let u = c0 as u32;
            if 97 <= u && u <= 122 {
                dis_file = Some(c0);
            } else {
                dis_rank = Some(c0);
            }
            to_file = rank_file_chars[1];
            to_rank = rank_file_chars[2];
        } else if rank_file_chars.len() == 4 {
            dis_file = Some(rank_file_chars[0]);
            dis_rank = Some(rank_file_chars[1]);
            to_file = rank_file_chars[2];
            to_rank = rank_file_chars[3];
        } else {
            let err = PGNParseError::NotationParseError(
                String::from_str("Invalid move notation char(s)"),
            );
            return Err(err);
        }
        let df_bad = match dis_file {
            Some(c) => !is_valid_file(c),
            None => false,
        };
        let dr_bad = match dis_rank {
            Some(c) => !is_valid_rank(c),
            None => false,
        };
        if !is_valid_file(to_file) || !is_valid_rank(to_rank) || df_bad || dr_bad {
            let err = PGNParseError::NotationParseError(
                String::from_str("Invalid rank or file char(s)"),
            );
            Err(err)
        } else {
            self.to_file = to_file;
            self.to_rank = to_rank;
            self.dis_file = dis_file;
            self.dis_rank = dis_rank;
            Ok(())
        }
    }

    /// Renders the notation as SAN text, as [`spec_render`] says.
    #[verifier::rlimit(100)]
    pub fn to_string(&self) -> (r: String)
        ensures
            r@ == spec_render(self@),
    {
        if let Some(cs) = &self.castle_str {
            let mut v = crate::text::str_to_chars(cs.as_str());
            if self.checkmate {
                v.push('#');
            } else if self.check {
                v.push('+');
            }
            proof {
                assert(v@ =~= spec_render(self@));
            }
            return crate::text::chars_to_string(&v);
        }
        let mut v: Vec<char> = Vec::new();
        if let Some(piece) = self.piece {
            v.push(piece);
        }
        if let Some(dis_file) = self.dis_file {
            v.push(dis_file);
        }
        if let Some(dis_rank) = self.dis_rank {
            v.push(dis_rank);
        }
        if self.capture {
            v.push('x');
        }
        v.push(self.to_file);
        v.push(self.to_rank);
        if let Some(promotion) = self.promotion {
            v.push('=');
            v.push(promotion);
        }
        if self.checkmate {
            v.push('#');
        } else if self.check {
            v.push('+');
        }
        proof {
            assert(v@ =~= spec_render(self@));
        }
        crate::text::chars_to_string(&v)
    }

    /// Parses one SAN token, as [`spec_parse_san`] says: the text must be
    /// ASCII and between 2 and 8 characters, either a castling token with at
    /// most one trailing marker, or a token of piece letter, disambiguation,
    /// capture marker, destination, promotion and markers.
    pub fn from_str(notation_str: &str) -> (r: Result<Notation, PGNParseError>)
        ensures
            r is Ok <==> spec_parse_san(notation_str@) is Some,
            r is Ok ==> r->Ok_0@ == spec_parse_san(notation_str@)->0,
            r is Err ==> r->Err_0 is NotationParseError,
    {
        if !notation_str.is_ascii() {
            let err = PGNParseError::NotationParseError(
                String::from_str("Invalid notation string: not valid ascii"),
            );
            return Err(err);
        }
        let chars = crate::text::str_to_chars(notation_str);
        let n = chars.len();
        if n < 2 || n > 8 {
            let err = PGNParseError::NotationParseError(
                String::from_str("Invalid notation length"),
            );
            return Err(err);
        }
        // Castling tokens: split off at most one trailing marker and compare.
        let last = chars[n - 1];
        let body_len: usize = if last == '+' || last == '#' {
            n - 1
        } else {
            n
        };
        let is_oo = body_len == 3 && chars[0] == 'O' && chars[1] == '-' && chars[2] == 'O';
        let is_ooo = body_len == 5 && chars[0] == 'O' && chars[1] == '-' && chars[2] == 'O'
            && chars[3] == '-' && chars[4] == 'O';
        proof {
            reveal_strlit("O-O");
            reveal_strlit("O-O-O");
            let s = notation_str@;
            let body: Seq<char> = if s.last() == '+' || s.last() == '#' {
                s.drop_last()
            } else {
                s
            };
            assert(body.len() == body_len);
            assert(is_oo <==> is_short_castle_text(body));
            assert(is_ooo <==> is_long_castle_text(body));
            if is_oo {
                assert(body =~= "O-O"@);
            }
            if is_ooo {
                assert(body =~= "O-O-O"@);
            }
        }
        if is_oo || is_ooo {
            let mut notation = Self::new();
            notation.castle_str = Some(
                if is_oo {
                    String::from_str("O-O")
                } else {
                    String::from_str("O-O-O")
                },
            );
            notation.check = last == '+';
            notation.checkmate = last == '#';
            return Ok(notation);
        }
        proof {
            assert(spec_castle_parse(notation_str@) is None);
        }
        // Scan the token character by character.
        let mut i: usize = 0;
        let mut piece_char: Option<char> = None;
        let mut rank_file_chars: Vec<char> = Vec::new();
        let mut capture = false;
        let mut promotion: Option<char> = None;
        let mut check = false;
        let mut checkmate = false;
        while i < n
            invariant
                n == chars@.len(),
                chars@ == notation_str@,
                i <= n,
                2 <= n <= 8,
                vstd::utf8::is_ascii_chars(notation_str@),
                spec_castle_parse(notation_str@) is None,
                scan_san(notation_str@, 0, scan_init()) == scan_san(
                    notation_str@,
                    i as int,
                    ScanState {
                        piece: piece_char,
                        rf: rank_file_chars@,
                        capture: capture,
                        promotion: promotion,
                        check: check,
                        checkmate: checkmate,
                    },
                ),
                (match promotion {
                    Some(p) => spec_is_valid_promotion(p),
                    None => true,
                }),
            decreases n - i,
        {
            let ghost st_here = ScanState {
                piece: piece_char,
                rf: rank_file_chars@,
                capture: capture,
                promotion: promotion,
                check: check,
                checkmate: checkmate,
            };
            let c = chars[i];
            let u = c as u32;
            if 65 <= u && u <= 90 {
                if piece_char.is_none() {
                    piece_char = Some(c);
                } else {
                    let err = PGNParseError::NotationParseError(
                        String::from_str("Invalid notation, multiple uppercase piece chars"),
                    );
                    proof {
                        assert(scan_san(notation_str@, i as int, st_here) is None);
                    }
                    return Err(err);
                }
            } else if c == 'x' {
                if !capture && n - i >= 3 {
                    capture = true;
                } else {
                    let err = PGNParseError::NotationParseError(
                        String::from_str("Invalid notation capture char"),
                    );
                    proof {
                        assert(scan_san(notation_str@, i as int, st_here) is None);
                    }
                    return Err(err);
                }
            } else if (97 <= u && u <= 122) || (48 <= u && u <= 57) {
                rank_file_chars.push(c);
            } else if c == '=' {
                if promotion.is_none() && i + 1 < n && is_valid_promotion(chars[i + 1]) {
                    promotion = Some(chars[i + 1]);
                    i = i + 2;
                    continue ;
                } else {
                    let err = PGNParseError::NotationParseError(
                        String::from_str("Invalid promotion"),
                    );
                    proof {
                        assert(scan_san(notation_str@, i as int, st_here) is None);
                    }
                    return Err(err);
                }
            } else if c == '+' {
                if !check {
                    check = true;
                } else {
                    let err = PGNParseError::NotationParseError(
                        String::from_str("Invalid notation, multiple check chars"),
                    );
                    proof {
                        assert(scan_san(notation_str@, i as int, st_here) is None);
                    }
                    return Err(err);
                }
            } else if c == '#' {
                if !checkmate {
                    checkmate = true;
                } else {
                    let err = PGNParseError::NotationParseError(
                        String::from_str("Invalid notation, multiple checkmate chars"),
                    );
                    proof {
                        assert(scan_san(notation_str@, i as int, st_here) is None);
                    }
                    return Err(err);
                }
            } else {
                let err = PGNParseError::NotationParseError(
                    String::from_str("Invalid character in notation"),
                );
                proof {
                    assert(scan_san(notation_str@, i as int, st_here) is None);
                }
                return Err(err);
            }
            i = i + 1;
        }
        proof {
            let st_end = ScanState {
                piece: piece_char,
                rf: rank_file_chars@,
                capture: capture,
                promotion: promotion,
                check: check,
                checkmate: checkmate,
            };
            assert(scan_san(notation_str@, i as int, st_end) == Some(st_end));
            assert(scan_san(notation_str@, 0, scan_init()) == Some(st_end));
        }
        let mut notation = Self::new();
        notation.set_piece_char(piece_char)?;
        notation.set_rank_file_chars(&rank_file_chars)?;
        notation.set_promotion_char(promotion)?;
        notation.capture = capture;
        notation.check = check;
        notation.checkmate = checkmate;
        Ok(notation)
    }
}

/// The piece kind a piece letter stands for.
pub open spec fn spec_char_to_ptype(c: char) -> Option<PieceType> {
    if c == 'P' {
        Some(PieceType::Pawn)
    } else if c == 'N' {
        Some(PieceType::Knight)
    } else if c == 'B' {
        Some(PieceType::Bishop)
    } else if c == 'R' {
        Some(PieceType::Rook)
    } else if c == 'Q' {
        Some(PieceType::Queen)
    } else if c == 'K' {
        Some(PieceType::King)
    } else {
        None
    }
}

/// The castle side a notation's castle text stands for.
pub open spec fn spec_castle_side_of(n: NotationV) -> Option<CastleSide> {
    match n.castle {
        Some(cs) => if is_short_castle_text(cs) {
            Some(CastleSide::Short)
        } else if is_long_castle_text(cs) {
            Some(CastleSide::Long)
        } else {
            None
        },
        None => None,
    }
}

/// The promotion letter of a move: the letter of the piece a promotion move
/// promotes to, and nothing for any other move.
pub open spec fn spec_mv_type_to_promotion_char(mt: MoveType) -> Option<char> {
    match mt {
        MoveType::Promotion(t, _) => match t {
            PieceType::Queen => Some('Q'),
            PieceType::Rook => Some('R'),
            PieceType::Bishop => Some('B'),
            PieceType::Knight => Some('N'),
            _ => None,
        },
        _ => None,
    }
}

/// The promotion letter of a move, as [`spec_mv_type_to_promotion_char`]
/// says.
pub fn mv_type_to_promotion_char(mv_type: &MoveType) -> (r: Option<char>)
    ensures
        r == spec_mv_type_to_promotion_char(*mv_type),
{
    match mv_type {
        MoveType::Promotion(t, _) => match t {
            PieceType::Queen => Some('Q'),
            PieceType::Rook => Some('R'),
            PieceType::Bishop => Some('B'),
            PieceType::Knight => Some('N'),
            _ => None,
        },
        _ => None,
    }
}

/// True when another legal move of the same piece kind and colour reaches the
/// same destination from a different origin.
pub open spec fn has_collider(lm: Seq<Move>, mv: Move) -> bool {
    exists|j: int|
        0 <= j < lm.len() && (#[trigger] lm[j]).piece == mv.piece && lm[j].to == mv.to && lm[j].from
            != mv.from
}

/// True when some collider shares the origin column with `mv`.
pub open spec fn collider_same_file(lm: Seq<Move>, mv: Move) -> bool {
    exists|j: int|
        0 <= j < lm.len() && (#[trigger] lm[j]).piece == mv.piece && lm[j].to == mv.to && lm[j].from
            != mv.from && lm[j].from % 8 == mv.from % 8
}

/// True when some collider shares the origin row with `mv`.
pub open spec fn collider_same_rank(lm: Seq<Move>, mv: Move) -> bool {
    exists|j: int|
        0 <= j < lm.len() && (#[trigger] lm[j]).piece == mv.piece && lm[j].to == mv.to && lm[j].from
            != mv.from && lm[j].from / 8 == mv.from / 8
}

/// The disambiguation characters a legal move renders with: a capturing pawn
/// shows its origin file; any other piece is disambiguated only when a
/// collider exists, by origin file alone if no collider shares it, else by
/// origin rank alone if no collider shares it, else by both.
pub open spec fn spec_disambiguation(v: crate::board::BoardStateV, mv: Move) -> (Option<char>, Option<char>) {
    let lm = crate::board::spec_legal_moves(v);
    if mv.piece.ptype is Pawn && mv.move_type.spec_is_capture() {
        (Some(crate::util::spec_file_char(mv.from as int)), None)
    } else if !has_collider(lm, mv) {
        (None, None)
    } else {
        let file = crate::util::spec_file_char(mv.from as int);
        let rank = crate::util::spec_rank_char(mv.from as int);
        if !collider_same_file(lm, mv) {
            (Some(file), None)
        } else if !collider_same_rank(lm, mv) {
            (None, Some(rank))
        } else {
            (Some(file), Some(rank))
        }
    }
}

/// The notation of a legal move `mv` played at `v`: the castle text for a
/// castling move, else piece letter, disambiguation, capture marker,
/// destination, and promotion letter; the check and checkmate markers follow
/// the classification of the resulting position.
pub open spec fn spec_notation_for_move(v: crate::board::BoardStateV, mv: Move) -> NotationV {
    let after = crate::board::spec_apply_move(v, mv);
    let gs = crate::board::spec_gamestate(after);
    let check = gs is Check;
    let checkmate = gs is Checkmate;
    match mv.move_type {
        MoveType::Castle(side) => NotationV {
            piece: None,
            dis_file: None,
            dis_rank: None,
            capture: false,
            to_file: ' ',
            to_rank: ' ',
            promotion: None,
            check: check,
            checkmate: checkmate,
            castle: Some(
                match side {
                    CastleSide::Short => "O-O"@,
                    CastleSide::Long => "O-O-O"@,
                },
            ),
        },
        _ => {
            let dis = spec_disambiguation(v, mv);
            NotationV {
                piece: spec_ptype_to_piece_char(mv.piece.ptype),
                dis_file: dis.0,
                dis_rank: dis.1,
                capture: mv.move_type.spec_is_capture(),
                to_file: crate::util::spec_file_char(mv.to as int),
                to_rank: crate::util::spec_rank_char(mv.to as int),
                promotion: spec_mv_type_to_promotion_char(mv.move_type),
                check: check,
                checkmate: checkmate,
                castle: None,
            }
        },
    }
}

/// True when a legal move fits a notation's piece letter, destination,
/// capture marker and promotion letter. A castle notation matches a castling
/// move by its side alone.
pub open spec fn spec_matches_basic(n: NotationV, m: Move) -> bool {
    if spec_castle_side_of(n) is Some && m.move_type is Castle {
        m.move_type == MoveType::Castle(spec_castle_side_of(n)->0)
    } else {
        let want_type: Option<PieceType> = match n.piece {
            Some(c) => spec_char_to_ptype(c),
            None => Some(PieceType::Pawn),
        };
        &&& want_type == Some(m.piece.ptype)
        &&& n.to_file == crate::util::spec_file_char(m.to as int)
        &&& n.to_rank == crate::util::spec_rank_char(m.to as int)
        &&& (n.capture ==> m.move_type.spec_is_capture())
        &&& (match n.promotion {
            Some(c) => (match m.move_type {
                MoveType::Promotion(t, _) => spec_char_to_ptype(c) == Some(t),
                _ => false,
            }),
            None => true,
        })
    }
}

/// The legal moves that fit the notation, in generation order.
pub open spec fn filter_matching(n: NotationV, s: Seq<Move>) -> Seq<Move>
    decreases s.len(),
{
    if s.len() == 0 {
        Seq::empty()
    } else {
        filter_matching(n, s.drop_last()) + (if spec_matches_basic(n, s.last()) {
            seq![s.last()]
        } else {
            Seq::empty()
        })
    }
}

/// True when a move's origin fits the notation's disambiguation characters;
/// false when the notation has none.
pub open spec fn spec_matches_dis(n: NotationV, m: Move) -> bool {
    let file_ok = n.dis_file == Some(crate::util::spec_file_char(m.from as int));
    let rank_ok = n.dis_rank == Some(crate::util::spec_rank_char(m.from as int));
    if n.dis_file is Some && n.dis_rank is Some {
        file_ok && rank_ok
    } else if n.dis_file is Some {
        file_ok
    } else if n.dis_rank is Some {
        rank_ok
    } else {
        false
    }
}

/// The candidates whose origin fits the disambiguation characters, in order.
pub open spec fn filter_dis(n: NotationV, s: Seq<Move>) -> Seq<Move>
    decreases s.len(),
{
    if s.len() == 0 {
        Seq::empty()
    } else {
        filter_dis(n, s.drop_last()) + (if spec_matches_dis(n, s.last()) {
            seq![s.last()]
        } else {
            Seq::empty()
        })
    }
}

/// The move a notation resolves to against the legal moves `lm`: the unique
/// fitting candidate, or, among several, the unique one fitting the
/// disambiguation characters.
pub open spec fn spec_resolve(n: NotationV, lm: Seq<Move>) -> Option<Move> {
    let cands = filter_matching(n, lm);
    if cands.len() == 1 {
        Some(cands[0])
    } else if cands.len() > 1 {
        let dis = filter_dis(n, cands);
        if dis.len() == 1 {
            Some(dis[0])
        } else {
            None
        }
    } else {
        None
    }
}

/// The legal moves of a position, for the notation codec.
pub fn extract_legal_moves(bs: &crate::board::BoardState) -> (r: Result<
    Vec<Move>,
    PGNParseError,
>)
    requires
        bs.wf(),
    ensures
        r is Ok,
        r is Ok ==> r->Ok_0@ == crate::board::spec_legal_moves(bs@) && (forall|k: int|
            0 <= k < r->Ok_0@.len() ==> crate::board::move_ok(bs@, #[trigger] r->Ok_0@[k])),
{
    match bs.get_legal_moves() {
        Ok(moves) => Ok(moves),
        Err(e) => {
            let mut msg = String::from_str("Error getting legal moves in BoardState: ");
            let d = e.describe();
            msg.append(d.as_str());
            Err(PGNParseError::NotationParseError(msg))
        },
    }
}

impl Notation {
    /// The piece kind of the notation's piece letter, if one is set.
    pub fn get_piece_type(&self) -> (r: Option<PieceType>)
        ensures
            r == (match self@.piece {
                Some(c) => spec_char_to_ptype(c),
                None => None::<PieceType>,
            }),
    {
        match self.piece {
            Some(c) => {
                if c == 'P' {
                    Some(PieceType::Pawn)
                } else if c == 'N' {
                    Some(PieceType::Knight)
                } else if c == 'B' {
                    Some(PieceType::Bishop)
                } else if c == 'R' {
                    Some(PieceType::Rook)
                } else if c == 'Q' {
                    Some(PieceType::Queen)
                } else if c == 'K' {
                    Some(PieceType::King)
                } else {
                    None
                }
            },
            None => None,
        }
    }

    /// The piece kind of the notation's promotion letter, if one is set.
    pub fn get_promotion_piece_type(&self) -> (r: Option<PieceType>)
        ensures
            r == (match self@.promotion {
                Some(c) => spec_char_to_ptype(c),
                None => None::<PieceType>,
            }),
    {
        match self.promotion {
            Some(c) => {
                if c == 'Q' {
                    Some(PieceType::Queen)
                } else if c == 'R' {
                    Some(PieceType::Rook)
                } else if c == 'B' {
                    Some(PieceType::Bishop)
                } else if c == 'N' {
                    Some(PieceType::Knight)
                } else if c == 'P' {
                    Some(PieceType::Pawn)
                } else if c == 'K' {
                    Some(PieceType::King)
                } else {
                    None
                }
            },
            None => None,
        }
    }

    /// The castle side of the notation's castle text, if one is set.
    pub fn get_castle_side(&self) -> (r: Option<CastleSide>)
        ensures
            r == spec_castle_side_of(self@),
    {
        match &self.castle_str {
            Some(cs) => {
                let ch = crate::text::str_to_chars(cs.as_str());
                if ch.len() == 3 && ch[0] == 'O' && ch[1] == '-' && ch[2] == 'O' {
                    Some(CastleSide::Short)
                } else if ch.len() == 5 && ch[0] == 'O' && ch[1] == '-' && ch[2] == 'O' && ch[3]
                    == '-' && ch[4] == 'O' {
                    Some(CastleSide::Long)
                } else {
                    None
                }
            },
            None => None,
        }
    }

    /// True when the legal move `m` fits this notation's piece letter,
    /// destination, capture marker and promotion letter, as
    /// [`spec_matches_basic`] says.
    fn matches_basic(&self, m: &Move) -> (r: bool)
        requires
            m.to < 64,
        ensures
            r == spec_matches_basic(self@, *m),
    {
        let castle_side = self.get_castle_side();
        let m_castle: Option<CastleSide> = match m.move_type {
            MoveType::Castle(side) => Some(side),
            _ => None,
        };
        if let (Some(ns), Some(ms)) = (castle_side, m_castle) {
            return ns == ms;
        }
        let want_type = match self.get_piece_type() {
            Some(t) => Some(t),
            None => match self.piece {
                Some(_) => None,
                None => Some(PieceType::Pawn),
            },
        };
        let type_ok = match want_type {
            Some(t) => m.piece.ptype == t,
            None => false,
        };
        if !type_ok {
            return false;
        }
        if self.to_file != crate::util::index_to_file_notation(m.to) || self.to_rank
            != crate::util::index_to_rank_notation(m.to) {
            return false;
        }
        if self.capture && !m.move_type.is_capture() {
            return false;
        }
        match self.get_promotion_piece_type() {
            Some(pt) => match m.move_type {
                MoveType::Promotion(t, _) => t == pt,
                _ => false,
            },
            None => match self.promotion {
                Some(_) => false,
                None => true,
            },
        }
    }

    /// True when the move's origin fits this notation's disambiguation
    /// characters, as [`spec_matches_dis`] says.
    fn matches_dis(&self, m: &Move) -> (r: bool)
        requires
            m.from < 64,
        ensures
            r == spec_matches_dis(self@, *m),
    {
        let file_ok = match self.dis_file {
            Some(c) => c == crate::util::index_to_file_notation(m.from),
            None => false,
        };
        let rank_ok = match self.dis_rank {
            Some(c) => c == crate::util::index_to_rank_notation(m.from),
            None => false,
        };
        if self.dis_file.is_some() && self.dis_rank.is_some() {
            file_ok && rank_ok
        } else if self.dis_file.is_some() {
            file_ok
        } else if self.dis_rank.is_some() {
            rank_ok
        } else {
            false
        }
    }

    /// The legal moves that fit this notation, as [`filter_matching`] says.
    fn filter_possible_moves(&self, moves: &Vec<Move>) -> (r: Vec<Move>)
        requires
            forall|k: int| 0 <= k < moves@.len() ==> (#[trigger] moves@[k]).to < 64,
        ensures
            r@ == filter_matching(self@, moves@),
    {
        let mut result: Vec<Move> = Vec::new();
        let mut i: usize = 0;
        while i < moves.len()
            invariant
                i <= moves@.len(),
                forall|k: int| 0 <= k < moves@.len() ==> (#[trigger] moves@[k]).to < 64,
                result@ == filter_matching(self@, moves@.subrange(0, i as int)),
            decreases moves@.len() - i,
        {
            let m = moves[i];
            if self.matches_basic(&m) {
                result.push(m);
            }
            i = i + 1;
            proof {
                let pre = moves@.subrange(0, i as int);
                assert(pre.drop_last() =~= moves@.subrange(0, i - 1));
                assert(pre.last() == m);
                assert(result@ =~= filter_matching(self@, pre));
            }
        }
        proof {
            assert(moves@.subrange(0, i as int) =~= moves@);
        }
        result
    }

    /// Builds the notation of a legal move in the context of its position,
    /// as [`spec_notation_for_move`] says: disambiguation is used only where
    /// required, and the check and checkmate markers follow the
    /// classification of the resulting position. Fails on a move that is not
    /// legal there.
    pub fn from_mv_with_context(
        bs_context: &crate::board::BoardState,
        mv: &Move,
    ) -> (r: Result<Notation, PGNParseError>)
        requires
            bs_context.wf(),
        ensures
            r is Ok <==> crate::board::spec_legal_moves(bs_context@).contains(*mv),
            r is Ok ==> r->Ok_0@ == spec_notation_for_move(bs_context@, *mv),
            r is Err ==> r->Err_0 is NotationParseError,
    {
        let legal = extract_legal_moves(bs_context)?;
        let mut found = false;
        let mut i: usize = 0;
        while i < legal.len()
            invariant
                i <= legal@.len(),
                legal@ == crate::board::spec_legal_moves(bs_context@),
                found <==> exists|j: int| 0 <= j < i && legal@[j] == *mv,
                forall|k: int|
                    0 <= k < legal@.len() ==> crate::board::move_ok(
                        bs_context@,
                        #[trigger] legal@[k],
                    ),
            decreases legal@.len() - i,
        {
            if legal[i] == *mv {
                found = true;
            }
            i = i + 1;
        }
        if !found {
            proof {
                assert(!crate::board::spec_legal_moves(bs_context@).contains(*mv));
            }
            let err = PGNParseError::NotationParseError(String::from_str("Move not legal"));
            return Err(err);
        }
        proof {
            assert(crate::board::spec_legal_moves(bs_context@).contains(*mv));
            let j = choose|j: int| 0 <= j < legal@.len() && legal@[j] == *mv;
            assert(crate::board::move_ok(bs_context@, legal@[j]));
            assert(*mv != crate::movegen::spec_null_move());
        }
        let mut notation = Self::new();
        // classify the resulting position for the check and checkmate markers
        let test_bs = match bs_context.next_state(mv) {
            Ok(b) => b,
            Err(_) => {
                proof {
                    assert(false);
                }
                return Err(PGNParseError::NotationParseError(String::from_str("a legal move always applies")));
            },
        };
        let gs = test_bs.get_gamestate();
        match gs {
            crate::gamestate::GameState::Check => {
                notation.check = true;
            },
            crate::gamestate::GameState::Checkmate => {
                notation.checkmate = true;
            },
            _ => {},
        }
        if let MoveType::Castle(cm) = mv.move_type {
            notation.castle_str = Some(
                match cm {
                    CastleSide::Short => String::from_str("O-O"),
                    CastleSide::Long => String::from_str("O-O-O"),
                },
            );
            proof {
                reveal_strlit("O-O");
                reveal_strlit("O-O-O");
            }
            return Ok(notation);
        }
        notation.piece = ptype_to_piece_char(&mv.piece.ptype);
        notation.to_file = crate::util::index_to_file_notation(mv.to);
        notation.to_rank = crate::util::index_to_rank_notation(mv.to);
        notation.capture = mv.move_type.is_capture();
        notation.promotion = mv_type_to_promotion_char(&mv.move_type);
        let is_pawn_capture = (match mv.piece.ptype {
            PieceType::Pawn => true,
            _ => false,
        }) && mv.move_type.is_capture();
        if is_pawn_capture {
            notation.dis_file = Some(crate::util::index_to_file_notation(mv.from));
        } else {
            let mut any_other = false;
            let mut same_file = false;
            let mut same_rank = false;
            let mut k: usize = 0;
            while k < legal.len()
                invariant
                    k <= legal@.len(),
                    legal@ == crate::board::spec_legal_moves(bs_context@),
                    any_other <==> has_collider(legal@.subrange(0, k as int), *mv),
                    same_file <==> collider_same_file(legal@.subrange(0, k as int), *mv),
                    same_rank <==> collider_same_rank(legal@.subrange(0, k as int), *mv),
                decreases legal@.len() - k,
            {
                let m = legal[k];
                if m.piece == mv.piece && m.to == mv.to && m.from != mv.from {
                    any_other = true;
                    if m.from % 8 == mv.from % 8 {
                        same_file = true;
                    }
                    if m.from / 8 == mv.from / 8 {
                        same_rank = true;
                    }
                }
                k = k + 1;
                proof {
                    let pre = legal@.subrange(0, k as int);
                    assert(forall|j: int| 0 <= j < k - 1 ==> pre[j] == legal@[j]);
                    assert(pre[k - 1] == m);
                    if any_other {
                        assert(has_collider(pre, *mv));
                    } else {
                        assert forall|j: int|
                            0 <= j < pre.len() implies !((#[trigger] pre[j]).piece == mv.piece
                            && pre[j].to == mv.to && pre[j].from != mv.from) by {
                            assert(pre[j] == legal@[j]);
                        }
                    }
                    if same_file {
                        assert(collider_same_file(pre, *mv));
                    } else {
                        assert forall|j: int|
                            0 <= j < pre.len() implies !((#[trigger] pre[j]).piece == mv.piece
                            && pre[j].to == mv.to && pre[j].from != mv.from && pre[j].from % 8
                            == mv.from % 8) by {
                            assert(pre[j] == legal@[j]);
                        }
                    }
                    if same_rank {
                        assert(collider_same_rank(pre, *mv));
                    } else {
                        assert forall|j: int|
                            0 <= j < pre.len() implies !((#[trigger] pre[j]).piece == mv.piece
                            && pre[j].to == mv.to && pre[j].from != mv.from && pre[j].from / 8
                            == mv.from / 8) by {
                            assert(pre[j] == legal@[j]);
                        }
                    }
                }
            }
            proof {
                assert(legal@.subrange(0, k as int) =~= legal@);
            }
            if any_other {
                let file = crate::util::index_to_file_notation(mv.from);
                let rank = crate::util::index_to_rank_notation(mv.from);
                if !same_file {
                    notation.dis_file = Some(file);
                } else if !same_rank {
                    notation.dis_rank = Some(rank);
                } else {
                    notation.dis_file = Some(file);
                    notation.dis_rank = Some(rank);
                }
            }
        }
        Ok(notation)
    }

    /// Resolves this notation to a move against the legal moves of the given
    /// position, as [`spec_resolve`] says: the unique fitting candidate, or,
    /// among several, the unique one fitting the disambiguation characters.
    /// Fails with the move-not-found error when no candidate or more than one
    /// remains.
    pub fn to_move_with_context(&self, bs_context: &crate::board::BoardState) -> (r: Result<
        Move,
        PGNParseError,
    >)
        requires
            bs_context.wf(),
        ensures
            r is Ok <==> spec_resolve(self@, crate::board::spec_legal_moves(bs_context@)) is Some,
            r is Ok ==> Some(r->Ok_0) == spec_resolve(
                self@,
                crate::board::spec_legal_moves(bs_context@),
            ),
            r is Err ==> r->Err_0 is MoveNotFound,
    {
        let legal = match extract_legal_moves(bs_context) {
            Ok(moves) => moves,
            Err(_) => {
                proof {
                    assert(false);
                }
                return Err(PGNParseError::MoveNotFound(String::new()));
            },
        };
        let possible_moves = self.filter_possible_moves(&legal);
        if possible_moves.len() == 1 {
            return Ok(possible_moves[0]);
        } else if possible_moves.len() > 1 {
            let mut possible_dis_moves: Vec<Move> = Vec::new();
            let mut i: usize = 0;
            proof {
                crate::board::lemma_moves_from_cell_ok(bs_context@, 0);
                assert forall|k: int| 0 <= k < possible_moves@.len() implies (
                #[trigger] possible_moves@[k]).from < 64 by {
                    lemma_filter_matching_sub(self@, legal@, possible_moves@[k]);
                }
            }
            while i < possible_moves.len()
                invariant
                    i <= possible_moves@.len(),
                    forall|k: int|
                        0 <= k < possible_moves@.len() ==> (#[trigger] possible_moves@[k]).from
                            < 64,
                    possible_dis_moves@ == filter_dis(
                        self@,
                        possible_moves@.subrange(0, i as int),
                    ),
                decreases possible_moves@.len() - i,
            {
                let m = possible_moves[i];
                if self.matches_dis(&m) {
                    possible_dis_moves.push(m);
                }
                i = i + 1;
                proof {
                    let pre = possible_moves@.subrange(0, i as int);
                    assert(pre.drop_last() =~= possible_moves@.subrange(0, i - 1));
                    assert(pre.last() == m);
                    assert(possible_dis_moves@ =~= filter_dis(self@, pre));
                }
            }
            proof {
                assert(possible_moves@.subrange(0, i as int) =~= possible_moves@);
            }
            if possible_dis_moves.len() == 1 {
                return Ok(possible_dis_moves[0]);
            } else {
                let err = PGNParseError::MoveNotFound(
                    String::from_str(
                        "could not use notation to disambiguate between multiple possible moves",
                    ),
                );
                return Err(err);
            }
        } else {
            let err = PGNParseError::MoveNotFound(
                String::from_str("no legal move found for notation"),
            );
            return Err(err);
        }
    }
}

/// Every move kept by [`filter_matching`] comes from the filtered sequence.
pub proof fn lemma_filter_matching_sub(n: NotationV, s: Seq<Move>, m: Move)
    requires
        filter_matching(n, s).contains(m),
    ensures
        s.contains(m),
    decreases s.len(),
{
    if s.len() > 0 {
        if spec_matches_basic(n, s.last()) {
            if m == s.last() {
                assert(s[s.len() - 1] == m);
            } else {
                assert(filter_matching(n, s.drop_last()).contains(m));
                lemma_filter_matching_sub(n, s.drop_last(), m);
                let j = choose|j: int| 0 <= j < s.drop_last().len() && s.drop_last()[j] == m;
                assert(s[j] == m);
            }
        } else {
            assert(filter_matching(n, s.drop_last()).contains(m));
            lemma_filter_matching_sub(n, s.drop_last(), m);
            let j = choose|j: int| 0 <= j < s.drop_last().len() && s.drop_last()[j] == m;
            assert(s[j] == m);
        }
    }
}

/// Every move kept by [`filter_dis`] comes from the filtered sequence.
pub proof fn lemma_filter_dis_sub(n: NotationV, s: Seq<Move>, m: Move)
    requires
        filter_dis(n, s).contains(m),
    ensures
        s.contains(m),
    decreases s.len(),
{
    if s.len() > 0 {
        if spec_matches_dis(n, s.last()) && m == s.last() {
            assert(s[s.len() - 1] == m);
        } else {
            assert(filter_dis(n, s.drop_last()).contains(m));
            lemma_filter_dis_sub(n, s.drop_last(), m);
            let j = choose|j: int| 0 <= j < s.drop_last().len() && s.drop_last()[j] == m;
            assert(s[j] == m);
        }
    }
}

/// The move a notation resolves to is one of the legal moves it was
/// resolved against.
pub proof fn lemma_resolve_in_legal(n: NotationV, lm: Seq<Move>, m: Move)
    requires
        spec_resolve(n, lm) == Some(m),
    ensures
        lm.contains(m),
{
    let cands = filter_matching(n, lm);
    if cands.len() == 1 {
        assert(cands[0] == m);
        assert(cands.contains(m));
        lemma_filter_matching_sub(n, lm, m);
    } else {
        let dis = filter_dis(n, cands);
        assert(dis[0] == m);
        assert(dis.contains(m));
        lemma_filter_dis_sub(n, cands, m);
        lemma_filter_matching_sub(n, lm, m);
    }
}

/// For every position with two same-colour knights both able to legally
/// reach the same destination, the two moves render as distinct SAN texts:
/// the disambiguation characters differ by file, rank, or both, and the
/// texts never collide.
pub proof fn lemma_knight_disambiguation(
    v: crate::board::BoardStateV,
    m1: Move,
    m2: Move,
)
    requires
        v.pos.len() == 64,
        crate::board::spec_legal_moves(v).contains(m1),
        crate::board::spec_legal_moves(v).contains(m2),
        m1.piece == m2.piece,
        m1.piece.ptype is Knight,
        m1.to == m2.to,
        m1.from != m2.from,
        m1.move_type is Normal || m1.move_type is Capture,
        m2.move_type is Normal || m2.move_type is Capture,
    ensures
        spec_render(spec_notation_for_move(v, m1)) != spec_render(spec_notation_for_move(v, m2)),
{
    crate::board::lemma_legal_move_ok(v, m1);
    crate::board::lemma_legal_move_ok(v, m2);
    let lm = crate::board::spec_legal_moves(v);
    let j2 = choose|j: int| 0 <= j < lm.len() && lm[j] == m2;
    let j1 = choose|j: int| 0 <= j < lm.len() && lm[j] == m1;
    assert(has_collider(lm, m1)) by {
        assert(lm[j2].piece == m1.piece && lm[j2].to == m1.to && lm[j2].from != m1.from);
    }
    assert(has_collider(lm, m2)) by {
        assert(lm[j1].piece == m2.piece && lm[j1].to == m2.to && lm[j1].from != m2.from);
    }
    let n1 = spec_notation_for_move(v, m1);
    let n2 = spec_notation_for_move(v, m2);
    let s1 = spec_render(n1);
    let s2 = spec_render(n2);
    let f1 = crate::util::spec_file_char(m1.from as int);
    let r1 = crate::util::spec_rank_char(m1.from as int);
    let f2 = crate::util::spec_file_char(m2.from as int);
    let r2 = crate::util::spec_rank_char(m2.from as int);
    lemma_dis_char_at(v, m1, n1);
    lemma_dis_char_at(v, m2, n2);
    // the character after the piece letter is the first disambiguation
    // character of each text; file and rank characters never coincide
    if s1[1] != s2[1] {
        assert(s1 != s2);
    } else {
        // equal leading disambiguation characters: both are origin files or
        // both are origin ranks
        if n1.dis_file is Some && n2.dis_file is Some {
            // equal files: neither move may then be disambiguated by file
            // alone, so both carry file and rank, and the ranks differ
            assert(f1 == f2);
            assert(m1.from as int % 8 == m2.from as int % 8);
            assert(collider_same_file(lm, m1)) by {
                assert(lm[j2].piece == m1.piece && lm[j2].to == m1.to && lm[j2].from != m1.from
                    && lm[j2].from % 8 == m1.from % 8);
            }
            assert(collider_same_file(lm, m2)) by {
                assert(lm[j1].piece == m2.piece && lm[j1].to == m2.to && lm[j1].from != m2.from
                    && lm[j1].from % 8 == m2.from % 8);
            }
            assert(n1.dis_rank == Some(r1));
            assert(n2.dis_rank == Some(r2));
            assert(s1[2] == r1 && s2[2] == r2);
            assert(r1 != r2) by {
                if m1.from as int / 8 == m2.from as int / 8 {
                    assert(m1.from as int == m2.from as int);
                }
            }
            assert(s1 != s2);
        } else {
            // equal ranks: rank-only disambiguation asks that no collider
            // shares the rank, but each move is the other's collider
            assert(n1.dis_rank == Some(r1) && n1.dis_file is None);
            assert(n2.dis_rank == Some(r2) && n2.dis_file is None);
            assert(r1 == r2);
            assert(m1.from as int / 8 == m2.from as int / 8);
            assert(collider_same_rank(lm, m1)) by {
                assert(lm[j2].piece == m1.piece && lm[j2].to == m1.to && lm[j2].from != m1.from
                    && lm[j2].from / 8 == m1.from / 8);
            }
            assert(false);
        }
    }
}

/// The character after the piece letter of a disambiguated knight move's
/// text: the origin file when the file is shown, else the origin rank; and
/// the origin rank follows the origin file when both are shown.
proof fn lemma_dis_char_at(v: crate::board::BoardStateV, m: Move, n: NotationV)
    requires
        n == spec_notation_for_move(v, m),
        m.piece.ptype is Knight,
        m.from < 64,
        m.move_type is Normal || m.move_type is Capture,
        has_collider(crate::board::spec_legal_moves(v), m),
    ensures
        spec_render(n).len() >= 4,
        n.castle is None,
        n.piece == Some('N'),
        n.promotion is None,
        (n.dis_file is Some || n.dis_rank is Some),
        n.dis_file is Some ==> n.dis_file == Some(crate::util::spec_file_char(m.from as int))
            && spec_render(n)[1] == crate::util::spec_file_char(m.from as int),
        n.dis_file is None ==> n.dis_rank == Some(crate::util::spec_rank_char(m.from as int))
            && spec_render(n)[1] == crate::util::spec_rank_char(m.from as int),
        n.dis_file is Some && n.dis_rank is Some ==> n.dis_rank == Some(
            crate::util::spec_rank_char(m.from as int),
        ) && spec_render(n)[2] == crate::util::spec_rank_char(m.from as int),
        n.dis_file is Some && n.dis_rank is None ==> !collider_same_file(
            crate::board::spec_legal_moves(v),
            m,
        ),
        n.dis_file is None && n.dis_rank is Some ==> !collider_same_rank(
            crate::board::spec_legal_moves(v),
            m,
        ),
        // a file character is never a rank character
        forall|i: int, j: int|
            0 <= i < 64 && 0 <= j < 64 ==> crate::util::spec_file_char(i)
                != crate::util::spec_rank_char(j),
{
    let dis = spec_disambiguation(v, m);
    let marker: Seq<char> = if n.checkmate {
        seq!['#']
    } else if n.check {
        seq!['+']
    } else {
        Seq::empty()
    };
    let capseq: Seq<char> = if n.capture {
        seq!['x']
    } else {
        Seq::empty()
    };
    assert(spec_render(n) == opt_chars(n.piece) + opt_chars(n.dis_file) + opt_chars(n.dis_rank)
        + capseq + seq![n.to_file, n.to_rank] + Seq::<char>::empty() + marker);
}

} // verus!
