//! The PGN codec: conversion between a whole game and the standard text
//! format of bracketed tag pairs followed by movetext with move-number
//! prefixes and a result token.

use vstd::prelude::*;

use crate::errors::PGNParseError;
use crate::history::Board;
use crate::notation::Notation;
use crate::text::{chars_to_string, dec_digits, split_at_char, str_to_chars};

verus! {

/// One tag pair of the header block.
pub struct Tag {
    pub name: String,
    pub value: String,
}

/// A parsed game: the tag pairs of its header block and the SAN texts of its
/// moves, in game order.
pub struct PGN {
    pub tags: Vec<Tag>,
    pub moves: Vec<String>,
}

/// The text of one tag pair line: the name and the quoted value in brackets.
pub open spec fn render_tag(name: Seq<char>, value: Seq<char>) -> Seq<char> {
    seq!['['] + name + seq![' ', '"'] + value + seq!['"', ']', '\n']
}

/// The text of the tag pair lines from index `i` onwards.
pub open spec fn render_tags(tags: Seq<(Seq<char>, Seq<char>)>, i: int) -> Seq<char>
    decreases tags.len() - i,
{
    if i < 0 || i >= tags.len() {
        Seq::empty()
    } else {
        render_tag(tags[i].0, tags[i].1) + render_tags(tags, i + 1)
    }
}

/// The movetext from move `i` onwards: every White move carries its move
/// number, and every token is followed by one space.
pub open spec fn render_movetext(moves: Seq<Seq<char>>, i: int) -> Seq<char>
    decreases moves.len() - i,
{
    if i < 0 || i >= moves.len() {
        seq!['*']
    } else {
        (if i % 2 == 0 {
            dec_digits(i / 2 + 1) + seq!['.', ' ']
        } else {
            Seq::empty()
        }) + moves[i] + seq![' '] + render_movetext(moves, i + 1)
    }
}

/// The tag pair values of a game's tags.
pub open spec fn tag_views(tags: Seq<Tag>) -> Seq<(Seq<char>, Seq<char>)> {
    Seq::new(tags.len(), |i: int| (tags[i].name@, tags[i].value@))
}

/// The character sequences of a game's move texts.
pub open spec fn move_views(moves: Seq<String>) -> Seq<Seq<char>> {
    Seq::new(moves.len(), |i: int| moves[i]@)
}

/// The whole PGN text of a game: the tag block, a blank line, and the
/// movetext ending in the unknown-result token.
pub open spec fn render_pgn(tags: Seq<(Seq<char>, Seq<char>)>, moves: Seq<Seq<char>>) -> Seq<
    char,
> {
    render_tags(tags, 0) + seq!['\n'] + render_movetext(moves, 0)
}

/// True when a movetext token is a move-number prefix: digits followed by
/// one or more dots.
pub open spec fn is_move_number_token(t: Seq<char>) -> bool {
    t.len() >= 1 && t.last() == '.' && (forall|i: int|
        0 <= i < t.len() ==> (crate::text::is_digit_char(#[trigger] t[i]) || t[i] == '.'))
}

/// True when a movetext token is a game-result token.
pub open spec fn is_result_token(t: Seq<char>) -> bool {
    ||| t =~= seq!['*']
    ||| t =~= seq!['1', '-', '0']
    ||| t =~= seq!['0', '-', '1']
    ||| t =~= seq!['1', '/', '2', '-', '1', '/', '2']
}

/// True when a movetext token is kept as a move: it is not empty, not a
/// move-number prefix and not a result token.
pub open spec fn is_move_token(t: Seq<char>) -> bool {
    t.len() > 0 && !is_move_number_token(t) && !is_result_token(t)
}

/// The move tokens of a whitespace-split movetext, in order.
pub open spec fn filter_move_tokens(tokens: Seq<Seq<char>>) -> Seq<Seq<char>>
    decreases tokens.len(),
{
    if tokens.len() == 0 {
        Seq::empty()
    } else {
        filter_move_tokens(tokens.drop_last()) + (if is_move_token(tokens.last()) {
            seq![tokens.last()]
        } else {
            Seq::empty()
        })
    }
}

/// True when a line opens a tag pair.
pub open spec fn is_tag_line(line: Seq<char>) -> bool {
    line.len() > 0 && line[0] == '['
}

/// The length of a line without its trailing spaces.
pub open spec fn trimmed_len(line: Seq<char>) -> int
    decreases line.len(),
{
    if line.len() == 0 {
        0
    } else if line.last() == ' ' {
        trimmed_len(line.drop_last())
    } else {
        line.len() as int
    }
}

/// The index of the first space at or after `i` and before `end`, or `end`.
pub open spec fn first_space(line: Seq<char>, i: int, end: int) -> int
    decreases end - i,
{
    if i < 0 || i >= end {
        end
    } else if line[i] == ' ' {
        i
    } else {
        first_space(line, i + 1, end)
    }
}

/// Reads one tag pair line: after trailing spaces are dropped, the line must
/// be a bracketed pair of a non-empty name, one space, and a quoted value.
pub open spec fn spec_parse_tag_line(line: Seq<char>) -> Option<(Seq<char>, Seq<char>)> {
    let end = trimmed_len(line);
    if end < 5 {
        None
    } else if !(line[0] == '[' && line[end - 1] == ']') {
        None
    } else {
        let sp = first_space(line, 1, end);
        if end - sp < 4 {
            None
        } else if !(line[sp + 1] == '"' && line[end - 2] == '"') {
            None
        } else if sp == 1 {
            None
        } else {
            Some((line.subrange(1, sp), line.subrange(sp + 2, end - 2)))
        }
    }
}

/// The movetext of a PGN text: its non-tag lines joined, each followed by
/// one space.
pub open spec fn movetext_of(lines: Seq<Seq<char>>, i: int) -> Seq<char>
    decreases lines.len() - i,
{
    if i < 0 || i >= lines.len() {
        Seq::empty()
    } else {
        (if is_tag_line(lines[i]) {
            Seq::empty()
        } else {
            lines[i] + seq![' ']
        }) + movetext_of(lines, i + 1)
    }
}

/// The tag pairs of a PGN text's tag lines, in order; nothing when one of
/// them is malformed.
pub open spec fn tags_of(lines: Seq<Seq<char>>, i: int) -> Option<Seq<(Seq<char>, Seq<char>)>>
    decreases lines.len() - i,
{
    if i < 0 || i >= lines.len() {
        Some(Seq::empty())
    } else if is_tag_line(lines[i]) {
        match spec_parse_tag_line(lines[i]) {
            None => None,
            Some(t) => match tags_of(lines, i + 1) {
                None => None,
                Some(rest) => Some(seq![t] + rest),
            },
        }
    } else {
        tags_of(lines, i + 1)
    }
}

/// Parses PGN text: the text splits into lines; every line opening with `[`
/// must be a well-formed tag pair, and the remaining lines form the
/// movetext, whose whitespace-separated tokens other than move-number
/// prefixes and result tokens are the moves, in order.
pub open spec fn spec_parse_pgn(text: Seq<char>) -> Option<
    (Seq<(Seq<char>, Seq<char>)>, Seq<Seq<char>>),
> {
    let lines = crate::fen::split_chars(text, '\n');
    match tags_of(lines, 0) {
        None => None,
        Some(tags) => Some(
            (
                tags,
                filter_move_tokens(
                    crate::fen::split_chars(movetext_of(lines, 0), ' '),
                ),
            ),
        ),
    }
}

impl PGN {
    /// The game a board records, under a minimal tag block: the moves are
    /// the SAN texts of the board's history.
    pub fn from_board(board: &Board) -> (r: PGN)
        requires
            board.wf(),
        ensures
            move_views(r.moves@) =~= Seq::new(
                (board@.states.len() - 1) as nat,
                |i: int| crate::history::san_at(board@, i + 1),
            ),
            tag_views(r.tags@) =~= (seq![
                ("Event"@, "?"@),
                ("Site"@, "?"@),
                ("Date"@, "????.??.??"@),
                ("Round"@, "?"@),
                ("White"@, "?"@),
                ("Black"@, "?"@),
                ("Result"@, "*"@),
            ]),
    {
        let moves = board.move_history_string_notation();
        let mut tags: Vec<Tag> = Vec::new();
        tags.push(Tag { name: String::from_str("Event"), value: String::from_str("?") });
        tags.push(Tag { name: String::from_str("Site"), value: String::from_str("?") });
        tags.push(Tag { name: String::from_str("Date"), value: String::from_str("????.??.??") });
        tags.push(Tag { name: String::from_str("Round"), value: String::from_str("?") });
        tags.push(Tag { name: String::from_str("White"), value: String::from_str("?") });
        tags.push(Tag { name: String::from_str("Black"), value: String::from_str("?") });
        tags.push(Tag { name: String::from_str("Result"), value: String::from_str("*") });
        proof {
            assert(move_views(moves@) =~= Seq::new(
                (board@.states.len() - 1) as nat,
                |i: int| crate::history::san_at(board@, i + 1),
            ));
            assert(tag_views(tags@) =~= (seq![
                ("Event"@, "?"@),
                ("Site"@, "?"@),
                ("Date"@, "????.??.??"@),
                ("Round"@, "?"@),
                ("White"@, "?"@),
                ("Black"@, "?"@),
                ("Result"@, "*"@),
            ]));
        }
        PGN { tags, moves }
    }

    /// Renders the game as PGN text, as [`render_pgn`] says.
    pub fn to_string(&self) -> (r: String)
        ensures
            r@ == render_pgn(tag_views(self.tags@), move_views(self.moves@)),
    {
        let mut v: Vec<char> = Vec::new();
        let mut i: usize = 0;
        while i < self.tags.len()
            invariant
                i <= self.tags@.len(),
                v@ + render_tags(tag_views(self.tags@), i as int) =~= render_tags(
                    tag_views(self.tags@),
                    0,
                ),
            decreases self.tags@.len() - i,
        {
            v.push('[');
            let name_chars = str_to_chars(self.tags[i].name.as_str());
            let mut k: usize = 0;
            let ghost v1 = v@;
            while k < name_chars.len()
                invariant
                    k <= name_chars@.len(),
                    v@ =~= v1 + name_chars@.subrange(0, k as int),
                decreases name_chars@.len() - k,
            {
                v.push(name_chars[k]);
                k = k + 1;
                proof {
                    assert(v@ =~= v1 + name_chars@.subrange(0, k as int));
                }
            }
            proof {
                assert(name_chars@.subrange(0, name_chars@.len() as int) =~= name_chars@);
            }
            v.push(' ');
            v.push('"');
            let value_chars = str_to_chars(self.tags[i].value.as_str());
            let ghost v2 = v@;
            let mut k2: usize = 0;
            while k2 < value_chars.len()
                invariant
                    k2 <= value_chars@.len(),
                    v@ =~= v2 + value_chars@.subrange(0, k2 as int),
                decreases value_chars@.len() - k2,
            {
                v.push(value_chars[k2]);
                k2 = k2 + 1;
                proof {
                    assert(v@ =~= v2 + value_chars@.subrange(0, k2 as int));
                }
            }
            proof {
                assert(value_chars@.subrange(0, value_chars@.len() as int) =~= value_chars@);
            }
            v.push('"');
            v.push(']');
            v.push('\n');
            i = i + 1;
            proof {
                assert(v@ + render_tags(tag_views(self.tags@), i as int) =~= render_tags(
                    tag_views(self.tags@),
                    0,
                ));
            }
        }
        v.push('\n');
        let ghost v3 = v@;
        let mut m: usize = 0;
        while m < self.moves.len()
            invariant
                m <= self.moves@.len(),
                v@ + render_movetext(move_views(self.moves@), m as int) =~= v3 + render_movetext(
                    move_views(self.moves@),
                    0,
                ),
            decreases self.moves@.len() - m,
        {
            if m % 2 == 0 {
                crate::text::push_dec(&mut v, (m / 2 + 1) as u64);
                v.push('.');
                v.push(' ');
            }
            let move_chars = str_to_chars(self.moves[m].as_str());
            let ghost v4 = v@;
            let mut k3: usize = 0;
            while k3 < move_chars.len()
                invariant
                    k3 <= move_chars@.len(),
                    v@ =~= v4 + move_chars@.subrange(0, k3 as int),
                decreases move_chars@.len() - k3,
            {
                v.push(move_chars[k3]);
                k3 = k3 + 1;
                proof {
                    assert(v@ =~= v4 + move_chars@.subrange(0, k3 as int));
                }
            }
            proof {
                assert(move_chars@.subrange(0, move_chars@.len() as int) =~= move_chars@);
            }
            v.push(' ');
            m = m + 1;
            proof {
                assert(v@ + render_movetext(move_views(self.moves@), m as int) =~= v3
                    + render_movetext(move_views(self.moves@), 0));
            }
        }
        v.push('*');
        proof {
            assert(v@ =~= render_pgn(tag_views(self.tags@), move_views(self.moves@)));
        }
        chars_to_string(&v)
    }

    /// Parses PGN text, as [`spec_parse_pgn`] says: every line opening with
    /// `[` must be a well-formed tag pair `[Name "Value"]`, and the
    /// whitespace-separated movetext tokens that are neither move-number
    /// prefixes nor result tokens are kept as the game's moves, in order.
    /// Fails with the invalid-tag error exactly on a malformed tag line.
    pub fn from_str(text: &str) -> (r: Result<PGN, PGNParseError>)
        ensures
            r is Ok <==> spec_parse_pgn(text@) is Some,
            r is Ok ==> Some((tag_views(r->Ok_0.tags@), move_views(r->Ok_0.moves@)))
                == spec_parse_pgn(text@),
            r is Err ==> r->Err_0 is InvalidTag,
    {
        let chars = str_to_chars(text);
        let lines = split_at_char(&chars, '\n');
        let ghost lines_v = crate::text::views_of(lines@);
        proof {
            assert(lines_v == crate::fen::split_chars(text@, '\n'));
        }
        let mut tags: Vec<Tag> = Vec::new();
        let mut movetext: Vec<char> = Vec::new();
        let mut li: usize = 0;
        while li < lines.len()
            invariant
                li <= lines@.len(),
                lines_v == crate::text::views_of(lines@),
                lines_v == crate::fen::split_chars(text@, '\n'),
                (match tags_of(lines_v, li as int) {
                    Some(rest) => tags_of(lines_v, 0) == Some(tag_views(tags@) + rest),
                    None => tags_of(lines_v, 0) is None,
                }),
                movetext_of(lines_v, 0) == movetext@ + movetext_of(lines_v, li as int),
            decreases lines@.len() - li,
        {
            let line = &lines[li];
            proof {
                assert(line@ == lines_v[li as int]);
            }
            if line.len() > 0 && line[0] == '[' {
                match parse_tag_line(line) {
                    Some(tag) => {
                        let ghost tags0 = tag_views(tags@);
                        let ghost t = (tag.name@, tag.value@);
                        tags.push(tag);
                        proof {
                            assert(tag_views(tags@) =~= tags0 + seq![t]);
                            if let Some(rest) = tags_of(lines_v, li + 1) {
                                assert(tags_of(lines_v, li as int) == Some(seq![t] + rest));
                                assert(tags0 + (seq![t] + rest) =~= (tags0 + seq![t]) + rest);
                            }
                        }
                    },
                    None => {
                        proof {
                            assert(tags_of(lines_v, li as int) is None);
                        }
                        return Err(
                            PGNParseError::InvalidTag(String::from_str("malformed tag pair line")),
                        );
                    },
                }
            } else {
                // movetext lines are joined by spaces
                proof {
                    assert(!is_tag_line(lines_v[li as int]));
                }
                let ghost m0 = movetext@;
                let mut k: usize = 0;
                while k < line.len()
                    invariant
                        k <= line@.len(),
                        movetext@ =~= m0 + line@.subrange(0, k as int),
                    decreases line@.len() - k,
                {
                    movetext.push(line[k]);
                    k = k + 1;
                    proof {
                        assert(movetext@ =~= m0 + line@.subrange(0, k as int));
                    }
                }
                movetext.push(' ');
                proof {
                    assert(line@.subrange(0, line@.len() as int) =~= line@);
                    assert(movetext@ =~= m0 + (line@ + seq![' ']));
                }
            }
            li = li + 1;
        }
        proof {
            assert(tags_of(lines_v, li as int) == Some(Seq::<(Seq<char>, Seq<char>)>::empty()));
            assert(tag_views(tags@) + Seq::<(Seq<char>, Seq<char>)>::empty() =~= tag_views(tags@));
            assert(movetext@ + movetext_of(lines_v, li as int) =~= movetext@);
            assert(movetext@ == movetext_of(lines_v, 0));
        }
        let tokens = split_at_char(&movetext, ' ');
        let ghost tokens_v = crate::text::views_of(tokens@);
        proof {
            assert(tokens_v == crate::fen::split_chars(movetext_of(lines_v, 0), ' '));
        }
        let mut moves: Vec<String> = Vec::new();
        let mut ti: usize = 0;
        while ti < tokens.len()
            invariant
                ti <= tokens@.len(),
                tokens_v == crate::text::views_of(tokens@),
                move_views(moves@) =~= filter_move_tokens(tokens_v.subrange(0, ti as int)),
            decreases tokens@.len() - ti,
        {
            let t = &tokens[ti];
            proof {
                assert(t@ == tokens_v[ti as int]);
            }
            let ghost mv0 = move_views(moves@);
            if is_move_token_exec(t) {
                moves.push(chars_to_string(t));
            }
            ti = ti + 1;
            proof {
                let pre = tokens_v.subrange(0, ti as int);
                assert(pre.drop_last() =~= tokens_v.subrange(0, ti - 1));
                assert(pre.last() == t@);
                assert(move_views(moves@) =~= filter_move_tokens(pre));
            }
        }
        proof {
            assert(tokens_v.subrange(0, ti as int) =~= tokens_v);
        }
        Ok(PGN { tags, moves })
    }
}

/// Reads one tag pair line, as [`spec_parse_tag_line`] says.
fn parse_tag_line(line: &Vec<char>) -> (r: Option<Tag>)
    ensures
        (match r {
            Some(tag) => spec_parse_tag_line(line@) == Some((tag.name@, tag.value@)),
            None => spec_parse_tag_line(line@) is None,
        }),
{
    let n = line.len();
    let mut end: usize = n;
    proof {
        assert(line@.subrange(0, n as int) =~= line@);
    }
    while end > 0 && line[end - 1] == ' '
        invariant
            end <= n,
            n == line@.len(),
            trimmed_len(line@) == trimmed_len(line@.subrange(0, end as int)),
        decreases end,
    {
        end = end - 1;
        proof {
            let pre = line@.subrange(0, (end + 1) as int);
            assert(pre.last() == ' ');
            assert(pre.drop_last() =~= line@.subrange(0, end as int));
        }
    }
    proof {
        if end == 0 {
            assert(line@.subrange(0, 0) =~= Seq::<char>::empty());
        } else {
            assert(line@.subrange(0, end as int).last() == line@[end - 1]);
        }
        assert(trimmed_len(line@) == end);
    }
    if end < 5 {
        return None;
    }
    if !(line[0] == '[' && line[end - 1] == ']') {
        return None;
    }
    let mut sp: usize = 1;
    while sp < end && line[sp] != ' '
        invariant
            1 <= sp <= end,
            end <= n,
            n == line@.len(),
            first_space(line@, 1, end as int) == first_space(line@, sp as int, end as int),
        decreases end - sp,
    {
        sp = sp + 1;
    }
    proof {
        assert(first_space(line@, 1, end as int) == sp);
    }
    if end - sp < 4 {
        return None;
    }
    if !(line[sp + 1] == '"' && line[end - 2] == '"') {
        return None;
    }
    if sp == 1 {
        return None;
    }
    let mut name: Vec<char> = Vec::new();
    let mut i: usize = 1;
    while i < sp
        invariant
            1 <= i <= sp,
            sp < end,
            end <= n,
            n == line@.len(),
            name@ =~= line@.subrange(1, i as int),
        decreases sp - i,
    {
        name.push(line[i]);
        i = i + 1;
        proof {
            assert(name@ =~= line@.subrange(1, i as int));
        }
    }
    let mut value: Vec<char> = Vec::new();
    let mut k: usize = sp + 2;
    while k < end - 2
        invariant
            sp + 2 <= k,
            k <= end - 2 || k == sp + 2,
            sp + 3 < end,
            end <= n,
            n == line@.len(),
            value@ =~= line@.subrange((sp + 2) as int, k as int),
        decreases end - 2 - k,
    {
        value.push(line[k]);
        k = k + 1;
        proof {
            assert(value@ =~= line@.subrange((sp + 2) as int, k as int));
        }
    }
    proof {
        assert(value@ =~= line@.subrange((sp + 2) as int, (end - 2) as int));
    }
    Some(Tag { name: chars_to_string(&name), value: chars_to_string(&value) })
}

/// True when a token is kept as a move, as [`is_move_token`] says.
fn is_move_token_exec(t: &Vec<char>) -> (r: bool)
    ensures
        r == is_move_token(t@),
{
    if t.len() == 0 {
        return false;
    }
    // move-number prefix: digits and dots, ending in a dot
    let mut all_digit_dot = true;
    let mut i: usize = 0;
    while i < t.len()
        invariant
            i <= t@.len(),
            all_digit_dot <==> (forall|j: int|
                0 <= j < i ==> (crate::text::is_digit_char(#[trigger] t@[j]) || t@[j] == '.')),
        decreases t@.len() - i,
    {
        let c = t[i];
        let u = c as u32;
        if !((48 <= u && u <= 57) || c == '.') {
            all_digit_dot = false;
        }
        i = i + 1;
        proof {
            if !all_digit_dot {
            } else {
                assert(forall|j: int|
                    0 <= j < i ==> (crate::text::is_digit_char(#[trigger] t@[j]) || t@[j] == '.'));
            }
        }
    }
    let number = t[t.len() - 1] == '.' && all_digit_dot;
    if number {
        return false;
    }
    // result tokens
    let star = t.len() == 1 && t[0] == '*';
    let white_win = t.len() == 3 && t[0] == '1' && t[1] == '-' && t[2] == '0';
    let black_win = t.len() == 3 && t[0] == '0' && t[1] == '-' && t[2] == '1';
    let draw = t.len() == 7 && t[0] == '1' && t[1] == '/' && t[2] == '2' && t[3] == '-' && t[4]
        == '1' && t[5] == '/' && t[6] == '2';
    proof {
        if star || white_win || black_win || draw {
            assert(is_result_token(t@));
        } else {
            assert(!(t@ =~= seq!['*']));
            assert(!(t@ =~= seq!['1', '-', '0']));
            assert(!(t@ =~= seq!['0', '-', '1']));
            assert(!(t@ =~= seq!['1', '/', '2', '-', '1', '/', '2']));
        }
    }
    !(star || white_win || black_win || draw)
}

/// The record that replaying SAN tokens from `states` yields: each token in
/// turn must parse, resolve against the legal moves of the newest position,
/// and be playable (the game not already over); the resolved move's
/// successor is appended and the game-over status follows the new record.
pub open spec fn spec_replay(
    moves: Seq<Seq<char>>,
    i: int,
    states: Seq<crate::board::BoardStateV>,
    over: Option<crate::gamestate::GameOverState>,
) -> Option<Seq<crate::board::BoardStateV>>
    decreases moves.len() - i,
{
    if i < 0 || i >= moves.len() {
        Some(states)
    } else {
        match crate::notation::spec_parse_san(moves[i]) {
            None => None,
            Some(n) => match crate::notation::spec_resolve(
                n,
                crate::board::spec_legal_moves(states.last()),
            ) {
                None => None,
                Some(mv) => if over is Some {
                    None
                } else {
                    let states2 = states.push(
                        crate::board::spec_apply_move(states.last(), mv),
                    );
                    spec_replay(moves, i + 1, states2, crate::history::spec_game_over_after(states2))
                },
            },
        }
    }
}

impl Board {
    /// Replays a parsed game from the standard start, as [`spec_replay`]
    /// says: each SAN text in turn is parsed, resolved against the position
    /// reached so far, and committed. Fails with the move-not-found error,
    /// wrapping the underlying failure, exactly when a token cannot be
    /// parsed, resolved or played; on success the history exactly mirrors
    /// the replayed game, with the cursor at its tip.
    pub fn try_from_pgn(pgn: &PGN) -> (r: Result<Board, PGNParseError>)
        ensures
            r is Ok <==> spec_replay(
                move_views(pgn.moves@),
                0,
                seq![crate::board::spec_start_state()],
                None,
            ) is Some,
            r is Ok ==> r->Ok_0.wf() && Some(r->Ok_0@.states) == spec_replay(
                move_views(pgn.moves@),
                0,
                seq![crate::board::spec_start_state()],
                None,
            ) && r->Ok_0@.states.len() == pgn.moves@.len() + 1 && r->Ok_0@.cursor
                == r->Ok_0@.states.len() - 1 && !r->Ok_0@.detached,
            r is Err ==> r->Err_0 is MoveNotFound,
    {
        let ghost mvs = move_views(pgn.moves@);
        let mut board = Board::new();
        proof {
            assert(board@.states =~= seq![crate::board::spec_start_state()]);
        }
        let mut i: usize = 0;
        while i < pgn.moves.len()
            invariant
                board.wf(),
                mvs == move_views(pgn.moves@),
                i <= pgn.moves@.len(),
                board@.states.len() == i + 1,
                board@.cursor == i,
                !board@.detached,
                board@.game_over == (if i == 0 {
                    None::<crate::gamestate::GameOverState>
                } else {
                    crate::history::spec_game_over_after(board@.states)
                }),
                spec_replay(mvs, 0, seq![crate::board::spec_start_state()], None) == spec_replay(
                    mvs,
                    i as int,
                    board@.states,
                    board@.game_over,
                ),
            decreases pgn.moves@.len() - i,
        {
            proof {
                assert(pgn.moves@[i as int]@ == mvs[i as int]);
            }
            let notation = match Notation::from_str(pgn.moves[i].as_str()) {
                Ok(n) => n,
                Err(e) => {
                    proof {
                        assert(spec_replay(mvs, i as int, board@.states, board@.game_over)
                            is None);
                    }
                    let mut msg = String::from_str("movetext token could not be parsed: ");
                    let d = e.describe();
                    msg.append(d.as_str());
                    return Err(PGNParseError::MoveNotFound(msg));
                },
            };
            let tip = board.len() - 1;
            let mv = match notation.to_move_with_context(board.get_state_at(tip)) {
                Ok(mv) => mv,
                Err(e) => {
                    proof {
                        assert(spec_replay(mvs, i as int, board@.states, board@.game_over)
                            is None);
                    }
                    let mut msg = String::from_str("movetext token could not be resolved: ");
                    let d = e.describe();
                    msg.append(d.as_str());
                    return Err(PGNParseError::MoveNotFound(msg));
                },
            };
            proof {
                crate::notation::lemma_resolve_in_legal(
                    notation@,
                    crate::board::spec_legal_moves(board@.states.last()),
                    mv,
                );
                crate::board::lemma_legal_move_ok(board@.states.last(), mv);
                assert(mv.to < 64);
            }
            match board.make_move(&mv) {
                Ok(()) => {},
                Err(e) => {
                    proof {
                        assert(board@.game_over is Some);
                        assert(spec_replay(mvs, i as int, board@.states, board@.game_over)
                            is None);
                    }
                    let mut msg = String::from_str("movetext token could not be played: ");
                    let d = e.describe();
                    msg.append(d.as_str());
                    return Err(PGNParseError::MoveNotFound(msg));
                },
            }
            i = i + 1;
        }
        proof {
            assert(spec_replay(mvs, i as int, board@.states, board@.game_over) == Some(
                board@.states,
            ));
        }
        Ok(board)
    }
}

} // verus!
