//! Conversions between board cell indices and the file and rank characters of
//! algebraic notation, and small text helpers shared by the codecs.
//!
//! Cells are indexed 0..64 from the top left of the board as White sees it:
//! index 0 is a8, index 7 is h8, index 56 is a1, index 63 is h1.

use vstd::prelude::*;

verus! {

/// The file letter ('a'..='h') of a cell index.
pub open spec fn spec_file_char(i: int) -> char {
    ((97 + (i % 8)) as u8) as char
}

/// The rank digit ('1'..='8') of a cell index.
pub open spec fn spec_rank_char(i: int) -> char {
    ((56 - (i / 8)) as u8) as char
}

/// The file letter of a cell index: 'a' for the queenside edge through 'h'.
pub fn index_to_file_notation(i: usize) -> (c: char)
    requires
        i < 64,
    ensures
        c == spec_file_char(i as int),
{
    let b: u8 = 97 + (i % 8) as u8;
    b as char
}

/// The rank digit of a cell index: '8' for the top row down to '1'.
pub fn index_to_rank_notation(i: usize) -> (c: char)
    requires
        i < 64,
    ensures
        c == spec_rank_char(i as int),
{
    let b: u8 = 56 - (i / 8) as u8;
    b as char
}

/// The character for one hexadecimal digit.
pub open spec fn hex_char(d: int) -> char {
    if d < 10 {
        ((48 + d) as u8) as char
    } else {
        ((87 + d) as u8) as char
    }
}

/// The hexadecimal rendering of a number, most significant digit first.
pub open spec fn hex_digits(n: int) -> Seq<char>
    decreases n,
{
    if n < 16 {
        seq![hex_char(if n < 0 { 0 } else { n })]
    } else {
        hex_digits(n / 16).push(hex_char(n % 16))
    }
}

/// Appends the hexadecimal rendering of `n`.
fn push_hex(v: &mut Vec<char>, n: u64)
    ensures
        final(v)@ == old(v)@ + hex_digits(n as int),
    decreases n,
{
    if n < 16 {
        let d = n as u8;
        let b: u8 = if d < 10 {
            48 + d
        } else {
            87 + d
        };
        v.push(b as char);
        proof {
            assert(v@ =~= old(v)@ + hex_digits(n as int));
        }
    } else {
        push_hex(v, n / 16);
        let d = (n % 16) as u8;
        let b: u8 = if d < 10 {
            48 + d
        } else {
            87 + d
        };
        v.push(b as char);
        proof {
            assert(v@ =~= old(v)@ + hex_digits(n as int));
        }
    }
}

/// A position or record hash in a human-displayable form: its hexadecimal
/// rendering.
pub fn hash_to_string(hash: u64) -> (r: String)
    ensures
        r@ == hex_digits(hash as int),
{
    let mut v: Vec<char> = Vec::new();
    push_hex(&mut v, hash);
    proof {
        assert(v@ =~= hex_digits(hash as int));
    }
    crate::text::chars_to_string(&v)
}

/// The text of a signed centipawn evaluation: an optional minus sign, the
/// whole pawns, a point, and two centipawn digits.
pub open spec fn spec_eval_text(eval: int) -> Seq<char> {
    let a = if eval < 0 {
        -eval
    } else {
        eval
    };
    (if eval < 0 {
        seq!['-']
    } else {
        Seq::empty()
    }) + crate::text::dec_digits(a / 100) + seq!['.'] + seq![
        crate::text::digit_char((a / 10) % 10),
        crate::text::digit_char(a % 10),
    ]
}

/// Renders a signed centipawn evaluation for display, as
/// [`spec_eval_text`] says.
pub fn eval_to_string(eval: i32) -> (r: String)
    requires
        eval > i32::MIN,
    ensures
        r@ == spec_eval_text(eval as int),
{
    let mut v: Vec<char> = Vec::new();
    let a: i32 = if eval < 0 {
        v.push('-');
        -eval
    } else {
        eval
    };
    crate::text::push_dec(&mut v, (a / 100) as u64);
    v.push('.');
    let b1: u8 = 48 + ((a / 10) % 10) as u8;
    v.push(b1 as char);
    let b2: u8 = 48 + (a % 10) as u8;
    v.push(b2 as char);
    proof {
        assert(v@ =~= spec_eval_text(eval as int));
    }
    crate::text::chars_to_string(&v)
}

} // verus!
