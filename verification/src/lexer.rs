//! The token grammar of the notation: a command byte, an optional sharp, an
//! optional flat, an optional run of digits and an optional dot.

use vstd::prelude::*;
use vstd::string::StringSliceAdditionalSpecFns;

verus! {

/// The largest number that a token may carry.
pub const MAX_NUMBER: u32 = 0x7fff_ffff;

/// The byte `0`.
pub const DIGIT_0: u8 = 48;

/// The byte `9`.
pub const DIGIT_9: u8 = 57;

/// The byte `A`.
pub const UPPER_A: u8 = 65;

/// The byte `Z`.
pub const UPPER_Z: u8 = 90;

/// How far a lower-case letter lies behind its upper-case letter.
pub const CASE: u8 = 32;

/// The byte `#`, which reads as a sharp.
pub const HASH: u8 = 35;

/// The byte `+`, the sharp.
pub const SHARP: u8 = 43;

/// The byte `-`, the flat.
pub const FLAT: u8 = 45;

/// The byte `.`, the dot.
pub const DOT: u8 = 46;

/// Whether `b` is an ASCII digit.
pub open spec fn is_digit(b: u8) -> bool {
    DIGIT_0 <= b <= DIGIT_9
}

/// `b` with upper-case letters made lower case and `#` read as `+`.
pub open spec fn fold(b: u8) -> u8 {
    if UPPER_A <= b <= UPPER_Z {
        (b + CASE) as u8
    } else if b == HASH {
        SHARP
    } else {
        b
    }
}

/// The end of the run of digits that starts at `i`, within `s[..end]`.
pub open spec fn digits_end(s: Seq<u8>, i: int, end: int) -> int
    decreases end - i,
{
    if 0 <= i < end && i < s.len() && is_digit(s[i]) {
        digits_end(s, i + 1, end)
    } else {
        i
    }
}

/// The number that the digits `s[lo..hi]` spell in base ten.
pub open spec fn decimal(s: Seq<u8>, lo: int, hi: int) -> nat
    decreases hi - lo,
{
    if hi <= lo {
        0
    } else {
        decimal(s, lo, hi - 1) * 10 + (s[hi - 1] - DIGIT_0) as nat
    }
}

/// The numeric field of a token.
#[derive(Clone, Copy, Debug, PartialEq, Eq, Structural)]
pub enum Number {
    /// The token has no digits.
    Absent,
    /// The digits spell this number.
    Value(u32),
    /// The digits spell a number above [`MAX_NUMBER`].
    TooLarge,
}

/// One token of the notation.
#[derive(Clone, Copy, Debug, PartialEq, Eq, Structural)]
pub struct Token {
    /// The offset of the command byte.
    pub start: usize,
    /// The offset behind the token.
    pub end: usize,
    /// The command byte, folded.
    pub head: u8,
    /// Whether a sharp follows the command byte.
    pub sharp: bool,
    /// Whether a flat follows the command byte or the sharp.
    pub flat: bool,
    /// The numeric field.
    pub number: Number,
    /// Whether a dot ends the token.
    pub dotted: bool,
}

/// The numeric field that the digits `s[lo..hi]` make.
pub open spec fn number_of(s: Seq<u8>, lo: int, hi: int) -> Number {
    if hi <= lo {
        Number::Absent
    } else if decimal(s, lo, hi) > MAX_NUMBER {
        Number::TooLarge
    } else {
        Number::Value(decimal(s, lo, hi) as u32)
    }
}

/// The offset behind an optional sharp at `a`.
pub open spec fn after_sharp(s: Seq<u8>, a: int, end: int) -> int {
    if a < end && fold(s[a]) == SHARP {
        a + 1
    } else {
        a
    }
}

/// The offset behind an optional flat at `b`.
pub open spec fn after_flat(s: Seq<u8>, b: int, end: int) -> int {
    if b < end && s[b] == FLAT {
        b + 1
    } else {
        b
    }
}

/// The offset behind an optional dot at `d`.
pub open spec fn after_dot(s: Seq<u8>, d: int, end: int) -> int {
    if d < end && s[d] == DOT {
        d + 1
    } else {
        d
    }
}

/// The offset behind the token that starts at `i`.
pub open spec fn token_end(s: Seq<u8>, i: int, end: int) -> int {
    after_dot(s, digits_end(s, after_flat(s, after_sharp(s, i + 1, end), end), end), end)
}

/// The token that starts at `i`, where `s[i]` is no digit, within `s[..end]`.
pub open spec fn token_at(s: Seq<u8>, i: int, end: int) -> Token {
    let b = after_sharp(s, i + 1, end);
    let c = after_flat(s, b, end);
    let d = digits_end(s, c, end);
    Token {
        start: i as usize,
        end: token_end(s, i, end) as usize,
        head: fold(s[i]),
        sharp: b > i + 1,
        flat: c > b,
        number: number_of(s, c, d),
        dotted: after_dot(s, d, end) > d,
    }
}

/// A run of digits ends at or behind its start, within the text.
pub proof fn lemma_digits_end_bounds(s: Seq<u8>, i: int, end: int)
    requires
        0 <= i <= end <= s.len(),
    ensures
        i <= digits_end(s, i, end) <= end,
    decreases end - i,
{
    if i < end && is_digit(s[i]) {
        lemma_digits_end_bounds(s, i + 1, end);
    }
}

/// A token is not empty and ends within the text.
pub proof fn lemma_token_bounds(s: Seq<u8>, i: int, end: int)
    requires
        0 <= i < end <= s.len(),
    ensures
        i < token_end(s, i, end) <= end,
{
    lemma_digits_end_bounds(s, after_flat(s, after_sharp(s, i + 1, end), end), end);
}

/// The value of a run of digits does not shrink as the run grows.
pub proof fn lemma_decimal_grows(s: Seq<u8>, lo: int, hi: int)
    requires
        0 <= lo <= hi < s.len(),
        is_digit(s[hi]),
    ensures
        decimal(s, lo, hi + 1) >= decimal(s, lo, hi),
{
    assert(decimal(s, lo, hi + 1) == decimal(s, lo, hi) * 10 + (s[hi] - DIGIT_0) as nat);
}

/// Folds one byte.
pub fn fold_byte(b: u8) -> (r: u8)
    ensures
        r == fold(b),
{
    if UPPER_A <= b && b <= UPPER_Z {
        b + CASE
    } else if b == HASH {
        SHARP
    } else {
        b
    }
}

/// Tells whether `b` is an ASCII digit.
pub fn digit(b: u8) -> (r: bool)
    ensures
        r == is_digit(b),
{
    DIGIT_0 <= b && b <= DIGIT_9
}

/// Reads the token that starts at `i`.
pub(crate) fn next_token(bytes: &[u8], i: usize, end: usize) -> (tok: Token)
    requires
        i < end <= bytes@.len(),
    ensures
        tok == token_at(bytes@, i as int, end as int),
        tok.end == token_end(bytes@, i as int, end as int),
        i < tok.end <= end,
{
    let ghost s = bytes@;
    let head = fold_byte(bytes[i]);
    let mut j: usize = i + 1;
    let sharp = j < end && fold_byte(bytes[j]) == SHARP;
    if sharp {
        j = j + 1;
    }
    let flat = j < end && bytes[j] == FLAT;
    if flat {
        j = j + 1;
    }
    let c: usize = j;
    assert(c == after_flat(s, after_sharp(s, i + 1, end as int), end as int));
    let mut value: u32 = 0;
    let mut large = false;
    while j < end && digit(bytes[j])
        invariant
            c <= j <= end <= s.len(),
            s == bytes@,
            digits_end(s, c as int, end as int) == digits_end(s, j as int, end as int),
            !large ==> value == decimal(s, c as int, j as int),
            large ==> decimal(s, c as int, j as int) > MAX_NUMBER,
            value <= MAX_NUMBER,
        decreases end - j,
    {
        proof {
            lemma_decimal_grows(s, c as int, j as int);
        }
        let digit_value: u32 = (bytes[j] - DIGIT_0) as u32;
        if !large {
            let next: u64 = value as u64 * 10 + digit_value as u64;
            if next > MAX_NUMBER as u64 {
                large = true;
            } else {
                value = next as u32;
            }
        }
        j = j + 1;
    }
    let d: usize = j;
    assert(d == digits_end(s, c as int, end as int));
    let number = if d == c {
        Number::Absent
    } else if large {
        Number::TooLarge
    } else {
        Number::Value(value)
    };
    let dotted = j < end && bytes[j] == DOT;
    if dotted {
        j = j + 1;
    }
    Token { start: i, end: j, head, sharp, flat, number, dotted }
}

/// The tokens of `s[i..end]` in order. Digits that belong to no token are passed over.
pub open spec fn tokens_from(s: Seq<u8>, i: int, end: int) -> Seq<Token>
    decreases end - i,
    when 0 <= i && end <= s.len()
    via tokens_decreases
{
    if i >= end {
        Seq::empty()
    } else if is_digit(s[i]) {
        tokens_from(s, i + 1, end)
    } else {
        seq![token_at(s, i, end)] + tokens_from(s, token_end(s, i, end), end)
    }
}

#[via_fn]
proof fn tokens_decreases(s: Seq<u8>, i: int, end: int) {
    if i < end {
        lemma_token_bounds(s, i, end);
    }
}

/// Cuts a text into its tokens.
pub fn tokenize(text: &str) -> (r: Vec<Token>)
    ensures
        r@ == tokens_from(text.spec_bytes(), 0, text.spec_bytes().len() as int),
{
    let bytes = text.as_bytes();
    let ghost s = bytes@;
    let end = bytes.len();
    let mut out: Vec<Token> = Vec::new();
    let mut i: usize = 0;
    assert(out@ + tokens_from(s, 0, end as int) =~= tokens_from(s, 0, end as int));
    while i < end
        invariant
            i <= end,
            end == s.len(),
            s == bytes@,
            tokens_from(s, 0, end as int) == out@ + tokens_from(s, i as int, end as int),
        decreases end - i,
    {
        if digit(bytes[i]) {
            i = i + 1;
        } else {
            let tok = next_token(bytes, i, end);
            let ghost before = out@;
            let ghost rest = tokens_from(s, tok.end as int, end as int);
            out.push(tok);
            assert(before + (seq![tok] + rest) =~= out@ + rest);
            i = tok.end;
        }
    }
    assert(out@ + Seq::<Token>::empty() =~= out@);
    out
}

} // verus!
