//! The meaning of scanning, as spec functions over the characters of the source.
//!
//! Positions are character indices into the source; `byte_offset` turns one
//! into the byte offset that a `Span` carries.
use vstd::prelude::*;
use vstd::utf8::{encode_utf8, encode_scalar};
use crate::token::{
    is_alpha, is_digit, is_ident_char, is_keyword, is_number_char, is_pair_op, is_single_op, is_ws,
    Span, TokenKind,
};

verus! {

/// The first position at or after `i` that is not whitespace (or the end).
pub open spec fn skip_ws(s: Seq<char>, i: int) -> int
    decreases s.len() - i,
{
    if 0 <= i < s.len() && is_ws(s[i]) {
        skip_ws(s, i + 1)
    } else {
        i
    }
}

/// Where a numeric literal whose rest starts at `i` ends.
pub open spec fn number_end(s: Seq<char>, i: int) -> int
    decreases s.len() - i,
{
    if 0 <= i < s.len() && is_number_char(s[i]) {
        number_end(s, i + 1)
    } else {
        i
    }
}

/// Where an identifier whose rest starts at `i` ends.
pub open spec fn ident_end(s: Seq<char>, i: int) -> int
    decreases s.len() - i,
{
    if 0 <= i < s.len() && is_ident_char(s[i]) {
        ident_end(s, i + 1)
    } else {
        i
    }
}

/// Where the token that starts at `i` ends; `s[i]` is not whitespace.
pub open spec fn lexeme_end(s: Seq<char>, i: int) -> int {
    let c = s[i];
    if is_digit(c) {
        number_end(s, i + 1)
    } else if is_alpha(c) {
        ident_end(s, i + 1)
    } else if i + 1 < s.len() && is_pair_op(c, s[i + 1]) {
        i + 2
    } else {
        i + 1
    }
}

/// The kind of token scanned from the text `t` of one token.
pub open spec fn classify(t: Seq<char>) -> TokenKind {
    let c = t[0];
    if is_digit(c) {
        if t.contains('.') {
            TokenKind::Float
        } else {
            TokenKind::Int
        }
    } else if is_alpha(c) {
        if is_keyword(t) {
            TokenKind::KeyWord
        } else {
            TokenKind::Id
        }
    } else if t.len() == 2 || is_single_op(c) {
        TokenKind::Op
    } else {
        TokenKind::Error
    }
}

/// One scan from position `pos`: the token, and the positions where its text
/// starts and ends. Past the last token this is `Eof`, empty, at the end.
pub open spec fn next_lexeme(s: Seq<char>, pos: int) -> ((TokenKind, Seq<char>), int, int) {
    let start = skip_ws(s, pos);
    if start >= s.len() {
        ((TokenKind::Eof, Seq::empty()), s.len() as int, s.len() as int)
    } else {
        let end = lexeme_end(s, start);
        let t = s.subrange(start, end);
        ((classify(t), t), start, end)
    }
}

/// The token scanned from position `pos`.
pub open spec fn token_at(s: Seq<char>, pos: int) -> (TokenKind, Seq<char>) {
    next_lexeme(s, pos).0
}

/// The position after the token scanned from `pos`.
pub open spec fn after(s: Seq<char>, pos: int) -> int {
    next_lexeme(s, pos).2
}

/// The byte offset of character position `i` in the UTF-8 encoding of `s`.
pub open spec fn byte_offset(s: Seq<char>, i: int) -> int {
    encode_utf8(s.take(i)).len() as int
}

/// The byte span of the token scanned from `pos`.
pub open spec fn span_at(s: Seq<char>, pos: int) -> Span {
    Span {
        start: byte_offset(s, next_lexeme(s, pos).1) as usize,
        end: byte_offset(s, next_lexeme(s, pos).2) as usize,
    }
}

pub proof fn lemma_encode_concat(a: Seq<char>, b: Seq<char>)
    ensures
        encode_utf8(a + b) == encode_utf8(a) + encode_utf8(b),
    decreases a.len(),
{
    if a.len() == 0 {
        assert(a + b =~= b);
        assert(encode_utf8(a) + encode_utf8(b) =~= encode_utf8(b));
    } else {
        assert((a + b).drop_first() =~= a.drop_first() + b);
        lemma_encode_concat(a.drop_first(), b);
        assert(encode_utf8(a + b) =~= encode_utf8(a) + encode_utf8(b));
    }
}

/// Stepping over one character adds the length of its encoding.
pub proof fn lemma_byte_offset_step(s: Seq<char>, i: int)
    requires
        0 <= i < s.len(),
    ensures
        byte_offset(s, i + 1) == byte_offset(s, i) + encode_scalar(s[i] as u32).len(),
{
    assert(s.take(i + 1) =~= s.take(i) + seq![s[i]]);
    lemma_encode_concat(s.take(i), seq![s[i]]);
    let one = seq![s[i]];
    assert(one.drop_first() =~= Seq::<char>::empty());
    assert(encode_utf8(one.drop_first()) =~= Seq::<u8>::empty());
    assert(encode_utf8(one) =~= encode_scalar(s[i] as u32));
}

/// Byte offsets grow with the position and stay within the whole encoding.
pub proof fn lemma_byte_offset_bounded(s: Seq<char>, i: int, j: int)
    requires
        0 <= i <= j <= s.len(),
    ensures
        byte_offset(s, i) <= byte_offset(s, j) <= encode_utf8(s).len(),
{
    let sj = s.take(j);
    assert(sj =~= sj.take(i) + sj.skip(i));
    assert(sj.take(i) =~= s.take(i));
    lemma_encode_concat(sj.take(i), sj.skip(i));
    assert(s =~= s.take(j) + s.skip(j));
    lemma_encode_concat(s.take(j), s.skip(j));
}

pub proof fn lemma_skip_ws(s: Seq<char>, i: int)
    requires
        0 <= i,
    ensures
        i <= skip_ws(s, i),
        skip_ws(s, i) < s.len() ==> !is_ws(s[skip_ws(s, i)]),
        i <= s.len() ==> skip_ws(s, i) <= s.len(),
        forall|k: int| i <= k < skip_ws(s, i) ==> is_ws(#[trigger] s[k]),
    decreases s.len() - i,
{
    if 0 <= i < s.len() && is_ws(s[i]) {
        lemma_skip_ws(s, i + 1);
    }
}

pub proof fn lemma_number_end(s: Seq<char>, i: int)
    requires
        0 <= i <= s.len(),
    ensures
        i <= number_end(s, i) <= s.len(),
        forall|k: int| i <= k < number_end(s, i) ==> is_number_char(#[trigger] s[k]),
    decreases s.len() - i,
{
    if i < s.len() && is_number_char(s[i]) {
        lemma_number_end(s, i + 1);
    }
}

pub proof fn lemma_ident_end(s: Seq<char>, i: int)
    requires
        0 <= i <= s.len(),
    ensures
        i <= ident_end(s, i) <= s.len(),
        forall|k: int| i <= k < ident_end(s, i) ==> is_ident_char(#[trigger] s[k]),
    decreases s.len() - i,
{
    if i < s.len() && is_ident_char(s[i]) {
        lemma_ident_end(s, i + 1);
    }
}

/// A scan never moves backwards, stays within the source, and moves forward
/// whenever it yields a token other than `Eof`.
pub proof fn lemma_after(s: Seq<char>, pos: int)
    requires
        0 <= pos <= s.len(),
    ensures
        pos <= next_lexeme(s, pos).1 <= after(s, pos) <= s.len(),
        token_at(s, pos).0 != TokenKind::Eof ==> pos < after(s, pos),
        token_at(s, pos).0 == TokenKind::Eof ==> after(s, pos) == s.len(),
{
    lemma_skip_ws(s, pos);
    let start = skip_ws(s, pos);
    if start < s.len() {
        if is_digit(s[start]) {
            lemma_number_end(s, start + 1);
        } else if is_alpha(s[start]) {
            lemma_ident_end(s, start + 1);
        }
    }
}

} // verus!
