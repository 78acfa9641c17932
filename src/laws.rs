//! Laws of the scanner, stated over the spec functions of `lex`.
use vstd::prelude::*;
use crate::lex::{
    after, ident_end, lemma_after, lemma_ident_end, lemma_number_end, lemma_skip_ws,
    next_lexeme, skip_ws, span_at, token_at,
};
use crate::token::{
    is_alpha, is_digit, is_ident_char, is_keyword, is_ws, KeyWord, TokenKind,
};

verus! {

/// `s` with its whitespace characters removed.
pub open spec fn without_ws(s: Seq<char>) -> Seq<char>
    decreases s.len(),
{
    if s.len() == 0 {
        Seq::empty()
    } else if is_ws(s[0]) {
        without_ws(s.drop_first())
    } else {
        seq![s[0]] + without_ws(s.drop_first())
    }
}

/// The texts joined end to end.
pub open spec fn joined(ts: Seq<Seq<char>>) -> Seq<char>
    decreases ts.len(),
{
    if ts.len() == 0 {
        Seq::empty()
    } else {
        ts[0] + joined(ts.drop_first())
    }
}

/// The texts of the tokens that successive scans from `pos` yield before `Eof`.
pub open spec fn lexemes(s: Seq<char>, pos: int) -> Seq<Seq<char>>
    decreases s.len() - pos,
{
    if pos < 0 || pos > s.len() || token_at(s, pos).0 == TokenKind::Eof || after(s, pos) <= pos
        || after(s, pos) > s.len() {
        Seq::empty()
    } else {
        seq![token_at(s, pos).1] + lexemes(s, after(s, pos))
    }
}

/// Once a scan yields `Eof`, the next scan, from where it stopped, yields
/// `Eof` again with the same span and does not move.
pub proof fn lemma_eof_is_final(s: Seq<char>, pos: int)
    requires
        0 <= pos <= s.len(),
        token_at(s, pos).0 == TokenKind::Eof,
    ensures
        token_at(s, after(s, pos)) == token_at(s, pos),
        span_at(s, after(s, pos)) == span_at(s, pos),
        after(s, after(s, pos)) == after(s, pos),
{
    lemma_after(s, pos);
}

proof fn lemma_without_ws_add(a: Seq<char>, b: Seq<char>)
    ensures
        without_ws(a + b) == without_ws(a) + without_ws(b),
    decreases a.len(),
{
    if a.len() == 0 {
        assert(a + b =~= b);
        assert(without_ws(a) + without_ws(b) =~= without_ws(b));
    } else {
        assert((a + b).drop_first() =~= a.drop_first() + b);
        lemma_without_ws_add(a.drop_first(), b);
        assert((a + b)[0] == a[0]);
        if is_ws(a[0]) {
        } else {
            assert(seq![a[0]] + (without_ws(a.drop_first()) + without_ws(b)) =~= (seq![a[0]]
                + without_ws(a.drop_first())) + without_ws(b));
        }
    }
}

proof fn lemma_without_ws_all(s: Seq<char>, keep: bool)
    requires
        forall|k: int| 0 <= k < s.len() ==> is_ws(#[trigger] s[k]) != keep,
    ensures
        without_ws(s) == (if keep { s } else { Seq::empty() }),
    decreases s.len(),
{
    if s.len() > 0 {
        assert(forall|k: int| 0 <= k < s.len() - 1 ==> s.drop_first()[k] == s[k + 1]);
        lemma_without_ws_all(s.drop_first(), keep);
        assert(is_ws(s[0]) != keep);
        if keep {
            assert(seq![s[0]] + s.drop_first() =~= s);
        }
    }
}

/// No character of a token's text is whitespace.
proof fn lemma_lexeme_solid(s: Seq<char>, pos: int)
    requires
        0 <= pos <= s.len(),
        token_at(s, pos).0 != TokenKind::Eof,
    ensures
        forall|k: int|
            next_lexeme(s, pos).1 <= k < after(s, pos) ==> !is_ws(#[trigger] s[k]),
{
    lemma_after(s, pos);
    lemma_skip_ws(s, pos);
    let start = skip_ws(s, pos);
    if is_digit(s[start]) {
        lemma_number_end(s, start + 1);
    } else if is_alpha(s[start]) {
        lemma_ident_end(s, start + 1);
    }
}

proof fn lemma_partition_from(s: Seq<char>, pos: int)
    requires
        0 <= pos <= s.len(),
    ensures
        joined(lexemes(s, pos)) == without_ws(s.skip(pos)),
    decreases s.len() - pos,
{
    lemma_after(s, pos);
    lemma_skip_ws(s, pos);
    let start = skip_ws(s, pos);
    let end = after(s, pos);
    if token_at(s, pos).0 == TokenKind::Eof {
        lemma_without_ws_all(s.skip(pos), false);
        assert(lexemes(s, pos) =~= Seq::<Seq<char>>::empty());
    } else {
        lemma_lexeme_solid(s, pos);
        lemma_partition_from(s, end);
        let gap = s.subrange(pos, start);
        let t = s.subrange(start, end);
        assert(s.skip(pos) =~= gap + (t + s.skip(end)));
        lemma_without_ws_add(gap, t + s.skip(end));
        lemma_without_ws_add(t, s.skip(end));
        lemma_without_ws_all(gap, false);
        lemma_without_ws_all(t, true);
        let ls = lexemes(s, pos);
        assert(ls == seq![t] + lexemes(s, end));
        assert(ls.drop_first() =~= lexemes(s, end));
        assert(without_ws(gap) + (t + without_ws(s.skip(end))) =~= t + without_ws(s.skip(end)));
    }
}

/// The texts of all tokens the scanner yields, joined in order, are the
/// source with its whitespace removed: every other character belongs to
/// exactly one token.
pub proof fn lemma_spans_partition(s: Seq<char>)
    ensures
        joined(lexemes(s, 0)) == without_ws(s),
{
    lemma_partition_from(s, 0);
    assert(s.skip(0) =~= s);
}

/// A token whose text is a reserved word is a `KeyWord`, never an `Id`.
pub proof fn lemma_keyword_wins(s: Seq<char>, pos: int)
    requires
        0 <= pos <= s.len(),
        is_keyword(token_at(s, pos).1),
    ensures
        token_at(s, pos).0 == TokenKind::KeyWord,
{
    let t = token_at(s, pos).1;
    let k = choose|k: KeyWord| k.spelling() == t;
    assert(t.len() > 0);
    assert(is_alpha(t[0]));
}

proof fn lemma_ident_to_end(s: Seq<char>, i: int)
    requires
        0 <= i <= s.len(),
        forall|k: int| i <= k < s.len() ==> is_ident_char(#[trigger] s[k]),
    ensures
        ident_end(s, i) == s.len(),
    decreases s.len() - i,
{
    if i < s.len() {
        lemma_ident_to_end(s, i + 1);
    }
}

/// Scanning a reserved word on its own yields that word as a `KeyWord`.
pub proof fn lemma_keyword_scan(k: KeyWord)
    ensures
        next_lexeme(k.spelling(), 0) == ((TokenKind::KeyWord, k.spelling()), 0int,
            k.spelling().len() as int),
{
    let s = k.spelling();
    assert(forall|i: int| 0 <= i < s.len() ==> is_alpha(#[trigger] s[i]));
    lemma_ident_to_end(s, 1);
    assert(s.subrange(0, s.len() as int) =~= s);
    assert(is_keyword(s));
}

} // verus!
