//! The scanner: a cursor over the characters of the source that yields one
//! token, with its byte span, per call.
use vstd::prelude::*;
use vstd::utf8::{encode_utf8, encode_scalar};
use crate::lex::{
    after, byte_offset, classify, ident_end, lemma_after, lemma_byte_offset_bounded,
    lemma_byte_offset_step, lemma_skip_ws, number_end, skip_ws, span_at, token_at,
};
use crate::text::{chars_of, text_of};
use crate::token::{
    alpha, digit, ident_char, is_alpha, is_digit, is_keyword_at, number_char, pair_op, single_op,
    ws, Span, Token, TokenDebug, TokenKind,
};

verus! {

broadcast use vstd::utf8::char_is_scalar;

/// The number of bytes in the UTF-8 encoding of `c`.
pub fn utf8_width(c: char) -> (r: usize)
    ensures
        r == encode_scalar(c as u32).len(),
        1 <= r <= 4,
{
    let v = c as u32;
    if v <= 0x7F {
        1
    } else if v <= 0x7FF {
        2
    } else if v <= 0xFFFF {
        3
    } else {
        4
    }
}

pub struct Scanner {
    chars: Vec<char>,
    /// Position of the next character to read.
    pos: usize,
    /// Position where the open span starts.
    start: usize,
    /// Byte offsets of `start` and `pos`.
    span: Span,
    token_debug: TokenDebug,
}

impl Scanner {
    /// The characters being scanned.
    pub closed spec fn source(&self) -> Seq<char> {
        self.chars@
    }

    /// The position from which the next token is scanned.
    pub closed spec fn position(&self) -> int {
        self.pos as int
    }

    spec fn inv(&self) -> bool {
        &&& self.start <= self.pos <= self.chars@.len()
        &&& self.span.start == byte_offset(self.chars@, self.start as int)
        &&& self.span.end == byte_offset(self.chars@, self.pos as int)
        &&& encode_utf8(self.chars@).len() <= usize::MAX
        &&& self.chars@.len() <= usize::MAX
    }

    /// Between two tokens: no span is open.
    pub closed spec fn wf(&self) -> bool {
        self.inv() && self.start == self.pos
    }

    pub fn new(src: &str, token_debug: TokenDebug) -> (r: Scanner)
        ensures
            r.wf(),
            r.source() == src@,
            r.position() == 0,
            r.tracing() == token_debug,
    {
        let chars = chars_of(src);
        let bytes = src.as_bytes();
        let total = bytes.len();
        let count = chars.len();
        proof {
            assert(total == encode_utf8(src@).len());
            assert(chars@.take(0) =~= Seq::<char>::empty());
        }
        Scanner { chars, pos: 0, start: 0, span: Span { start: 0, end: 0 }, token_debug }
    }

    pub closed spec fn tracing(&self) -> TokenDebug {
        self.token_debug
    }

    /// Whether each token should be traced.
    pub fn token_debug(&self) -> (r: TokenDebug)
        ensures
            r == self.tracing(),
    {
        self.token_debug
    }

    /// Steps over the next character, widening the open span by its bytes.
    fn advance(&mut self)
        requires
            old(self).inv(),
            old(self).pos < old(self).chars@.len(),
        ensures
            final(self).inv(),
            final(self).chars@ == old(self).chars@,
            final(self).pos == old(self).pos + 1,
            final(self).start == old(self).start,
            final(self).token_debug == old(self).token_debug,
    {
        let ghost s = self.chars@;
        let w = utf8_width(self.chars[self.pos]);
        proof {
            lemma_byte_offset_step(s, self.pos as int);
            lemma_byte_offset_bounded(s, self.pos + 1, s.len() as int);
        }
        self.span.end = self.span.end + w;
        self.pos = self.pos + 1;
    }

    fn peek_char(&self) -> (r: Option<char>)
        requires
            self.inv(),
        ensures
            r == (if self.pos < self.chars@.len() {
                Some(self.chars@[self.pos as int])
            } else {
                None
            }),
    {
        if self.pos < self.chars.len() {
            Some(self.chars[self.pos])
        } else {
            None
        }
    }

    /// Drops the open span: the next one starts here.
    fn reset_span(&mut self)
        requires
            old(self).inv(),
        ensures
            final(self).wf(),
            final(self).chars@ == old(self).chars@,
            final(self).pos == old(self).pos,
            final(self).token_debug == old(self).token_debug,
    {
        self.start = self.pos;
        self.span.start = self.span.end;
    }

    /// Closes the open span and returns it.
    fn span(&mut self) -> (r: Span)
        requires
            old(self).inv(),
        ensures
            final(self).wf(),
            final(self).chars@ == old(self).chars@,
            final(self).pos == old(self).pos,
            final(self).token_debug == old(self).token_debug,
            r == (Span {
                start: byte_offset(old(self).chars@, old(self).start as int) as usize,
                end: byte_offset(old(self).chars@, old(self).pos as int) as usize,
            }),
    {
        let r = self.span;
        self.reset_span();
        r
    }

    /// The text of the open span.
    fn text(&self) -> (r: String)
        requires
            self.inv(),
        ensures
            r@ == self.chars@.subrange(self.start as int, self.pos as int),
    {
        text_of(&self.chars, self.start, self.pos)
    }

    /// Scans the rest of a numeric literal whose first digit is read.
    fn number(&mut self) -> (r: (Token, Span))
        requires
            old(self).inv(),
            old(self).pos == old(self).start + 1,
            is_digit(old(self).chars@[old(self).start as int]),
        ensures
            final(self).wf(),
            final(self).chars@ == old(self).chars@,
            final(self).token_debug == old(self).token_debug,
            final(self).pos == number_end(old(self).chars@, old(self).pos as int),
            r.0@ == ({
                let t = old(self).chars@.subrange(old(self).start as int, final(self).pos as int);
                (classify(t), t)
            }),
            r.1 == (Span {
                start: byte_offset(old(self).chars@, old(self).start as int) as usize,
                end: byte_offset(old(self).chars@, final(self).pos as int) as usize,
            }),
    {
        let ghost s = self.chars@;
        let ghost begin = self.pos as int;
        let mut dot = false;
        proof {
            let t = s.subrange(self.start as int, self.pos as int);
            assert(t[0] == s[self.start as int]);
        }
        loop
            invariant
                self.inv(),
                self.chars@ == s,
                self.start == old(self).start,
                self.token_debug == old(self).token_debug,
                begin <= self.pos,
                number_end(s, begin) == number_end(s, self.pos as int),
                dot == s.subrange(self.start as int, self.pos as int).contains('.'),
            ensures
                self.inv(),
                self.chars@ == s,
                self.start == old(self).start,
                self.token_debug == old(self).token_debug,
                self.pos == number_end(s, begin),
                dot == s.subrange(self.start as int, self.pos as int).contains('.'),
            decreases s.len() - self.pos,
        {
            match self.peek_char() {
                Some(c) => {
                    if !number_char(c) {
                        break;
                    }
                    let ghost before = s.subrange(self.start as int, self.pos as int);
                    self.advance();
                    proof {
                        let now = s.subrange(self.start as int, self.pos as int);
                        assert(now =~= before.push(c));
                        if before.contains('.') {
                            let k = choose|k: int| 0 <= k < before.len() && before[k] == '.';
                            assert(now[k] == '.');
                        }
                        if c == '.' {
                            assert(now[now.len() - 1] == '.');
                        }
                        if now.contains('.') {
                            let k = choose|k: int| 0 <= k < now.len() && now[k] == '.';
                            if k < before.len() {
                                assert(before[k] == '.');
                            }
                        }
                    }
                    if c == '.' {
                        dot = true;
                    }
                },
                None => break,
            }
        }
        let text = self.text();
        let span = self.span();
        proof {
            assert(text@[0] == s[old(self).start as int]);
        }
        if dot {
            (Token::Float(text), span)
        } else {
            (Token::Int(text), span)
        }
    }

    /// Scans the rest of an identifier or reserved word whose first letter is read.
    fn id(&mut self) -> (r: (Token, Span))
        requires
            old(self).inv(),
            old(self).pos == old(self).start + 1,
            is_alpha(old(self).chars@[old(self).start as int]),
        ensures
            final(self).wf(),
            final(self).chars@ == old(self).chars@,
            final(self).token_debug == old(self).token_debug,
            final(self).pos == ident_end(old(self).chars@, old(self).pos as int),
            r.0@ == ({
                let t = old(self).chars@.subrange(old(self).start as int, final(self).pos as int);
                (classify(t), t)
            }),
            r.1 == (Span {
                start: byte_offset(old(self).chars@, old(self).start as int) as usize,
                end: byte_offset(old(self).chars@, final(self).pos as int) as usize,
            }),
    {
        let ghost s = self.chars@;
        let ghost begin = self.pos as int;
        loop
            invariant
                self.inv(),
                self.chars@ == s,
                self.start == old(self).start,
                self.token_debug == old(self).token_debug,
                begin <= self.pos,
                ident_end(s, begin) == ident_end(s, self.pos as int),
            ensures
                self.inv(),
                self.chars@ == s,
                self.start == old(self).start,
                self.token_debug == old(self).token_debug,
                self.pos == ident_end(s, begin),
            decreases s.len() - self.pos,
        {
            match self.peek_char() {
                Some(c) => {
                    if !ident_char(c) {
                        break;
                    }
                    self.advance();
                },
                None => break,
            }
        }
        let keyword = is_keyword_at(&self.chars, self.start, self.pos);
        let text = self.text();
        let span = self.span();
        proof {
            assert(text@[0] == s[old(self).start as int]);
        }
        if keyword {
            (Token::KeyWord(text), span)
        } else {
            (Token::Id(text), span)
        }
    }

    /// Closes the open span as an operator or punctuation token.
    fn op_token(&mut self) -> (r: (Token, Span))
        requires
            old(self).inv(),
        ensures
            final(self).wf(),
            final(self).chars@ == old(self).chars@,
            final(self).token_debug == old(self).token_debug,
            final(self).pos == old(self).pos,
            r.0@ == (TokenKind::Op, old(self).chars@.subrange(
                old(self).start as int,
                old(self).pos as int,
            )),
            r.1 == (Span {
                start: byte_offset(old(self).chars@, old(self).start as int) as usize,
                end: byte_offset(old(self).chars@, old(self).pos as int) as usize,
            }),
    {
        let text = self.text();
        (Token::Op(text), self.span())
    }

    /// Scans the next token. Past the end of the source every call yields `Eof`.
    pub fn next(&mut self) -> (r: (Token, Span))
        requires
            old(self).wf(),
        ensures
            final(self).wf(),
            final(self).source() == old(self).source(),
            final(self).tracing() == old(self).tracing(),
            r.0@ == token_at(old(self).source(), old(self).position()),
            r.1 == span_at(old(self).source(), old(self).position()),
            final(self).position() == after(old(self).source(), old(self).position()),
    {
        let ghost s = self.chars@;
        let ghost begin = self.pos as int;
        proof {
            lemma_skip_ws(s, begin);
        }
        loop
            invariant
                self.inv(),
                self.chars@ == s,
                self.token_debug == old(self).token_debug,
                begin <= self.pos,
                skip_ws(s, begin) == skip_ws(s, self.pos as int),
            ensures
                self.inv(),
                self.chars@ == s,
                self.token_debug == old(self).token_debug,
                self.pos == skip_ws(s, begin),
            decreases s.len() - self.pos,
        {
            match self.peek_char() {
                Some(c) => {
                    if !ws(c) {
                        break;
                    }
                    self.advance();
                },
                None => break,
            }
        }
        self.reset_span();
        proof {
            lemma_after(s, begin);
        }
        match self.peek_char() {
            None => (Token::Eof, self.span()),
            Some(c) => {
                self.advance();
                if digit(c) {
                    self.number()
                } else if alpha(c) {
                    self.id()
                } else {
                    let two = match self.peek_char() {
                        Some(d) => pair_op(c, d),
                        None => false,
                    };
                    if two {
                        self.advance();
                        self.op_token()
                    } else if single_op(c) {
                        self.op_token()
                    } else {
                        let text = self.text();
                        (Token::Error(text), self.span())
                    }
                }
            },
        }
    }
}

} // verus!
