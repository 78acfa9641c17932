//! Tokens, spans, the reserved words and the character classes of the language.
use vstd::prelude::*;
use vstd::string::StringExecFns;
use crate::text::{chars_of, push_char};

verus! {

/// A half-open byte range `[start, end)` into the source text.
#[derive(Clone, Copy, Debug, PartialEq, Eq, Structural)]
pub struct Span {
    pub start: usize,
    pub end: usize,
}

/// Whether the scanner traces each token it produces.
#[derive(Clone, Copy, Debug, PartialEq, Eq, Structural)]
pub enum TokenDebug {
    True,
    False,
}

impl From<bool> for TokenDebug {
    fn from(b: bool) -> (r: TokenDebug)
        ensures
            r == (if b { TokenDebug::True } else { TokenDebug::False }),
    {
        if b {
            TokenDebug::True
        } else {
            TokenDebug::False
        }
    }
}

impl vstd::std_specs::convert::FromSpecImpl<bool> for TokenDebug {
    open spec fn obeys_from_spec() -> bool {
        true
    }

    open spec fn from_spec(b: bool) -> TokenDebug {
        if b {
            TokenDebug::True
        } else {
            TokenDebug::False
        }
    }
}

/// The variant of a token, without its text.
#[derive(Clone, Copy, Debug, PartialEq, Eq, Structural)]
pub enum TokenKind {
    Id,
    Int,
    Float,
    Str,
    Char,
    Op,
    KeyWord,
    Error,
    Eof,
}

/// A lexical token with the exact text it was scanned from.
#[derive(Clone, Debug)]
pub enum Token {
    Id(String),
    Int(String),
    Float(String),
    String(String),
    Char(String),
    Op(String),
    KeyWord(String),
    Error(String),
    Eof,
}

impl View for Token {
    type V = (TokenKind, Seq<char>);

    open spec fn view(&self) -> (TokenKind, Seq<char>) {
        match self {
            Token::Id(t) => (TokenKind::Id, t@),
            Token::Int(t) => (TokenKind::Int, t@),
            Token::Float(t) => (TokenKind::Float, t@),
            Token::String(t) => (TokenKind::Str, t@),
            Token::Char(t) => (TokenKind::Char, t@),
            Token::Op(t) => (TokenKind::Op, t@),
            Token::KeyWord(t) => (TokenKind::KeyWord, t@),
            Token::Error(t) => (TokenKind::Error, t@),
            Token::Eof => (TokenKind::Eof, Seq::empty()),
        }
    }
}

impl PartialEq for Token {
    fn eq(&self, other: &Token) -> (r: bool)
        ensures
            r == (self@ == other@),
    {
        match (self, other) {
            (Token::Id(a), Token::Id(b)) => a.eq(b),
            (Token::Int(a), Token::Int(b)) => a.eq(b),
            (Token::Float(a), Token::Float(b)) => a.eq(b),
            (Token::String(a), Token::String(b)) => a.eq(b),
            (Token::Char(a), Token::Char(b)) => a.eq(b),
            (Token::Op(a), Token::Op(b)) => a.eq(b),
            (Token::KeyWord(a), Token::KeyWord(b)) => a.eq(b),
            (Token::Error(a), Token::Error(b)) => a.eq(b),
            (Token::Eof, Token::Eof) => true,
            _ => false,
        }
    }
}

impl vstd::std_specs::cmp::PartialEqSpecImpl for Token {
    open spec fn obeys_eq_spec() -> bool {
        true
    }

    open spec fn eq_spec(&self, other: &Token) -> bool {
        self@ == other@
    }
}

impl Token {
    /// The keyword token spelled `name`, if `name` is a reserved word.
    pub fn lookup(name: &str) -> (r: Option<Token>)
        ensures
            r is Some <==> is_keyword(name@),
            r matches Some(t) ==> t@ == (TokenKind::KeyWord, name@),
    {
        let cs = chars_of(name);
        proof {
            assert(cs@.subrange(0, cs@.len() as int) =~= name@);
        }
        if is_keyword_at(&cs, 0, cs.len()) {
            Some(Token::KeyWord(crate::text::text_of(&cs, 0, cs.len())))
        } else {
            None
        }
    }

    pub fn is_eof(&self) -> (r: bool)
        ensures
            r == (self@.0 == TokenKind::Eof),
    {
        match self {
            Token::Eof => true,
            _ => false,
        }
    }

    /// How the token reads in a message: its text; an unknown character as
    /// `unknown token: 'c'`; the end of input as `EOF`.
    pub open spec fn spec_describe(&self) -> Seq<char> {
        match self {
            Token::Error(e) => unknown_prefix() + e@ + seq!['\''],
            Token::Eof => seq!['E', 'O', 'F'],
            _ => self@.1,
        }
    }

    pub fn describe(&self) -> (r: String)
        ensures
            r@ == self.spec_describe(),
    {
        match self {
            Token::Error(e) => {
                let mut out = String::new();
                out.append("unknown token: '");
                out.append(e.as_str());
                push_char(&mut out, '\'');
                proof {
                    reveal_strlit("unknown token: '");
                    assert(out@ =~= self.spec_describe());
                }
                out
            },
            Token::Eof => {
                let mut out = String::new();
                push_char(&mut out, 'E');
                push_char(&mut out, 'O');
                push_char(&mut out, 'F');
                proof {
                    assert(out@ =~= self.spec_describe());
                }
                out
            },
            Token::Id(t) => t.clone(),
            Token::Int(t) => t.clone(),
            Token::Float(t) => t.clone(),
            Token::String(t) => t.clone(),
            Token::Char(t) => t.clone(),
            Token::Op(t) => t.clone(),
            Token::KeyWord(t) => t.clone(),
        }
    }

    /// A copy of this token.
    pub fn duplicate(&self) -> (r: Token)
        ensures
            r@ == self@,
    {
        match self {
            Token::Id(t) => Token::Id(t.clone()),
            Token::Int(t) => Token::Int(t.clone()),
            Token::Float(t) => Token::Float(t.clone()),
            Token::String(t) => Token::String(t.clone()),
            Token::Char(t) => Token::Char(t.clone()),
            Token::Op(t) => Token::Op(t.clone()),
            Token::KeyWord(t) => Token::KeyWord(t.clone()),
            Token::Error(t) => Token::Error(t.clone()),
            Token::Eof => Token::Eof,
        }
    }
}

pub open spec fn unknown_prefix() -> Seq<char> {
    seq!['u', 'n', 'k', 'n', 'o', 'w', 'n', ' ', 't', 'o', 'k', 'e', 'n', ':', ' ', '\'']
}

/// The reserved words of the language.
#[derive(Clone, Copy, Debug, PartialEq, Eq, Structural)]
pub enum KeyWord {
    Fn,
    True,
    False,
    Return,
    Let,
    And,
    Or,
    Not,
    If,
    Else,
}

impl KeyWord {
    /// How the reserved word is spelled.
    pub open spec fn spelling(self) -> Seq<char> {
        match self {
            KeyWord::Fn => seq!['f', 'n'],
            KeyWord::True => seq!['t', 'r', 'u', 'e'],
            KeyWord::False => seq!['f', 'a', 'l', 's', 'e'],
            KeyWord::Return => seq!['r', 'e', 't', 'u', 'r', 'n'],
            KeyWord::Let => seq!['l', 'e', 't'],
            KeyWord::And => seq!['a', 'n', 'd'],
            KeyWord::Or => seq!['o', 'r'],
            KeyWord::Not => seq!['n', 'o', 't'],
            KeyWord::If => seq!['i', 'f'],
            KeyWord::Else => seq!['e', 'l', 's', 'e'],
        }
    }

    /// How the reserved word is spelled.
    pub fn to_text(&self) -> (r: String)
        ensures
            r@ == self.spelling(),
    {
        let mut out = String::new();
        let cs: &str = match self {
            KeyWord::Fn => "fn",
            KeyWord::True => "true",
            KeyWord::False => "false",
            KeyWord::Return => "return",
            KeyWord::Let => "let",
            KeyWord::And => "and",
            KeyWord::Or => "or",
            KeyWord::Not => "not",
            KeyWord::If => "if",
            KeyWord::Else => "else",
        };
        out.append(cs);
        proof {
            reveal_strlit("fn");
            reveal_strlit("true");
            reveal_strlit("false");
            reveal_strlit("return");
            reveal_strlit("let");
            reveal_strlit("and");
            reveal_strlit("or");
            reveal_strlit("not");
            reveal_strlit("if");
            reveal_strlit("else");
            assert(out@ =~= self.spelling());
        }
        out
    }

    /// The reserved word spelled `name`, if there is one.
    pub fn lookup(name: &str) -> (r: Option<KeyWord>)
        ensures
            r is Some <==> is_keyword(name@),
            r matches Some(k) ==> k.spelling() == name@,
    {
        let cs = chars_of(name);
        proof {
            assert(cs@.subrange(0, cs@.len() as int) =~= name@);
        }
        let n = cs.len();
        if n == 2 && cs[0] == 'f' && cs[1] == 'n' {
            proof { assert(name@ =~= KeyWord::Fn.spelling()); }
            Some(KeyWord::Fn)
        } else if n == 4 && cs[0] == 't' && cs[1] == 'r' && cs[2] == 'u' && cs[3] == 'e' {
            proof { assert(name@ =~= KeyWord::True.spelling()); }
            Some(KeyWord::True)
        } else if n == 5 && cs[0] == 'f' && cs[1] == 'a' && cs[2] == 'l' && cs[3] == 's'
            && cs[4] == 'e' {
            proof { assert(name@ =~= KeyWord::False.spelling()); }
            Some(KeyWord::False)
        } else if n == 6 && cs[0] == 'r' && cs[1] == 'e' && cs[2] == 't' && cs[3] == 'u'
            && cs[4] == 'r' && cs[5] == 'n' {
            proof { assert(name@ =~= KeyWord::Return.spelling()); }
            Some(KeyWord::Return)
        } else if n == 3 && cs[0] == 'l' && cs[1] == 'e' && cs[2] == 't' {
            proof { assert(name@ =~= KeyWord::Let.spelling()); }
            Some(KeyWord::Let)
        } else if n == 3 && cs[0] == 'a' && cs[1] == 'n' && cs[2] == 'd' {
            proof { assert(name@ =~= KeyWord::And.spelling()); }
            Some(KeyWord::And)
        } else if n == 2 && cs[0] == 'o' && cs[1] == 'r' {
            proof { assert(name@ =~= KeyWord::Or.spelling()); }
            Some(KeyWord::Or)
        } else if n == 3 && cs[0] == 'n' && cs[1] == 'o' && cs[2] == 't' {
            proof { assert(name@ =~= KeyWord::Not.spelling()); }
            Some(KeyWord::Not)
        } else if n == 2 && cs[0] == 'i' && cs[1] == 'f' {
            proof { assert(name@ =~= KeyWord::If.spelling()); }
            Some(KeyWord::If)
        } else if n == 4 && cs[0] == 'e' && cs[1] == 'l' && cs[2] == 's' && cs[3] == 'e' {
            proof { assert(name@ =~= KeyWord::Else.spelling()); }
            Some(KeyWord::Else)
        } else {
            None
        }
    }
}

/// Whether `t` is one of the reserved words.
pub open spec fn is_keyword(t: Seq<char>) -> bool {
    exists|k: KeyWord| k.spelling() == t
}

/// Whether `s[start..end]` is one of the reserved words.
pub fn is_keyword_at(s: &Vec<char>, start: usize, end: usize) -> (r: bool)
    requires
        start <= end <= s@.len(),
    ensures
        r == is_keyword(s@.subrange(start as int, end as int)),
{
    let t = crate::text::text_of(s, start, end);
    KeyWord::lookup(t.as_str()).is_some()
}

pub open spec fn is_ws(c: char) -> bool {
    c == ' ' || c == '\n'
}

pub open spec fn is_digit(c: char) -> bool {
    '0' <= c <= '9'
}

pub open spec fn is_alpha(c: char) -> bool {
    ('a' <= c <= 'z') || ('A' <= c <= 'Z')
}

/// A character that may continue a numeric literal.
pub open spec fn is_number_char(c: char) -> bool {
    is_digit(c) || c == '_' || c == '.'
}

/// A character that may continue an identifier.
pub open spec fn is_ident_char(c: char) -> bool {
    is_alpha(c) || is_digit(c) || c == '_'
}

/// The characters that form an operator or punctuation token on their own.
pub open spec fn is_single_op(c: char) -> bool {
    c == '!' || c == '>' || c == '<' || c == '+' || c == '-' || c == '*' || c == '/' || c == '='
        || c == ':' || c == ';' || c == ',' || c == '(' || c == ')' || c == '[' || c == ']'
        || c == '{' || c == '}' || c == 'λ'
}

/// The two-character operators `->`, `==`, `>=`, `<=` and `!=`.
pub open spec fn is_pair_op(a: char, b: char) -> bool {
    (a == '-' && b == '>') || (b == '=' && (a == '=' || a == '>' || a == '<' || a == '!'))
}

pub fn ws(c: char) -> (r: bool)
    ensures
        r == is_ws(c),
{
    c == ' ' || c == '\n'
}

pub fn digit(c: char) -> (r: bool)
    ensures
        r == is_digit(c),
{
    '0' <= c && c <= '9'
}

pub fn alpha(c: char) -> (r: bool)
    ensures
        r == is_alpha(c),
{
    ('a' <= c && c <= 'z') || ('A' <= c && c <= 'Z')
}

pub fn number_char(c: char) -> (r: bool)
    ensures
        r == is_number_char(c),
{
    digit(c) || c == '_' || c == '.'
}

pub fn ident_char(c: char) -> (r: bool)
    ensures
        r == is_ident_char(c),
{
    alpha(c) || digit(c) || c == '_'
}

pub fn single_op(c: char) -> (r: bool)
    ensures
        r == is_single_op(c),
{
    c == '!' || c == '>' || c == '<' || c == '+' || c == '-' || c == '*' || c == '/' || c == '='
        || c == ':' || c == ';' || c == ',' || c == '(' || c == ')' || c == '[' || c == ']'
        || c == '{' || c == '}' || c == 'λ'
}

pub fn pair_op(a: char, b: char) -> (r: bool)
    ensures
        r == is_pair_op(a, b),
{
    (a == '-' && b == '>') || (b == '=' && (a == '=' || a == '>' || a == '<' || a == '!'))
}

} // verus!
