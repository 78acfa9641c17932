//! The parser: one token of lookahead over the scanner, precedence climbing
//! for operators and recursive descent for conditionals.
//!
//! The spec functions below say what a parse from a position yields: a tree
//! and the position after it, or the first fault. Every parse that succeeds
//! moves forward; the comparisons of positions in them make that visible to
//! the termination check and always hold where they are reached.
use vstd::prelude::*;
use crate::ast::{parse_literal, literal_value, Atom, Expr, Op, Tree};
use crate::lex::{after, lemma_after, span_at, token_at};
use crate::scanner::Scanner;
use crate::text::{chars_of, push_char};
use crate::token::{KeyWord, Span, Token, TokenDebug, TokenKind};

verus! {

/// Whether the parsed program should be traced.
#[derive(Clone, Copy, Debug, PartialEq, Eq, Structural)]
pub enum ParseDebug {
    True,
    False,
}

impl From<bool> for ParseDebug {
    fn from(b: bool) -> (r: ParseDebug)
        ensures
            r == (if b { ParseDebug::True } else { ParseDebug::False }),
    {
        if b {
            ParseDebug::True
        } else {
            ParseDebug::False
        }
    }
}

impl vstd::std_specs::convert::FromSpecImpl<bool> for ParseDebug {
    open spec fn obeys_from_spec() -> bool {
        true
    }

    open spec fn from_spec(b: bool) -> ParseDebug {
        if b {
            ParseDebug::True
        } else {
            ParseDebug::False
        }
    }
}

/// Binding power of a token, from loosest to tightest.
#[derive(Clone, Copy, Debug, PartialEq, Eq, Structural)]
pub enum Precedence {
    Lowest,
    Primary,
    Term,
    Factor,
    Comparison,
    Assignment,
    Unary,
}

impl Precedence {
    pub open spec fn level(self) -> int {
        match self {
            Precedence::Lowest => 0,
            Precedence::Primary => 1,
            Precedence::Term => 2,
            Precedence::Factor => 3,
            Precedence::Comparison => 4,
            Precedence::Assignment => 5,
            Precedence::Unary => 6,
        }
    }

    fn rank(self) -> (r: u8)
        ensures
            r == self.level(),
    {
        match self {
            Precedence::Lowest => 0,
            Precedence::Primary => 1,
            Precedence::Term => 2,
            Precedence::Factor => 3,
            Precedence::Comparison => 4,
            Precedence::Assignment => 5,
            Precedence::Unary => 6,
        }
    }

    /// Whether `self` binds more tightly than `other`.
    pub fn exceeds(self, other: Precedence) -> (r: bool)
        ensures
            r == (self.level() > other.level()),
    {
        self.rank() > other.rank()
    }

    /// The binding power of an operator spelled `t`.
    pub open spec fn spec_of_op(t: Seq<char>) -> Precedence {
        if t.len() == 1 {
            let c = t[0];
            if c == '+' || c == '-' {
                Precedence::Term
            } else if c == '*' || c == '/' {
                Precedence::Factor
            } else if c == '>' || c == '<' {
                Precedence::Comparison
            } else if c == '=' {
                Precedence::Assignment
            } else {
                Precedence::Lowest
            }
        } else if t.len() == 2 && t[1] == '=' && (t[0] == '>' || t[0] == '<' || t[0] == '='
            || t[0] == '!') {
            Precedence::Comparison
        } else {
            Precedence::Lowest
        }
    }

    /// The binding power of a token.
    pub open spec fn spec_of(t: (TokenKind, Seq<char>)) -> Precedence {
        if t.0 == TokenKind::Op {
            Precedence::spec_of_op(t.1)
        } else if t.0 == TokenKind::KeyWord && (t.1 == KeyWord::True.spelling() || t.1
            == KeyWord::False.spelling()) {
            Precedence::Primary
        } else {
            Precedence::Lowest
        }
    }

    pub fn of(token: &Token) -> (r: Precedence)
        ensures
            r == Precedence::spec_of(token@),
    {
        match token {
            Token::Op(text) => {
                let cs = chars_of(text.as_str());
                if cs.len() == 1 {
                    let c = cs[0];
                    if c == '+' || c == '-' {
                        Precedence::Term
                    } else if c == '*' || c == '/' {
                        Precedence::Factor
                    } else if c == '>' || c == '<' {
                        Precedence::Comparison
                    } else if c == '=' {
                        Precedence::Assignment
                    } else {
                        Precedence::Lowest
                    }
                } else if cs.len() == 2 && cs[1] == '=' && (cs[0] == '>' || cs[0] == '<' || cs[0]
                    == '=' || cs[0] == '!') {
                    Precedence::Comparison
                } else {
                    Precedence::Lowest
                }
            },
            Token::KeyWord(text) => match KeyWord::lookup(text.as_str()) {
                Some(KeyWord::True) => Precedence::Primary,
                Some(KeyWord::False) => Precedence::Primary,
                _ => {
                    proof {
                        if text@ == KeyWord::True.spelling() || text@ == KeyWord::False.spelling() {
                            assert(crate::token::is_keyword(text@));
                        }
                    }
                    Precedence::Lowest
                },
            },
            _ => Precedence::Lowest,
        }
    }
}

impl Op {
    /// The operator a token stands for, if it is one of the six.
    pub open spec fn spec_of_token(t: (TokenKind, Seq<char>)) -> Option<Op> {
        if t.0 == TokenKind::Op {
            Op::spec_from_text(t.1)
        } else {
            None
        }
    }

    pub fn of_token(token: &Token) -> (r: Option<Op>)
        ensures
            r == Op::spec_of_token(token@),
    {
        match token {
            Token::Op(text) => Op::from_text(text.as_str()),
            _ => None,
        }
    }
}

/// The first syntax error of a parse.
#[derive(Debug)]
pub enum ParseError {
    /// A token that cannot start an expression, and its span.
    BadToken(Token, Span),
    /// The token that was required, the token found instead, and its span.
    Expected(Token, Token, Span),
    /// An integer literal that is not an `i32`, and its span.
    BadNumber(Token, Span),
}

/// The model of a `ParseError`.
pub enum Fault {
    BadToken((TokenKind, Seq<char>), Span),
    Expected((TokenKind, Seq<char>), (TokenKind, Seq<char>), Span),
    BadNumber((TokenKind, Seq<char>), Span),
}

impl ParseError {
    pub open spec fn view(&self) -> Fault {
        match self {
            ParseError::BadToken(t, s) => Fault::BadToken(t@, *s),
            ParseError::Expected(e, t, s) => Fault::Expected(e@, t@, *s),
            ParseError::BadNumber(t, s) => Fault::BadNumber(t@, *s),
        }
    }
}

pub open spec fn op_token(c: char) -> (TokenKind, Seq<char>) {
    (TokenKind::Op, seq![c])
}

pub open spec fn keyword_token(k: KeyWord) -> (TokenKind, Seq<char>) {
    (TokenKind::KeyWord, k.spelling())
}

/// The fault for a missing `expected` where the token scanned from `p` stands.
pub open spec fn expected_at(s: Seq<char>, p: int, expected: (TokenKind, Seq<char>)) -> Fault {
    Fault::Expected(expected, token_at(s, p), span_at(s, p))
}

/// An expression from `p` whose operators bind more tightly than `min`.
pub open spec fn parse_expr(s: Seq<char>, p: int, min: Precedence) -> Result<(Tree, int), Fault>
    decreases s.len() - p, 1int,
{
    let t = token_at(s, p);
    let q = after(s, p);
    if p < q && q <= s.len() {
        if t.0 == TokenKind::Int {
            match literal_value(t.1) {
                Some(v) => parse_infix(s, q, min, Tree::Int(v)),
                None => Err(Fault::BadNumber(t, span_at(s, p))),
            }
        } else if t.0 == TokenKind::Id {
            parse_infix(s, q, min, Tree::Id(t.1))
        } else if t == op_token('(') {
            match parse_expr(s, q, Precedence::Lowest) {
                Ok((e, r)) => {
                    let r2 = after(s, r);
                    if p <= r2 && r2 <= s.len() {
                        parse_infix(s, r2, min, e)
                    } else {
                        Ok((e, r2))
                    }
                },
                Err(f) => Err(f),
            }
        } else if t == op_token('-') {
            match parse_expr(s, q, Precedence::Unary) {
                Ok((e, r)) => if p <= r && r <= s.len() {
                    parse_infix(s, r, min, Tree::Unary(Op::Minus, Box::new(e)))
                } else {
                    Ok((e, r))
                },
                Err(f) => Err(f),
            }
        } else {
            Err(Fault::BadToken(t, span_at(s, p)))
        }
    } else {
        Err(Fault::BadToken(t, span_at(s, p)))
    }
}

/// The operators from `p` on that extend `lhs`, while they bind more tightly than `min`.
pub open spec fn parse_infix(s: Seq<char>, p: int, min: Precedence, lhs: Tree) -> Result<
    (Tree, int),
    Fault,
>
    decreases s.len() - p, 0int,
{
    let t = token_at(s, p);
    let q = after(s, p);
    let bp = Precedence::spec_of(t);
    match Op::spec_of_token(t) {
        Some(op) => if bp.level() > min.level() && p < q && q <= s.len() {
            match parse_expr(s, q, bp) {
                Ok((rhs, r)) => if p < r && r <= s.len() {
                    parse_infix(s, r, min, Tree::Binary(op, Box::new(lhs), Box::new(rhs)))
                } else {
                    Ok((lhs, r))
                },
                Err(f) => Err(f),
            }
        } else {
            Ok((lhs, p))
        },
        None => Ok((lhs, p)),
    }
}

/// One program unit from `p`: a conditional or an expression.
pub open spec fn parse_unit(s: Seq<char>, p: int) -> Result<(Tree, int), Fault>
    decreases s.len() - p, 2int,
{
    let q = after(s, p);
    if token_at(s, p) == keyword_token(KeyWord::If) && p < q && q <= s.len() {
        match parse_expr(s, q, Precedence::Lowest) {
            Err(f) => Err(f),
            Ok((c, r1)) => if token_at(s, r1) != op_token('{') {
                Err(expected_at(s, r1, op_token('{')))
            } else {
                let r2 = after(s, r1);
                if p < r2 && r2 <= s.len() {
                    match parse_unit(s, r2) {
                        Err(f) => Err(f),
                        Ok((b, r3)) => if token_at(s, r3) != op_token('}') {
                            Err(expected_at(s, r3, op_token('}')))
                        } else {
                            let r4 = after(s, r3);
                            if token_at(s, r4) == keyword_token(KeyWord::Else) && p < r4 && r4
                                <= s.len() {
                                parse_else(s, r4, c, b)
                            } else {
                                Ok((Tree::If(Box::new(c), Box::new(b)), r4))
                            }
                        },
                    }
                } else {
                    Ok((c, r2))
                }
            },
        }
    } else {
        parse_expr(s, p, Precedence::Lowest)
    }
}

/// The `else` branch at `p` of a conditional with condition `c` and branch `b`.
pub open spec fn parse_else(s: Seq<char>, p: int, c: Tree, b: Tree) -> Result<(Tree, int), Fault>
    decreases s.len() - p, 3int,
{
    let q = after(s, p);
    if p < q && q <= s.len() {
        if token_at(s, q) == keyword_token(KeyWord::If) {
            match parse_unit(s, q) {
                Ok((e, r)) => Ok((Tree::IfElse(Box::new(c), Box::new(b), Box::new(e)), r)),
                Err(f) => Err(f),
            }
        } else if token_at(s, q) != op_token('{') {
            Err(expected_at(s, q, op_token('{')))
        } else {
            let q2 = after(s, q);
            if p < q2 && q2 <= s.len() {
                match parse_unit(s, q2) {
                    Ok((e, r)) => if token_at(s, r) != op_token('}') {
                        Err(expected_at(s, r, op_token('}')))
                    } else {
                        Ok((Tree::IfElse(Box::new(c), Box::new(b), Box::new(e)), after(s, r)))
                    },
                    Err(f) => Err(f),
                }
            } else {
                Ok((c, q2))
            }
        }
    } else {
        Ok((c, q))
    }
}

/// The program units from `p` to the end of the source.
pub open spec fn parse_from(s: Seq<char>, p: int) -> Result<Seq<Tree>, Fault>
    decreases s.len() - p,
{
    if token_at(s, p).0 == TokenKind::Eof {
        Ok(Seq::empty())
    } else {
        match parse_unit(s, p) {
            Err(f) => Err(f),
            Ok((e, r)) => if p < r && r <= s.len() {
                match parse_from(s, r) {
                    Ok(es) => Ok(seq![e] + es),
                    Err(f) => Err(f),
                }
            } else {
                Ok(seq![e])
            },
        }
    }
}

/// What parsing the whole source `s` yields.
pub open spec fn parse_program(s: Seq<char>) -> Result<Seq<Tree>, Fault> {
    parse_from(s, 0)
}

/// The models of the expressions.
pub open spec fn trees(es: Seq<Expr>) -> Seq<Tree> {
    es.map_values(|e: Expr| e.view())
}

/// The model of a parse result.
pub open spec fn outcome(r: &Result<Vec<Expr>, ParseError>) -> Result<Seq<Tree>, Fault> {
    match r {
        Ok(es) => Ok(trees(es@)),
        Err(e) => Err(e.view()),
    }
}

spec fn prepend(done: Seq<Tree>, rest: Result<Seq<Tree>, Fault>) -> Result<Seq<Tree>, Fault> {
    match rest {
        Ok(ts) => Ok(done + ts),
        Err(f) => Err(f),
    }
}

fn op_tok(c: char) -> (r: Token)
    ensures
        r@ == op_token(c),
{
    let mut text = String::new();
    push_char(&mut text, c);
    proof {
        assert(text@ =~= seq![c]);
    }
    Token::Op(text)
}

fn keyword_tok(k: KeyWord) -> (r: Token)
    requires
        k == KeyWord::If || k == KeyWord::Else,
    ensures
        r@ == keyword_token(k),
{
    let mut text = String::new();
    match k {
        KeyWord::If => {
            push_char(&mut text, 'i');
            push_char(&mut text, 'f');
        },
        _ => {
            push_char(&mut text, 'e');
            push_char(&mut text, 'l');
            push_char(&mut text, 's');
            push_char(&mut text, 'e');
        },
    }
    proof {
        assert(text@ =~= k.spelling());
    }
    Token::KeyWord(text)
}

struct Parser {
    lexer: Scanner,
    /// The lookahead token and its span.
    peeked: (Token, Span),
    /// The position from which the lookahead token was scanned.
    at: Ghost<int>,
}

impl Parser {
    spec fn source(&self) -> Seq<char> {
        self.lexer.source()
    }

    spec fn at(&self) -> int {
        self.at@
    }

    spec fn wf(&self) -> bool {
        let s = self.lexer.source();
        &&& self.lexer.wf()
        &&& 0 <= self.at@ <= s.len()
        &&& self.peeked.0@ == token_at(s, self.at@)
        &&& self.peeked.1 == span_at(s, self.at@)
        &&& self.lexer.position() == after(s, self.at@)
    }

    fn new(lexer: Scanner) -> (r: Parser)
        requires
            lexer.wf(),
            lexer.position() == 0,
        ensures
            r.wf(),
            r.source() == lexer.source(),
            r.at() == 0,
    {
        let mut lexer = lexer;
        let first = lexer.next();
        Parser { lexer, peeked: first, at: Ghost(0) }
    }

    /// Consumes the lookahead token and returns it.
    fn advance(&mut self) -> (r: (Token, Span))
        requires
            old(self).wf(),
        ensures
            final(self).wf(),
            final(self).source() == old(self).source(),
            r.0@ == token_at(old(self).source(), old(self).at()),
            r.1 == span_at(old(self).source(), old(self).at()),
            final(self).at() == after(old(self).source(), old(self).at()),
    {
        let ghost s = self.source();
        proof {
            lemma_after(s, self.at@);
        }
        let mut t = self.lexer.next();
        core::mem::swap(&mut self.peeked, &mut t);
        self.at = Ghost(after(s, self.at@));
        t
    }

    fn peek(&self) -> (r: &Token)
        requires
            self.wf(),
        ensures
            r@ == token_at(self.source(), self.at()),
    {
        &self.peeked.0
    }

    fn is_end(&self) -> (r: bool)
        requires
            self.wf(),
        ensures
            r == (token_at(self.source(), self.at()).0 == TokenKind::Eof),
    {
        self.peeked.0.is_eof()
    }

    fn check(&self, expected: &Token) -> (r: bool)
        requires
            self.wf(),
        ensures
            r == (token_at(self.source(), self.at()) == expected@),
    {
        self.peeked.0 == *expected
    }

    /// Consumes the lookahead token if it is `expected`, else fails on it.
    fn consume(&mut self, expected: Token) -> (r: Result<Span, ParseError>)
        requires
            old(self).wf(),
        ensures
            final(self).wf(),
            final(self).source() == old(self).source(),
            ({
                let s = old(self).source();
                let p = old(self).at();
                if token_at(s, p) == expected@ {
                    r == Ok::<Span, ParseError>(span_at(s, p)) && final(self).at() == after(s, p)
                } else {
                    r matches Err(e) && e.view() == expected_at(s, p, expected@)
                        && final(self).at() == p
                }
            }),
    {
        if self.check(&expected) {
            let (_, span) = self.advance();
            Ok(span)
        } else {
            let found = self.peeked.0.duplicate();
            Err(ParseError::Expected(expected, found, self.peeked.1))
        }
    }

    fn expression(&mut self, min: Precedence) -> (r: Result<Expr, ParseError>)
        requires
            old(self).wf(),
        ensures
            final(self).wf(),
            final(self).source() == old(self).source(),
            r is Ok ==> old(self).at() < final(self).at(),
            match parse_expr(old(self).source(), old(self).at(), min) {
                Ok((t, q)) => r matches Ok(e) && e.view() == t && final(self).at() == q,
                Err(f) => r matches Err(e) && e.view() == f,
            },
        decreases old(self).source().len() - old(self).at(), 1int,
    {
        let ghost s = self.source();
        let ghost p = self.at();
        proof {
            lemma_after(s, p);
        }
        let (tok, span) = self.advance();
        let mut lhs = match tok {
            Token::Int(text) => match parse_literal(text.as_str()) {
                Some(v) => Expr::Atom(Atom::Int(v)),
                None => {
                    return Err(ParseError::BadNumber(Token::Int(text), span));
                },
            },
            Token::Id(name) => Expr::Atom(Atom::Id(name)),
            Token::Op(text) => {
                let cs = chars_of(text.as_str());
                if cs.len() == 1 && cs[0] == '(' {
                    proof {
                        assert(text@ =~= seq!['(']);
                    }
                    let inner = match self.expression(Precedence::Lowest) {
                        Ok(e) => e,
                        Err(e) => {
                            return Err(e);
                        },
                    };
                    proof {
                        lemma_after(s, self.at());
                    }
                    self.advance();
                    inner
                } else if cs.len() == 1 && cs[0] == '-' {
                    proof {
                        assert(text@ =~= seq!['-']);
                    }
                    let operand = match self.expression(Precedence::Unary) {
                        Ok(e) => e,
                        Err(e) => {
                            return Err(e);
                        },
                    };
                    Expr::Unary(Op::Minus, Box::new(operand))
                } else {
                    proof {
                        if text@ == seq!['('] || text@ == seq!['-'] {
                            assert(cs@[0] == text@[0]);
                        }
                    }
                    return Err(ParseError::BadToken(Token::Op(text), span));
                }
            },
            other => {
                return Err(ParseError::BadToken(other, span));
            },
        };
        loop
            invariant
                self.wf(),
                self.source() == s,
                s == old(self).source(),
                p == old(self).at(),
                p < self.at(),
                parse_expr(s, p, min) == parse_infix(s, self.at(), min, lhs.view()),
            ensures
                self.wf(),
                self.source() == s,
                p < self.at(),
                parse_expr(s, p, min) == Ok::<(Tree, int), Fault>((lhs.view(), self.at())),
            decreases s.len() - self.at(),
        {
            let bp = Precedence::of(self.peek());
            let op = match Op::of_token(self.peek()) {
                Some(o) => o,
                None => break,
            };
            if !bp.exceeds(min) {
                break;
            }
            proof {
                lemma_after(s, self.at());
            }
            self.advance();
            match self.expression(bp) {
                Ok(rhs) => {
                    lhs = Expr::Binary(op, Box::new(lhs), Box::new(rhs));
                },
                Err(e) => {
                    return Err(e);
                },
            }
        }
        Ok(lhs)
    }

    /// One program unit: a conditional or an expression.
    fn if_statement(&mut self) -> (r: Result<Expr, ParseError>)
        requires
            old(self).wf(),
        ensures
            final(self).wf(),
            final(self).source() == old(self).source(),
            r is Ok ==> old(self).at() < final(self).at(),
            match parse_unit(old(self).source(), old(self).at()) {
                Ok((t, q)) => r matches Ok(e) && e.view() == t && final(self).at() == q,
                Err(f) => r matches Err(e) && e.view() == f,
            },
        decreases old(self).source().len() - old(self).at(), 2int,
    {
        let ghost s = self.source();
        let ghost p = self.at();
        proof {
            lemma_after(s, p);
        }
        if self.check(&keyword_tok(KeyWord::If)) {
            self.advance();
            let condition = match self.expression(Precedence::Lowest) {
                Ok(c) => c,
                Err(e) => {
                    return Err(e);
                },
            };
            proof {
                lemma_after(s, self.at());
            }
            match self.consume(op_tok('{')) {
                Ok(_) => {},
                Err(e) => {
                    return Err(e);
                },
            }
            let branch = match self.if_statement() {
                Ok(b) => b,
                Err(e) => {
                    return Err(e);
                },
            };
            proof {
                lemma_after(s, self.at());
            }
            match self.consume(op_tok('}')) {
                Ok(_) => {},
                Err(e) => {
                    return Err(e);
                },
            }
            if self.check(&keyword_tok(KeyWord::Else)) {
                return self.if_else_statement(condition, branch);
            }
            Ok(Expr::If(Box::new(condition), Box::new(branch)))
        } else {
            self.expression(Precedence::Lowest)
        }
    }

    /// The `else` part of a conditional whose condition and first branch are parsed.
    fn if_else_statement(&mut self, condition: Expr, branch1: Expr) -> (r: Result<Expr, ParseError>)
        requires
            old(self).wf(),
            token_at(old(self).source(), old(self).at()) == keyword_token(KeyWord::Else),
        ensures
            final(self).wf(),
            final(self).source() == old(self).source(),
            r is Ok ==> old(self).at() < final(self).at(),
            match parse_else(old(self).source(), old(self).at(), condition.view(), branch1.view()) {
                Ok((t, q)) => r matches Ok(e) && e.view() == t && final(self).at() == q,
                Err(f) => r matches Err(e) && e.view() == f,
            },
        decreases old(self).source().len() - old(self).at(), 3int,
    {
        let ghost s = self.source();
        let ghost p = self.at();
        proof {
            lemma_after(s, p);
        }
        self.advance();
        proof {
            lemma_after(s, self.at());
        }
        let branch2 = if self.check(&keyword_tok(KeyWord::If)) {
            match self.if_statement() {
                Ok(b) => b,
                Err(e) => {
                    return Err(e);
                },
            }
        } else {
            match self.consume(op_tok('{')) {
                Ok(_) => {},
                Err(e) => {
                    return Err(e);
                },
            }
            let b = match self.if_statement() {
                Ok(b) => b,
                Err(e) => {
                    return Err(e);
                },
            };
            proof {
                lemma_after(s, self.at());
            }
            match self.consume(op_tok('}')) {
                Ok(_) => {},
                Err(e) => {
                    return Err(e);
                },
            }
            b
        };
        Ok(Expr::IfElse(Box::new(condition), Box::new(branch1), Box::new(branch2)))
    }

    /// All program units up to the end of the source, or the first error.
    fn parse(&mut self) -> (r: Result<Vec<Expr>, ParseError>)
        requires
            old(self).wf(),
        ensures
            outcome(&r) == parse_from(old(self).source(), old(self).at()),
    {
        let ghost s = self.source();
        let ghost p = self.at();
        let mut result: Vec<Expr> = Vec::new();
        proof {
            assert(trees(result@) =~= Seq::<Tree>::empty());
            assert(prepend(Seq::empty(), parse_from(s, p)) =~= parse_from(s, p)) by {
                match parse_from(s, p) {
                    Ok(ts) => {
                        assert(Seq::<Tree>::empty() + ts =~= ts);
                    },
                    Err(_) => {},
                }
            }
        }
        loop
            invariant
                self.wf(),
                self.source() == s,
                s == old(self).source(),
                p == old(self).at(),
                parse_from(s, p) == prepend(trees(result@), parse_from(s, self.at())),
            ensures
                parse_from(s, p) == Ok::<Seq<Tree>, Fault>(trees(result@)),
            decreases s.len() - self.at(),
        {
            if self.is_end() {
                proof {
                    assert(trees(result@) + Seq::<Tree>::empty() =~= trees(result@));
                }
                break;
            }
            let ghost at0 = self.at();
            let ghost done = trees(result@);
            let e = match self.if_statement() {
                Ok(e) => e,
                Err(err) => {
                    return Err(err);
                },
            };
            let ghost t = e.view();
            result.push(e);
            proof {
                assert(trees(result@) =~= done.push(t));
                match parse_from(s, self.at()) {
                    Ok(es) => {
                        assert(done + (seq![t] + es) =~= done.push(t) + es);
                    },
                    Err(_) => {},
                }
            }
        }
        Ok(result)
    }
}

/// A character that no token rule accepts, standing where a program unit
/// must start, ends the parse with a `BadToken` fault on it: no tree is
/// returned.
pub proof fn lemma_unknown_char_is_fatal(s: Seq<char>, p: int)
    requires
        0 <= p <= s.len(),
        token_at(s, p).0 == TokenKind::Error,
    ensures
        parse_unit(s, p) == Err::<(Tree, int), Fault>(Fault::BadToken(token_at(s, p), span_at(s, p))),
        parse_from(s, p) == Err::<Seq<Tree>, Fault>(Fault::BadToken(token_at(s, p), span_at(s, p))),
{
    lemma_after(s, p);
    assert(token_at(s, p) != op_token('('));
    assert(token_at(s, p) != op_token('-'));
}

/// Three names joined by two operators: `x o1 y o2 z`, scanned from `q0`,
/// with nothing that extends it after `z`.
pub open spec fn names_and_ops(
    s: Seq<char>,
    q0: int,
    q1: int,
    q2: int,
    q3: int,
    q4: int,
    q5: int,
    o1: Op,
    o2: Op,
) -> bool {
    &&& 0 <= q0 <= s.len()
    &&& q1 == after(s, q0) && q2 == after(s, q1) && q3 == after(s, q2)
    &&& q4 == after(s, q3) && q5 == after(s, q4)
    &&& token_at(s, q0).0 == TokenKind::Id
    &&& token_at(s, q2).0 == TokenKind::Id
    &&& token_at(s, q4).0 == TokenKind::Id
    &&& Op::spec_of_token(token_at(s, q1)) == Some(o1)
    &&& Op::spec_of_token(token_at(s, q3)) == Some(o2)
    &&& Op::spec_of_token(token_at(s, q5)) is None
}

/// Operators of equal binding power group to the left: `x o1 y o2 z`
/// parses as `(o2 (o1 x y) z)`.
pub proof fn lemma_left_associative(
    s: Seq<char>,
    q0: int,
    q1: int,
    q2: int,
    q3: int,
    q4: int,
    q5: int,
    o1: Op,
    o2: Op,
)
    requires
        names_and_ops(s, q0, q1, q2, q3, q4, q5, o1, o2),
        Precedence::spec_of(token_at(s, q1)) == Precedence::spec_of(token_at(s, q3)),
    ensures
        parse_expr(s, q0, Precedence::Lowest) == Ok::<(Tree, int), Fault>((
            Tree::Binary(
                o2,
                Box::new(
                    Tree::Binary(
                        o1,
                        Box::new(Tree::Id(token_at(s, q0).1)),
                        Box::new(Tree::Id(token_at(s, q2).1)),
                    ),
                ),
                Box::new(Tree::Id(token_at(s, q4).1)),
            ),
            q5,
        )),
{
    lemma_after(s, q0);
    lemma_after(s, q1);
    lemma_after(s, q2);
    lemma_after(s, q3);
    lemma_after(s, q4);
    let x = Tree::Id(token_at(s, q0).1);
    let y = Tree::Id(token_at(s, q2).1);
    let z = Tree::Id(token_at(s, q4).1);
    let bp = Precedence::spec_of(token_at(s, q1));
    let xy = Tree::Binary(o1, Box::new(x), Box::new(y));
    let all = Tree::Binary(o2, Box::new(xy), Box::new(z));
    assert(parse_infix(s, q5, bp, z) == Ok::<(Tree, int), Fault>((z, q5)));
    assert(parse_expr(s, q4, bp) == Ok::<(Tree, int), Fault>((z, q5)));
    assert(parse_infix(s, q5, Precedence::Lowest, all) == Ok::<(Tree, int), Fault>((all, q5)));
    assert(parse_infix(s, q3, Precedence::Lowest, xy) == Ok::<(Tree, int), Fault>((all, q5)));
    assert(parse_infix(s, q3, bp, y) == Ok::<(Tree, int), Fault>((y, q3)));
    assert(parse_expr(s, q2, bp) == Ok::<(Tree, int), Fault>((y, q3)));
    assert(parse_infix(s, q1, Precedence::Lowest, x) == Ok::<(Tree, int), Fault>((all, q5)));
}

/// An operator that binds more tightly takes its operands first:
/// `x o1 y o2 z` with `o2` tighter than `o1` parses as `(o1 x (o2 y z))`.
pub proof fn lemma_tighter_binds_first(
    s: Seq<char>,
    q0: int,
    q1: int,
    q2: int,
    q3: int,
    q4: int,
    q5: int,
    o1: Op,
    o2: Op,
)
    requires
        names_and_ops(s, q0, q1, q2, q3, q4, q5, o1, o2),
        Precedence::spec_of(token_at(s, q1)).level() < Precedence::spec_of(token_at(s, q3)).level(),
    ensures
        parse_expr(s, q0, Precedence::Lowest) == Ok::<(Tree, int), Fault>((
            Tree::Binary(
                o1,
                Box::new(Tree::Id(token_at(s, q0).1)),
                Box::new(
                    Tree::Binary(
                        o2,
                        Box::new(Tree::Id(token_at(s, q2).1)),
                        Box::new(Tree::Id(token_at(s, q4).1)),
                    ),
                ),
            ),
            q5,
        )),
{
    lemma_after(s, q0);
    lemma_after(s, q1);
    lemma_after(s, q2);
    lemma_after(s, q3);
    lemma_after(s, q4);
    let x = Tree::Id(token_at(s, q0).1);
    let y = Tree::Id(token_at(s, q2).1);
    let z = Tree::Id(token_at(s, q4).1);
    let bp1 = Precedence::spec_of(token_at(s, q1));
    let bp2 = Precedence::spec_of(token_at(s, q3));
    let yz = Tree::Binary(o2, Box::new(y), Box::new(z));
    let all = Tree::Binary(o1, Box::new(x), Box::new(yz));
    assert(parse_infix(s, q5, bp2, z) == Ok::<(Tree, int), Fault>((z, q5)));
    assert(parse_expr(s, q4, bp2) == Ok::<(Tree, int), Fault>((z, q5)));
    assert(parse_infix(s, q5, bp1, yz) == Ok::<(Tree, int), Fault>((yz, q5)));
    assert(parse_infix(s, q3, bp1, y) == Ok::<(Tree, int), Fault>((yz, q5)));
    assert(parse_expr(s, q2, bp1) == Ok::<(Tree, int), Fault>((yz, q5)));
    assert(parse_infix(s, q5, Precedence::Lowest, all) == Ok::<(Tree, int), Fault>((all, q5)));
    assert(parse_infix(s, q1, Precedence::Lowest, x) == Ok::<(Tree, int), Fault>((all, q5)));
}

/// Grouping parentheses leave no node: a parenthesized expression goes on
/// as the expression inside it would.
pub proof fn lemma_grouping_is_transparent(s: Seq<char>, p: int, min: Precedence, e: Tree, r: int)
    requires
        0 <= p <= s.len(),
        token_at(s, p) == op_token('('),
        parse_expr(s, after(s, p), Precedence::Lowest) == Ok::<(Tree, int), Fault>((e, r)),
        after(s, p) < r <= s.len(),
    ensures
        parse_expr(s, p, min) == parse_infix(s, after(s, r), min, e),
{
    lemma_after(s, p);
    lemma_after(s, r);
}

/// A leading `-` applies to the operand that follows it.
pub proof fn lemma_unary_minus(s: Seq<char>, p: int, min: Precedence, e: Tree, r: int)
    requires
        0 <= p <= s.len(),
        token_at(s, p) == op_token('-'),
        parse_expr(s, after(s, p), Precedence::Unary) == Ok::<(Tree, int), Fault>((e, r)),
        after(s, p) < r <= s.len(),
    ensures
        parse_expr(s, p, min) == parse_infix(s, r, min, Tree::Unary(Op::Minus, Box::new(e))),
{
    lemma_after(s, p);
}

/// `else if` needs no braces: the conditional after `else` becomes the
/// else branch as it stands.
pub proof fn lemma_else_if_chains(s: Seq<char>, p: int, c: Tree, b: Tree)
    requires
        0 <= p <= s.len(),
        token_at(s, p) == keyword_token(KeyWord::Else),
        token_at(s, after(s, p)) == keyword_token(KeyWord::If),
    ensures
        parse_else(s, p, c, b) == match parse_unit(s, after(s, p)) {
            Ok((e, r)) => Ok((Tree::IfElse(Box::new(c), Box::new(b), Box::new(e)), r)),
            Err(f) => Err(f),
        },
{
    lemma_after(s, p);
}

/// Parses the source into its top-level program units, in order, or returns
/// the first syntax error.
pub fn parse(src: &str) -> (r: Result<Vec<Expr>, ParseError>)
    ensures
        outcome(&r) == parse_program(src@),
{
    let lexer = Scanner::new(src, TokenDebug::False);
    let mut parser = Parser::new(lexer);
    parser.parse()
}

} // verus!
