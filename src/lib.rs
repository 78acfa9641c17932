//! Front end of a small expression language: a scanner that turns source text
//! into tokens with byte spans, and a precedence-climbing parser that turns the
//! tokens into expression trees.
pub mod ast;
pub mod laws;
pub mod lex;
pub mod parser;
pub mod scanner;
pub mod text;
pub mod token;

pub use crate::ast::{Atom, Expr, Op};
pub use crate::parser::{parse, ParseDebug, ParseError, Precedence};
pub use crate::scanner::Scanner;
pub use crate::token::{KeyWord, Span, Token, TokenDebug, TokenKind};
