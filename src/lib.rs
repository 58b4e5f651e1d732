//! A lexer and a precedence-climbing parser for a small statement language
//! of identifiers, integer literals, prefix `+`/`-`, the infix operators
//! `+ - * / =` and the statement separator `;`.
//!
//! The lexer and every parsing function are specified against the grammar in
//! [`grammar`], over the token stream that [`lexer::lex`] gives for a source.

pub mod ast;
pub mod grammar;
pub mod laws;
pub mod lexer;
pub mod parser;
pub mod token;

pub use ast::{BinaryExpression, Expression, Identifier, Number, Operator, Program, UnaryExpression};
pub use lexer::{LexError, Lexer};
pub use parser::{Parse, ParseError, Parser};
pub use token::Token;
