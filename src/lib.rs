//! Scanner, parser, printer and evaluator for a small dynamically typed
//! expression language.
//!
//! Numbers are exact rationals with 64-bit numerator and denominator;
//! computed results are kept in lowest terms.
pub mod token;
pub mod expr;
pub mod interpreter;
pub mod scanner;
pub mod parser;
pub mod ast_printer;
pub mod lox;

pub use token::{Number, Token, TokenLiteral, TokenType};
pub use lox::Lox;
