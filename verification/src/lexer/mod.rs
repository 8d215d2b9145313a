//! The lexer: source text to tokens with their spans.

pub mod scanner;
pub mod token;

pub use scanner::{Lexer, LexerError};
pub use token::Token;
