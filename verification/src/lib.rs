//! A lexical analyzer for arithmetic expressions.
//!
//! The tokenizer turns a line of text into a sequence of classified tokens
//! (integers, decimal literals, the operators `+ - * /` and parentheses), or
//! reports the first unrecognized character together with its exact source
//! position. The spec model in [`scan`] defines the intended token sequence
//! mathematically; every executable function is proved against it.

pub mod error;
pub mod laws;
pub mod lexer;
pub mod pos;
pub mod render;
pub mod scan;
pub mod token;

pub use error::Error;
pub use lexer::run;
pub use lexer::scan_fits;
pub use lexer::Lexer;
pub use pos::Position;
pub use scan::LexOutcome;
pub use scan::TokenV;
pub use token::Token;
pub use token::TokenType;
