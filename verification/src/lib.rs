//! A line-oriented lexer for whitespace-delimited text.
//!
//! Every line that holds anything besides whitespace and a `#` comment is cut
//! into tokens: the first is the statement, the ones after it are its
//! arguments. The statements are handed, line by line and in order, to a
//! handler that the caller supplies. The first line that cannot be read and
//! the first error of the handler end the run.
//!
//! The work is done in four small steps, one module each:
//!
//! - [`class`] sorts characters into whitespace, the comment character and
//!   the rest;
//! - [`span`] finds, among the classes of a line, the ranges that are tokens;
//! - [`token`] cuts the line at these ranges;
//! - [`lexer`] hands the tokens of each line to the handler and decides
//!   whether to go on.

pub mod class;
pub mod span;
pub mod token;
pub mod lexer;

pub use class::{classify, classify_line, CharClass, COMMENT};
pub use span::{scan, Span};
pub use token::tokenize;
pub use lexer::{lex, lex_line, step, Step};
