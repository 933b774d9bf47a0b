//! A lexer for a small C-like language.
//!
//! [`tokenize`] turns a buffer of UTF-8 bytes into tokens, each with its
//! kind, its exact text and the place where it starts, and stops at the
//! first problem; [`tokenize_lenient`] goes on and lists every problem. A
//! text that is close to a keyword or an operator is reported with the words
//! it may have been meant to be.
//!
//! The modules, from the bottom up:
//! - [`text`]: decoding the buffer, building owned text;
//! - [`chars`]: classes of characters and runs of them;
//! - [`position`]: lines and columns;
//! - [`token`], [`error`]: what is handed out;
//! - [`vocabulary`]: the spellings of keywords and operators;
//! - [`rules`]: what each lexical rule accepts, and which rule wins;
//! - [`classify`]: from a rule and its lexeme to the kind of the token;
//! - [`distance`], [`diagnose`]: edit distance and suggestions;
//! - [`scanner`]: one lexeme, then all of them;
//! - [`driver`]: from bytes to tokens;
//! - [`laws`], [`rescan`]: what holds of every scan.
//!
//! Every function states what it computes over a mathematical model: a
//! source is a `Seq<char>`, and each type that is handed out has a view.

pub mod chars;
pub mod classify;
pub mod diagnose;
pub mod distance;
pub mod driver;
pub mod error;
pub mod laws;
pub mod position;
pub mod rescan;
pub mod rules;
pub mod scanner;
pub mod text;
pub mod token;
pub mod vocabulary;

pub use driver::{tokenize, tokenize_lenient};
pub use error::{Diagnostic, Mistake, ParsingError};
pub use position::Position;
pub use scanner::{Lexeme, Scan};
pub use token::{Keywords, Operators, Token, TokenKind};
pub use vocabulary::Vocabulary;
