//! Structured extraction of ANSI/VT100 escape sequences from text.
//!
//! The crate is built in two layers. [`lex::Lexer`] is an allocation-free,
//! predicate-driven cursor over a borrowed string: every value it hands out is
//! a slice of the original input. On top of it, [`ansi`] defines the escape
//! sequence grammar: generic escape sequences, control sequences (CSI), and
//! string runs closed by a standard terminator, together with a one-character
//! lookahead dispatcher over the three shapes.

pub mod ansi;
pub mod error;
pub mod lex;

pub use error::Error;
