//! A JSON grammar recognizer with machine-checked contracts.
//!
//! [`JSONValue::from_str`] parses a text as one JSON document and returns its value tree or
//! the first failure. What it returns is stated over [`grammar`], which says what stands at
//! each position of a text. [`syntax`] states the grammar as the set of texts that write a
//! value, and [`laws`] proves that the two agree: the texts that parse are the texts of the
//! grammar, and each parses to the value that it writes.
//!
//! Numbers are held as the decimal literals that denote them, strings as the text between
//! their quotes with escapes kept as written.

pub mod chars;
pub mod error;
pub mod grammar;
pub mod laws;
pub mod parser;
pub mod readings;
pub mod results;
pub mod syntax;
pub mod texts;
pub mod value;
pub mod writings;

pub use error::{ErrorKind, ParseError};
pub use parser::DEFAULT_MAX_DEPTH;
pub use value::{Exponent, Fraction, JSONValue, Number};
