//! A strict JSON parser: text in, a tree of values out, or the first error.
//!
//! [`Value::from_str`] parses a whole document. What it returns is stated
//! over the functions of [`grammar`], which say for every input and every
//! place in it what each rule of the grammar yields; [`laws`], [`numeral`]
//! and [`bounds`] prove what follows from them. [`parser::Parser`] is the
//! cursor that does the reading, and [`tokenize()`] cuts an input into tokens
//! without parsing it.
//!
//! Numbers are kept as numerals, the text they were written with.
//! Whitespace is every character with the Unicode property White_Space.
//! Each `\u` escape is read on its own, so a surrogate is an error.

pub mod bounds;
pub mod chars;
pub mod error;
pub mod grammar;
pub mod laws;
pub mod numeral;
pub mod parser;
pub mod tokenize;
pub mod value;

pub use error::{ErrorKind, ParseError};
pub use tokenize::{tokenize, Token, TokenizeError};
pub use value::{Json, Object, Value};
