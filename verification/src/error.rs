//! The failures a parse can end in.

use vstd::prelude::*;

verus! {

/// Why a parse stopped.
#[derive(Debug, Clone, Copy, PartialEq, Eq, Structural)]
pub enum ErrorKind {
    /// The input ended where a value had to begin.
    UnexpectedEof,
    /// A character that cannot begin a value stood where one had to begin.
    UnexpectedCharacter,
    /// `null`, `true` or `false` was misspelled or cut short.
    InvalidLiteral,
    /// A digit was missing in the integer part, after `.` or in the exponent.
    InvalidNumber,
    /// The input ended inside a string.
    UnterminatedString,
    /// The input ended right after a backslash.
    UnterminatedEscape,
    /// A backslash was followed by a character that names no escape.
    InvalidEscape,
    /// `\u` was not followed by four hexadecimal digits that give a scalar value.
    InvalidUnicodeEscape,
    /// An object member did not begin with `"`.
    ExpectedStringKey,
    /// An object key was not followed by `:`.
    ExpectedColon,
    /// An array element was followed by neither `,` nor `]`.
    ExpectedCommaOrCloseBracket,
    /// An object member was followed by neither `,` nor `}`.
    ExpectedCommaOrCloseBrace,
    /// Something other than whitespace followed the top-level value.
    TrailingCharacters,
    /// Arrays and objects were nested deeper than the parser's limit.
    MaxDepthExceeded,
}

/// A failure together with the place of the cursor when it was found,
/// counted in characters from the start of the input.
#[derive(Debug, Clone, Copy, PartialEq, Eq, Structural)]
pub struct ParseError {
    pub kind: ErrorKind,
    pub position: usize,
}

} // verus!
