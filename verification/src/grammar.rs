//! What the parser computes, stated over the input as a sequence of
//! characters.
//!
//! Every rule is a function from the input and a cursor position to a
//! [`Scan`]: the outcome, and how far the cursor moves. On failure the cursor
//! rests on the place that was at fault.

use vstd::prelude::*;
use crate::chars::{hex_value, is_digit, is_scalar, is_whitespace};
use crate::error::ErrorKind;
use crate::value::Json;

verus! {

/// The outcome of one rule and the number of characters the cursor moves.
pub struct Scan<T> {
    pub result: Result<T, ErrorKind>,
    pub advance: nat,
}

/// Failure on the spot.
pub open spec fn fail<T>(kind: ErrorKind) -> Scan<T> {
    Scan { result: Err(kind), advance: 0 }
}

/// Success after `advance` characters.
pub open spec fn done<T>(value: T, advance: int) -> Scan<T> {
    Scan { result: Ok(value), advance: advance as nat }
}

/// The same outcome, reached `skipped` characters further on.
pub open spec fn after<T>(skipped: int, scan: Scan<T>) -> Scan<T> {
    Scan { result: scan.result, advance: (skipped + scan.advance) as nat }
}

/// The character under the cursor, if the input has not ended.
pub open spec fn char_at(s: Seq<char>, pos: int) -> Option<char> {
    if 0 <= pos < s.len() {
        Some(s[pos])
    } else {
        None
    }
}

/// `text` stands in `s` at `pos`.
pub open spec fn matches_at(s: Seq<char>, pos: int, text: Seq<char>) -> bool {
    0 <= pos && pos + text.len() <= s.len() && s.subrange(pos, pos + text.len()) == text
}

/// The number of characters from `pos` to the end of the input.
pub open spec fn remaining(s: Seq<char>, pos: int) -> nat {
    if pos <= s.len() {
        (s.len() - pos) as nat
    } else {
        0
    }
}

/// The length of the run of whitespace that starts at `pos`.
pub open spec fn whitespace_len(s: Seq<char>, pos: int) -> nat
    decreases s.len() - pos,
{
    if 0 <= pos < s.len() && is_whitespace(s[pos]) {
        1 + whitespace_len(s, pos + 1)
    } else {
        0
    }
}

/// The way from `pos` over `advance` characters and the whitespace behind
/// them.
pub open spec fn through_whitespace(s: Seq<char>, pos: int, advance: nat) -> nat {
    advance + whitespace_len(s, pos + advance)
}

/// The length of the run of digits that starts at `pos`.
pub open spec fn digits_len(s: Seq<char>, pos: int) -> nat
    decreases s.len() - pos,
{
    if 0 <= pos < s.len() && is_digit(s[pos]) {
        1 + digits_len(s, pos + 1)
    } else {
        0
    }
}

/// A literal at `pos`: `value` if `text` stands there.
pub open spec fn literal_scan(s: Seq<char>, pos: int, text: Seq<char>, value: Json) -> Scan<Json> {
    if matches_at(s, pos, text) {
        done(value, text.len() as int)
    } else {
        fail(ErrorKind::InvalidLiteral)
    }
}

/// The length of the integer part at `pos`: a single `0`, or else the run
/// of digits there. Zero where no digit stands.
pub open spec fn integer_len(s: Seq<char>, pos: int) -> nat {
    if char_at(s, pos) == Some('0') {
        1
    } else {
        digits_len(s, pos)
    }
}

/// The fraction at `pos`, which may be absent: `.` and at least one digit.
pub open spec fn fraction_scan(s: Seq<char>, pos: int) -> Scan<()> {
    if char_at(s, pos) != Some('.') {
        done((), 0)
    } else if digits_len(s, pos + 1) == 0 {
        after(1, fail(ErrorKind::InvalidNumber))
    } else {
        done((), 1 + digits_len(s, pos + 1) as int)
    }
}

/// The place of the exponent's digits, for an exponent whose `e` is at `pos`:
/// behind the sign if there is one.
pub open spec fn exponent_digits_at(s: Seq<char>, pos: int) -> int {
    if char_at(s, pos + 1) == Some('+') || char_at(s, pos + 1) == Some('-') {
        pos + 2
    } else {
        pos + 1
    }
}

/// The exponent at `pos`, which may be absent: `e` or `E`, an optional sign
/// and at least one digit.
pub open spec fn exponent_scan(s: Seq<char>, pos: int) -> Scan<()> {
    let digits_at = exponent_digits_at(s, pos);
    if char_at(s, pos) != Some('e') && char_at(s, pos) != Some('E') {
        done((), 0)
    } else if digits_len(s, digits_at) == 0 {
        after(digits_at - pos, fail(ErrorKind::InvalidNumber))
    } else {
        done((), digits_at + digits_len(s, digits_at) - pos)
    }
}

/// A number at `pos`: an optional `-`, the integer part, an optional
/// fraction, an optional exponent. The value is the numeral itself.
pub open spec fn number_scan(s: Seq<char>, pos: int) -> Scan<Seq<char>> {
    let int_at = if char_at(s, pos) == Some('-') {
        pos + 1
    } else {
        pos
    };
    let frac_at = int_at + integer_len(s, int_at);
    let fraction = fraction_scan(s, frac_at);
    let exp_at = frac_at + fraction.advance;
    let exponent = exponent_scan(s, exp_at);
    let end = exp_at + exponent.advance;
    if integer_len(s, int_at) == 0 {
        after(int_at - pos, fail(ErrorKind::InvalidNumber))
    } else if fraction.result.is_err() {
        after(exp_at - pos, fail(ErrorKind::InvalidNumber))
    } else if exponent.result.is_err() {
        after(end - pos, fail(ErrorKind::InvalidNumber))
    } else {
        done(s.subrange(pos, end), end - pos)
    }
}

/// The character that the four hexadecimal digits at `pos` name, if four
/// stand there and their value is a scalar value. A surrogate is none: each
/// escape is read on its own.
pub open spec fn unicode_escape(s: Seq<char>, pos: int) -> Option<char> {
    if 0 <= pos && pos + 4 <= s.len() {
        match (hex_value(s[pos]), hex_value(s[pos + 1]), hex_value(s[pos + 2]), hex_value(
            s[pos + 3],
        )) {
            (Some(a), Some(b), Some(c), Some(d)) => {
                let code = ((a * 16 + b) * 16 + c) * 16 + d;
                if is_scalar(code) {
                    Some((code as u32) as char)
                } else {
                    None
                }
            },
            _ => None,
        }
    } else {
        None
    }
}

/// The character that the escape at `pos` stands for; `pos` is the place
/// after the backslash.
pub open spec fn escape_scan(s: Seq<char>, pos: int) -> Scan<char> {
    match char_at(s, pos) {
        None => fail(ErrorKind::UnterminatedEscape),
        Some(c) => {
            if c == '"' {
                done('"', 1)
            } else if c == '\\' {
                done('\\', 1)
            } else if c == '/' {
                done('/', 1)
            } else if c == 'b' {
                done('\u{8}', 1)
            } else if c == 'f' {
                done('\u{c}', 1)
            } else if c == 'n' {
                done('\n', 1)
            } else if c == 'r' {
                done('\r', 1)
            } else if c == 't' {
                done('\t', 1)
            } else if c == 'u' {
                match unicode_escape(s, pos + 1) {
                    Some(decoded) => done(decoded, 5),
                    None => after(1, fail(ErrorKind::InvalidUnicodeEscape)),
                }
            } else {
                fail(ErrorKind::InvalidEscape)
            }
        },
    }
}

/// The rest of a string from `pos` on, up to and with the closing quote;
/// `decoded` is what the string has given so far.
pub open spec fn string_body_scan(s: Seq<char>, pos: int, decoded: Seq<char>) -> Scan<Seq<char>>
    decreases s.len() - pos,
{
    match char_at(s, pos) {
        None => fail(ErrorKind::UnterminatedString),
        Some(c) => {
            if c == '"' {
                done(decoded, 1)
            } else if c == '\\' {
                let escape = escape_scan(s, pos + 1);
                match escape.result {
                    Err(kind) => after(1 + escape.advance as int, fail(kind)),
                    Ok(ch) => after(
                        1 + escape.advance as int,
                        string_body_scan(s, pos + 1 + escape.advance, decoded.push(ch)),
                    ),
                }
            } else {
                after(1, string_body_scan(s, pos + 1, decoded.push(c)))
            }
        },
    }
}

/// A string whose opening quote is at `pos`: its decoded text.
pub open spec fn string_scan(s: Seq<char>, pos: int) -> Scan<Seq<char>> {
    after(1, string_body_scan(s, pos + 1, Seq::empty()))
}

/// Turns a scan of text into a scan of the value that holds the text.
pub open spec fn as_number(scan: Scan<Seq<char>>) -> Scan<Json> {
    Scan {
        result: match scan.result {
            Ok(text) => Ok(Json::Number(text)),
            Err(kind) => Err(kind),
        },
        advance: scan.advance,
    }
}

/// Turns a scan of text into a scan of the string value that holds the text.
pub open spec fn as_string(scan: Scan<Seq<char>>) -> Scan<Json> {
    Scan {
        result: match scan.result {
            Ok(text) => Ok(Json::String(text)),
            Err(kind) => Err(kind),
        },
        advance: scan.advance,
    }
}

/// The sub-rule that the character `c` at a value position selects, applied
/// at `pos`, where `c` stands. `depth` is the number of arrays and objects
/// that may still be opened.
pub open spec fn dispatch_scan(s: Seq<char>, pos: int, depth: nat, c: char) -> Scan<Json>
    decreases depth, 0nat, 0nat,
{
    if c == 'n' {
        literal_scan(s, pos, "null"@, Json::Null)
    } else if c == 't' {
        literal_scan(s, pos, "true"@, Json::Boolean(true))
    } else if c == 'f' {
        literal_scan(s, pos, "false"@, Json::Boolean(false))
    } else if c == '"' {
        as_string(string_scan(s, pos))
    } else if c == '[' {
        if depth == 0 {
            fail(ErrorKind::MaxDepthExceeded)
        } else {
            array_scan(s, pos, (depth - 1) as nat)
        }
    } else if c == '{' {
        if depth == 0 {
            fail(ErrorKind::MaxDepthExceeded)
        } else {
            object_scan(s, pos, (depth - 1) as nat)
        }
    } else if c == '-' || is_digit(c) {
        as_number(number_scan(s, pos))
    } else {
        fail(ErrorKind::UnexpectedCharacter)
    }
}

/// A value at `pos`, after any whitespace.
pub open spec fn value_scan(s: Seq<char>, pos: int, depth: nat) -> Scan<Json>
    decreases depth, 0nat, 1nat,
{
    let at = pos + whitespace_len(s, pos);
    match char_at(s, at) {
        None => after(at - pos, fail(ErrorKind::UnexpectedEof)),
        Some(c) => after(at - pos, dispatch_scan(s, at, depth, c)),
    }
}

/// An array whose `[` is at `pos`; its elements may open `depth` more arrays
/// and objects.
pub open spec fn array_scan(s: Seq<char>, pos: int, depth: nat) -> Scan<Json>
    decreases depth, 2nat, 0nat,
{
    let at = pos + 1 + whitespace_len(s, pos + 1);
    if char_at(s, at) == Some(']') {
        done(Json::Array(Seq::empty()), at + 1 - pos)
    } else {
        after(at - pos, elements_scan(s, at, depth, Seq::empty()))
    }
}

/// The elements of an array from `pos` on, up to and with the `]`; `items`
/// are the elements before `pos`.
pub open spec fn elements_scan(s: Seq<char>, pos: int, depth: nat, items: Seq<Json>) -> Scan<Json>
    decreases depth, 1nat, remaining(s, pos),
{
    let element = value_scan(s, pos, depth);
    match element.result {
        Err(kind) => after(element.advance as int, fail(kind)),
        Ok(item) => {
            let sep = pos + through_whitespace(s, pos, element.advance);
            if char_at(s, sep) == Some(',') {
                let next = sep + 1 + whitespace_len(s, sep + 1);
                after(next - pos, elements_scan(s, next, depth, items.push(item)))
            } else if char_at(s, sep) == Some(']') {
                done(Json::Array(items.push(item)), sep + 1 - pos)
            } else {
                after(sep - pos, fail(ErrorKind::ExpectedCommaOrCloseBracket))
            }
        },
    }
}

/// An object whose `{` is at `pos`; its member values may open `depth` more
/// arrays and objects.
pub open spec fn object_scan(s: Seq<char>, pos: int, depth: nat) -> Scan<Json>
    decreases depth, 2nat, 0nat,
{
    let at = pos + 1 + whitespace_len(s, pos + 1);
    if char_at(s, at) == Some('}') {
        done(Json::Object(Map::empty()), at + 1 - pos)
    } else {
        after(at - pos, members_scan(s, at, depth, Map::empty()))
    }
}

/// One member at `pos`, after any whitespace: a string as the key, `:`, and
/// a value.
pub open spec fn member_scan(s: Seq<char>, pos: int, depth: nat) -> Scan<(Seq<char>, Json)>
    decreases depth, 0nat, 2nat,
{
    let key_at = pos + whitespace_len(s, pos);
    let key = string_scan(s, key_at);
    let colon_at = key_at + through_whitespace(s, key_at, key.advance);
    let member = value_scan(s, colon_at + 1, depth);
    if char_at(s, key_at) != Some('"') {
        after(key_at - pos, fail(ErrorKind::ExpectedStringKey))
    } else {
        match key.result {
            Err(kind) => after(key_at + key.advance - pos, fail(kind)),
            Ok(name) => {
                if char_at(s, colon_at) != Some(':') {
                    after(colon_at - pos, fail(ErrorKind::ExpectedColon))
                } else {
                    match member.result {
                        Err(kind) => after(colon_at + 1 + member.advance - pos, fail(kind)),
                        Ok(item) => done((name, item), colon_at + 1 + member.advance - pos),
                    }
                }
            },
        }
    }
}

/// The members of an object from `pos` on, up to and with the `}`;
/// `members` are those before `pos`. A member replaces an earlier one with
/// the same key.
pub open spec fn members_scan(
    s: Seq<char>,
    pos: int,
    depth: nat,
    members: Map<Seq<char>, Json>,
) -> Scan<Json>
    decreases depth, 1nat, remaining(s, pos),
{
    let member = member_scan(s, pos, depth);
    match member.result {
        Err(kind) => after(member.advance as int, fail(kind)),
        Ok(entry) => {
            let sep = pos + through_whitespace(s, pos, member.advance);
            if char_at(s, sep) == Some(',') {
                let next = sep + 1 + whitespace_len(s, sep + 1);
                after(next - pos, members_scan(s, next, depth, members.insert(entry.0, entry.1)))
            } else if char_at(s, sep) == Some('}') {
                done(Json::Object(members.insert(entry.0, entry.1)), sep + 1 - pos)
            } else {
                after(sep - pos, fail(ErrorKind::ExpectedCommaOrCloseBrace))
            }
        },
    }
}

/// A whole input read from `pos`: one value, whitespace around it, and
/// nothing else. `max_depth` is the number of arrays and objects that may be
/// open at once.
pub open spec fn document_scan(s: Seq<char>, pos: int, max_depth: nat) -> Scan<Json> {
    let value = value_scan(s, pos, max_depth);
    match value.result {
        Err(kind) => value,
        Ok(json) => {
            let end = pos + through_whitespace(s, pos, value.advance);
            if end < s.len() {
                after(end - pos, fail(ErrorKind::TrailingCharacters))
            } else {
                done(json, end - pos)
            }
        },
    }
}

/// A run of whitespace ends where no whitespace stands.
pub proof fn lemma_whitespace_run_ends(s: Seq<char>, pos: int)
    ensures
        whitespace_len(s, pos + whitespace_len(s, pos)) == 0,
    decreases s.len() - pos,
{
    if 0 <= pos < s.len() && is_whitespace(s[pos]) {
        lemma_whitespace_run_ends(s, pos + 1);
    }
}

} // verus!
