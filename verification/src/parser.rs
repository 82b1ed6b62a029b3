//! The recursive-descent parser: a cursor over the characters of the input.

use vstd::prelude::*;
use crate::bounds::lemma_document_reads_all;
use crate::chars::{hex_digit, is_digit_char, is_whitespace_char};
use crate::error::{ErrorKind, ParseError};
use crate::grammar::{
    after, array_scan, as_number, as_string, char_at, digits_len, document_scan, elements_scan,
    escape_scan, exponent_scan, fraction_scan, lemma_whitespace_run_ends, literal_scan,
    matches_at, member_scan, members_scan, number_scan, object_scan, string_body_scan,
    string_scan, unicode_escape, value_scan, whitespace_len, Scan,
};
use crate::laws::{lemma_document_well_formed, well_formed};
use crate::value::{elements_view, lemma_elements_view_prefix, Json, Object, Value};

verus! {

/// The number of arrays and objects that may be open at once unless the
/// caller chooses another limit.
pub const DEFAULT_MAX_DEPTH: usize = 128;

/// A cursor over the input.
pub struct Parser {
    /// The whole input.
    pub chars: Vec<char>,
    /// The place of the next character to read.
    pub pos: usize,
    /// The number of arrays and objects that may be open at once.
    pub max_depth: usize,
}

/// The characters of `text`, one element each.
pub fn to_chars(text: &str) -> (chars: Vec<char>)
    ensures
        chars@ == text@,
{
    let mut chars: Vec<char> = Vec::new();
    for c in it: text.chars()
        invariant
            chars@ == it.seq().take(it.index() as int),
    {
        chars.push(c);
    }
    chars
}

/// `r` is what `scan` says, for a rule that yields text; an error names the
/// place `end`.
pub open spec fn text_outcome(r: Result<String, ParseError>, scan: Scan<Seq<char>>, end: int) -> bool {
    match r {
        Ok(text) => scan.result == Ok::<Seq<char>, ErrorKind>(text@),
        Err(e) => scan.result == Err::<Seq<char>, ErrorKind>(e.kind) && e.position == end,
    }
}

/// `r` is what `scan` says, for a rule that yields a value; an error names
/// the place `end`.
pub open spec fn value_outcome(r: Result<Value, ParseError>, scan: Scan<Json>, end: int) -> bool {
    match r {
        Ok(value) => scan.result == Ok::<Json, ErrorKind>(value@),
        Err(e) => scan.result == Err::<Json, ErrorKind>(e.kind) && e.position == end,
    }
}

/// `r` is the outcome of parsing the whole of `input` with at most
/// `max_depth` arrays and objects open at once: the value that the grammar
/// gives, or its error with the place where the cursor stopped.
pub open spec fn parses_to(input: Seq<char>, max_depth: nat, r: Result<Value, ParseError>) -> bool {
    let scan = document_scan(input, 0, max_depth);
    value_outcome(r, scan, scan.advance as int)
}

/// `r` is what `scan` says, for a rule that yields a character; an error
/// names the place `end`.
pub open spec fn char_outcome(r: Result<char, ParseError>, scan: Scan<char>, end: int) -> bool {
    match r {
        Ok(c) => scan.result == Ok::<char, ErrorKind>(c),
        Err(e) => scan.result == Err::<char, ErrorKind>(e.kind) && e.position == end,
    }
}

/// `r` is what `scan` says, for a rule that yields nothing; an error names
/// the place `end`.
pub open spec fn unit_outcome(r: Result<(), ParseError>, scan: Scan<()>, end: int) -> bool {
    match r {
        Ok(_) => scan.result.is_ok(),
        Err(e) => scan.result == Err::<(), ErrorKind>(e.kind) && e.position == end,
    }
}

/// `r` is what `scan` says, for the rule that yields a key and a value; an
/// error names the place `end`.
pub open spec fn member_outcome(
    r: Result<(String, Value), ParseError>,
    scan: Scan<(Seq<char>, Json)>,
    end: int,
) -> bool {
    match r {
        Ok(entry) => scan.result == Ok::<(Seq<char>, Json), ErrorKind>((entry.0@, entry.1@)),
        Err(e) => scan.result == Err::<(Seq<char>, Json), ErrorKind>(e.kind) && e.position == end,
    }
}

impl Parser {
    /// The cursor is inside the input or at its end.
    pub open spec fn wf(&self) -> bool {
        self.pos <= self.chars.len()
    }

    /// `self` is `before` with the cursor `advance` characters further on.
    pub open spec fn moved(&self, before: &Parser, advance: int) -> bool {
        &&& self.chars == before.chars
        &&& self.max_depth == before.max_depth
        &&& self.pos == before.pos + advance
    }

    /// A cursor at the start of `input`, with the default depth limit.
    pub fn new(input: &str) -> (p: Parser)
        ensures
            p.chars@ == input@,
            p.pos == 0,
            p.max_depth == DEFAULT_MAX_DEPTH,
            p.wf(),
    {
        Parser { chars: to_chars(input), pos: 0, max_depth: DEFAULT_MAX_DEPTH }
    }

    /// A cursor at the start of `input` that lets at most `max_depth` arrays
    /// and objects be open at once.
    ///
    /// The parser calls itself once for each array or object that is open,
    /// so the limit also bounds the stack it uses.
    pub fn with_max_depth(input: &str, max_depth: usize) -> (p: Parser)
        ensures
            p.chars@ == input@,
            p.pos == 0,
            p.max_depth == max_depth,
            p.wf(),
    {
        Parser { chars: to_chars(input), pos: 0, max_depth }
    }

    /// The character under the cursor, without moving.
    pub fn peek(&self) -> (c: Option<char>)
        ensures
            c == char_at(self.chars@, self.pos as int),
    {
        if self.pos < self.chars.len() {
            Some(self.chars[self.pos])
        } else {
            None
        }
    }

    /// Moves the cursor over the whitespace under it.
    pub fn skip_whitespace(&mut self)
        ensures
            final(self).moved(old(self), whitespace_len(old(self).chars@, old(self).pos as int) as int),
            old(self).wf() ==> final(self).wf(),
    {
        while self.pos < self.chars.len() && is_whitespace_char(self.chars[self.pos])
            invariant
                self.chars == old(self).chars,
                self.max_depth == old(self).max_depth,
                old(self).pos <= self.pos,
                old(self).wf() ==> self.wf(),
                old(self).pos + whitespace_len(old(self).chars@, old(self).pos as int) == self.pos
                    + whitespace_len(self.chars@, self.pos as int),
            decreases self.chars.len() - self.pos,
        {
            self.pos += 1;
        }
    }

    /// Moves the cursor over the digits under it.
    pub fn skip_digits(&mut self)
        ensures
            final(self).moved(old(self), digits_len(old(self).chars@, old(self).pos as int) as int),
            old(self).wf() ==> final(self).wf(),
    {
        while self.pos < self.chars.len() && is_digit_char(self.chars[self.pos])
            invariant
                self.chars == old(self).chars,
                self.max_depth == old(self).max_depth,
                old(self).pos <= self.pos,
                old(self).wf() ==> self.wf(),
                old(self).pos + digits_len(old(self).chars@, old(self).pos as int) == self.pos
                    + digits_len(self.chars@, self.pos as int),
            decreases self.chars.len() - self.pos,
        {
            self.pos += 1;
        }
    }

    /// Moves the cursor over `literal` if it stands under the cursor, and
    /// says whether it did.
    pub fn consume_literal(&mut self, literal: &str) -> (matched: bool)
        ensures
            matched == matches_at(old(self).chars@, old(self).pos as int, literal@),
            final(self).moved(
                old(self),
                if matched {
                    literal@.len() as int
                } else {
                    0
                },
            ),
            old(self).wf() ==> final(self).wf(),
    {
        let wanted = to_chars(literal);
        if self.pos > self.chars.len() || wanted.len() > self.chars.len() - self.pos {
            return false;
        }
        let mut i: usize = 0;
        while i < wanted.len()
            invariant
                i <= wanted.len(),
                self.pos + wanted.len() <= self.chars.len(),
                *self == *old(self),
                wanted@ == literal@,
                forall|j: int| 0 <= j < i ==> self.chars@[self.pos + j] == wanted@[j],
            decreases wanted.len() - i,
        {
            if self.chars[self.pos + i] != wanted[i] {
                proof {
                    let found = self.chars@.subrange(
                        self.pos as int,
                        self.pos + wanted@.len(),
                    );
                    assert(found[i as int] != wanted@[i as int]);
                }
                return false;
            }
            i += 1;
        }
        assert(self.chars@.subrange(self.pos as int, self.pos + wanted@.len()) =~= wanted@);
        self.pos += wanted.len();
        true
    }

    /// Whether `c` is the character under the cursor.
    pub fn peek_is(&self, c: char) -> (b: bool)
        ensures
            b == (char_at(self.chars@, self.pos as int) == Some(c)),
            b ==> self.pos < self.chars.len(),
    {
        self.pos < self.chars.len() && self.chars[self.pos] == c
    }

    /// The characters from `from` up to `to`, as a string.
    pub fn text_between(&self, from: usize, to: usize) -> (text: String)
        requires
            from <= to <= self.chars@.len(),
        ensures
            text@ == self.chars@.subrange(from as int, to as int),
    {
        let mut text = String::new();
        let mut i: usize = from;
        while i < to
            invariant
                from <= i <= to <= self.chars@.len(),
                text@ == self.chars@.subrange(from as int, i as int),
            decreases to - i,
        {
            text.push(self.chars[i]);
            i += 1;
            assert(text@ =~= self.chars@.subrange(from as int, i as int));
        }
        text
    }

    /// Reads a fraction if one begins under the cursor.
    pub fn read_fraction(&mut self) -> (r: Result<(), ParseError>)
        requires
            old(self).wf(),
        ensures
            ({
                let scan = fraction_scan(old(self).chars@, old(self).pos as int);
                &&& final(self).moved(old(self), scan.advance as int)
                &&& unit_outcome(r, scan, final(self).pos as int)
            }),
            final(self).wf(),
    {
        if self.peek_is('.') {
            self.pos += 1;
            let digits_at = self.pos;
            self.skip_digits();
            if self.pos == digits_at {
                return Err(ParseError { kind: ErrorKind::InvalidNumber, position: self.pos });
            }
        }
        Ok(())
    }

    /// Reads an exponent if one begins under the cursor.
    pub fn read_exponent(&mut self) -> (r: Result<(), ParseError>)
        requires
            old(self).wf(),
        ensures
            ({
                let scan = exponent_scan(old(self).chars@, old(self).pos as int);
                &&& final(self).moved(old(self), scan.advance as int)
                &&& unit_outcome(r, scan, final(self).pos as int)
            }),
            final(self).wf(),
    {
        if self.peek_is('e') || self.peek_is('E') {
            self.pos += 1;
            if self.peek_is('+') || self.peek_is('-') {
                self.pos += 1;
            }
            let digits_at = self.pos;
            self.skip_digits();
            if self.pos == digits_at {
                return Err(ParseError { kind: ErrorKind::InvalidNumber, position: self.pos });
            }
        }
        Ok(())
    }

    /// Reads a number and gives the numeral as it stands in the input.
    pub fn read_number(&mut self) -> (r: Result<String, ParseError>)
        requires
            old(self).wf(),
        ensures
            ({
                let scan = number_scan(old(self).chars@, old(self).pos as int);
                &&& final(self).moved(old(self), scan.advance as int)
                &&& text_outcome(r, scan, final(self).pos as int)
            }),
            final(self).wf(),
    {
        let start = self.pos;
        if self.peek_is('-') {
            self.pos += 1;
        }
        if self.peek_is('0') {
            self.pos += 1;
        } else {
            let int_at = self.pos;
            self.skip_digits();
            if self.pos == int_at {
                return Err(ParseError { kind: ErrorKind::InvalidNumber, position: self.pos });
            }
        }
        match self.read_fraction() {
            Ok(_) => {},
            Err(e) => {
                return Err(e);
            },
        }
        match self.read_exponent() {
            Ok(_) => {},
            Err(e) => {
                return Err(e);
            },
        }
        Ok(self.text_between(start, self.pos))
    }

    /// Reads a number.
    pub fn parse_number(&mut self) -> (r: Result<Value, ParseError>)
        requires
            old(self).wf(),
        ensures
            ({
                let scan = as_number(number_scan(old(self).chars@, old(self).pos as int));
                &&& final(self).moved(old(self), scan.advance as int)
                &&& value_outcome(r, scan, final(self).pos as int)
            }),
            final(self).wf(),
    {
        match self.read_number() {
            Ok(text) => Ok(Value::Number(text)),
            Err(e) => Err(e),
        }
    }

    /// Reads the four hexadecimal digits of a `\u` escape and gives the
    /// character they name. The cursor moves only on success.
    pub fn read_unicode_escape(&mut self) -> (r: Result<char, ParseError>)
        requires
            old(self).wf(),
        ensures
            match unicode_escape(old(self).chars@, old(self).pos as int) {
                Some(c) => r == Ok::<char, ParseError>(c) && final(self).moved(old(self), 4),
                None => r == Err::<char, ParseError>(
                    ParseError { kind: ErrorKind::InvalidUnicodeEscape, position: old(self).pos },
                ) && final(self).moved(old(self), 0),
            },
            final(self).wf(),
    {
        let invalid = ParseError { kind: ErrorKind::InvalidUnicodeEscape, position: self.pos };
        if self.chars.len() - self.pos < 4 {
            return Err(invalid);
        }
        let a = hex_digit(self.chars[self.pos]);
        let b = hex_digit(self.chars[self.pos + 1]);
        let c = hex_digit(self.chars[self.pos + 2]);
        let d = hex_digit(self.chars[self.pos + 3]);
        match (a, b, c, d) {
            (Some(a), Some(b), Some(c), Some(d)) => {
                let code: u32 = ((a * 16 + b) * 16 + c) * 16 + d;
                match char::from_u32(code) {
                    Some(decoded) => {
                        self.pos += 4;
                        Ok(decoded)
                    },
                    None => Err(invalid),
                }
            },
            _ => Err(invalid),
        }
    }

    /// Reads what follows a backslash and gives the character it stands for.
    pub fn read_escape(&mut self) -> (r: Result<char, ParseError>)
        requires
            old(self).wf(),
        ensures
            ({
                let scan = escape_scan(old(self).chars@, old(self).pos as int);
                &&& final(self).moved(old(self), scan.advance as int)
                &&& char_outcome(r, scan, final(self).pos as int)
            }),
            final(self).wf(),
    {
        if self.pos >= self.chars.len() {
            return Err(ParseError { kind: ErrorKind::UnterminatedEscape, position: self.pos });
        }
        let c = self.chars[self.pos];
        let decoded = if c == '"' {
            '"'
        } else if c == '\\' {
            '\\'
        } else if c == '/' {
            '/'
        } else if c == 'b' {
            '\u{8}'
        } else if c == 'f' {
            '\u{c}'
        } else if c == 'n' {
            '\n'
        } else if c == 'r' {
            '\r'
        } else if c == 't' {
            '\t'
        } else if c == 'u' {
            self.pos += 1;
            return self.read_unicode_escape();
        } else {
            return Err(ParseError { kind: ErrorKind::InvalidEscape, position: self.pos });
        };
        self.pos += 1;
        Ok(decoded)
    }

    /// Reads a string, from its opening quote to its closing quote, and
    /// gives its text with every escape decoded.
    pub fn read_string(&mut self) -> (r: Result<String, ParseError>)
        requires
            old(self).wf(),
            char_at(old(self).chars@, old(self).pos as int) == Some('"'),
        ensures
            ({
                let scan = string_scan(old(self).chars@, old(self).pos as int);
                &&& final(self).moved(old(self), scan.advance as int)
                &&& text_outcome(r, scan, final(self).pos as int)
            }),
            final(self).wf(),
    {
        self.pos += 1;
        let ghost body_at = self.pos as int;
        let ghost whole = string_body_scan(self.chars@, body_at, Seq::empty());
        let mut text = String::new();
        while self.pos < self.chars.len()
            invariant
                self.chars == old(self).chars,
                self.max_depth == old(self).max_depth,
                self.wf(),
                body_at == old(self).pos + 1,
                body_at <= self.pos,
                whole == string_body_scan(self.chars@, body_at, Seq::empty()),
                whole.result == string_body_scan(self.chars@, self.pos as int, text@).result,
                whole.advance == self.pos - body_at + string_body_scan(
                    self.chars@,
                    self.pos as int,
                    text@,
                ).advance,
            decreases self.chars.len() - self.pos,
        {
            let c = self.chars[self.pos];
            if c == '"' {
                self.pos += 1;
                return Ok(text);
            } else if c == '\\' {
                self.pos += 1;
                match self.read_escape() {
                    Ok(decoded) => {
                        text.push(decoded);
                    },
                    Err(e) => {
                        return Err(e);
                    },
                }
            } else {
                text.push(c);
                self.pos += 1;
            }
        }
        Err(ParseError { kind: ErrorKind::UnterminatedString, position: self.pos })
    }

    /// Reads a string.
    pub fn parse_string(&mut self) -> (r: Result<Value, ParseError>)
        requires
            old(self).wf(),
            char_at(old(self).chars@, old(self).pos as int) == Some('"'),
        ensures
            ({
                let scan = as_string(string_scan(old(self).chars@, old(self).pos as int));
                &&& final(self).moved(old(self), scan.advance as int)
                &&& value_outcome(r, scan, final(self).pos as int)
            }),
            final(self).wf(),
    {
        match self.read_string() {
            Ok(text) => Ok(Value::String(text)),
            Err(e) => Err(e),
        }
    }

    /// Reads `null`.
    pub fn parse_null(&mut self) -> (r: Result<Value, ParseError>)
        ensures
            ({
                let scan = literal_scan(
                    old(self).chars@,
                    old(self).pos as int,
                    "null"@,
                    Json::Null,
                );
                &&& final(self).moved(old(self), scan.advance as int)
                &&& value_outcome(r, scan, final(self).pos as int)
            }),
            old(self).wf() ==> final(self).wf(),
    {
        if self.consume_literal("null") {
            Ok(Value::Null)
        } else {
            Err(ParseError { kind: ErrorKind::InvalidLiteral, position: self.pos })
        }
    }

    /// Reads `true` or `false`.
    pub fn parse_boolean(&mut self) -> (r: Result<Value, ParseError>)
        ensures
            ({
                let s = old(self).chars@;
                let pos = old(self).pos as int;
                let scan = if matches_at(s, pos, "true"@) {
                    literal_scan(s, pos, "true"@, Json::Boolean(true))
                } else {
                    literal_scan(s, pos, "false"@, Json::Boolean(false))
                };
                &&& final(self).moved(old(self), scan.advance as int)
                &&& value_outcome(r, scan, final(self).pos as int)
            }),
            old(self).wf() ==> final(self).wf(),
    {
        if self.consume_literal("true") {
            Ok(Value::Boolean(true))
        } else if self.consume_literal("false") {
            Ok(Value::Boolean(false))
        } else {
            Err(ParseError { kind: ErrorKind::InvalidLiteral, position: self.pos })
        }
    }

    /// Reads one value, after any whitespace. `depth` is the number of
    /// arrays and objects that may still be opened.
    pub fn parse_value(&mut self, depth: usize) -> (r: Result<Value, ParseError>)
        requires
            old(self).wf(),
        ensures
            ({
                let scan = value_scan(old(self).chars@, old(self).pos as int, depth as nat);
                &&& final(self).moved(old(self), scan.advance as int)
                &&& value_outcome(r, scan, final(self).pos as int)
            }),
            final(self).wf(),
        decreases depth, 0nat,
    {
        self.skip_whitespace();
        if self.pos >= self.chars.len() {
            return Err(ParseError { kind: ErrorKind::UnexpectedEof, position: self.pos });
        }
        let c = self.chars[self.pos];
        proof {
            reveal_strlit("true");
            reveal_strlit("false");
            let s = self.chars@;
            let at = self.pos as int;
            if c == 't' && matches_at(s, at, "false"@) {
                assert(s.subrange(at, at + 5)[0] == 'f');
            }
            if c == 'f' && matches_at(s, at, "true"@) {
                assert(s.subrange(at, at + 4)[0] == 't');
            }
        }
        if c == 'n' {
            self.parse_null()
        } else if c == 't' || c == 'f' {
            self.parse_boolean()
        } else if c == '"' {
            self.parse_string()
        } else if c == '[' {
            if depth == 0 {
                Err(ParseError { kind: ErrorKind::MaxDepthExceeded, position: self.pos })
            } else {
                self.parse_array(depth - 1)
            }
        } else if c == '{' {
            if depth == 0 {
                Err(ParseError { kind: ErrorKind::MaxDepthExceeded, position: self.pos })
            } else {
                self.parse_object(depth - 1)
            }
        } else if c == '-' || is_digit_char(c) {
            self.parse_number()
        } else {
            Err(ParseError { kind: ErrorKind::UnexpectedCharacter, position: self.pos })
        }
    }

    /// Reads an array, from `[` to `]`. Its elements may open `depth` more
    /// arrays and objects.
    pub fn parse_array(&mut self, depth: usize) -> (r: Result<Value, ParseError>)
        requires
            old(self).wf(),
            char_at(old(self).chars@, old(self).pos as int) == Some('['),
        ensures
            ({
                let scan = array_scan(old(self).chars@, old(self).pos as int, depth as nat);
                &&& final(self).moved(old(self), scan.advance as int)
                &&& value_outcome(r, scan, final(self).pos as int)
            }),
            final(self).wf(),
        decreases depth, 2nat,
    {
        self.pos += 1;
        self.skip_whitespace();
        let mut elements: Vec<Value> = Vec::new();
        if self.peek_is(']') {
            self.pos += 1;
            return Ok(Value::Array(elements));
        }
        let ghost first_at = self.pos as int;
        let ghost whole = elements_scan(self.chars@, first_at, depth as nat, Seq::empty());
        loop
            invariant
                self.chars == old(self).chars,
                self.max_depth == old(self).max_depth,
                self.wf(),
                old(self).pos < first_at <= self.pos,
                whole == elements_scan(self.chars@, first_at, depth as nat, Seq::empty()),
                array_scan(old(self).chars@, old(self).pos as int, depth as nat) == after(
                    first_at - old(self).pos,
                    whole,
                ),
                ({
                    let here = elements_scan(
                        self.chars@,
                        self.pos as int,
                        depth as nat,
                        elements_view(elements@, elements@.len()),
                    );
                    &&& whole.result == here.result
                    &&& whole.advance == self.pos - first_at + here.advance
                }),
            decreases self.chars.len() - self.pos,
        {
            let ghost before = elements@;
            match self.parse_value(depth) {
                Ok(value) => {
                    elements.push(value);
                },
                Err(e) => {
                    return Err(e);
                },
            }
            proof {
                lemma_elements_view_prefix(before, elements@, before.len());
            }
            self.skip_whitespace();
            if self.peek_is(',') {
                self.pos += 1;
                self.skip_whitespace();
            } else if self.peek_is(']') {
                self.pos += 1;
                return Ok(Value::Array(elements));
            } else {
                return Err(
                    ParseError {
                        kind: ErrorKind::ExpectedCommaOrCloseBracket,
                        position: self.pos,
                    },
                );
            }
        }
    }

    /// Reads one member of an object, after any whitespace: its key, `:`
    /// and its value.
    pub fn parse_member(&mut self, depth: usize) -> (r: Result<(String, Value), ParseError>)
        requires
            old(self).wf(),
        ensures
            ({
                let scan = member_scan(old(self).chars@, old(self).pos as int, depth as nat);
                &&& final(self).moved(old(self), scan.advance as int)
                &&& member_outcome(r, scan, final(self).pos as int)
            }),
            final(self).wf(),
        decreases depth, 1nat,
    {
        self.skip_whitespace();
        if !self.peek_is('"') {
            return Err(ParseError { kind: ErrorKind::ExpectedStringKey, position: self.pos });
        }
        let key = match self.read_string() {
            Ok(text) => text,
            Err(e) => {
                return Err(e);
            },
        };
        self.skip_whitespace();
        if !self.peek_is(':') {
            return Err(ParseError { kind: ErrorKind::ExpectedColon, position: self.pos });
        }
        self.pos += 1;
        match self.parse_value(depth) {
            Ok(value) => Ok((key, value)),
            Err(e) => Err(e),
        }
    }

    /// Reads an object, from `{` to `}`. Its member values may open `depth`
    /// more arrays and objects.
    pub fn parse_object(&mut self, depth: usize) -> (r: Result<Value, ParseError>)
        requires
            old(self).wf(),
            char_at(old(self).chars@, old(self).pos as int) == Some('{'),
        ensures
            ({
                let scan = object_scan(old(self).chars@, old(self).pos as int, depth as nat);
                &&& final(self).moved(old(self), scan.advance as int)
                &&& value_outcome(r, scan, final(self).pos as int)
            }),
            final(self).wf(),
        decreases depth, 2nat,
    {
        self.pos += 1;
        self.skip_whitespace();
        let mut object = Object::new();
        if self.peek_is('}') {
            self.pos += 1;
            return Ok(Value::Object(object));
        }
        let ghost first_at = self.pos as int;
        let ghost whole = members_scan(self.chars@, first_at, depth as nat, Map::empty());
        loop
            invariant
                self.chars == old(self).chars,
                self.max_depth == old(self).max_depth,
                self.wf(),
                old(self).pos < first_at <= self.pos,
                whole == members_scan(self.chars@, first_at, depth as nat, Map::empty()),
                object_scan(old(self).chars@, old(self).pos as int, depth as nat) == after(
                    first_at - old(self).pos,
                    whole,
                ),
                ({
                    let here = members_scan(self.chars@, self.pos as int, depth as nat, object@);
                    &&& whole.result == here.result
                    &&& whole.advance == self.pos - first_at + here.advance
                }),
            decreases self.chars.len() - self.pos,
        {
            match self.parse_member(depth) {
                Ok(entry) => {
                    object.insert(entry.0, entry.1);
                },
                Err(e) => {
                    return Err(e);
                },
            }
            self.skip_whitespace();
            if self.peek_is(',') {
                self.pos += 1;
                self.skip_whitespace();
            } else if self.peek_is('}') {
                self.pos += 1;
                return Ok(Value::Object(object));
            } else {
                return Err(
                    ParseError {
                        kind: ErrorKind::ExpectedCommaOrCloseBrace,
                        position: self.pos,
                    },
                );
            }
        }
    }

    /// Reads a whole document from the cursor on: one value, whitespace
    /// around it, and the end of the input.
    pub fn parse(&mut self) -> (r: Result<Value, ParseError>)
        requires
            old(self).wf(),
        ensures
            ({
                let scan = document_scan(
                    old(self).chars@,
                    old(self).pos as int,
                    old(self).max_depth as nat,
                );
                &&& final(self).moved(old(self), scan.advance as int)
                &&& value_outcome(r, scan, final(self).pos as int)
            }),
            final(self).wf(),
    {
        proof {
            lemma_whitespace_run_ends(self.chars@, self.pos as int);
        }
        self.skip_whitespace();
        let value = match self.parse_value(self.max_depth) {
            Ok(value) => value,
            Err(e) => {
                return Err(e);
            },
        };
        self.skip_whitespace();
        if self.pos < self.chars.len() {
            return Err(ParseError { kind: ErrorKind::TrailingCharacters, position: self.pos });
        }
        Ok(value)
    }
}

impl Value {
    /// Parses `input` as one JSON document, with the default depth limit.
    ///
    /// The result is the value that the grammar gives for the whole of
    /// `input`, and it is well formed; or it is the first error, with a place
    /// inside `input` or at its end.
    pub fn from_str(input: &str) -> (r: Result<Value, ParseError>)
        ensures
            parses_to(input@, DEFAULT_MAX_DEPTH as nat, r),
            match r {
                Ok(value) => well_formed(value@),
                Err(e) => e.position <= input@.len(),
            },
    {
        proof {
            lemma_document_well_formed(input@, DEFAULT_MAX_DEPTH as nat);
            lemma_document_reads_all(input@, DEFAULT_MAX_DEPTH as nat);
        }
        let mut parser = Parser::new(input);
        parser.parse()
    }
}

} // verus!
