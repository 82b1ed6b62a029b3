//! The lexical layer on its own: the input cut into tokens.

use vstd::prelude::*;
use crate::chars::{is_digit, is_digit_char};
use crate::grammar::{matches_at, number_scan, remaining, string_scan, whitespace_len};
use crate::parser::Parser;

verus! {

/// One token. `Number` holds the numeral as written, `String` the decoded
/// text.
#[derive(Debug, PartialEq)]
pub enum Token {
    LeftBrace,
    RightBrace,
    LeftBracket,
    RightBracket,
    Comma,
    Colon,
    Null,
    True,
    False,
    Number(String),
    String(String),
}

/// Why the input could not be cut into tokens.
#[derive(Debug, Clone, Copy, PartialEq, Eq, Structural)]
pub enum TokenizeError {
    /// `null`, `true` or `false` was misspelled or cut short.
    UnfinishedLiteralValue,
    /// A number lacked a digit where one is required.
    InvalidNumber,
    /// A string was not closed or held a bad escape.
    InvalidString,
    /// A character that begins no token.
    UnexpectedCharacter,
}

/// What a [`Token`] means in contracts.
pub enum Lexeme {
    LeftBrace,
    RightBrace,
    LeftBracket,
    RightBracket,
    Comma,
    Colon,
    Null,
    True,
    False,
    Number(Seq<char>),
    String(Seq<char>),
}

impl View for Token {
    type V = Lexeme;

    open spec fn view(&self) -> Lexeme {
        match self {
            Token::LeftBrace => Lexeme::LeftBrace,
            Token::RightBrace => Lexeme::RightBrace,
            Token::LeftBracket => Lexeme::LeftBracket,
            Token::RightBracket => Lexeme::RightBracket,
            Token::Comma => Lexeme::Comma,
            Token::Colon => Lexeme::Colon,
            Token::Null => Lexeme::Null,
            Token::True => Lexeme::True,
            Token::False => Lexeme::False,
            Token::Number(text) => Lexeme::Number(text@),
            Token::String(text) => Lexeme::String(text@),
        }
    }
}

/// The outcome of reading one token and the number of characters it took.
pub struct TokenScan {
    pub result: Result<Lexeme, TokenizeError>,
    pub advance: nat,
}

/// A token of `advance` characters.
pub open spec fn token(lexeme: Lexeme, advance: nat) -> TokenScan {
    TokenScan { result: Ok(lexeme), advance }
}

/// No token.
pub open spec fn no_token(error: TokenizeError) -> TokenScan {
    TokenScan { result: Err(error), advance: 0 }
}

/// The literal `text` at `pos` as the token `lexeme`.
pub open spec fn literal_token(s: Seq<char>, pos: int, text: Seq<char>, lexeme: Lexeme) -> TokenScan {
    if matches_at(s, pos, text) {
        token(lexeme, text.len())
    } else {
        no_token(TokenizeError::UnfinishedLiteralValue)
    }
}

/// The token that begins at `pos`, where a character stands that is not
/// whitespace.
pub open spec fn token_scan(s: Seq<char>, pos: int) -> TokenScan {
    let c = s[pos];
    if c == '{' {
        token(Lexeme::LeftBrace, 1)
    } else if c == '}' {
        token(Lexeme::RightBrace, 1)
    } else if c == '[' {
        token(Lexeme::LeftBracket, 1)
    } else if c == ']' {
        token(Lexeme::RightBracket, 1)
    } else if c == ',' {
        token(Lexeme::Comma, 1)
    } else if c == ':' {
        token(Lexeme::Colon, 1)
    } else if c == 'n' {
        literal_token(s, pos, "null"@, Lexeme::Null)
    } else if c == 't' {
        literal_token(s, pos, "true"@, Lexeme::True)
    } else if c == 'f' {
        literal_token(s, pos, "false"@, Lexeme::False)
    } else if c == '"' {
        match string_scan(s, pos).result {
            Ok(text) => token(Lexeme::String(text), string_scan(s, pos).advance),
            Err(_) => no_token(TokenizeError::InvalidString),
        }
    } else if c == '-' || is_digit(c) {
        match number_scan(s, pos).result {
            Ok(text) => token(Lexeme::Number(text), number_scan(s, pos).advance),
            Err(_) => no_token(TokenizeError::InvalidNumber),
        }
    } else {
        no_token(TokenizeError::UnexpectedCharacter)
    }
}

/// A token is at least one character long.
pub proof fn lemma_token_takes_characters(s: Seq<char>, pos: int)
    ensures
        token_scan(s, pos).result.is_ok() ==> token_scan(s, pos).advance >= 1,
{
    reveal_strlit("null");
    reveal_strlit("true");
    reveal_strlit("false");
}

/// The tokens of the input from `pos` on, behind the tokens `before`; the
/// first token that cannot be read fails the whole.
pub open spec fn tokens_scan(s: Seq<char>, pos: int, before: Seq<Lexeme>) -> Result<
    Seq<Lexeme>,
    TokenizeError,
>
    decreases remaining(s, pos),
{
    let at = pos + whitespace_len(s, pos);
    if 0 <= at < s.len() {
        let next = token_scan(s, at);
        proof {
            lemma_token_takes_characters(s, at);
        }
        match next.result {
            Err(error) => Err(error),
            Ok(lexeme) => tokens_scan(s, at + next.advance, before.push(lexeme)),
        }
    } else {
        Ok(before)
    }
}

/// What a vector of tokens means.
pub open spec fn tokens_view(tokens: Seq<Token>) -> Seq<Lexeme> {
    tokens.map_values(|t: Token| t@)
}

/// `r` is what `scan` says.
pub open spec fn token_outcome(r: Result<Token, TokenizeError>, scan: TokenScan) -> bool {
    match r {
        Ok(t) => scan.result == Ok::<Lexeme, TokenizeError>(t@),
        Err(e) => scan.result == Err::<Lexeme, TokenizeError>(e),
    }
}

/// Reads the literal `text` as `token`, or fails without moving.
pub fn tokenize_literal(cursor: &mut Parser, text: &str, token: Token) -> (r: Result<
    Token,
    TokenizeError,
>)
    requires
        old(cursor).wf(),
    ensures
        ({
            let scan = literal_token(old(cursor).chars@, old(cursor).pos as int, text@, token@);
            &&& token_outcome(r, scan)
            &&& final(cursor).moved(old(cursor), scan.advance as int)
        }),
        final(cursor).wf(),
{
    if cursor.consume_literal(text) {
        Ok(token)
    } else {
        Err(TokenizeError::UnfinishedLiteralValue)
    }
}

/// Reads `null`.
pub fn tokenize_null(cursor: &mut Parser) -> (r: Result<Token, TokenizeError>)
    requires
        old(cursor).wf(),
    ensures
        ({
            let scan = literal_token(
                old(cursor).chars@,
                old(cursor).pos as int,
                "null"@,
                Lexeme::Null,
            );
            &&& token_outcome(r, scan)
            &&& final(cursor).moved(old(cursor), scan.advance as int)
        }),
        final(cursor).wf(),
{
    tokenize_literal(cursor, "null", Token::Null)
}

/// Reads the token under the cursor.
pub fn make_token(cursor: &mut Parser) -> (r: Result<Token, TokenizeError>)
    requires
        old(cursor).wf(),
        old(cursor).pos < old(cursor).chars.len(),
    ensures
        ({
            let scan = token_scan(old(cursor).chars@, old(cursor).pos as int);
            &&& token_outcome(r, scan)
            &&& r.is_ok() ==> final(cursor).moved(old(cursor), scan.advance as int)
        }),
        r.is_ok() ==> final(cursor).pos > old(cursor).pos,
        final(cursor).chars == old(cursor).chars,
        final(cursor).wf(),
{
    let c = cursor.chars[cursor.pos];
    proof {
        reveal_strlit("null");
        reveal_strlit("true");
        reveal_strlit("false");
    }
    if c == 'n' {
        return tokenize_null(cursor);
    } else if c == 't' {
        return tokenize_literal(cursor, "true", Token::True);
    } else if c == 'f' {
        return tokenize_literal(cursor, "false", Token::False);
    } else if c == '"' {
        return match cursor.read_string() {
            Ok(text) => Ok(Token::String(text)),
            Err(_) => Err(TokenizeError::InvalidString),
        };
    } else if c == '-' || is_digit_char(c) {
        return match cursor.read_number() {
            Ok(text) => Ok(Token::Number(text)),
            Err(_) => Err(TokenizeError::InvalidNumber),
        };
    }
    let token = if c == '[' {
        Token::LeftBracket
    } else if c == ']' {
        Token::RightBracket
    } else if c == '{' {
        Token::LeftBrace
    } else if c == '}' {
        Token::RightBrace
    } else if c == ',' {
        Token::Comma
    } else if c == ':' {
        Token::Colon
    } else {
        return Err(TokenizeError::UnexpectedCharacter);
    };
    cursor.pos += 1;
    Ok(token)
}

/// Cuts `input` into its tokens, whitespace left out.
pub fn tokenize(input: String) -> (r: Result<Vec<Token>, TokenizeError>)
    ensures
        match tokens_scan(input@, 0, Seq::empty()) {
            Ok(lexemes) => r.is_ok() && tokens_view(r.unwrap()@) == lexemes,
            Err(error) => r == Err::<Vec<Token>, TokenizeError>(error),
        },
{
    let mut cursor = Parser::new(input.as_str());
    let mut tokens: Vec<Token> = Vec::new();
    let ghost whole = tokens_scan(input@, 0, Seq::empty());
    assert(tokens_view(tokens@) =~= Seq::empty());
    loop
        invariant
            cursor.wf(),
            cursor.chars@ == input@,
            whole == tokens_scan(input@, 0, Seq::empty()),
            whole == tokens_scan(input@, cursor.pos as int, tokens_view(tokens@)),
        decreases cursor.chars.len() - cursor.pos,
    {
        cursor.skip_whitespace();
        if cursor.pos >= cursor.chars.len() {
            return Ok(tokens);
        }
        let ghost before = tokens_view(tokens@);
        match make_token(&mut cursor) {
            Ok(token) => {
                tokens.push(token);
                assert(tokens_view(tokens@) =~= before.push(token@));
            },
            Err(e) => {
                return Err(e);
            },
        }
    }
}

} // verus!
