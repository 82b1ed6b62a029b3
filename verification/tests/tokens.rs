use json_parser::{tokenize, Token, TokenizeError};

#[test]
fn just_comma() {
    let input = String::from(",");
    let expected = [Token::Comma];

    let actual = tokenize(input).unwrap();

    assert_eq!(actual, expected);
}

#[test]
fn punctuation_and_literals() {
    let actual = tokenize(String::from(" [ ] { } , : null true false ")).unwrap();
    assert_eq!(
        actual,
        vec![
            Token::LeftBracket,
            Token::RightBracket,
            Token::LeftBrace,
            Token::RightBrace,
            Token::Comma,
            Token::Colon,
            Token::Null,
            Token::True,
            Token::False,
        ]
    );
}

#[test]
fn numbers_and_strings() {
    let actual = tokenize(String::from(r#"{"a\n": -1.5e3, "b": [0]}"#)).unwrap();
    assert_eq!(
        actual,
        vec![
            Token::LeftBrace,
            Token::String("a\n".to_string()),
            Token::Colon,
            Token::Number("-1.5e3".to_string()),
            Token::Comma,
            Token::String("b".to_string()),
            Token::Colon,
            Token::LeftBracket,
            Token::Number("0".to_string()),
            Token::RightBracket,
            Token::RightBrace,
        ]
    );
    match &actual[3] {
        Token::Number(text) => assert_eq!(text.parse::<f64>().unwrap(), -1500.0),
        other => panic!("expected a number, got {:?}", other),
    }
}

#[test]
fn tokens_need_no_grammar() {
    assert_eq!(
        tokenize(String::from("]nulltrue,,")).unwrap(),
        vec![Token::RightBracket, Token::Null, Token::True, Token::Comma, Token::Comma]
    );
    assert_eq!(tokenize(String::new()).unwrap(), vec![]);
    assert_eq!(tokenize(String::from(" \n ")).unwrap(), vec![]);
}

#[test]
fn tokenize_errors() {
    assert_eq!(tokenize(String::from("nul")), Err(TokenizeError::UnfinishedLiteralValue));
    assert_eq!(tokenize(String::from("[tru]")), Err(TokenizeError::UnfinishedLiteralValue));
    assert_eq!(tokenize(String::from("falsy")), Err(TokenizeError::UnfinishedLiteralValue));
    assert_eq!(tokenize(String::from("[1, -]")), Err(TokenizeError::InvalidNumber));
    assert_eq!(tokenize(String::from("1.")), Err(TokenizeError::InvalidNumber));
    assert_eq!(tokenize(String::from("\"abc")), Err(TokenizeError::InvalidString));
    assert_eq!(tokenize(String::from(r#""\x""#)), Err(TokenizeError::InvalidString));
    assert_eq!(tokenize(String::from("[1, ?]")), Err(TokenizeError::UnexpectedCharacter));
}
