use json_parser::parser::{Parser, DEFAULT_MAX_DEPTH};
use json_parser::{ErrorKind, Object, ParseError, Value};

fn number(value: &Value) -> f64 {
    match value {
        Value::Number(text) => text.parse::<f64>().unwrap(),
        other => panic!("expected a number, got {:?}", other),
    }
}

fn numeral(text: &str) -> Value {
    Value::Number(text.to_string())
}

fn error(input: &str) -> ParseError {
    match Value::from_str(input) {
        Ok(value) => panic!("expected an error, got {:?}", value),
        Err(e) => e,
    }
}

#[test]
fn test_null() {
    assert_eq!(Value::from_str("null").unwrap(), Value::Null);
}

#[test]
fn test_boolean() {
    assert_eq!(Value::from_str("true").unwrap(), Value::Boolean(true));
    assert_eq!(Value::from_str("false").unwrap(), Value::Boolean(false));
}

#[test]
fn test_number() {
    assert_eq!(number(&Value::from_str("42").unwrap()), 42.0);
    assert_eq!(number(&Value::from_str("-17").unwrap()), -17.0);
    assert_eq!(number(&Value::from_str("3.14").unwrap()), 3.14);
    assert_eq!(number(&Value::from_str("1e10").unwrap()), 1e10);
    assert_eq!(number(&Value::from_str("2.5e-3").unwrap()), 2.5e-3);
}

#[test]
fn test_string() {
    assert_eq!(
        Value::from_str(r#""hello""#).unwrap(),
        Value::String("hello".to_string())
    );
    assert_eq!(
        Value::from_str(r#""hello\nworld""#).unwrap(),
        Value::String("hello\nworld".to_string())
    );
}

#[test]
fn test_array() {
    assert_eq!(Value::from_str("[]").unwrap(), Value::Array(vec![]));
    let parsed = Value::from_str("[1, 2, 3]").unwrap();
    assert_eq!(
        parsed,
        Value::Array(vec![numeral("1"), numeral("2"), numeral("3")])
    );
    match parsed {
        Value::Array(items) => {
            let numbers: Vec<f64> = items.iter().map(number).collect();
            assert_eq!(numbers, vec![1.0, 2.0, 3.0]);
        }
        other => panic!("expected an array, got {:?}", other),
    }
}

#[test]
fn test_object() {
    let result = Value::from_str(r#"{"name": "John", "age": 30}"#).unwrap();
    let mut expected = Object::new();
    expected.insert("name".to_string(), Value::String("John".to_string()));
    expected.insert("age".to_string(), numeral("30"));
    assert_eq!(result, Value::Object(expected));
    match result {
        Value::Object(obj) => assert_eq!(number(obj.get("age").unwrap()), 30.0),
        other => panic!("expected an object, got {:?}", other),
    }
}

#[test]
fn test_nested() {
    let json = r#"{
            "name": "Alice",
            "age": 30,
            "active": true,
            "scores": [95, 87, 92],
            "address": {
                "city": "NYC",
                "zip": "10001"
            }
        }"#;

    let result = Value::from_str(json).unwrap();

    if let Value::Object(obj) = result {
        assert_eq!(obj.get("name"), Some(&Value::String("Alice".to_string())));
        assert_eq!(obj.get("age"), Some(&numeral("30")));
        assert_eq!(number(obj.get("age").unwrap()), 30.0);
        assert_eq!(obj.get("active"), Some(&Value::Boolean(true)));
        assert_eq!(obj.len(), 5);
        match obj.get("scores") {
            Some(Value::Array(scores)) => {
                let numbers: Vec<f64> = scores.iter().map(number).collect();
                assert_eq!(numbers, vec![95.0, 87.0, 92.0]);
            }
            other => panic!("expected an array, got {:?}", other),
        }
        match obj.get("address") {
            Some(Value::Object(address)) => {
                assert_eq!(address.get("city"), Some(&Value::String("NYC".to_string())));
                assert_eq!(address.get("zip"), Some(&Value::String("10001".to_string())));
                assert_eq!(address.get("street"), None);
            }
            other => panic!("expected an object, got {:?}", other),
        }
    } else {
        panic!("Expected object");
    }
}

#[test]
fn literals_with_whitespace_around() {
    assert_eq!(Value::from_str("  null\n").unwrap(), Value::Null);
    assert_eq!(Value::from_str("\t true \r\n").unwrap(), Value::Boolean(true));
    assert_eq!(Value::from_str("\u{a0}false\u{3000}").unwrap(), Value::Boolean(false));
}

#[test]
fn numbers_keep_their_numeral() {
    for text in ["0", "-0", "42", "-17", "3.14", "1e10", "1E+2", "2.5e-3", "0.5", "10.25E-7"] {
        assert_eq!(Value::from_str(text).unwrap(), numeral(text));
    }
    assert_eq!(number(&Value::from_str("2.5e-3").unwrap()), 0.0025);
    assert_eq!(number(&Value::from_str("-0").unwrap()), 0.0);
    assert_eq!(number(&Value::from_str("1E+2").unwrap()), 100.0);
}

#[test]
fn number_stops_at_its_last_digit() {
    let mut parser = Parser::new("12.5e3,7");
    assert_eq!(parser.read_number().unwrap(), "12.5e3");
    assert_eq!(parser.pos, 6);
    assert_eq!(parser.peek(), Some(','));
}

#[test]
fn a_leading_zero_ends_the_number() {
    assert_eq!(
        error("007"),
        ParseError { kind: ErrorKind::TrailingCharacters, position: 1 }
    );
    assert_eq!(
        error("[01]"),
        ParseError { kind: ErrorKind::ExpectedCommaOrCloseBracket, position: 2 }
    );
}

#[test]
fn malformed_numbers() {
    assert_eq!(error("-"), ParseError { kind: ErrorKind::InvalidNumber, position: 1 });
    assert_eq!(error("-x"), ParseError { kind: ErrorKind::InvalidNumber, position: 1 });
    assert_eq!(error("1."), ParseError { kind: ErrorKind::InvalidNumber, position: 2 });
    assert_eq!(error("1.e5"), ParseError { kind: ErrorKind::InvalidNumber, position: 2 });
    assert_eq!(error("1e"), ParseError { kind: ErrorKind::InvalidNumber, position: 2 });
    assert_eq!(error("1e+"), ParseError { kind: ErrorKind::InvalidNumber, position: 3 });
    assert_eq!(error("1E-x"), ParseError { kind: ErrorKind::InvalidNumber, position: 3 });
}

#[test]
fn object_with_two_members() {
    let parsed = Value::from_str(r#"{"name":"John","age":30}"#).unwrap();
    match parsed {
        Value::Object(obj) => {
            assert_eq!(obj.len(), 2);
            assert_eq!(obj.get("name"), Some(&Value::String("John".to_string())));
            assert_eq!(number(obj.get("age").unwrap()), 30.0);
        }
        other => panic!("expected an object, got {:?}", other),
    }
}

#[test]
fn empty_containers() {
    assert_eq!(Value::from_str("[]").unwrap(), Value::Array(vec![]));
    assert_eq!(Value::from_str("[ \n ]").unwrap(), Value::Array(vec![]));
    assert_eq!(Value::from_str("{}").unwrap(), Value::Object(Object::new()));
    assert_eq!(Value::from_str("{ }").unwrap(), Value::Object(Object::new()));
    match Value::from_str("{}").unwrap() {
        Value::Object(obj) => assert_eq!(obj.len(), 0),
        other => panic!("expected an object, got {:?}", other),
    }
}

#[test]
fn array_keeps_order() {
    let parsed = Value::from_str(r#"[3, "a", null, [true], {"k": false}]"#).unwrap();
    let mut inner = Object::new();
    inner.insert("k".to_string(), Value::Boolean(false));
    assert_eq!(
        parsed,
        Value::Array(vec![
            numeral("3"),
            Value::String("a".to_string()),
            Value::Null,
            Value::Array(vec![Value::Boolean(true)]),
            Value::Object(inner),
        ])
    );
}

#[test]
fn escapes_are_decoded() {
    assert_eq!(
        Value::from_str("\"hello\\nworld\"").unwrap(),
        Value::String("hello\nworld".to_string())
    );
    assert_eq!(
        Value::from_str(r#""\"\\\/\b\f\n\r\t""#).unwrap(),
        Value::String("\"\\/\u{8}\u{c}\n\r\t".to_string())
    );
    assert_eq!(
        Value::from_str(r#""\u0041\u00e9\u20AC\uffff""#).unwrap(),
        Value::String("A\u{e9}\u{20ac}\u{ffff}".to_string())
    );
    assert_eq!(
        Value::from_str("\"caf\u{e9} \u{1F600}\"").unwrap(),
        Value::String("caf\u{e9} \u{1F600}".to_string())
    );
    assert_eq!(Value::from_str(r#""""#).unwrap(), Value::String(String::new()));
}

#[test]
fn each_unicode_escape_is_read_alone() {
    assert_eq!(
        error(r#""\uD83D\uDE00""#),
        ParseError { kind: ErrorKind::InvalidUnicodeEscape, position: 3 }
    );
    assert_eq!(
        error(r#""\uDFFF""#),
        ParseError { kind: ErrorKind::InvalidUnicodeEscape, position: 3 }
    );
    assert_eq!(
        Value::from_str(r#""\uD7FF\uE000""#).unwrap(),
        Value::String("\u{d7ff}\u{e000}".to_string())
    );
}

#[test]
fn malformed_strings() {
    assert_eq!(error("\"abc"), ParseError { kind: ErrorKind::UnterminatedString, position: 4 });
    assert_eq!(error("\"abc\\"), ParseError { kind: ErrorKind::UnterminatedEscape, position: 5 });
    assert_eq!(error(r#""a\qb""#), ParseError { kind: ErrorKind::InvalidEscape, position: 3 });
    assert_eq!(
        error(r#""\u12""#),
        ParseError { kind: ErrorKind::InvalidUnicodeEscape, position: 3 }
    );
    assert_eq!(
        error(r#""\u12G4""#),
        ParseError { kind: ErrorKind::InvalidUnicodeEscape, position: 3 }
    );
    assert_eq!(
        error(r#""\u+123""#),
        ParseError { kind: ErrorKind::InvalidUnicodeEscape, position: 3 }
    );
}

#[test]
fn duplicate_keys_last_wins() {
    match Value::from_str(r#"{"a":1,"a":2}"#).unwrap() {
        Value::Object(obj) => {
            assert_eq!(obj.len(), 1);
            assert_eq!(obj.get("a"), Some(&numeral("2")));
            assert_eq!(number(obj.get("a").unwrap()), 2.0);
        }
        other => panic!("expected an object, got {:?}", other),
    }
    match Value::from_str(r#"{"a":1,"b":2,"a":3}"#).unwrap() {
        Value::Object(obj) => {
            assert_eq!(obj.len(), 2);
            assert_eq!(obj.get("a"), Some(&numeral("3")));
            assert_eq!(obj.get("b"), Some(&numeral("2")));
        }
        other => panic!("expected an object, got {:?}", other),
    }
}

#[test]
fn malformed_inputs() {
    assert_eq!(error(""), ParseError { kind: ErrorKind::UnexpectedEof, position: 0 });
    assert_eq!(error("   "), ParseError { kind: ErrorKind::UnexpectedEof, position: 3 });
    assert_eq!(error("[1,2,"), ParseError { kind: ErrorKind::UnexpectedEof, position: 5 });
    assert_eq!(
        error("{\"a\":1,}"),
        ParseError { kind: ErrorKind::ExpectedStringKey, position: 7 }
    );
    assert_eq!(error("nul"), ParseError { kind: ErrorKind::InvalidLiteral, position: 0 });
    assert_eq!(error("1."), ParseError { kind: ErrorKind::InvalidNumber, position: 2 });
    assert_eq!(error("\"abc"), ParseError { kind: ErrorKind::UnterminatedString, position: 4 });
    assert_eq!(
        error("true false"),
        ParseError { kind: ErrorKind::TrailingCharacters, position: 5 }
    );
}

#[test]
fn misspelled_literals() {
    assert_eq!(error("nully"), ParseError { kind: ErrorKind::TrailingCharacters, position: 4 });
    assert_eq!(error("tru"), ParseError { kind: ErrorKind::InvalidLiteral, position: 0 });
    assert_eq!(error("fals"), ParseError { kind: ErrorKind::InvalidLiteral, position: 0 });
    assert_eq!(error(" nil"), ParseError { kind: ErrorKind::InvalidLiteral, position: 1 });
    assert_eq!(error("True"), ParseError { kind: ErrorKind::UnexpectedCharacter, position: 0 });
}

#[test]
fn malformed_arrays() {
    assert_eq!(error("[1,]"), ParseError { kind: ErrorKind::UnexpectedCharacter, position: 3 });
    assert_eq!(
        error("[1 2]"),
        ParseError { kind: ErrorKind::ExpectedCommaOrCloseBracket, position: 3 }
    );
    assert_eq!(
        error("[1"),
        ParseError { kind: ErrorKind::ExpectedCommaOrCloseBracket, position: 2 }
    );
    assert_eq!(error("["), ParseError { kind: ErrorKind::UnexpectedEof, position: 1 });
    assert_eq!(error("]"), ParseError { kind: ErrorKind::UnexpectedCharacter, position: 0 });
}

#[test]
fn malformed_objects() {
    assert_eq!(error("{"), ParseError { kind: ErrorKind::ExpectedStringKey, position: 1 });
    assert_eq!(error("{1:2}"), ParseError { kind: ErrorKind::ExpectedStringKey, position: 1 });
    assert_eq!(error(r#"{"a" 1}"#), ParseError { kind: ErrorKind::ExpectedColon, position: 5 });
    assert_eq!(error(r#"{"a""#), ParseError { kind: ErrorKind::ExpectedColon, position: 4 });
    assert_eq!(error(r#"{"a":"#), ParseError { kind: ErrorKind::UnexpectedEof, position: 5 });
    assert_eq!(
        error(r#"{"a":1 "b":2}"#),
        ParseError { kind: ErrorKind::ExpectedCommaOrCloseBrace, position: 7 }
    );
    assert_eq!(
        error(r#"{"a":1"#),
        ParseError { kind: ErrorKind::ExpectedCommaOrCloseBrace, position: 6 }
    );
    assert_eq!(
        error(r#"{"a:1}"#),
        ParseError { kind: ErrorKind::UnterminatedString, position: 6 }
    );
}

#[test]
fn deep_nesting_is_refused() {
    let input = "[".repeat(100_000);
    assert_eq!(
        Value::from_str(&input),
        Err(ParseError { kind: ErrorKind::MaxDepthExceeded, position: DEFAULT_MAX_DEPTH })
    );
    let closed = format!("{}{}", "[".repeat(100_000), "]".repeat(100_000));
    assert_eq!(
        Value::from_str(&closed),
        Err(ParseError { kind: ErrorKind::MaxDepthExceeded, position: DEFAULT_MAX_DEPTH })
    );
}

#[test]
fn nesting_up_to_the_limit_is_read() {
    let depth = DEFAULT_MAX_DEPTH;
    let input = format!("{}{}", "[".repeat(depth), "]".repeat(depth));
    let mut value = Value::from_str(&input).unwrap();
    let mut seen = 0;
    loop {
        match value {
            Value::Array(mut items) => {
                seen += 1;
                match items.pop() {
                    Some(inner) => value = inner,
                    None => break,
                }
            }
            other => panic!("expected an array, got {:?}", other),
        }
    }
    assert_eq!(seen, depth);
    let over = format!("{}{}", "[".repeat(depth + 1), "]".repeat(depth + 1));
    assert_eq!(error(&over).kind, ErrorKind::MaxDepthExceeded);
}

#[test]
fn the_depth_limit_can_be_chosen() {
    assert_eq!(Parser::new("1").max_depth, DEFAULT_MAX_DEPTH);
    assert_eq!(Parser::with_max_depth("7", 0).parse().unwrap(), numeral("7"));
    assert_eq!(
        Parser::with_max_depth("[]", 0).parse(),
        Err(ParseError { kind: ErrorKind::MaxDepthExceeded, position: 0 })
    );
    assert!(Parser::with_max_depth(r#"[{"a":1}]"#, 2).parse().is_ok());
    assert_eq!(
        Parser::with_max_depth(r#"[{"a":[]}]"#, 2).parse(),
        Err(ParseError { kind: ErrorKind::MaxDepthExceeded, position: 6 })
    );
    assert_eq!(
        Parser::with_max_depth("[[1],{\"a\":{}}]", 2).parse(),
        Err(ParseError { kind: ErrorKind::MaxDepthExceeded, position: 10 })
    );
}

#[test]
fn parsing_twice_gives_equal_trees() {
    let input = r#" {"a": [1, 2.5, {"b": null}], "c": "x\ty", "d": true} "#;
    assert_eq!(Value::from_str(input), Value::from_str(input));
    let bad = r#"{"a": [1, 2,, 3]}"#;
    assert_eq!(Value::from_str(bad), Value::from_str(bad));
    assert!(Value::from_str(bad).is_err());
}

#[test]
fn cursor_primitives() {
    let mut parser = Parser::new("  \t\nnull!");
    assert_eq!(parser.pos, 0);
    assert_eq!(parser.peek(), Some(' '));
    parser.skip_whitespace();
    assert_eq!(parser.pos, 4);
    assert_eq!(parser.peek(), Some('n'));
    assert!(!parser.consume_literal("nul!"));
    assert_eq!(parser.pos, 4);
    assert!(!parser.consume_literal("null!!"));
    assert_eq!(parser.pos, 4);
    assert!(parser.consume_literal("null"));
    assert_eq!(parser.pos, 8);
    assert!(parser.peek_is('!'));
    assert!(parser.consume_literal(""));
    assert!(parser.consume_literal("!"));
    assert_eq!(parser.peek(), None);
    assert!(!parser.peek_is('!'));
    parser.skip_whitespace();
    assert_eq!(parser.pos, 9);
    assert!(!parser.consume_literal("x"));
}

#[test]
fn cursor_reads_values_in_place() {
    let mut parser = Parser::new("[1] \"s\" {}");
    assert_eq!(parser.parse_array(3).unwrap(), Value::Array(vec![numeral("1")]));
    assert_eq!(parser.pos, 3);
    assert_eq!(parser.parse_value(0).unwrap(), Value::String("s".to_string()));
    assert_eq!(parser.pos, 7);
    parser.skip_whitespace();
    assert_eq!(parser.parse_object(0).unwrap(), Value::Object(Object::new()));
    assert_eq!(parser.pos, 10);
    let mut member = Parser::new(" \"k\" : [true] ,");
    assert_eq!(
        member.parse_member(1).unwrap(),
        ("k".to_string(), Value::Array(vec![Value::Boolean(true)]))
    );
    assert_eq!(member.pos, 13);
}

#[test]
fn whitespace_is_what_the_standard_library_calls_whitespace() {
    for code in 0..=0x10FFFFu32 {
        if let Some(c) = char::from_u32(code) {
            assert_eq!(json_parser::chars::is_whitespace_char(c), c.is_whitespace(), "{:?}", c);
        }
    }
}

#[test]
fn character_classes() {
    for code in 0..=0x10FFFFu32 {
        if let Some(c) = char::from_u32(code) {
            assert_eq!(json_parser::chars::is_digit_char(c), c.is_ascii_digit(), "{:?}", c);
            let expected = if c.is_ascii_hexdigit() { c.to_digit(16) } else { None };
            assert_eq!(json_parser::chars::hex_digit(c), expected, "{:?}", c);
        }
    }
}

#[test]
fn object_insert_and_get() {
    let mut object = Object::new();
    assert_eq!(object.len(), 0);
    assert_eq!(object.get("a"), None);
    object.insert("a".to_string(), Value::Null);
    object.insert("b".to_string(), Value::Boolean(true));
    assert_eq!(object.len(), 2);
    object.insert("a".to_string(), numeral("1"));
    assert_eq!(object.len(), 2);
    assert_eq!(object.get("a"), Some(&numeral("1")));
    assert_eq!(object.get("b"), Some(&Value::Boolean(true)));
    assert_eq!(object.get(""), None);
    let keys: Vec<&str> = object.members().iter().map(|m| m.0.as_str()).collect();
    assert_eq!(keys, vec!["a", "b"]);
}

#[test]
fn a_clone_is_equal() {
    let value = Value::from_str(r#"{"a": [1, {"b": "c"}, null], "d": false}"#).unwrap();
    let copy = value.clone();
    assert_eq!(copy, value);
    match (value, copy) {
        (Value::Object(a), Value::Object(b)) => {
            assert_eq!(a.into_members(), b.into_members());
        }
        other => panic!("expected two objects, got {:?}", other),
    }
}

#[test]
fn objects_are_equal_whatever_the_order() {
    let a = Value::from_str(r#"{"x": 1, "y": [true, {"p": null, "q": "s"}]}"#).unwrap();
    let b = Value::from_str(r#"{"y": [true, {"q": "s", "p": null}], "x": 1}"#).unwrap();
    assert_eq!(a, b);
    let mut first = Object::new();
    first.insert("x".to_string(), Value::Null);
    first.insert("y".to_string(), Value::Boolean(true));
    let mut second = Object::new();
    second.insert("y".to_string(), Value::Boolean(true));
    second.insert("x".to_string(), Value::Null);
    assert_eq!(first, second);
    assert!(first.same_as(&second));
}

#[test]
fn different_values_are_not_equal() {
    let parse = |text: &str| Value::from_str(text).unwrap();
    assert_ne!(parse("null"), parse("false"));
    assert_ne!(parse("1"), parse("1.0"));
    assert_ne!(parse("\"1\""), parse("1"));
    assert_ne!(parse("[1, 2]"), parse("[2, 1]"));
    assert_ne!(parse("[1, 2]"), parse("[1, 2, 3]"));
    assert_ne!(parse("[]"), parse("{}"));
    assert_ne!(parse(r#"{"a": 1}"#), parse(r#"{"a": 2}"#));
    assert_ne!(parse(r#"{"a": 1}"#), parse(r#"{"b": 1}"#));
    assert_ne!(parse(r#"{"a": 1}"#), parse(r#"{"a": 1, "b": 1}"#));
    assert_ne!(parse(r#"{"a": 1, "c": 1}"#), parse(r#"{"a": 1, "b": 1}"#));
    assert!(!parse("[[1]]").same_as(&parse("[[2]]")));
    assert!(parse("[[1], \"a\"]").same_as(&parse("[ [ 1 ] , \"a\" ]")));
}

#[test]
fn a_document_is_read_to_its_end() {
    let mut parser = Parser::new(" [1, \"a\"] \n");
    assert!(parser.parse().is_ok());
    assert_eq!(parser.pos, parser.chars.len());
    let mut failing = Parser::new(" [1] x");
    assert_eq!(
        failing.parse(),
        Err(ParseError { kind: ErrorKind::TrailingCharacters, position: 5 })
    );
    assert_eq!(failing.pos, 5);
}

#[test]
fn plain_strings_are_read_as_they_stand() {
    for text in ["", "a", "hello world", "caf\u{e9}", "[1, 2]", "tab\there"] {
        let input = format!("\"{}\"", text);
        assert_eq!(Value::from_str(&input).unwrap(), Value::String(text.to_string()));
    }
}
