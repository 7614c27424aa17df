use json_parser::parser::{parse_str, ParseError, Parser};
use json_parser::tokens::Token;
use json_parser::values::{Json, Value};

fn object(r: Result<Value, ParseError>) -> Json {
    match r {
        Ok(Value::ObjectValue(j)) => j,
        other => panic!("not an object: {:?}", other),
    }
}

#[test]
fn parse_identifier_key() {
    let j = object(Parser::new(r#"{ name: "Mr. John" }"#).parse());
    assert_eq!(j.len(), 1);
    assert_eq!(j.get("name"), Some(&Value::StringValue("Mr. John".to_string())));
}

#[test]
fn parse_nested_document() {
    let j = object(parse_str(r#"{"a": [1, 2, 2.5], "b": {"c": true, "d": null}}"#));
    assert_eq!(j.len(), 2);
    match j.get("a") {
        Some(Value::ArrayValue(items)) => {
            assert_eq!(items.len(), 3);
            assert_eq!(items[0], Value::IntegerValue(1));
            assert_eq!(items[1], Value::IntegerValue(2));
            match &items[2] {
                Value::FloatValue(s) => {
                    assert_eq!(s, "2.5");
                    assert_eq!(s.parse::<f32>().unwrap(), 2.5);
                }
                other => panic!("{:?}", other),
            }
        }
        other => panic!("{:?}", other),
    }
    match j.get("b") {
        Some(Value::ObjectValue(b)) => {
            assert_eq!(b.len(), 2);
            assert_eq!(b.get("c"), Some(&Value::BoolValue(true)));
            assert_eq!(b.get("d"), Some(&Value::NullValue));
        }
        other => panic!("{:?}", other),
    }
}

#[test]
fn parse_trailing_comma_in_object() {
    let j = object(parse_str(r#"{"a": 1,}"#));
    assert_eq!(j.len(), 1);
    assert_eq!(j.get("a"), Some(&Value::IntegerValue(1)));
}

#[test]
fn parse_trailing_comma_in_array() {
    let j = object(parse_str(r#"{"x": [1, 2,]}"#));
    assert_eq!(
        j.get("x"),
        Some(&Value::ArrayValue(vec![Value::IntegerValue(1), Value::IntegerValue(2)]))
    );
}

#[test]
fn parse_empty_containers() {
    let j = object(parse_str("{a: [], b: {}, c: [,], d: {,}}"));
    assert_eq!(j.len(), 4);
    assert_eq!(j.get("a"), Some(&Value::ArrayValue(vec![])));
    assert_eq!(j.get("c"), Some(&Value::ArrayValue(vec![])));
    match j.get("b") {
        Some(Value::ObjectValue(b)) => assert_eq!(b.len(), 0),
        other => panic!("{:?}", other),
    }
    assert_eq!(object(parse_str("{}")).len(), 0);
}

#[test]
fn parse_unterminated_string_is_end_of_input() {
    assert_eq!(parse_str(r#"{"a": "abc"#), Err(ParseError::UnexpectedEndOfInput));
}

#[test]
fn parse_premature_end_is_end_of_input() {
    assert_eq!(parse_str(r#"{"a":"#), Err(ParseError::UnexpectedEndOfInput));
    assert_eq!(parse_str(r#"{"a": 1"#), Err(ParseError::UnexpectedEndOfInput));
    assert_eq!(parse_str(""), Err(ParseError::UnexpectedEndOfInput));
}

#[test]
fn parse_twice_is_deterministic() {
    let src = r#"{"a": [1, 2, 2.5], "b": {"c": true, "d": null}, e: "x"}"#;
    let first = parse_str(src);
    let second = parse_str(src);
    assert!(first.is_ok());
    assert_eq!(first, second);
}

#[test]
fn parse_duplicate_key_last_write_wins() {
    let j = object(parse_str("{a: 1, b: 2, a: 3}"));
    assert_eq!(j.len(), 2);
    assert_eq!(j.get("a"), Some(&Value::IntegerValue(3)));
    assert_eq!(j.get("b"), Some(&Value::IntegerValue(2)));
}

#[test]
fn parse_requires_object_at_root() {
    assert_eq!(parse_str("[1]"), Err(ParseError::ExpectedCharacter('{')));
    assert_eq!(parse_str("12"), Err(ParseError::ExpectedCharacter('{')));
}

#[test]
fn parse_missing_colon() {
    assert_eq!(parse_str("{a 1}"), Err(ParseError::ExpectedCharacter(':')));
}

#[test]
fn parse_bad_key_is_unexpected_token() {
    assert_eq!(parse_str("{1: 2}"), Err(ParseError::UnexpectedToken(Token::IntegerLiteral(1))));
}

#[test]
fn parse_identifier_value_is_unexpected_token() {
    assert_eq!(
        parse_str("{a: b}"),
        Err(ParseError::UnexpectedToken(Token::Identifier("b".to_string())))
    );
}

#[test]
fn parse_unrecognized_value_is_unexpected_token() {
    assert_eq!(parse_str("{a: -1}"), Err(ParseError::UnexpectedToken(Token::Unrecognized('-'))));
}

#[test]
fn parse_missing_separator_is_unexpected_token() {
    assert_eq!(
        parse_str("{a: 1 b: 2}"),
        Err(ParseError::UnexpectedToken(Token::Identifier("b".to_string())))
    );
    assert_eq!(parse_str("{a: [1 2]}"), Err(ParseError::UnexpectedToken(Token::IntegerLiteral(2))));
}

#[test]
fn parse_double_comma_is_unexpected_token() {
    assert_eq!(parse_str("{a: 1,,}"), Err(ParseError::UnexpectedToken(Token::Comma)));
}

#[test]
fn parse_invalid_number_is_reported() {
    assert_eq!(parse_str("{a: 1.2.3}"), Err(ParseError::InvalidNumber("1.2.3".to_string())));
}

#[test]
fn parse_ignores_what_follows_the_object() {
    let mut p = Parser::new("{a: 1} \"unterminated");
    let j = object(p.parse());
    assert_eq!(j.get("a"), Some(&Value::IntegerValue(1)));
    assert_eq!(p.parse(), Err(ParseError::UnexpectedEndOfInput));
}

#[test]
fn parse_consecutive_objects() {
    let mut p = Parser::new("{a: 1} {b: 2}");
    assert_eq!(object(p.parse()).get("a"), Some(&Value::IntegerValue(1)));
    assert_eq!(object(p.parse()).get("b"), Some(&Value::IntegerValue(2)));
}

#[test]
fn parse_key_starting_with_non_ascii_letter() {
    let j = object(parse_str("{\u{e9}: 1}"));
    assert_eq!(j.get("\u{e9}"), Some(&Value::IntegerValue(1)));
}

#[test]
fn parse_from_lexer_with_flags() {
    let lexer = json_parser::lexer::Lexer::with_flags("{k: 1}", vec![false, true, false, false, false, false], vec![false; 6]);
    let j = object(Parser::from_lexer(lexer).parse());
    assert_eq!(j.get("k"), Some(&Value::IntegerValue(1)));
}
