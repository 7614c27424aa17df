use json_parser::lexer::Lexer;
use json_parser::parser::ParseError;
use json_parser::tokens::Token;

#[test]
fn lex_str() {
    let mut x = Lexer::new("\"okay\"");
    let x: String = match x.lex() {
        Ok(Some(Token::StringLiteral(s))) => s,
        _ => "".into(),
    };
    assert_eq!(x, "okay".to_string());
}

#[test]
fn lex_num() {
    let mut x = Lexer::new("12");
    let x = match x.lex() {
        Ok(Some(Token::IntegerLiteral(s))) => s,
        _ => 0,
    };
    assert_eq!(x, 12);
}

#[test]
fn lex_float() {
    let mut x = Lexer::new("12.3");
    let x: f32 = match x.lex() {
        Ok(Some(Token::FloatLiteral(s))) => s.parse().unwrap(),
        _ => 0.0,
    };
    assert!(x > 12.2 && x < 12.4);
}

#[test]
fn lex_bool() {
    let mut x = Lexer::new("true false");
    let t1 = match x.lex() {
        Ok(Some(Token::BoolLiteral(s))) => s,
        _ => false,
    };
    let t2 = match x.lex() {
        Ok(Some(Token::BoolLiteral(s))) => s,
        _ => true,
    };
    assert_eq!(t1, true);
    assert_eq!(t2, false);
}

#[test]
fn lex_null() {
    let mut x = Lexer::new("null");
    let x: Option<()> = match x.lex() {
        Ok(Some(Token::Null)) => Some(()),
        _ => None,
    };
    assert_eq!(x, Some(()));
}

#[test]
fn lex_ident() {
    let mut x = Lexer::new("okay");
    let x: String = match x.lex() {
        Ok(Some(Token::Identifier(s))) => s,
        _ => "".into(),
    };
    assert_eq!(x, "okay".to_string());
}

#[test]
fn json_lex1() {
    let mut x = Lexer::new(
        r#"
{
    name: "Mr. John",
    age: 25,
    cars: ["ferrari", "bmw"],
    others: {
        lucky_numbers: [1, 2, 2.5],
    }
}
"#,
    );

    match x.lex() {
        Ok(Some(Token::ObjectOpen)) => {}
        _ => panic!(),
    }
    match x.lex() {
        Ok(Some(Token::Identifier(ident))) => assert_eq!(ident, "name"),
        _ => panic!(),
    }
    match x.lex() {
        Ok(Some(Token::Colon)) => {}
        err => panic!("got this {:?}", err),
    }
    match x.lex() {
        Ok(Some(Token::StringLiteral(s))) => assert_eq!(s, "Mr. John"),
        _ => panic!(),
    }
    match x.lex() {
        Ok(Some(Token::Comma)) => {}
        _ => panic!(),
    }
    match x.lex() {
        Ok(Some(Token::Identifier(ident))) => assert_eq!(ident, "age"),
        _ => panic!(),
    }
    match x.lex() {
        Ok(Some(Token::Colon)) => {}
        _ => panic!(),
    }
    match x.lex() {
        Ok(Some(Token::IntegerLiteral(n))) => assert_eq!(n, 25),
        _ => panic!(),
    }
}

#[test]
fn lex_whole_stream_then_end() {
    let mut x = Lexer::new(" [ ] : , } \t\n");
    assert_eq!(x.lex(), Ok(Some(Token::ArrayOpen)));
    assert_eq!(x.lex(), Ok(Some(Token::ArrayClose)));
    assert_eq!(x.lex(), Ok(Some(Token::Colon)));
    assert_eq!(x.lex(), Ok(Some(Token::Comma)));
    assert_eq!(x.lex(), Ok(Some(Token::ObjectClose)));
    assert_eq!(x.lex(), Ok(None));
    assert_eq!(x.lex(), Ok(None));
}

#[test]
fn lex_empty_input_is_end() {
    let mut x = Lexer::new("");
    assert_eq!(x.lex(), Ok(None));
}

#[test]
fn lex_unterminated_string() {
    let mut x = Lexer::new("\"abc");
    assert_eq!(x.lex(), Err(ParseError::UnexpectedEndOfInput));
}

#[test]
fn lex_string_keeps_backslashes_verbatim() {
    let mut x = Lexer::new(r#""a\nb""#);
    assert_eq!(x.lex(), Ok(Some(Token::StringLiteral("a\\nb".to_string()))));
}

#[test]
fn lex_identifier_with_digits_and_underscores() {
    let mut x = Lexer::new("lucky_numbers2:");
    assert_eq!(x.lex(), Ok(Some(Token::Identifier("lucky_numbers2".to_string()))));
    assert_eq!(x.lex(), Ok(Some(Token::Colon)));
}

#[test]
fn lex_keyword_prefix_is_identifier() {
    let mut x = Lexer::new("nullable truest");
    assert_eq!(x.lex(), Ok(Some(Token::Identifier("nullable".to_string()))));
    assert_eq!(x.lex(), Ok(Some(Token::Identifier("truest".to_string()))));
}

#[test]
fn lex_largest_integer() {
    let mut x = Lexer::new("2147483647");
    assert_eq!(x.lex(), Ok(Some(Token::IntegerLiteral(2147483647))));
}

#[test]
fn lex_integer_overflow_is_invalid() {
    let mut x = Lexer::new("2147483648");
    assert_eq!(x.lex(), Err(ParseError::InvalidNumber("2147483648".to_string())));
}

#[test]
fn lex_two_dots_is_invalid() {
    let mut x = Lexer::new("1.2.3");
    assert_eq!(x.lex(), Err(ParseError::InvalidNumber("1.2.3".to_string())));
}

#[test]
fn lex_float_keeps_text() {
    let mut x = Lexer::new("007.50,");
    assert_eq!(x.lex(), Ok(Some(Token::FloatLiteral("007.50".to_string()))));
    assert_eq!(x.lex(), Ok(Some(Token::Comma)));
}

#[test]
fn lex_unrecognized_character() {
    let mut x = Lexer::new("-1");
    assert_eq!(x.lex(), Ok(Some(Token::Unrecognized('-'))));
    assert_eq!(x.lex(), Ok(Some(Token::IntegerLiteral(1))));
}

#[test]
fn lex_unicode_whitespace_is_skipped() {
    let mut x = Lexer::new("\u{a0}\u{3000}null");
    assert_eq!(x.lex(), Ok(Some(Token::Null)));
}

#[test]
fn lex_unicode_letters_continue_identifier() {
    let mut x = Lexer::new("caf\u{e9}9 ");
    assert_eq!(x.lex(), Ok(Some(Token::Identifier("caf\u{e9}9".to_string()))));
}

#[test]
fn lex_identifier_may_start_with_any_letter() {
    let mut x = Lexer::new("\u{e9}t\u{e9}: 1");
    assert_eq!(x.lex(), Ok(Some(Token::Identifier("\u{e9}t\u{e9}".to_string()))));
    assert_eq!(x.lex(), Ok(Some(Token::Colon)));
}

#[test]
fn lex_with_flags_follows_the_flags_given() {
    let mut x = Lexer::with_flags("ab c", vec![true, false, false, false], vec![true, false, false, false]);
    assert_eq!(x.lex(), Ok(Some(Token::Identifier("a".to_string()))));
    assert_eq!(x.lex(), Ok(Some(Token::Unrecognized('b'))));
    assert_eq!(x.lex(), Ok(Some(Token::Unrecognized('c'))));
    assert_eq!(x.lex(), Ok(None));
}

#[test]
fn lex_with_flags_reads_keywords() {
    let flags = vec![true, true, true, true, false, true, true, true, true];
    let mut x = Lexer::with_flags("true null", flags.clone(), flags);
    assert_eq!(x.lex(), Ok(Some(Token::BoolLiteral(true))));
    assert_eq!(x.lex(), Ok(Some(Token::Null)));
    assert_eq!(x.lex(), Ok(None));
}
