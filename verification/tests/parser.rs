use json_checker::error::LexError;
use json_checker::error::ParseError;
use json_checker::lexer::Lexer;
use json_checker::parser::validate;
use json_checker::parser::Parser;
use json_checker::token::TokenKind;

fn accepts(text: &str) -> bool {
    let lexer = Lexer::new(String::from(text));
    match Parser::new(lexer) {
        Ok(mut parser) => parser.parse().is_ok(),
        Err(_) => false,
    }
}

#[test]
fn empty_object() {
    let lexer: Lexer = Lexer::new(String::from("{ }"));
    let mut parser = Parser::new(lexer).unwrap();
    assert!(parser.parse().is_ok());
}

#[test]
fn empty_object_again() {
    let lexer: Lexer = Lexer::new(String::from("{}"));
    let mut parser = Parser::new(lexer).unwrap();
    assert!(parser.parse().is_ok());
}

#[test]
fn fp_number() {
    let lexer: Lexer = Lexer::new(String::from("3.14159"));
    let mut parser = Parser::new(lexer).unwrap();
    assert!(parser.parse().is_ok());
}

#[test]
fn one_value_object() {
    let lexer: Lexer = Lexer::new(String::from("{ \"name\": \"bob\" }"));
    let mut parser = Parser::new(lexer).unwrap();
    assert!(parser.parse().is_ok());
}

#[test]
fn two_values_object() {
    let lexer: Lexer = Lexer::new(String::from("{ \"name\": \"bob\", \"alive\": true }"));
    let mut parser = Parser::new(lexer).unwrap();
    assert!(parser.parse().is_ok());
}

#[test]
fn number() {
    let lexer: Lexer = Lexer::new(String::from("1"));
    let mut parser = Parser::new(lexer).unwrap();
    assert!(parser.parse().is_ok());
}

#[test]
fn string() {
    let lexer: Lexer = Lexer::new(String::from("\"foo\""));
    let mut parser = Parser::new(lexer).unwrap();
    assert!(parser.parse().is_ok());
}

#[test]
fn long_number() {
    let lexer: Lexer =
        Lexer::new(String::from("1223334444555556666667777777888888889999999990"));
    let mut parser = Parser::new(lexer).unwrap();
    assert!(parser.parse().is_ok());
}

#[test]
fn value() {
    let lexer: Lexer = Lexer::new(String::from("true"));
    let mut parser = Parser::new(lexer).unwrap();
    assert!(parser.parse().is_ok());
}

#[test]
fn empty_array() {
    let lexer: Lexer = Lexer::new(String::from("[ ]"));
    let mut parser = Parser::new(lexer).unwrap();
    assert!(parser.parse().is_ok());
}

#[test]
fn empty_array_again() {
    let lexer: Lexer = Lexer::new(String::from("[]"));
    let mut parser = Parser::new(lexer).unwrap();
    assert!(parser.parse().is_ok());
}

#[test]
fn arrays() {
    let lexer: Lexer = Lexer::new(String::from("[1,  2, \"foo\", true,false, null]"));
    let mut parser = Parser::new(lexer).unwrap();
    assert!(parser.parse().is_ok());
}

#[test]
fn object_in_object() {
    let lexer: Lexer = Lexer::new(String::from("{ \"inner\": { } }"));
    let mut parser = Parser::new(lexer).unwrap();
    assert!(parser.parse().is_ok());
}

#[test]
fn array_in_object() {
    let lexer: Lexer = Lexer::new(String::from("{ \"foo\": [1,2,3,4,true,false,null]}"));
    let mut parser = Parser::new(lexer).unwrap();
    assert!(parser.parse().is_ok());
}

#[test]
fn non_string_values_object() {
    let lexer: Lexer = Lexer::new(String::from(
        "{ \"true\": true, \"false\": false, \"null\": null, \"ns\": [3, 4, 12], \"n\": 3 }",
    ));
    let mut parser = Parser::new(lexer).unwrap();
    assert!(parser.parse().is_ok());
}

#[test]
fn empty_object_with_inner_whitespace() {
    assert!(validate(String::from("{   }")).is_ok());
    assert!(validate(String::from("{ \n \n }")).is_ok());
    assert!(validate(String::from("{\n}")).is_ok());
}

#[test]
fn empty_array_single_layout() {
    assert!(validate(String::from("[\n]")).is_ok());
}

#[test]
fn array_of_scalars() {
    assert!(validate(String::from("[1,\"a\",true,false,null,42]")).is_ok());
}

#[test]
fn scenario_accepts() {
    assert!(validate(String::from("{}")).is_ok());
    assert!(validate(String::from("{ }")).is_ok());
    assert!(validate(String::from("[1, 2, \"foo\", true, false, null]")).is_ok());
    assert!(validate(String::from("3.14159")).is_ok());
}

#[test]
fn trailing_comma_in_object() {
    let r = validate(String::from("{\"name\": \"bob\",}"));
    assert!(matches!(r, Err(ParseError::TrailingComma)));
}

#[test]
fn trailing_comma_in_array() {
    let r = validate(String::from("[1,2,]"));
    assert!(matches!(r, Err(ParseError::ExpectedString)));
}

#[test]
fn malformed_numbers() {
    let r = validate(String::from(".5"));
    assert!(matches!(
        r,
        Err(ParseError::Lexical { err: LexError::MalformedNumber { line: 0 } })
    ));
    let r = validate(String::from("1.2.3"));
    assert!(matches!(
        r,
        Err(ParseError::Lexical { err: LexError::MalformedNumber { .. } })
    ));
    let r = validate(String::from("12."));
    assert!(matches!(
        r,
        Err(ParseError::Lexical { err: LexError::MalformedNumber { .. } })
    ));
}

#[test]
fn unterminated_string_cites_line() {
    let r = validate(String::from("\"foo"));
    assert!(matches!(
        r,
        Err(ParseError::Lexical { err: LexError::MissingQuote { line: 0 } })
    ));
    let r = validate(String::from("[1,\n2,\n\"foo"));
    assert!(matches!(
        r,
        Err(ParseError::Lexical { err: LexError::MissingQuote { line: 2 } })
    ));
}

#[test]
fn unknown_keyword() {
    let r = validate(String::from("tru"));
    match r {
        Err(ParseError::Lexical { err: LexError::UnknownKeyword { text } }) => {
            assert_eq!(text, "tru");
        }
        _ => panic!("expected an unknown-keyword error"),
    }
}

#[test]
fn keywords_match_case_insensitively() {
    assert!(validate(String::from("TRUE")).is_ok());
    assert!(validate(String::from("[True, fAlSe, NULL]")).is_ok());
}

#[test]
fn unknown_character() {
    let r = validate(String::from("@"));
    match r {
        Err(ParseError::Lexical { err: LexError::UnknownChar { c } }) => {
            assert_eq!(c, '@');
        }
        _ => panic!("expected an unknown-character error"),
    }
}

#[test]
fn missing_colon_is_generic_error() {
    let r = validate(String::from("{\"a\" 1}"));
    assert!(matches!(r, Err(ParseError::ExpectedString)));
}

#[test]
fn tab_inside_object_is_rejected() {
    // Only space and line feed are skipped between grammar tokens.
    assert!(matches!(
        validate(String::from("{\t}")),
        Err(ParseError::ExpectedString)
    ));
}

#[test]
fn scanner_tokens() {
    let mut lexer: Lexer = Lexer::new(String::from("{\"ab\": 12}"));
    let t = lexer.match_token().unwrap();
    assert_eq!(t.kind, TokenKind::Opcurlybracket);
    assert_eq!(t.text, "{");
    let t = lexer.match_token().unwrap();
    assert_eq!(t.kind, TokenKind::String);
    assert_eq!(t.text, "ab");
    let t = lexer.match_token().unwrap();
    assert_eq!(t.kind, TokenKind::Colon);
    let t = lexer.match_token().unwrap();
    assert_eq!(t.kind, TokenKind::Space);
    let t = lexer.match_token().unwrap();
    assert_eq!(t.kind, TokenKind::Number);
    assert_eq!(t.text, "12");
    let t = lexer.match_token().unwrap();
    assert_eq!(t.kind, TokenKind::Clcurlybracket);
    let t = lexer.match_token().unwrap();
    assert_eq!(t.kind, TokenKind::Linefeed);
    let t = lexer.match_token().unwrap();
    assert_eq!(t.kind, TokenKind::Eof);
}

#[test]
fn scanner_peek_and_next_char() {
    let mut lexer: Lexer = Lexer::new(String::from("ab"));
    assert_eq!(lexer.cur_char, 'a');
    assert_eq!(lexer.peek(), Some('b'));
    lexer.next_char();
    assert_eq!(lexer.cur_char, 'b');
    assert_eq!(lexer.peek(), Some('\n'));
    lexer.next_char();
    assert_eq!(lexer.cur_char, '\n');
    assert_eq!(lexer.peek(), None);
}

#[test]
fn check_token_and_peek() {
    let lexer: Lexer = Lexer::new(String::from("[]"));
    let mut parser = Parser::new(lexer).unwrap();
    assert!(parser.check_token(TokenKind::Opsqbracket));
    assert!(parser.check_peek(TokenKind::Clsqbracket));
    assert!(!parser.check_token(TokenKind::Clsqbracket));
    assert!(parser.token_match(TokenKind::Opsqbracket).is_ok());
    assert!(parser.check_token(TokenKind::Clsqbracket));
    assert!(parser.token_match(TokenKind::Comma).is_err());
}

#[test]
fn next_token_slides_window() {
    let lexer: Lexer = Lexer::new(String::from("[1]"));
    let mut parser = Parser::new(lexer).unwrap();
    assert!(parser.check_token(TokenKind::Opsqbracket));
    assert!(parser.check_peek(TokenKind::Number));
    assert!(parser.next_token().is_ok());
    assert!(parser.check_token(TokenKind::Number));
    assert!(parser.check_peek(TokenKind::Clsqbracket));
}

#[test]
fn helper_accepts_agrees_with_validate() {
    assert!(accepts("{ \"k\": [true, null] }"));
    assert!(!accepts("{ \"k\": }"));
}

#[test]
fn multiple_layout_tokens_in_array_rejected() {
    // The padded-empty-array check looks exactly one token ahead, so two
    // layout tokens before the bracket fall through to the value loop.
    assert!(validate(String::from("[  ]")).is_err());
    assert!(validate(String::from("[ \n]")).is_err());
    // A tab or carriage return passes the lookahead test but is never
    // skipped, so it is rejected too.
    assert!(validate(String::from("[\t]")).is_err());
    assert!(validate(String::from("[\r]")).is_err());
}

#[test]
fn nested_empty_forms_in_arrays() {
    assert!(validate(String::from("[[],1]")).is_ok());
    assert!(validate(String::from("[{},1]")).is_ok());
    assert!(validate(String::from("[1,[2,3],4]")).is_ok());
}

#[test]
fn nonempty_object_as_value_rejected() {
    // After a nested form, one more token is consumed; a non-empty object
    // already consumed its closing brace, so the token after it is lost and
    // recognition fails.
    assert!(validate(String::from("[{\"a\":1}]")).is_err());
    assert!(validate(String::from("{\"a\":{\"b\":1}}")).is_err());
}
