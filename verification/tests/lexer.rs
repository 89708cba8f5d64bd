use aeon::error::AeonDeserializeErrorCode;
use aeon::lexer::Lexer;
use aeon::token::Token;

#[test]
pub fn multiple_tokens() {
    let s = r#"hello:"world"world:1236"#.to_string();
    let mut lex = Lexer::new(&s);
    let mut current = lex.next().unwrap().unwrap();

    assert!(
        matches!(current, Token::Identifier(_)),
        "expected ident hello, was {:?}",
        current
    );
    current = lex.next().unwrap().unwrap();
    assert!(
        matches!(current, Token::Colon),
        "expected colon, was {:?}",
        current
    );
    current = lex.next().unwrap().unwrap();
    assert!(
        matches!(current, Token::String(_)),
        "expected string \"world\", was {:?}",
        current
    );
    current = lex.next().unwrap().unwrap();
    assert!(
        matches!(current, Token::Identifier(_)),
        "expected ident world, was {:?}",
        current
    );
    current = lex.next().unwrap().unwrap();
    assert!(
        matches!(current, Token::Colon),
        "expected colon, was {:?}",
        current
    );
    current = lex.next().unwrap().unwrap();
    assert!(
        matches!(current, Token::Integer(_)),
        "expected integer 1236, was {:?}",
        current
    );
    assert!(lex.next().unwrap().is_none());
}

#[test]
pub fn string_token_with_escaped_unicode_or_hex() {
    let result = Lexer::new(r#""\u{2714}""#).next().unwrap().unwrap();
    assert!(
        matches!(
            result,
            Token::String(s) if s.as_str() == "\u{2714}"
        ),
        "expected string token with string '\u{2714}'"
    );
}

#[test]
pub fn integer_token() {
    assert!(
        matches!(
            Lexer::new("150").next().unwrap().unwrap(),
            Token::Integer(150)
        ),
        "expected integer token"
    );
}

#[test]
pub fn nil_token() {
    assert!(
        matches!(Lexer::new("nil").next().unwrap().unwrap(), Token::Nil),
        "expected nil token"
    );
}

#[test]
pub fn string_token() {
    let t_str = Lexer::new("\"hello world\"").next().unwrap().unwrap();
    match t_str {
        Token::String(s) => {
            assert_eq!(s, "hello world", "Expected string token");
        }
        _ => panic!("Expected string token"),
    }
}

#[test]
pub fn identifier_token() {
    let t_str = Lexer::new("WORLD01_HELLo").next().unwrap().unwrap();
    match t_str {
        Token::Identifier(s) => {
            assert_eq!(s, "WORLD01_HELLo", "Expected identifier token");
        }
        _ => panic!("Expected identifier token"),
    }
}

#[test]
pub fn double_token() {
    let double = Lexer::new("19.13").next().unwrap().unwrap();
    match double {
        Token::Double(d) => {
            assert_eq!(d.as_str().parse::<f64>().unwrap(), 19.13, "Expected double token");
            assert_eq!(d.as_str(), "19.13");
        }
        _ => panic!("Expected double token"),
    }
}

fn tokens(text: &str) -> Vec<Token> {
    let mut lex = Lexer::new(text);
    let mut out = Vec::new();
    while let Some(t) = lex.next().unwrap() {
        out.push(t);
    }
    out
}

fn lexing_failure(text: &str) -> String {
    let mut lex = Lexer::new(text);
    loop {
        match lex.next() {
            Ok(Some(_)) => {}
            Ok(None) => panic!("no failure in {:?}", text),
            Err(e) => {
                assert_eq!(e.code, AeonDeserializeErrorCode::LexingFailed);
                return e.message;
            }
        }
    }
}

#[test]
pub fn structural_tokens() {
    let t = tokens("( ) [ ] { } : , @");
    assert_eq!(t.len(), 9);
    assert!(matches!(t[0], Token::LeftParenthesis));
    assert!(matches!(t[1], Token::RightParenthesis));
    assert!(matches!(t[2], Token::LeftBracket));
    assert!(matches!(t[3], Token::RightBracket));
    assert!(matches!(t[4], Token::LeftBrace));
    assert!(matches!(t[5], Token::RightBrace));
    assert!(matches!(t[6], Token::Colon));
    assert!(matches!(t[7], Token::Comma));
    assert!(matches!(t[8], Token::At));
}

#[test]
pub fn keywords_are_not_identifiers() {
    let t = tokens("nil true false nile truex");
    assert!(matches!(t[0], Token::Nil));
    assert!(matches!(t[1], Token::True));
    assert!(matches!(t[2], Token::False));
    assert!(matches!(&t[3], Token::Identifier(s) if s == "nile"));
    assert!(matches!(&t[4], Token::Identifier(s) if s == "truex"));
}

#[test]
pub fn comments_and_whitespace_are_skipped() {
    let t = tokens("# first line\n  a # trailing\n\t: # another\n 1 # last, no newline");
    assert_eq!(t.len(), 3);
    assert!(matches!(&t[0], Token::Identifier(s) if s == "a"));
    assert!(matches!(t[1], Token::Colon));
    assert!(matches!(t[2], Token::Integer(1)));
    assert!(tokens("").is_empty());
    assert!(tokens("   \n\t ").is_empty());
    assert!(tokens("# only a comment").is_empty());
    assert!(tokens("\u{a0}\u{2003}\u{3000}").is_empty());
}

#[test]
pub fn identifier_stops_at_other_characters() {
    let t = tokens("ab_1(x9)");
    assert_eq!(t.len(), 4);
    assert!(matches!(&t[0], Token::Identifier(s) if s == "ab_1"));
    assert!(matches!(t[1], Token::LeftParenthesis));
    assert!(matches!(&t[2], Token::Identifier(s) if s == "x9"));
    assert!(matches!(t[3], Token::RightParenthesis));
}

#[test]
pub fn string_escapes() {
    let t = tokens(r#""a\tb\"c" "\\ \r \n" "\u{0041}\u{00e5}""#);
    assert!(matches!(&t[0], Token::String(s) if s == "a\tb\"c"));
    assert!(matches!(&t[1], Token::String(s) if s == "\\ \r \n"));
    assert!(matches!(&t[2], Token::String(s) if s == "A\u{e5}"));
    match &t[0] {
        Token::String(s) => {
            assert_eq!(s.chars().collect::<Vec<char>>(), vec!['a', '\t', 'b', '"', 'c'])
        }
        _ => panic!("expected a string"),
    }
}

#[test]
pub fn string_failures() {
    assert_eq!(lexing_failure("\"abc"), "Unterminated string");
    assert_eq!(lexing_failure("\"abc\\"), "Unterminated string");
    assert_eq!(lexing_failure(r#""a\qb""#), "Unknown escape in string: \\q");
    assert_eq!(lexing_failure(r#""a\x41""#), "Unknown escape in string: \\x");
    let malformed = "Expected exactly 4 hex digits between '{' and '}' after '\\u' in string";
    assert_eq!(lexing_failure(r#""\u{27}""#), malformed);
    assert_eq!(lexing_failure(r#""\u{27140}""#), malformed);
    assert_eq!(lexing_failure(r#""\u{27g4}""#), malformed);
    assert_eq!(lexing_failure(r#""\u{2714""#), malformed);
    assert_eq!(
        lexing_failure(r#""\u{d800}""#),
        "Invalid unicode scalar after '\\u' in string"
    );
    assert_eq!(
        lexing_failure(r#""\u{DFFF}""#),
        "Invalid unicode scalar after '\\u' in string"
    );
    assert!(matches!(&tokens(r#""\u{D7FF}\u{E000}""#)[0], Token::String(s) if s == "\u{d7ff}\u{e000}"));
}

#[test]
pub fn numbers() {
    let t = tokens("85 85.0 -12 -0.5 00.50 007 0");
    assert!(matches!(t[0], Token::Integer(85)));
    assert!(matches!(&t[1], Token::Double(d) if d.as_str() == "85.0"));
    assert!(matches!(t[2], Token::Integer(-12)));
    assert!(matches!(&t[3], Token::Double(d) if d.as_str() == "-0.5"));
    assert!(matches!(&t[4], Token::Double(d) if d.as_str() == "00.50"));
    assert!(matches!(t[5], Token::Integer(7)));
    assert!(matches!(t[6], Token::Integer(0)));
    let limits = tokens("9223372036854775807 -9223372036854775808");
    assert!(matches!(limits[0], Token::Integer(i64::MAX)));
    assert!(matches!(limits[1], Token::Integer(i64::MIN)));
}

#[test]
pub fn number_failures() {
    assert_eq!(lexing_failure("85."), "Trailing decimal point in number: 85.");
    assert_eq!(lexing_failure("85..0"), "Two decimal points in number: 85..0");
    assert_eq!(lexing_failure("1.2.3"), "Two decimal points in number: 1.2.3");
    assert_eq!(lexing_failure("-"), "Malformed number: -");
    assert_eq!(lexing_failure("-a"), "Malformed number: -");
    assert_eq!(lexing_failure("-.5"), "Malformed number: -.5");
    assert_eq!(lexing_failure("-."), "Trailing decimal point in number: -.");
    assert_eq!(lexing_failure("1._"), "Trailing decimal point in number: 1.");
    assert_eq!(
        lexing_failure("9223372036854775808"),
        "Malformed number: 9223372036854775808"
    );
    assert_eq!(
        lexing_failure("-9223372036854775809"),
        "Malformed number: -9223372036854775809"
    );
    assert_eq!(
        lexing_failure("99999999999999999999999999"),
        "Malformed number: 99999999999999999999999999"
    );
}

#[test]
pub fn a_number_ends_before_an_underscore() {
    let mut lex = Lexer::new("1_000");
    assert!(matches!(lex.next().unwrap().unwrap(), Token::Integer(1)));
    let e = lex.next().unwrap_err();
    assert_eq!(e.code, AeonDeserializeErrorCode::LexingFailed);
    assert_eq!(e.message, "Unknown char _");
    let mut lex = Lexer::new("1_");
    assert!(matches!(lex.next().unwrap().unwrap(), Token::Integer(1)));
    assert_eq!(lex.next().unwrap_err().message, "Unknown char _");
    let mut lex = Lexer::new("2.5_x");
    assert!(matches!(lex.next().unwrap().unwrap(), Token::Double(d) if d.as_str() == "2.5"));
    assert_eq!(lex.next().unwrap_err().message, "Unknown char _");
    let mut lex = Lexer::new("7a");
    assert!(matches!(lex.next().unwrap().unwrap(), Token::Integer(7)));
    assert!(matches!(lex.next().unwrap().unwrap(), Token::Identifier(s) if s == "a"));
}

#[test]
pub fn unknown_characters() {
    assert_eq!(lexing_failure("a: $"), "Unknown char $");
    assert_eq!(lexing_failure("'x'"), "Unknown char '");
    assert_eq!(lexing_failure(".5"), "Unknown char .");
    assert_eq!(lexing_failure("_a"), "Unknown char _");
}

#[test]
pub fn whitespace_is_the_unicode_property() {
    for code in 0u32..=0x10FFFF {
        if let Some(c) = char::from_u32(code) {
            assert_eq!(
                aeon::text::is_whitespace(c),
                c.is_whitespace(),
                "U+{:04X}",
                code
            );
        }
    }
}

#[test]
pub fn remaining_len_counts_characters() {
    let mut lex = Lexer::new("ab \u{e5}");
    assert_eq!(lex.remaining_len(), 4);
    lex.next().unwrap();
    assert_eq!(lex.remaining_len(), 2);
}
