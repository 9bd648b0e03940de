use scriptfront::scanner::{Position, Scanner, Token, TokenRow};

fn scan_all(source: &str) -> Vec<Token> {
    let mut scanner = Scanner::new(source);
    let mut out = Vec::new();
    loop {
        match scanner.scan() {
            None => break,
            Some(Ok(t)) => out.push(t),
            Some(Err(e)) => panic!("unexpected scan error: {:?}", e),
        }
    }
    out
}

#[test]
fn single_punctuation_tokens_at_origin() {
    let cases: Vec<(&str, TokenRow)> = vec![
        (".", TokenRow::Dot),
        (",", TokenRow::Comma),
        (";", TokenRow::Semicolon),
        ("+", TokenRow::Plus),
        ("-", TokenRow::Minus),
        ("*", TokenRow::Start),
        ("/", TokenRow::Div),
        ("=", TokenRow::Eq),
        ("!", TokenRow::Exclamation),
        (">", TokenRow::Greater),
        ("<", TokenRow::Less),
        ("(", TokenRow::LeftParent),
        (")", TokenRow::RightParent),
        ("{", TokenRow::LeftBrace),
        ("}", TokenRow::RightBrace),
    ];
    for (text, expected) in cases {
        let toks = scan_all(text);
        assert_eq!(toks.len(), 1);
        assert!(toks[0].token == expected);
        assert_eq!(toks[0].position, Position::new(0, 0));
    }
}

#[test]
fn two_character_operators_consume_two_characters() {
    let cases: Vec<(&str, TokenRow)> = vec![
        ("==", TokenRow::DoubleEq),
        ("!=", TokenRow::NotEq),
        (">=", TokenRow::GreaterEq),
        ("<=", TokenRow::LessEq),
    ];
    for (text, expected) in cases {
        let toks = scan_all(text);
        assert_eq!(toks.len(), 1, "exactly one token for {}", text);
        assert!(toks[0].token == expected);
        assert_eq!(toks[0].position, Position::new(0, 0));
    }
}

#[test]
fn keywords_resolve_and_other_words_stay_identifiers() {
    let cases: Vec<(&str, TokenRow)> = vec![
        ("let", TokenRow::Let),
        ("function", TokenRow::Function),
        ("return", TokenRow::Return),
        ("if", TokenRow::If),
        ("else", TokenRow::Else),
        ("for", TokenRow::For),
        ("while", TokenRow::While),
        ("continue", TokenRow::Continue),
        ("break", TokenRow::Break),
        ("true", TokenRow::True),
        ("false", TokenRow::False),
        ("null", TokenRow::Null),
        ("this", TokenRow::This),
    ];
    for (text, expected) in cases {
        let toks = scan_all(text);
        assert_eq!(toks.len(), 1);
        assert!(toks[0].token == expected);
        assert_eq!(toks[0].position, Position::new(0, 0));
    }
    let toks = scan_all("letx");
    assert!(toks[0].token == TokenRow::Identifier(String::from("letx")));
}

#[test]
fn number_token_keeps_its_digit_text() {
    let toks = scan_all("007");
    assert_eq!(toks.len(), 1);
    assert!(toks[0].token == TokenRow::Digital(String::from("007")));
}

#[test]
fn string_token_records_up_to_the_closing_quote() {
    let toks = scan_all("\"ab\"");
    assert_eq!(toks.len(), 1);
    assert!(toks[0].token == TokenRow::String(String::from("\"ab")));
}

#[test]
fn unterminated_string_degenerates_to_end_of_input() {
    let toks = scan_all("\"ab");
    assert_eq!(toks.len(), 1);
    assert!(toks[0].token == TokenRow::String(String::from("\"ab")));
}

#[test]
fn whitespace_becomes_one_space_token() {
    let toks = scan_all("1 \t 2");
    assert_eq!(toks.len(), 3);
    assert!(toks[1].token == TokenRow::Space(String::from(" \t ")));
}

#[test]
fn newline_resets_column_and_advances_row() {
    let toks = scan_all("1\n  ab");
    // digit, whitespace run, identifier
    assert_eq!(toks.len(), 3);
    assert_eq!(toks[0].position, Position::new(0, 0));
    assert!(toks[2].token == TokenRow::Identifier(String::from("ab")));
    assert_eq!(toks[2].position, Position::new(1, 2));
}

#[test]
fn unrecognized_character_yields_scan_error_then_nothing() {
    let mut scanner = Scanner::new("@");
    match scanner.scan() {
        Some(Err(e)) => {
            assert_eq!(e.code, 300);
            assert_eq!(e.describe, "unexpected char");
            assert_eq!(e.position, Position::new(0, 0));
        },
        other => panic!("expected a scan error, got {:?}", other),
    }
    assert!(scanner.scan().is_none());
}

#[test]
fn scan_error_position_counts_consumed_characters() {
    let mut scanner = Scanner::new("ab @");
    let first = scanner.scan().unwrap().unwrap();
    assert!(first.token == TokenRow::Identifier(String::from("ab")));
    let second = scanner.scan().unwrap().unwrap();
    assert!(matches!(second.token, TokenRow::Space(_)));
    match scanner.scan() {
        Some(Err(e)) => assert_eq!(e.position, Position::new(0, 3)),
        other => panic!("expected a scan error, got {:?}", other),
    }
}

#[test]
fn token_row_to_string_gives_the_source_text() {
    assert_eq!(TokenRow::DoubleEq.to_string(), "==");
    assert_eq!(TokenRow::LeftBrace.to_string(), "{");
    assert_eq!(TokenRow::Let.to_string(), "let");
    assert_eq!(TokenRow::Digital(String::from("42")).to_string(), "42");
    assert_eq!(TokenRow::Identifier(String::from("abc")).to_string(), "abc");
}

#[test]
fn scanner_cursor_helpers_peek_without_consuming() {
    let mut scanner = Scanner::new("ab");
    assert_eq!(scanner.get_position(), Position::new(0, 0));
    assert!(scanner.next_is_expected('a'));
    assert!(!scanner.next_is_expected('b'));
    assert_eq!(scanner.advance(), Some('a'));
    assert_eq!(scanner.get_next(), Some('b'));
    assert_eq!(scanner.advance(), Some('b'));
    assert_eq!(scanner.advance(), None);
}

#[test]
fn character_classes_match_their_definitions() {
    assert!(scriptfront::utils::is_space(' '));
    assert!(scriptfront::utils::is_space('\n'));
    assert!(!scriptfront::utils::is_space('x'));
    assert!(scriptfront::utils::is_digital('7'));
    assert!(!scriptfront::utils::is_digital('x'));
    assert!(scriptfront::utils::is_alpha('_'));
    assert!(scriptfront::utils::is_alpha('Z'));
    assert!(!scriptfront::utils::is_alpha('1'));
    assert!(scriptfront::utils::is_alphadigital('1'));
    assert!(scriptfront::utils::is_alphadigital('a'));
    assert!(!scriptfront::utils::is_alphadigital('-'));
}
