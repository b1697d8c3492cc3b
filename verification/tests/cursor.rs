use sigc::compiler::lexer::characters::{classify, digit, punctuation, CharClass};
use sigc::compiler::lexer::cursor::Cursor;
use sigc::compiler::lexer::{is_event_keyword, is_let_keyword, keyword, TokenMetadata, TokenType};

fn at(line_number: usize, char_number: usize) -> TokenMetadata {
    TokenMetadata { line_number, char_number }
}

#[test]
fn cursor_starts_at_line_one_column_one() {
    let cursor = Cursor::new("ab");
    assert_eq!(cursor.position(), at(1, 1));
    assert_eq!(cursor.peek(), Some('a'));
    assert_eq!(cursor.peek_ahead(1), Some('b'));
    assert_eq!(cursor.peek_ahead(2), None);
    assert!(!cursor.at_end());
    assert_eq!(cursor.end_position(), at(1, 3));
}

#[test]
fn empty_cursor_is_at_its_end() {
    let mut cursor = Cursor::new("");
    assert!(cursor.at_end());
    assert_eq!(cursor.peek(), None);
    assert_eq!(cursor.peek_ahead(0), None);
    assert_eq!(cursor.position(), at(1, 1));
    assert_eq!(cursor.end_position(), at(1, 1));
    cursor.advance();
    cursor.advance_by(3);
    assert_eq!(cursor.position(), at(1, 1));
}

#[test]
fn line_feed_begins_a_new_line() {
    let mut cursor = Cursor::new("a\n\nbc\n");
    let mut seen = Vec::new();
    while let Some(c) = cursor.peek() {
        seen.push((c, cursor.position()));
        cursor.advance();
    }
    assert_eq!(
        seen,
        vec![
            ('a', at(1, 1)),
            ('\n', at(1, 2)),
            ('\n', at(2, 1)),
            ('b', at(3, 1)),
            ('c', at(3, 2)),
            ('\n', at(3, 3)),
        ]
    );
    assert_eq!(cursor.position(), at(4, 1));
    assert_eq!(cursor.end_position(), at(4, 1));
}

#[test]
fn columns_count_characters_not_bytes() {
    let mut cursor = Cursor::new("äö€𝄞x");
    cursor.advance_by(4);
    assert_eq!(cursor.peek(), Some('x'));
    assert_eq!(cursor.position(), at(1, 5));
}

#[test]
fn advance_by_stops_at_the_end() {
    let mut cursor = Cursor::new("ab\ncd");
    cursor.advance_by(0);
    assert_eq!(cursor.position(), at(1, 1));
    cursor.advance_by(4);
    assert_eq!(cursor.position(), at(2, 2));
    cursor.advance_by(100);
    assert!(cursor.at_end());
    assert_eq!(cursor.position(), at(2, 3));
}

#[test]
fn end_position_does_not_move_the_cursor() {
    let mut cursor = Cursor::new("a\nbcd\ne");
    cursor.advance();
    assert_eq!(cursor.end_position(), at(3, 2));
    assert_eq!(cursor.position(), at(1, 2));
}

#[test]
fn ascii_characters_have_their_classes() {
    for c in [' ', '\t', '\n', '\u{b}', '\u{c}', '\r'] {
        assert_eq!(classify(c), CharClass::Whitespace, "{:?}", c);
    }
    for c in ['a', 'm', 'z', 'A', 'M', 'Z'] {
        assert_eq!(classify(c), CharClass::Letter, "{:?}", c);
    }
    for c in ['0', '5', '9'] {
        assert_eq!(classify(c), CharClass::Digit, "{:?}", c);
    }
    assert_eq!(classify('/'), CharClass::Slash);
    for c in [';', '=', '(', ')', '{', '}', ','] {
        assert_eq!(classify(c), CharClass::Punctuation, "{:?}", c);
    }
    for c in ['\0', '\u{8}', '\u{e}', '\u{1f}', '!', '_', '@', '[', '`', '~', '\u{7f}', '+', '-', '.', ':'] {
        assert_eq!(classify(c), CharClass::Unrecognized, "{:?}", c);
    }
}

#[test]
fn characters_beyond_ascii_have_their_classes() {
    for c in ['é', 'ß', 'Ω', 'я', '漢', 'ひ', 'ª', 'ⅷ'] {
        assert_eq!(classify(c), CharClass::Letter, "{:?}", c);
    }
    for c in ['\u{85}', '\u{a0}', '\u{1680}', '\u{2000}', '\u{2028}', '\u{2029}', '\u{3000}'] {
        assert_eq!(classify(c), CharClass::Whitespace, "{:?}", c);
    }
    for c in ['€', '💝', '٣', '１', '\u{200b}', '\u{80}', '×', '–'] {
        assert_eq!(classify(c), CharClass::Unrecognized, "{:?}", c);
    }
}

#[test]
fn punctuation_marks_have_their_tags() {
    assert_eq!(punctuation(';'), Some(TokenType::Semicolon));
    assert_eq!(punctuation('='), Some(TokenType::Assignment));
    assert_eq!(punctuation('('), Some(TokenType::OpenParen));
    assert_eq!(punctuation(')'), Some(TokenType::CloseParen));
    assert_eq!(punctuation('{'), Some(TokenType::OpenBrace));
    assert_eq!(punctuation('}'), Some(TokenType::CloseBrace));
    assert_eq!(punctuation(','), Some(TokenType::Comma));
    for c in ['/', 'a', '1', ' ', ':', '[', '；'] {
        assert_eq!(punctuation(c), None, "{:?}", c);
    }
}

#[test]
fn digits_have_their_values() {
    for (value, c) in "0123456789".chars().enumerate() {
        assert_eq!(digit(c), Some(value as u8));
    }
    for c in ['/', ':', 'a', ' ', '٣', '１'] {
        assert_eq!(digit(c), None, "{:?}", c);
    }
}

#[test]
fn keywords_are_event_and_let() {
    assert!(is_event_keyword(&"event".to_string()));
    assert!(!is_event_keyword(&"let".to_string()));
    assert!(is_let_keyword(&"let".to_string()));
    assert!(!is_let_keyword(&"event".to_string()));
    for word in ["event", "let"] {
        assert!(keyword(&word.to_string()));
    }
    for word in ["", "even", "events", "Event", "le", "lets", "LET", "function"] {
        assert!(!keyword(&word.to_string()), "{:?}", word);
    }
}
