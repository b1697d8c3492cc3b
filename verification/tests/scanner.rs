use sigc::compiler::lexer::cursor::Cursor;
use sigc::compiler::lexer::{
    expect, identifier, lexeme, number, scan, symbol, whitespace, LexerError, Token,
    TokenMetadata, TokenType,
};

fn at(line_number: usize, char_number: usize) -> TokenMetadata {
    TokenMetadata { line_number, char_number }
}

fn token(lexeme: &str, token_type: TokenType, line: usize, column: usize) -> Token {
    Token { lexeme: lexeme.to_string(), token_type: Some(token_type), metadata: at(line, column) }
}

fn kinds(source: &str) -> Vec<(TokenType, String)> {
    scan(source)
        .expect("a text that scans")
        .into_iter()
        .map(|token| (token.token_type.expect("a tag"), token.lexeme))
        .collect()
}

#[test]
fn test_scan_comment() {
    let result = scan("// a comment\nevent Started;\n");
    assert!(result.is_ok())
}

#[test]
fn test_scan_singleevent() {
    let result = scan("event Started;");
    assert!(result.is_ok())
}

#[test]
fn test_scan_trailingnewline() {
    let result = scan("event Started;\n");
    assert!(result.is_ok())
}

#[test]
fn test_scan_singlelet() {
    let result = scan("let limit = 100;\n");
    assert!(result.is_ok())
}

#[test]
fn test_scan_statesandtransitions() {
    let result = scan("let idle = 0;\nevent Started;\nstart(state) { let next = idle; }\n");
    assert!(result.is_ok())
}

#[test]
fn test_scan_singleargumentfunction() {
    let result = scan("announce(message) {\n    message;\n}\n");
    assert!(result.is_ok())
}

#[test]
fn test_scan_onlynewline() {
    assert_eq!(scan("\n"), Ok(vec![]));
}

#[test]
fn test_scan_emptyfile() {
    assert_eq!(scan(""), Ok(vec![]));
}

#[test]
fn event_declaration_scans_to_three_tokens() {
    assert_eq!(
        scan("event Started;"),
        Ok(vec![
            token("event", TokenType::Keyword, 1, 1),
            token("Started", TokenType::Identifier, 1, 7),
            token(";", TokenType::Semicolon, 1, 14),
        ])
    );
}

#[test]
fn let_declaration_scans_to_five_tokens() {
    assert_eq!(
        scan("let x = 100;"),
        Ok(vec![
            token("let", TokenType::Keyword, 1, 1),
            token("x", TokenType::Identifier, 1, 5),
            token("=", TokenType::Assignment, 1, 7),
            token("100", TokenType::NumericLiteral, 1, 9),
            token(";", TokenType::Semicolon, 1, 12),
        ])
    );
}

#[test]
fn function_declaration_scans_every_punctuation_mark() {
    assert_eq!(
        scan("foo(a, b) { }"),
        Ok(vec![
            token("foo", TokenType::Identifier, 1, 1),
            token("(", TokenType::OpenParen, 1, 4),
            token("a", TokenType::Identifier, 1, 5),
            token(",", TokenType::Comma, 1, 6),
            token("b", TokenType::Identifier, 1, 8),
            token(")", TokenType::CloseParen, 1, 9),
            token("{", TokenType::OpenBrace, 1, 11),
            token("}", TokenType::CloseBrace, 1, 13),
        ])
    );
}

#[test]
fn keyword_with_more_letters_is_an_identifier() {
    assert_eq!(
        kinds("eventually lets event let eve le"),
        vec![
            (TokenType::Identifier, "eventually".to_string()),
            (TokenType::Identifier, "lets".to_string()),
            (TokenType::Keyword, "event".to_string()),
            (TokenType::Keyword, "let".to_string()),
            (TokenType::Identifier, "eve".to_string()),
            (TokenType::Identifier, "le".to_string()),
        ]
    );
}

#[test]
fn keywords_are_case_sensitive() {
    assert_eq!(
        kinds("Event LET"),
        vec![
            (TokenType::Identifier, "Event".to_string()),
            (TokenType::Identifier, "LET".to_string()),
        ]
    );
}

#[test]
fn letters_and_digits_part_without_whitespace() {
    assert_eq!(
        kinds("abc123def;"),
        vec![
            (TokenType::Identifier, "abc".to_string()),
            (TokenType::NumericLiteral, "123".to_string()),
            (TokenType::Identifier, "def".to_string()),
            (TokenType::Semicolon, ";".to_string()),
        ]
    );
}

#[test]
fn numeric_literal_is_the_whole_run_of_digits() {
    assert_eq!(
        kinds("0 007 340282366920938463463374607431768211456"),
        vec![
            (TokenType::NumericLiteral, "0".to_string()),
            (TokenType::NumericLiteral, "007".to_string()),
            (TokenType::NumericLiteral, "340282366920938463463374607431768211456".to_string()),
        ]
    );
}

#[test]
fn letters_beyond_ascii_make_identifiers() {
    assert_eq!(
        scan("event 開始;\nlet größe = 1;"),
        Ok(vec![
            token("event", TokenType::Keyword, 1, 1),
            token("開始", TokenType::Identifier, 1, 7),
            token(";", TokenType::Semicolon, 1, 9),
            token("let", TokenType::Keyword, 2, 1),
            token("größe", TokenType::Identifier, 2, 5),
            token("=", TokenType::Assignment, 2, 11),
            token("1", TokenType::NumericLiteral, 2, 13),
            token(";", TokenType::Semicolon, 2, 14),
        ])
    );
}

#[test]
fn whitespace_beyond_ascii_is_skipped() {
    assert_eq!(
        scan("a\u{a0}b\u{2003}c\u{3000}d\u{85}e"),
        Ok(vec![
            token("a", TokenType::Identifier, 1, 1),
            token("b", TokenType::Identifier, 1, 3),
            token("c", TokenType::Identifier, 1, 5),
            token("d", TokenType::Identifier, 1, 7),
            token("e", TokenType::Identifier, 1, 9),
        ])
    );
}

#[test]
fn positions_count_lines_and_columns_from_one() {
    assert_eq!(
        scan("\n\n  event\n\tA ;"),
        Ok(vec![
            token("event", TokenType::Keyword, 3, 3),
            token("A", TokenType::Identifier, 4, 2),
            token(";", TokenType::Semicolon, 4, 4),
        ])
    );
}

#[test]
fn carriage_return_is_whitespace_and_no_line_break() {
    assert_eq!(
        scan("a\r\nb\rc"),
        Ok(vec![
            token("a", TokenType::Identifier, 1, 1),
            token("b", TokenType::Identifier, 2, 1),
            token("c", TokenType::Identifier, 2, 3),
        ])
    );
}

#[test]
fn comment_to_the_end_of_the_line_is_skipped() {
    assert_eq!(
        scan("a // b c ;\n// d\n e //"),
        Ok(vec![
            token("a", TokenType::Identifier, 1, 1),
            token("e", TokenType::Identifier, 3, 2),
        ])
    );
}

#[test]
fn comment_line_moves_the_tokens_one_line_down() {
    let plain = scan("event  A;\n let b = 2;").expect("a text that scans");
    let commented = scan("// anything at all, even // or ;\nevent  A;\n let b = 2;")
        .expect("a text that scans");
    assert_eq!(plain.len(), commented.len());
    for (left, right) in plain.iter().zip(commented.iter()) {
        assert_eq!(left.lexeme, right.lexeme);
        assert_eq!(left.token_type, right.token_type);
        assert_eq!(left.metadata.line_number + 1, right.metadata.line_number);
        assert_eq!(left.metadata.char_number, right.metadata.char_number);
    }
}

#[test]
fn scanning_the_lexemes_again_gives_the_same_tags() {
    let source = "// head\nevent Started;let x=100;\nfoo(a,b){eventually 7;}";
    let first = scan(source).expect("a text that scans");
    let spelled: Vec<String> = first.iter().map(|token| token.lexeme.clone()).collect();
    let again = scan(&spelled.join(" ")).expect("a text that scans");
    assert_eq!(first.len(), 19);
    assert_eq!(first.len(), again.len());
    for (left, right) in first.iter().zip(again.iter()) {
        assert_eq!(left.token_type, right.token_type);
        assert_eq!(left.lexeme, right.lexeme);
    }
}

#[test]
fn positions_never_go_back() {
    let tokens = scan("a b\n\nc(d,\n e) { 1; }\n// x\nf").expect("a text that scans");
    for pair in tokens.windows(2) {
        let first = (pair[0].metadata.line_number, pair[0].metadata.char_number);
        let second = (pair[1].metadata.line_number, pair[1].metadata.char_number);
        assert!(first < second);
    }
}

#[test]
fn unrecognized_character_is_reported_with_its_position() {
    assert_eq!(scan("let x = 1;\n  @"), Err(LexerError::UnrecognizedCharacter('@', at(2, 3))));
    assert_eq!(scan("a_b"), Err(LexerError::UnrecognizedCharacter('_', at(1, 2))));
    assert_eq!(scan("x + y"), Err(LexerError::UnrecognizedCharacter('+', at(1, 3))));
    assert_eq!(scan("€"), Err(LexerError::UnrecognizedCharacter('€', at(1, 1))));
    assert_eq!(scan("a\u{200b}b"), Err(LexerError::UnrecognizedCharacter('\u{200b}', at(1, 2))));
    assert_eq!(scan("x٣"), Err(LexerError::UnrecognizedCharacter('٣', at(1, 2))));
}

#[test]
fn single_slash_is_an_error() {
    assert_eq!(scan("a / b"), Err(LexerError::UnrecognizedCharacter('/', at(1, 3))));
    assert_eq!(scan("a\n/"), Err(LexerError::UnexpectedEndOfInput(at(2, 2))));
}

#[test]
fn expect_reads_the_lexeme_and_gives_its_token() {
    let mut cursor = Cursor::new("  event x");
    cursor.advance_by(2);
    let read = expect(&mut cursor, "event", Some(TokenType::Keyword));
    assert_eq!(read, Ok(token("event", TokenType::Keyword, 1, 3)));
    assert_eq!(cursor.position(), at(1, 8));
    let untagged = expect(&mut cursor, " x", None);
    assert_eq!(
        untagged,
        Ok(Token { lexeme: " x".to_string(), token_type: None, metadata: at(1, 8) })
    );
    assert!(cursor.at_end());
}

#[test]
fn expect_leaves_the_cursor_where_it_fails() {
    let mut cursor = Cursor::new("evil");
    assert_eq!(
        expect(&mut cursor, "event", Some(TokenType::Keyword)),
        Err(LexerError::UnrecognizedCharacter('e', at(1, 1)))
    );
    assert_eq!(cursor.position(), at(1, 1));
    let mut short = Cursor::new("x\neve");
    short.advance_by(2);
    assert_eq!(
        expect(&mut short, "event", Some(TokenType::Keyword)),
        Err(LexerError::UnexpectedEndOfInput(at(2, 4)))
    );
    assert_eq!(short.position(), at(2, 1));
    let mut empty = Cursor::new("");
    assert_eq!(expect(&mut empty, "", None).map(|token| token.lexeme), Ok(String::new()));
}

#[test]
fn whitespace_stops_at_the_first_lexeme() {
    let mut cursor = Cursor::new(" \n// c\n\t x");
    assert_eq!(whitespace(&mut cursor), Ok(()));
    assert_eq!(cursor.peek(), Some('x'));
    assert_eq!(cursor.position(), at(3, 3));
    assert_eq!(whitespace(&mut cursor), Ok(()));
    assert_eq!(cursor.position(), at(3, 3));
}

#[test]
fn whitespace_stops_at_a_slash_that_opens_no_comment() {
    let mut cursor = Cursor::new("  /x");
    assert_eq!(whitespace(&mut cursor), Err(LexerError::UnrecognizedCharacter('/', at(1, 3))));
    assert_eq!(cursor.position(), at(1, 3));
}

#[test]
fn identifier_reads_a_word_or_nothing() {
    let mut tokens = Vec::new();
    let mut cursor = Cursor::new("let1");
    assert_eq!(identifier(&mut cursor, &mut tokens), Ok(()));
    assert_eq!(tokens, vec![token("let", TokenType::Keyword, 1, 1)]);
    assert_eq!(
        identifier(&mut cursor, &mut tokens),
        Err(LexerError::UnrecognizedCharacter('1', at(1, 4)))
    );
    assert_eq!(tokens.len(), 1);
    assert_eq!(cursor.position(), at(1, 4));
    cursor.advance();
    assert_eq!(
        identifier(&mut cursor, &mut tokens),
        Err(LexerError::UnexpectedEndOfInput(at(1, 5)))
    );
}

#[test]
fn number_reads_digits_or_nothing() {
    let mut tokens = Vec::new();
    let mut cursor = Cursor::new("42x");
    assert_eq!(number(&mut cursor, &mut tokens), Ok(()));
    assert_eq!(tokens, vec![token("42", TokenType::NumericLiteral, 1, 1)]);
    assert_eq!(
        number(&mut cursor, &mut tokens),
        Err(LexerError::UnrecognizedCharacter('x', at(1, 3)))
    );
    assert_eq!(tokens.len(), 1);
}

#[test]
fn symbol_reads_one_punctuation_mark_or_nothing() {
    let mut tokens = Vec::new();
    let mut cursor = Cursor::new(";=(){},a");
    for _ in 0..7 {
        assert_eq!(symbol(&mut cursor, &mut tokens), Ok(()));
    }
    let read: Vec<TokenType> = tokens.iter().map(|token| token.token_type.unwrap()).collect();
    assert_eq!(
        read,
        vec![
            TokenType::Semicolon,
            TokenType::Assignment,
            TokenType::OpenParen,
            TokenType::CloseParen,
            TokenType::OpenBrace,
            TokenType::CloseBrace,
            TokenType::Comma,
        ]
    );
    assert_eq!(
        symbol(&mut cursor, &mut tokens),
        Err(LexerError::UnrecognizedCharacter('a', at(1, 8)))
    );
}

#[test]
fn lexeme_chooses_by_the_first_character() {
    let mut tokens = Vec::new();
    let mut cursor = Cursor::new("a1; ");
    assert_eq!(lexeme(&mut cursor, &mut tokens), Ok(()));
    assert_eq!(lexeme(&mut cursor, &mut tokens), Ok(()));
    assert_eq!(lexeme(&mut cursor, &mut tokens), Ok(()));
    assert_eq!(
        tokens,
        vec![
            token("a", TokenType::Identifier, 1, 1),
            token("1", TokenType::NumericLiteral, 1, 2),
            token(";", TokenType::Semicolon, 1, 3),
        ]
    );
    assert_eq!(
        lexeme(&mut cursor, &mut tokens),
        Err(LexerError::UnrecognizedCharacter(' ', at(1, 4)))
    );
}
