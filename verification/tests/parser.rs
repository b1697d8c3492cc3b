use sigc::compiler::lexer::{scan, Token, TokenMetadata, TokenType};
use sigc::compiler::parser::integer::Integer;
use sigc::compiler::parser::syntax::{Declaration, Document, Expression, Statement};
use sigc::compiler::parser::{
    binding, declaration, document, event, expression, function, identifier, parameters, parse,
    scope, statement, token, Expected, ParseError, TokenCursor,
};

fn at(line_number: usize, char_number: usize) -> TokenMetadata {
    TokenMetadata { line_number, char_number }
}

fn tokens_of(source: &str) -> Vec<Token> {
    scan(source).expect("a text that scans")
}

fn parsed(source: &str) -> Result<Document, ParseError> {
    parse(&tokens_of(source))
}

fn numeral(text: &str) -> Expression {
    Expression::NumericLiteral(Integer::parse(text).expect("a numeral"))
}

fn name(text: &str) -> Expression {
    Expression::Identifier(text.to_string())
}

fn unexpected(expected: Expected, lexeme: &str, kind: TokenType, line: usize, column: usize) -> ParseError {
    ParseError::UnexpectedToken {
        expected,
        found: Token {
            lexeme: lexeme.to_string(),
            token_type: Some(kind),
            metadata: at(line, column),
        },
        position: at(line, column),
    }
}

fn ended(expected: Expected, line: usize, column: usize) -> ParseError {
    ParseError::UnexpectedEndOfInput { expected, position: at(line, column) }
}

#[test]
fn no_tokens_parse_to_the_empty_document() {
    assert_eq!(parse(&[]), Ok(Document(vec![])));
}

#[test]
fn event_parses() {
    assert_eq!(
        parsed("event Started;"),
        Ok(Document(vec![Declaration::EventDeclaration { name: "Started".to_string() }]))
    );
}

#[test]
fn let_parses_a_number_and_a_name() {
    assert_eq!(
        parsed("let x = 100; let y = x;"),
        Ok(Document(vec![
            Declaration::LetDeclaration { name: "x".to_string(), value: numeral("100") },
            Declaration::LetDeclaration { name: "y".to_string(), value: name("x") },
        ]))
    );
}

#[test]
fn function_parses_parameters_and_statements() {
    assert_eq!(
        parsed("f() { } g(a) { a; } h(a, b, c) { let d = 1; d; 2; let e = a; }"),
        Ok(Document(vec![
            Declaration::FunctionDeclaration {
                name: "f".to_string(),
                parameters: vec![],
                body: vec![],
            },
            Declaration::FunctionDeclaration {
                name: "g".to_string(),
                parameters: vec!["a".to_string()],
                body: vec![Statement::Expression(name("a"))],
            },
            Declaration::FunctionDeclaration {
                name: "h".to_string(),
                parameters: vec!["a".to_string(), "b".to_string(), "c".to_string()],
                body: vec![
                    Statement::Let { name: "d".to_string(), value: numeral("1") },
                    Statement::Expression(name("d")),
                    Statement::Expression(numeral("2")),
                    Statement::Let { name: "e".to_string(), value: name("a") },
                ],
            },
        ]))
    );
}

#[test]
fn numeral_of_any_length_keeps_its_value() {
    let digits = "123456789012345678901234567890123456789012345678901234567890";
    let source = format!("let big = {};", digits);
    let expected = Document(vec![Declaration::LetDeclaration {
        name: "big".to_string(),
        value: numeral(digits),
    }]);
    assert_eq!(parsed(&source), Ok(expected));
}

#[test]
fn leading_zeros_do_not_change_the_value() {
    assert_eq!(parsed("let x = 007;"), parsed("let x = 7;"));
    assert_ne!(parsed("let x = 70;"), parsed("let x = 7;"));
}

#[test]
fn token_that_begins_no_declaration_is_unexpected_declaration() {
    let semicolon = Token {
        lexeme: ";".to_string(),
        token_type: Some(TokenType::Semicolon),
        metadata: at(1, 10),
    };
    assert_eq!(parsed("event A; ; event B;"), Err(ParseError::UnexpectedDeclaration(semicolon)));
    let number = Token {
        lexeme: "12".to_string(),
        token_type: Some(TokenType::NumericLiteral),
        metadata: at(2, 1),
    };
    assert_eq!(parsed("\n12"), Err(ParseError::UnexpectedDeclaration(number)));
}

#[test]
fn untagged_token_begins_no_declaration() {
    let untagged = Token { lexeme: "event".to_string(), token_type: None, metadata: at(1, 1) };
    let marker =
        Token { lexeme: String::new(), token_type: Some(TokenType::EndOfInput), metadata: at(1, 1) };
    let keyword = Token {
        lexeme: "while".to_string(),
        token_type: Some(TokenType::Keyword),
        metadata: at(1, 1),
    };
    for found in [untagged, marker, keyword] {
        assert_eq!(parse(&[found.clone()]), Err(ParseError::UnexpectedDeclaration(found)));
    }
}

#[test]
fn event_errors_name_what_was_expected() {
    assert_eq!(parsed("event"), Err(ended(Expected::Identifier, 1, 1)));
    assert_eq!(parsed("event A"), Err(ended(Expected::Semicolon, 1, 7)));
    assert_eq!(
        parsed("event ;"),
        Err(unexpected(Expected::Identifier, ";", TokenType::Semicolon, 1, 7))
    );
    assert_eq!(
        parsed("event let;"),
        Err(unexpected(Expected::Identifier, "let", TokenType::Keyword, 1, 7))
    );
    assert_eq!(
        parsed("event A B;"),
        Err(unexpected(Expected::Semicolon, "B", TokenType::Identifier, 1, 9))
    );
}

#[test]
fn let_errors_name_what_was_expected() {
    assert_eq!(parsed("let"), Err(ended(Expected::Identifier, 1, 1)));
    assert_eq!(parsed("let x"), Err(ended(Expected::Assignment, 1, 5)));
    assert_eq!(parsed("let x ="), Err(ended(Expected::NumericLiteralOrIdentifier, 1, 7)));
    assert_eq!(parsed("let x = 1"), Err(ended(Expected::Semicolon, 1, 9)));
    assert_eq!(
        parsed("let x 1;"),
        Err(unexpected(Expected::Assignment, "1", TokenType::NumericLiteral, 1, 7))
    );
    assert_eq!(
        parsed("let x = ;"),
        Err(unexpected(Expected::NumericLiteralOrIdentifier, ";", TokenType::Semicolon, 1, 9))
    );
    assert_eq!(
        parsed("let x = event;"),
        Err(unexpected(Expected::NumericLiteralOrIdentifier, "event", TokenType::Keyword, 1, 9))
    );
    assert_eq!(
        parsed("let x = 1 2;"),
        Err(unexpected(Expected::Semicolon, "2", TokenType::NumericLiteral, 1, 11))
    );
}

#[test]
fn function_errors_name_what_was_expected() {
    assert_eq!(parsed("f"), Err(ended(Expected::OpenParen, 1, 1)));
    assert_eq!(parsed("f("), Err(ended(Expected::IdentifierOrCloseParen, 1, 2)));
    assert_eq!(parsed("f(a"), Err(ended(Expected::CommaOrCloseParen, 1, 3)));
    assert_eq!(parsed("f(a,"), Err(ended(Expected::Identifier, 1, 4)));
    assert_eq!(parsed("f()"), Err(ended(Expected::OpenBrace, 1, 3)));
    assert_eq!(parsed("f() {"), Err(ended(Expected::StatementOrCloseBrace, 1, 5)));
    assert_eq!(parsed("f() { a"), Err(ended(Expected::Semicolon, 1, 7)));
    assert_eq!(
        parsed("f;"),
        Err(unexpected(Expected::OpenParen, ";", TokenType::Semicolon, 1, 2))
    );
    assert_eq!(
        parsed("f(1)"),
        Err(unexpected(Expected::IdentifierOrCloseParen, "1", TokenType::NumericLiteral, 1, 3))
    );
    assert_eq!(
        parsed("f(a b)"),
        Err(unexpected(Expected::CommaOrCloseParen, "b", TokenType::Identifier, 1, 5))
    );
    assert_eq!(
        parsed("f(a,)"),
        Err(unexpected(Expected::Identifier, ")", TokenType::CloseParen, 1, 5))
    );
    assert_eq!(
        parsed("f() a"),
        Err(unexpected(Expected::OpenBrace, "a", TokenType::Identifier, 1, 5))
    );
    assert_eq!(
        parsed("f() { event A; }"),
        Err(unexpected(Expected::StatementOrCloseBrace, "event", TokenType::Keyword, 1, 7))
    );
    assert_eq!(
        parsed("f() { ; }"),
        Err(unexpected(Expected::StatementOrCloseBrace, ";", TokenType::Semicolon, 1, 7))
    );
    assert_eq!(
        parsed("f() { a }"),
        Err(unexpected(Expected::Semicolon, "}", TokenType::CloseBrace, 1, 9))
    );
}

#[test]
fn first_error_ends_the_parse() {
    assert_eq!(
        parsed("event A;\nevent ;\nlet = ;"),
        Err(unexpected(Expected::Identifier, ";", TokenType::Semicolon, 2, 7))
    );
}

#[test]
fn numeric_token_that_is_no_numeral_is_no_expression() {
    let made = |lexeme: &str, kind: TokenType, column: usize| Token {
        lexeme: lexeme.to_string(),
        token_type: Some(kind),
        metadata: at(1, column),
    };
    let tokens = vec![
        made("let", TokenType::Keyword, 1),
        made("x", TokenType::Identifier, 5),
        made("=", TokenType::Assignment, 7),
        made("1a", TokenType::NumericLiteral, 9),
        made(";", TokenType::Semicolon, 11),
    ];
    assert_eq!(
        parse(&tokens),
        Err(unexpected(Expected::NumericLiteralOrIdentifier, "1a", TokenType::NumericLiteral, 1, 9))
    );
}

#[test]
fn parsing_does_not_depend_on_positions() {
    let here = tokens_of("f(a) { let b = 1; b; } event E;");
    let there: Vec<Token> = here
        .iter()
        .map(|token| Token {
            lexeme: token.lexeme.clone(),
            token_type: token.token_type,
            metadata: at(99, 1),
        })
        .collect();
    assert_eq!(parse(&here), parse(&there));
    assert!(parse(&here).is_ok());
}

#[test]
fn cursor_peeks_and_advances() {
    let tokens = tokens_of("a ;");
    let mut cursor = TokenCursor::new(&tokens);
    assert!(!cursor.at_end());
    assert_eq!(cursor.peek(), Some(&tokens[0]));
    assert!(cursor.is_kind(TokenType::Identifier));
    assert!(!cursor.is_kind(TokenType::Semicolon));
    cursor.advance();
    assert_eq!(cursor.peek(), Some(&tokens[1]));
    cursor.advance();
    assert!(cursor.at_end());
    assert_eq!(cursor.peek(), None);
    assert!(!cursor.is_kind(TokenType::EndOfInput));
    cursor.advance();
    assert!(cursor.at_end());
    assert_eq!(cursor.end_position(), at(1, 3));
    assert_eq!(cursor.mismatch(Expected::Semicolon), ended(Expected::Semicolon, 1, 3));
    assert_eq!(TokenCursor::new(&[]).end_position(), at(1, 1));
}

#[test]
fn routines_read_their_part_and_stop_behind_it() {
    let tokens = tokens_of("a ; = 7 x y , z ) let b = c ; d ; } ( ) { } event E ;");
    let mut cursor = TokenCursor::new(&tokens);
    assert_eq!(identifier(&mut cursor), Ok("a".to_string()));
    assert_eq!(token(&mut cursor, TokenType::Semicolon, Expected::Semicolon), Ok(()));
    assert_eq!(
        token(&mut cursor, TokenType::Semicolon, Expected::Semicolon),
        Err(unexpected(Expected::Semicolon, "=", TokenType::Assignment, 1, 5))
    );
    assert_eq!(token(&mut cursor, TokenType::Assignment, Expected::Assignment), Ok(()));
    assert_eq!(expression(&mut cursor), Ok(numeral("7")));
    assert_eq!(expression(&mut cursor), Ok(name("x")));
    assert_eq!(parameters(&mut cursor), Ok(vec!["y".to_string(), "z".to_string()]));
    assert_eq!(
        statement(&mut cursor),
        Ok(Statement::Let { name: "b".to_string(), value: name("c") })
    );
    assert_eq!(scope(&mut cursor), Ok(vec![Statement::Expression(name("d"))]));
    assert_eq!(function(&mut cursor), Ok((vec![], vec![])));
    assert_eq!(
        declaration(&mut cursor),
        Ok(Declaration::EventDeclaration { name: "E".to_string() })
    );
    assert!(cursor.at_end());
    assert_eq!(document(&mut cursor), Ok(Document(vec![])));
}

#[test]
fn event_and_binding_read_what_follows_the_keyword() {
    let tokens = tokens_of("A ; b = 1 ;");
    let mut cursor = TokenCursor::new(&tokens);
    assert_eq!(event(&mut cursor), Ok(Declaration::EventDeclaration { name: "A".to_string() }));
    assert_eq!(binding(&mut cursor), Ok(("b".to_string(), numeral("1"))));
    assert!(cursor.at_end());
}

#[test]
fn failed_routine_leaves_the_cursor_at_the_token_at_fault() {
    let tokens = tokens_of("let x = ; y");
    let mut cursor = TokenCursor::new(&tokens);
    assert!(declaration(&mut cursor).is_err());
    assert_eq!(cursor.peek(), Some(&tokens[3]));
}
