use sigc::compiler::lexer::{scan, LexerError, Token, TokenMetadata, TokenType};
use sigc::compiler::parser::integer::Integer;
use sigc::compiler::parser::syntax::{Declaration, Document, Expression};
use sigc::compiler::parser::ParseError;
use sigc::compiler::{compile, CompilerError};

const NAMES: [&str; 9] =
    ["x", "Started", "eventually", "letter", "even", "EVENT", "Let", "größe", "状態"];

const NUMERALS: [&str; 6] =
    ["0", "7", "100", "007", "18446744073709551616", "99999999999999999999999999999999"];

fn token(lexeme: &str, token_type: TokenType, column: usize) -> Token {
    Token {
        lexeme: lexeme.to_string(),
        token_type: Some(token_type),
        metadata: TokenMetadata { line_number: 1, char_number: column },
    }
}

#[test]
fn every_event_source_scans_to_three_tokens_and_one_declaration() {
    for name in NAMES {
        let source = format!("event {};", name);
        let length = name.chars().count();
        assert_eq!(
            scan(&source),
            Ok(vec![
                token("event", TokenType::Keyword, 1),
                token(name, TokenType::Identifier, 7),
                token(";", TokenType::Semicolon, 7 + length),
            ])
        );
        assert_eq!(
            compile(&source),
            Ok(Document(vec![Declaration::EventDeclaration { name: name.to_string() }]))
        );
    }
}

#[test]
fn every_let_source_scans_to_five_tokens_and_one_declaration() {
    for name in NAMES {
        for digits in NUMERALS {
            let source = format!("let {} = {};", name, digits);
            let length = name.chars().count();
            assert_eq!(
                scan(&source),
                Ok(vec![
                    token("let", TokenType::Keyword, 1),
                    token(name, TokenType::Identifier, 5),
                    token("=", TokenType::Assignment, 6 + length),
                    token(digits, TokenType::NumericLiteral, 8 + length),
                    token(";", TokenType::Semicolon, 8 + length + digits.len()),
                ])
            );
            let value = Integer::parse(digits).expect("a numeral");
            assert_eq!(value.to_u64(), digits.parse::<u64>().ok());
            assert_eq!(
                compile(&source),
                Ok(Document(vec![Declaration::LetDeclaration {
                    name: name.to_string(),
                    value: Expression::NumericLiteral(value),
                }]))
            );
        }
    }
}

#[test]
fn keyword_is_no_name() {
    for source in ["event let;", "event event;", "let event = 1;", "let let = 1;"] {
        match compile(source) {
            Err(CompilerError::ParseError(ParseError::UnexpectedToken { found, .. })) => {
                assert_eq!(found.token_type, Some(TokenType::Keyword));
            }
            other => panic!("{:?}", other),
        }
    }
}

#[test]
fn comment_line_in_front_changes_no_document() {
    let sources = [
        "event Started;",
        "let x = 100;",
        "foo(a, b) { }",
        "  start(state) {\n let next = 1;\n next; }\n event E; // tail",
        "",
        "\n",
    ];
    let comments = ["//", "// note", "//event X;", "// //", "//\t€ / ä"];
    for source in sources {
        let plain = compile(source);
        assert!(plain.is_ok());
        for comment in comments {
            assert_eq!(compile(&format!("{}\n{}", comment, source)), plain);
        }
    }
}

#[test]
fn comment_line_in_front_moves_an_error_one_line_down() {
    assert_eq!(
        scan("a\n ?"),
        Err(LexerError::UnrecognizedCharacter('?', TokenMetadata { line_number: 2, char_number: 2 }))
    );
    assert_eq!(
        scan("// c\na\n ?"),
        Err(LexerError::UnrecognizedCharacter('?', TokenMetadata { line_number: 3, char_number: 2 }))
    );
    assert_eq!(
        scan("x /"),
        Err(LexerError::UnexpectedEndOfInput(TokenMetadata { line_number: 1, char_number: 4 }))
    );
    assert_eq!(
        scan("//\nx /"),
        Err(LexerError::UnexpectedEndOfInput(TokenMetadata { line_number: 2, char_number: 4 }))
    );
    assert!(compile("event").is_err());
    assert!(compile("// c\nevent").is_err());
}

#[test]
fn blank_sources_compile_to_the_empty_document() {
    let blanks = [
        "",
        " ",
        "\n",
        "\r\n",
        "\t \n \u{a0}",
        "//",
        "// only a comment",
        "// just a comment\n",
        "  // one\n//two\n\n   //three   \n",
        "////\n//\n",
    ];
    for source in blanks {
        assert_eq!(scan(source), Ok(vec![]), "{:?}", source);
        assert_eq!(compile(source), Ok(Document(vec![])), "{:?}", source);
    }
}

#[test]
fn scanning_again_keeps_tags_and_texts() {
    let sources = [
        "event Started;",
        "let x=100;",
        "foo(a,b){}",
        "a1b2;;==((",
        "// c\n  event\n\n eventually ( let ) 12 lets,",
        "",
    ];
    for source in sources {
        let first = scan(source).expect("a text that scans");
        let lexemes: Vec<&str> = first.iter().map(|token| token.lexeme.as_str()).collect();
        let again = scan(&lexemes.join(" ")).expect("a text that scans");
        let content = |tokens: &Vec<Token>| -> Vec<(Option<TokenType>, String)> {
            tokens.iter().map(|token| (token.token_type, token.lexeme.clone())).collect()
        };
        assert_eq!(content(&first), content(&again), "{:?}", source);
    }
}

#[test]
fn every_token_has_a_tag_and_a_text() {
    let tokens = scan("event A; let b = 12; f(c, d) { e; }").expect("a text that scans");
    assert_eq!(tokens.len(), 18);
    for token in tokens {
        assert!(!token.lexeme.is_empty());
        assert!(token.token_type.is_some());
        assert_ne!(token.token_type, Some(TokenType::EndOfInput));
    }
}

#[test]
fn every_name_in_a_document_is_a_run_of_letters_and_no_keyword() {
    let source = "event Started; let größe = limit; start(state, 引数) { let next = state; next; 7; }";
    let Document(declarations) = compile(source).expect("a valid source");
    let mut names: Vec<String> = Vec::new();
    let mut note = |value: &Expression| {
        if let Expression::Identifier(name) = value {
            names.push(name.clone());
        }
    };
    let mut declared: Vec<String> = Vec::new();
    for declaration in &declarations {
        match declaration {
            Declaration::EventDeclaration { name } => declared.push(name.clone()),
            Declaration::LetDeclaration { name, value } => {
                declared.push(name.clone());
                note(value);
            }
            Declaration::FunctionDeclaration { name, parameters, body } => {
                declared.push(name.clone());
                declared.extend(parameters.iter().cloned());
                for statement in body {
                    match statement {
                        sigc::compiler::parser::syntax::Statement::Let { name, value } => {
                            declared.push(name.clone());
                            note(value);
                        }
                        sigc::compiler::parser::syntax::Statement::Expression(value) => note(value),
                    }
                }
            }
        }
    }
    names.extend(declared);
    names.sort();
    assert_eq!(
        names,
        vec!["Started", "größe", "limit", "next", "next", "start", "state", "state", "引数"]
    );
    for name in names {
        assert!(!name.is_empty());
        assert!(name.chars().all(char::is_alphabetic));
        assert!(name != "event" && name != "let");
    }
}
