use sigc::compiler::lexer::TokenType;
use sigc::compiler::parser::integer::Integer;
use sigc::compiler::parser::syntax::{Declaration, Document, Expression};
use sigc::compiler::parser::{Expected, ParseError};
use sigc::compiler::{compile, CompilerError};

fn number(text: &str) -> Expression {
    Expression::NumericLiteral(Integer::parse(text).expect("a numeral"))
}

#[test]
fn single_event_compiles_to_one_event_declaration() {
    let expected = Document(vec![Declaration::EventDeclaration { name: "Started".to_string() }]);
    assert_eq!(compile("event Started;"), Ok(expected));
}

#[test]
fn single_let_compiles_to_one_let_declaration() {
    let expected = Document(vec![Declaration::LetDeclaration {
        name: "x".to_string(),
        value: number("100"),
    }]);
    assert_eq!(compile("let x = 100;"), Ok(expected));
    match compile("let x = 100;") {
        Ok(Document(declarations)) => match &declarations[0] {
            Declaration::LetDeclaration { value: Expression::NumericLiteral(n), .. } => {
                assert_eq!(n.to_u64(), Some(100));
            }
            other => panic!("not a let declaration: {:?}", other),
        },
        Err(error) => panic!("{:?}", error),
    }
}

#[test]
fn comment_alone_compiles_to_empty_document() {
    assert_eq!(compile("// just a comment\n"), Ok(Document(vec![])));
}

#[test]
fn truncated_event_is_unexpected_end_of_input() {
    match compile("event") {
        Err(CompilerError::ParseError(ParseError::UnexpectedEndOfInput { expected, position })) => {
            assert_eq!(expected, Expected::Identifier);
            assert_eq!((position.line_number, position.char_number), (1, 1));
        }
        other => panic!("{:?}", other),
    }
}

#[test]
fn let_without_value_is_unexpected_token() {
    match compile("let x = ;") {
        Err(CompilerError::ParseError(ParseError::UnexpectedToken { expected, found, position })) => {
            assert_eq!(expected, Expected::NumericLiteralOrIdentifier);
            assert_eq!(found.token_type, Some(TokenType::Semicolon));
            assert_eq!(found.lexeme, ";");
            assert_eq!((position.line_number, position.char_number), (1, 9));
        }
        other => panic!("{:?}", other),
    }
}

#[test]
fn function_with_two_parameters_and_empty_body() {
    let expected = Document(vec![Declaration::FunctionDeclaration {
        name: "foo".to_string(),
        parameters: vec!["a".to_string(), "b".to_string()],
        body: vec![],
    }]);
    assert_eq!(compile("foo(a, b) { }"), Ok(expected));
}
