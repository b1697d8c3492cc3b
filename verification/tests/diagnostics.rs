use sigc::compiler::lexer::{LexerError, Token, TokenMetadata, TokenType};
use sigc::compiler::parser::{Expected, ParseError};
use sigc::compiler::{compile, CompilerError};

fn at(line_number: usize, char_number: usize) -> TokenMetadata {
    TokenMetadata { line_number, char_number }
}

#[test]
fn lexer_errors_tell_position_and_kind() {
    let ended = LexerError::UnexpectedEndOfInput(at(3, 4));
    assert_eq!(ended.position(), at(3, 4));
    assert_eq!(ended.kind(), "unexpected end of input");
    let unknown = LexerError::UnrecognizedCharacter('#', at(5, 6));
    assert_eq!(unknown.position(), at(5, 6));
    assert_eq!(unknown.kind(), "unrecognized character");
}

#[test]
fn parse_errors_tell_position_and_kind() {
    let found = Token { lexeme: ";".to_string(), token_type: Some(TokenType::Semicolon), metadata: at(2, 9) };
    let unexpected = ParseError::UnexpectedToken {
        expected: Expected::Identifier,
        found: found.clone(),
        position: at(2, 9),
    };
    assert_eq!(unexpected.position(), at(2, 9));
    assert_eq!(unexpected.kind(), "unexpected token");
    let ended = ParseError::UnexpectedEndOfInput { expected: Expected::Semicolon, position: at(7, 1) };
    assert_eq!(ended.position(), at(7, 1));
    assert_eq!(ended.kind(), "unexpected end of input");
    let stray = ParseError::UnexpectedDeclaration(found);
    assert_eq!(stray.position(), at(2, 9));
    assert_eq!(stray.kind(), "unexpected declaration");
}

#[test]
fn compiler_errors_keep_the_error_of_the_stage_that_failed() {
    let scanning = compile("event A;\n  $").expect_err("a text that does not scan");
    assert_eq!(
        scanning,
        CompilerError::LexerError(LexerError::UnrecognizedCharacter('$', at(2, 3)))
    );
    assert_eq!(scanning.position(), Some(at(2, 3)));
    assert_eq!(scanning.kind(), "the source could not be scanned");
    let parsing = compile("event A;\n  event 1;").expect_err("a text that does not parse");
    match &parsing {
        CompilerError::ParseError(ParseError::UnexpectedToken { expected, found, position }) => {
            assert_eq!(*expected, Expected::Identifier);
            assert_eq!(found.lexeme, "1");
            assert_eq!(*position, at(2, 9));
        }
        other => panic!("{:?}", other),
    }
    assert_eq!(parsing.position(), Some(at(2, 9)));
    assert_eq!(parsing.kind(), "the source could not be parsed");
    let reading = CompilerError::IOError("no such file".to_string());
    assert_eq!(reading.position(), None);
    assert_eq!(reading.kind(), "the source could not be read");
}

#[test]
fn scanner_fails_before_the_parser_is_asked() {
    assert_eq!(
        compile("event ; #"),
        Err(CompilerError::LexerError(LexerError::UnrecognizedCharacter('#', at(1, 9))))
    );
}
