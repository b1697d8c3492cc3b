//! What every error tells: where it lies, and what kind of error it is, in
//! words.

use vstd::prelude::*;
use crate::compiler::{CompilerError, CompilerErrorView};
use crate::compiler::lexer::{LexerError, TokenMetadata};
use crate::compiler::parser::{ParseError, ParseErrorView};

verus! {

/// The position that a scanner's error carries.
pub open spec fn lexer_error_position(error: LexerError) -> TokenMetadata {
    match error {
        LexerError::UnexpectedEndOfInput(position) => position,
        LexerError::UnrecognizedCharacter(_, position) => position,
    }
}

/// The position that a parser's error carries: that of the token which is
/// at fault, or at the end of the tokens that of the last.
pub open spec fn parse_error_position(error: ParseErrorView) -> TokenMetadata {
    match error {
        ParseErrorView::UnexpectedToken { expected, found, position } => position,
        ParseErrorView::UnexpectedEndOfInput { expected, position } => position,
        ParseErrorView::UnexpectedDeclaration(found) => found.metadata,
    }
}

/// The position that a compiler's error carries. A source that cannot be
/// read has none.
pub open spec fn compiler_error_position(error: CompilerErrorView) -> Option<TokenMetadata> {
    match error {
        CompilerErrorView::IOError(_) => None,
        CompilerErrorView::LexerError(inner) => Some(lexer_error_position(inner)),
        CompilerErrorView::ParseError(inner) => Some(parse_error_position(inner)),
    }
}

impl LexerError {
    /// Where the error lies.
    pub fn position(&self) -> (position: TokenMetadata)
        ensures
            position == lexer_error_position(*self),
    {
        match self {
            LexerError::UnexpectedEndOfInput(position) => *position,
            LexerError::UnrecognizedCharacter(_, position) => *position,
        }
    }

    /// The kind of the error, in words.
    pub fn kind(&self) -> (kind: &'static str)
        ensures
            kind@ == match *self {
                LexerError::UnexpectedEndOfInput(_) => "unexpected end of input"@,
                LexerError::UnrecognizedCharacter(_, _) => "unrecognized character"@,
            },
    {
        match self {
            LexerError::UnexpectedEndOfInput(_) => "unexpected end of input",
            LexerError::UnrecognizedCharacter(_, _) => "unrecognized character",
        }
    }
}

impl ParseError {
    /// Where the error lies.
    pub fn position(&self) -> (position: TokenMetadata)
        ensures
            position == parse_error_position(self@),
    {
        match self {
            ParseError::UnexpectedToken { expected: _, found: _, position } => *position,
            ParseError::UnexpectedEndOfInput { expected: _, position } => *position,
            ParseError::UnexpectedDeclaration(found) => found.metadata,
        }
    }

    /// The kind of the error, in words.
    pub fn kind(&self) -> (kind: &'static str)
        ensures
            kind@ == match self@ {
                ParseErrorView::UnexpectedToken { .. } => "unexpected token"@,
                ParseErrorView::UnexpectedEndOfInput { .. } => "unexpected end of input"@,
                ParseErrorView::UnexpectedDeclaration(_) => "unexpected declaration"@,
            },
    {
        match self {
            ParseError::UnexpectedToken { .. } => "unexpected token",
            ParseError::UnexpectedEndOfInput { .. } => "unexpected end of input",
            ParseError::UnexpectedDeclaration(_) => "unexpected declaration",
        }
    }
}

impl CompilerError {
    /// Where the error lies, if it lies in the source text.
    pub fn position(&self) -> (position: Option<TokenMetadata>)
        ensures
            position == compiler_error_position(self@),
    {
        match self {
            CompilerError::IOError(_) => None,
            CompilerError::LexerError(error) => Some(error.position()),
            CompilerError::ParseError(error) => Some(error.position()),
        }
    }

    /// The stage that failed, in words.
    pub fn kind(&self) -> (kind: &'static str)
        ensures
            kind@ == match self@ {
                CompilerErrorView::IOError(_) => "the source could not be read"@,
                CompilerErrorView::LexerError(_) => "the source could not be scanned"@,
                CompilerErrorView::ParseError(_) => "the source could not be parsed"@,
            },
    {
        match self {
            CompilerError::IOError(_) => "the source could not be read",
            CompilerError::LexerError(_) => "the source could not be scanned",
            CompilerError::ParseError(_) => "the source could not be parsed",
        }
    }
}

} // verus!
