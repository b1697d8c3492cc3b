//! The compiler front end: scanning, then parsing.

use vstd::prelude::*;
use crate::compiler::laws::{lemma_blank_compiles, lemma_compiled_names_are_names};
use crate::compiler::lexer::{scan, LexerError};
use crate::compiler::lexer::grammar::{is_blank, scan_result};
use crate::compiler::parser::{parse, ParseError, ParseErrorView};
use crate::compiler::parser::grammar::parse_result;
use crate::compiler::parser::syntax::{declaration_views, Document, DocumentView};

pub mod diagnostics;
pub mod laws;
pub mod lexer;
pub mod parser;

verus! {

/// Why a source text does not compile. The error of the stage that failed
/// is kept whole, with its position.
#[derive(Debug, Clone, PartialEq, Eq)]
pub enum CompilerError {
    /// The source could not be opened or read, for the reason given. Only a
    /// caller that reads the source from a file reports this; `compile`
    /// takes the text itself and never does.
    IOError(String),
    /// The scanner rejected the text.
    LexerError(LexerError),
    /// The parser rejected the tokens.
    ParseError(ParseError),
}

/// A compiler error as a mathematical value.
pub enum CompilerErrorView {
    IOError(Seq<char>),
    LexerError(LexerError),
    ParseError(ParseErrorView),
}

impl View for CompilerError {
    type V = CompilerErrorView;

    open spec fn view(&self) -> CompilerErrorView {
        match self {
            CompilerError::IOError(reason) => CompilerErrorView::IOError(reason@),
            CompilerError::LexerError(error) => CompilerErrorView::LexerError(*error),
            CompilerError::ParseError(error) => CompilerErrorView::ParseError(error@),
        }
    }
}

/// What compiling a text gives: the document that its tokens parse to, or
/// the error of the first stage that fails.
pub open spec fn compile_result(source: Seq<char>) -> Result<DocumentView, CompilerErrorView> {
    match scan_result(source) {
        Err(error) => Err(CompilerErrorView::LexerError(error)),
        Ok(tokens) => match parse_result(tokens) {
            Err(error) => Err(CompilerErrorView::ParseError(error)),
            Ok(document) => Ok(document),
        },
    }
}

/// Compiles a source text to its syntax tree: scans it, then parses the
/// tokens. A failure of either stage is the result, and is never passed
/// over.
///
/// Every name in the document is a run of letters and no keyword. An empty
/// text, or one of whitespace and comments alone, compiles to the empty
/// document.
pub fn compile(source: &str) -> (result: Result<Document, CompilerError>)
    ensures
        match compile_result(source@) {
            Ok(document) => result is Ok && result->Ok_0@ == document,
            Err(error) => result is Err && result->Err_0@ == error,
        },
        result matches Ok(document) ==> document@.well_named(),
        is_blank(source@) ==> (result matches Ok(document) && document.0@.len() == 0),
{
    proof {
        lemma_compiled_names_are_names(source@);
        if is_blank(source@) {
            lemma_blank_compiles(source@);
        }
    }
    let tokens = match scan(source) {
        Ok(tokens) => tokens,
        Err(error) => {
            return Err(CompilerError::LexerError(error));
        },
    };
    match parse(tokens.as_slice()) {
        Ok(document) => {
            assert(declaration_views(document.0@).len() == document.0@.len());
            Ok(document)
        },
        Err(error) => Err(CompilerError::ParseError(error)),
    }
}

} // verus!
