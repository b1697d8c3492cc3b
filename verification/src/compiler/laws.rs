//! What holds of compiling, for every source text.

use vstd::prelude::*;
use crate::compiler::{compile_result, CompilerErrorView};
use crate::compiler::lexer::TokenType;
use crate::compiler::lexer::grammar::{
    event_keyword, is_blank, is_lexeme, let_keyword, scan_from, scan_result, tokens_at,
};
use crate::compiler::lexer::laws::{
    comment_line, event_source, event_spans, lemma_blank_has_no_tokens,
    lemma_comment_line_is_skipped, lemma_event_spans, lemma_let_spans,
    lemma_tokens_are_scanned, let_source, let_spans,
};
use crate::compiler::lexer::reading::{lemma_moved_tokens_keep_content, lemma_spans_in_order};
use crate::compiler::lexer::shifting::moved_spans;
use crate::compiler::parser::integer::numeral_value;
use crate::compiler::parser::laws::{
    lemma_event_parses, lemma_let_parses, lemma_nothing_parses, lemma_parse_reads_content,
    lemma_parsed_names_are_names,
};
use crate::compiler::parser::syntax::{DeclarationView, DocumentView, ExpressionView};

verus! {

/// For every name that is a run of letters and no keyword, the text
/// `event name;` compiles to the document of the one event `name`.
pub proof fn lemma_event_compiles(name: Seq<char>)
    requires
        is_lexeme(TokenType::Identifier, name),
    ensures
        compile_result(event_source(name)) == Ok::<DocumentView, CompilerErrorView>(
            DocumentView(seq![DeclarationView::EventDeclaration { name }]),
        ),
{
    let s = event_source(name);
    let n = name.len() as int;
    let tokens = tokens_at(s, event_spans(name));
    lemma_event_spans(name);
    assert(tokens[0].lexeme == s.subrange(0, 5));
    assert(s.subrange(0, 5) == event_keyword());
    assert(tokens[1].lexeme == s.subrange(6, n + 6));
    assert(s.subrange(6, n + 6) == name);
    lemma_event_parses(tokens);
}

/// For every name that is a run of letters and no keyword, and every run of
/// digits, the text `let name = digits;` compiles to the document of the
/// one constant `name`, whose value is the number that the digits denote.
pub proof fn lemma_let_compiles(name: Seq<char>, digits: Seq<char>)
    requires
        is_lexeme(TokenType::Identifier, name),
        is_lexeme(TokenType::NumericLiteral, digits),
    ensures
        compile_result(let_source(name, digits)) == Ok::<DocumentView, CompilerErrorView>(
            DocumentView(
                seq![
                    DeclarationView::LetDeclaration {
                        name,
                        value: ExpressionView::NumericLiteral(numeral_value(digits)),
                    },
                ],
            ),
        ),
{
    let s = let_source(name, digits);
    let n = name.len() as int;
    let m = digits.len() as int;
    let tokens = tokens_at(s, let_spans(name, digits));
    lemma_let_spans(name, digits);
    assert(tokens[0].lexeme == s.subrange(0, 3));
    assert(s.subrange(0, 3) == let_keyword());
    assert(tokens[1].lexeme == s.subrange(4, n + 4));
    assert(s.subrange(4, n + 4) == name);
    assert(tokens[3].lexeme == s.subrange(n + 7, n + m + 7));
    assert(s.subrange(n + 7, n + m + 7) == digits);
    lemma_let_parses(tokens);
}

/// A comment line in front of a text does not change what it compiles to:
/// the same document, or an error as before.
pub proof fn lemma_comment_line_compiles(text: Seq<char>, rest: Seq<char>)
    requires
        forall|k: int| 0 <= k < text.len() ==> #[trigger] text[k] != '\n',
    ensures
        match compile_result(rest) {
            Ok(document) => compile_result(comment_line(text) + rest) == Ok::<
                DocumentView,
                CompilerErrorView,
            >(document),
            Err(_) => compile_result(comment_line(text) + rest) is Err,
        },
{
    let front = comment_line(text);
    lemma_comment_line_is_skipped(text, rest);
    if let Ok(spans) = scan_from(rest, 0) {
        lemma_spans_in_order(rest, 0);
        lemma_moved_tokens_keep_content(front, rest, spans);
        lemma_parse_reads_content(
            tokens_at(rest, spans),
            tokens_at(front + rest, moved_spans(spans, front.len() as int)),
        );
    }
}

/// An empty text, and a text of whitespace and comments alone, compiles to
/// the empty document.
pub proof fn lemma_blank_compiles(s: Seq<char>)
    requires
        is_blank(s),
    ensures
        compile_result(s) == Ok::<DocumentView, CompilerErrorView>(DocumentView(Seq::empty())),
{
    lemma_blank_has_no_tokens(s);
    lemma_nothing_parses(scan_result(s)->Ok_0);
}

/// Every name in a compiled document, of an event, a constant, a function,
/// a parameter or in an expression, is a run of letters that is no keyword.
pub proof fn lemma_compiled_names_are_names(s: Seq<char>)
    ensures
        compile_result(s) matches Ok(document) ==> document.well_named(),
{
    lemma_tokens_are_scanned(s);
    if let Ok(tokens) = scan_result(s) {
        lemma_parsed_names_are_names(tokens);
    }
}

} // verus!
