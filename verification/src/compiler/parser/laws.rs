//! What holds of parsing, for every token buffer.

use vstd::prelude::*;
use crate::compiler::lexer::{TokenType, TokenView};
use crate::compiler::lexer::grammar::{
    all_scanned, event_keyword, is_scanned, let_keyword, same_content,
};
use crate::compiler::parser::ParseErrorView;
use crate::compiler::parser::grammar::{
    binding_at, declaration_at, document_at, event_at, expression_at, identifier_at,
    is_kind_at, lemma_declaration_advances, lemma_statement_advances, more_parameters_at,
    parameters_at, parse_result, scope_at, statement_at, terminals_of, Fault, Terminal,
};
use crate::compiler::parser::integer::{is_numeral, numeral_value};
use crate::compiler::parser::syntax::{is_name, DeclarationView, DocumentView, ExpressionView};

verus! {

/// No tokens parse to the empty document.
pub proof fn lemma_nothing_parses(tokens: Seq<TokenView>)
    requires
        tokens.len() == 0,
    ensures
        parse_result(tokens) == Ok::<DocumentView, ParseErrorView>(DocumentView(Seq::empty())),
{
}

/// What parsing gives does not depend on where the tokens lie: two buffers
/// of the same tags and texts parse to the same document, or both to an
/// error.
pub proof fn lemma_parse_reads_content(left: Seq<TokenView>, right: Seq<TokenView>)
    requires
        same_content(left, right),
    ensures
        match parse_result(left) {
            Ok(document) => parse_result(right) == Ok::<DocumentView, ParseErrorView>(document),
            Err(_) => parse_result(right) is Err,
        },
{
    assert(terminals_of(left) == terminals_of(right));
}

/// The keyword `event`, an identifier and a semicolon parse to the one
/// declaration of the event that the identifier names.
pub proof fn lemma_event_parses(tokens: Seq<TokenView>)
    requires
        tokens.len() == 3,
        tokens[0].token_type == Some(TokenType::Keyword),
        tokens[0].lexeme == event_keyword(),
        tokens[1].token_type == Some(TokenType::Identifier),
        tokens[2].token_type == Some(TokenType::Semicolon),
    ensures
        parse_result(tokens) == Ok::<DocumentView, ParseErrorView>(
            DocumentView(seq![DeclarationView::EventDeclaration { name: tokens[1].lexeme }]),
        ),
{
    let terminals = terminals_of(tokens);
    let declaration = DeclarationView::EventDeclaration { name: tokens[1].lexeme };
    assert(event_at(terminals, 1) == Ok::<(Seq<char>, int), Fault>((tokens[1].lexeme, 3)));
    assert(declaration_at(terminals, 0) == Ok::<(DeclarationView, int), Fault>((declaration, 3)));
    assert(document_at(terminals, 3) == Ok::<Seq<DeclarationView>, Fault>(Seq::empty()));
    assert(seq![declaration] + Seq::<DeclarationView>::empty() == seq![declaration]);
}

/// The keyword `let`, an identifier, an assignment sign, a numeral and a
/// semicolon parse to the one declaration of the constant that the
/// identifier names, and its value is the number that the numeral denotes.
pub proof fn lemma_let_parses(tokens: Seq<TokenView>)
    requires
        tokens.len() == 5,
        tokens[0].token_type == Some(TokenType::Keyword),
        tokens[0].lexeme == let_keyword(),
        tokens[1].token_type == Some(TokenType::Identifier),
        tokens[2].token_type == Some(TokenType::Assignment),
        tokens[3].token_type == Some(TokenType::NumericLiteral),
        is_numeral(tokens[3].lexeme),
        tokens[4].token_type == Some(TokenType::Semicolon),
    ensures
        parse_result(tokens) == Ok::<DocumentView, ParseErrorView>(
            DocumentView(
                seq![
                    DeclarationView::LetDeclaration {
                        name: tokens[1].lexeme,
                        value: ExpressionView::NumericLiteral(numeral_value(tokens[3].lexeme)),
                    },
                ],
            ),
        ),
{
    let terminals = terminals_of(tokens);
    let value = ExpressionView::NumericLiteral(numeral_value(tokens[3].lexeme));
    let declaration = DeclarationView::LetDeclaration { name: tokens[1].lexeme, value };
    assert(identifier_at(terminals, 1) == Ok::<(Seq<char>, int), Fault>((tokens[1].lexeme, 2)));
    assert(expression_at(terminals, 3) == Ok::<(ExpressionView, int), Fault>((value, 4)));
    assert(binding_at(terminals, 1) == Ok::<(Seq<char>, ExpressionView, int), Fault>(
        (tokens[1].lexeme, value, 5),
    ));
    assert(declaration_at(terminals, 0) == Ok::<(DeclarationView, int), Fault>((declaration, 5)));
    assert(document_at(terminals, 5) == Ok::<Seq<DeclarationView>, Fault>(Seq::empty()));
    assert(seq![declaration] + Seq::<DeclarationView>::empty() == seq![declaration]);
}

/// Whether the text of every identifier among the terminals is a name.
pub open spec fn identifiers_are_names(terminals: Seq<Terminal>) -> bool {
    forall|i: int|
        0 <= i < terminals.len() && (#[trigger] terminals[i]).kind == Some(TokenType::Identifier)
            ==> is_name(terminals[i].text)
}

/// The further parameters that are read are names.
proof fn lemma_more_parameters_are_names(terminals: Seq<Terminal>, i: int)
    requires
        identifiers_are_names(terminals),
        0 <= i <= terminals.len(),
    ensures
        more_parameters_at(terminals, i) matches Ok((names, _)) ==> forall|k: int|
            0 <= k < names.len() ==> is_name(#[trigger] names[k]),
    decreases terminals.len() - i,
{
    if is_kind_at(terminals, i, TokenType::Comma) {
        if let Ok((name, next)) = identifier_at(terminals, i + 1) {
            lemma_more_parameters_are_names(terminals, next);
            if let Ok((names, _)) = more_parameters_at(terminals, next) {
                let all = seq![name] + names;
                assert forall|k: int| 0 <= k < all.len() implies is_name(#[trigger] all[k]) by {
                    if k > 0 {
                        assert(all[k] == names[k - 1]);
                    }
                }
            }
        }
    }
}

/// The parameters that are read are names.
proof fn lemma_parameters_are_names(terminals: Seq<Terminal>, i: int)
    requires
        identifiers_are_names(terminals),
        0 <= i <= terminals.len(),
    ensures
        parameters_at(terminals, i) matches Ok((names, _)) ==> forall|k: int|
            0 <= k < names.len() ==> is_name(#[trigger] names[k]),
{
    if is_kind_at(terminals, i, TokenType::Identifier) {
        lemma_more_parameters_are_names(terminals, i + 1);
        if let Ok((names, _)) = more_parameters_at(terminals, i + 1) {
            let all = seq![terminals[i].text] + names;
            assert forall|k: int| 0 <= k < all.len() implies is_name(#[trigger] all[k]) by {
                if k > 0 {
                    assert(all[k] == names[k - 1]);
                }
            }
        }
    }
}

/// The statement that is read holds names only.
proof fn lemma_statement_is_well_named(terminals: Seq<Terminal>, i: int)
    requires
        identifiers_are_names(terminals),
        0 <= i <= terminals.len(),
    ensures
        statement_at(terminals, i) matches Ok((statement, _)) ==> statement.well_named(),
{
}

/// The statements that are read hold names only.
proof fn lemma_scope_is_well_named(terminals: Seq<Terminal>, i: int)
    requires
        identifiers_are_names(terminals),
        0 <= i <= terminals.len(),
    ensures
        scope_at(terminals, i) matches Ok((statements, _)) ==> forall|k: int|
            0 <= k < statements.len() ==> (#[trigger] statements[k]).well_named(),
    decreases terminals.len() - i,
{
    if !is_kind_at(terminals, i, TokenType::CloseBrace) {
        lemma_statement_advances(terminals, i);
        lemma_statement_is_well_named(terminals, i);
        if let Ok((statement, next)) = statement_at(terminals, i) {
            lemma_scope_is_well_named(terminals, next);
            if let Ok((statements, _)) = scope_at(terminals, next) {
                let all = seq![statement] + statements;
                assert forall|k: int| 0 <= k < all.len() implies (#[trigger] all[k]).well_named() by {
                    if k > 0 {
                        assert(all[k] == statements[k - 1]);
                    }
                }
            }
        }
    }
}

/// The declaration that is read holds names only.
proof fn lemma_declaration_is_well_named(terminals: Seq<Terminal>, i: int)
    requires
        identifiers_are_names(terminals),
        0 <= i <= terminals.len(),
    ensures
        declaration_at(terminals, i) matches Ok((declaration, _)) ==> declaration.well_named(),
{
    if is_kind_at(terminals, i, TokenType::Identifier) {
        if is_kind_at(terminals, i + 1, TokenType::OpenParen) {
            lemma_parameters_are_names(terminals, i + 2);
            if let Ok((_, brace)) = parameters_at(terminals, i + 2) {
                if is_kind_at(terminals, brace, TokenType::OpenBrace) {
                    lemma_scope_is_well_named(terminals, brace + 1);
                }
            }
        }
    }
}

/// The declarations that are read hold names only.
proof fn lemma_document_is_well_named(terminals: Seq<Terminal>, i: int)
    requires
        identifiers_are_names(terminals),
        0 <= i <= terminals.len(),
    ensures
        document_at(terminals, i) matches Ok(declarations) ==> forall|k: int|
            0 <= k < declarations.len() ==> (#[trigger] declarations[k]).well_named(),
    decreases terminals.len() - i,
{
    if i < terminals.len() {
        lemma_declaration_advances(terminals, i);
        lemma_declaration_is_well_named(terminals, i);
        if let Ok((declaration, next)) = declaration_at(terminals, i) {
            lemma_document_is_well_named(terminals, next);
            if let Ok(declarations) = document_at(terminals, next) {
                let all = seq![declaration] + declarations;
                assert forall|k: int| 0 <= k < all.len() implies (#[trigger] all[k]).well_named() by {
                    if k > 0 {
                        assert(all[k] == declarations[k - 1]);
                    }
                }
            }
        }
    }
}

/// Every name in a document that scanned tokens parse to is a name: a run
/// of letters that is no keyword.
pub proof fn lemma_parsed_names_are_names(tokens: Seq<TokenView>)
    requires
        all_scanned(tokens),
    ensures
        parse_result(tokens) matches Ok(document) ==> document.well_named(),
{
    let terminals = terminals_of(tokens);
    assert forall|i: int|
        0 <= i < terminals.len() && (#[trigger] terminals[i]).kind == Some(
            TokenType::Identifier,
        ) implies is_name(terminals[i].text) by {
        assert(is_scanned(tokens[i]));
    }
    lemma_document_is_well_named(terminals, 0);
}

} // verus!
