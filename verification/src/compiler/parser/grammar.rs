//! The grammar, as functions on a sequence of terminals and an index into it.
//! The executable parser is specified by these functions.
//!
//! ```text
//! Document            := Declaration* EndOfInput
//! Declaration         := EventDeclaration | LetDeclaration | FunctionDeclaration
//! EventDeclaration    := 'event' Identifier ';'
//! LetDeclaration      := 'let' Identifier '=' Expression ';'
//! FunctionDeclaration := Identifier '(' ParameterList? ')' '{' Statement* '}'
//! ParameterList       := Identifier (',' Identifier)*
//! Statement           := 'let' Identifier '=' Expression ';' | Expression ';'
//! Expression          := NumericLiteral | Identifier
//! ```
//!
//! The end of the terminals is the end of the input.

use vstd::prelude::*;
use crate::compiler::lexer::{TokenMetadata, TokenType, TokenView};
use crate::compiler::lexer::grammar::{event_keyword, let_keyword};
use crate::compiler::parser::{Expected, ParseErrorView};
use crate::compiler::parser::integer::{is_numeral, numeral_value};
use crate::compiler::parser::syntax::{DeclarationView, DocumentView, ExpressionView, StatementView};

verus! {

/// What the grammar reads of a token: its tag and its text, not its position.
pub struct Terminal {
    pub kind: Option<TokenType>,
    pub text: Seq<char>,
}

/// Why parsing stops early.
pub enum Fault {
    /// The token at this index is not the one that the grammar asks for.
    UnexpectedToken { expected: Expected, at: int },
    /// The tokens end inside a declaration.
    UnexpectedEndOfInput { expected: Expected },
    /// No declaration begins with the token at this index.
    UnexpectedDeclaration { at: int },
}

/// What the grammar reads of a token.
pub open spec fn terminal_of(token: TokenView) -> Terminal {
    Terminal { kind: token.token_type, text: token.lexeme }
}

/// What the grammar reads of a token buffer.
pub open spec fn terminals_of(tokens: Seq<TokenView>) -> Seq<Terminal> {
    tokens.map_values(|token: TokenView| terminal_of(token))
}

/// Whether the terminal at `i` has the tag `kind`.
pub open spec fn is_kind_at(terminals: Seq<Terminal>, i: int, kind: TokenType) -> bool {
    0 <= i < terminals.len() && terminals[i].kind == Some(kind)
}

/// Whether the terminal at `i` is the keyword `word`.
pub open spec fn is_keyword_at(terminals: Seq<Terminal>, i: int, word: Seq<char>) -> bool {
    is_kind_at(terminals, i, TokenType::Keyword) && terminals[i].text == word
}

/// The fault where the terminal at `i` is none of those that the grammar
/// accepts there: the end of input, where the terminals have run out.
pub open spec fn mismatch_at(terminals: Seq<Terminal>, i: int, expected: Expected) -> Fault {
    if 0 <= i < terminals.len() {
        Fault::UnexpectedToken { expected, at: i }
    } else {
        Fault::UnexpectedEndOfInput { expected }
    }
}

/// A terminal of tag `kind` that the grammar asks for at `i`: the index
/// behind it.
pub open spec fn token_at(terminals: Seq<Terminal>, i: int, kind: TokenType, expected: Expected) -> Result<
    int,
    Fault,
> {
    if is_kind_at(terminals, i, kind) {
        Ok(i + 1)
    } else {
        Err(mismatch_at(terminals, i, expected))
    }
}

/// `Identifier`: its name and the index behind it.
pub open spec fn identifier_at(terminals: Seq<Terminal>, i: int) -> Result<(Seq<char>, int), Fault> {
    match token_at(terminals, i, TokenType::Identifier, Expected::Identifier) {
        Ok(next) => Ok((terminals[i].text, next)),
        Err(fault) => Err(fault),
    }
}

/// `Expression := NumericLiteral | Identifier`. A numeric literal whose text
/// is no numeral is not an expression.
pub open spec fn expression_at(terminals: Seq<Terminal>, i: int) -> Result<
    (ExpressionView, int),
    Fault,
> {
    if is_kind_at(terminals, i, TokenType::Identifier) {
        Ok((ExpressionView::Identifier(terminals[i].text), i + 1))
    } else if is_kind_at(terminals, i, TokenType::NumericLiteral) && is_numeral(terminals[i].text) {
        Ok((ExpressionView::NumericLiteral(numeral_value(terminals[i].text)), i + 1))
    } else {
        Err(mismatch_at(terminals, i, Expected::NumericLiteralOrIdentifier))
    }
}

/// `Identifier ';'`, which follows the keyword `event`: the name.
pub open spec fn event_at(terminals: Seq<Terminal>, i: int) -> Result<(Seq<char>, int), Fault> {
    match identifier_at(terminals, i) {
        Err(fault) => Err(fault),
        Ok((name, semicolon)) => match token_at(
            terminals,
            semicolon,
            TokenType::Semicolon,
            Expected::Semicolon,
        ) {
            Err(fault) => Err(fault),
            Ok(next) => Ok((name, next)),
        },
    }
}

/// `Identifier '=' Expression ';'`, which follows the keyword `let`: the name
/// and the value.
pub open spec fn binding_at(terminals: Seq<Terminal>, i: int) -> Result<
    (Seq<char>, ExpressionView, int),
    Fault,
> {
    match identifier_at(terminals, i) {
        Err(fault) => Err(fault),
        Ok((name, assignment)) => match token_at(
            terminals,
            assignment,
            TokenType::Assignment,
            Expected::Assignment,
        ) {
            Err(fault) => Err(fault),
            Ok(value_at) => match expression_at(terminals, value_at) {
                Err(fault) => Err(fault),
                Ok((value, semicolon)) => match token_at(
                    terminals,
                    semicolon,
                    TokenType::Semicolon,
                    Expected::Semicolon,
                ) {
                    Err(fault) => Err(fault),
                    Ok(next) => Ok((name, value, next)),
                },
            },
        },
    }
}

/// `(',' Identifier)* ')'`, which follows a parameter: the further
/// parameters.
pub open spec fn more_parameters_at(terminals: Seq<Terminal>, i: int) -> Result<
    (Seq<Seq<char>>, int),
    Fault,
>
    decreases terminals.len() - i,
{
    if is_kind_at(terminals, i, TokenType::CloseParen) {
        Ok((Seq::empty(), i + 1))
    } else if is_kind_at(terminals, i, TokenType::Comma) {
        match identifier_at(terminals, i + 1) {
            Err(fault) => Err(fault),
            Ok((name, next)) => match more_parameters_at(terminals, next) {
                Err(fault) => Err(fault),
                Ok((names, end)) => Ok((seq![name] + names, end)),
            },
        }
    } else {
        Err(mismatch_at(terminals, i, Expected::CommaOrCloseParen))
    }
}

/// `ParameterList? ')'`, which follows the opening parenthesis: the
/// parameters.
pub open spec fn parameters_at(terminals: Seq<Terminal>, i: int) -> Result<
    (Seq<Seq<char>>, int),
    Fault,
> {
    if is_kind_at(terminals, i, TokenType::CloseParen) {
        Ok((Seq::empty(), i + 1))
    } else if is_kind_at(terminals, i, TokenType::Identifier) {
        match more_parameters_at(terminals, i + 1) {
            Err(fault) => Err(fault),
            Ok((names, end)) => Ok((seq![terminals[i].text] + names, end)),
        }
    } else {
        Err(mismatch_at(terminals, i, Expected::IdentifierOrCloseParen))
    }
}

/// `Statement := 'let' Identifier '=' Expression ';' | Expression ';'`.
pub open spec fn statement_at(terminals: Seq<Terminal>, i: int) -> Result<(StatementView, int), Fault> {
    if is_keyword_at(terminals, i, let_keyword()) {
        match binding_at(terminals, i + 1) {
            Err(fault) => Err(fault),
            Ok((name, value, next)) => Ok((StatementView::Let { name, value }, next)),
        }
    } else if is_kind_at(terminals, i, TokenType::Identifier) || is_kind_at(
        terminals,
        i,
        TokenType::NumericLiteral,
    ) {
        match expression_at(terminals, i) {
            Err(fault) => Err(fault),
            Ok((value, semicolon)) => match token_at(
                terminals,
                semicolon,
                TokenType::Semicolon,
                Expected::Semicolon,
            ) {
                Err(fault) => Err(fault),
                Ok(next) => Ok((StatementView::Expression(value), next)),
            },
        }
    } else {
        Err(mismatch_at(terminals, i, Expected::StatementOrCloseBrace))
    }
}

/// `Statement* '}'`, which follows the opening brace: the statements.
pub open spec fn scope_at(terminals: Seq<Terminal>, i: int) -> Result<
    (Seq<StatementView>, int),
    Fault,
>
    decreases terminals.len() - i,
{
    if is_kind_at(terminals, i, TokenType::CloseBrace) {
        Ok((Seq::empty(), i + 1))
    } else {
        match statement_at(terminals, i) {
            Err(fault) => Err(fault),
            Ok((statement, next)) => {
                proof {
                    if 0 <= i <= terminals.len() {
                        lemma_statement_advances(terminals, i);
                    }
                }
                match scope_at(terminals, next) {
                    Err(fault) => Err(fault),
                    Ok((statements, end)) => Ok((seq![statement] + statements, end)),
                }
            },
        }
    }
}

/// `'(' ParameterList? ')' '{' Statement* '}'`, which follows the name of a
/// function: the parameters and the body.
pub open spec fn function_at(terminals: Seq<Terminal>, i: int) -> Result<
    (Seq<Seq<char>>, Seq<StatementView>, int),
    Fault,
> {
    match token_at(terminals, i, TokenType::OpenParen, Expected::OpenParen) {
        Err(fault) => Err(fault),
        Ok(first) => match parameters_at(terminals, first) {
            Err(fault) => Err(fault),
            Ok((parameters, brace)) => match token_at(
                terminals,
                brace,
                TokenType::OpenBrace,
                Expected::OpenBrace,
            ) {
                Err(fault) => Err(fault),
                Ok(inside) => match scope_at(terminals, inside) {
                    Err(fault) => Err(fault),
                    Ok((body, next)) => Ok((parameters, body, next)),
                },
            },
        },
    }
}

/// `Declaration`, chosen by the terminal at `i`: the keyword `event`, the
/// keyword `let`, or an identifier, which names a function. Any other
/// terminal begins no declaration.
pub open spec fn declaration_at(terminals: Seq<Terminal>, i: int) -> Result<
    (DeclarationView, int),
    Fault,
> {
    if i < 0 || i >= terminals.len() {
        Err(Fault::UnexpectedEndOfInput { expected: Expected::Declaration })
    } else if is_keyword_at(terminals, i, event_keyword()) {
        match event_at(terminals, i + 1) {
            Err(fault) => Err(fault),
            Ok((name, next)) => Ok((DeclarationView::EventDeclaration { name }, next)),
        }
    } else if is_keyword_at(terminals, i, let_keyword()) {
        match binding_at(terminals, i + 1) {
            Err(fault) => Err(fault),
            Ok((name, value, next)) => Ok((DeclarationView::LetDeclaration { name, value }, next)),
        }
    } else if is_kind_at(terminals, i, TokenType::Identifier) {
        match function_at(terminals, i + 1) {
            Err(fault) => Err(fault),
            Ok((parameters, body, next)) => Ok(
                (
                    DeclarationView::FunctionDeclaration {
                        name: terminals[i].text,
                        parameters,
                        body,
                    },
                    next,
                ),
            ),
        }
    } else {
        Err(Fault::UnexpectedDeclaration { at: i })
    }
}

/// `Declaration* EndOfInput` from index `i`: the declarations in the order in
/// which they stand, or the first fault.
pub open spec fn document_at(terminals: Seq<Terminal>, i: int) -> Result<Seq<DeclarationView>, Fault>
    decreases terminals.len() - i,
{
    if i < 0 || i >= terminals.len() {
        Ok(Seq::empty())
    } else {
        match declaration_at(terminals, i) {
            Err(fault) => Err(fault),
            Ok((declaration, next)) => {
                proof {
                    lemma_declaration_advances(terminals, i);
                }
                match document_at(terminals, next) {
                    Err(fault) => Err(fault),
                    Ok(declarations) => Ok(seq![declaration] + declarations),
                }
            },
        }
    }
}

/// The index of the terminal at which a fault lies: the end, where the
/// terminals ran out.
pub open spec fn fault_index(terminals: Seq<Terminal>, fault: Fault) -> int {
    match fault {
        Fault::UnexpectedToken { expected, at } => at,
        Fault::UnexpectedEndOfInput { expected } => terminals.len() as int,
        Fault::UnexpectedDeclaration { at } => at,
    }
}

/// The position at which the end of a token buffer is reported: that of its
/// last token, or line 1, column 1 where it has none.
pub open spec fn end_position(tokens: Seq<TokenView>) -> TokenMetadata {
    if tokens.len() > 0 {
        tokens.last().metadata
    } else {
        TokenMetadata { line_number: 1, char_number: 1 }
    }
}

/// The error that a fault in a token buffer is reported as.
pub open spec fn error_at(tokens: Seq<TokenView>, fault: Fault) -> ParseErrorView {
    match fault {
        Fault::UnexpectedToken { expected, at } => ParseErrorView::UnexpectedToken {
            expected,
            found: tokens[at],
            position: tokens[at].metadata,
        },
        Fault::UnexpectedEndOfInput { expected } => ParseErrorView::UnexpectedEndOfInput {
            expected,
            position: end_position(tokens),
        },
        Fault::UnexpectedDeclaration { at } => ParseErrorView::UnexpectedDeclaration(tokens[at]),
    }
}

/// What parsing a token buffer gives: the document, or the first error.
pub open spec fn parse_result(tokens: Seq<TokenView>) -> Result<DocumentView, ParseErrorView> {
    match document_at(terminals_of(tokens), 0) {
        Ok(declarations) => Ok(DocumentView(declarations)),
        Err(fault) => Err(error_at(tokens, fault)),
    }
}

/// A binding that is read ends behind where it began, within the terminals.
pub proof fn lemma_binding_advances(terminals: Seq<Terminal>, i: int)
    requires
        0 <= i <= terminals.len(),
    ensures
        binding_at(terminals, i) matches Ok((_, _, next)) ==> i < next <= terminals.len(),
{
}

/// A statement that is read ends behind where it began, within the
/// terminals.
pub proof fn lemma_statement_advances(terminals: Seq<Terminal>, i: int)
    requires
        0 <= i <= terminals.len(),
    ensures
        statement_at(terminals, i) matches Ok((_, next)) ==> i < next <= terminals.len(),
{
    if i < terminals.len() {
        lemma_binding_advances(terminals, i + 1);
    }
}

/// Parameters that are read end behind where they began, within the
/// terminals.
pub proof fn lemma_more_parameters_advance(terminals: Seq<Terminal>, i: int)
    requires
        0 <= i <= terminals.len(),
    ensures
        more_parameters_at(terminals, i) matches Ok((_, next)) ==> i < next <= terminals.len(),
    decreases terminals.len() - i,
{
    if is_kind_at(terminals, i, TokenType::Comma) {
        if let Ok((_, next)) = identifier_at(terminals, i + 1) {
            lemma_more_parameters_advance(terminals, next);
        }
    }
}

/// A scope that is read ends behind where it began, within the terminals.
pub proof fn lemma_scope_advances(terminals: Seq<Terminal>, i: int)
    requires
        0 <= i <= terminals.len(),
    ensures
        scope_at(terminals, i) matches Ok((_, next)) ==> i < next <= terminals.len(),
    decreases terminals.len() - i,
{
    if !is_kind_at(terminals, i, TokenType::CloseBrace) {
        lemma_statement_advances(terminals, i);
        if let Ok((_, next)) = statement_at(terminals, i) {
            lemma_scope_advances(terminals, next);
        }
    }
}

/// A declaration that is read ends behind where it began, within the
/// terminals.
pub proof fn lemma_declaration_advances(terminals: Seq<Terminal>, i: int)
    requires
        0 <= i <= terminals.len(),
    ensures
        declaration_at(terminals, i) matches Ok((_, next)) ==> i < next <= terminals.len(),
{
    if i < terminals.len() {
        lemma_binding_advances(terminals, i + 1);
        if i + 2 <= terminals.len() {
            if i + 3 <= terminals.len() {
                lemma_more_parameters_advance(terminals, i + 3);
            }
            if let Ok((_, brace)) = parameters_at(terminals, i + 2) {
                if brace + 1 <= terminals.len() {
                    lemma_scope_advances(terminals, brace + 1);
                }
            }
        }
    }
}

} // verus!
