//! The parser: from tokens to a syntax tree, by recursive descent with one
//! token of lookahead.

use vstd::prelude::*;
use crate::compiler::lexer::{
    is_event_keyword, is_let_keyword, token_views, Token, TokenMetadata, TokenType, TokenView,
};
use crate::compiler::parser::grammar::{
    binding_at, declaration_at, document_at, end_position, error_at, event_at, expression_at,
    fault_index, function_at, identifier_at, is_kind_at, lemma_declaration_advances,
    lemma_statement_advances, mismatch_at, more_parameters_at, parameters_at, parse_result,
    scope_at, statement_at, terminals_of, token_at, Fault, Terminal,
};
use crate::compiler::parser::integer::Integer;
use crate::compiler::parser::syntax::{
    declaration_views, name_views, statement_views, Declaration, DeclarationView, Document,
    DocumentView, Expression, Statement, StatementView,
};

pub mod grammar;
pub mod integer;
pub mod laws;
pub mod syntax;

verus! {

/// What the parser asked for where it found something else.
#[derive(Debug, Clone, Copy, PartialEq, Eq, Structural)]
pub enum Expected {
    /// The first token of a declaration.
    Declaration,
    /// An identifier.
    Identifier,
    /// `;`
    Semicolon,
    /// `=`
    Assignment,
    /// An expression, that is a numeric literal or an identifier.
    NumericLiteralOrIdentifier,
    /// `(`
    OpenParen,
    /// `{`
    OpenBrace,
    /// A first parameter, or `)`.
    IdentifierOrCloseParen,
    /// `,` before a further parameter, or `)`.
    CommaOrCloseParen,
    /// The first token of a statement, or `}`.
    StatementOrCloseBrace,
}

/// Why the parser rejects a token buffer.
#[derive(Debug, Clone, PartialEq, Eq)]
pub enum ParseError {
    /// A token is not the one that the grammar asks for at its place.
    UnexpectedToken { expected: Expected, found: Token, position: TokenMetadata },
    /// The tokens end inside a declaration; the position is that of the last
    /// token.
    UnexpectedEndOfInput { expected: Expected, position: TokenMetadata },
    /// No declaration begins with this token.
    UnexpectedDeclaration(Token),
}

/// A parse error as a mathematical value.
pub enum ParseErrorView {
    UnexpectedToken { expected: Expected, found: TokenView, position: TokenMetadata },
    UnexpectedEndOfInput { expected: Expected, position: TokenMetadata },
    UnexpectedDeclaration(TokenView),
}

impl View for ParseError {
    type V = ParseErrorView;

    open spec fn view(&self) -> ParseErrorView {
        match self {
            ParseError::UnexpectedToken {
                expected,
                found,
                position,
            } => ParseErrorView::UnexpectedToken {
                expected: *expected,
                found: found@,
                position: *position,
            },
            ParseError::UnexpectedEndOfInput {
                expected,
                position,
            } => ParseErrorView::UnexpectedEndOfInput { expected: *expected, position: *position },
            ParseError::UnexpectedDeclaration(found) => ParseErrorView::UnexpectedDeclaration(
                found@,
            ),
        }
    }
}

/// A token buffer with a current place in it. The buffer is never changed;
/// reading looks at the current token and steps over it.
pub struct TokenCursor<'a> {
    tokens: &'a [Token],
    index: usize,
}

impl<'a> TokenCursor<'a> {
    /// What holds of every cursor: the place lies within the buffer, or at
    /// its end.
    #[verifier::type_invariant]
    pub closed spec fn well_formed(&self) -> bool {
        self.index <= self.tokens@.len()
    }

    /// The whole buffer.
    pub closed spec fn tokens(&self) -> Seq<Token> {
        self.tokens@
    }

    /// The index of the current token; `tokens().len()` at the end.
    pub closed spec fn index(&self) -> int {
        self.index as int
    }

    /// What the grammar reads of the buffer.
    pub open spec fn terminals(&self) -> Seq<Terminal> {
        terminals_of(token_views(self.tokens()))
    }

    /// Whether a result reports the fault `fault` of the buffer of `before`,
    /// with this cursor at the token where the fault lies.
    pub open spec fn stopped_at<T>(
        &self,
        before: TokenCursor,
        result: Result<T, ParseError>,
        fault: Fault,
    ) -> bool {
        &&& result is Err
        &&& result->Err_0@ == error_at(token_views(before.tokens()), fault)
        &&& self.index() == fault_index(before.terminals(), fault)
    }

    /// The place of a cursor lies within its buffer, or at its end.
    pub proof fn lemma_bounds(&self)
        requires
            self.well_formed(),
        ensures
            0 <= self.index() <= self.tokens().len(),
            self.terminals().len() == self.tokens().len(),
    {
    }

    /// A cursor at the first token of `tokens`.
    pub fn new(tokens: &'a [Token]) -> (cursor: Self)
        ensures
            cursor.tokens() == tokens@,
            cursor.index() == 0,
    {
        TokenCursor { tokens, index: 0 }
    }

    /// Whether no token is left.
    pub fn at_end(&self) -> (b: bool)
        ensures
            b == (self.index() == self.tokens().len()),
            0 <= self.index() <= self.tokens().len(),
    {
        proof {
            use_type_invariant(self);
        }
        self.index == self.tokens.len()
    }

    /// The current token, if any is left.
    pub fn peek(&self) -> (token: Option<&'a Token>)
        ensures
            0 <= self.index() <= self.tokens().len(),
            token == if self.index() < self.tokens().len() {
                Some(&self.tokens()[self.index()])
            } else {
                None
            },
    {
        proof {
            use_type_invariant(self);
        }
        if self.index < self.tokens.len() {
            Some(&self.tokens[self.index])
        } else {
            None
        }
    }

    /// Steps over the current token. At the end nothing changes.
    pub fn advance(&mut self)
        ensures
            final(self).tokens() == old(self).tokens(),
            final(self).index() == if old(self).index() < old(self).tokens().len() {
                old(self).index() + 1
            } else {
                old(self).index()
            },
    {
        proof {
            use_type_invariant(&*self);
        }
        if self.index < self.tokens.len() {
            self.index = self.index + 1;
        }
    }

    /// Whether the current token has the tag `kind`.
    pub fn is_kind(&self, kind: TokenType) -> (b: bool)
        ensures
            0 <= self.index() <= self.tokens().len(),
            b == is_kind_at(self.terminals(), self.index(), kind),
    {
        match self.peek() {
            Some(token) => match token.token_type {
                Some(found) => found == kind,
                None => false,
            },
            None => false,
        }
    }

    /// The position at which the end of the buffer is reported.
    pub fn end_position(&self) -> (position: TokenMetadata)
        ensures
            position == end_position(token_views(self.tokens())),
    {
        let count = self.tokens.len();
        if count > 0 {
            self.tokens[count - 1].metadata
        } else {
            TokenMetadata { line_number: 1, char_number: 1 }
        }
    }

    /// The error for a current token that is none of those that the grammar
    /// accepts at its place.
    pub fn mismatch(&self, expected: Expected) -> (error: ParseError)
        ensures
            error@ == error_at(
                token_views(self.tokens()),
                mismatch_at(self.terminals(), self.index(), expected),
            ),
    {
        match self.peek() {
            Some(token) => ParseError::UnexpectedToken {
                expected,
                found: token.clone(),
                position: token.metadata,
            },
            None => ParseError::UnexpectedEndOfInput { expected, position: self.end_position() },
        }
    }
}

/// Reads a token of tag `kind`, which the grammar asks for at the cursor.
pub fn token(cursor: &mut TokenCursor, kind: TokenType, expected: Expected) -> (result: Result<
    (),
    ParseError,
>)
    ensures
        final(cursor).tokens() == old(cursor).tokens(),
        match token_at(old(cursor).terminals(), old(cursor).index(), kind, expected) {
            Ok(next) => result is Ok && final(cursor).index() == next,
            Err(fault) => final(cursor).stopped_at(*old(cursor), result, fault),
        },
{
    if cursor.is_kind(kind) {
        cursor.advance();
        Ok(())
    } else {
        Err(cursor.mismatch(expected))
    }
}

/// Reads an identifier and gives its name.
pub fn identifier(cursor: &mut TokenCursor) -> (result: Result<String, ParseError>)
    ensures
        final(cursor).tokens() == old(cursor).tokens(),
        match identifier_at(old(cursor).terminals(), old(cursor).index()) {
            Ok((name, next)) => result is Ok && result->Ok_0@ == name && final(cursor).index()
                == next,
            Err(fault) => final(cursor).stopped_at(*old(cursor), result, fault),
        },
{
    match cursor.peek() {
        Some(found) => match found.token_type {
            Some(TokenType::Identifier) => {
                let name = found.lexeme.clone();
                cursor.advance();
                Ok(name)
            },
            _ => Err(cursor.mismatch(Expected::Identifier)),
        },
        None => Err(cursor.mismatch(Expected::Identifier)),
    }
}

/// Reads an expression: a numeric literal or an identifier.
pub fn expression(cursor: &mut TokenCursor) -> (result: Result<Expression, ParseError>)
    ensures
        final(cursor).tokens() == old(cursor).tokens(),
        match expression_at(old(cursor).terminals(), old(cursor).index()) {
            Ok((value, next)) => result is Ok && result->Ok_0@ == value && final(cursor).index()
                == next,
            Err(fault) => final(cursor).stopped_at(*old(cursor), result, fault),
        },
{
    match cursor.peek() {
        Some(found) => match found.token_type {
            Some(TokenType::Identifier) => {
                let name = found.lexeme.clone();
                cursor.advance();
                Ok(Expression::Identifier(name))
            },
            Some(TokenType::NumericLiteral) => match Integer::parse(found.lexeme.as_str()) {
                Some(number) => {
                    cursor.advance();
                    Ok(Expression::NumericLiteral(number))
                },
                None => Err(cursor.mismatch(Expected::NumericLiteralOrIdentifier)),
            },
            _ => Err(cursor.mismatch(Expected::NumericLiteralOrIdentifier)),
        },
        None => Err(cursor.mismatch(Expected::NumericLiteralOrIdentifier)),
    }
}

/// Reads what follows the keyword `event`: the name and the semicolon.
pub fn event(cursor: &mut TokenCursor) -> (result: Result<Declaration, ParseError>)
    ensures
        final(cursor).tokens() == old(cursor).tokens(),
        match event_at(old(cursor).terminals(), old(cursor).index()) {
            Ok((name, next)) => result is Ok && result->Ok_0@ == (DeclarationView::EventDeclaration {
                name,
            }) && final(cursor).index() == next,
            Err(fault) => final(cursor).stopped_at(*old(cursor), result, fault),
        },
{
    let name = identifier(cursor)?;
    token(cursor, TokenType::Semicolon, Expected::Semicolon)?;
    Ok(Declaration::EventDeclaration { name })
}

/// Reads what follows the keyword `let`: the name, the assignment sign, the
/// value and the semicolon.
pub fn binding(cursor: &mut TokenCursor) -> (result: Result<(String, Expression), ParseError>)
    ensures
        final(cursor).tokens() == old(cursor).tokens(),
        match binding_at(old(cursor).terminals(), old(cursor).index()) {
            Ok((name, value, next)) => {
                &&& result is Ok
                &&& result->Ok_0.0@ == name
                &&& result->Ok_0.1@ == value
                &&& final(cursor).index() == next
            },
            Err(fault) => final(cursor).stopped_at(*old(cursor), result, fault),
        },
{
    let name = identifier(cursor)?;
    token(cursor, TokenType::Assignment, Expected::Assignment)?;
    let value = expression(cursor)?;
    token(cursor, TokenType::Semicolon, Expected::Semicolon)?;
    Ok((name, value))
}

/// Reads what follows the opening parenthesis of a function: the parameters,
/// if any, with commas between them, and the closing parenthesis.
pub fn parameters(cursor: &mut TokenCursor) -> (result: Result<Vec<String>, ParseError>)
    ensures
        final(cursor).tokens() == old(cursor).tokens(),
        match parameters_at(old(cursor).terminals(), old(cursor).index()) {
            Ok((names, next)) => result is Ok && name_views(result->Ok_0@) == names
                && final(cursor).index() == next,
            Err(fault) => final(cursor).stopped_at(*old(cursor), result, fault),
        },
{
    let mut names: Vec<String> = Vec::new();
    if cursor.is_kind(TokenType::CloseParen) {
        cursor.advance();
        assert(name_views(names@) == Seq::<Seq<char>>::empty());
        return Ok(names);
    }
    if !cursor.is_kind(TokenType::Identifier) {
        return Err(cursor.mismatch(Expected::IdentifierOrCloseParen));
    }
    names.push(identifier(cursor)?);
    let ghost terminals = cursor.terminals();
    let ghost first = old(cursor).terminals()[old(cursor).index()].text;
    proof {
        assert(name_views(names@) == seq![first]);
    }
    loop
        invariant
            cursor.tokens() == old(cursor).tokens(),
            terminals == old(cursor).terminals(),
            0 <= cursor.index() <= terminals.len(),
            match more_parameters_at(terminals, cursor.index()) {
                Ok((rest, end)) => parameters_at(terminals, old(cursor).index()) == Ok::<
                    (Seq<Seq<char>>, int),
                    Fault,
                >((name_views(names@) + rest, end)),
                Err(fault) => parameters_at(terminals, old(cursor).index()) == Err::<
                    (Seq<Seq<char>>, int),
                    Fault,
                >(fault),
            },
        decreases terminals.len() - cursor.index(),
    {
        if cursor.is_kind(TokenType::CloseParen) {
            cursor.advance();
            assert(name_views(names@) + Seq::<Seq<char>>::empty() == name_views(names@));
            return Ok(names);
        }
        if !cursor.is_kind(TokenType::Comma) {
            return Err(cursor.mismatch(Expected::CommaOrCloseParen));
        }
        cursor.advance();
        let ghost before = names@;
        names.push(identifier(cursor)?);
        proof {
            let name = names@.last()@;
            assert(name_views(names@) == name_views(before).push(name));
            match more_parameters_at(terminals, cursor.index()) {
                Ok((rest, end)) => {
                    assert(name_views(names@) + rest == name_views(before) + (seq![name] + rest));
                },
                Err(_) => {},
            }
        }
    }
}

/// Reads a statement: a binding behind the keyword `let`, or an expression
/// and a semicolon.
pub fn statement(cursor: &mut TokenCursor) -> (result: Result<Statement, ParseError>)
    ensures
        final(cursor).tokens() == old(cursor).tokens(),
        match statement_at(old(cursor).terminals(), old(cursor).index()) {
            Ok((value, next)) => result is Ok && result->Ok_0@ == value && final(cursor).index()
                == next,
            Err(fault) => final(cursor).stopped_at(*old(cursor), result, fault),
        },
{
    match cursor.peek() {
        Some(found) => match found.token_type {
            Some(TokenType::Keyword) => {
                if is_let_keyword(&found.lexeme) {
                    cursor.advance();
                    let (name, value) = binding(cursor)?;
                    Ok(Statement::Let { name, value })
                } else {
                    Err(cursor.mismatch(Expected::StatementOrCloseBrace))
                }
            },
            Some(TokenType::Identifier) | Some(TokenType::NumericLiteral) => {
                let value = expression(cursor)?;
                token(cursor, TokenType::Semicolon, Expected::Semicolon)?;
                Ok(Statement::Expression(value))
            },
            _ => Err(cursor.mismatch(Expected::StatementOrCloseBrace)),
        },
        None => Err(cursor.mismatch(Expected::StatementOrCloseBrace)),
    }
}

/// Reads what follows the opening brace of a function: the statements of
/// its body and the closing brace.
pub fn scope(cursor: &mut TokenCursor) -> (result: Result<Vec<Statement>, ParseError>)
    ensures
        final(cursor).tokens() == old(cursor).tokens(),
        match scope_at(old(cursor).terminals(), old(cursor).index()) {
            Ok((statements, next)) => result is Ok && statement_views(result->Ok_0@)
                == statements && final(cursor).index() == next,
            Err(fault) => final(cursor).stopped_at(*old(cursor), result, fault),
        },
{
    let mut statements: Vec<Statement> = Vec::new();
    let ghost terminals = cursor.terminals();
    proof {
        use_type_invariant(&*cursor);
        cursor.lemma_bounds();
        assert(statement_views(statements@) == Seq::<StatementView>::empty());
        match scope_at(terminals, cursor.index()) {
            Ok((rest, end)) => {
                assert(statement_views(statements@) + rest == rest);
            },
            Err(_) => {},
        }
    }
    loop
        invariant
            cursor.tokens() == old(cursor).tokens(),
            terminals == old(cursor).terminals(),
            0 <= cursor.index() <= terminals.len(),
            match scope_at(terminals, cursor.index()) {
                Ok((rest, end)) => scope_at(terminals, old(cursor).index()) == Ok::<
                    (Seq<StatementView>, int),
                    Fault,
                >((statement_views(statements@) + rest, end)),
                Err(fault) => scope_at(terminals, old(cursor).index()) == Err::<
                    (Seq<StatementView>, int),
                    Fault,
                >(fault),
            },
        decreases terminals.len() - cursor.index(),
    {
        if cursor.is_kind(TokenType::CloseBrace) {
            cursor.advance();
            assert(statement_views(statements@) + Seq::<StatementView>::empty()
                == statement_views(statements@));
            return Ok(statements);
        }
        let ghost before = statements@;
        proof {
            lemma_statement_advances(terminals, cursor.index());
        }
        statements.push(statement(cursor)?);
        proof {
            let value = statements@.last()@;
            assert(statement_views(statements@) == statement_views(before).push(value));
            match scope_at(terminals, cursor.index()) {
                Ok((rest, end)) => {
                    assert(statement_views(statements@) + rest == statement_views(before) + (
                        seq![value] + rest));
                },
                Err(_) => {},
            }
        }
    }
}

/// Reads what follows the name of a function: the parameters in their
/// parentheses and the body in its braces.
pub fn function(cursor: &mut TokenCursor) -> (result: Result<
    (Vec<String>, Vec<Statement>),
    ParseError,
>)
    ensures
        final(cursor).tokens() == old(cursor).tokens(),
        match function_at(old(cursor).terminals(), old(cursor).index()) {
            Ok((names, statements, next)) => {
                &&& result is Ok
                &&& name_views(result->Ok_0.0@) == names
                &&& statement_views(result->Ok_0.1@) == statements
                &&& final(cursor).index() == next
            },
            Err(fault) => final(cursor).stopped_at(*old(cursor), result, fault),
        },
{
    token(cursor, TokenType::OpenParen, Expected::OpenParen)?;
    let names = parameters(cursor)?;
    token(cursor, TokenType::OpenBrace, Expected::OpenBrace)?;
    let body = scope(cursor)?;
    Ok((names, body))
}

/// Reads a declaration, chosen by the token at the cursor: the keyword
/// `event` begins an event, the keyword `let` a constant, an identifier a
/// function. Any other token begins no declaration.
pub fn declaration(cursor: &mut TokenCursor) -> (result: Result<Declaration, ParseError>)
    ensures
        final(cursor).tokens() == old(cursor).tokens(),
        match declaration_at(old(cursor).terminals(), old(cursor).index()) {
            Ok((value, next)) => result is Ok && result->Ok_0@ == value && final(cursor).index()
                == next,
            Err(fault) => final(cursor).stopped_at(*old(cursor), result, fault),
        },
{
    match cursor.peek() {
        Some(found) => match found.token_type {
            Some(TokenType::Keyword) => {
                if is_event_keyword(&found.lexeme) {
                    cursor.advance();
                    event(cursor)
                } else if is_let_keyword(&found.lexeme) {
                    cursor.advance();
                    let (name, value) = binding(cursor)?;
                    Ok(Declaration::LetDeclaration { name, value })
                } else {
                    Err(ParseError::UnexpectedDeclaration(found.clone()))
                }
            },
            Some(TokenType::Identifier) => {
                let name = found.lexeme.clone();
                cursor.advance();
                let (parameters, body) = function(cursor)?;
                Ok(Declaration::FunctionDeclaration { name, parameters, body })
            },
            _ => Err(ParseError::UnexpectedDeclaration(found.clone())),
        },
        None => Err(cursor.mismatch(Expected::Declaration)),
    }
}

/// Reads declarations up to the end of the tokens.
pub fn document(cursor: &mut TokenCursor) -> (result: Result<Document, ParseError>)
    ensures
        final(cursor).tokens() == old(cursor).tokens(),
        match document_at(old(cursor).terminals(), old(cursor).index()) {
            Ok(declarations) => result is Ok && result->Ok_0@ == DocumentView(declarations)
                && final(cursor).index() == final(cursor).tokens().len(),
            Err(fault) => final(cursor).stopped_at(*old(cursor), result, fault),
        },
{
    let mut declarations: Vec<Declaration> = Vec::new();
    let ghost terminals = cursor.terminals();
    proof {
        use_type_invariant(&*cursor);
        cursor.lemma_bounds();
        assert(declaration_views(declarations@) == Seq::<DeclarationView>::empty());
        match document_at(terminals, cursor.index()) {
            Ok(rest) => {
                assert(declaration_views(declarations@) + rest == rest);
            },
            Err(_) => {},
        }
    }
    loop
        invariant
            cursor.tokens() == old(cursor).tokens(),
            terminals == old(cursor).terminals(),
            terminals.len() == cursor.tokens().len(),
            0 <= cursor.index() <= terminals.len(),
            match document_at(terminals, cursor.index()) {
                Ok(rest) => document_at(terminals, old(cursor).index()) == Ok::<
                    Seq<DeclarationView>,
                    Fault,
                >(declaration_views(declarations@) + rest),
                Err(fault) => document_at(terminals, old(cursor).index()) == Err::<
                    Seq<DeclarationView>,
                    Fault,
                >(fault),
            },
        decreases terminals.len() - cursor.index(),
    {
        if cursor.at_end() {
            assert(declaration_views(declarations@) + Seq::<DeclarationView>::empty()
                == declaration_views(declarations@));
            return Ok(Document(declarations));
        }
        let ghost before = declarations@;
        proof {
            lemma_declaration_advances(terminals, cursor.index());
        }
        declarations.push(declaration(cursor)?);
        proof {
            let value = declarations@.last()@;
            assert(declaration_views(declarations@) == declaration_views(before).push(value));
            match document_at(terminals, cursor.index()) {
                Ok(rest) => {
                    assert(declaration_views(declarations@) + rest == declaration_views(before) + (
                        seq![value] + rest));
                },
                Err(_) => {},
            }
        }
    }
}

/// Parses a token buffer: gives the document whose declarations are those of
/// the buffer, in its order, where the whole buffer fits the grammar, and
/// the first error where it does not. No tokens make an empty document.
pub fn parse(tokens: &[Token]) -> (result: Result<Document, ParseError>)
    ensures
        match parse_result(token_views(tokens@)) {
            Ok(document) => result is Ok && result->Ok_0@ == document,
            Err(error) => result is Err && result->Err_0@ == error,
        },
{
    let mut cursor = TokenCursor::new(tokens);
    document(&mut cursor)
}

} // verus!
