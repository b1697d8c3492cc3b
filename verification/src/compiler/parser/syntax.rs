//! The syntax tree, and each of its nodes as a mathematical value.

use vstd::prelude::*;
use crate::compiler::lexer::TokenType;
use crate::compiler::lexer::grammar::is_lexeme;
use crate::compiler::parser::integer::Integer;

verus! {

/// A value written out in the source.
#[derive(Debug, Clone, PartialEq, Eq)]
pub enum Expression {
    /// A numeric literal, by its number.
    NumericLiteral(Integer),
    /// A reference to a name.
    Identifier(String),
}

/// One step of the body of a function.
#[derive(Debug, Clone, PartialEq, Eq)]
pub enum Statement {
    /// `let name = value;`
    Let { name: String, value: Expression },
    /// `value;`
    Expression(Expression),
}

/// A construct at the top level of a source text.
#[derive(Debug, Clone, PartialEq, Eq)]
pub enum Declaration {
    /// `event name;`
    EventDeclaration { name: String },
    /// `let name = value;`
    LetDeclaration { name: String, value: Expression },
    /// `name(parameters) { body }`
    FunctionDeclaration { name: String, parameters: Vec<String>, body: Vec<Statement> },
}

/// A whole source text: its declarations in the order in which they stand.
#[derive(Debug, Clone, PartialEq, Eq)]
pub struct Document(pub Vec<Declaration>);

/// An expression as a mathematical value.
pub enum ExpressionView {
    NumericLiteral(nat),
    Identifier(Seq<char>),
}

/// A statement as a mathematical value.
pub enum StatementView {
    Let { name: Seq<char>, value: ExpressionView },
    Expression(ExpressionView),
}

/// A declaration as a mathematical value.
pub enum DeclarationView {
    EventDeclaration { name: Seq<char> },
    LetDeclaration { name: Seq<char>, value: ExpressionView },
    FunctionDeclaration { name: Seq<char>, parameters: Seq<Seq<char>>, body: Seq<StatementView> },
}

/// A document as a mathematical value.
pub struct DocumentView(pub Seq<DeclarationView>);

/// Whether a text is a name: a run of letters that is no keyword.
pub open spec fn is_name(text: Seq<char>) -> bool {
    is_lexeme(TokenType::Identifier, text)
}

impl ExpressionView {
    /// Whether the name in the expression, if it is one, is a name.
    pub open spec fn well_named(self) -> bool {
        match self {
            ExpressionView::NumericLiteral(_) => true,
            ExpressionView::Identifier(name) => is_name(name),
        }
    }
}

impl StatementView {
    /// Whether every name in the statement is a name.
    pub open spec fn well_named(self) -> bool {
        match self {
            StatementView::Let { name, value } => is_name(name) && value.well_named(),
            StatementView::Expression(value) => value.well_named(),
        }
    }
}

impl DeclarationView {
    /// Whether every name in the declaration is a name.
    pub open spec fn well_named(self) -> bool {
        match self {
            DeclarationView::EventDeclaration { name } => is_name(name),
            DeclarationView::LetDeclaration { name, value } => is_name(name) && value.well_named(),
            DeclarationView::FunctionDeclaration { name, parameters, body } => {
                &&& is_name(name)
                &&& forall|i: int| 0 <= i < parameters.len() ==> is_name(#[trigger] parameters[i])
                &&& forall|i: int| 0 <= i < body.len() ==> (#[trigger] body[i]).well_named()
            },
        }
    }
}

impl DocumentView {
    /// Whether every name in the document is a name.
    pub open spec fn well_named(self) -> bool {
        forall|i: int| 0 <= i < self.0.len() ==> (#[trigger] self.0[i]).well_named()
    }
}

impl View for Expression {
    type V = ExpressionView;

    open spec fn view(&self) -> ExpressionView {
        match self {
            Expression::NumericLiteral(number) => ExpressionView::NumericLiteral(number@),
            Expression::Identifier(name) => ExpressionView::Identifier(name@),
        }
    }
}

impl View for Statement {
    type V = StatementView;

    open spec fn view(&self) -> StatementView {
        match self {
            Statement::Let { name, value } => StatementView::Let { name: name@, value: value@ },
            Statement::Expression(value) => StatementView::Expression(value@),
        }
    }
}

/// Names as mathematical values.
pub open spec fn name_views(names: Seq<String>) -> Seq<Seq<char>> {
    names.map_values(|name: String| name@)
}

/// Statements as mathematical values.
pub open spec fn statement_views(statements: Seq<Statement>) -> Seq<StatementView> {
    statements.map_values(|statement: Statement| statement@)
}

impl View for Declaration {
    type V = DeclarationView;

    open spec fn view(&self) -> DeclarationView {
        match self {
            Declaration::EventDeclaration { name } => DeclarationView::EventDeclaration {
                name: name@,
            },
            Declaration::LetDeclaration { name, value } => DeclarationView::LetDeclaration {
                name: name@,
                value: value@,
            },
            Declaration::FunctionDeclaration {
                name,
                parameters,
                body,
            } => DeclarationView::FunctionDeclaration {
                name: name@,
                parameters: name_views(parameters@),
                body: statement_views(body@),
            },
        }
    }
}

/// Declarations as mathematical values.
pub open spec fn declaration_views(declarations: Seq<Declaration>) -> Seq<DeclarationView> {
    declarations.map_values(|declaration: Declaration| declaration@)
}

impl View for Document {
    type V = DocumentView;

    open spec fn view(&self) -> DocumentView {
        DocumentView(declaration_views(self.0@))
    }
}

} // verus!
