//! The error records of the three stages: lexical, syntactic and runtime.

use crate::expr::ExpectType;
use crate::token::{Token, TokenType, TokenTypeView, TokenView};
use vstd::prelude::*;

verus! {

/// What the lexer can find wrong with a run of characters.
#[derive(Debug, PartialEq, Eq, Clone, Copy, Structural)]
pub enum LexError {
    InvalidTokenError,
    UnterminatedStringError,
}

impl LexError {
    /// The text that tells a user about the error.
    pub open spec fn message(self) -> Seq<char> {
        match self {
            LexError::InvalidTokenError => "Unrecognized token"@,
            LexError::UnterminatedStringError => "Unterminated string"@,
        }
    }

    /// The text that tells a user about the error.
    pub fn get_message(&self) -> (r: &'static str)
        ensures
            r@ == self.message(),
    {
        match self {
            LexError::InvalidTokenError => "Unrecognized token",
            LexError::UnterminatedStringError => "Unterminated string",
        }
    }
}

/// Why an operator could not be applied, or a name not be read.
#[derive(Debug, PartialEq, Eq, Clone, Copy, Structural)]
pub enum LiteralOpError {
    InvalidTypeError,
    DivByZeroError,
    UndefinedVariableError,
}

/// What is wrong with a run of tokens that should be an expression.
#[derive(Debug, PartialEq)]
pub enum ExprError {
    /// The kind of token that was expected, and the token that stood there.
    ExpectTokenError(ExpectType, Token),
    /// The opening parenthesis that nothing closes.
    UnterminatedParenthesis(Token),
}

/// The mathematical model of an [`ExprError`].
pub enum ExprErrorView {
    ExpectTokenError(ExpectType, TokenView),
    UnterminatedParenthesis(TokenView),
}

impl View for ExprError {
    type V = ExprErrorView;

    open spec fn view(&self) -> ExprErrorView {
        match self {
            ExprError::ExpectTokenError(expect, token) => ExprErrorView::ExpectTokenError(
                *expect,
                token@,
            ),
            ExprError::UnterminatedParenthesis(token) => ExprErrorView::UnterminatedParenthesis(
                token@,
            ),
        }
    }
}

impl ExprErrorView {
    /// The text that tells a user about the error.
    pub open spec fn message(self) -> Seq<char> {
        match self {
            ExprErrorView::ExpectTokenError(ExpectType::Operand, _) => "Expected an operand"@,
            ExprErrorView::ExpectTokenError(ExpectType::Operator, _) => "Expected an operator"@,
            ExprErrorView::UnterminatedParenthesis(_) => "Unterminated parenthesis"@,
        }
    }

    /// The token that the error is reported at.
    pub open spec fn token(self) -> TokenView {
        match self {
            ExprErrorView::ExpectTokenError(_, token) => token,
            ExprErrorView::UnterminatedParenthesis(token) => token,
        }
    }
}

impl ExprError {
    /// The text that tells a user about the error.
    pub fn get_message(&self) -> (r: &'static str)
        ensures
            r@ == self@.message(),
    {
        match self {
            ExprError::ExpectTokenError(expect, _) => match expect {
                ExpectType::Operand => "Expected an operand",
                ExpectType::Operator => "Expected an operator",
            },
            ExprError::UnterminatedParenthesis(_) => "Unterminated parenthesis",
        }
    }

    /// Line and column of the token that the error is reported at.
    pub fn get_position(&self) -> (r: (u32, u32))
        ensures
            r == (self@.token().line, self@.token().start),
    {
        match self {
            ExprError::ExpectTokenError(_, token) => (token.line, token.start),
            ExprError::UnterminatedParenthesis(token) => (token.line, token.start),
        }
    }
}

/// What is wrong with a statement.
#[derive(Debug, PartialEq)]
pub enum StmtError {
    InvalidStartToken(Token),
    /// The kind of token that was expected, and the token that stood there.
    ExpectToken(TokenType, Token),
    InvalidExpression(ExprError),
    ExpectedExpression(Token),
    IncompleteStatement(Token),
    UnterminatedParenthesis(Token),
    UnterminatedBlock(Token),
    UnexpectedBlockClose(Token),
}

/// The mathematical model of a [`StmtError`].
pub enum StmtErrorView {
    InvalidStartToken(TokenView),
    ExpectToken(TokenTypeView, TokenView),
    InvalidExpression(ExprErrorView),
    ExpectedExpression(TokenView),
    IncompleteStatement(TokenView),
    UnterminatedParenthesis(TokenView),
    UnterminatedBlock(TokenView),
    UnexpectedBlockClose(TokenView),
}

impl View for StmtError {
    type V = StmtErrorView;

    open spec fn view(&self) -> StmtErrorView {
        match self {
            StmtError::InvalidStartToken(t) => StmtErrorView::InvalidStartToken(t@),
            StmtError::ExpectToken(class, t) => StmtErrorView::ExpectToken(class@, t@),
            StmtError::InvalidExpression(e) => StmtErrorView::InvalidExpression(e@),
            StmtError::ExpectedExpression(t) => StmtErrorView::ExpectedExpression(t@),
            StmtError::IncompleteStatement(t) => StmtErrorView::IncompleteStatement(t@),
            StmtError::UnterminatedParenthesis(t) => StmtErrorView::UnterminatedParenthesis(t@),
            StmtError::UnterminatedBlock(t) => StmtErrorView::UnterminatedBlock(t@),
            StmtError::UnexpectedBlockClose(t) => StmtErrorView::UnexpectedBlockClose(t@),
        }
    }
}

impl StmtErrorView {
    /// The text that tells a user about the error.
    pub open spec fn message(self) -> Seq<char> {
        match self {
            StmtErrorView::InvalidStartToken(_) => "Invalid start of statement"@,
            StmtErrorView::ExpectToken(class, got) => "Expected "@ + class.description()
                + ", got "@ + got.class.description() + " instead"@,
            StmtErrorView::InvalidExpression(error) => error.message(),
            StmtErrorView::ExpectedExpression(_) => "Expected an expression"@,
            StmtErrorView::IncompleteStatement(_) => "Incomplete statement"@,
            StmtErrorView::UnterminatedParenthesis(_) => "Unterminated parenthesis"@,
            StmtErrorView::UnterminatedBlock(_) => "Unterminated block"@,
            StmtErrorView::UnexpectedBlockClose(_) => "Unexpected block termination"@,
        }
    }

    /// The token that the error is reported at.
    pub open spec fn token(self) -> TokenView {
        match self {
            StmtErrorView::InvalidStartToken(t) => t,
            StmtErrorView::ExpectToken(_, t) => t,
            StmtErrorView::InvalidExpression(error) => error.token(),
            StmtErrorView::ExpectedExpression(t) => t,
            StmtErrorView::IncompleteStatement(t) => t,
            StmtErrorView::UnterminatedParenthesis(t) => t,
            StmtErrorView::UnterminatedBlock(t) => t,
            StmtErrorView::UnexpectedBlockClose(t) => t,
        }
    }
}

impl StmtError {
    /// The text that tells a user about the error.
    pub fn get_message(&self) -> (r: String)
        ensures
            r@ == self@.message(),
    {
        match self {
            StmtError::InvalidStartToken(_) => String::from_str("Invalid start of statement"),
            StmtError::ExpectToken(class, got) => {
                let mut r = String::from_str("Expected ");
                r.append(class.to_string());
                r.append(", got ");
                r.append(got.class.to_string());
                r.append(" instead");
                r
            },
            StmtError::InvalidExpression(error) => String::from_str(error.get_message()),
            StmtError::ExpectedExpression(_) => String::from_str("Expected an expression"),
            StmtError::IncompleteStatement(_) => String::from_str("Incomplete statement"),
            StmtError::UnterminatedParenthesis(_) => String::from_str("Unterminated parenthesis"),
            StmtError::UnterminatedBlock(_) => String::from_str("Unterminated block"),
            StmtError::UnexpectedBlockClose(_) => String::from_str("Unexpected block termination"),
        }
    }

    /// Line and column of the token that the error is reported at.
    pub fn get_position(&self) -> (r: (u32, u32))
        ensures
            r == (self@.token().line, self@.token().start),
    {
        match self {
            StmtError::InvalidStartToken(token) => (token.line, token.start),
            StmtError::ExpectToken(_, token) => (token.line, token.start),
            StmtError::InvalidExpression(error) => error.get_position(),
            StmtError::ExpectedExpression(token) => (token.line, token.start),
            StmtError::IncompleteStatement(token) => (token.line, token.start),
            StmtError::UnterminatedParenthesis(token) => (token.line, token.start),
            StmtError::UnterminatedBlock(token) => (token.line, token.start),
            StmtError::UnexpectedBlockClose(token) => (token.line, token.start),
        }
    }
}

/// The errors of a parse that failed, in the order in which they were found.
#[derive(Debug, PartialEq)]
pub struct StmtErrors {
    pub errors: Vec<StmtError>,
}

/// The models of a run of errors.
pub open spec fn error_views(errors: Seq<StmtError>) -> Seq<StmtErrorView> {
    Seq::new(errors.len(), |i: int| errors[i]@)
}

impl View for StmtErrors {
    type V = Seq<StmtErrorView>;

    open spec fn view(&self) -> Seq<StmtErrorView> {
        error_views(self.errors@)
    }
}

} // verus!
