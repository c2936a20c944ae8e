//! Tokens and errors, with their mathematical counterparts.

use vstd::prelude::*;

verus! {

/// One lexical unit of an expression: a numeric literal, kept as its text,
/// or one of the six single-character symbols.
#[derive(Debug, Clone, PartialEq, Eq)]
pub enum Token {
    Number(Vec<char>),
    Plus,
    Minus,
    Multiply,
    Divide,
    LeftParen,
    RightParen,
}

/// The shape of a [`Token`] in specifications: the literal text is a
/// sequence of characters.
pub enum SpecToken {
    Number(Seq<char>),
    Plus,
    Minus,
    Multiply,
    Divide,
    LeftParen,
    RightParen,
}

impl View for Token {
    type V = SpecToken;

    open spec fn view(&self) -> SpecToken {
        match self {
            Token::Number(lit) => SpecToken::Number(lit@),
            Token::Plus => SpecToken::Plus,
            Token::Minus => SpecToken::Minus,
            Token::Multiply => SpecToken::Multiply,
            Token::Divide => SpecToken::Divide,
            Token::LeftParen => SpecToken::LeftParen,
            Token::RightParen => SpecToken::RightParen,
        }
    }
}

impl DeepView for Token {
    type V = SpecToken;

    open spec fn deep_view(&self) -> SpecToken {
        self.view()
    }
}

/// Everything that can go wrong with an expression.  Each variant names its
/// trigger; the two parameterised ones carry the offending text.
///
/// `DivisionByZero` is special: the library itself never raises it, because
/// it depends on the numeric value of a divisor, not on the text.  It is
/// declared here so that the embedding that runs a compiled program has the
/// full vocabulary of the calculator in one place.
#[derive(Debug, Clone, PartialEq, Eq)]
pub enum CalcError {
    /// The input is empty once spaces are removed.
    EmptyExpression,
    /// A numeric literal is not a valid number (say, two decimal points).
    InvalidNumber(Vec<char>),
    /// A character outside `0-9 . + - * / ( )` and space.
    UnexpectedCharacter(char),
    /// A factor was expected but the tokens ran out.
    UnexpectedEndOfExpression,
    /// A factor position holds a token that cannot start a factor.
    UnexpectedToken,
    /// An opened parenthesis is never closed.
    MissingClosingParen,
    /// The right operand of `/` evaluated to exactly zero.
    DivisionByZero,
    /// Tokens remain after a complete top-level expression.
    TrailingTokens,
}

/// The shape of a [`CalcError`] in specifications.
pub enum SpecError {
    EmptyExpression,
    InvalidNumber(Seq<char>),
    UnexpectedCharacter(char),
    UnexpectedEndOfExpression,
    UnexpectedToken,
    MissingClosingParen,
    DivisionByZero,
    TrailingTokens,
}

impl View for CalcError {
    type V = SpecError;

    open spec fn view(&self) -> SpecError {
        match self {
            CalcError::EmptyExpression => SpecError::EmptyExpression,
            CalcError::InvalidNumber(lit) => SpecError::InvalidNumber(lit@),
            CalcError::UnexpectedCharacter(c) => SpecError::UnexpectedCharacter(*c),
            CalcError::UnexpectedEndOfExpression => SpecError::UnexpectedEndOfExpression,
            CalcError::UnexpectedToken => SpecError::UnexpectedToken,
            CalcError::MissingClosingParen => SpecError::MissingClosingParen,
            CalcError::DivisionByZero => SpecError::DivisionByZero,
            CalcError::TrailingTokens => SpecError::TrailingTokens,
        }
    }
}

impl DeepView for CalcError {
    type V = SpecError;

    open spec fn deep_view(&self) -> SpecError {
        self.view()
    }
}

} // verus!
