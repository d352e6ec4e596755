//! The three kinds of failure: while scanning, while parsing, while running.

use vstd::prelude::*;
use crate::token::Token;

verus! {

/// What went wrong while scanning.
#[derive(Clone, Copy, Debug, PartialEq, Eq, Structural)]
pub enum ScanErrorKind {
    /// A character that starts no token. It is dropped.
    UnexpectedCharacter,
    /// The input ended inside a string literal.
    UnterminatedString,
}

/// A failure while scanning, with the line it is reported on.
#[derive(Clone, Copy, Debug, PartialEq, Eq, Structural)]
pub struct ScanError {
    pub kind: ScanErrorKind,
    pub line: usize,
}

/// A failure while parsing: what was expected, and the line of the token that
/// stood there instead.
#[derive(Debug, PartialEq)]
pub struct ParseError {
    pub message: String,
    pub line: usize,
}

impl Clone for ParseError {
    fn clone(&self) -> (r: Self)
        ensures
            r == *self,
    {
        ParseError { message: self.message.clone(), line: self.line }
    }
}

/// What an operator wanted of its operands.
#[derive(Clone, Copy, Debug, PartialEq, Eq, Structural)]
pub enum Expected {
    /// One number, for unary minus.
    Number,
    /// Two numbers.
    Numbers,
    /// Two numbers or two strings, for `+`.
    NumbersOrStrings,
}

/// A failure while running.
#[derive(Debug, PartialEq)]
pub enum RuntimeError {
    /// The name is bound in no scope of the chain.
    UndefinedVariable { name: Token },
    /// The operands are not of the kind that the operator wants.
    TypeMismatch { operator: Token, expected: Expected },
}

impl Clone for RuntimeError {
    fn clone(&self) -> (r: Self)
        ensures
            r == *self,
    {
        match self {
            RuntimeError::UndefinedVariable { name } => RuntimeError::UndefinedVariable {
                name: name.clone(),
            },
            RuntimeError::TypeMismatch { operator, expected } => RuntimeError::TypeMismatch {
                operator: operator.clone(),
                expected: *expected,
            },
        }
    }
}

impl ScanError {
    /// The wording of the failure.
    pub open spec fn message_text(self) -> Seq<char> {
        match self.kind {
            ScanErrorKind::UnexpectedCharacter => "Unexpected character."@,
            ScanErrorKind::UnterminatedString => "Unterminated string."@,
        }
    }

    /// The wording of the failure.
    pub fn message(&self) -> (r: String)
        ensures
            r@ == self.message_text(),
    {
        match self.kind {
            ScanErrorKind::UnexpectedCharacter => "Unexpected character.".to_owned(),
            ScanErrorKind::UnterminatedString => "Unterminated string.".to_owned(),
        }
    }
}

impl RuntimeError {
    /// The wording of the failure. An undefined variable is named.
    pub open spec fn message_text(self) -> Seq<char> {
        match self {
            RuntimeError::UndefinedVariable { name } => "Undefined variable '"@ + name.lexeme@
                + "'."@,
            RuntimeError::TypeMismatch { operator, expected } => match expected {
                Expected::Number => "Operand must be a number."@,
                Expected::Numbers => "Operands must be numbers."@,
                Expected::NumbersOrStrings => "Operands must be two numbers or two strings."@,
            },
        }
    }

    /// The line of the token at which the failure arose.
    pub open spec fn line_of(self) -> usize {
        match self {
            RuntimeError::UndefinedVariable { name } => name.line,
            RuntimeError::TypeMismatch { operator, expected } => operator.line,
        }
    }

    /// The wording of the failure.
    pub fn message(&self) -> (r: String)
        ensures
            r@ == self.message_text(),
    {
        match self {
            RuntimeError::UndefinedVariable { name } => {
                let mut s: String = "Undefined variable '".to_owned();
                s.append(name.lexeme.as_str());
                s.append("'.");
                s
            },
            RuntimeError::TypeMismatch { operator, expected } => match expected {
                Expected::Number => "Operand must be a number.".to_owned(),
                Expected::Numbers => "Operands must be numbers.".to_owned(),
                Expected::NumbersOrStrings => {
                    "Operands must be two numbers or two strings.".to_owned()
                },
            },
        }
    }

    /// The line of the token at which the failure arose.
    pub fn line(&self) -> (r: usize)
        ensures
            r == self.line_of(),
    {
        match self {
            RuntimeError::UndefinedVariable { name } => name.line,
            RuntimeError::TypeMismatch { operator, expected } => operator.line,
        }
    }
}

} // verus!
