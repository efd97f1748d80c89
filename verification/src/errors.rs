//! The errors a parse or a typed lookup can surface.
//!
//! Every parse-time error is fatal to the whole parse; a lookup error is
//! local to one access. Each error names the 1-based line it arose on and,
//! where one exists, the offending line's content or the requested name.

use vstd::prelude::*;

use crate::values::ArgTag;

verus! {

/// A parse-time error. Line numbers are 1-based; `content` is the raw line.
#[derive(Debug)]
pub enum ParseError {
    /// The line matches none of the four line classes.
    UnrecognizedLine { line: usize, content: Vec<u8> },
    /// A `#`-prefixed line names no known type.
    UnknownTypeDirective { line: usize, content: Vec<u8> },
    /// An assignment line misses the separator or a nonempty side.
    MalformedAssignment { line: usize, content: Vec<u8> },
    /// The value of an integer-typed assignment is no 64-bit integer literal.
    InvalidIntegerLiteral { line: usize, content: Vec<u8> },
    /// The value of a float-typed assignment is no float literal.
    InvalidFloatLiteral { line: usize, content: Vec<u8> },
    /// The value of a boolean-typed assignment is neither `true` nor `false`.
    InvalidBooleanLiteral { line: usize, content: Vec<u8> },
    /// An assignment line stands before any type directive.
    NoTypeDeclared { line: usize },
}

/// The mathematical model of a parse-time error.
pub enum ParseErrorModel {
    UnrecognizedLine(nat, Seq<u8>),
    UnknownTypeDirective(nat, Seq<u8>),
    MalformedAssignment(nat, Seq<u8>),
    InvalidIntegerLiteral(nat, Seq<u8>),
    InvalidFloatLiteral(nat, Seq<u8>),
    InvalidBooleanLiteral(nat, Seq<u8>),
    NoTypeDeclared(nat),
}

impl ParseError {
    /// The model of this error.
    pub open spec fn view(&self) -> ParseErrorModel {
        match self {
            ParseError::UnrecognizedLine { line, content } => ParseErrorModel::UnrecognizedLine(
                *line as nat,
                content@,
            ),
            ParseError::UnknownTypeDirective { line, content } =>
                ParseErrorModel::UnknownTypeDirective(*line as nat, content@),
            ParseError::MalformedAssignment { line, content } =>
                ParseErrorModel::MalformedAssignment(*line as nat, content@),
            ParseError::InvalidIntegerLiteral { line, content } =>
                ParseErrorModel::InvalidIntegerLiteral(*line as nat, content@),
            ParseError::InvalidFloatLiteral { line, content } =>
                ParseErrorModel::InvalidFloatLiteral(*line as nat, content@),
            ParseError::InvalidBooleanLiteral { line, content } =>
                ParseErrorModel::InvalidBooleanLiteral(*line as nat, content@),
            ParseError::NoTypeDeclared { line } => ParseErrorModel::NoTypeDeclared(*line as nat),
        }
    }

    /// The 1-based line this error arose on.
    pub fn line(&self) -> (r: usize)
        ensures
            r as nat == match self@ {
                ParseErrorModel::UnrecognizedLine(l, _) => l,
                ParseErrorModel::UnknownTypeDirective(l, _) => l,
                ParseErrorModel::MalformedAssignment(l, _) => l,
                ParseErrorModel::InvalidIntegerLiteral(l, _) => l,
                ParseErrorModel::InvalidFloatLiteral(l, _) => l,
                ParseErrorModel::InvalidBooleanLiteral(l, _) => l,
                ParseErrorModel::NoTypeDeclared(l) => l,
            },
    {
        match self {
            ParseError::UnrecognizedLine { line, .. } => *line,
            ParseError::UnknownTypeDirective { line, .. } => *line,
            ParseError::MalformedAssignment { line, .. } => *line,
            ParseError::InvalidIntegerLiteral { line, .. } => *line,
            ParseError::InvalidFloatLiteral { line, .. } => *line,
            ParseError::InvalidBooleanLiteral { line, .. } => *line,
            ParseError::NoTypeDeclared { line } => *line,
        }
    }
}

/// A lookup-time error of the typed accessors.
#[derive(Debug)]
pub enum AccessError {
    /// The requested name is absent from the mapping.
    MissingKey { name: Vec<u8> },
    /// The stored value's tag differs from the requested one.
    TypeMismatch { name: Vec<u8>, expected: ArgTag, actual: ArgTag },
}

/// The mathematical model of a lookup-time error.
pub enum AccessErrorModel {
    MissingKey(Seq<u8>),
    TypeMismatch(Seq<u8>, ArgTag, ArgTag),
}

impl AccessError {
    /// The model of this error.
    pub open spec fn view(&self) -> AccessErrorModel {
        match self {
            AccessError::MissingKey { name } => AccessErrorModel::MissingKey(name@),
            AccessError::TypeMismatch { name, expected, actual } => AccessErrorModel::TypeMismatch(
                name@,
                *expected,
                *actual,
            ),
        }
    }
}

} // verus!
