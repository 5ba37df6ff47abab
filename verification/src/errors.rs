use vstd::prelude::*;
use crate::token::TokenType;

verus! {

/// Everything that can go wrong while running one line: an unrecognized
/// character in the lexer, a token mismatch in the parser, a read past the
/// token stream, an undefined name during evaluation, or a call nest deeper
/// than the evaluator's depth limit.
#[derive(Debug, PartialEq)]
pub enum CalcError {
    InvalidCharacter { offset: usize, found: char },
    Syntax { offset: usize, expected: TokenType },
    TokenOutOfBounds,
    UnknownConstant { name: String },
    UnknownFunction { name: String },
    RecursionLimit,
}

/// The mathematical model of an error.
pub enum ErrorV {
    InvalidCharacter { offset: nat, found: char },
    Syntax { offset: nat, expected: TokenType },
    TokenOutOfBounds,
    UnknownConstant { name: Seq<char> },
    UnknownFunction { name: Seq<char> },
    RecursionLimit,
    NestedAssignment,
}

impl View for CalcError {
    type V = ErrorV;

    open spec fn view(&self) -> ErrorV {
        match self {
            CalcError::InvalidCharacter { offset, found } => ErrorV::InvalidCharacter {
                offset: *offset as nat,
                found: *found,
            },
            CalcError::Syntax { offset, expected } => ErrorV::Syntax {
                offset: *offset as nat,
                expected: *expected,
            },
            CalcError::TokenOutOfBounds => ErrorV::TokenOutOfBounds,
            CalcError::UnknownConstant { name } => ErrorV::UnknownConstant { name: name@ },
            CalcError::UnknownFunction { name } => ErrorV::UnknownFunction { name: name@ },
            CalcError::RecursionLimit => ErrorV::RecursionLimit,
        }
    }
}

} // verus!
