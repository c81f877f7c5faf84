//! Token and error data types.
//!
//! A [`Token`] classifies a single position of the input text; a
//! [`ParseError`] describes every condition under which scanning or
//! evaluation gives up, together with the position at which it did.

use vstd::prelude::*;

verus! {

/// The classification of a scanned token.
#[derive(Copy, Clone, PartialEq, Eq, Structural, Debug)]
pub enum TokenType {
    /// A single decimal digit.
    Int,
    /// One of the four binary operators `+ - / *`.
    Op,
    /// A whitespace character.
    SPC,
    /// End of input: the cursor is past the last valid index.
    EOF,
    /// No token: the sentinel a fresh `Context` starts with, before the
    /// first scan.  Also used in `ParseError` fields that do not apply.
    NOP,
}

/// A classified token: its kind plus the literal text matched (a single
/// character for digits and operators, a sentinel string otherwise).
///
/// Tokens are freshly constructed on every scan, never mutated, and
/// immediately consumed or discarded.
#[derive(Clone, Debug)]
pub struct Token {
    pub token_type: TokenType,
    pub value: String,
}

/// What went wrong.  Every error of the evaluator is one of these kinds.
#[derive(Copy, Clone, PartialEq, Eq, Structural, Debug)]
pub enum ErrorKind {
    /// A character that is not a digit, not whitespace and not an operator.
    UnrecognizedChar,
    /// `eat` was asked for one token kind but the current token has another.
    TokenMismatch,
    /// A term was expected but not even one digit was found.
    EmptyNumber,
    /// A digit run denotes a value above `i32::MAX`.
    NumberOverflow,
    /// The right operand of `/` evaluated to zero.
    DivisionByZero,
    /// A fold step left the `i32` range.
    ArithmeticOverflow,
}

/// A structured parse or evaluation error: the kind, the cursor position it
/// was detected at, and, for token mismatches, the expected and found token
/// kinds (`TokenType::NOP` where a field does not apply).
#[derive(Copy, Clone, PartialEq, Eq, Structural, Debug)]
pub struct ParseError {
    pub kind: ErrorKind,
    pub position: usize,
    pub expected: TokenType,
    pub found: TokenType,
}

/// The error reported for an unrecognized character at position `pos`.
pub open spec fn unrecognized_err(pos: int) -> ParseError {
    ParseError {
        kind: ErrorKind::UnrecognizedChar,
        position: pos as usize,
        expected: TokenType::NOP,
        found: TokenType::NOP,
    }
}

/// The error reported when `eat` expects `expected` but finds `found`.
pub open spec fn mismatch_err(pos: int, expected: TokenType, found: TokenType) -> ParseError {
    ParseError { kind: ErrorKind::TokenMismatch, position: pos as usize, expected, found }
}

/// The error reported when a term yields no digits at all.
pub open spec fn empty_number_err(pos: int, found: TokenType) -> ParseError {
    ParseError {
        kind: ErrorKind::EmptyNumber,
        position: pos as usize,
        expected: TokenType::Int,
        found,
    }
}

/// The error reported when a digit run starting at `pos` exceeds `i32::MAX`.
pub open spec fn number_overflow_err(pos: int) -> ParseError {
    ParseError {
        kind: ErrorKind::NumberOverflow,
        position: pos as usize,
        expected: TokenType::NOP,
        found: TokenType::NOP,
    }
}

/// The error reported for a division by zero; `pos` is the operator position.
pub open spec fn division_by_zero_err(pos: int) -> ParseError {
    ParseError {
        kind: ErrorKind::DivisionByZero,
        position: pos as usize,
        expected: TokenType::NOP,
        found: TokenType::NOP,
    }
}

/// The error reported when a fold step overflows; `pos` is the operator
/// position.
pub open spec fn arithmetic_overflow_err(pos: int) -> ParseError {
    ParseError {
        kind: ErrorKind::ArithmeticOverflow,
        position: pos as usize,
        expected: TokenType::NOP,
        found: TokenType::NOP,
    }
}

} // verus!
