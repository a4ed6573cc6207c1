//! Errors of parsing and of code generation.

use crate::float32::Float32;
use std::ops::Range;
use vstd::prelude::*;

verus! {

/// Errors that can occur during parsing.
#[derive(Debug)]
pub enum ParseError {
    /// The input ended where a token was required.
    UnexpectedEof,
    /// A token other than the required one was found.
    UnexpectedToken { expected: String, found: String, span: Range<usize> },
    /// A register was required.
    ExpectedRegister { span: Range<usize> },
    /// A number was required.
    ExpectedNumber { span: Range<usize> },
    /// The program holds more instructions than the chip has slots.
    TooManyInstructions { max: usize, count: usize, span: Range<usize> },
    /// A label is used that is not defined.
    UndefinedLabel { name: String, span: Range<usize> },
    /// The lexer could not read a token here.
    InvalidToken { span: Range<usize> },
}

/// A parse error, with its texts as sequences of characters.
pub ghost enum ParseErrorView {
    UnexpectedEof,
    UnexpectedToken { expected: Seq<char>, found: Seq<char>, span: Range<usize> },
    ExpectedRegister { span: Range<usize> },
    ExpectedNumber { span: Range<usize> },
    TooManyInstructions { max: usize, count: usize, span: Range<usize> },
    UndefinedLabel { name: Seq<char>, span: Range<usize> },
    InvalidToken { span: Range<usize> },
}

impl View for ParseError {
    type V = ParseErrorView;

    open spec fn view(&self) -> ParseErrorView {
        match *self {
            ParseError::UnexpectedEof => ParseErrorView::UnexpectedEof,
            ParseError::UnexpectedToken { expected, found, span } => {
                ParseErrorView::UnexpectedToken { expected: expected@, found: found@, span }
            },
            ParseError::ExpectedRegister { span } => ParseErrorView::ExpectedRegister { span },
            ParseError::ExpectedNumber { span } => ParseErrorView::ExpectedNumber { span },
            ParseError::TooManyInstructions { max, count, span } => {
                ParseErrorView::TooManyInstructions { max, count, span }
            },
            ParseError::UndefinedLabel { name, span } => ParseErrorView::UndefinedLabel {
                name: name@,
                span,
            },
            ParseError::InvalidToken { span } => ParseErrorView::InvalidToken { span },
        }
    }
}

/// Errors that can occur during code generation.
#[derive(Debug, Clone, Copy)]
#[allow(inconsistent_fields)]
pub enum CodegenError {
    /// A coefficient does not fit its fixed-point format.
    CoefficientOutOfRange { value: Float32 },
    /// A delay address lies beyond delay RAM.
    AddressOutOfRange { addr: u16, max: u16 },
    /// The program holds more instructions than the chip has slots.
    ProgramTooLarge { size: usize, max: usize },
    /// The top five bits of a word name no instruction.
    InvalidOpcode { opcode: u8 },
    /// A register field names no register.
    InvalidRegister { bits: u8 },
    /// A condition field names no skip condition.
    InvalidSkipCondition { bits: u8 },
    /// An LFO field names no LFO.
    InvalidLfo { bits: u8 },
    /// A mode field names no CHO mode.
    InvalidChoMode { bits: u8 },
    /// A raw binary image does not have 512 bytes.
    InvalidBinarySize { size: usize, expected: usize },
}

} // verus!
