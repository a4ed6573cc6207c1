//! Assembler and disassembler for the FV-1 audio DSP.
//!
//! The chip runs a program of exactly 128 instructions, each a 32-bit word.
//! Assembly source is read into tokens ([`lexer`]), tokens into a program
//! ([`parser`], [`ast`]), and the instructions of a program into the words
//! of a binary image ([`codegen`]); the way back leads from an image to
//! instructions and to source text again.
//!
//! Programs can also be put together in code, with the builders of
//! [`dsl`]; [`examples`] holds a few.
//!
//! Coefficients are single-precision numbers. They are held as bit
//! patterns ([`float32`]), read from decimal literals ([`literal`]) and
//! written as the shortest decimal that names them ([`shortest`]), all in
//! whole-number arithmetic ([`wide`]).

pub mod ast;
pub mod codegen;
pub mod constants;
pub mod dsl;
pub mod error;
pub mod examples;
pub mod float32;
pub mod instruction;
pub mod lexer;
pub mod literal;
pub mod parser;
pub mod register;
pub mod shortest;
pub mod text;
pub mod wide;

pub use ast::{Directive, LabelTable, Program, Statement, Value};
pub use codegen::{Assembler, Binary, Disassembler};
pub use constants::{
    ADDR_FIXED_POINT_SCALE, DELAY_RAM_SIZE, FIXED_POINT_SCALE, MAX_DELAY_TIME, MAX_INSTRUCTIONS,
    NUM_REGISTERS, SAMPLE_RATE,
};
pub use error::{CodegenError, ParseError};
pub use float32::Float32;
pub use instruction::{ChoFlags, ChoMode, Instruction, SkipCondition};
pub use lexer::{Lexer, Token};
pub use parser::Parser;
pub use register::{Control, Lfo, Register};
