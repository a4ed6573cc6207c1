//! Conversion between instructions and FV-1 machine code.

pub mod assembler;
pub mod decoder;
pub mod disassembler;
pub mod encoder;
pub mod roundtrip;

pub use assembler::{Assembler, Binary};
pub use decoder::decode_instruction;
pub use disassembler::Disassembler;
pub use encoder::encode_instruction;
