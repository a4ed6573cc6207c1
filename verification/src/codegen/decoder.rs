//! Decoding of 32-bit machine words into instructions.

use crate::error::CodegenError;
use crate::float32::Float32;
use crate::instruction::{ChoFlags, ChoMode, Instruction, SkipCondition};
use crate::register::{Lfo, Register};
use vstd::prelude::*;

verus! {

/// The register that a six-bit register field names: the codes 0 to 5 and
/// 16 to 47 name one, every other code is an error.
pub open spec fn register_of(bits: u32) -> Result<Register, CodegenError> {
    if bits == 0 {
        Ok(Register::ADCL)
    } else if bits == 1 {
        Ok(Register::ADCR)
    } else if bits == 2 {
        Ok(Register::DACL)
    } else if bits == 3 {
        Ok(Register::DACR)
    } else if bits == 4 {
        Ok(Register::ADDR_PTR)
    } else if bits == 5 {
        Ok(Register::LR)
    } else if 16 <= bits < 48 {
        Ok(Register::REG((bits - 16) as u8))
    } else {
        Err(CodegenError::InvalidRegister { bits: bits as u8 })
    }
}

/// The skip condition that a three-bit field names.
pub open spec fn skip_condition_of(bits: u32) -> Result<SkipCondition, CodegenError> {
    if bits == 0 {
        Ok(SkipCondition::RUN)
    } else if bits == 1 {
        Ok(SkipCondition::NEG)
    } else if bits == 2 {
        Ok(SkipCondition::GEZ)
    } else if bits == 3 {
        Ok(SkipCondition::ZRO)
    } else if bits == 4 {
        Ok(SkipCondition::ZRC)
    } else {
        Err(CodegenError::InvalidSkipCondition { bits: bits as u8 })
    }
}

/// The LFO that a two-bit field names.
pub open spec fn lfo_of(bits: u32) -> Result<Lfo, CodegenError> {
    if bits == 0 {
        Ok(Lfo::SIN0)
    } else if bits == 1 {
        Ok(Lfo::SIN1)
    } else if bits == 2 {
        Ok(Lfo::RMP0)
    } else if bits == 3 {
        Ok(Lfo::RMP1)
    } else {
        Err(CodegenError::InvalidLfo { bits: bits as u8 })
    }
}

/// The CHO mode that a two-bit field names.
pub open spec fn cho_mode_of(bits: u32) -> Result<ChoMode, CodegenError> {
    if bits == 0 {
        Ok(ChoMode::RDA)
    } else if bits == 2 {
        Ok(ChoMode::SOF)
    } else if bits == 3 {
        Ok(ChoMode::RDAL)
    } else {
        Err(CodegenError::InvalidChoMode { bits: bits as u8 })
    }
}

/// The flags that a six-bit CHO flag field holds.
pub open spec fn cho_flags_of(bits: u32) -> ChoFlags {
    ChoFlags {
        rptr2: (bits & 0b100000) != 0,
        na: (bits & 0b010000) != 0,
        compc: (bits & 0b001000) != 0,
        compa: (bits & 0b000100) != 0,
        rptr2_select: (bits & 0b000010) != 0,
    }
}

/// The field as a 32-bit two's complement number.
pub open spec fn signed_value(bits: u32) -> int {
    if bits >= 0x8000_0000 {
        bits - 0x1_0000_0000
    } else {
        bits as int
    }
}

/// The integer that an S1.14 field holds: the field as it stands if bit 14
/// is clear, and its low fifteen bits as a negative two's complement number
/// if bit 14 is set.
pub open spec fn s114_value(bits: u32) -> int {
    if bits & 0x4000 != 0 {
        (bits & 0x7FFF) - 0x8000
    } else {
        signed_value(bits)
    }
}

/// The integer that an S.10 field holds: the field as it stands if bit 10
/// is clear, and its low eleven bits as a negative two's complement number
/// if bit 10 is set.
pub open spec fn s10_value(bits: u32) -> int {
    if bits & 0x400 != 0 {
        (bits & 0x7FF) - 0x800
    } else {
        signed_value(bits)
    }
}

/// The coefficient that an S1.14 field holds: its integer in units of 2^-14.
pub open spec fn s114_coefficient(bits: u32) -> Float32 {
    Float32::nearest_fixed(s114_value(bits), 14)
}

/// The offset that an S.10 field holds: its integer in units of 2^-9.
pub open spec fn s10_offset(bits: u32) -> Float32 {
    Float32::nearest_fixed(s10_value(bits), 9)
}

/// A field of less than 24 bits holds its fixed-point number exactly.
pub proof fn lemma_field_is_exact(bits: u32)
    requires
        bits < 0x100_0000,
    ensures
        s114_coefficient(bits) == Float32::of_fixed(s114_value(bits), 14),
        s10_offset(bits) == Float32::of_fixed(s10_value(bits), 9),
        -0x8000 <= s114_value(bits) < 0x100_0000,
        -0x800 <= s10_value(bits) < 0x100_0000,
{
    lemma_field_bounds(bits);
    crate::float32::lemma_nearest_fixed_small(s114_value(bits), 14);
    crate::float32::lemma_nearest_fixed_small(s10_value(bits), 9);
}

/// Masked fields stay below their width.
pub proof fn lemma_field_bounds(word: u32)
    by (bit_vector)
    ensures
        (word >> 27) & 0x1F < 32,
        (word >> 21) & 0x3F < 64,
        (word >> 6) & 0x7FFF < 0x8000,
        (word >> 11) & 0xFFFF < 0x10000,
        word & 0x7FF < 0x800,
        word & 0x7FFF < 0x8000,
        word & 0x7F_FFFF < 0x80_0000,
        (word >> 24) & 0x07 < 8,
        (word >> 18) & 0x3F < 64,
        (word >> 25) & 0x03 < 4,
        (word >> 24) & 0x03 < 4,
        (word >> 22) & 0x03 < 4,
        (word >> 9) & 0x1FF < 512,
        word & 0x1FF < 512,
        word & 0xFFFF < 0x10000,
{
}

/// Decode register from its six-bit field.
pub fn decode_register(bits: u32) -> (r: Result<Register, CodegenError>)
    ensures
        r == register_of(bits),
{
    if bits == 0b00000 {
        Ok(Register::ADCL)
    } else if bits == 0b00001 {
        Ok(Register::ADCR)
    } else if bits == 0b00010 {
        Ok(Register::DACL)
    } else if bits == 0b00011 {
        Ok(Register::DACR)
    } else if bits == 0b00100 {
        Ok(Register::ADDR_PTR)
    } else if bits == 0b00101 {
        Ok(Register::LR)
    } else if bits >= 16 && bits < 48 {
        Ok(Register::REG((bits - 16) as u8))
    } else {
        Err(CodegenError::InvalidRegister { bits: bits as u8 })
    }
}

/// Decode S1.14 fixed-point coefficient.
pub fn decode_s114(bits: u32) -> (r: Result<Float32, CodegenError>)
    ensures
        r == Ok::<Float32, CodegenError>(s114_coefficient(bits)),
{
    proof {
        lemma_field_bounds(bits);
    }
    let value: i64 = if bits & 0x4000 != 0 {
        ((bits & 0x7FFF) as i64) - 0x8000
    } else if bits >= 0x8000_0000 {
        (bits as i64) - 0x1_0000_0000
    } else {
        bits as i64
    };
    Ok(Float32::from_nearest_fixed(value, 14))
}

/// Decode S.10 fixed-point offset.
pub fn decode_s10(bits: u32) -> (r: Result<Float32, CodegenError>)
    ensures
        r == Ok::<Float32, CodegenError>(s10_offset(bits)),
{
    proof {
        lemma_field_bounds(bits);
    }
    let value: i64 = if bits & 0x400 != 0 {
        ((bits & 0x7FF) as i64) - 0x800
    } else if bits >= 0x8000_0000 {
        (bits as i64) - 0x1_0000_0000
    } else {
        bits as i64
    };
    Ok(Float32::from_nearest_fixed(value, 9))
}

/// Decode skip condition from 3-bit field.
pub fn decode_skip_condition(bits: u32) -> (r: Result<SkipCondition, CodegenError>)
    ensures
        r == skip_condition_of(bits),
{
    if bits == 0b000 {
        Ok(SkipCondition::RUN)
    } else if bits == 0b001 {
        Ok(SkipCondition::NEG)
    } else if bits == 0b010 {
        Ok(SkipCondition::GEZ)
    } else if bits == 0b011 {
        Ok(SkipCondition::ZRO)
    } else if bits == 0b100 {
        Ok(SkipCondition::ZRC)
    } else {
        Err(CodegenError::InvalidSkipCondition { bits: bits as u8 })
    }
}

/// Decode LFO from 2-bit field.
pub fn decode_lfo(bits: u32) -> (r: Result<Lfo, CodegenError>)
    ensures
        r == lfo_of(bits),
{
    if bits == 0b00 {
        Ok(Lfo::SIN0)
    } else if bits == 0b01 {
        Ok(Lfo::SIN1)
    } else if bits == 0b10 {
        Ok(Lfo::RMP0)
    } else if bits == 0b11 {
        Ok(Lfo::RMP1)
    } else {
        Err(CodegenError::InvalidLfo { bits: bits as u8 })
    }
}

/// Decode CHO mode from 2-bit field.
pub fn decode_cho_mode(bits: u32) -> (r: Result<ChoMode, CodegenError>)
    ensures
        r == cho_mode_of(bits),
{
    if bits == 0b00 {
        Ok(ChoMode::RDA)
    } else if bits == 0b10 {
        Ok(ChoMode::SOF)
    } else if bits == 0b11 {
        Ok(ChoMode::RDAL)
    } else {
        Err(CodegenError::InvalidChoMode { bits: bits as u8 })
    }
}

/// Decode CHO flags from 6-bit field.
pub fn decode_cho_flags(bits: u32) -> (flags: ChoFlags)
    ensures
        flags == cho_flags_of(bits),
{
    ChoFlags {
        rptr2: (bits & 0b100000) != 0,
        na: (bits & 0b010000) != 0,
        compc: (bits & 0b001000) != 0,
        compa: (bits & 0b000100) != 0,
        rptr2_select: (bits & 0b000010) != 0,
    }
}

/// An instruction with a register in bits 26..21 and an S1.14 coefficient
/// in bits 20..6, given what the register field decodes to.
pub open spec fn with_register(
    reg: Result<Register, CodegenError>,
    make: spec_fn(Register) -> Instruction,
) -> Result<Instruction, CodegenError> {
    match reg {
        Ok(reg) => Ok(make(reg)),
        Err(e) => Err(e),
    }
}

/// The instruction that a machine word holds, or the error of its first
/// field that names nothing.
pub open spec fn decode_spec(word: u32) -> Result<Instruction, CodegenError> {
    let op = (word >> 27) & 0x1F;
    let reg = register_of((word >> 21) & 0x3F);
    let reg_coeff = s114_coefficient((word >> 6) & 0x7FFF);
    let addr = ((word >> 11) & 0xFFFF) as u16;
    let addr_coeff = s114_coefficient(word & 0x7FF);
    let coeff = s114_coefficient((word >> 11) & 0xFFFF);
    let offset = s10_offset(word & 0x7FF);
    let mask = word & 0xFF_FFFF;
    if word == 0 {
        Ok(Instruction::NOP)
    } else if op == 0b00000 {
        with_register(reg, |reg: Register| Instruction::RDAX { reg, coeff: reg_coeff })
    } else if op == 0b00001 {
        Ok(Instruction::RDA { addr, coeff: addr_coeff })
    } else if op == 0b00010 {
        Ok(Instruction::RMPA { coeff: s114_coefficient(word & 0x7F_FFFF) })
    } else if op == 0b00110 {
        with_register(reg, |reg: Register| Instruction::WRAX { reg, coeff: reg_coeff })
    } else if op == 0b00111 {
        Ok(Instruction::WRA { addr, coeff: addr_coeff })
    } else if op == 0b01000 {
        Ok(Instruction::WRAP { addr, coeff: addr_coeff })
    } else if op == 0b01010 {
        with_register(reg, |reg: Register| Instruction::MULX { reg })
    } else if op == 0b01001 {
        with_register(reg, |reg: Register| Instruction::RDFX { reg, coeff: reg_coeff })
    } else if op == 0b01100 {
        with_register(reg, |reg: Register| Instruction::RDFX2 { reg, coeff: reg_coeff })
    } else if op == 0b00101 {
        with_register(reg, |reg: Register| Instruction::LDAX { reg })
    } else if op == 0b01011 {
        Ok(Instruction::ABSA)
    } else if op == 0b01101 {
        Ok(Instruction::SOF { coeff, offset })
    } else if op == 0b01111 {
        Ok(Instruction::AND { mask })
    } else if op == 0b10000 {
        Ok(Instruction::OR { mask })
    } else if op == 0b10001 {
        Ok(Instruction::XOR { mask })
    } else if op == 0b10010 {
        Ok(Instruction::SHL)
    } else if op == 0b10011 {
        Ok(Instruction::SHR)
    } else if op == 0b01110 {
        Ok(Instruction::CLR)
    } else if op == 0b10100 {
        Ok(Instruction::EXP { coeff, offset })
    } else if op == 0b10101 {
        Ok(Instruction::LOG { coeff, offset })
    } else if op == 0b10110 {
        match skip_condition_of((word >> 24) & 0x07) {
            Ok(condition) => Ok(
                Instruction::SKP { condition, offset: ((word >> 18) & 0x3F) as i8 },
            ),
            Err(e) => Err(e),
        }
    } else if op == 0b10111 {
        match lfo_of((word >> 25) & 0x03) {
            Ok(lfo) => Ok(
                Instruction::WLDS {
                    lfo,
                    freq: ((word >> 9) & 0x1FF) as u16,
                    amplitude: (word & 0x1FF) as u16,
                },
            ),
            Err(e) => Err(e),
        }
    } else if op == 0b11000 {
        match lfo_of((word >> 25) & 0x03) {
            Ok(lfo) => Ok(Instruction::JAM { lfo }),
            Err(e) => Err(e),
        }
    } else if op == 0b11001 {
        match cho_mode_of((word >> 24) & 0x03) {
            Ok(mode) => match lfo_of((word >> 22) & 0x03) {
                Ok(lfo) => Ok(
                    Instruction::CHO {
                        mode,
                        lfo,
                        flags: cho_flags_of((word >> 16) & 0x3F),
                        addr: (word & 0xFFFF) as u16,
                    },
                ),
                Err(e) => Err(e),
            },
            Err(e) => Err(e),
        }
    } else {
        Err(CodegenError::InvalidOpcode { opcode: op as u8 })
    }
}

/// Decode a 32-bit FV-1 machine code instruction.
pub fn decode_instruction(word: u32) -> (r: Result<Instruction, CodegenError>)
    ensures
        r == decode_spec(word),
{
    // The all-zero word is the chip's no-operation.
    if word == 0x00000000 {
        return Ok(Instruction::NOP);
    }
    proof {
        lemma_field_bounds(word);
    }
    let opcode = (word >> 27) & 0x1F;

    match opcode {
        // Accumulator operations
        0b00000 => {
            let reg = decode_register((word >> 21) & 0x3F)?;
            let coeff = decode_s114((word >> 6) & 0x7FFF)?;
            Ok(Instruction::RDAX { reg, coeff })
        },
        0b00001 => {
            let addr = ((word >> 11) & 0xFFFF) as u16;
            let coeff = decode_s114(word & 0x7FF)?;
            Ok(Instruction::RDA { addr, coeff })
        },
        0b00010 => {
            let coeff = decode_s114(word & 0x7FFFFF)?;
            Ok(Instruction::RMPA { coeff })
        },
        0b00110 => {
            let reg = decode_register((word >> 21) & 0x3F)?;
            let coeff = decode_s114((word >> 6) & 0x7FFF)?;
            Ok(Instruction::WRAX { reg, coeff })
        },
        0b00111 => {
            let addr = ((word >> 11) & 0xFFFF) as u16;
            let coeff = decode_s114(word & 0x7FF)?;
            Ok(Instruction::WRA { addr, coeff })
        },
        0b01000 => {
            let addr = ((word >> 11) & 0xFFFF) as u16;
            let coeff = decode_s114(word & 0x7FF)?;
            Ok(Instruction::WRAP { addr, coeff })
        },
        // Mathematical operations
        0b01010 => {
            let reg = decode_register((word >> 21) & 0x3F)?;
            Ok(Instruction::MULX { reg })
        },
        0b01001 => {
            let reg = decode_register((word >> 21) & 0x3F)?;
            let coeff = decode_s114((word >> 6) & 0x7FFF)?;
            Ok(Instruction::RDFX { reg, coeff })
        },
        0b01100 => {
            let reg = decode_register((word >> 21) & 0x3F)?;
            let coeff = decode_s114((word >> 6) & 0x7FFF)?;
            Ok(Instruction::RDFX2 { reg, coeff })
        },
        0b00101 => {
            let reg = decode_register((word >> 21) & 0x3F)?;
            Ok(Instruction::LDAX { reg })
        },
        0b01011 => Ok(Instruction::ABSA),
        // Logic and control
        0b01101 => {
            let coeff = decode_s114((word >> 11) & 0xFFFF)?;
            let offset = decode_s10(word & 0x7FF)?;
            Ok(Instruction::SOF { coeff, offset })
        },
        0b01111 => {
            let mask = word & 0xFFFFFF;
            Ok(Instruction::AND { mask })
        },
        0b10000 => {
            let mask = word & 0xFFFFFF;
            Ok(Instruction::OR { mask })
        },
        0b10001 => {
            let mask = word & 0xFFFFFF;
            Ok(Instruction::XOR { mask })
        },
        0b10010 => Ok(Instruction::SHL),
        0b10011 => Ok(Instruction::SHR),
        0b01110 => Ok(Instruction::CLR),
        // Conversion operations
        0b10100 => {
            let coeff = decode_s114((word >> 11) & 0xFFFF)?;
            let offset = decode_s10(word & 0x7FF)?;
            Ok(Instruction::EXP { coeff, offset })
        },
        0b10101 => {
            let coeff = decode_s114((word >> 11) & 0xFFFF)?;
            let offset = decode_s10(word & 0x7FF)?;
            Ok(Instruction::LOG { coeff, offset })
        },
        // Conditional skipping
        0b10110 => {
            let condition = decode_skip_condition((word >> 24) & 0x07)?;
            let offset = ((word >> 18) & 0x3F) as i8;
            Ok(Instruction::SKP { condition, offset })
        },
        // LFO control
        0b10111 => {
            let lfo = decode_lfo((word >> 25) & 0x03)?;
            let freq = ((word >> 9) & 0x1FF) as u16;
            let amplitude = (word & 0x1FF) as u16;
            Ok(Instruction::WLDS { lfo, freq, amplitude })
        },
        0b11000 => {
            let lfo = decode_lfo((word >> 25) & 0x03)?;
            Ok(Instruction::JAM { lfo })
        },
        0b11001 => {
            let mode = decode_cho_mode((word >> 24) & 0x03)?;
            let lfo = decode_lfo((word >> 22) & 0x03)?;
            let flags = decode_cho_flags((word >> 16) & 0x3F);
            let addr = (word & 0xFFFF) as u16;
            Ok(Instruction::CHO { mode, lfo, flags, addr })
        },
        _ => Err(CodegenError::InvalidOpcode { opcode: opcode as u8 }),
    }
}

} // verus!
