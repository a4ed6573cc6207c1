//! Encoding of instructions as 32-bit machine words.
//!
//! Every word carries a five-bit opcode in bits 31..27. The remaining bits
//! hold the operands, in a layout that depends on the instruction.

use crate::error::CodegenError;
use crate::float32::Float32;
use crate::instruction::{ChoFlags, ChoMode, Instruction, SkipCondition};
use crate::register::{Lfo, Register};
use vstd::prelude::*;

verus! {

/// Highest delay address.
pub const MAX_ADDRESS: u16 = 32767;

/// The code of a register in a six-bit register field. Registers that have
/// no code of their own share the code 0.
pub open spec fn register_code(reg: Register) -> u32 {
    match reg {
        Register::ADCL => 0,
        Register::ADCR => 1,
        Register::DACL => 2,
        Register::DACR => 3,
        Register::ADDR_PTR => 4,
        Register::LR => 5,
        Register::REG(n) => if n < 32 {
            (n + 16) as u32
        } else {
            0
        },
        _ => 0,
    }
}

/// The three-bit code of a skip condition.
pub open spec fn skip_condition_code(condition: SkipCondition) -> u32 {
    match condition {
        SkipCondition::RUN => 0,
        SkipCondition::NEG => 1,
        SkipCondition::GEZ => 2,
        SkipCondition::ZRO => 3,
        SkipCondition::ZRC => 4,
    }
}

/// The two-bit code of an LFO.
pub open spec fn lfo_code(lfo: Lfo) -> u32 {
    match lfo {
        Lfo::SIN0 => 0,
        Lfo::SIN1 => 1,
        Lfo::RMP0 => 2,
        Lfo::RMP1 => 3,
    }
}

/// The two-bit code of a CHO mode.
pub open spec fn cho_mode_code(mode: ChoMode) -> u32 {
    match mode {
        ChoMode::RDA => 0,
        ChoMode::SOF => 2,
        ChoMode::RDAL => 3,
    }
}

/// The six-bit field of the CHO flags: one bit per flag, the lowest unused.
pub open spec fn cho_flags_code(flags: ChoFlags) -> u32 {
    ((if flags.rptr2 { 32int } else { 0int })
    + (if flags.na { 16int } else { 0int })
    + (if flags.compc { 8int } else { 0int })
    + (if flags.compa { 4int } else { 0int })
    + (if flags.rptr2_select { 2int } else { 0int })) as u32
}

/// The fifteen-bit two's complement field of a coefficient in S1.14: the
/// value times 2^14, rounded, modulo 2^15.
pub open spec fn s114_field(value: Float32) -> u32 {
    (value.quantized(14) % 0x8000) as u32
}

/// The eleven-bit two's complement field of an offset in S.10: the value
/// times 2^9, rounded, modulo 2^11.
pub open spec fn s10_field(value: Float32) -> u32 {
    (value.quantized(9) % 0x800) as u32
}

/// What `encode_s114` returns: the field of a value in `[-2, 2)`, and an
/// error for any other.
pub open spec fn s114_result(value: Float32) -> Result<u32, CodegenError> {
    if value.within(1) {
        Ok(s114_field(value))
    } else {
        Err(CodegenError::CoefficientOutOfRange { value })
    }
}

/// What `encode_s10` returns: the field of a value in `[-1, 1)`, and an
/// error for any other.
pub open spec fn s10_result(value: Float32) -> Result<u32, CodegenError> {
    if value.within(0) {
        Ok(s10_field(value))
    } else {
        Err(CodegenError::CoefficientOutOfRange { value })
    }
}

/// What `encode_address` returns: the address itself if it lies in delay
/// RAM, and an error otherwise.
pub open spec fn address_result(addr: u16) -> Result<u32, CodegenError> {
    if addr > MAX_ADDRESS {
        Err(CodegenError::AddressOutOfRange { addr, max: MAX_ADDRESS })
    } else {
        Ok(addr as u32)
    }
}

/// Encode register to its six-bit field.
pub fn encode_register(reg: &Register) -> (r: Result<u32, CodegenError>)
    ensures
        r == Ok::<u32, CodegenError>(register_code(*reg)),
        register_code(*reg) < 48,
{
    match reg {
        Register::ADCL => Ok(0b00000),
        Register::ADCR => Ok(0b00001),
        Register::DACL => Ok(0b00010),
        Register::DACR => Ok(0b00011),
        Register::ADDR_PTR => Ok(0b00100),
        Register::LR => Ok(0b00101),
        Register::REG(n) => {
            if *n < 32 {
                Ok(*n as u32 + 16)
            } else {
                Ok(0)
            }
        },
        Register::ACC => Ok(0),
        _ => Ok(0),
    }
}

/// Encode S1.14 fixed-point coefficient (-2.0 to just under 2.0).
pub fn encode_s114(value: Float32) -> (r: Result<u32, CodegenError>)
    ensures
        r == s114_result(value),
        r is Ok ==> r->Ok_0 < 0x8000,
{
    if !value.is_within(1) {
        return Err(CodegenError::CoefficientOutOfRange { value });
    }
    let scaled: i32 = value.quantize(14);
    Ok(((scaled + 0x100_0000) as u32) % 0x8000)
}

/// Encode S.10 fixed-point offset (-1.0 to just under 1.0).
pub fn encode_s10(value: Float32) -> (r: Result<u32, CodegenError>)
    ensures
        r == s10_result(value),
        r is Ok ==> r->Ok_0 < 0x800,
{
    if !value.is_within(0) {
        return Err(CodegenError::CoefficientOutOfRange { value });
    }
    let scaled: i32 = value.quantize(9);
    Ok(((scaled + 0x100_0000) as u32) % 0x800)
}

/// Encode 16-bit delay address.
pub fn encode_address(addr: u16) -> (r: Result<u32, CodegenError>)
    ensures
        r == address_result(addr),
{
    let max: u16 = MAX_ADDRESS;
    if addr > max {
        return Err(CodegenError::AddressOutOfRange { addr, max });
    }
    Ok(addr as u32)
}

/// Encode skip condition to 3-bit field.
pub fn encode_skip_condition(condition: SkipCondition) -> (bits: u32)
    ensures
        bits == skip_condition_code(condition),
        bits < 8,
{
    match condition {
        SkipCondition::RUN => 0b000,
        SkipCondition::NEG => 0b001,
        SkipCondition::GEZ => 0b010,
        SkipCondition::ZRO => 0b011,
        SkipCondition::ZRC => 0b100,
    }
}

/// Encode LFO to 2-bit field.
pub fn encode_lfo(lfo: Lfo) -> (bits: u32)
    ensures
        bits == lfo_code(lfo),
        bits < 4,
{
    match lfo {
        Lfo::SIN0 => 0b00,
        Lfo::SIN1 => 0b01,
        Lfo::RMP0 => 0b10,
        Lfo::RMP1 => 0b11,
    }
}

/// Encode CHO mode to 2-bit field.
pub fn encode_cho_mode(mode: ChoMode) -> (bits: u32)
    ensures
        bits == cho_mode_code(mode),
        bits < 4,
{
    match mode {
        ChoMode::RDA => 0b00,
        ChoMode::SOF => 0b10,
        ChoMode::RDAL => 0b11,
    }
}

/// Encode CHO flags to 6-bit field.
pub fn encode_cho_flags(flags: &ChoFlags) -> (bits: u32)
    ensures
        bits == cho_flags_code(*flags),
        bits < 64,
{
    let mut bits: u32 = 0u32;
    if flags.rptr2 {
        bits = bits + 0b100000;
    }
    if flags.na {
        bits = bits + 0b010000;
    }
    if flags.compc {
        bits = bits + 0b001000;
    }
    if flags.compa {
        bits = bits + 0b000100;
    }
    if flags.rptr2_select {
        bits = bits + 0b000010;
    }
    bits
}

/// The five-bit opcode of an instruction. `NOP` has none of its own: its
/// word is all zeros.
pub open spec fn opcode(inst: Instruction) -> u32 {
    match inst {
        Instruction::RDAX { .. } => 0b00000,
        Instruction::RDA { .. } => 0b00001,
        Instruction::RMPA { .. } => 0b00010,
        Instruction::LDAX { .. } => 0b00101,
        Instruction::WRAX { .. } => 0b00110,
        Instruction::WRA { .. } => 0b00111,
        Instruction::WRAP { .. } => 0b01000,
        Instruction::RDFX { .. } => 0b01001,
        Instruction::MULX { .. } => 0b01010,
        Instruction::ABSA => 0b01011,
        Instruction::RDFX2 { .. } => 0b01100,
        Instruction::SOF { .. } => 0b01101,
        Instruction::CLR => 0b01110,
        Instruction::AND { .. } => 0b01111,
        Instruction::OR { .. } => 0b10000,
        Instruction::XOR { .. } => 0b10001,
        Instruction::SHL => 0b10010,
        Instruction::SHR => 0b10011,
        Instruction::EXP { .. } => 0b10100,
        Instruction::LOG { .. } => 0b10101,
        Instruction::SKP { .. } => 0b10110,
        Instruction::WLDS { .. } => 0b10111,
        Instruction::JAM { .. } => 0b11000,
        Instruction::CHO { .. } => 0b11001,
        Instruction::NOP => 0b00000,
    }
}

/// A word with a register in bits 26..21 and nothing else.
pub open spec fn reg_word(op: u32, reg: Register) -> u32 {
    (op << 27) | (register_code(reg) << 21)
}

/// A word with a register in bits 26..21 and an S1.14 coefficient in bits 20..6.
pub open spec fn reg_coeff_word(op: u32, reg: Register, coeff: Float32) -> Result<
    u32,
    CodegenError,
> {
    match s114_result(coeff) {
        Ok(c) => Ok((op << 27) | (register_code(reg) << 21) | (c << 6)),
        Err(e) => Err(e),
    }
}

/// A word with a delay address in bits 26..11 and the low eleven bits of an
/// S1.14 coefficient in bits 10..0. The address is checked first.
pub open spec fn addr_coeff_word(op: u32, addr: u16, coeff: Float32) -> Result<u32, CodegenError> {
    match address_result(addr) {
        Ok(a) => match s114_result(coeff) {
            Ok(c) => Ok((op << 27) | (a << 11) | (c & 0x7FF)),
            Err(e) => Err(e),
        },
        Err(e) => Err(e),
    }
}

/// A word with an S1.14 coefficient in bits 25..11 and an S.10 offset in
/// bits 10..0. The coefficient is checked first.
pub open spec fn coeff_offset_word(op: u32, coeff: Float32, offset: Float32) -> Result<
    u32,
    CodegenError,
> {
    match s114_result(coeff) {
        Ok(c) => match s10_result(offset) {
            Ok(d) => Ok((op << 27) | (c << 11) | d),
            Err(e) => Err(e),
        },
        Err(e) => Err(e),
    }
}

/// A word with the low 24 bits of a mask in bits 23..0.
pub open spec fn mask_word(op: u32, mask: u32) -> u32 {
    (op << 27) | (mask & 0xFF_FFFF)
}

/// The machine word of an instruction, or the error of its first operand
/// that is out of range.
#[verifier::opaque]
pub open spec fn encode_spec(inst: Instruction) -> Result<u32, CodegenError> {
    match inst {
        Instruction::RDAX { reg, coeff } => reg_coeff_word(opcode(inst), reg, coeff),
        Instruction::RDA { addr, coeff } => addr_coeff_word(opcode(inst), addr, coeff),
        Instruction::RMPA { coeff } => match s114_result(coeff) {
            Ok(c) => Ok((opcode(inst) << 27) | c),
            Err(e) => Err(e),
        },
        Instruction::WRAX { reg, coeff } => reg_coeff_word(opcode(inst), reg, coeff),
        Instruction::WRA { addr, coeff } => addr_coeff_word(opcode(inst), addr, coeff),
        Instruction::WRAP { addr, coeff } => addr_coeff_word(opcode(inst), addr, coeff),
        Instruction::MULX { reg } => Ok(reg_word(opcode(inst), reg)),
        Instruction::RDFX { reg, coeff } => reg_coeff_word(opcode(inst), reg, coeff),
        Instruction::RDFX2 { reg, coeff } => reg_coeff_word(opcode(inst), reg, coeff),
        Instruction::LDAX { reg } => Ok(reg_word(opcode(inst), reg)),
        Instruction::ABSA => Ok(opcode(inst) << 27),
        Instruction::SOF { coeff, offset } => coeff_offset_word(opcode(inst), coeff, offset),
        Instruction::AND { mask } => Ok(mask_word(opcode(inst), mask)),
        Instruction::OR { mask } => Ok(mask_word(opcode(inst), mask)),
        Instruction::XOR { mask } => Ok(mask_word(opcode(inst), mask)),
        Instruction::SHL => Ok(opcode(inst) << 27),
        Instruction::SHR => Ok(opcode(inst) << 27),
        Instruction::CLR => Ok(opcode(inst) << 27),
        Instruction::NOP => Ok(0),
        Instruction::EXP { coeff, offset } => coeff_offset_word(opcode(inst), coeff, offset),
        Instruction::LOG { coeff, offset } => coeff_offset_word(opcode(inst), coeff, offset),
        Instruction::SKP { condition, offset } => Ok(
            (opcode(inst) << 27) | (skip_condition_code(condition) << 24) | (((offset as u32)
                & 0x3F) << 18),
        ),
        Instruction::WLDS { lfo, freq, amplitude } => Ok(
            (opcode(inst) << 27) | (lfo_code(lfo) << 25) | (((freq as u32) & 0x1FF) << 9) | ((
            amplitude as u32) & 0x1FF),
        ),
        Instruction::JAM { lfo } => Ok((opcode(inst) << 27) | (lfo_code(lfo) << 25)),
        Instruction::CHO { mode, lfo, flags, addr } => match address_result(addr) {
            Ok(a) => Ok(
                (opcode(inst) << 27) | (cho_mode_code(mode) << 24) | (lfo_code(lfo) << 22) | (
                cho_flags_code(flags) << 16) | a,
            ),
            Err(e) => Err(e),
        },
    }
}

/// Encode a single instruction to 32-bit FV-1 machine code.
pub fn encode_instruction(inst: &Instruction) -> (r: Result<u32, CodegenError>)
    ensures
        r == encode_spec(*inst),
{
    reveal(encode_spec);
    match inst {
        // Accumulator operations
        Instruction::RDAX { reg, coeff } => {
            let opcode = 0b00000_u32 << 27;
            let reg_bits = encode_register(reg)? << 21;
            let coeff_bits = encode_s114(*coeff)? << 6;
            Ok(opcode | reg_bits | coeff_bits)
        },
        Instruction::RDA { addr, coeff } => {
            let opcode = 0b00001_u32 << 27;
            let addr_bits = encode_address(*addr)? << 11;
            let coeff_bits = encode_s114(*coeff)? & 0x7FF;
            Ok(opcode | addr_bits | coeff_bits)
        },
        Instruction::RMPA { coeff } => {
            let opcode = 0b00010_u32 << 27;
            let coeff_bits = encode_s114(*coeff)?;
            Ok(opcode | coeff_bits)
        },
        Instruction::WRAX { reg, coeff } => {
            let opcode = 0b00110_u32 << 27;
            let reg_bits = encode_register(reg)? << 21;
            let coeff_bits = encode_s114(*coeff)? << 6;
            Ok(opcode | reg_bits | coeff_bits)
        },
        Instruction::WRA { addr, coeff } => {
            let opcode = 0b00111_u32 << 27;
            let addr_bits = encode_address(*addr)? << 11;
            let coeff_bits = encode_s114(*coeff)? & 0x7FF;
            Ok(opcode | addr_bits | coeff_bits)
        },
        Instruction::WRAP { addr, coeff } => {
            let opcode = 0b01000_u32 << 27;
            let addr_bits = encode_address(*addr)? << 11;
            let coeff_bits = encode_s114(*coeff)? & 0x7FF;
            Ok(opcode | addr_bits | coeff_bits)
        },
        // Mathematical operations
        Instruction::MULX { reg } => {
            let opcode = 0b01010_u32 << 27;
            let reg_bits = encode_register(reg)? << 21;
            Ok(opcode | reg_bits)
        },
        Instruction::RDFX { reg, coeff } => {
            let opcode = 0b01001_u32 << 27;
            let reg_bits = encode_register(reg)? << 21;
            let coeff_bits = encode_s114(*coeff)? << 6;
            Ok(opcode | reg_bits | coeff_bits)
        },
        Instruction::RDFX2 { reg, coeff } => {
            let opcode = 0b01100_u32 << 27;
            let reg_bits = encode_register(reg)? << 21;
            let coeff_bits = encode_s114(*coeff)? << 6;
            Ok(opcode | reg_bits | coeff_bits)
        },
        Instruction::LDAX { reg } => {
            let opcode = 0b00101_u32 << 27;
            let reg_bits = encode_register(reg)? << 21;
            Ok(opcode | reg_bits)
        },
        Instruction::ABSA => {
            let opcode = 0b01011_u32 << 27;
            Ok(opcode)
        },
        // Logic and control
        Instruction::SOF { coeff, offset } => {
            let opcode = 0b01101_u32 << 27;
            let coeff_bits = encode_s114(*coeff)? << 11;
            let offset_bits = encode_s10(*offset)?;
            Ok(opcode | coeff_bits | offset_bits)
        },
        Instruction::AND { mask } => {
            let opcode = 0b01111_u32 << 27;
            let mask_bits = *mask & 0xFFFFFF;
            Ok(opcode | mask_bits)
        },
        Instruction::OR { mask } => {
            let opcode = 0b10000_u32 << 27;
            let mask_bits = *mask & 0xFFFFFF;
            Ok(opcode | mask_bits)
        },
        Instruction::XOR { mask } => {
            let opcode = 0b10001_u32 << 27;
            let mask_bits = *mask & 0xFFFFFF;
            Ok(opcode | mask_bits)
        },
        Instruction::SHL => {
            let opcode = 0b10010_u32 << 27;
            Ok(opcode)
        },
        Instruction::SHR => {
            let opcode = 0b10011_u32 << 27;
            Ok(opcode)
        },
        Instruction::CLR => {
            let opcode = 0b01110_u32 << 27;
            Ok(opcode)
        },
        Instruction::NOP => {
            // The all-zero word is the chip's no-operation.
            Ok(0x00000000)
        },
        // Conversion operations
        Instruction::EXP { coeff, offset } => {
            let opcode = 0b10100_u32 << 27;
            let coeff_bits = encode_s114(*coeff)? << 11;
            let offset_bits = encode_s10(*offset)?;
            Ok(opcode | coeff_bits | offset_bits)
        },
        Instruction::LOG { coeff, offset } => {
            let opcode = 0b10101_u32 << 27;
            let coeff_bits = encode_s114(*coeff)? << 11;
            let offset_bits = encode_s10(*offset)?;
            Ok(opcode | coeff_bits | offset_bits)
        },
        // Conditional skipping
        Instruction::SKP { condition, offset } => {
            let opcode = 0b10110_u32 << 27;
            let cond_bits = encode_skip_condition(*condition) << 24;
            let offset_bits = ((*offset as u32) & 0x3F) << 18;
            Ok(opcode | cond_bits | offset_bits)
        },
        // LFO control
        Instruction::WLDS { lfo, freq, amplitude } => {
            let opcode = 0b10111_u32 << 27;
            let lfo_bits = encode_lfo(*lfo) << 25;
            let freq_bits = ((*freq as u32) & 0x1FF) << 9;
            let amp_bits = (*amplitude as u32) & 0x1FF;
            Ok(opcode | lfo_bits | freq_bits | amp_bits)
        },
        Instruction::JAM { lfo } => {
            let opcode = 0b11000_u32 << 27;
            let lfo_bits = encode_lfo(*lfo) << 25;
            Ok(opcode | lfo_bits)
        },
        Instruction::CHO { mode, lfo, flags, addr } => {
            let opcode = 0b11001_u32 << 27;
            let mode_bits = encode_cho_mode(*mode) << 24;
            let lfo_bits = encode_lfo(*lfo) << 22;
            let flags_bits = encode_cho_flags(flags) << 16;
            let addr_bits = encode_address(*addr)?;
            Ok(opcode | mode_bits | lfo_bits | flags_bits | addr_bits)
        },
    }
}

/// The S1.14 coefficient of an instruction, if it has one.
pub open spec fn coefficient_of(inst: Instruction) -> Option<Float32> {
    match inst {
        Instruction::RDAX { reg, coeff } => Some(coeff),
        Instruction::RDA { addr, coeff } => Some(coeff),
        Instruction::RMPA { coeff } => Some(coeff),
        Instruction::WRAX { reg, coeff } => Some(coeff),
        Instruction::WRA { addr, coeff } => Some(coeff),
        Instruction::WRAP { addr, coeff } => Some(coeff),
        Instruction::RDFX { reg, coeff } => Some(coeff),
        Instruction::RDFX2 { reg, coeff } => Some(coeff),
        Instruction::SOF { coeff, offset } => Some(coeff),
        Instruction::EXP { coeff, offset } => Some(coeff),
        Instruction::LOG { coeff, offset } => Some(coeff),
        _ => None,
    }
}

/// The S.10 offset of an instruction, if it has one.
pub open spec fn offset_of(inst: Instruction) -> Option<Float32> {
    match inst {
        Instruction::SOF { coeff, offset } => Some(offset),
        Instruction::EXP { coeff, offset } => Some(offset),
        Instruction::LOG { coeff, offset } => Some(offset),
        _ => None,
    }
}

/// The delay address of an instruction, if it has one.
pub open spec fn address_of(inst: Instruction) -> Option<u16> {
    match inst {
        Instruction::RDA { addr, coeff } => Some(addr),
        Instruction::WRA { addr, coeff } => Some(addr),
        Instruction::WRAP { addr, coeff } => Some(addr),
        Instruction::CHO { mode, lfo, flags, addr } => Some(addr),
        _ => None,
    }
}

/// The operands of the instruction lie in their ranges: a coefficient in
/// `[-2, 2)`, an offset in `[-1, 1)`, a delay address below 32768.
pub open spec fn operands_in_range(inst: Instruction) -> bool {
    &&& coefficient_of(inst) matches Some(coeff) ==> coeff.within(1)
    &&& offset_of(inst) matches Some(offset) ==> offset.within(0)
    &&& address_of(inst) matches Some(addr) ==> addr <= MAX_ADDRESS
}

/// Encoding succeeds exactly on operands in range: it rejects every
/// coefficient outside `[-2, 2)`, every offset outside `[-1, 1)` and every
/// delay address from 32768 on, and nothing else.
pub proof fn lemma_encode_rejects_out_of_range(inst: Instruction)
    ensures
        encode_spec(inst) is Ok <==> operands_in_range(inst),
{
    reveal(encode_spec);
}

} // verus!
