//! Helper functions for creating FV-1 instructions.

use crate::float32::Float32;
use crate::instruction::{ChoFlags, ChoMode, Instruction, SkipCondition};
use crate::register::{Lfo, Register};
use vstd::prelude::*;

verus! {

// Accumulator operations
/// Read register and add to ACC: ACC = ACC + [REG] * C
pub fn rdax(reg: Register, coeff: Float32) -> (inst: Instruction)
    ensures
        inst == (Instruction::RDAX { reg, coeff }),
{
    Instruction::RDAX { reg, coeff }
}

/// Read delay RAM: ACC = ACC + [ADDR] * C
pub fn rda(addr: u16, coeff: Float32) -> (inst: Instruction)
    ensures
        inst == (Instruction::RDA { addr, coeff }),
{
    Instruction::RDA { addr, coeff }
}

/// Read delay RAM through the address pointer.
pub fn rmpa(coeff: Float32) -> (inst: Instruction)
    ensures
        inst == (Instruction::RMPA { coeff }),
{
    Instruction::RMPA { coeff }
}

/// Write ACC to register: [REG] = ACC, ACC = ACC * C
pub fn wrax(reg: Register, coeff: Float32) -> (inst: Instruction)
    ensures
        inst == (Instruction::WRAX { reg, coeff }),
{
    Instruction::WRAX { reg, coeff }
}

/// Write ACC to delay RAM: [ADDR] = ACC, ACC = ACC * C
pub fn wra(addr: u16, coeff: Float32) -> (inst: Instruction)
    ensures
        inst == (Instruction::WRA { addr, coeff }),
{
    Instruction::WRA { addr, coeff }
}

/// Write ACC to delay RAM and add the low-pass register.
pub fn wrap(addr: u16, coeff: Float32) -> (inst: Instruction)
    ensures
        inst == (Instruction::WRAP { addr, coeff }),
{
    Instruction::WRAP { addr, coeff }
}

// Mathematical operations
/// Multiply ACC by register: ACC = ACC * [REG]
pub fn mulx(reg: Register) -> (inst: Instruction)
    ensures
        inst == (Instruction::MULX { reg }),
{
    Instruction::MULX { reg }
}

/// Reverse multiply with a register.
pub fn rdfx(reg: Register, coeff: Float32) -> (inst: Instruction)
    ensures
        inst == (Instruction::RDFX { reg, coeff }),
{
    Instruction::RDFX { reg, coeff }
}

/// Absolute value of ACC.
pub fn absa() -> (inst: Instruction)
    ensures
        inst == Instruction::ABSA,
{
    Instruction::ABSA
}

/// Load a register into ACC.
pub fn ldax(reg: Register) -> (inst: Instruction)
    ensures
        inst == (Instruction::LDAX { reg }),
{
    Instruction::LDAX { reg }
}

// Filtering
/// Single-pole low-pass with a register.
pub fn rdfx2(reg: Register, coeff: Float32) -> (inst: Instruction)
    ensures
        inst == (Instruction::RDFX2 { reg, coeff }),
{
    Instruction::RDFX2 { reg, coeff }
}

// Logic and control
/// Scale and offset: ACC = ACC * C + D
pub fn sof(coeff: Float32, offset: Float32) -> (inst: Instruction)
    ensures
        inst == (Instruction::SOF { coeff, offset }),
{
    Instruction::SOF { coeff, offset }
}

/// AND with mask.
pub fn and(mask: u32) -> (inst: Instruction)
    ensures
        inst == (Instruction::AND { mask }),
{
    Instruction::AND { mask }
}

/// OR with mask.
pub fn or(mask: u32) -> (inst: Instruction)
    ensures
        inst == (Instruction::OR { mask }),
{
    Instruction::OR { mask }
}

/// XOR with mask.
pub fn xor(mask: u32) -> (inst: Instruction)
    ensures
        inst == (Instruction::XOR { mask }),
{
    Instruction::XOR { mask }
}

/// Shift left.
pub fn shl() -> (inst: Instruction)
    ensures
        inst == Instruction::SHL,
{
    Instruction::SHL
}

/// Shift right.
pub fn shr() -> (inst: Instruction)
    ensures
        inst == Instruction::SHR,
{
    Instruction::SHR
}

/// Clear ACC.
pub fn clr() -> (inst: Instruction)
    ensures
        inst == Instruction::CLR,
{
    Instruction::CLR
}

/// No operation.
pub fn nop() -> (inst: Instruction)
    ensures
        inst == Instruction::NOP,
{
    Instruction::NOP
}

/// Exponential conversion.
pub fn exp(coeff: Float32, offset: Float32) -> (inst: Instruction)
    ensures
        inst == (Instruction::EXP { coeff, offset }),
{
    Instruction::EXP { coeff, offset }
}

/// Logarithmic conversion.
pub fn log(coeff: Float32, offset: Float32) -> (inst: Instruction)
    ensures
        inst == (Instruction::LOG { coeff, offset }),
{
    Instruction::LOG { coeff, offset }
}

// Conditional skipping
/// Skip the next instructions if the condition is met.
pub fn skp(condition: SkipCondition, offset: i8) -> (inst: Instruction)
    ensures
        inst == (Instruction::SKP { condition, offset }),
{
    Instruction::SKP { condition, offset }
}

// LFO control
/// Load an LFO with frequency and amplitude.
pub fn wlds(lfo: Lfo, freq: u16, amplitude: u16) -> (inst: Instruction)
    ensures
        inst == (Instruction::WLDS { lfo, freq, amplitude }),
{
    Instruction::WLDS { lfo, freq, amplitude }
}

/// Jam a ramp LFO.
pub fn jam(lfo: Lfo) -> (inst: Instruction)
    ensures
        inst == (Instruction::JAM { lfo }),
{
    Instruction::JAM { lfo }
}

// Delay RAM addressing
/// Chorus access to delay RAM through an LFO.
pub fn cho(mode: ChoMode, lfo: Lfo, flags: ChoFlags, addr: u16) -> (inst: Instruction)
    ensures
        inst == (Instruction::CHO { mode, lfo, flags, addr }),
{
    Instruction::CHO { mode, lfo, flags, addr }
}

} // verus!
