//! The FV-1 instruction set.

use crate::float32::Float32;
use crate::register::{Lfo, Register};
use vstd::prelude::*;

verus! {

/// One FV-1 instruction with its operands.
#[derive(Debug, Clone, Copy, PartialEq)]
#[allow(inconsistent_fields)]
pub enum Instruction {
    /// Read register and add to ACC: ACC = ACC + [REG] * C
    RDAX { reg: Register, coeff: Float32 },
    /// Read delay RAM: ACC = ACC + [ADDR] * C
    RDA { addr: u16, coeff: Float32 },
    /// Read delay RAM through the address pointer.
    RMPA { coeff: Float32 },
    /// Write ACC to register: [REG] = ACC, ACC = ACC * C
    WRAX { reg: Register, coeff: Float32 },
    /// Write ACC to delay RAM: [ADDR] = ACC, ACC = ACC * C
    WRA { addr: u16, coeff: Float32 },
    /// Write ACC to delay RAM and add the low-pass register.
    WRAP { addr: u16, coeff: Float32 },
    /// Multiply ACC by register: ACC = ACC * [REG]
    MULX { reg: Register },
    /// Reverse multiply with a register.
    RDFX { reg: Register, coeff: Float32 },
    /// Absolute value of ACC.
    ABSA,
    /// Load a register into ACC.
    LDAX { reg: Register },
    /// Single-pole low-pass with a register.
    RDFX2 { reg: Register, coeff: Float32 },
    /// Scale and offset: ACC = ACC * C + D
    SOF { coeff: Float32, offset: Float32 },
    /// AND ACC with a mask.
    AND { mask: u32 },
    /// OR ACC with a mask.
    OR { mask: u32 },
    /// XOR ACC with a mask.
    XOR { mask: u32 },
    /// Shift left.
    SHL,
    /// Shift right.
    SHR,
    /// Clear ACC.
    CLR,
    /// No operation.
    NOP,
    /// Exponential conversion.
    EXP { coeff: Float32, offset: Float32 },
    /// Logarithmic conversion.
    LOG { coeff: Float32, offset: Float32 },
    /// Skip the next `offset` instructions if the condition is met.
    SKP { condition: SkipCondition, offset: i8 },
    /// Load an LFO with frequency and amplitude.
    WLDS { lfo: Lfo, freq: u16, amplitude: u16 },
    /// Jam (reset) a ramp LFO.
    JAM { lfo: Lfo },
    /// Chorus access to delay RAM through an LFO.
    CHO { mode: ChoMode, lfo: Lfo, flags: ChoFlags, addr: u16 },
}

/// Condition of a skip instruction.
#[derive(Debug, Clone, Copy, PartialEq, Eq, Structural)]
pub enum SkipCondition {
    /// Greater or equal to zero.
    GEZ,
    /// Negative.
    NEG,
    /// Zero crossing.
    ZRC,
    /// Zero.
    ZRO,
    /// First run of the program.
    RUN,
}

/// Mode of a CHO instruction.
#[derive(Debug, Clone, Copy, PartialEq, Eq, Structural)]
pub enum ChoMode {
    /// Read delay with LFO.
    RDA,
    /// Scale/offset with LFO.
    SOF,
    /// Read delay and load LFO value.
    RDAL,
}

/// Flags of a CHO instruction.
#[derive(Debug, Clone, Copy, PartialEq, Eq, Structural)]
pub struct ChoFlags {
    /// Use second read pointer.
    pub rptr2: bool,
    /// No add (crossfade control).
    pub na: bool,
    /// Complement coefficient.
    pub compc: bool,
    /// Complement address.
    pub compa: bool,
    pub rptr2_select: bool,
}

} // verus!
