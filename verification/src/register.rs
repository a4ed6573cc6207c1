//! Registers, control inputs and oscillators of the FV-1.

use vstd::prelude::*;

verus! {

/// FV-1 registers.
#[derive(Debug, Clone, Copy, PartialEq, Eq, Hash, Structural)]
#[allow(non_camel_case_types)]
pub enum Register {
    /// Accumulator (implied in most operations).
    ACC,
    /// Left ADC input.
    ADCL,
    /// Right ADC input.
    ADCR,
    /// Left DAC output.
    DACL,
    /// Right DAC output.
    DACR,
    /// General purpose register, REG0 to REG31.
    REG(u8),
    /// Address pointer for RMPA.
    ADDR_PTR,
    /// Low-pass/ramp register.
    LR,
    SIN0_RATE,
    SIN0_RANGE,
    SIN1_RATE,
    SIN1_RANGE,
    RMP0_RATE,
    RMP0_RANGE,
    RMP1_RATE,
    RMP1_RANGE,
}

/// Control inputs (POT0-POT2).
#[derive(Debug, Clone, Copy, PartialEq, Eq, Structural)]
pub enum Control {
    POT0,
    POT1,
    POT2,
}

/// LFO oscillators.
#[derive(Debug, Clone, Copy, PartialEq, Eq, Structural)]
pub enum Lfo {
    SIN0,
    SIN1,
    RMP0,
    RMP1,
}

} // verus!
