//! High-level DSP building blocks.
//!
//! The blocks are short lists of instructions for common tasks, made with
//! the helper functions of `ops`.

use crate::dsl::ops::{absa, mulx, rda, rdax, sof, wra, wrax};
use crate::float32::Float32;
use crate::instruction::Instruction;
use crate::register::Register;
use vstd::prelude::*;

verus! {

/// Simple gain control: reads the input register with unity gain. This is
/// the first step of a gain control chain; follow it with `mulx(amount)` to
/// apply the gain.
pub fn gain(input: Register, _amount: Register) -> (inst: Instruction)
    ensures
        inst == (Instruction::RDAX { reg: input, coeff: Float32::decimal(false, 1, 0) }),
{
    rdax(input, Float32::from_decimal(false, 1, 0))
}

/// The instructions of the one-pole lowpass filter.
pub open spec fn lowpass_spec(cutoff: Register, state: Register) -> Seq<Instruction> {
    seq![
        Instruction::RDAX { reg: state, coeff: Float32::decimal(true, 1, 0) },
        Instruction::MULX { reg: cutoff },
        Instruction::RDAX { reg: state, coeff: Float32::decimal(false, 1, 0) },
        Instruction::WRAX { reg: state, coeff: Float32::decimal(false, 1, 0) },
    ]
}

/// One-pole lowpass filter: `LP = state + cutoff * (input - state)`.
///
/// The input signal is taken to be in ACC already. The state register
/// stores the filter state between samples.
pub fn lowpass(_input: Register, cutoff: Register, state: Register) -> (list: Vec<Instruction>)
    ensures
        list@ == lowpass_spec(cutoff, state),
{
    let mut list: Vec<Instruction> = Vec::new();
    list.push(rdax(state, Float32::from_decimal(true, 1, 0)));  // ACC = input - state
    list.push(mulx(cutoff));  // ACC = cutoff * (input - state)
    list.push(rdax(state, Float32::from_decimal(false, 1, 0)));  // ACC = state + cutoff * (input - state)
    list.push(wrax(state, Float32::from_decimal(false, 1, 0)));  // Store result in state, keep in ACC
    proof {
        assert(list@ =~= lowpass_spec(cutoff, state));
    }
    list
}

/// The instructions of the soft clipper.
pub open spec fn soft_clip_spec(threshold: Float32) -> Seq<Instruction> {
    seq![
        Instruction::SOF { coeff: threshold, offset: Float32::decimal(false, 0, 0) },
        Instruction::ABSA,
        Instruction::SOF { coeff: threshold.reciprocal_of(), offset: Float32::decimal(false, 0, 0) },
    ]
}

/// Soft clipper: scales by the threshold, takes the absolute value for
/// symmetrical clipping, and scales back by one over the threshold.
pub fn soft_clip(threshold: Float32) -> (list: Vec<Instruction>)
    ensures
        list@ == soft_clip_spec(threshold),
{
    let mut list: Vec<Instruction> = Vec::new();
    list.push(sof(threshold, Float32::from_decimal(false, 0, 0)));
    list.push(absa());
    list.push(sof(threshold.reciprocal(), Float32::from_decimal(false, 0, 0)));
    proof {
        assert(list@ =~= soft_clip_spec(threshold));
    }
    list
}

/// Simple delay line abstraction: a stretch of delay RAM for reading and
/// writing delayed signals.
pub struct Delay {
    /// Starting address in delay RAM.
    pub buffer: u16,
    /// Length of the delay in samples.
    pub length: u16,
}

impl Delay {
    /// Create a new delay line.
    pub fn new(buffer: u16, length: u16) -> (delay: Delay)
        ensures
            delay.buffer == buffer,
            delay.length == length,
    {
        Delay { buffer, length }
    }

    /// Read from the delay line at a given offset from the start of the
    /// buffer: the instructions that read the delayed signal into ACC.
    pub fn read(&self, offset: u16) -> (list: Vec<Instruction>)
        requires
            self.buffer + offset <= u16::MAX,
        ensures
            list@ == seq![
                Instruction::RDA {
                    addr: (self.buffer + offset) as u16,
                    coeff: Float32::decimal(false, 1, 0),
                },
            ],
    {
        let mut list: Vec<Instruction> = Vec::new();
        list.push(rda(self.buffer + offset, Float32::from_decimal(false, 1, 0)));
        proof {
            assert(list@ =~= seq![
                Instruction::RDA {
                    addr: (self.buffer + offset) as u16,
                    coeff: Float32::decimal(false, 1, 0),
                },
            ]);
        }
        list
    }

    /// Write to the delay line: the instructions that write ACC to the
    /// start of the buffer and scale ACC by the feedback.
    pub fn write(&self, feedback: Float32) -> (list: Vec<Instruction>)
        ensures
            list@ == seq![Instruction::WRA { addr: self.buffer, coeff: feedback }],
    {
        let mut list: Vec<Instruction> = Vec::new();
        list.push(wra(self.buffer, feedback));
        proof {
            assert(list@ =~= seq![Instruction::WRA { addr: self.buffer, coeff: feedback }]);
        }
        list
    }
}

} // verus!
