//! Example FV-1 programs.
//!
//! The examples come in two kinds: lists of instructions written out
//! directly, and programs put together with the builders of [`crate::dsl`].

pub mod dsl_examples;

use crate::float32::Float32;
use crate::instruction::Instruction;
use crate::register::Register;
use vstd::prelude::*;

verus! {

/// The number one.
pub open spec fn one() -> Float32 {
    Float32::decimal(false, 1, 0)
}

/// The number zero.
pub open spec fn zero() -> Float32 {
    Float32::decimal(false, 0, 0)
}

/// The instructions of the pass-through: left input to left output.
pub open spec fn passthrough_spec() -> Seq<Instruction> {
    seq![
        Instruction::RDAX { reg: Register::ADCL, coeff: one() },
        Instruction::WRAX { reg: Register::DACL, coeff: zero() },
    ]
}

/// The instructions of the gain control: left input times a register to
/// left output.
pub open spec fn gain_control_spec(amount: Register) -> Seq<Instruction> {
    seq![
        Instruction::RDAX { reg: Register::ADCL, coeff: one() },
        Instruction::MULX { reg: amount },
        Instruction::WRAX { reg: Register::DACL, coeff: zero() },
    ]
}

/// Simple pass-through example.
pub fn passthrough() -> (list: Vec<Instruction>)
    ensures
        list@ == passthrough_spec(),
{
    let mut list: Vec<Instruction> = Vec::new();
    list.push(Instruction::RDAX { reg: Register::ADCL, coeff: Float32::from_decimal(false, 1, 0) });
    list.push(Instruction::WRAX { reg: Register::DACL, coeff: Float32::from_decimal(false, 0, 0) });
    proof {
        assert(list@ =~= passthrough_spec());
    }
    list
}

/// Simple gain control example, with the gain in REG0.
pub fn gain_control() -> (list: Vec<Instruction>)
    ensures
        list@ == gain_control_spec(Register::REG(0)),
{
    let mut list: Vec<Instruction> = Vec::new();
    list.push(Instruction::RDAX { reg: Register::ADCL, coeff: Float32::from_decimal(false, 1, 0) });
    list.push(Instruction::MULX { reg: Register::REG(0) });
    list.push(Instruction::WRAX { reg: Register::DACL, coeff: Float32::from_decimal(false, 0, 0) });
    proof {
        assert(list@ =~= gain_control_spec(Register::REG(0)));
    }
    list
}

} // verus!
