//! Examples of programs put together with the builders.
//!
//! The control inputs POT0, POT1 and POT2 are read from REG16, REG17 and REG18.

use crate::ast::Program;
use crate::dsl::blocks::{gain, lowpass, lowpass_spec, soft_clip, soft_clip_spec, Delay};
use crate::dsl::ops::{clr, mulx, rda, rdax, wrax};
use crate::dsl::typed::TypedBuilder;
use crate::dsl::ProgramBuilder;
use crate::examples::{gain_control_spec, one, passthrough_spec, zero};
use crate::float32::Float32;
use crate::instruction::Instruction;
use crate::register::Register;
use vstd::prelude::*;

verus! {

/// Simple pass-through example, an instruction at a time: the left ADC
/// input is read and written directly to the left DAC output.
pub fn passthrough_macro() -> (program: Program)
    ensures
        program.instruction_seq() == passthrough_spec(),
        program.labels@ == Map::<Seq<char>, usize>::empty(),
{
    let mut builder = ProgramBuilder::new();
    builder.add_inst(rdax(Register::ADCL, Float32::from_decimal(false, 1, 0)));
    builder.add_inst(wrax(Register::DACL, Float32::from_decimal(false, 0, 0)));
    proof {
        assert(builder.instructions@ =~= passthrough_spec());
    }
    builder.build()
}

/// Simple pass-through example using the untyped ProgramBuilder.
pub fn passthrough_builder() -> (program: Program)
    ensures
        program.instruction_seq() == passthrough_spec(),
        program.labels@ == Map::<Seq<char>, usize>::empty(),
{
    let builder = ProgramBuilder::new().inst(
        rdax(Register::ADCL, Float32::from_decimal(false, 1, 0)),
    ).inst(wrax(Register::DACL, Float32::from_decimal(false, 0, 0)));
    proof {
        assert(builder.instructions@ =~= passthrough_spec());
    }
    builder.build()
}

/// Simple pass-through example using the type-safe TypedBuilder.
pub fn passthrough_typed() -> (program: Program)
    ensures
        program.instruction_seq() == passthrough_spec(),
        program.labels@ == Map::<Seq<char>, usize>::empty(),
{
    let builder = TypedBuilder::new().rdax(
        Register::ADCL,
        Float32::from_decimal(false, 1, 0),
    ).wrax(Register::DACL, Float32::from_decimal(false, 0, 0));
    proof {
        assert(builder.instructions() =~= passthrough_spec());
    }
    builder.build()
}

/// Gain control example using POT0: the left ADC input is multiplied by
/// POT0 for volume control and written to the left DAC.
pub fn gain_control() -> (program: Program)
    ensures
        program.instruction_seq() == gain_control_spec(Register::REG(16)),
        program.labels@ == Map::<Seq<char>, usize>::empty(),
{
    let mut builder = ProgramBuilder::new();
    builder.add_inst(rdax(Register::ADCL, Float32::from_decimal(false, 1, 0)));
    builder.add_inst(mulx(Register::REG(16)));  // POT0
    builder.add_inst(wrax(Register::DACL, Float32::from_decimal(false, 0, 0)));
    proof {
        assert(builder.instructions@ =~= gain_control_spec(Register::REG(16)));
    }
    builder.build()
}

/// Gain control using the type-safe TypedBuilder.
pub fn gain_control_typed() -> (program: Program)
    ensures
        program.instruction_seq() == gain_control_spec(Register::REG(16)),
        program.labels@ == Map::<Seq<char>, usize>::empty(),
{
    let builder = TypedBuilder::new().rdax(
        Register::ADCL,
        Float32::from_decimal(false, 1, 0),
    ).mulx(Register::REG(16)).wrax(Register::DACL, Float32::from_decimal(false, 0, 0));
    proof {
        assert(builder.instructions() =~= gain_control_spec(Register::REG(16)));
    }
    builder.build()
}

/// The instructions of the delay echo.
pub open spec fn delay_echo_spec() -> Seq<Instruction> {
    seq![
        Instruction::RDAX { reg: Register::ADCL, coeff: one() },
        Instruction::WRAX { reg: Register::REG(0), coeff: zero() },
        Instruction::RDA { addr: 4000, coeff: Float32::decimal(false, 5, -1) },
        Instruction::MULX { reg: Register::REG(17) },
        Instruction::RDAX { reg: Register::REG(0), coeff: one() },
        Instruction::WRA { addr: 0, coeff: zero() },
        Instruction::MULX { reg: Register::REG(18) },
        Instruction::RDAX { reg: Register::REG(0), coeff: one() },
        Instruction::WRAX { reg: Register::DACL, coeff: zero() },
    ]
}

/// Delay echo effect with feedback and mix controls: POT1 controls the
/// feedback amount, POT2 the wet/dry mix; the delay time is fixed at
/// address 4000.
pub fn delay_echo() -> (program: Program)
    ensures
        program.instruction_seq() == delay_echo_spec(),
        program.labels@ == Map::<Seq<char>, usize>::empty(),
{
    let one = Float32::from_decimal(false, 1, 0);
    let zero = Float32::from_decimal(false, 0, 0);
    let builder = TypedBuilder::new().rdax(Register::ADCL, one).wrax(Register::REG(0), zero)  // Save input
    .rda(4000, Float32::from_decimal(false, 5, -1))  // Read delayed signal
    .mulx(Register::REG(17))  // POT1 - feedback
    .rdax(Register::REG(0), one)  // Add input
    .wra(0, zero)  // Write to delay line
    .mulx(Register::REG(18))  // POT2 - wet amount
    .rdax(Register::REG(0), one)  // Add dry signal
    .wrax(Register::DACL, zero);  // Output
    proof {
        assert(builder.instructions() =~= delay_echo_spec());
    }
    builder.build()
}

/// The instructions of the advanced effect.
pub open spec fn advanced_effect_spec() -> Seq<Instruction> {
    seq![
        Instruction::RDAX { reg: Register::ADCL, coeff: one() },
        Instruction::MULX { reg: Register::REG(16) },
    ] + lowpass_spec(Register::REG(17), Register::REG(1)) + soft_clip_spec(
        Float32::decimal(false, 9, -1),
    ) + seq![Instruction::WRAX { reg: Register::DACL, coeff: zero() }]
}

/// Appends a list of instructions to a builder.
fn add_all(builder: &mut ProgramBuilder, list: &Vec<Instruction>)
    ensures
        final(builder).instructions@ == old(builder).instructions@ + list@,
        final(builder).labels@ == old(builder).labels@,
{
    let mut i: usize = 0;
    proof {
        assert(builder.instructions@ + list@.take(0) =~= builder.instructions@);
    }
    while i < list.len()
        invariant
            i <= list@.len(),
            builder.instructions@ == old(builder).instructions@ + list@.take(i as int),
            builder.labels@ == old(builder).labels@,
        decreases list@.len() - i,
    {
        builder.add_inst(list[i]);
        proof {
            assert(list@.take(i + 1) =~= list@.take(i as int).push(list@[i as int]));
            assert(builder.instructions@ =~= old(builder).instructions@ + list@.take(i + 1));
        }
        i += 1;
    }
    proof {
        assert(list@.take(i as int) =~= list@);
    }
}

/// Advanced effect using high-level building blocks: input gain control
/// with POT0, a one-pole lowpass filter with POT1 as its cutoff, soft
/// clipping for saturation, and the output.
pub fn advanced_effect() -> (program: Program)
    ensures
        program.instruction_seq() == advanced_effect_spec(),
        program.labels@ == Map::<Seq<char>, usize>::empty(),
{
    let mut builder = ProgramBuilder::new();

    // Input gain control
    builder.add_inst(gain(Register::ADCL, Register::REG(16)));
    builder.add_inst(mulx(Register::REG(16)));  // POT0 controls input gain

    // One-pole lowpass filter: state in REG1, cutoff from POT1 (REG17)
    add_all(&mut builder, &lowpass(Register::ACC, Register::REG(17), Register::REG(1)));

    // Soft clipping for saturation (threshold at 0.9)
    add_all(&mut builder, &soft_clip(Float32::from_decimal(false, 9, -1)));

    // Output
    builder.add_inst(wrax(Register::DACL, Float32::from_decimal(false, 0, 0)));
    proof {
        assert(builder.instructions@ =~= advanced_effect_spec());
    }
    builder.build()
}

/// The instructions of the multi-tap delay.
pub open spec fn multi_tap_delay_spec() -> Seq<Instruction> {
    seq![
        Instruction::RDAX { reg: Register::ADCL, coeff: one() },
        Instruction::WRAX { reg: Register::REG(0), coeff: zero() },
        Instruction::CLR,
        Instruction::RDA { addr: 2000, coeff: Float32::decimal(false, 4, -1) },
        Instruction::RDA { addr: 4000, coeff: Float32::decimal(false, 3, -1) },
        Instruction::MULX { reg: Register::REG(17) },
        Instruction::RDAX { reg: Register::REG(0), coeff: one() },
        Instruction::WRAX { reg: Register::REG(1), coeff: one() },
        Instruction::RDAX { reg: Register::REG(0), coeff: one() },
        Instruction::MULX { reg: Register::REG(16) },
        Instruction::RDAX { reg: Register::REG(1), coeff: one() },
        Instruction::WRA { addr: 0, coeff: zero() },
        Instruction::RDAX { reg: Register::REG(1), coeff: one() },
        Instruction::WRAX { reg: Register::DACL, coeff: zero() },
    ]
}

/// Multi-tap delay effect using the Delay abstraction: taps at 2000 and
/// 4000 samples, POT0 for the overall feedback, POT1 for the wet/dry mix.
pub fn multi_tap_delay() -> (program: Program)
    ensures
        program.instruction_seq() == multi_tap_delay_spec(),
        program.labels@ == Map::<Seq<char>, usize>::empty(),
{
    let delay = Delay::new(0, 8000);
    let one = Float32::from_decimal(false, 1, 0);
    let zero = Float32::from_decimal(false, 0, 0);

    let mut builder = ProgramBuilder::new();

    // Read and save input
    builder.add_inst(rdax(Register::ADCL, one));
    builder.add_inst(wrax(Register::REG(0), zero));

    // Clear accumulator
    builder.add_inst(clr());

    // Add first tap at 2000 samples (coefficient 0.4)
    builder.add_inst(rda(2000, Float32::from_decimal(false, 4, -1)));

    // Add second tap at 4000 samples (coefficient 0.3)
    builder.add_inst(rda(4000, Float32::from_decimal(false, 3, -1)));

    // Scale by POT1 for wet amount
    builder.add_inst(mulx(Register::REG(17)));

    // Add dry signal
    builder.add_inst(rdax(Register::REG(0), one));

    // Store output in temp register
    builder.add_inst(wrax(Register::REG(1), one));

    // Write to delay line with feedback (POT0)
    builder.add_inst(rdax(Register::REG(0), one));
    builder.add_inst(mulx(Register::REG(16)));
    builder.add_inst(rdax(Register::REG(1), one));
    add_all(&mut builder, &delay.write(zero));

    // Output final mix
    builder.add_inst(rdax(Register::REG(1), one));
    builder.add_inst(wrax(Register::DACL, zero));
    proof {
        assert(builder.instructions@ =~= multi_tap_delay_spec());
    }
    builder.build()
}

} // verus!
