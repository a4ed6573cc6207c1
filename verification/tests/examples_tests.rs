use fv1_asm::examples::{dsl_examples, gain_control, passthrough};
use fv1_asm::{Assembler, Float32, Instruction, Register};

fn fl(value: f32) -> Float32 {
    Float32::from_bits(value.to_bits())
}

#[test]
fn test_passthrough() {
    let program = passthrough();
    assert_eq!(program.len(), 2);
}

#[test]
fn test_gain_control() {
    let program = gain_control();
    assert_eq!(program.len(), 3);
}

#[test]
fn test_dsl_passthrough_macro() {
    let program = dsl_examples::passthrough_macro();
    assert_eq!(program.instructions().len(), 2);
}

#[test]
fn test_dsl_passthrough_builder() {
    let program = dsl_examples::passthrough_builder();
    assert_eq!(program.instructions().len(), 2);
}

#[test]
fn test_dsl_passthrough_typed() {
    let program = dsl_examples::passthrough_typed();
    assert_eq!(program.instructions().len(), 2);
}

#[test]
fn test_dsl_gain_control() {
    let program = dsl_examples::gain_control();
    assert_eq!(program.instructions().len(), 3);
}

#[test]
fn test_dsl_gain_control_typed() {
    let program = dsl_examples::gain_control_typed();
    assert_eq!(program.instructions().len(), 3);
}

#[test]
fn test_dsl_delay_echo() {
    let program = dsl_examples::delay_echo();
    assert_eq!(program.instructions().len(), 9);
}

#[test]
fn test_dsl_advanced_effect() {
    let program = dsl_examples::advanced_effect();
    // 2 (gain) + 4 (lowpass) + 3 (soft_clip) + 1 (output) = 10
    assert_eq!(program.instructions().len(), 10);
}

#[test]
fn test_dsl_multi_tap_delay() {
    let program = dsl_examples::multi_tap_delay();
    // Verify it has instructions and can be assembled
    assert!(program.instructions().len() > 10);
}

#[test]
fn test_dsl_examples_can_be_assembled() {

    let examples = vec![
        dsl_examples::passthrough_macro(),
        dsl_examples::passthrough_builder(),
        dsl_examples::passthrough_typed(),
        dsl_examples::gain_control(),
        dsl_examples::gain_control_typed(),
        dsl_examples::delay_echo(),
        dsl_examples::advanced_effect(),
        dsl_examples::multi_tap_delay(),
    ];

    let assembler = Assembler::new();
    for program in examples {
        let result = assembler.assemble(&program);
        assert!(
            result.is_ok(),
            "Failed to assemble program: {:?}",
            result.err()
        );
    }
}

#[test]
fn the_examples_hold_the_numbers_of_their_literals() {
    assert_eq!(
        passthrough(),
        vec![
            Instruction::RDAX { reg: Register::ADCL, coeff: fl(1.0) },
            Instruction::WRAX { reg: Register::DACL, coeff: fl(0.0) },
        ]
    );
    let program = dsl_examples::multi_tap_delay();
    let list = program.instructions();
    assert_eq!(list.len(), 14);
    assert_eq!(*list[3], Instruction::RDA { addr: 2000, coeff: fl(0.4) });
    assert_eq!(*list[4], Instruction::RDA { addr: 4000, coeff: fl(0.3) });
    assert_eq!(*list[11], Instruction::WRA { addr: 0, coeff: fl(0.0) });
    match list[3] {
        Instruction::RDA { coeff, .. } => assert_eq!(coeff.to_bits(), 0.4f32.to_bits()),
        _ => panic!("Expected RDA instruction"),
    }
    let program = dsl_examples::advanced_effect();
    let list = program.instructions();
    assert_eq!(*list[6], Instruction::SOF { coeff: fl(0.9), offset: fl(0.0) });
    assert_eq!(*list[7], Instruction::ABSA);
    assert_eq!(*list[8], Instruction::SOF { coeff: fl(1.0 / 0.9), offset: fl(0.0) });
    assert!(program.labels.is_empty());
    let program = dsl_examples::delay_echo();
    assert_eq!(*program.instructions()[2], Instruction::RDA { addr: 4000, coeff: fl(0.5) });
}
