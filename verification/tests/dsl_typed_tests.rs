use fv1_asm::dsl::typed::TypedBuilder;
use fv1_asm::{Float32, Register};

fn fl(value: f32) -> Float32 {
    Float32::from_bits(value.to_bits())
}

#[test]
fn test_typed_builder_creation() {
    let builder = TypedBuilder::new();
    let program = builder.build();
    assert_eq!(program.instructions().len(), 0);
}

#[test]
fn test_typed_builder_simple_chain() {
    let program = TypedBuilder::new()
        .rdax(Register::ADCL, fl(1.0))
        .wrax(Register::DACL, fl(0.0))
        .build();

    assert_eq!(program.instructions().len(), 2);
}

#[test]
fn test_typed_builder_audio_operations() {
    let program = TypedBuilder::new()
        .rdax(Register::ADCL, fl(1.0))
        .mulx(Register::REG(0))
        .sof(fl(0.5), fl(0.0))
        .wrax(Register::DACL, fl(0.0))
        .build();

    assert_eq!(program.instructions().len(), 4);
}

#[test]
fn test_typed_builder_with_clr() {
    let program = TypedBuilder::new()
        .clr()
        .rdax(Register::ADCL, fl(1.0))
        .wrax(Register::DACL, fl(0.0))
        .build();

    assert_eq!(program.instructions().len(), 3);
}

#[test]
fn test_typed_builder_with_nop() {
    let program = TypedBuilder::new()
        .nop()
        .rdax(Register::ADCL, fl(1.0))
        .nop()
        .wrax(Register::DACL, fl(0.0))
        .nop()
        .build();

    assert_eq!(program.instructions().len(), 5);
}

#[test]
fn test_typed_builder_delay_operations() {
    let program = TypedBuilder::new()
        .rdax(Register::ADCL, fl(1.0))
        .wra(0, fl(0.0))
        .rda(4000, fl(0.5))
        .wrax(Register::DACL, fl(0.0))
        .build();

    assert_eq!(program.instructions().len(), 4);
}

#[test]
fn test_typed_builder_complex_chain() {
    let program = TypedBuilder::new()
        .clr()
        .rdax(Register::ADCL, fl(1.0))
        .mulx(Register::REG(16)) // POT0
        .sof(fl(0.8), fl(0.0))
        .wrax(Register::REG(0), fl(0.0))
        .rda(8000, fl(0.5))
        .mulx(Register::REG(17)) // POT1
        .rdax(Register::REG(0), fl(1.0))
        .wrax(Register::DACL, fl(0.0))
        .build();

    assert_eq!(program.instructions().len(), 9);
}

#[test]
fn test_typed_builder_absa() {
    let program = TypedBuilder::new()
        .rdax(Register::ADCL, fl(1.0))
        .absa()
        .wrax(Register::DACL, fl(0.0))
        .build();

    assert_eq!(program.instructions().len(), 3);
}

#[test]
fn test_typed_builder_exp_log() {
    let program = TypedBuilder::new()
        .rdax(Register::ADCL, fl(1.0))
        .exp(fl(1.0), fl(0.0))
        .log(fl(1.0), fl(0.0))
        .wrax(Register::DACL, fl(0.0))
        .build();

    assert_eq!(program.instructions().len(), 4);
}

#[test]
fn test_typed_builder_bitwise_ops() {
    let program = TypedBuilder::new()
        .rdax(Register::ADCL, fl(1.0))
        .and(0xFFFF)
        .or(0x0001)
        .xor(0x0001)
        .wrax(Register::DACL, fl(0.0))
        .build();

    assert_eq!(program.instructions().len(), 5);
}
