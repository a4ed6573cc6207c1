use fv1_asm::{Float32, Instruction, Register, SkipCondition};

fn fl(value: f32) -> Float32 {
    Float32::from_bits(value.to_bits())
}

#[test]
fn test_rdax_instruction() {
    let inst = Instruction::RDAX { reg: Register::ADCL, coeff: fl(1.0) };
    match inst {
        Instruction::RDAX { reg, coeff } => {
            assert_eq!(reg, Register::ADCL);
            assert_eq!(coeff, fl(1.0));
        }
        _ => panic!("Wrong instruction type"),
    }
}

#[test]
fn test_sof_instruction() {
    let inst = Instruction::SOF { coeff: fl(0.5), offset: fl(0.0) };
    match inst {
        Instruction::SOF { coeff, offset } => {
            assert_eq!(coeff, fl(0.5));
            assert_eq!(offset, fl(0.0));
        }
        _ => panic!("Wrong instruction type"),
    }
}

#[test]
fn test_skip_condition() {
    let cond = SkipCondition::GEZ;
    assert_eq!(cond, SkipCondition::GEZ);
}
