use fv1_asm::codegen::decoder::{
    decode_cho_flags, decode_cho_mode, decode_lfo, decode_register, decode_s10, decode_s114,
    decode_skip_condition,
};
use fv1_asm::codegen::{decode_instruction, encode_instruction};
use fv1_asm::{
    ChoFlags, ChoMode, CodegenError, Float32, Instruction, Lfo, Register, SkipCondition,
};

fn fl(value: f32) -> Float32 {
    Float32::from_bits(value.to_bits())
}

#[test]
fn test_decode_rdax() {
    let inst = Instruction::RDAX { reg: Register::ADCL, coeff: fl(0.5) };
    let encoded = encode_instruction(&inst).unwrap();
    let decoded = decode_instruction(encoded).unwrap();
    assert_eq!(decoded, inst);
}

#[test]
fn test_decode_wrax() {
    let inst = Instruction::WRAX { reg: Register::DACL, coeff: fl(0.5) };
    let encoded = encode_instruction(&inst).unwrap();
    let decoded = decode_instruction(encoded).unwrap();
    assert_eq!(decoded, inst);
}

#[test]
fn test_decode_sof() {
    let inst = Instruction::SOF { coeff: fl(0.75), offset: fl(0.0) };
    let encoded = encode_instruction(&inst).unwrap();
    let decoded = decode_instruction(encoded).unwrap();
    assert_eq!(decoded, inst);
}

#[test]
fn test_decode_clr() {
    let inst = Instruction::CLR;
    let encoded = encode_instruction(&inst).unwrap();
    let decoded = decode_instruction(encoded).unwrap();
    assert_eq!(decoded, inst);
}

#[test]
fn test_decode_nop() {
    let inst = Instruction::NOP;
    let encoded = encode_instruction(&inst).unwrap();
    let decoded = decode_instruction(encoded).unwrap();
    assert_eq!(decoded, inst);
}

#[test]
fn test_roundtrip_all_instructions() {
    let instructions = vec![
        Instruction::RDAX { reg: Register::ADCL, coeff: fl(0.5) },
        Instruction::WRAX { reg: Register::DACL, coeff: fl(0.75) },
        Instruction::SOF { coeff: fl(0.75), offset: fl(-0.25) },
        Instruction::CLR,
        Instruction::NOP,
        Instruction::MULX { reg: Register::REG(0) },
    ];

    for inst in instructions {
        let encoded = encode_instruction(&inst).unwrap();
        let decoded = decode_instruction(encoded).unwrap();
        assert_eq!(decoded, inst);
    }
}

#[test]
fn every_kind_of_instruction_round_trips() {
    let flags = ChoFlags { rptr2: true, na: false, compc: true, compa: true, rptr2_select: true };
    let instructions = vec![
        Instruction::RDAX { reg: Register::REG(31), coeff: fl(-1.0) },
        Instruction::RDAX { reg: Register::ADCR, coeff: fl(0.0) },
        Instruction::RDA { addr: 32767, coeff: fl(0.0625) },
        Instruction::RDA { addr: 0, coeff: fl(2047.0 / 16384.0) },
        Instruction::RMPA { coeff: fl(-0.5) },
        Instruction::WRAX { reg: Register::ADCL, coeff: fl(0.0) },
        Instruction::WRA { addr: 100, coeff: fl(0.0) },
        Instruction::WRAP { addr: 200, coeff: fl(1.0 / 16384.0) },
        Instruction::MULX { reg: Register::LR },
        Instruction::RDFX { reg: Register::ADDR_PTR, coeff: fl(16383.0 / 16384.0) },
        Instruction::RDFX2 { reg: Register::DACR, coeff: fl(-1.0 / 16384.0) },
        Instruction::LDAX { reg: Register::REG(7) },
        Instruction::ABSA,
        Instruction::SOF { coeff: fl(-1.0), offset: fl(-1.0) },
        Instruction::SOF { coeff: fl(0.5), offset: fl(511.0 / 512.0) },
        Instruction::AND { mask: 0xFF_FFFF },
        Instruction::OR { mask: 0 },
        Instruction::XOR { mask: 0x12_3456 },
        Instruction::SHL,
        Instruction::SHR,
        Instruction::CLR,
        Instruction::NOP,
        Instruction::EXP { coeff: fl(0.25), offset: fl(0.125) },
        Instruction::LOG { coeff: fl(-0.25), offset: fl(-0.125) },
        Instruction::SKP { condition: SkipCondition::NEG, offset: 63 },
        Instruction::SKP { condition: SkipCondition::RUN, offset: 0 },
        Instruction::WLDS { lfo: Lfo::SIN0, freq: 511, amplitude: 0 },
        Instruction::JAM { lfo: Lfo::RMP0 },
        Instruction::CHO { mode: ChoMode::SOF, lfo: Lfo::SIN1, flags, addr: 32767 },
    ];
    for inst in instructions {
        let encoded = encode_instruction(&inst).unwrap();
        let decoded = decode_instruction(encoded).unwrap();
        assert_eq!(decoded, inst);
    }
}

#[test]
fn every_exact_coefficient_round_trips() {
    for k in -16384i32..16384 {
        let coeff = fl(k as f32 / 16384.0);
        let inst = Instruction::WRAX { reg: Register::REG(3), coeff };
        let decoded = decode_instruction(encode_instruction(&inst).unwrap()).unwrap();
        assert_eq!(decoded, inst);
        match decoded {
            Instruction::WRAX { coeff: found, .. } => assert_eq!(found.to_bits(), coeff.to_bits()),
            _ => panic!("wrong instruction"),
        }
    }
    for k in -512i32..512 {
        let offset = fl(k as f32 / 512.0);
        let inst = Instruction::SOF { coeff: fl(0.5), offset };
        assert_eq!(decode_instruction(encode_instruction(&inst).unwrap()).unwrap(), inst);
    }
}

#[test]
fn what_does_not_round_trip() {
    // One and more wrap to the negative half of the field.
    let one = Instruction::RDAX { reg: Register::ADCL, coeff: fl(1.0) };
    assert_eq!(
        decode_instruction(encode_instruction(&one).unwrap()).unwrap(),
        Instruction::RDAX { reg: Register::ADCL, coeff: fl(-1.0) }
    );
    // The all-zero word is NOP.
    let zero = Instruction::RDAX { reg: Register::ADCL, coeff: fl(0.0) };
    assert_eq!(decode_instruction(encode_instruction(&zero).unwrap()).unwrap(), Instruction::NOP);
    // A coefficient between two steps is rounded.
    let fine = Instruction::WRAX { reg: Register::DACL, coeff: fl(0.3) };
    assert_eq!(
        decode_instruction(encode_instruction(&fine).unwrap()).unwrap(),
        Instruction::WRAX { reg: Register::DACL, coeff: fl(4915.0 / 16384.0) }
    );
    // A skip offset has six bits and no sign.
    let back = Instruction::SKP { condition: SkipCondition::GEZ, offset: -1 };
    assert_eq!(
        decode_instruction(encode_instruction(&back).unwrap()).unwrap(),
        Instruction::SKP { condition: SkipCondition::GEZ, offset: 63 }
    );
    // The accumulator has no register code.
    let acc = Instruction::MULX { reg: Register::ACC };
    assert_eq!(
        decode_instruction(encode_instruction(&acc).unwrap()).unwrap(),
        Instruction::MULX { reg: Register::ADCL }
    );
}

#[test]
fn invalid_fields_are_reported() {
    assert!(matches!(
        decode_instruction(0b00011 << 27),
        Err(CodegenError::InvalidOpcode { opcode: 0b00011 })
    ));
    assert!(matches!(
        decode_instruction(0b11111 << 27),
        Err(CodegenError::InvalidOpcode { opcode: 0b11111 })
    ));
    assert!(matches!(
        decode_instruction((0b01010 << 27) | (6 << 21)),
        Err(CodegenError::InvalidRegister { bits: 6 })
    ));
    assert!(matches!(
        decode_instruction((0b00110 << 27) | (48 << 21)),
        Err(CodegenError::InvalidRegister { bits: 48 })
    ));
    assert!(matches!(
        decode_instruction((0b10110 << 27) | (5 << 24)),
        Err(CodegenError::InvalidSkipCondition { bits: 5 })
    ));
    assert!(matches!(
        decode_instruction((0b11001 << 27) | (1 << 24)),
        Err(CodegenError::InvalidChoMode { bits: 1 })
    ));
    assert!(matches!(decode_register(63), Err(CodegenError::InvalidRegister { bits: 63 })));
    assert!(matches!(decode_lfo(4), Err(CodegenError::InvalidLfo { bits: 4 })));
    assert!(matches!(decode_cho_mode(1), Err(CodegenError::InvalidChoMode { bits: 1 })));
    assert!(matches!(
        decode_skip_condition(7),
        Err(CodegenError::InvalidSkipCondition { bits: 7 })
    ));
}

#[test]
fn field_decoders() {
    assert_eq!(decode_register(0).unwrap(), Register::ADCL);
    assert_eq!(decode_register(5).unwrap(), Register::LR);
    assert_eq!(decode_register(16).unwrap(), Register::REG(0));
    assert_eq!(decode_register(47).unwrap(), Register::REG(31));
    assert_eq!(decode_skip_condition(4).unwrap(), SkipCondition::ZRC);
    assert_eq!(decode_lfo(2).unwrap(), Lfo::RMP0);
    assert_eq!(decode_cho_mode(3).unwrap(), ChoMode::RDAL);
    let flags = decode_cho_flags(0b101011);
    assert!(flags.rptr2 && !flags.na && flags.compc && !flags.compa && flags.rptr2_select);
    assert_eq!(decode_s114(0x2000).unwrap(), fl(0.5));
    assert_eq!(decode_s114(0x4000).unwrap(), fl(-1.0));
    assert_eq!(decode_s114(0x7FFF).unwrap(), fl(-1.0 / 16384.0));
    assert_eq!(decode_s114(0x8000).unwrap(), fl(2.0));
    assert_eq!(decode_s114(0).unwrap().to_bits(), 0);
    assert_eq!(decode_s10(0x100).unwrap(), fl(0.5));
    assert_eq!(decode_s10(0x400).unwrap(), fl(-2.0));
    assert_eq!(decode_s10(0x7FF).unwrap(), fl(-1.0 / 512.0));
    // A field of any width is read as a signed 32-bit number.
    for bits in [0x10000u32, 0x100_0000, 0x100_0001, 0x7FFF_BFFF, 0x8000_0000, 0xFFFF_BFFF, 0xFFFF_FFFF, 0x3FF_FFFF] {
        let expected = if bits & 0x4000 != 0 {
            ((bits | 0xFFFF8000) as i32) as f32 / 16384.0
        } else {
            (bits as i32) as f32 / 16384.0
        };
        assert_eq!(decode_s114(bits).unwrap().to_bits(), expected.to_bits(), "{:#x}", bits);
        let expected = if bits & 0x400 != 0 {
            ((bits | 0xFFFFF800) as i32) as f32 / 512.0
        } else {
            (bits as i32) as f32 / 512.0
        };
        assert_eq!(decode_s10(bits).unwrap().to_bits(), expected.to_bits(), "{:#x}", bits);
    }
}

#[test]
fn decoding_never_panics() {
    let mut word: u32 = 0;
    loop {
        let _ = decode_instruction(word);
        match word.checked_add(7919) {
            Some(next) => word = next,
            None => break,
        }
    }
    let _ = decode_instruction(u32::MAX);
}
