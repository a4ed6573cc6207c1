use fv1_asm::codegen::encode_instruction;
use fv1_asm::{
    Assembler, Binary, CodegenError, Float32, Instruction, Program, Register, Statement,
    MAX_INSTRUCTIONS,
};

fn fl(value: f32) -> Float32 {
    Float32::from_bits(value.to_bits())
}

#[test]
fn test_assembler_creation() {
    let assembler = Assembler::new();
    assert!(!assembler.optimize);
}

#[test]
fn test_assembler_with_optimization() {
    let assembler = Assembler::new().with_optimization(true);
    assert!(assembler.optimize);
}

#[test]
fn test_assemble_simple_program() {
    let mut program = Program::new();
    program.add_statement(Statement::Instruction(Instruction::CLR));
    program.add_statement(Statement::Instruction(Instruction::RDAX {
        reg: Register::ADCL,
        coeff: fl(1.0),
    }));
    program.add_statement(Statement::Instruction(Instruction::WRAX {
        reg: Register::DACL,
        coeff: fl(0.0),
    }));

    let assembler = Assembler::new();
    let binary = assembler.assemble(&program).unwrap();

    assert_eq!(binary.len(), MAX_INSTRUCTIONS);
    assert_eq!(binary.instructions()[0] >> 27, 0b01110); // CLR
    assert_eq!(binary.instructions()[1] >> 27, 0b00000); // RDAX
    assert_eq!(binary.instructions()[2] >> 27, 0b00110); // WRAX
}

#[test]
fn test_assemble_program_too_large() {
    let mut program = Program::new();
    for _ in 0..129 {
        program.add_statement(Statement::Instruction(Instruction::NOP));
    }

    let assembler = Assembler::new();
    let result = assembler.assemble(&program);

    assert!(result.is_err());
    assert!(matches!(
        result.unwrap_err(),
        CodegenError::ProgramTooLarge { size: 129, max: 128 }
    ));
}

#[test]
fn test_binary_creation() {
    let binary = Binary::new();
    assert_eq!(binary.len(), 0);
    assert!(binary.is_empty());
}

#[test]
fn test_binary_push() {
    let mut binary = Binary::new();
    binary.push(0x12345678);
    binary.push(0xABCDEF00);

    assert_eq!(binary.len(), 2);
    assert!(!binary.is_empty());
    assert_eq!(binary.instructions()[0], 0x12345678);
    assert_eq!(binary.instructions()[1], 0xABCDEF00);
}

#[test]
fn test_binary_to_bytes() {
    let mut binary = Binary::new();
    binary.push(0x12345678);

    let bytes = binary.to_bytes();
    assert_eq!(bytes.len(), 4);
    assert_eq!(bytes, vec![0x12, 0x34, 0x56, 0x78]);
}

#[test]
fn test_binary_to_hex() {
    let mut binary = Binary::new();
    for _ in 0..MAX_INSTRUCTIONS {
        binary.push(0x00000000);
    }

    let hex = binary.to_hex();
    assert!(hex.starts_with(':'));
    assert!(hex.ends_with(":00000001FF\n"));
    assert!(hex.contains("00000000"));
}

#[test]
fn test_binary_to_c_array() {
    let mut binary = Binary::new();
    binary.push(0x12345678);
    binary.push(0xABCDEF00);

    let c_code = binary.to_c_array("test_program");
    assert!(c_code.contains("const uint32_t test_program"));
    assert!(c_code.contains("0x12345678"));
    assert!(c_code.contains("0xABCDEF00"));
}

#[test]
fn test_assemble_with_labels() {
    let mut program = Program::new();
    program.add_statement(Statement::Label("start".to_string()));
    program.add_statement(Statement::Instruction(Instruction::CLR));
    program.add_statement(Statement::LabeledInstruction {
        label: "loop".to_string(),
        instruction: Instruction::NOP,
    });

    let assembler = Assembler::new();
    let binary = assembler.assemble(&program).unwrap();

    assert_eq!(binary.len(), MAX_INSTRUCTIONS);
    assert_eq!(program.resolve_label("start"), Some(0));
    assert_eq!(program.resolve_label("loop"), Some(1));
}

fn sample_program(count: usize) -> (Program, Vec<Instruction>) {
    let mut program = Program::new();
    let mut list = Vec::new();
    for i in 0..count {
        let inst = match i % 4 {
            0 => Instruction::RDAX { reg: Register::REG((i % 32) as u8), coeff: fl(0.5) },
            1 => Instruction::SOF { coeff: fl(-0.25), offset: fl(0.125) },
            2 => Instruction::AND { mask: i as u32 },
            _ => Instruction::CLR,
        };
        if i % 5 == 0 {
            program.add_statement(Statement::Label(format!("l{}", i)));
        }
        program.add_statement(Statement::Instruction(inst));
        list.push(inst);
    }
    (program, list)
}

#[test]
fn assembled_words_are_the_encoded_instructions_then_zeros() {
    for count in [0usize, 1, 2, 17, 127, 128] {
        let (program, list) = sample_program(count);
        let binary = Assembler::new().assemble(&program).unwrap();
        assert_eq!(binary.len(), 128);
        for (i, word) in binary.instructions().iter().enumerate() {
            if i < count {
                assert_eq!(*word, encode_instruction(&list[i]).unwrap());
            } else {
                assert_eq!(*word, 0);
            }
        }
    }
}

#[test]
fn too_many_instructions_report_their_number() {
    for count in [129usize, 130, 200, 1000] {
        let (program, _) = sample_program(count);
        match Assembler::new().assemble(&program) {
            Err(CodegenError::ProgramTooLarge { size, max }) => {
                assert_eq!(size, count);
                assert_eq!(max, 128);
            }
            other => panic!("expected an error, found {:?}", other),
        }
    }
}

#[test]
fn the_first_encoding_error_aborts_assembly() {
    let mut program = Program::new();
    program.add_statement(Statement::Instruction(Instruction::CLR));
    program.add_statement(Statement::Instruction(Instruction::RDA { addr: 40000, coeff: fl(0.5) }));
    program.add_statement(Statement::Instruction(Instruction::RMPA { coeff: fl(9.0) }));
    assert!(matches!(
        Assembler::new().assemble(&program),
        Err(CodegenError::AddressOutOfRange { addr: 40000, max: 32767 })
    ));
}

#[test]
fn optimization_changes_nothing() {
    let (program, _) = sample_program(40);
    let plain = Assembler::new().assemble(&program).unwrap();
    let optimized = Assembler::new().with_optimization(true).assemble(&program).unwrap();
    assert_eq!(plain.instructions(), optimized.instructions());
    let again = Assembler::default().optimize_binary(plain.clone()).unwrap();
    assert_eq!(again.instructions(), plain.instructions());
}

#[test]
fn bytes_are_big_endian_and_read_back() {
    let (program, _) = sample_program(100);
    let binary = Assembler::new().assemble(&program).unwrap();
    let bytes = binary.to_bytes();
    assert_eq!(bytes.len(), 512);
    for (i, word) in binary.instructions().iter().enumerate() {
        assert_eq!(&bytes[4 * i..4 * i + 4], &word.to_be_bytes());
    }
    let back = Binary::from_bytes(&bytes).unwrap();
    assert_eq!(back.instructions(), binary.instructions());
    assert_eq!(back.len(), 128);
}

#[test]
fn from_bytes_rejects_other_lengths() {
    for len in [0usize, 1, 4, 511, 513, 1024] {
        let bytes = vec![0u8; len];
        match Binary::from_bytes(&bytes) {
            Err(CodegenError::InvalidBinarySize { size, expected }) => {
                assert_eq!(size, len);
                assert_eq!(expected, 512);
            }
            other => panic!("expected an error, found {:?}", other),
        }
    }
    assert!(Binary::from_bytes(&vec![0xA5u8; 512]).is_ok());
}

#[test]
fn hex_records_have_zero_sum() {
    let (program, _) = sample_program(128);
    let binary = Assembler::new().assemble(&program).unwrap();
    let bytes = binary.to_bytes();
    let hex = binary.to_hex();
    assert!(hex.starts_with(':'));
    assert!(hex.ends_with(":00000001FF\n"));
    let lines: Vec<&str> = hex.lines().collect();
    assert_eq!(lines.len(), 33);
    assert_eq!(lines[32], ":00000001FF");
    for (i, line) in lines[..32].iter().enumerate() {
        assert_eq!(line.len(), 1 + 2 + 4 + 2 + 32 + 2);
        assert!(line.starts_with(':'));
        let record: Vec<u8> = (0..(line.len() - 1) / 2)
            .map(|j| u8::from_str_radix(&line[1 + 2 * j..3 + 2 * j], 16).unwrap())
            .collect();
        assert_eq!(record[0], 16);
        assert_eq!(((record[1] as usize) << 8) | record[2] as usize, i * 16);
        assert_eq!(record[3], 0);
        assert_eq!(&record[4..20], &bytes[i * 16..i * 16 + 16]);
        let sum: u32 = record.iter().map(|b| *b as u32).sum();
        assert_eq!(sum % 256, 0);
        assert_eq!(*line, line.to_uppercase());
    }
}

#[test]
fn hex_of_short_images() {
    assert_eq!(Binary::new().to_hex(), ":00000001FF\n");
    let mut binary = Binary::new();
    binary.push(0x12345678);
    assert_eq!(binary.to_hex(), ":040000001234567800\n:00000001FF\n".replace("00\n:", "E8\n:"));
    for _ in 0..4 {
        binary.push(0xFFFFFFFF);
    }
    let hex = binary.to_hex();
    let lines: Vec<&str> = hex.lines().collect();
    assert_eq!(lines.len(), 3);
    assert_eq!(lines[0], ":1000000012345678FFFFFFFFFFFFFFFFFFFFFFFFE8");
    assert_eq!(lines[1], ":04001000FFFFFFFFF0");
}

#[test]
fn c_array_layout() {
    let mut binary = Binary::new();
    binary.push(0x12345678);
    binary.push(0xABCDEF00);
    assert_eq!(
        binary.to_c_array("test_program"),
        "// FV-1 program: test_program (2 instructions)\nconst uint32_t test_program[2] = {\n    0x12345678, 0xABCDEF00\n};\n"
    );
    binary.push(1);
    binary.push(2);
    binary.push(3);
    assert_eq!(
        binary.to_c_array("p"),
        "// FV-1 program: p (5 instructions)\nconst uint32_t p[5] = {\n    0x12345678, 0xABCDEF00, 0x00000001, 0x00000002,\n    0x00000003\n};\n"
    );
    assert_eq!(
        Binary::new().to_c_array("e"),
        "// FV-1 program: e (0 instructions)\nconst uint32_t e[0] = {\n};\n"
    );
    let mut four = Binary::default();
    for i in 0..4 {
        four.push(i);
    }
    assert_eq!(
        four.to_c_array("f"),
        "// FV-1 program: f (4 instructions)\nconst uint32_t f[4] = {\n    0x00000000, 0x00000001, 0x00000002, 0x00000003\n};\n"
    );
}
