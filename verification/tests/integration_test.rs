use fv1_asm::{
    Assembler, Binary, CodegenError, Disassembler, Float32, Instruction, Parser, Program,
    Register, Statement,
};

fn fl(value: f32) -> Float32 {
    Float32::from_bits(value.to_bits())
}

#[test]
fn test_complete_assembler_workflow() {
    // Parse a simple FV-1 program
    let source = r#"
        ; Simple passthrough with gain control
        rdax adcl, 1.0
        wrax dacl, 0.0
    "#;

    let mut parser = Parser::new(source);
    let program = parser.parse().expect("Failed to parse program");

    // Assemble to binary
    let assembler = Assembler::new();
    let binary = assembler.assemble(&program).expect("Failed to assemble");

    // Verify binary properties
    assert_eq!(binary.len(), 128); // FV-1 requires exactly 128 instructions
    assert!(!binary.is_empty());

    // Check that instructions are encoded
    let instructions = binary.instructions();
    assert_eq!(instructions[0] >> 27, 0b00000); // RDAX opcode
    assert_eq!(instructions[1] >> 27, 0b00110); // WRAX opcode

    // Test binary output formats
    let bytes = binary.to_bytes();
    assert_eq!(bytes.len(), 512); // 128 instructions * 4 bytes

    let hex = binary.to_hex();
    assert!(hex.starts_with(':')); // Intel HEX format
    assert!(hex.ends_with(":00000001FF\n")); // EOF record

    let c_array = binary.to_c_array("test_prog");
    assert!(c_array.contains("const uint32_t test_prog"));
}

#[test]
fn test_program_with_labels() {
    let source = r#"
        start: rdax adcl, 1.0
        loop:  sof 0.5, 0.0
               wrax dacl, 0.0
    "#;

    let mut parser = Parser::new(source);
    let program = parser.parse().expect("Failed to parse");

    // Verify label resolution
    assert_eq!(program.resolve_label("start"), Some(0));
    assert_eq!(program.resolve_label("loop"), Some(1));

    // Assemble successfully
    let assembler = Assembler::new();
    let binary = assembler.assemble(&program).expect("Failed to assemble");
    assert_eq!(binary.len(), 128);
}

#[test]
fn test_all_instruction_types_encode() {
    let mut program = fv1_asm::Program::new();

    // Add various instruction types to test encoding
    program.add_statement(Statement::Instruction(Instruction::CLR));
    program.add_statement(Statement::Instruction(Instruction::RDAX {
        reg: Register::ADCL,
        coeff: fl(1.0),
    }));
    program.add_statement(Statement::Instruction(Instruction::SOF {
        coeff: fl(0.5),
        offset: fl(0.0),
    }));
    program.add_statement(Statement::Instruction(Instruction::MULX { reg: Register::REG(0) }));
    program.add_statement(Statement::Instruction(Instruction::WRAX {
        reg: Register::DACL,
        coeff: fl(0.0),
    }));

    let assembler = Assembler::new();
    let result = assembler.assemble(&program);
    assert!(result.is_ok());

    let binary = result.unwrap();
    assert_eq!(binary.len(), 128);
}

#[test]
fn test_program_size_validation() {
    let mut program = fv1_asm::Program::new();

    // Add more than 128 instructions
    for _ in 0..129 {
        program.add_statement(Statement::Instruction(Instruction::NOP));
    }

    let assembler = Assembler::new();
    let result = assembler.assemble(&program);

    assert!(result.is_err());
    assert!(matches!(
        result.unwrap_err(),
        fv1_asm::CodegenError::ProgramTooLarge { size: 129, max: 128 }
    ));
}

#[test]
fn three_lines_assemble_to_three_words_and_zeros() {
    let source = "CLR\nRDAX ADCL, 1.0\nWRAX DACL, 0.0\n";
    let program = Parser::new(source).parse().unwrap();
    let binary = Assembler::new().assemble(&program).unwrap();
    let words = binary.instructions();
    assert_eq!(words.len(), 128);
    assert_eq!(words[0] >> 27, 0b01110);
    assert_eq!(words[1] >> 27, 0b00000);
    assert_eq!((words[1] >> 6) & 0x7FFF, 0x4000);
    assert_eq!(words[2] >> 27, 0b00110);
    for word in &words[3..128] {
        assert_eq!(*word, 0);
    }
}

#[test]
fn one_instruction_too_many_is_an_error() {
    let source = "nop\n".repeat(129);
    let program = Parser::new(&source).parse().unwrap();
    assert_eq!(program.instructions().len(), 129);
    match Assembler::new().assemble(&program) {
        Err(CodegenError::ProgramTooLarge { size, max }) => {
            assert_eq!(size, 129);
            assert_eq!(max, 128);
        }
        other => panic!("unexpected {:?}", other),
    }
    let source = "nop\n".repeat(128);
    let program = Parser::new(&source).parse().unwrap();
    assert!(Assembler::new().assemble(&program).is_ok());
}

#[test]
fn disassembled_text_assembles_to_the_same_image() {
    let source = "\
        rdax adcl, 0.5\n\
        rdax adcr, -0.5\n\
        mulx reg0\n\
        sof 0.75, -0.25\n\
        exp 0.5, 0.125\n\
        log -1, 0.001953125\n\
        and 0xFF00FF\n\
        or 1\n\
        xor $ABCDEF\n\
        skp gez, 3\n\
        wlds sin0, 100, 200\n\
        jam rmp1\n\
        rda 1000, 0.0625\n\
        wra 2000, 0.03125\n\
        wrap 32767, 0\n\
        ldax lr\n\
        rdfx reg31, 0.000061035156\n\
        rdfx2 addr_ptr, -0.99993896\n\
        rmpa 0.25\n\
        absa\n\
        shl\n\
        shr\n\
        clr\n\
        wrax dacl, 0.0\n";
    let program = Parser::new(source).parse().unwrap();
    let binary = Assembler::new().assemble(&program).unwrap();
    let text = Disassembler::new().disassemble_to_source(&binary).unwrap();
    assert_eq!(text.lines().count(), 24);
    let again = Parser::new(&text).parse().unwrap();
    let binary2 = Assembler::new().assemble(&again).unwrap();
    assert_eq!(binary.instructions(), binary2.instructions());
    assert_eq!(binary.to_bytes(), binary2.to_bytes());
    // And the text itself is a fixed point.
    assert_eq!(Disassembler::new().disassemble_to_source(&binary2).unwrap(), text);
}

#[test]
fn images_of_valid_words_survive_text() {
    let registers: Vec<u32> = (0..6).chain(16..48).collect();
    let mut state: u64 = 0x2545_F491_4F6C_DD1D;
    let mut next = move || {
        state ^= state << 13;
        state ^= state >> 7;
        state ^= state << 17;
        state
    };
    for _ in 0..300 {
        let mut binary = Binary::new();
        let count = 1 + next() % 19;
        for _ in 0..count {
            let reg = registers[(next() % registers.len() as u64) as usize];
            let coeff = (((next() % 32768) as i32 - 16384) & 0x7FFF) as u32;
            let offset = (((next() % 1024) as i32 - 512) & 0x7FF) as u32;
            let mask = (next() % 0x100_0000) as u32;
            let word = match next() % 9 {
                0 => (reg << 21) | (coeff << 6),
                1 => (0b00110 << 27) | (reg << 21) | (coeff << 6),
                2 => (0b01101 << 27) | (coeff << 11) | offset,
                3 => (0b01010 << 27) | (reg << 21),
                4 => 0b01110 << 27,
                5 => 0,
                6 => (0b01111 << 27) | mask,
                7 => (0b10000 << 27) | mask,
                _ => (0b10001 << 27) | mask,
            };
            binary.push(word);
        }
        while binary.len() < 128 {
            binary.push(0);
        }
        let disassembler = Disassembler::new().with_strip_nops(true);
        let source = disassembler.disassemble_to_source(&binary).unwrap();
        let program = Parser::new(&source).parse().unwrap();
        let binary2 = Assembler::new().assemble(&program).unwrap();
        let source2 = disassembler.disassemble_to_source(&binary2).unwrap();
        assert_eq!(source, source2);
    }
}

#[test]
fn building_and_parsing_give_the_same_image() {
    let source = "start: clr\nrdax adcl, 0.5\nloop:\nsof 0.5, 0.25\nend: wrax dacl, 0\n";
    let parsed = Parser::new(source).parse().unwrap();

    let mut built = Program::new();
    built.add_statement(Statement::LabeledInstruction {
        label: "start".to_string(),
        instruction: Instruction::CLR,
    });
    built.add_statement(Statement::Instruction(Instruction::RDAX {
        reg: Register::ADCL,
        coeff: fl(0.5),
    }));
    built.add_statement(Statement::Label("loop".to_string()));
    built.add_statement(Statement::Instruction(Instruction::SOF {
        coeff: fl(0.5),
        offset: fl(0.25),
    }));
    built.add_statement(Statement::LabeledInstruction {
        label: "end".to_string(),
        instruction: Instruction::WRAX { reg: Register::DACL, coeff: fl(0.0) },
    });

    let a = Assembler::new().assemble(&parsed).unwrap();
    let b = Assembler::new().assemble(&built).unwrap();
    assert_eq!(a.instructions(), b.instructions());
    for label in ["start", "loop", "end"] {
        assert_eq!(parsed.resolve_label(label), built.resolve_label(label));
    }
    assert_eq!(parsed.labels.len(), built.labels.len());
}
