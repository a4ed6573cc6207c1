use fv1_asm::parser::describe_token;
use fv1_asm::{
    ChoFlags, ChoMode, Directive, Float32, Instruction, Lfo, ParseError, Parser,
    Register, SkipCondition, Statement, Token, Value,
};

fn fl(value: f32) -> Float32 {
    Float32::from_bits(value.to_bits())
}

fn instructions(source: &str) -> Vec<Instruction> {
    Parser::new(source).parse().unwrap().instructions().into_iter().cloned().collect()
}

#[test]
fn test_parse_simple_instruction() {
    let source = "clr";
    let mut parser = Parser::new(source);
    let program = parser.parse().unwrap();

    assert_eq!(program.instructions().len(), 1);
    assert!(matches!(program.instructions()[0], Instruction::CLR));
}

#[test]
fn test_parse_rdax() {
    let source = "rdax adcl, 1.0";
    let mut parser = Parser::new(source);
    let program = parser.parse().unwrap();

    assert_eq!(program.instructions().len(), 1);
    match program.instructions()[0] {
        Instruction::RDAX { reg, coeff } => {
            assert_eq!(*reg, Register::ADCL);
            assert_eq!(*coeff, fl(1.0));
        }
        _ => panic!("Wrong instruction type"),
    }
}

#[test]
fn test_parse_sof() {
    let source = "sof 0.5, 0.0";
    let mut parser = Parser::new(source);
    let program = parser.parse().unwrap();

    assert_eq!(program.instructions().len(), 1);
    match program.instructions()[0] {
        Instruction::SOF { coeff, offset } => {
            assert_eq!(*coeff, fl(0.5));
            assert_eq!(*offset, fl(0.0));
        }
        _ => panic!("Wrong instruction type"),
    }
}

#[test]
fn test_parse_label() {
    let source = "start: clr";
    let mut parser = Parser::new(source);
    let program = parser.parse().unwrap();

    assert_eq!(program.instructions().len(), 1);
    assert_eq!(program.labels.get("start"), Some(&0));
}

#[test]
fn test_parse_multiple_instructions() {
    let source = r#"
            clr
            rdax adcl, 1.0
            sof 0.5, 0.0
            wrax dacl, 0
        "#;
    let mut parser = Parser::new(source);
    let program = parser.parse().unwrap();

    assert_eq!(program.instructions().len(), 4);
}

#[test]
fn test_parse_with_comments() {
    let source = r#"
            ; Clear accumulator
            clr
            rdax adcl, 1.0  ; Read left input
        "#;
    let mut parser = Parser::new(source);
    let program = parser.parse().unwrap();

    assert_eq!(program.instructions().len(), 2);
}

#[test]
fn test_parse_register_variants() {
    let source = "rdax reg0, 1.0";
    let mut parser = Parser::new(source);
    let program = parser.parse().unwrap();

    match program.instructions()[0] {
        Instruction::RDAX { reg, .. } => {
            assert_eq!(*reg, Register::REG(0));
        }
        _ => panic!("Wrong instruction"),
    }
}

#[test]
fn test_parse_skip_instruction() {
    let source = "skp gez, 2";
    let mut parser = Parser::new(source);
    let program = parser.parse().unwrap();

    match program.instructions()[0] {
        Instruction::SKP { condition, offset } => {
            assert_eq!(*condition, SkipCondition::GEZ);
            assert_eq!(*offset, 2);
        }
        _ => panic!("Wrong instruction"),
    }
}

#[test]
fn test_parse_directive_equ() {
    let source = "equ GAIN, 0.5";
    let mut parser = Parser::new(source);
    let program = parser.parse().unwrap();

    assert_eq!(program.directives.len(), 1);
    match &program.directives[0] {
        Directive::Equate { name, value } => {
            assert_eq!(name, "GAIN");
            match value {
                Value::Float(v) => assert_eq!(*v, fl(0.5)),
                _ => panic!("Wrong value type"),
            }
        }
        _ => panic!("Wrong directive"),
    }
}

#[test]
fn test_parse_directive_mem() {
    let source = "mem delay 4096";
    let mut parser = Parser::new(source);
    let program = parser.parse().unwrap();

    assert_eq!(program.directives.len(), 1);
    match &program.directives[0] {
        Directive::MemoryAllocation { name, size } => {
            assert_eq!(name, "delay");
            assert_eq!(*size, 4096);
        }
        _ => panic!("Wrong directive"),
    }
}

#[test]
fn every_instruction_parses() {
    let none = ChoFlags { rptr2: false, na: false, compc: false, compa: false, rptr2_select: false };
    let cases: Vec<(&str, Instruction)> = vec![
        ("rdax adcl, 0.5", Instruction::RDAX { reg: Register::ADCL, coeff: fl(0.5) }),
        ("RDA 1000, 0.25", Instruction::RDA { addr: 1000, coeff: fl(0.25) }),
        ("rmpa -0.5", Instruction::RMPA { coeff: fl(-0.5) }),
        ("wrax dacr, 1", Instruction::WRAX { reg: Register::DACR, coeff: fl(1.0) }),
        ("wra 0x10, 0", Instruction::WRA { addr: 16, coeff: fl(0.0) }),
        ("wrap $20, -1", Instruction::WRAP { addr: 32, coeff: fl(-1.0) }),
        ("mulx reg31", Instruction::MULX { reg: Register::REG(31) }),
        ("rdfx lr, 0.125", Instruction::RDFX { reg: Register::LR, coeff: fl(0.125) }),
        ("rdfx2 addr_ptr, 1e-1", Instruction::RDFX2 { reg: Register::ADDR_PTR, coeff: fl(0.1) }),
        ("ldax acc", Instruction::LDAX { reg: Register::ACC }),
        ("absa", Instruction::ABSA),
        ("sof 1.5, -0.5", Instruction::SOF { coeff: fl(1.5), offset: fl(-0.5) }),
        ("and 0xFF", Instruction::AND { mask: 255 }),
        ("or %101", Instruction::OR { mask: 5 }),
        ("xor 16777215", Instruction::XOR { mask: 0xFF_FFFF }),
        ("shl", Instruction::SHL),
        ("shr", Instruction::SHR),
        ("clr", Instruction::CLR),
        ("nop", Instruction::NOP),
        ("exp 0.5, 0.25", Instruction::EXP { coeff: fl(0.5), offset: fl(0.25) }),
        ("log -0.5, -0.25", Instruction::LOG { coeff: fl(-0.5), offset: fl(-0.25) }),
        ("skp run, 10", Instruction::SKP { condition: SkipCondition::RUN, offset: 10 }),
        ("skp zrc, -3", Instruction::SKP { condition: SkipCondition::ZRC, offset: -3 }),
        ("wlds sin1, 100, 200", Instruction::WLDS { lfo: Lfo::SIN1, freq: 100, amplitude: 200 }),
        ("jam rmp0", Instruction::JAM { lfo: Lfo::RMP0 }),
        (
            "cho rdal, sin0, compc, 77",
            Instruction::CHO { mode: ChoMode::RDAL, lfo: Lfo::SIN0, flags: none, addr: 77 },
        ),
        (
            "cho sof, rmp1, 0, 5",
            Instruction::CHO { mode: ChoMode::SOF, lfo: Lfo::RMP1, flags: none, addr: 5 },
        ),
        ("mulx sin0_rate", Instruction::MULX { reg: Register::SIN0_RATE }),
        ("mulx pot0", Instruction::MULX { reg: Register::REG(16) }),
        ("MULX POT1", Instruction::MULX { reg: Register::REG(17) }),
        ("rdax pot2, 0.5", Instruction::RDAX { reg: Register::REG(18), coeff: fl(0.5) }),
        ("mulx rmp1_range", Instruction::MULX { reg: Register::RMP1_RANGE }),
    ];
    for (source, expected) in cases {
        assert_eq!(instructions(source), vec![expected], "{}", source);
    }
}

#[test]
fn numbers_are_narrowed_to_the_field() {
    // A fraction is cut off, and a number out of range becomes the nearest bound.
    assert_eq!(instructions("rda 1.9, 0"), vec![Instruction::RDA { addr: 1, coeff: fl(0.0) }]);
    assert_eq!(instructions("rda -5, 0"), vec![Instruction::RDA { addr: 0, coeff: fl(0.0) }]);
    assert_eq!(instructions("rda 70000, 0"), vec![Instruction::RDA { addr: 65535, coeff: fl(0.0) }]);
    assert_eq!(instructions("rda 1e10, 0"), vec![Instruction::RDA { addr: 65535, coeff: fl(0.0) }]);
    assert_eq!(instructions("and -1"), vec![Instruction::AND { mask: 0 }]);
    assert_eq!(instructions("and 4294967296"), vec![Instruction::AND { mask: u32::MAX }]);
    assert_eq!(instructions("and 3.99e9"), vec![Instruction::AND { mask: 3.99e9f32 as u32 }]);
    assert_eq!(
        instructions("skp neg, 1000"),
        vec![Instruction::SKP { condition: SkipCondition::NEG, offset: 127 }]
    );
    assert_eq!(
        instructions("skp neg, -1000"),
        vec![Instruction::SKP { condition: SkipCondition::NEG, offset: -128 }]
    );
    assert_eq!(
        instructions("skp neg, -2.7"),
        vec![Instruction::SKP { condition: SkipCondition::NEG, offset: -2 }]
    );
    // A whole number as a coefficient is the nearest single-precision number.
    assert_eq!(instructions("rmpa 16777217"), vec![Instruction::RMPA { coeff: fl(16777217i64 as f64 as f32) }]);
    assert_eq!(
        instructions("rmpa 9007199791611905"),
        vec![Instruction::RMPA { coeff: fl(9007199791611905i64 as f64 as f32) }]
    );
    assert_eq!(
        instructions("rmpa -9223372036854775808"),
        vec![Instruction::RMPA { coeff: fl(i64::MIN as f64 as f32) }]
    );
}

#[test]
fn labels_and_statements() {
    // Line ends are blank space: a label takes the instruction that follows it.
    let source = "start:\n clr\nnop\nloop: sof 0.5, 0.0\nend:\nlast:";
    let program = Parser::new(source).parse().unwrap();
    assert_eq!(program.statements.len(), 5);
    assert!(matches!(
        &program.statements[0],
        Statement::LabeledInstruction { label, instruction: Instruction::CLR } if label == "start"
    ));
    assert!(matches!(&program.statements[1], Statement::Instruction(Instruction::NOP)));
    assert!(matches!(
        &program.statements[2],
        Statement::LabeledInstruction { label, instruction: Instruction::SOF { .. } } if label == "loop"
    ));
    assert!(matches!(&program.statements[3], Statement::Label(name) if name == "end"));
    assert!(matches!(&program.statements[4], Statement::Label(name) if name == "last"));
    assert_eq!(program.resolve_label("start"), Some(0));
    assert_eq!(program.resolve_label("loop"), Some(2));
    assert_eq!(program.resolve_label("end"), Some(3));
    assert_eq!(program.resolve_label("last"), Some(3));
    assert_eq!(program.instructions().len(), 3);

    // A label before a directive stands alone.
    let program = Parser::new("here: equ x, 1\nclr").parse().unwrap();
    assert!(matches!(&program.statements[0], Statement::Label(name) if name == "here"));
    assert_eq!(program.directives.len(), 1);
    assert_eq!(program.resolve_label("here"), Some(0));
}

#[test]
fn directives() {
    let source = "equ gain, 0.5\nequ count, 3\nequ other, gain\nmem buf 100\nspinasm v1\nclr";
    let program = Parser::new(source).parse().unwrap();
    assert_eq!(program.directives.len(), 5);
    assert!(matches!(
        &program.directives[1],
        Directive::Equate { name, value: Value::Integer(3) } if name == "count"
    ));
    assert!(matches!(
        &program.directives[2],
        Directive::Equate { name, value: Value::Identifier(v) } if name == "other" && v == "gain"
    ));
    assert!(matches!(&program.directives[4], Directive::SpinAsm { version } if version == "v1"));
    assert_eq!(program.instructions().len(), 1);
    assert!(program.labels.is_empty());
}

#[test]
fn errors_name_what_was_expected_and_found() {
    match Parser::new("rdax adcl 0.5").parse() {
        Err(ParseError::UnexpectedToken { expected, found, span }) => {
            assert_eq!(expected, "Comma");
            assert_eq!(found, "Float(0.5)");
            assert_eq!(span, 10..13);
        }
        other => panic!("unexpected {:?}", other),
    }
    match Parser::new("rdax 5, 0.5").parse() {
        Err(ParseError::ExpectedRegister { span }) => assert_eq!(span, 5..6),
        other => panic!("unexpected {:?}", other),
    }
    match Parser::new("sof adcl, 0.5").parse() {
        Err(ParseError::ExpectedNumber { span }) => assert_eq!(span, 4..8),
        other => panic!("unexpected {:?}", other),
    }
    match Parser::new("rdax adcl,").parse() {
        Err(ParseError::UnexpectedEof) => {}
        other => panic!("unexpected {:?}", other),
    }
    match Parser::new("clr @").parse() {
        Err(ParseError::InvalidToken { span }) => assert_eq!(span, 4..5),
        other => panic!("unexpected {:?}", other),
    }
    match Parser::new("adcl").parse() {
        Err(ParseError::UnexpectedToken { expected, found, span }) => {
            assert_eq!(expected, "instruction");
            assert_eq!(found, "ADCL");
            assert_eq!(span, 0..4);
        }
        other => panic!("unexpected {:?}", other),
    }
    match Parser::new("jam adcl").parse() {
        Err(ParseError::UnexpectedToken { expected, found, .. }) => {
            assert_eq!(expected, "LFO (sin0, sin1, rmp0, rmp1)");
            assert_eq!(found, "ADCL");
        }
        other => panic!("unexpected {:?}", other),
    }
    match Parser::new("skp reg3, 1").parse() {
        Err(ParseError::UnexpectedToken { expected, found, .. }) => {
            assert_eq!(expected, "skip condition (gez, neg, zrc, zro, run)");
            assert_eq!(found, "REG(3)");
        }
        other => panic!("unexpected {:?}", other),
    }
    match Parser::new("cho 5, sin0, 0, 0").parse() {
        Err(ParseError::UnexpectedToken { expected, found, .. }) => {
            assert_eq!(expected, "CHO mode (rda, sof, rdal)");
            assert_eq!(found, "Integer(5)");
        }
        other => panic!("unexpected {:?}", other),
    }
    match Parser::new("equ 5, 1").parse() {
        Err(ParseError::UnexpectedToken { expected, found, .. }) => {
            assert_eq!(expected, "identifier");
            assert_eq!(found, "Integer(5)");
        }
        other => panic!("unexpected {:?}", other),
    }
    match Parser::new("equ x, clr").parse() {
        Err(ParseError::ExpectedNumber { span }) => assert_eq!(span, 0..0),
        other => panic!("unexpected {:?}", other),
    }
    match Parser::new("name clr").parse() {
        Err(ParseError::UnexpectedToken { expected, found, span }) => {
            assert_eq!(expected, "instruction");
            assert_eq!(found, "Identifier(\"name\")");
            assert_eq!(span, 0..4);
        }
        other => panic!("unexpected {:?}", other),
    }
    // Parsing stops at the first error.
    match Parser::new("clr\nrdax\nthis is wrong").parse() {
        Err(ParseError::ExpectedRegister { span }) => assert_eq!(span, 9..13),
        other => panic!("unexpected {:?}", other),
    }
}

#[test]
fn token_descriptions() {
    assert_eq!(describe_token(&Token::RDAX), "RDAX");
    assert_eq!(describe_token(&Token::ADDR_PTR), "ADDR_PTR");
    assert_eq!(describe_token(&Token::REG(17)), "REG(17)");
    assert_eq!(describe_token(&Token::POT(2)), "POT(2)");
    assert_eq!(describe_token(&Token::Integer(-42)), "Integer(-42)");
    assert_eq!(describe_token(&Token::Integer(i64::MIN)), format!("Integer({})", i64::MIN));
    assert_eq!(describe_token(&Token::Identifier("abc".to_string())), "Identifier(\"abc\")");
    assert_eq!(describe_token(&Token::Float(fl(1.0))), "Float(1.0)");
    assert_eq!(describe_token(&Token::Float(fl(-0.25))), "Float(-0.25)");
    assert_eq!(describe_token(&Token::Float(fl(1e-7))), "Float(1e-7)");
    assert_eq!(describe_token(&Token::Float(fl(2.5e20))), "Float(2.5e20)");
    assert_eq!(describe_token(&Token::Comma), "Comma");
    assert_eq!(describe_token(&Token::Hash), "Hash");
    for token in [Token::CLR, Token::SIN0_RANGE, Token::Colon, Token::SPINASM, Token::RPTR2] {
        assert_eq!(describe_token(&token), format!("{:?}", token));
    }
}

#[test]
fn an_empty_source_is_an_empty_program() {
    let program = Parser::new("").parse().unwrap();
    assert!(program.statements.is_empty());
    assert!(program.directives.is_empty());
    let program = Parser::new("; nothing\n\n").parse().unwrap();
    assert!(program.statements.is_empty());
}

#[test]
fn a_parser_can_be_given_its_tokens() {
    let tokens = vec![
        (Ok(Token::Identifier("top".to_string())), 0..3),
        (Ok(Token::Colon), 3..4),
        (Ok(Token::SOF), 5..8),
        (Ok(Token::Float(fl(0.5))), 9..12),
        (Ok(Token::Comma), 12..13),
        (Ok(Token::Integer(0)), 14..15),
    ];
    let program = Parser::from_tokens(tokens).parse().unwrap();
    assert_eq!(program.resolve_label("top"), Some(0));
    assert_eq!(
        program.instructions(),
        vec![&Instruction::SOF { coeff: fl(0.5), offset: fl(0.0) }]
    );
    let same = Parser::new("top: sof 0.5, 0").parse().unwrap();
    assert_eq!(same.instructions(), program.instructions());

    let broken = vec![(Ok(Token::CLR), 0..3), (Err(()), 4..6)];
    assert!(matches!(
        Parser::from_tokens(broken).parse(),
        Err(ParseError::InvalidToken { span }) if span == (4..6)
    ));
}
