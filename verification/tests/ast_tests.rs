use fv1_asm::{Float32, Instruction, Program, Register, Statement, Value};

fn fl(value: f32) -> Float32 {
    Float32::from_bits(value.to_bits())
}

#[test]
fn test_program_creation() {
    let program = Program::new();
    assert_eq!(program.directives.len(), 0);
    assert_eq!(program.statements.len(), 0);
    assert_eq!(program.labels.len(), 0);
}

#[test]
fn test_program_add_instruction() {
    let mut program = Program::new();
    let inst = Instruction::CLR;
    program.add_statement(Statement::Instruction(inst));

    assert_eq!(program.statements.len(), 1);
    assert_eq!(program.instructions().len(), 1);
}

#[test]
fn test_program_add_label() {
    let mut program = Program::new();
    program.add_statement(Statement::Label("start".to_string()));
    program.add_statement(Statement::Instruction(Instruction::CLR));

    assert_eq!(program.statements.len(), 2);
    assert_eq!(program.labels.get("start"), Some(&0));
}

#[test]
fn test_program_labeled_instruction() {
    let mut program = Program::new();
    let inst = Instruction::RDAX { reg: Register::ADCL, coeff: fl(1.0) };
    program.add_statement(Statement::LabeledInstruction {
        label: "read_input".to_string(),
        instruction: inst,
    });

    assert_eq!(program.statements.len(), 1);
    assert_eq!(program.instructions().len(), 1);
    assert_eq!(program.labels.get("read_input"), Some(&0));
}

#[test]
fn test_program_resolve_label() {
    let mut program = Program::new();
    program.add_statement(Statement::Instruction(Instruction::CLR));
    program.add_statement(Statement::Label("loop".to_string()));
    program.add_statement(Statement::Instruction(Instruction::NOP));

    assert_eq!(program.resolve_label("loop"), Some(1));
}

#[test]
fn test_value_types() {
    let float_val = Value::Float(fl(1.5));
    let int_val = Value::Integer(42);
    let id_val = Value::Identifier("GAIN".to_string());

    match float_val {
        Value::Float(v) => assert_eq!(v, fl(1.5)),
        _ => panic!("Wrong value type"),
    }

    match int_val {
        Value::Integer(v) => assert_eq!(v, 42),
        _ => panic!("Wrong value type"),
    }

    match id_val {
        Value::Identifier(s) => assert_eq!(s, "GAIN"),
        _ => panic!("Wrong value type"),
    }
}

#[test]
fn label_names_the_next_instruction() {
    let mut program = Program::new();
    program.add_statement(Statement::Label("a".to_string()));
    program.add_statement(Statement::Label("b".to_string()));
    program.add_statement(Statement::Instruction(Instruction::CLR));
    program.add_statement(Statement::LabeledInstruction {
        label: "c".to_string(),
        instruction: Instruction::NOP,
    });
    program.add_statement(Statement::Label("end".to_string()));

    assert_eq!(program.resolve_label("a"), Some(0));
    assert_eq!(program.resolve_label("b"), Some(0));
    assert_eq!(program.resolve_label("c"), Some(1));
    assert_eq!(program.resolve_label("end"), Some(2));
    assert_eq!(program.resolve_label("missing"), None);
    assert_eq!(program.labels.len(), 4);
    assert_eq!(program.instructions().len(), 2);
    assert_eq!(program.instruction_count(), 2);
}

#[test]
fn a_label_defined_again_takes_the_later_index() {
    let mut program = Program::new();
    program.add_statement(Statement::Label("here".to_string()));
    program.add_statement(Statement::Instruction(Instruction::CLR));
    program.add_statement(Statement::Label("here".to_string()));

    assert_eq!(program.resolve_label("here"), Some(1));
    assert_eq!(program.labels.len(), 1);
    assert!(!program.labels.is_empty());
    let copy = program.clone();
    assert_eq!(copy.resolve_label("here"), Some(1));
}

#[test]
fn default_program_is_empty() {
    let program = Program::default();
    assert!(program.statements.is_empty());
    assert!(program.labels.is_empty());
}
