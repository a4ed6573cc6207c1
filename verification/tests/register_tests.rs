use fv1_asm::{Control, Lfo, Register};

#[test]
fn test_register_creation() {
    let reg = Register::REG(0);
    assert_eq!(reg, Register::REG(0));
}

#[test]
fn test_control_creation() {
    let pot = Control::POT0;
    assert_eq!(pot, Control::POT0);
}

#[test]
fn test_lfo_creation() {
    let lfo = Lfo::SIN0;
    assert_eq!(lfo, Lfo::SIN0);
}
