//! Disassembly of binary images into programs and into assembly source.

use crate::ast::{Program, Statement};
use crate::codegen::assembler::Binary;
use crate::codegen::decoder::{decode_instruction, decode_spec};
use crate::error::CodegenError;
use crate::float32::Float32;
use crate::shortest::{display_text, push_float};
use crate::instruction::{ChoMode, Instruction, SkipCondition};
use crate::register::{Lfo, Register};
use crate::text::{
    decimal_text, hex_text, push_char, push_decimal, push_hex, push_signed_decimal, push_text,
    signed_decimal_text,
};
use vstd::prelude::*;

verus! {

/// Where the trailing run of zero words begins: the length of the list if
/// its last word is not zero.
pub open spec fn tail_start(words: Seq<u32>) -> nat
    decreases words.len(),
{
    if words.len() == 0 {
        0
    } else if words.last() != 0 {
        words.len()
    } else {
        tail_start(words.drop_last())
    }
}

/// The error of the first word that cannot be decoded, if there is one.
#[verifier::opaque]
pub open spec fn first_decode_error(words: Seq<u32>) -> Option<CodegenError>
    decreases words.len(),
{
    if words.len() == 0 {
        None
    } else {
        match first_decode_error(words.drop_last()) {
            Some(e) => Some(e),
            None => match decode_spec(words.last()) {
                Ok(_) => None,
                Err(e) => Some(e),
            },
        }
    }
}

/// The words that are disassembled: all of them, or all before the
/// trailing run of zero words.
pub open spec fn kept_words(words: Seq<u32>, strip_nops: bool) -> Seq<u32> {
    if strip_nops {
        words.take(tail_start(words) as int)
    } else {
        words
    }
}

/// What disassembling gives: the error of the first kept word that cannot
/// be decoded, or else the instructions of the kept words.
pub open spec fn disassemble_spec(words: Seq<u32>, strip_nops: bool) -> Result<
    Seq<Instruction>,
    CodegenError,
> {
    let kept = kept_words(words, strip_nops);
    match first_decode_error(kept) {
        Some(e) => Err(e),
        None => Ok(Seq::new(kept.len(), |i: int| decode_spec(kept[i])->Ok_0)),
    }
}

/// Only a genuine run of zero words up to the end is stripped: every word
/// from the start of the tail on is zero, and the word before it is not.
pub proof fn lemma_tail_is_zero(words: Seq<u32>)
    ensures
        tail_start(words) <= words.len(),
        forall|i: int| tail_start(words) <= i < words.len() ==> words[i] == 0,
        tail_start(words) > 0 ==> words[tail_start(words) - 1] != 0,
    decreases words.len(),
{
    if words.len() > 0 {
        lemma_tail_is_zero(words.drop_last());
        if words.last() == 0 {
            assert forall|i: int| tail_start(words) <= i < words.len() implies words[i] == 0 by {
                if i < words.len() - 1 {
                    assert(words.drop_last()[i] == words[i]);
                }
            }
            if tail_start(words) > 0 {
                assert(words.drop_last()[tail_start(words) - 1] == words[tail_start(words) - 1]);
            }
        }
    }
}

/// The first error among `n + 1` words is the first error among `n`, or
/// else the error of the last.
pub proof fn lemma_decode_error_step(words: Seq<u32>, n: int)
    requires
        0 <= n < words.len(),
    ensures
        first_decode_error(words.take(n + 1)) == (match first_decode_error(words.take(n)) {
            Some(e) => Some(e),
            None => match decode_spec(words[n]) {
                Ok(_) => None,
                Err(e) => Some(e),
            },
        }),
{
    reveal_with_fuel(first_decode_error, 2);
    assert(words.take(n + 1).drop_last() =~= words.take(n));
    assert(words.take(n + 1).last() == words[n]);
}

/// An error among the first words is the error of the whole list.
pub proof fn lemma_decode_error_stays(words: Seq<u32>, n: int)
    requires
        0 <= n <= words.len(),
        first_decode_error(words.take(n)) is Some,
    ensures
        first_decode_error(words) == first_decode_error(words.take(n)),
    decreases words.len() - n,
{
    if n < words.len() {
        lemma_decode_error_step(words, n);
        lemma_decode_error_stays(words, n + 1);
    } else {
        assert(words.take(n) =~= words);
    }
}

/// The canonical name of a register.
pub open spec fn register_text(reg: Register) -> Seq<char> {
    match reg {
        Register::ACC => "ACC"@,
        Register::ADCL => "ADCL"@,
        Register::ADCR => "ADCR"@,
        Register::DACL => "DACL"@,
        Register::DACR => "DACR"@,
        Register::REG(n) => "REG"@ + decimal_text(n as nat),
        Register::ADDR_PTR => "ADDR_PTR"@,
        Register::LR => "LR"@,
        Register::SIN0_RATE => "SIN0_RATE"@,
        Register::SIN0_RANGE => "SIN0_RANGE"@,
        Register::SIN1_RATE => "SIN1_RATE"@,
        Register::SIN1_RANGE => "SIN1_RANGE"@,
        Register::RMP0_RATE => "RMP0_RATE"@,
        Register::RMP0_RANGE => "RMP0_RANGE"@,
        Register::RMP1_RATE => "RMP1_RATE"@,
        Register::RMP1_RANGE => "RMP1_RANGE"@,
    }
}

/// The canonical name of a skip condition.
pub open spec fn skip_condition_text(condition: SkipCondition) -> Seq<char> {
    match condition {
        SkipCondition::RUN => "RUN"@,
        SkipCondition::NEG => "NEG"@,
        SkipCondition::GEZ => "GEZ"@,
        SkipCondition::ZRO => "ZRO"@,
        SkipCondition::ZRC => "ZRC"@,
    }
}

/// The canonical name of an LFO.
pub open spec fn lfo_text(lfo: Lfo) -> Seq<char> {
    match lfo {
        Lfo::SIN0 => "SIN0"@,
        Lfo::SIN1 => "SIN1"@,
        Lfo::RMP0 => "RMP0"@,
        Lfo::RMP1 => "RMP1"@,
    }
}

/// The canonical name of a CHO mode.
pub open spec fn cho_mode_text(mode: ChoMode) -> Seq<char> {
    match mode {
        ChoMode::RDA => "RDA"@,
        ChoMode::SOF => "SOF"@,
        ChoMode::RDAL => "RDAL"@,
    }
}

/// The flags of a CHO instruction that are set, each after a comma.
pub open spec fn cho_flags_text(flags: crate::instruction::ChoFlags) -> Seq<char> {
    (if flags.rptr2 {
        ", RPTR2"@
    } else {
        Seq::empty()
    }) + (if flags.na {
        ", NA"@
    } else {
        Seq::empty()
    }) + (if flags.compc {
        ", COMPC"@
    } else {
        Seq::empty()
    }) + (if flags.compa {
        ", COMPA"@
    } else {
        Seq::empty()
    }) + (if flags.rptr2_select {
        ", RPTR2_SEL"@
    } else {
        Seq::empty()
    })
}

/// An instruction as assembly text: the mnemonic in upper case and the
/// operands in the order of the grammar, separated by a comma and a space.
/// A coefficient is written as the shortest decimal that names it.
pub open spec fn instruction_text(inst: Instruction) -> Seq<char> {
    match inst {
        Instruction::RDAX { reg, coeff } => "RDAX "@ + register_text(reg) + ", "@
            + display_text(coeff),
        Instruction::RDA { addr, coeff } => "RDA "@ + decimal_text(addr as nat) + ", "@
            + display_text(coeff),
        Instruction::RMPA { coeff } => "RMPA "@ + display_text(coeff),
        Instruction::WRAX { reg, coeff } => "WRAX "@ + register_text(reg) + ", "@
            + display_text(coeff),
        Instruction::WRA { addr, coeff } => "WRA "@ + decimal_text(addr as nat) + ", "@
            + display_text(coeff),
        Instruction::WRAP { addr, coeff } => "WRAP "@ + decimal_text(addr as nat) + ", "@
            + display_text(coeff),
        Instruction::MULX { reg } => "MULX "@ + register_text(reg),
        Instruction::RDFX { reg, coeff } => "RDFX "@ + register_text(reg) + ", "@
            + display_text(coeff),
        Instruction::RDFX2 { reg, coeff } => "RDFX2 "@ + register_text(reg) + ", "@
            + display_text(coeff),
        Instruction::LDAX { reg } => "LDAX "@ + register_text(reg),
        Instruction::ABSA => "ABSA"@,
        Instruction::SOF { coeff, offset } => "SOF "@ + display_text(coeff) + ", "@
            + display_text(offset),
        Instruction::AND { mask } => "AND 0x"@ + hex_text(mask as nat, 6),
        Instruction::OR { mask } => "OR 0x"@ + hex_text(mask as nat, 6),
        Instruction::XOR { mask } => "XOR 0x"@ + hex_text(mask as nat, 6),
        Instruction::SHL => "SHL"@,
        Instruction::SHR => "SHR"@,
        Instruction::CLR => "CLR"@,
        Instruction::NOP => "NOP"@,
        Instruction::EXP { coeff, offset } => "EXP "@ + display_text(coeff) + ", "@
            + display_text(offset),
        Instruction::LOG { coeff, offset } => "LOG "@ + display_text(coeff) + ", "@
            + display_text(offset),
        Instruction::SKP { condition, offset } => "SKP "@ + skip_condition_text(condition) + ", "@
            + signed_decimal_text(offset as int),
        Instruction::WLDS { lfo, freq, amplitude } => "WLDS "@ + lfo_text(lfo) + ", "@
            + decimal_text(freq as nat) + ", "@ + decimal_text(amplitude as nat),
        Instruction::JAM { lfo } => "JAM "@ + lfo_text(lfo),
        Instruction::CHO { mode, lfo, flags, addr } => "CHO "@ + cho_mode_text(mode) + ", "@
            + lfo_text(lfo) + cho_flags_text(flags) + ", "@ + decimal_text(addr as nat),
    }
}

/// A statement as a line of assembly text.
pub open spec fn statement_text(statement: Statement) -> Seq<char> {
    match statement {
        Statement::Instruction(inst) => instruction_text(inst) + seq!['\n'],
        Statement::Label(label) => label@ + ":\n"@,
        Statement::LabeledInstruction { label, instruction } => label@ + ": "@ + instruction_text(
            instruction,
        ) + seq!['\n'],
    }
}

/// The statements as assembly text, a line each.
pub open spec fn program_text(statements: Seq<Statement>) -> Seq<char>
    decreases statements.len(),
{
    if statements.len() == 0 {
        Seq::empty()
    } else {
        program_text(statements.drop_last()) + statement_text(statements.last())
    }
}

/// The instructions as assembly text, a line each.
pub open spec fn listing_text(instructions: Seq<Instruction>) -> Seq<char> {
    program_text(Seq::new(instructions.len(), |i: int| Statement::Instruction(instructions[i])))
}

/// FV-1 program disassembler.
pub struct Disassembler {
    /// Whether the trailing run of NOP words is left out.
    pub strip_nops: bool,
}

impl Disassembler {
    /// Create a new disassembler, which strips trailing NOPs.
    pub fn new() -> (disassembler: Disassembler)
        ensures
            disassembler.strip_nops,
    {
        Disassembler { strip_nops: true }
    }

    /// Control whether to strip trailing NOPs.
    pub fn with_strip_nops(self, strip: bool) -> (disassembler: Disassembler)
        ensures
            disassembler.strip_nops == strip,
    {
        let mut disassembler = self;
        disassembler.strip_nops = strip;
        disassembler
    }

    /// Disassemble a binary into a Program of instructions without labels.
    #[verifier::rlimit(40)]
    pub fn disassemble(&self, binary: &Binary) -> (r: Result<Program, CodegenError>)
        ensures
            match disassemble_spec(binary@, self.strip_nops) {
                Ok(instructions) => {
                    &&& r is Ok
                    &&& r->Ok_0.statements@ == Seq::new(
                        instructions.len(),
                        |i: int| Statement::Instruction(instructions[i]),
                    )
                    &&& r->Ok_0.directives@.len() == 0
                    &&& r->Ok_0.labels@ == Map::<Seq<char>, usize>::empty()
                },
                Err(e) => r is Err && r->Err_0 == e,
            },
    {
        let words = binary.instructions();
        let mut program = Program::new();

        // Find where the trailing run of NOP words begins
        let mut cut: usize = words.len();
        proof {
            assert(words@.take(cut as int) =~= words@);
        }
        if self.strip_nops {
            while cut > 0 && words[cut - 1] == 0x00000000
                invariant
                    cut <= words@.len(),
                    tail_start(words@.take(cut as int)) == tail_start(words@),
                decreases cut,
            {
                proof {
                    assert(words@.take(cut as int).drop_last() =~= words@.take(cut - 1));
                }
                cut = cut - 1;
            }
        }
        let ghost kept = kept_words(words@, self.strip_nops);
        proof {
            assert(words@.take(words@.len() as int) =~= words@);
            assert(kept =~= words@.take(cut as int));
            reveal_with_fuel(first_decode_error, 2);
            assert(kept.take(0).len() == 0);
        }

        let mut idx: usize = 0;
        while idx < cut
            invariant
                idx <= cut <= words@.len(),
                kept == words@.take(cut as int),
                kept == kept_words(binary@, self.strip_nops),
                first_decode_error(kept.take(idx as int)) is None,
                program.statements@.len() == idx,
                forall|j: int|
                    0 <= j < idx ==> #[trigger] program.statements@[j] == Statement::Instruction(
                        decode_spec(kept[j])->Ok_0,
                    ),
                program.directives@.len() == 0,
                program.labels@ == Map::<Seq<char>, usize>::empty(),
            decreases cut - idx,
        {
            let decoded = decode_instruction(words[idx]);
            proof {
                lemma_decode_error_step(kept, idx as int);
            }
            match decoded {
                Ok(inst) => {
                    program.add_statement(Statement::Instruction(inst));
                },
                Err(e) => {
                    proof {
                        lemma_decode_error_stays(kept, idx + 1);
                    }
                    return Err(e);
                },
            }
            idx += 1;
        }
        proof {
            assert(kept.take(idx as int) =~= kept);
            assert(program.statements@ =~= Seq::new(
                kept.len(),
                |i: int| Statement::Instruction(decode_spec(kept[i])->Ok_0),
            ));
        }
        Ok(program)
    }

    /// Disassemble to assembly source code: a line for each instruction.
    pub fn disassemble_to_source(&self, binary: &Binary) -> (r: Result<String, CodegenError>)
        ensures
            match disassemble_spec(binary@, self.strip_nops) {
                Ok(instructions) => r is Ok && r->Ok_0@ == listing_text(instructions),
                Err(e) => r is Err && r->Err_0 == e,
            },
    {
        let program = self.disassemble(binary)?;
        Ok(format_program(&program))
    }
}

impl Default for Disassembler {
    fn default() -> (disassembler: Disassembler)
        ensures
            disassembler.strip_nops,
    {
        Disassembler::new()
    }
}

/// Format a program as assembly source code.
#[verifier::rlimit(40)]
pub fn format_program(program: &Program) -> (source: String)
    ensures
        source@ == program_text(program.statements@),
{
    let mut source = String::new();
    let mut i: usize = 0;
    while i < program.statements.len()
        invariant
            i <= program.statements@.len(),
            source@ == program_text(program.statements@.take(i as int)),
        decreases program.statements@.len() - i,
    {
        let ghost before = source@;
        proof {
            assert(program.statements@.take(i + 1).drop_last() =~= program.statements@.take(
                i as int,
            ));
            assert(program.statements@.take(i + 1).last() == program.statements@[i as int]);
        }
        match &program.statements[i] {
            Statement::Instruction(inst) => {
                let line = format_instruction(inst);
                push_text(&mut source, line.as_str());
                push_char(&mut source, '\n');
                proof {
                    assert(source@ =~= before + (instruction_text(*inst) + seq!['\n']));
                }
            },
            Statement::Label(label) => {
                push_text(&mut source, label.as_str());
                push_text(&mut source, ":\n");
                proof {
                    assert(source@ =~= before + (label@ + ":\n"@));
                }
            },
            Statement::LabeledInstruction { label, instruction } => {
                push_text(&mut source, label.as_str());
                push_text(&mut source, ": ");
                let line = format_instruction(instruction);
                push_text(&mut source, line.as_str());
                push_char(&mut source, '\n');
                proof {
                    assert(source@ =~= before + (label@ + ": "@ + instruction_text(*instruction)
                        + seq!['\n']));
                }
            },
        }
        i += 1;
    }
    proof {
        assert(program.statements@.take(i as int) =~= program.statements@);
    }
    source
}

/// A mnemonic, a register, a comma and a coefficient.
fn format_reg_coeff(mnemonic: &str, reg: &Register, coeff: Float32) -> (s: String)
    ensures
        s@ == mnemonic@ + register_text(*reg) + ", "@ + display_text(coeff),
{
    let mut s = String::new();
    push_text(&mut s, mnemonic);
    push_text(&mut s, format_register(reg).as_str());
    push_text(&mut s, ", ");
    push_float(&mut s, coeff);
    proof {
        assert(s@ =~= mnemonic@ + register_text(*reg) + ", "@ + display_text(coeff));
    }
    s
}

/// A mnemonic, a delay address, a comma and a coefficient.
fn format_addr_coeff(mnemonic: &str, addr: u16, coeff: Float32) -> (s: String)
    ensures
        s@ == mnemonic@ + decimal_text(addr as nat) + ", "@ + display_text(coeff),
{
    let mut s = String::new();
    push_text(&mut s, mnemonic);
    push_decimal(&mut s, addr as u128);
    push_text(&mut s, ", ");
    push_float(&mut s, coeff);
    proof {
        assert(s@ =~= mnemonic@ + decimal_text(addr as nat) + ", "@ + display_text(coeff));
    }
    s
}

/// A mnemonic, a coefficient, a comma and an offset.
fn format_coeff_offset(mnemonic: &str, coeff: Float32, offset: Float32) -> (s: String)
    ensures
        s@ == mnemonic@ + display_text(coeff) + ", "@ + display_text(offset),
{
    let mut s = String::new();
    push_text(&mut s, mnemonic);
    push_float(&mut s, coeff);
    push_text(&mut s, ", ");
    push_float(&mut s, offset);
    proof {
        assert(s@ =~= mnemonic@ + display_text(coeff) + ", "@ + display_text(offset));
    }
    s
}

/// A mnemonic with `0x` and a mask in at least six hexadecimal digits.
fn format_mask(mnemonic: &str, mask: u32) -> (s: String)
    ensures
        s@ == mnemonic@ + hex_text(mask as nat, 6),
{
    let mut s = String::new();
    push_text(&mut s, mnemonic);
    push_hex(&mut s, mask as u64, 6);
    proof {
        assert(s@ =~= mnemonic@ + hex_text(mask as nat, 6));
    }
    s
}

/// A mnemonic and one name.
fn format_named(mnemonic: &str, name: &str) -> (s: String)
    ensures
        s@ == mnemonic@ + name@,
{
    let mut s = String::new();
    push_text(&mut s, mnemonic);
    push_text(&mut s, name);
    proof {
        assert(s@ =~= mnemonic@ + name@);
    }
    s
}

/// The text of an `RMPA` instruction.
fn format_rmpa(coeff: Float32) -> (s: String)
    ensures
        s@ == "RMPA "@ + display_text(coeff),
{
    let mut s = String::new();
    push_text(&mut s, "RMPA ");
    push_float(&mut s, coeff);
    proof {
        assert(s@ =~= "RMPA "@ + display_text(coeff));
    }
    s
}

/// The text of a `SKP` instruction.
fn format_skip(condition: &SkipCondition, offset: i8) -> (s: String)
    ensures
        s@ == "SKP "@ + skip_condition_text(*condition) + ", "@ + signed_decimal_text(
            offset as int,
        ),
{
    let mut s = String::new();
    push_text(&mut s, "SKP ");
    push_text(&mut s, format_skip_condition(condition));
    push_text(&mut s, ", ");
    push_signed_decimal(&mut s, offset as i64);
    proof {
        assert(s@ =~= "SKP "@ + skip_condition_text(*condition) + ", "@ + signed_decimal_text(
            offset as int,
        ));
    }
    s
}

/// The text of a `WLDS` instruction.
fn format_wlds(lfo: &Lfo, freq: u16, amplitude: u16) -> (s: String)
    ensures
        s@ == "WLDS "@ + lfo_text(*lfo) + ", "@ + decimal_text(freq as nat) + ", "@ + decimal_text(
            amplitude as nat,
        ),
{
    let mut s = String::new();
    push_text(&mut s, "WLDS ");
    push_text(&mut s, format_lfo(lfo));
    push_text(&mut s, ", ");
    push_decimal(&mut s, freq as u128);
    push_text(&mut s, ", ");
    push_decimal(&mut s, amplitude as u128);
    proof {
        assert(s@ =~= "WLDS "@ + lfo_text(*lfo) + ", "@ + decimal_text(freq as nat) + ", "@
            + decimal_text(amplitude as nat));
    }
    s
}

/// The text of a `CHO` instruction: the mode, the LFO, the flags that are
/// set and the address.
fn format_cho(mode: &ChoMode, lfo: &Lfo, flags: &crate::instruction::ChoFlags, addr: u16) -> (s:
    String)
    ensures
        s@ == "CHO "@ + cho_mode_text(*mode) + ", "@ + lfo_text(*lfo) + cho_flags_text(*flags)
            + ", "@ + decimal_text(addr as nat),
{
    let mut s = String::new();
    push_text(&mut s, "CHO ");
    push_text(&mut s, format_cho_mode(mode));
    push_text(&mut s, ", ");
    push_text(&mut s, format_lfo(lfo));
    let ghost head = s@;
    if flags.rptr2 {
        push_text(&mut s, ", RPTR2");
    }
    if flags.na {
        push_text(&mut s, ", NA");
    }
    if flags.compc {
        push_text(&mut s, ", COMPC");
    }
    if flags.compa {
        push_text(&mut s, ", COMPA");
    }
    if flags.rptr2_select {
        push_text(&mut s, ", RPTR2_SEL");
    }
    proof {
        assert(s@ =~= head + cho_flags_text(*flags));
    }
    push_text(&mut s, ", ");
    push_decimal(&mut s, addr as u128);
    proof {
        assert(s@ =~= "CHO "@ + cho_mode_text(*mode) + ", "@ + lfo_text(*lfo) + cho_flags_text(
            *flags,
        ) + ", "@ + decimal_text(addr as nat));
    }
    s
}

/// Format a single instruction as assembly text.
#[verifier::rlimit(40)]
pub fn format_instruction(inst: &Instruction) -> (s: String)
    ensures
        s@ == instruction_text(*inst),
{
    match inst {
        Instruction::RDAX { reg, coeff } => format_reg_coeff("RDAX ", reg, *coeff),
        Instruction::RDA { addr, coeff } => format_addr_coeff("RDA ", *addr, *coeff),
        Instruction::RMPA { coeff } => format_rmpa(*coeff),
        Instruction::WRAX { reg, coeff } => format_reg_coeff("WRAX ", reg, *coeff),
        Instruction::WRA { addr, coeff } => format_addr_coeff("WRA ", *addr, *coeff),
        Instruction::WRAP { addr, coeff } => format_addr_coeff("WRAP ", *addr, *coeff),
        Instruction::MULX { reg } => format_named("MULX ", format_register(reg).as_str()),
        Instruction::RDFX { reg, coeff } => format_reg_coeff("RDFX ", reg, *coeff),
        Instruction::RDFX2 { reg, coeff } => format_reg_coeff("RDFX2 ", reg, *coeff),
        Instruction::LDAX { reg } => format_named("LDAX ", format_register(reg).as_str()),
        Instruction::ABSA => "ABSA".to_owned(),
        Instruction::SOF { coeff, offset } => format_coeff_offset("SOF ", *coeff, *offset),
        Instruction::AND { mask } => format_mask("AND 0x", *mask),
        Instruction::OR { mask } => format_mask("OR 0x", *mask),
        Instruction::XOR { mask } => format_mask("XOR 0x", *mask),
        Instruction::SHL => "SHL".to_owned(),
        Instruction::SHR => "SHR".to_owned(),
        Instruction::CLR => "CLR".to_owned(),
        Instruction::NOP => "NOP".to_owned(),
        Instruction::EXP { coeff, offset } => format_coeff_offset("EXP ", *coeff, *offset),
        Instruction::LOG { coeff, offset } => format_coeff_offset("LOG ", *coeff, *offset),
        Instruction::SKP { condition, offset } => format_skip(condition, *offset),
        Instruction::WLDS { lfo, freq, amplitude } => format_wlds(lfo, *freq, *amplitude),
        Instruction::JAM { lfo } => format_named("JAM ", format_lfo(lfo)),
        Instruction::CHO { mode, lfo, flags, addr } => format_cho(mode, lfo, flags, *addr),
    }
}

/// The canonical name of a register.
pub fn format_register(reg: &Register) -> (s: String)
    ensures
        s@ == register_text(*reg),
{
    match reg {
        Register::ACC => "ACC".to_owned(),
        Register::ADCL => "ADCL".to_owned(),
        Register::ADCR => "ADCR".to_owned(),
        Register::DACL => "DACL".to_owned(),
        Register::DACR => "DACR".to_owned(),
        Register::REG(n) => {
            let mut s = String::new();
            push_text(&mut s, "REG");
            push_decimal(&mut s, *n as u128);
            proof {
                assert(s@ =~= "REG"@ + decimal_text(*n as nat));
            }
            s
        },
        Register::ADDR_PTR => "ADDR_PTR".to_owned(),
        Register::LR => "LR".to_owned(),
        Register::SIN0_RATE => "SIN0_RATE".to_owned(),
        Register::SIN0_RANGE => "SIN0_RANGE".to_owned(),
        Register::SIN1_RATE => "SIN1_RATE".to_owned(),
        Register::SIN1_RANGE => "SIN1_RANGE".to_owned(),
        Register::RMP0_RATE => "RMP0_RATE".to_owned(),
        Register::RMP0_RANGE => "RMP0_RANGE".to_owned(),
        Register::RMP1_RATE => "RMP1_RATE".to_owned(),
        Register::RMP1_RANGE => "RMP1_RANGE".to_owned(),
    }
}

/// The canonical name of a skip condition.
pub fn format_skip_condition(cond: &SkipCondition) -> (s: &'static str)
    ensures
        s@ == skip_condition_text(*cond),
{
    match cond {
        SkipCondition::RUN => "RUN",
        SkipCondition::NEG => "NEG",
        SkipCondition::GEZ => "GEZ",
        SkipCondition::ZRO => "ZRO",
        SkipCondition::ZRC => "ZRC",
    }
}

/// The canonical name of an LFO.
pub fn format_lfo(lfo: &Lfo) -> (s: &'static str)
    ensures
        s@ == lfo_text(*lfo),
{
    match lfo {
        Lfo::SIN0 => "SIN0",
        Lfo::SIN1 => "SIN1",
        Lfo::RMP0 => "RMP0",
        Lfo::RMP1 => "RMP1",
    }
}

/// The canonical name of a CHO mode.
pub fn format_cho_mode(mode: &ChoMode) -> (s: &'static str)
    ensures
        s@ == cho_mode_text(*mode),
{
    match mode {
        ChoMode::RDA => "RDA",
        ChoMode::SOF => "SOF",
        ChoMode::RDAL => "RDAL",
    }
}

} // verus!
