//! Decoding undoes encoding.
//!
//! A machine word has room for less than an instruction value can hold: a
//! coefficient is quantised, a mask is cut to 24 bits, a skip offset to six.
//! An instruction is canonical when nothing is lost, and decoding the word
//! of a canonical instruction gives the instruction back.

use crate::codegen::decoder::{
    cho_flags_of, decode_spec, register_of, s10_offset, s114_coefficient,
};
use crate::codegen::encoder::{
    cho_flags_code, cho_mode_code, encode_spec, lfo_code, opcode, register_code, s10_field,
    s10_result, s114_field, s114_result, skip_condition_code, MAX_ADDRESS,
};
use crate::codegen::assembler::{assemble_spec, lemma_assemble_pads};
use crate::codegen::disassembler::{disassemble_spec, first_decode_error, tail_start};
use crate::constants::MAX_INSTRUCTIONS;
use crate::error::CodegenError;
use crate::float32::Float32;
use crate::instruction::Instruction;
use crate::register::Register;
use vstd::prelude::*;

verus! {

/// The register has a code of its own.
pub open spec fn register_is_encodable(reg: Register) -> bool {
    match reg {
        Register::ADCL => true,
        Register::ADCR => true,
        Register::DACL => true,
        Register::DACR => true,
        Register::ADDR_PTR => true,
        Register::LR => true,
        Register::REG(n) => n < 32,
        _ => false,
    }
}

/// The value is a multiple of `2^-frac_bits` whose count of such units lies
/// in `[low, high)`: quantising it loses nothing.
pub open spec fn is_exact(value: Float32, frac_bits: nat, low: int, high: int) -> bool {
    &&& low <= value.quantized(frac_bits) < high
    &&& value == Float32::of_fixed(value.quantized(frac_bits), frac_bits)
}

/// A coefficient that a fifteen-bit S1.14 field holds exactly.
pub open spec fn is_s114_exact(value: Float32) -> bool {
    value.within(1) && is_exact(value, 14, -0x4000, 0x4000)
}

/// A coefficient that the eleven-bit field of a delay instruction holds
/// exactly: the field has no room for the sign.
pub open spec fn is_short_s114_exact(value: Float32) -> bool {
    value.within(1) && is_exact(value, 14, 0, 0x800)
}

/// An offset that an eleven-bit S.10 field holds exactly.
pub open spec fn is_s10_exact(value: Float32) -> bool {
    value.within(0) && is_exact(value, 9, -0x200, 0x200)
}

/// The operands of the instruction fit the fields of its word without loss,
/// and the word is not the all-zero word of `NOP` unless the instruction is
/// `NOP`.
pub open spec fn is_canonical(inst: Instruction) -> bool {
    match inst {
        Instruction::RDAX { reg, coeff } => register_is_encodable(reg) && is_s114_exact(coeff) && !(
        reg == Register::ADCL && coeff.quantized(14) == 0),
        Instruction::RDA { addr, coeff } => addr <= MAX_ADDRESS && is_short_s114_exact(coeff),
        Instruction::RMPA { coeff } => is_s114_exact(coeff),
        Instruction::WRAX { reg, coeff } => register_is_encodable(reg) && is_s114_exact(coeff),
        Instruction::WRA { addr, coeff } => addr <= MAX_ADDRESS && is_short_s114_exact(coeff),
        Instruction::WRAP { addr, coeff } => addr <= MAX_ADDRESS && is_short_s114_exact(coeff),
        Instruction::MULX { reg } => register_is_encodable(reg),
        Instruction::RDFX { reg, coeff } => register_is_encodable(reg) && is_s114_exact(coeff),
        Instruction::RDFX2 { reg, coeff } => register_is_encodable(reg) && is_s114_exact(coeff),
        Instruction::LDAX { reg } => register_is_encodable(reg),
        Instruction::SOF { coeff, offset } => is_s114_exact(coeff) && is_s10_exact(offset),
        Instruction::EXP { coeff, offset } => is_s114_exact(coeff) && is_s10_exact(offset),
        Instruction::LOG { coeff, offset } => is_s114_exact(coeff) && is_s10_exact(offset),
        Instruction::AND { mask } => mask < 0x100_0000,
        Instruction::OR { mask } => mask < 0x100_0000,
        Instruction::XOR { mask } => mask < 0x100_0000,
        Instruction::SKP { condition, offset } => 0 <= offset < 64,
        Instruction::WLDS { lfo, freq, amplitude } => freq < 512 && amplitude < 512,
        Instruction::CHO { mode, lfo, flags, addr } => addr <= MAX_ADDRESS,
        _ => true,
    }
}

/// Every fixed-point number that a fifteen-bit S1.14 field can hold is held
/// exactly, and so is every number that the other fields can hold.
pub proof fn lemma_fixed_point_is_exact(k: int)
    ensures
        -0x4000 <= k < 0x4000 ==> is_s114_exact(Float32::of_fixed(k, 14)),
        0 <= k < 0x800 ==> is_short_s114_exact(Float32::of_fixed(k, 14)),
        -0x200 <= k < 0x200 ==> is_s10_exact(Float32::of_fixed(k, 9)),
{
    vstd::arithmetic::power2::lemma2_to64();
    if -0x4000 <= k < 0x4000 {
        crate::float32::lemma_of_fixed_exact(k, 14);
        vstd::arithmetic::power2::lemma_pow2_adds(15, 135);
        vstd::arithmetic::power2::lemma_pow2_pos(135);
        let unit = vstd::arithmetic::power2::pow2(135) as int;
        assert(-(0x8000 * unit) < k * unit < 0x8000 * unit) by (nonlinear_arith)
            requires
                -0x4000 <= k < 0x4000,
                unit > 0,
        ;
    }
    if -0x200 <= k < 0x200 {
        crate::float32::lemma_of_fixed_exact(k, 9);
        vstd::arithmetic::power2::lemma_pow2_adds(9, 140);
        vstd::arithmetic::power2::lemma_pow2_pos(140);
        let unit = vstd::arithmetic::power2::pow2(140) as int;
        assert(-(0x200 * unit) <= k * unit < 0x200 * unit) by (nonlinear_arith)
            requires
                -0x200 <= k < 0x200,
                unit > 0,
        ;
    }
}

/// Three fields packed behind an opcode can be read back.
proof fn lemma_unpack_reg_coeff(op: u32, r: u32, c: u32)
    by (bit_vector)
    requires
        op < 32,
        r < 64,
        c < 0x8000,
    ensures
        (((op << 27) | (r << 21) | (c << 6)) >> 27) & 0x1F == op,
        (((op << 27) | (r << 21) | (c << 6)) >> 21) & 0x3F == r,
        (((op << 27) | (r << 21) | (c << 6)) >> 6) & 0x7FFF == c,
        ((op << 27) | (r << 21) | (c << 6)) == 0 <==> (op == 0 && r == 0 && c == 0),
        (((op << 27) | (r << 21)) >> 27) & 0x1F == op,
        (((op << 27) | (r << 21)) >> 21) & 0x3F == r,
        ((op << 27) | (r << 21)) == 0 <==> (op == 0 && r == 0),
        ((op << 27) >> 27) & 0x1F == op,
        (op << 27) == 0 <==> op == 0,
        (((op << 27) | c) >> 27) & 0x1F == op,
        ((op << 27) | c) & 0x7F_FFFF == c,
        ((op << 27) | c) == 0 <==> (op == 0 && c == 0),
{
}

/// An address and a short coefficient packed behind an opcode can be read back.
proof fn lemma_unpack_addr_coeff(op: u32, a: u32, c: u32)
    by (bit_vector)
    requires
        op < 32,
        a < 0x10000,
        c < 0x8000,
    ensures
        (((op << 27) | (a << 11) | (c & 0x7FF)) >> 27) & 0x1F == op,
        (((op << 27) | (a << 11) | (c & 0x7FF)) >> 11) & 0xFFFF == a,
        ((op << 27) | (a << 11) | (c & 0x7FF)) & 0x7FF == c & 0x7FF,
        c < 0x800 ==> c & 0x7FF == c,
        op != 0 ==> ((op << 27) | (a << 11) | (c & 0x7FF)) != 0,
{
}

/// A coefficient and an offset packed behind an opcode can be read back.
proof fn lemma_unpack_coeff_offset(op: u32, c: u32, d: u32)
    by (bit_vector)
    requires
        op < 32,
        c < 0x8000,
        d < 0x800,
    ensures
        (((op << 27) | (c << 11) | d) >> 27) & 0x1F == op,
        (((op << 27) | (c << 11) | d) >> 11) & 0xFFFF == c,
        ((op << 27) | (c << 11) | d) & 0x7FF == d,
        op != 0 ==> ((op << 27) | (c << 11) | d) != 0,
{
}

/// A mask packed behind an opcode can be read back.
proof fn lemma_unpack_mask(op: u32, mask: u32)
    by (bit_vector)
    requires
        op < 32,
        mask < 0x100_0000,
    ensures
        (((op << 27) | (mask & 0xFF_FFFF)) >> 27) & 0x1F == op,
        ((op << 27) | (mask & 0xFF_FFFF)) & 0xFF_FFFF == mask,
        op != 0 ==> ((op << 27) | (mask & 0xFF_FFFF)) != 0,
{
}

/// The fields of a skip instruction can be read back.
proof fn lemma_unpack_skip(op: u32, cond: u32, offset: u32)
    by (bit_vector)
    requires
        op < 32,
        cond < 8,
        offset < 64,
    ensures
        (((op << 27) | (cond << 24) | ((offset & 0x3F) << 18)) >> 27) & 0x1F == op,
        (((op << 27) | (cond << 24) | ((offset & 0x3F) << 18)) >> 24) & 0x07 == cond,
        (((op << 27) | (cond << 24) | ((offset & 0x3F) << 18)) >> 18) & 0x3F == offset,
        op != 0 ==> ((op << 27) | (cond << 24) | ((offset & 0x3F) << 18)) != 0,
{
}

/// The fields of the LFO instructions can be read back.
proof fn lemma_unpack_lfo(op: u32, lfo: u32, freq: u32, amp: u32)
    by (bit_vector)
    requires
        op < 32,
        lfo < 4,
        freq < 512,
        amp < 512,
    ensures
        (((op << 27) | (lfo << 25) | ((freq & 0x1FF) << 9) | (amp & 0x1FF)) >> 27) & 0x1F == op,
        (((op << 27) | (lfo << 25) | ((freq & 0x1FF) << 9) | (amp & 0x1FF)) >> 25) & 0x03 == lfo,
        (((op << 27) | (lfo << 25) | ((freq & 0x1FF) << 9) | (amp & 0x1FF)) >> 9) & 0x1FF == freq,
        ((op << 27) | (lfo << 25) | ((freq & 0x1FF) << 9) | (amp & 0x1FF)) & 0x1FF == amp,
        op != 0 ==> ((op << 27) | (lfo << 25) | ((freq & 0x1FF) << 9) | (amp & 0x1FF)) != 0,
        (((op << 27) | (lfo << 25)) >> 27) & 0x1F == op,
        (((op << 27) | (lfo << 25)) >> 25) & 0x03 == lfo,
        op != 0 ==> ((op << 27) | (lfo << 25)) != 0,
{
}

/// The fields of a CHO instruction can be read back.
proof fn lemma_unpack_cho(op: u32, mode: u32, lfo: u32, flags: u32, addr: u32)
    by (bit_vector)
    requires
        op < 32,
        mode < 4,
        lfo < 4,
        flags < 64,
        addr < 0x10000,
    ensures
        (((op << 27) | (mode << 24) | (lfo << 22) | (flags << 16) | addr) >> 27) & 0x1F == op,
        (((op << 27) | (mode << 24) | (lfo << 22) | (flags << 16) | addr) >> 24) & 0x03 == mode,
        (((op << 27) | (mode << 24) | (lfo << 22) | (flags << 16) | addr) >> 22) & 0x03 == lfo,
        (((op << 27) | (mode << 24) | (lfo << 22) | (flags << 16) | addr) >> 16) & 0x3F == flags,
        ((op << 27) | (mode << 24) | (lfo << 22) | (flags << 16) | addr) & 0xFFFF == addr,
        op != 0 ==> ((op << 27) | (mode << 24) | (lfo << 22) | (flags << 16) | addr) != 0,
{
}

/// How the sign bit and the low bits of a field read.
proof fn lemma_sign_bits(f: u32)
    by (bit_vector)
    ensures
        f < 0x8000 ==> f & 0x7FFF == f,
        f < 0x8000 ==> (f & 0x4000 != 0 <==> f >= 0x4000),
        f < 0x800 ==> f & 0x7FF == f,
        f < 0x800 ==> (f & 0x400 != 0 <==> f >= 0x400),
        f < 0x800 ==> f & 0x4000 == 0,
{
}

/// A register with a code of its own decodes from that code.
pub proof fn lemma_register_round_trip(reg: Register)
    requires
        register_is_encodable(reg),
    ensures
        register_of(register_code(reg)) == Ok::<Register, CodegenError>(reg),
        register_code(reg) < 48,
        register_code(reg) == 0 <==> reg == Register::ADCL,
{
}

/// An S1.14 field that holds a coefficient exactly gives it back.
pub proof fn lemma_s114_round_trip(value: Float32)
    requires
        is_s114_exact(value),
    ensures
        s114_result(value) == Ok::<u32, CodegenError>(s114_field(value)),
        s114_field(value) < 0x8000,
        s114_coefficient(s114_field(value)) == value,
        s114_field(value) == 0 <==> value.quantized(14) == 0,
{
    lemma_sign_bits(s114_field(value));
    crate::codegen::decoder::lemma_field_is_exact(s114_field(value));
}

/// The short S1.14 field of a delay instruction gives back a coefficient
/// that it holds exactly.
pub proof fn lemma_short_s114_round_trip(value: Float32)
    requires
        is_short_s114_exact(value),
    ensures
        s114_result(value) == Ok::<u32, CodegenError>(s114_field(value)),
        s114_field(value) < 0x800,
        s114_coefficient(s114_field(value)) == value,
{
    lemma_sign_bits(s114_field(value));
    crate::codegen::decoder::lemma_field_is_exact(s114_field(value));
}

/// An S.10 field that holds an offset exactly gives it back.
pub proof fn lemma_s10_round_trip(value: Float32)
    requires
        is_s10_exact(value),
    ensures
        s10_result(value) == Ok::<u32, CodegenError>(s10_field(value)),
        s10_field(value) < 0x800,
        s10_offset(s10_field(value)) == value,
{
    lemma_sign_bits(s10_field(value));
    crate::codegen::decoder::lemma_field_is_exact(s10_field(value));
}

/// Decoding undoes encoding: a canonical instruction has a machine word,
/// and that word decodes to the instruction.
#[verifier::rlimit(40)]
pub proof fn lemma_decode_inverts_encode(inst: Instruction)
    requires
        is_canonical(inst),
    ensures
        encode_spec(inst) is Ok,
        decode_spec(encode_spec(inst)->Ok_0) == Ok::<Instruction, CodegenError>(inst),
{
    reveal(encode_spec);
    let op = opcode(inst);
    match inst {
        Instruction::RDAX { reg, coeff } => {
            lemma_reg_coeff_round_trip(op, reg, coeff);
        },
        Instruction::WRAX { reg, coeff } => {
            lemma_reg_coeff_round_trip(op, reg, coeff);
        },
        Instruction::RDFX { reg, coeff } => {
            lemma_reg_coeff_round_trip(op, reg, coeff);
        },
        Instruction::RDFX2 { reg, coeff } => {
            lemma_reg_coeff_round_trip(op, reg, coeff);
        },
        Instruction::MULX { reg } => {
            lemma_register_round_trip(reg);
            lemma_unpack_reg_coeff(op, register_code(reg), 0);
        },
        Instruction::LDAX { reg } => {
            lemma_register_round_trip(reg);
            lemma_unpack_reg_coeff(op, register_code(reg), 0);
        },
        Instruction::RDA { addr, coeff } => {
            lemma_short_s114_round_trip(coeff);
            lemma_unpack_addr_coeff(op, addr as u32, s114_field(coeff));
        },
        Instruction::WRA { addr, coeff } => {
            lemma_short_s114_round_trip(coeff);
            lemma_unpack_addr_coeff(op, addr as u32, s114_field(coeff));
        },
        Instruction::WRAP { addr, coeff } => {
            lemma_short_s114_round_trip(coeff);
            lemma_unpack_addr_coeff(op, addr as u32, s114_field(coeff));
        },
        Instruction::RMPA { coeff } => {
            lemma_s114_round_trip(coeff);
            lemma_unpack_reg_coeff(op, 0, s114_field(coeff));
        },
        Instruction::SOF { coeff, offset } => {
            lemma_coeff_offset_round_trip(op, coeff, offset);
        },
        Instruction::EXP { coeff, offset } => {
            lemma_coeff_offset_round_trip(op, coeff, offset);
        },
        Instruction::LOG { coeff, offset } => {
            lemma_coeff_offset_round_trip(op, coeff, offset);
        },
        Instruction::AND { mask } => {
            lemma_unpack_mask(op, mask);
        },
        Instruction::OR { mask } => {
            lemma_unpack_mask(op, mask);
        },
        Instruction::XOR { mask } => {
            lemma_unpack_mask(op, mask);
        },
        Instruction::SKP { condition, offset } => {
            lemma_unpack_skip(op, skip_condition_code(condition), offset as u32);
        },
        Instruction::WLDS { lfo, freq, amplitude } => {
            lemma_unpack_lfo(op, lfo_code(lfo), freq as u32, amplitude as u32);
        },
        Instruction::JAM { lfo } => {
            lemma_unpack_lfo(op, lfo_code(lfo), 0, 0);
        },
        Instruction::CHO { mode, lfo, flags, addr } => {
            let f = cho_flags_code(flags);
            lemma_unpack_cho(op, cho_mode_code(mode), lfo_code(lfo), f, addr as u32);
            lemma_flag_values(flags);
        },
        Instruction::ABSA => {
            lemma_unpack_reg_coeff(op, 0, 0);
        },
        Instruction::SHL => {
            lemma_unpack_reg_coeff(op, 0, 0);
        },
        Instruction::SHR => {
            lemma_unpack_reg_coeff(op, 0, 0);
        },
        Instruction::CLR => {
            lemma_unpack_reg_coeff(op, 0, 0);
        },
        Instruction::NOP => {},
    }
}

/// The round trip of a word that holds a register and a coefficient.
proof fn lemma_reg_coeff_round_trip(op: u32, reg: Register, coeff: Float32)
    requires
        op < 32,
        register_is_encodable(reg),
        is_s114_exact(coeff),
    ensures
        s114_result(coeff) == Ok::<u32, CodegenError>(s114_field(coeff)),
        ({
            let w = (op << 27) | (register_code(reg) << 21) | (s114_field(coeff) << 6);
            &&& (w >> 27) & 0x1F == op
            &&& register_of((w >> 21) & 0x3F) == Ok::<Register, CodegenError>(reg)
            &&& s114_coefficient((w >> 6) & 0x7FFF) == coeff
            &&& w == 0 <==> (op == 0 && reg == Register::ADCL && coeff.quantized(14) == 0)
        }),
{
    lemma_register_round_trip(reg);
    lemma_s114_round_trip(coeff);
    lemma_unpack_reg_coeff(op, register_code(reg), s114_field(coeff));
}

/// The round trip of a word that holds a coefficient and an offset.
proof fn lemma_coeff_offset_round_trip(op: u32, coeff: Float32, offset: Float32)
    requires
        0 < op < 32,
        is_s114_exact(coeff),
        is_s10_exact(offset),
    ensures
        s114_result(coeff) == Ok::<u32, CodegenError>(s114_field(coeff)),
        s10_result(offset) == Ok::<u32, CodegenError>(s10_field(offset)),
        ({
            let w = (op << 27) | (s114_field(coeff) << 11) | s10_field(offset);
            &&& (w >> 27) & 0x1F == op
            &&& s114_coefficient((w >> 11) & 0xFFFF) == coeff
            &&& s10_offset(w & 0x7FF) == offset
            &&& w != 0
        }),
{
    lemma_s114_round_trip(coeff);
    lemma_s10_round_trip(offset);
    lemma_unpack_coeff_offset(op, s114_field(coeff), s10_field(offset));
}

/// The flag field of a CHO instruction gives the flags back.
proof fn lemma_flag_values(flags: crate::instruction::ChoFlags)
    ensures
        cho_flags_code(flags) < 64,
        cho_flags_of(cho_flags_code(flags)) == flags,
{
    let f = cho_flags_code(flags);
    assert(f < 64 && f % 2 == 0);
    assert(cho_flags_of(f) == flags) by {
        lemma_flag_from_sum(
            flags.rptr2,
            flags.na,
            flags.compc,
            flags.compa,
            flags.rptr2_select,
        );
    }
}

/// A sum of distinct powers of two has the bits of its terms.
proof fn lemma_flag_from_sum(a: bool, b: bool, c: bool, d: bool, e: bool)
    by (bit_vector)
    ensures
        ({
            let f: u32 = (if a { 32u32 } else { 0u32 }) | (if b { 16u32 } else { 0u32 }) | (if c {
                8u32
            } else {
                0u32
            }) | (if d { 4u32 } else { 0u32 }) | (if e { 2u32 } else { 0u32 });
            &&& (f & 32 != 0) == a
            &&& (f & 16 != 0) == b
            &&& (f & 8 != 0) == c
            &&& (f & 4 != 0) == d
            &&& (f & 2 != 0) == e
            &&& f == (if a { 32u32 } else { 0u32 }) + (if b { 16u32 } else { 0u32 }) + (if c {
                8u32
            } else {
                0u32
            }) + (if d { 4u32 } else { 0u32 }) + (if e { 2u32 } else { 0u32 })
        }),
{
}

/// The word of a canonical instruction other than `NOP` is not zero.
pub proof fn lemma_word_is_not_zero(inst: Instruction)
    requires
        is_canonical(inst),
        inst != Instruction::NOP,
    ensures
        encode_spec(inst) is Ok,
        encode_spec(inst)->Ok_0 != 0,
{
    lemma_decode_inverts_encode(inst);
}

/// Zero words at the end of a list are its tail: the tail begins after
/// the last word that is not zero.
pub proof fn lemma_tail_after(words: Seq<u32>, n: int)
    requires
        0 <= n <= words.len(),
        n > 0 ==> words[n - 1] != 0,
        forall|i: int| n <= i < words.len() ==> words[i] == 0,
    ensures
        tail_start(words) == n,
    decreases words.len(),
{
    if words.len() > n {
        assert(words.last() == 0);
        assert forall|i: int| n <= i < words.drop_last().len() implies words.drop_last()[i] == 0 by {
            assert(words.drop_last()[i] == words[i]);
        }
        if n > 0 {
            assert(words.drop_last()[n - 1] == words[n - 1]);
        }
        lemma_tail_after(words.drop_last(), n);
    }
}

/// Words that all decode have no first error.
pub proof fn lemma_all_decode_no_error(words: Seq<u32>)
    requires
        forall|i: int| 0 <= i < words.len() ==> decode_spec(#[trigger] words[i]) is Ok,
    ensures
        first_decode_error(words) is None,
    decreases words.len(),
{
    reveal_with_fuel(first_decode_error, 2);
    if words.len() > 0 {
        assert forall|i: int| 0 <= i < words.drop_last().len() implies decode_spec(
            #[trigger] words.drop_last()[i],
        ) is Ok by {
            assert(words.drop_last()[i] == words[i]);
        }
        lemma_all_decode_no_error(words.drop_last());
        assert(words.last() == words[words.len() - 1]);
    }
}

/// Disassembling undoes assembling: at most 128 canonical instructions, the
/// last of which is not `NOP`, come back from their image as they went in.
#[verifier::rlimit(40)]
pub proof fn lemma_disassemble_inverts_assemble(instructions: Seq<Instruction>)
    requires
        instructions.len() <= MAX_INSTRUCTIONS,
        forall|i: int| 0 <= i < instructions.len() ==> is_canonical(#[trigger] instructions[i]),
        instructions.len() > 0 ==> instructions.last() != Instruction::NOP,
    ensures
        assemble_spec(instructions) is Ok,
        disassemble_spec(assemble_spec(instructions)->Ok_0, true) == Ok::<
            Seq<Instruction>,
            CodegenError,
        >(instructions),
{
    let n = instructions.len() as int;
    assert forall|i: int| 0 <= i < n implies encode_spec(#[trigger] instructions[i]) is Ok by {
        lemma_decode_inverts_encode(instructions[i]);
    }
    lemma_assemble_pads(instructions);
    let words = assemble_spec(instructions)->Ok_0;
    if n > 0 {
        lemma_word_is_not_zero(instructions[n - 1]);
        assert(words[n - 1] == encode_spec(instructions[n - 1])->Ok_0);
    }
    lemma_tail_after(words, n);
    let kept = words.take(n);
    assert forall|i: int| 0 <= i < kept.len() implies decode_spec(#[trigger] kept[i]) == Ok::<
        Instruction,
        CodegenError,
    >(instructions[i]) by {
        lemma_decode_inverts_encode(instructions[i]);
        assert(kept[i] == words[i]);
    }
    lemma_all_decode_no_error(kept);
    assert(Seq::new(kept.len(), |i: int| decode_spec(kept[i])->Ok_0) =~= instructions);
}

/// A coefficient that comes back from its field is held exactly by it.
proof fn lemma_returning_coefficient(value: Float32)
    requires
        value.within(1),
        s114_coefficient(s114_field(value)) == value || s114_coefficient(s114_field(value) & 0x7FF)
            == value,
    ensures
        s114_coefficient(s114_field(value)) == value ==> is_s114_exact(value),
        s114_coefficient(s114_field(value) & 0x7FF) == value ==> is_short_s114_exact(value),
{
    let field = s114_field(value);
    let short = field & 0x7FF;
    crate::codegen::decoder::lemma_field_bounds(field);
    lemma_sign_bits(field);
    lemma_sign_bits(short);
    crate::codegen::decoder::lemma_field_is_exact(field);
    crate::codegen::decoder::lemma_field_is_exact(short);
    crate::float32::lemma_of_fixed_exact(crate::codegen::decoder::s114_value(field), 14);
    crate::float32::lemma_of_fixed_exact(crate::codegen::decoder::s114_value(short), 14);
}

/// An offset that comes back from its field is held exactly by it.
proof fn lemma_returning_offset(value: Float32)
    requires
        value.within(0),
        s10_offset(s10_field(value)) == value,
    ensures
        is_s10_exact(value),
{
    let field = s10_field(value);
    let k = crate::codegen::decoder::s10_value(field);
    crate::codegen::decoder::lemma_field_bounds(field);
    lemma_sign_bits(field);
    crate::codegen::decoder::lemma_field_is_exact(field);
    crate::float32::lemma_of_fixed_exact(k, 9);
    vstd::arithmetic::power2::lemma2_to64();
    vstd::arithmetic::power2::lemma_pow2_adds(9, 140);
    vstd::arithmetic::power2::lemma_pow2_pos(140);
    let unit = vstd::arithmetic::power2::pow2(140) as int;
    assert(-0x200 <= k < 0x200) by (nonlinear_arith)
        requires
            -(0x200 * unit) <= k * unit < 0x200 * unit,
            unit > 0,
    ;
}

/// Only canonical instructions come back: an instruction that has a word
/// which decodes to it is canonical.
#[verifier::rlimit(60)]
pub proof fn lemma_round_trip_needs_canonical(inst: Instruction)
    requires
        encode_spec(inst) is Ok,
        decode_spec(encode_spec(inst)->Ok_0) == Ok::<Instruction, CodegenError>(inst),
    ensures
        is_canonical(inst),
{
    reveal(encode_spec);
    let op = opcode(inst);
    let word = encode_spec(inst)->Ok_0;
    crate::codegen::decoder::lemma_field_bounds(word);
    match inst {
        Instruction::RDAX { reg, coeff } => {
            lemma_unpack_reg_coeff(op, register_code(reg), s114_field(coeff));
            lemma_returning_coefficient(coeff);
        },
        Instruction::WRAX { reg, coeff } => {
            lemma_unpack_reg_coeff(op, register_code(reg), s114_field(coeff));
            lemma_returning_coefficient(coeff);
        },
        Instruction::RDFX { reg, coeff } => {
            lemma_unpack_reg_coeff(op, register_code(reg), s114_field(coeff));
            lemma_returning_coefficient(coeff);
        },
        Instruction::RDFX2 { reg, coeff } => {
            lemma_unpack_reg_coeff(op, register_code(reg), s114_field(coeff));
            lemma_returning_coefficient(coeff);
        },
        Instruction::MULX { reg } => {
            lemma_unpack_reg_coeff(op, register_code(reg), 0);
        },
        Instruction::LDAX { reg } => {
            lemma_unpack_reg_coeff(op, register_code(reg), 0);
        },
        Instruction::RDA { addr, coeff } => {
            lemma_unpack_addr_coeff(op, addr as u32, s114_field(coeff));
            lemma_returning_coefficient(coeff);
        },
        Instruction::WRA { addr, coeff } => {
            lemma_unpack_addr_coeff(op, addr as u32, s114_field(coeff));
            lemma_returning_coefficient(coeff);
        },
        Instruction::WRAP { addr, coeff } => {
            lemma_unpack_addr_coeff(op, addr as u32, s114_field(coeff));
            lemma_returning_coefficient(coeff);
        },
        Instruction::RMPA { coeff } => {
            lemma_unpack_reg_coeff(op, 0, s114_field(coeff));
            lemma_returning_coefficient(coeff);
        },
        Instruction::SOF { coeff, offset } => {
            lemma_unpack_coeff_offset(op, s114_field(coeff), s10_field(offset));
            lemma_returning_coefficient(coeff);
            lemma_returning_offset(offset);
        },
        Instruction::EXP { coeff, offset } => {
            lemma_unpack_coeff_offset(op, s114_field(coeff), s10_field(offset));
            lemma_returning_coefficient(coeff);
            lemma_returning_offset(offset);
        },
        Instruction::LOG { coeff, offset } => {
            lemma_unpack_coeff_offset(op, s114_field(coeff), s10_field(offset));
            lemma_returning_coefficient(coeff);
            lemma_returning_offset(offset);
        },
        Instruction::AND { mask } => {
            lemma_masked(mask);
        },
        Instruction::OR { mask } => {
            lemma_masked(mask);
        },
        Instruction::XOR { mask } => {
            lemma_masked(mask);
        },
        _ => {},
    }
}

/// What is left of a word behind a mask is below the mask's width.
proof fn lemma_masked(word: u32)
    by (bit_vector)
    ensures
        word & 0xFF_FFFF < 0x100_0000,
        forall|op: u32| #![auto] ((op << 27) | (word & 0xFF_FFFF)) & 0xFF_FFFF == word & 0xFF_FFFF,
{
}

/// The opcode can be read from a word whatever its mask, its skip offset,
/// its frequency and its amplitude hold.
proof fn lemma_opcode_behind(op: u32, a: u32, b: u32, c: u32)
    by (bit_vector)
    requires
        op < 32,
        a < 8,
    ensures
        (((op << 27) | (b & 0xFF_FFFF)) >> 27) & 0x1F == op,
        (((op << 27) | (a << 24) | ((b & 0x3F) << 18)) >> 27) & 0x1F == op,
        a < 4 ==> (((op << 27) | (a << 25) | ((b & 0x1FF) << 9) | (c & 0x1FF)) >> 27) & 0x1F
            == op,
{
}

/// Every word has the opcode of its instruction in its top five bits; the
/// word of `NOP` has zeros there.
pub proof fn lemma_opcode_in_top_bits(inst: Instruction)
    requires
        encode_spec(inst) is Ok,
    ensures
        opcode(inst) < 32,
        (encode_spec(inst)->Ok_0 >> 27) & 0x1F == opcode(inst),
{
    reveal(encode_spec);
    let op = opcode(inst);
    match inst {
        Instruction::RDAX { reg, coeff } => {
            lemma_unpack_reg_coeff(op, register_code(reg), s114_field(coeff));
        },
        Instruction::WRAX { reg, coeff } => {
            lemma_unpack_reg_coeff(op, register_code(reg), s114_field(coeff));
        },
        Instruction::RDFX { reg, coeff } => {
            lemma_unpack_reg_coeff(op, register_code(reg), s114_field(coeff));
        },
        Instruction::RDFX2 { reg, coeff } => {
            lemma_unpack_reg_coeff(op, register_code(reg), s114_field(coeff));
        },
        Instruction::MULX { reg } => {
            lemma_unpack_reg_coeff(op, register_code(reg), 0);
        },
        Instruction::LDAX { reg } => {
            lemma_unpack_reg_coeff(op, register_code(reg), 0);
        },
        Instruction::RDA { addr, coeff } => {
            lemma_unpack_addr_coeff(op, addr as u32, s114_field(coeff));
        },
        Instruction::WRA { addr, coeff } => {
            lemma_unpack_addr_coeff(op, addr as u32, s114_field(coeff));
        },
        Instruction::WRAP { addr, coeff } => {
            lemma_unpack_addr_coeff(op, addr as u32, s114_field(coeff));
        },
        Instruction::RMPA { coeff } => {
            lemma_unpack_reg_coeff(op, 0, s114_field(coeff));
        },
        Instruction::SOF { coeff, offset } => {
            lemma_unpack_coeff_offset(op, s114_field(coeff), s10_field(offset));
        },
        Instruction::EXP { coeff, offset } => {
            lemma_unpack_coeff_offset(op, s114_field(coeff), s10_field(offset));
        },
        Instruction::LOG { coeff, offset } => {
            lemma_unpack_coeff_offset(op, s114_field(coeff), s10_field(offset));
        },
        Instruction::AND { mask } => {
            lemma_opcode_behind(op, 0, mask, 0);
        },
        Instruction::OR { mask } => {
            lemma_opcode_behind(op, 0, mask, 0);
        },
        Instruction::XOR { mask } => {
            lemma_opcode_behind(op, 0, mask, 0);
        },
        Instruction::SKP { condition, offset } => {
            lemma_opcode_behind(op, skip_condition_code(condition), offset as u32, 0);
        },
        Instruction::WLDS { lfo, freq, amplitude } => {
            lemma_opcode_behind(op, lfo_code(lfo), freq as u32, amplitude as u32);
        },
        Instruction::JAM { lfo } => {
            lemma_unpack_lfo(op, lfo_code(lfo), 0, 0);
        },
        Instruction::CHO { mode, lfo, flags, addr } => {
            lemma_unpack_cho(op, cho_mode_code(mode), lfo_code(lfo), cho_flags_code(flags), addr as u32);
        },
        Instruction::NOP => {
            lemma_unpack_reg_coeff(0, 0, 0);
        },
        _ => {
            lemma_unpack_reg_coeff(op, 0, 0);
        },
    }
}

} // verus!
