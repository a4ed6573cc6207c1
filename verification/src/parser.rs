//! Parsing of a token list into a program.
//!
//! The parser reads the tokens from left to right and stops at the first
//! error. A statement is a label, an instruction, or both; a directive
//! begins with `equ`, `mem` or `spinasm`. Every instruction has a fixed list
//! of operands, separated by commas.

use crate::ast::{
    instructions_of, Directive, DirectiveView, Program, ProgramView, Statement, StatementView,
    Value, ValueView,
};
use crate::error::{ParseError, ParseErrorView};
use crate::float32::Float32;
use crate::instruction::{ChoFlags, ChoMode, Instruction, SkipCondition};
use crate::lexer::{lexemes_from, matches_lexemes, Lexer, Spanned, Token};
use crate::register::{Lfo, Register};
use crate::text::{
    decimal_text, push_decimal, push_signed_decimal, push_text, signed_decimal_text,
};
use std::ops::Range;
use vstd::prelude::*;
use vstd::string::*;

verus! {

/// A number as a literal gives it: a floating-point number or a whole number.
#[derive(Clone, Copy, Debug)]
pub enum Number {
    Float(Float32),
    Integer(i64),
}

impl Number {
    /// The number as a single-precision coefficient: a whole number is
    /// rounded to the nearest double-precision and then single-precision number.
    pub open spec fn coefficient(self) -> Float32 {
        match self {
            Number::Float(f) => f,
            Number::Integer(i) => Float32::of_integer(i as int),
        }
    }

    /// The number as an integer in `[low, high]`: a fraction is cut off, and
    /// a number outside the range becomes the nearest bound.
    pub open spec fn cast(self, low: int, high: int) -> int {
        match self {
            Number::Float(f) => f.cast_to(low, high),
            Number::Integer(i) => if i < low {
                low
            } else if i > high {
                high
            } else {
                i as int
            },
        }
    }

    /// The number as a single-precision coefficient.
    pub fn to_coefficient(self) -> (f: Float32)
        ensures
            f == self.coefficient(),
    {
        match self {
            Number::Float(f) => f,
            Number::Integer(i) => Float32::from_integer(i),
        }
    }

    /// The number as an integer in `[low, high]`.
    pub fn to_integer(self, low: i64, high: i64) -> (r: i64)
        requires
            low <= 0 <= high,
        ensures
            r == self.cast(low as int, high as int),
    {
        match self {
            Number::Float(f) => f.to_integer(low, high),
            Number::Integer(i) => if i < low {
                low
            } else if i > high {
                high
            } else {
                i
            },
        }
    }

    /// The number as a delay address, a frequency, an amplitude or a size.
    pub fn to_u16(self) -> (r: u16)
        ensures
            r == self.cast(0, 65535),
    {
        self.to_integer(0, 65535) as u16
    }

    /// The number as a mask.
    pub fn to_u32(self) -> (r: u32)
        ensures
            r == self.cast(0, 0xFFFF_FFFF),
    {
        self.to_integer(0, 0xFFFF_FFFF) as u32
    }

    /// The number as a skip offset.
    pub fn to_i8(self) -> (r: i8)
        ensures
            r == self.cast(-128, 127),
    {
        self.to_integer(-128, 127) as i8
    }
}

/// How an error names a token: its name, and in brackets what it holds.
pub open spec fn token_text(token: Token) -> Seq<char> {
    match token {
        Token::RDAX => "RDAX"@,
        Token::RDA => "RDA"@,
        Token::WRAX => "WRAX"@,
        Token::WRA => "WRA"@,
        Token::WRAP => "WRAP"@,
        Token::RMPA => "RMPA"@,
        Token::MULX => "MULX"@,
        Token::RDFX => "RDFX"@,
        Token::ABSA => "ABSA"@,
        Token::LDAX => "LDAX"@,
        Token::RDFX2 => "RDFX2"@,
        Token::SOF => "SOF"@,
        Token::AND => "AND"@,
        Token::OR => "OR"@,
        Token::XOR => "XOR"@,
        Token::SHL => "SHL"@,
        Token::SHR => "SHR"@,
        Token::CLR => "CLR"@,
        Token::NOP => "NOP"@,
        Token::EXP => "EXP"@,
        Token::LOG => "LOG"@,
        Token::SKP => "SKP"@,
        Token::WLDS => "WLDS"@,
        Token::JAM => "JAM"@,
        Token::CHO => "CHO"@,
        Token::ACC => "ACC"@,
        Token::ADCL => "ADCL"@,
        Token::ADCR => "ADCR"@,
        Token::DACL => "DACL"@,
        Token::DACR => "DACR"@,
        Token::ADDR_PTR => "ADDR_PTR"@,
        Token::LR => "LR"@,
        Token::REG(n) => "REG("@ + decimal_text(n as nat) + ")"@,
        Token::POT(n) => "POT("@ + decimal_text(n as nat) + ")"@,
        Token::SIN0 => "SIN0"@,
        Token::SIN1 => "SIN1"@,
        Token::RMP0 => "RMP0"@,
        Token::RMP1 => "RMP1"@,
        Token::SIN0_RATE => "SIN0_RATE"@,
        Token::SIN0_RANGE => "SIN0_RANGE"@,
        Token::SIN1_RATE => "SIN1_RATE"@,
        Token::SIN1_RANGE => "SIN1_RANGE"@,
        Token::RMP0_RATE => "RMP0_RATE"@,
        Token::RMP0_RANGE => "RMP0_RANGE"@,
        Token::RMP1_RATE => "RMP1_RATE"@,
        Token::RMP1_RANGE => "RMP1_RANGE"@,
        Token::GEZ => "GEZ"@,
        Token::NEG => "NEG"@,
        Token::ZRC => "ZRC"@,
        Token::ZRO => "ZRO"@,
        Token::RUN => "RUN"@,
        Token::RDAL => "RDAL"@,
        Token::RPTR2 => "RPTR2"@,
        Token::NA => "NA"@,
        Token::COMPC => "COMPC"@,
        Token::COMPA => "COMPA"@,
        Token::Float(f) => "Float("@ + crate::shortest::debug_text(f) + ")"@,
        Token::Integer(i) => "Integer("@ + signed_decimal_text(i as int) + ")"@,
        Token::Identifier(name) => "Identifier(\""@ + name@ + "\")"@,
        Token::Comma => "Comma"@,
        Token::Colon => "Colon"@,
        Token::Equals => "Equals"@,
        Token::Pipe => "Pipe"@,
        Token::EQU => "EQU"@,
        Token::MEM => "MEM"@,
        Token::SPINASM => "SPINASM"@,
        Token::Hash => "Hash"@,
    }
}

/// A name in brackets after the name of a token.
fn describe_with(name: &str, inner: &String) -> (s: String)
    ensures
        s@ == name@ + inner@ + ")"@,
{
    let mut s = String::new();
    push_text(&mut s, name);
    push_text(&mut s, inner.as_str());
    push_text(&mut s, ")");
    proof {
        assert(s@ =~= name@ + inner@ + ")"@);
    }
    s
}

/// How an error names a token.
#[verifier::rlimit(40)]
pub fn describe_token(token: &Token) -> (s: String)
    ensures
        s@ == token_text(*token),
{
    match token {
        Token::RDAX => "RDAX".to_owned(),
        Token::RDA => "RDA".to_owned(),
        Token::WRAX => "WRAX".to_owned(),
        Token::WRA => "WRA".to_owned(),
        Token::WRAP => "WRAP".to_owned(),
        Token::RMPA => "RMPA".to_owned(),
        Token::MULX => "MULX".to_owned(),
        Token::RDFX => "RDFX".to_owned(),
        Token::ABSA => "ABSA".to_owned(),
        Token::LDAX => "LDAX".to_owned(),
        Token::RDFX2 => "RDFX2".to_owned(),
        Token::SOF => "SOF".to_owned(),
        Token::AND => "AND".to_owned(),
        Token::OR => "OR".to_owned(),
        Token::XOR => "XOR".to_owned(),
        Token::SHL => "SHL".to_owned(),
        Token::SHR => "SHR".to_owned(),
        Token::CLR => "CLR".to_owned(),
        Token::NOP => "NOP".to_owned(),
        Token::EXP => "EXP".to_owned(),
        Token::LOG => "LOG".to_owned(),
        Token::SKP => "SKP".to_owned(),
        Token::WLDS => "WLDS".to_owned(),
        Token::JAM => "JAM".to_owned(),
        Token::CHO => "CHO".to_owned(),
        Token::ACC => "ACC".to_owned(),
        Token::ADCL => "ADCL".to_owned(),
        Token::ADCR => "ADCR".to_owned(),
        Token::DACL => "DACL".to_owned(),
        Token::DACR => "DACR".to_owned(),
        Token::ADDR_PTR => "ADDR_PTR".to_owned(),
        Token::LR => "LR".to_owned(),
        Token::REG(n) => {
            let mut inner = String::new();
            push_decimal(&mut inner, *n as u128);
            proof {
                assert(inner@ =~= decimal_text(*n as nat));
            }
            describe_with("REG(", &inner)
        },
        Token::POT(n) => {
            let mut inner = String::new();
            push_decimal(&mut inner, *n as u128);
            proof {
                assert(inner@ =~= decimal_text(*n as nat));
            }
            describe_with("POT(", &inner)
        },
        Token::SIN0 => "SIN0".to_owned(),
        Token::SIN1 => "SIN1".to_owned(),
        Token::RMP0 => "RMP0".to_owned(),
        Token::RMP1 => "RMP1".to_owned(),
        Token::SIN0_RATE => "SIN0_RATE".to_owned(),
        Token::SIN0_RANGE => "SIN0_RANGE".to_owned(),
        Token::SIN1_RATE => "SIN1_RATE".to_owned(),
        Token::SIN1_RANGE => "SIN1_RANGE".to_owned(),
        Token::RMP0_RATE => "RMP0_RATE".to_owned(),
        Token::RMP0_RANGE => "RMP0_RANGE".to_owned(),
        Token::RMP1_RATE => "RMP1_RATE".to_owned(),
        Token::RMP1_RANGE => "RMP1_RANGE".to_owned(),
        Token::GEZ => "GEZ".to_owned(),
        Token::NEG => "NEG".to_owned(),
        Token::ZRC => "ZRC".to_owned(),
        Token::ZRO => "ZRO".to_owned(),
        Token::RUN => "RUN".to_owned(),
        Token::RDAL => "RDAL".to_owned(),
        Token::RPTR2 => "RPTR2".to_owned(),
        Token::NA => "NA".to_owned(),
        Token::COMPC => "COMPC".to_owned(),
        Token::COMPA => "COMPA".to_owned(),
        Token::Float(f) => {
            let mut inner = String::new();
            crate::shortest::push_float_debug(&mut inner, *f);
            proof {
                assert(inner@ =~= crate::shortest::debug_text(*f));
            }
            describe_with("Float(", &inner)
        },
        Token::Integer(i) => {
            let mut inner = String::new();
            push_signed_decimal(&mut inner, *i);
            proof {
                assert(inner@ =~= signed_decimal_text(*i as int));
            }
            describe_with("Integer(", &inner)
        },
        Token::Identifier(name) => {
            let mut s = String::new();
            push_text(&mut s, "Identifier(\"");
            push_text(&mut s, name.as_str());
            push_text(&mut s, "\")");
            proof {
                assert(s@ =~= "Identifier(\""@ + name@ + "\")"@);
            }
            s
        },
        Token::Comma => "Comma".to_owned(),
        Token::Colon => "Colon".to_owned(),
        Token::Equals => "Equals".to_owned(),
        Token::Pipe => "Pipe".to_owned(),
        Token::EQU => "EQU".to_owned(),
        Token::MEM => "MEM".to_owned(),
        Token::SPINASM => "SPINASM".to_owned(),
        Token::Hash => "Hash".to_owned(),
    }
}

/// The token at a place: an error at the end of the tokens and where the
/// lexer found none.
pub open spec fn token_at(tokens: Seq<Spanned>, pos: int) -> Result<Token, ParseErrorView> {
    if pos < 0 || pos >= tokens.len() {
        Err(ParseErrorView::UnexpectedEof)
    } else {
        match tokens[pos].0 {
            Ok(token) => Ok(token),
            Err(_) => Err(ParseErrorView::InvalidToken { span: tokens[pos].1 }),
        }
    }
}

/// The error for a token other than the one that is required.
pub open spec fn unexpected(expected: Seq<char>, token: Token, span: Range<usize>) -> ParseErrorView {
    ParseErrorView::UnexpectedToken { expected, found: token_text(token), span }
}

/// The register that a token names. The control inputs POT0 to POT2 are
/// read from REG16 to REG18.
pub open spec fn register_of_token(token: Token) -> Option<Register> {
    match token {
        Token::ACC => Some(Register::ACC),
        Token::ADCL => Some(Register::ADCL),
        Token::ADCR => Some(Register::ADCR),
        Token::DACL => Some(Register::DACL),
        Token::DACR => Some(Register::DACR),
        Token::ADDR_PTR => Some(Register::ADDR_PTR),
        Token::LR => Some(Register::LR),
        Token::REG(n) => Some(Register::REG(n)),
        Token::POT(n) => if n <= 2 {
            Some(Register::REG((16 + n) as u8))
        } else {
            None
        },
        Token::SIN0_RATE => Some(Register::SIN0_RATE),
        Token::SIN0_RANGE => Some(Register::SIN0_RANGE),
        Token::SIN1_RATE => Some(Register::SIN1_RATE),
        Token::SIN1_RANGE => Some(Register::SIN1_RANGE),
        Token::RMP0_RATE => Some(Register::RMP0_RATE),
        Token::RMP0_RANGE => Some(Register::RMP0_RANGE),
        Token::RMP1_RATE => Some(Register::RMP1_RATE),
        Token::RMP1_RANGE => Some(Register::RMP1_RANGE),
        _ => None,
    }
}

/// The number that a token holds.
pub open spec fn number_of_token(token: Token) -> Option<Number> {
    match token {
        Token::Float(f) => Some(Number::Float(f)),
        Token::Integer(i) => Some(Number::Integer(i)),
        _ => None,
    }
}

/// The LFO that a token names.
pub open spec fn lfo_of_token(token: Token) -> Option<Lfo> {
    match token {
        Token::SIN0 => Some(Lfo::SIN0),
        Token::SIN1 => Some(Lfo::SIN1),
        Token::RMP0 => Some(Lfo::RMP0),
        Token::RMP1 => Some(Lfo::RMP1),
        _ => None,
    }
}

/// The skip condition that a token names.
pub open spec fn condition_of_token(token: Token) -> Option<SkipCondition> {
    match token {
        Token::GEZ => Some(SkipCondition::GEZ),
        Token::NEG => Some(SkipCondition::NEG),
        Token::ZRC => Some(SkipCondition::ZRC),
        Token::ZRO => Some(SkipCondition::ZRO),
        Token::RUN => Some(SkipCondition::RUN),
        _ => None,
    }
}

/// The CHO mode that a token names.
pub open spec fn mode_of_token(token: Token) -> Option<ChoMode> {
    match token {
        Token::RDA => Some(ChoMode::RDA),
        Token::SOF => Some(ChoMode::SOF),
        Token::RDAL => Some(ChoMode::RDAL),
        _ => None,
    }
}

/// Whether a token is the mnemonic of an instruction.
pub open spec fn is_mnemonic(token: Token) -> bool {
    match token {
        Token::RDAX => true,
        Token::RDA => true,
        Token::WRAX => true,
        Token::WRA => true,
        Token::WRAP => true,
        Token::RMPA => true,
        Token::MULX => true,
        Token::RDFX => true,
        Token::RDFX2 => true,
        Token::LDAX => true,
        Token::SOF => true,
        Token::AND => true,
        Token::OR => true,
        Token::XOR => true,
        Token::EXP => true,
        Token::LOG => true,
        Token::SKP => true,
        Token::WLDS => true,
        Token::JAM => true,
        Token::CHO => true,
        Token::ABSA => true,
        Token::SHL => true,
        Token::SHR => true,
        Token::CLR => true,
        Token::NOP => true,
        _ => false,
    }
}

/// Whether a token begins a directive.
pub open spec fn is_directive_keyword(token: Token) -> bool {
    match token {
        Token::EQU => true,
        Token::MEM => true,
        Token::SPINASM => true,
        _ => false,
    }
}

/// A register at a place.
pub open spec fn register_at(tokens: Seq<Spanned>, pos: int) -> Result<Register, ParseErrorView> {
    match token_at(tokens, pos) {
        Ok(token) => match register_of_token(token) {
            Some(reg) => Ok(reg),
            None => Err(ParseErrorView::ExpectedRegister { span: tokens[pos].1 }),
        },
        Err(e) => Err(e),
    }
}

/// A number at a place.
pub open spec fn number_at(tokens: Seq<Spanned>, pos: int) -> Result<Number, ParseErrorView> {
    match token_at(tokens, pos) {
        Ok(token) => match number_of_token(token) {
            Some(number) => Ok(number),
            None => Err(ParseErrorView::ExpectedNumber { span: tokens[pos].1 }),
        },
        Err(e) => Err(e),
    }
}

/// An LFO at a place.
pub open spec fn lfo_at(tokens: Seq<Spanned>, pos: int) -> Result<Lfo, ParseErrorView> {
    match token_at(tokens, pos) {
        Ok(token) => match lfo_of_token(token) {
            Some(lfo) => Ok(lfo),
            None => Err(unexpected("LFO (sin0, sin1, rmp0, rmp1)"@, token, tokens[pos].1)),
        },
        Err(e) => Err(e),
    }
}

/// A skip condition at a place.
pub open spec fn condition_at(tokens: Seq<Spanned>, pos: int) -> Result<
    SkipCondition,
    ParseErrorView,
> {
    match token_at(tokens, pos) {
        Ok(token) => match condition_of_token(token) {
            Some(condition) => Ok(condition),
            None => Err(
                unexpected("skip condition (gez, neg, zrc, zro, run)"@, token, tokens[pos].1),
            ),
        },
        Err(e) => Err(e),
    }
}

/// A CHO mode at a place.
pub open spec fn mode_at(tokens: Seq<Spanned>, pos: int) -> Result<ChoMode, ParseErrorView> {
    match token_at(tokens, pos) {
        Ok(token) => match mode_of_token(token) {
            Some(mode) => Ok(mode),
            None => Err(unexpected("CHO mode (rda, sof, rdal)"@, token, tokens[pos].1)),
        },
        Err(e) => Err(e),
    }
}

/// The flags of a CHO instruction at a place: one token, whatever it is,
/// stands for no flag set.
pub open spec fn flags_at(tokens: Seq<Spanned>, pos: int) -> Result<ChoFlags, ParseErrorView> {
    match token_at(tokens, pos) {
        Ok(_) => Ok(
            ChoFlags { rptr2: false, na: false, compc: false, compa: false, rptr2_select: false },
        ),
        Err(e) => Err(e),
    }
}

/// A comma at a place: the error if none stands there.
pub open spec fn comma_at(tokens: Seq<Spanned>, pos: int) -> Option<ParseErrorView> {
    match token_at(tokens, pos) {
        Ok(token) => if token is Comma {
            None
        } else {
            Some(unexpected("Comma"@, token, tokens[pos].1))
        },
        Err(e) => Some(e),
    }
}

/// An identifier at a place.
pub open spec fn identifier_at(tokens: Seq<Spanned>, pos: int) -> Result<Seq<char>, ParseErrorView> {
    match token_at(tokens, pos) {
        Ok(token) => match token {
            Token::Identifier(name) => Ok(name@),
            _ => Err(unexpected("identifier"@, token, tokens[pos].1)),
        },
        Err(e) => Err(e),
    }
}

/// The value of an equate at a place: a number or an identifier. The
/// error for any other token has the empty span at the start of the source.
pub open spec fn value_at(tokens: Seq<Spanned>, pos: int) -> Result<ValueView, ParseErrorView> {
    match token_at(tokens, pos) {
        Ok(token) => match token {
            Token::Float(f) => Ok(ValueView::Float(f)),
            Token::Integer(i) => Ok(ValueView::Integer(i)),
            Token::Identifier(name) => Ok(ValueView::Identifier(name@)),
            _ => Err(ParseErrorView::ExpectedNumber { span: (Range { start: 0usize, end: 0usize }) }),
        },
        Err(e) => Err(e),
    }
}

/// The operands register, comma, coefficient.
pub open spec fn reg_coeff_at(tokens: Seq<Spanned>, pos: int) -> Result<
    (Register, Float32),
    ParseErrorView,
> {
    match register_at(tokens, pos) {
        Ok(reg) => match comma_at(tokens, pos + 1) {
            None => match number_at(tokens, pos + 2) {
                Ok(number) => Ok((reg, number.coefficient())),
                Err(e) => Err(e),
            },
            Some(e) => Err(e),
        },
        Err(e) => Err(e),
    }
}

/// The operands address, comma, coefficient.
pub open spec fn addr_coeff_at(tokens: Seq<Spanned>, pos: int) -> Result<
    (u16, Float32),
    ParseErrorView,
> {
    match number_at(tokens, pos) {
        Ok(addr) => match comma_at(tokens, pos + 1) {
            None => match number_at(tokens, pos + 2) {
                Ok(number) => Ok((addr.cast(0, 65535) as u16, number.coefficient())),
                Err(e) => Err(e),
            },
            Some(e) => Err(e),
        },
        Err(e) => Err(e),
    }
}

/// The operands coefficient, comma, offset.
pub open spec fn coeff_offset_at(tokens: Seq<Spanned>, pos: int) -> Result<
    (Float32, Float32),
    ParseErrorView,
> {
    match number_at(tokens, pos) {
        Ok(coeff) => match comma_at(tokens, pos + 1) {
            None => match number_at(tokens, pos + 2) {
                Ok(offset) => Ok((coeff.coefficient(), offset.coefficient())),
                Err(e) => Err(e),
            },
            Some(e) => Err(e),
        },
        Err(e) => Err(e),
    }
}

/// The operands of `SKP`: condition, comma, offset.
pub open spec fn skip_at(tokens: Seq<Spanned>, pos: int) -> Result<Instruction, ParseErrorView> {
    match condition_at(tokens, pos) {
        Ok(condition) => match comma_at(tokens, pos + 1) {
            None => match number_at(tokens, pos + 2) {
                Ok(offset) => Ok(
                    Instruction::SKP { condition, offset: offset.cast(-128, 127) as i8 },
                ),
                Err(e) => Err(e),
            },
            Some(e) => Err(e),
        },
        Err(e) => Err(e),
    }
}

/// The operands of `WLDS`: LFO, comma, frequency, comma, amplitude.
pub open spec fn wlds_at(tokens: Seq<Spanned>, pos: int) -> Result<Instruction, ParseErrorView> {
    match lfo_at(tokens, pos) {
        Ok(lfo) => match comma_at(tokens, pos + 1) {
            None => match number_at(tokens, pos + 2) {
                Ok(freq) => match comma_at(tokens, pos + 3) {
                    None => match number_at(tokens, pos + 4) {
                        Ok(amplitude) => Ok(
                            Instruction::WLDS {
                                lfo,
                                freq: freq.cast(0, 65535) as u16,
                                amplitude: amplitude.cast(0, 65535) as u16,
                            },
                        ),
                        Err(e) => Err(e),
                    },
                    Some(e) => Err(e),
                },
                Err(e) => Err(e),
            },
            Some(e) => Err(e),
        },
        Err(e) => Err(e),
    }
}

/// The operands of `CHO`: mode, comma, LFO, comma, flags, comma, address.
pub open spec fn cho_at(tokens: Seq<Spanned>, pos: int) -> Result<Instruction, ParseErrorView> {
    match mode_at(tokens, pos) {
        Ok(mode) => match comma_at(tokens, pos + 1) {
            None => match lfo_at(tokens, pos + 2) {
                Ok(lfo) => match comma_at(tokens, pos + 3) {
                    None => match flags_at(tokens, pos + 4) {
                        Ok(flags) => match comma_at(tokens, pos + 5) {
                            None => match number_at(tokens, pos + 6) {
                                Ok(addr) => Ok(
                                    Instruction::CHO {
                                        mode,
                                        lfo,
                                        flags,
                                        addr: addr.cast(0, 65535) as u16,
                                    },
                                ),
                                Err(e) => Err(e),
                            },
                            Some(e) => Err(e),
                        },
                        Err(e) => Err(e),
                    },
                    Some(e) => Err(e),
                },
                Err(e) => Err(e),
            },
            Some(e) => Err(e),
        },
        Err(e) => Err(e),
    }
}

/// An instruction with a register and a coefficient.
pub open spec fn with_reg_coeff(
    operands: Result<(Register, Float32), ParseErrorView>,
    make: spec_fn(Register, Float32) -> Instruction,
    next: int,
) -> Result<(Instruction, int), ParseErrorView> {
    match operands {
        Ok((reg, coeff)) => Ok((make(reg, coeff), next)),
        Err(e) => Err(e),
    }
}

/// An instruction with an address and a coefficient.
pub open spec fn with_addr_coeff(
    operands: Result<(u16, Float32), ParseErrorView>,
    make: spec_fn(u16, Float32) -> Instruction,
    next: int,
) -> Result<(Instruction, int), ParseErrorView> {
    match operands {
        Ok((addr, coeff)) => Ok((make(addr, coeff), next)),
        Err(e) => Err(e),
    }
}

/// An instruction with a coefficient and an offset.
pub open spec fn with_coeff_offset(
    operands: Result<(Float32, Float32), ParseErrorView>,
    make: spec_fn(Float32, Float32) -> Instruction,
    next: int,
) -> Result<(Instruction, int), ParseErrorView> {
    match operands {
        Ok((coeff, offset)) => Ok((make(coeff, offset), next)),
        Err(e) => Err(e),
    }
}

/// An instruction with one operand.
pub open spec fn with_one<A>(
    operand: Result<A, ParseErrorView>,
    make: spec_fn(A) -> Instruction,
    next: int,
) -> Result<(Instruction, int), ParseErrorView> {
    match operand {
        Ok(a) => Ok((make(a), next)),
        Err(e) => Err(e),
    }
}

/// The instruction that begins at a place, and the place after it.
#[verifier::opaque]
pub open spec fn instruction_at(tokens: Seq<Spanned>, pos: int) -> Result<
    (Instruction, int),
    ParseErrorView,
> {
    match token_at(tokens, pos) {
        Ok(token) => match token {
            Token::RDAX => with_reg_coeff(
                reg_coeff_at(tokens, pos + 1),
                |reg: Register, coeff: Float32| Instruction::RDAX { reg, coeff },
                pos + 4,
            ),
            Token::RDA => with_addr_coeff(
                addr_coeff_at(tokens, pos + 1),
                |addr: u16, coeff: Float32| Instruction::RDA { addr, coeff },
                pos + 4,
            ),
            Token::WRAX => with_reg_coeff(
                reg_coeff_at(tokens, pos + 1),
                |reg: Register, coeff: Float32| Instruction::WRAX { reg, coeff },
                pos + 4,
            ),
            Token::WRA => with_addr_coeff(
                addr_coeff_at(tokens, pos + 1),
                |addr: u16, coeff: Float32| Instruction::WRA { addr, coeff },
                pos + 4,
            ),
            Token::WRAP => with_addr_coeff(
                addr_coeff_at(tokens, pos + 1),
                |addr: u16, coeff: Float32| Instruction::WRAP { addr, coeff },
                pos + 4,
            ),
            Token::RMPA => with_one(
                number_at(tokens, pos + 1),
                |coeff: Number| Instruction::RMPA { coeff: coeff.coefficient() },
                pos + 2,
            ),
            Token::MULX => with_one(
                register_at(tokens, pos + 1),
                |reg: Register| Instruction::MULX { reg },
                pos + 2,
            ),
            Token::RDFX => with_reg_coeff(
                reg_coeff_at(tokens, pos + 1),
                |reg: Register, coeff: Float32| Instruction::RDFX { reg, coeff },
                pos + 4,
            ),
            Token::RDFX2 => with_reg_coeff(
                reg_coeff_at(tokens, pos + 1),
                |reg: Register, coeff: Float32| Instruction::RDFX2 { reg, coeff },
                pos + 4,
            ),
            Token::LDAX => with_one(
                register_at(tokens, pos + 1),
                |reg: Register| Instruction::LDAX { reg },
                pos + 2,
            ),
            Token::SOF => with_coeff_offset(
                coeff_offset_at(tokens, pos + 1),
                |coeff: Float32, offset: Float32| Instruction::SOF { coeff, offset },
                pos + 4,
            ),
            Token::AND => with_one(
                number_at(tokens, pos + 1),
                |mask: Number| Instruction::AND { mask: mask.cast(0, 0xFFFF_FFFF) as u32 },
                pos + 2,
            ),
            Token::OR => with_one(
                number_at(tokens, pos + 1),
                |mask: Number| Instruction::OR { mask: mask.cast(0, 0xFFFF_FFFF) as u32 },
                pos + 2,
            ),
            Token::XOR => with_one(
                number_at(tokens, pos + 1),
                |mask: Number| Instruction::XOR { mask: mask.cast(0, 0xFFFF_FFFF) as u32 },
                pos + 2,
            ),
            Token::EXP => with_coeff_offset(
                coeff_offset_at(tokens, pos + 1),
                |coeff: Float32, offset: Float32| Instruction::EXP { coeff, offset },
                pos + 4,
            ),
            Token::LOG => with_coeff_offset(
                coeff_offset_at(tokens, pos + 1),
                |coeff: Float32, offset: Float32| Instruction::LOG { coeff, offset },
                pos + 4,
            ),
            Token::SKP => with_one(skip_at(tokens, pos + 1), |inst: Instruction| inst, pos + 4),
            Token::WLDS => with_one(wlds_at(tokens, pos + 1), |inst: Instruction| inst, pos + 6),
            Token::JAM => with_one(
                lfo_at(tokens, pos + 1),
                |lfo: Lfo| Instruction::JAM { lfo },
                pos + 2,
            ),
            Token::CHO => with_one(cho_at(tokens, pos + 1), |inst: Instruction| inst, pos + 8),
            Token::ABSA => Ok((Instruction::ABSA, pos + 1)),
            Token::SHL => Ok((Instruction::SHL, pos + 1)),
            Token::SHR => Ok((Instruction::SHR, pos + 1)),
            Token::CLR => Ok((Instruction::CLR, pos + 1)),
            Token::NOP => Ok((Instruction::NOP, pos + 1)),
            _ => Err(unexpected("instruction"@, token, tokens[pos].1)),
        },
        Err(e) => Err(e),
    }
}

/// Whether a label begins at a place: an identifier and a colon.
pub open spec fn label_at(tokens: Seq<Spanned>, pos: int) -> Option<Seq<char>> {
    if 0 <= pos && pos + 1 < tokens.len() {
        match (tokens[pos].0, tokens[pos + 1].0) {
            (Ok(Token::Identifier(name)), Ok(Token::Colon)) => Some(name@),
            _ => None,
        }
    } else {
        None
    }
}

/// Whether a mnemonic stands at a place.
pub open spec fn mnemonic_at(tokens: Seq<Spanned>, pos: int) -> bool {
    0 <= pos < tokens.len() && (tokens[pos].0 matches Ok(token) && is_mnemonic(token))
}

/// Whether a directive begins at a place.
pub open spec fn directive_begins_at(tokens: Seq<Spanned>, pos: int) -> bool {
    0 <= pos < tokens.len() && (tokens[pos].0 matches Ok(token) && is_directive_keyword(token))
}

/// The statement that begins at a place, and the place after it: a label
/// with the instruction that follows it directly, a label alone, or an
/// instruction.
pub open spec fn statement_at(tokens: Seq<Spanned>, pos: int) -> Result<
    (StatementView, int),
    ParseErrorView,
> {
    match label_at(tokens, pos) {
        Some(label) => if mnemonic_at(tokens, pos + 2) {
            match instruction_at(tokens, pos + 2) {
                Ok((instruction, next)) => Ok(
                    (StatementView::LabeledInstruction { label, instruction }, next),
                ),
                Err(e) => Err(e),
            }
        } else {
            Ok((StatementView::Label(label), pos + 2))
        },
        None => match instruction_at(tokens, pos) {
            Ok((instruction, next)) => Ok((StatementView::Instruction(instruction), next)),
            Err(e) => Err(e),
        },
    }
}

/// The directive that begins at a place, and the place after it.
#[verifier::opaque]
pub open spec fn directive_at(tokens: Seq<Spanned>, pos: int) -> Result<
    (DirectiveView, int),
    ParseErrorView,
> {
    match token_at(tokens, pos) {
        Ok(token) => match token {
            Token::EQU => match identifier_at(tokens, pos + 1) {
                Ok(name) => match comma_at(tokens, pos + 2) {
                    None => match value_at(tokens, pos + 3) {
                        Ok(value) => Ok((DirectiveView::Equate { name, value }, pos + 4)),
                        Err(e) => Err(e),
                    },
                    Some(e) => Err(e),
                },
                Err(e) => Err(e),
            },
            Token::MEM => match identifier_at(tokens, pos + 1) {
                Ok(name) => match number_at(tokens, pos + 2) {
                    Ok(size) => Ok(
                        (
                            DirectiveView::MemoryAllocation {
                                name,
                                size: size.cast(0, 65535) as u16,
                            },
                            pos + 3,
                        ),
                    ),
                    Err(e) => Err(e),
                },
                Err(e) => Err(e),
            },
            Token::SPINASM => match identifier_at(tokens, pos + 1) {
                Ok(version) => Ok((DirectiveView::SpinAsm { version }, pos + 2)),
                Err(e) => Err(e),
            },
            _ => Err(unexpected("directive (equ, mem, spinasm)"@, token, tokens[pos].1)),
        },
        Err(e) => Err(e),
    }
}

/// The label table after a statement is appended to `count` instructions.
pub open spec fn labels_with(
    labels: Map<Seq<char>, usize>,
    count: nat,
    statement: StatementView,
) -> Map<Seq<char>, usize> {
    match statement {
        StatementView::Label(name) => labels.insert(name, count as usize),
        StatementView::Instruction(_) => labels,
        StatementView::LabeledInstruction { label, instruction } => labels.insert(
            label,
            count as usize,
        ),
    }
}

/// The number of instructions that a statement holds.
pub open spec fn instructions_in(statement: StatementView) -> nat {
    match statement {
        StatementView::Label(_) => 0,
        _ => 1,
    }
}

/// The program of the tokens from a place on, added to the program so far,
/// which holds `count` instructions: directives and statements in turn
/// up to the end of the tokens, or the first error.
pub open spec fn parse_from(tokens: Seq<Spanned>, pos: int, so_far: ProgramView, count: nat) -> Result<
    ProgramView,
    ParseErrorView,
>
    decreases tokens.len() - pos,
{
    if pos < 0 || pos >= tokens.len() {
        Ok(so_far)
    } else if directive_begins_at(tokens, pos) {
        match directive_at(tokens, pos) {
            Ok((directive, next)) => if pos < next <= tokens.len() {
                parse_from(
                    tokens,
                    next,
                    ProgramView { directives: so_far.directives.push(directive), ..so_far },
                    count,
                )
            } else {
                Ok(so_far)
            },
            Err(e) => Err(e),
        }
    } else {
        match statement_at(tokens, pos) {
            Ok((statement, next)) => if pos < next <= tokens.len() {
                parse_from(
                    tokens,
                    next,
                    ProgramView {
                        statements: so_far.statements.push(statement),
                        labels: labels_with(so_far.labels, count, statement),
                        ..so_far
                    },
                    count + instructions_in(statement),
                )
            } else {
                Ok(so_far)
            },
            Err(e) => Err(e),
        }
    }
}

/// The empty program.
pub open spec fn empty_program() -> ProgramView {
    ProgramView { directives: Seq::empty(), statements: Seq::empty(), labels: Map::empty() }
}

/// The errors that parsing raises: the end of the tokens, a token other than
/// the required one, a missing register or number, or text that is no token.
pub open spec fn is_raised(e: ParseErrorView) -> bool {
    match e {
        ParseErrorView::UnexpectedEof => true,
        ParseErrorView::UnexpectedToken { .. } => true,
        ParseErrorView::ExpectedRegister { .. } => true,
        ParseErrorView::ExpectedNumber { .. } => true,
        ParseErrorView::InvalidToken { .. } => true,
        ParseErrorView::TooManyInstructions { .. } => false,
        ParseErrorView::UndefinedLabel { .. } => false,
    }
}

/// An instruction is read from at least one token and at most eight, and
/// its error is one that parsing raises.
#[verifier::rlimit(60)]
pub proof fn lemma_instruction_at(tokens: Seq<Spanned>, pos: int)
    ensures
        match instruction_at(tokens, pos) {
            Ok((_, next)) => pos < next <= pos + 8 && next <= tokens.len(),
            Err(e) => is_raised(e),
        },
{
    reveal(instruction_at);
}

/// A directive is read from at least two tokens and at most four, and its
/// error is one that parsing raises.
pub proof fn lemma_directive_at(tokens: Seq<Spanned>, pos: int)
    ensures
        match directive_at(tokens, pos) {
            Ok((_, next)) => pos + 2 <= next <= pos + 4 && next <= tokens.len(),
            Err(e) => is_raised(e),
        },
{
    reveal(directive_at);
}

/// Parsing never reports too many instructions or an undefined label:
/// the size of a program is checked when it is assembled, and labels are
/// not resolved.
pub proof fn lemma_parse_errors(tokens: Seq<Spanned>, pos: int, so_far: ProgramView, count: nat)
    ensures
        parse_from(tokens, pos, so_far, count) matches Err(e) ==> is_raised(e),
    decreases tokens.len() - pos,
{
    if 0 <= pos < tokens.len() {
        lemma_directive_at(tokens, pos);
        lemma_instruction_at(tokens, pos);
        lemma_instruction_at(tokens, pos + 2);
        if directive_begins_at(tokens, pos) {
            match directive_at(tokens, pos) {
                Ok((directive, next)) => {
                    lemma_parse_errors(
                        tokens,
                        next,
                        ProgramView { directives: so_far.directives.push(directive), ..so_far },
                        count,
                    );
                },
                Err(_) => {},
            }
        } else {
            match statement_at(tokens, pos) {
                Ok((statement, next)) => {
                    if pos < next <= tokens.len() {
                        lemma_parse_errors(
                            tokens,
                            next,
                            ProgramView {
                                statements: so_far.statements.push(statement),
                                labels: labels_with(so_far.labels, count, statement),
                                ..so_far
                            },
                            count + instructions_in(statement),
                        );
                    }
                },
                Err(_) => {},
            }
        }
    }
}

/// Parser for FV-1 assembly source code, over the tokens of the source.
pub struct Parser {
    tokens: Vec<Spanned>,
    pos: usize,
}

impl Parser {
    /// The tokens that the parser reads.
    pub closed spec fn tokens(&self) -> Seq<Spanned> {
        self.tokens@
    }

    /// The place of the next token.
    pub closed spec fn cursor(&self) -> int {
        self.pos as int
    }

    #[verifier::type_invariant]
    closed spec fn in_bounds(&self) -> bool {
        self.pos <= self.tokens@.len()
    }

    /// Create a new parser for the given source code: the source is read
    /// into tokens at once.
    pub fn new(source: &str) -> (parser: Parser)
        ensures
            matches_lexemes(parser.tokens(), lexemes_from(source.spec_bytes(), 0)),
            parser.cursor() == 0,
    {
        let mut lexer = Lexer::new(source);
        let tokens = lexer.tokenize();
        Parser { tokens, pos: 0 }
    }

    /// Create a new parser for a list of tokens.
    pub fn from_tokens(tokens: Vec<Spanned>) -> (parser: Parser)
        ensures
            parser.tokens() == tokens@,
            parser.cursor() == 0,
    {
        Parser { tokens, pos: 0 }
    }

    /// Parse the tokens into a Program: all of them, or up to the first error.
    #[verifier::rlimit(40)]
    pub fn parse(&mut self) -> (r: Result<Program, ParseError>)
        ensures
            final(self).tokens() == old(self).tokens(),
            match parse_from(old(self).tokens(), old(self).cursor(), empty_program(), 0) {
                Ok(program) => r is Ok && r->Ok_0@ == program,
                Err(e) => r is Err && r->Err_0@ == e,
            },
    {
        let mut program = Program::new();
        let ghost tokens = self.tokens@;
        let ghost start = self.pos as int;
        proof {
            assert(program@.directives =~= Seq::empty());
            assert(program@.statements =~= Seq::empty());
            assert(program@ == empty_program());
        }
        while !self.is_at_end()
            invariant
                self.tokens@ == tokens,
                tokens == old(self).tokens@,
                start == old(self).pos,
                parse_from(tokens, self.pos as int, program@, program.instruction_seq().len())
                    == parse_from(tokens, start, empty_program(), 0),
            decreases tokens.len() - self.pos,
        {
            proof {
                use_type_invariant(&*self);
            }
            let ghost before = program@;
            let ghost count = program.instruction_seq().len();
            let ghost pos = self.pos as int;
            // Try to parse directive or statement
            if self.check_directive() {
                let directive = self.parse_directive()?;
                program.directives.push(directive);
                proof {
                    use_type_invariant(&*self);
                    assert(program@.directives =~= before.directives.push(directive@));
                    assert(program@.statements == before.statements);
                }
            } else {
                let stmt = self.parse_statement()?;
                proof {
                    use_type_invariant(&*self);
                    crate::ast::lemma_instructions_len(program.statements@);
                    assert(instructions_of(seq![stmt]).len() == instructions_in(stmt@)) by {
                        assert(seq![stmt].drop_last() =~= Seq::<Statement>::empty());
                        assert(seq![stmt].last() == stmt);
                        reveal_with_fuel(crate::ast::instructions_of, 2);
                    }
                    assert(crate::ast::labels_after(program.labels@, count, stmt) == labels_with(
                        before.labels,
                        count,
                        stmt@,
                    ));
                }
                program.add_statement(stmt);
                proof {
                    assert(program@.statements =~= before.statements.push(stmt@));
                    assert(program@.directives == before.directives);
                }
            }
        }
        Ok(program)
    }

    /// Parse a statement (label, instruction, or labeled instruction).
    #[verifier::rlimit(40)]
    fn parse_statement(&mut self) -> (r: Result<Statement, ParseError>)
        ensures
            final(self).tokens@ == old(self).tokens@,
            match statement_at(old(self).tokens@, old(self).pos as int) {
                Ok((statement, next)) => r is Ok && r->Ok_0@ == statement && final(self).pos
                    == next && old(self).pos < next,
                Err(e) => r is Err && r->Err_0@ == e,
            },
    {
        proof {
            use_type_invariant(&*self);
        }
        // Check for label followed by colon
        let mut found: Option<String> = None;
        if self.pos < self.tokens.len() && self.tokens.len() - self.pos > 1 {
            match (&self.tokens[self.pos].0, &self.tokens[self.pos + 1].0) {
                (Ok(Token::Identifier(name)), Ok(Token::Colon)) => {
                    found = Some(name.clone());
                },
                _ => {},
            }
        }
        match found {
            Some(label) => {
                self.pos = self.pos + 2;  // consume identifier and colon
                // Check if there's an instruction on the same line
                if !self.is_at_end() && self.is_instruction() {
                    let instruction = self.parse_instruction()?;
                    Ok(Statement::LabeledInstruction { label, instruction })
                } else {
                    Ok(Statement::Label(label))
                }
            },
            None => {
                // Parse standalone instruction
                let instruction = self.parse_instruction()?;
                Ok(Statement::Instruction(instruction))
            },
        }
    }

    /// Parse an instruction: a mnemonic and its operands.
    #[verifier::rlimit(40)]
    fn parse_instruction(&mut self) -> (r: Result<Instruction, ParseError>)
        ensures
            final(self).tokens@ == old(self).tokens@,
            match instruction_at(old(self).tokens@, old(self).pos as int) {
                Ok((instruction, next)) => r == Ok::<Instruction, ParseError>(instruction)
                    && final(self).pos == next && old(self).pos < next,
                Err(e) => r is Err && r->Err_0@ == e,
            },
    {
        proof {
            use_type_invariant(&*self);
        }
        proof {
            reveal(instruction_at);
        }
        let token = self.advance_checked()?;
        match token {
            Token::RDAX => {
                let (reg, coeff) = self.parse_reg_coeff()?;
                Ok(Instruction::RDAX { reg, coeff })
            },
            Token::RDA => {
                let (addr, coeff) = self.parse_addr_coeff()?;
                Ok(Instruction::RDA { addr, coeff })
            },
            Token::WRAX => {
                let (reg, coeff) = self.parse_reg_coeff()?;
                Ok(Instruction::WRAX { reg, coeff })
            },
            Token::WRA => {
                let (addr, coeff) = self.parse_addr_coeff()?;
                Ok(Instruction::WRA { addr, coeff })
            },
            Token::WRAP => {
                let (addr, coeff) = self.parse_addr_coeff()?;
                Ok(Instruction::WRAP { addr, coeff })
            },
            Token::RMPA => {
                let coeff = self.parse_number()?.to_coefficient();
                Ok(Instruction::RMPA { coeff })
            },
            Token::MULX => {
                let reg = self.parse_register()?;
                Ok(Instruction::MULX { reg })
            },
            Token::RDFX => {
                let (reg, coeff) = self.parse_reg_coeff()?;
                Ok(Instruction::RDFX { reg, coeff })
            },
            Token::RDFX2 => {
                let (reg, coeff) = self.parse_reg_coeff()?;
                Ok(Instruction::RDFX2 { reg, coeff })
            },
            Token::LDAX => {
                let reg = self.parse_register()?;
                Ok(Instruction::LDAX { reg })
            },
            Token::SOF => {
                let (coeff, offset) = self.parse_coeff_offset()?;
                Ok(Instruction::SOF { coeff, offset })
            },
            Token::AND => {
                let mask = self.parse_number()?.to_u32();
                Ok(Instruction::AND { mask })
            },
            Token::OR => {
                let mask = self.parse_number()?.to_u32();
                Ok(Instruction::OR { mask })
            },
            Token::XOR => {
                let mask = self.parse_number()?.to_u32();
                Ok(Instruction::XOR { mask })
            },
            Token::EXP => {
                let (coeff, offset) = self.parse_coeff_offset()?;
                Ok(Instruction::EXP { coeff, offset })
            },
            Token::LOG => {
                let (coeff, offset) = self.parse_coeff_offset()?;
                Ok(Instruction::LOG { coeff, offset })
            },
            Token::SKP => self.parse_skip(),
            Token::WLDS => self.parse_wlds(),
            Token::JAM => {
                let lfo = self.parse_lfo()?;
                Ok(Instruction::JAM { lfo })
            },
            Token::CHO => self.parse_cho(),
            Token::ABSA => Ok(Instruction::ABSA),
            Token::SHL => Ok(Instruction::SHL),
            Token::SHR => Ok(Instruction::SHR),
            Token::CLR => Ok(Instruction::CLR),
            Token::NOP => Ok(Instruction::NOP),
            _ => Err(self.unexpected_before("instruction")),
        }
    }

    /// Parse a register, a comma and a coefficient.
    fn parse_reg_coeff(&mut self) -> (r: Result<(Register, Float32), ParseError>)
        ensures
            final(self).tokens@ == old(self).tokens@,
            match reg_coeff_at(old(self).tokens@, old(self).pos as int) {
                Ok(operands) => r == Ok::<(Register, Float32), ParseError>(operands) && final(self).pos == old(self).pos + 3,
                Err(e) => r is Err && r->Err_0@ == e,
            },
    {
        let reg = self.parse_register()?;
        self.expect_comma()?;
        let coeff = self.parse_number()?.to_coefficient();
        Ok((reg, coeff))
    }

    /// Parse a delay address, a comma and a coefficient.
    fn parse_addr_coeff(&mut self) -> (r: Result<(u16, Float32), ParseError>)
        ensures
            final(self).tokens@ == old(self).tokens@,
            match addr_coeff_at(old(self).tokens@, old(self).pos as int) {
                Ok(operands) => r == Ok::<(u16, Float32), ParseError>(operands) && final(self).pos
                    == old(self).pos + 3,
                Err(e) => r is Err && r->Err_0@ == e,
            },
    {
        let addr = self.parse_number()?.to_u16();
        self.expect_comma()?;
        let coeff = self.parse_number()?.to_coefficient();
        Ok((addr, coeff))
    }

    /// Parse a coefficient, a comma and an offset.
    fn parse_coeff_offset(&mut self) -> (r: Result<(Float32, Float32), ParseError>)
        ensures
            final(self).tokens@ == old(self).tokens@,
            match coeff_offset_at(old(self).tokens@, old(self).pos as int) {
                Ok(operands) => r == Ok::<(Float32, Float32), ParseError>(operands) && final(self).pos == old(self).pos + 3,
                Err(e) => r is Err && r->Err_0@ == e,
            },
    {
        let coeff = self.parse_number()?.to_coefficient();
        self.expect_comma()?;
        let offset = self.parse_number()?.to_coefficient();
        Ok((coeff, offset))
    }

    /// Parse the operands of `SKP`.
    fn parse_skip(&mut self) -> (r: Result<Instruction, ParseError>)
        ensures
            final(self).tokens@ == old(self).tokens@,
            match skip_at(old(self).tokens@, old(self).pos as int) {
                Ok(inst) => r == Ok::<Instruction, ParseError>(inst) && final(self).pos == old(self).pos + 3,
                Err(e) => r is Err && r->Err_0@ == e,
            },
    {
        let condition = self.parse_skip_condition()?;
        self.expect_comma()?;
        let offset = self.parse_number()?.to_i8();
        Ok(Instruction::SKP { condition, offset })
    }

    /// Parse the operands of `WLDS`.
    fn parse_wlds(&mut self) -> (r: Result<Instruction, ParseError>)
        ensures
            final(self).tokens@ == old(self).tokens@,
            match wlds_at(old(self).tokens@, old(self).pos as int) {
                Ok(inst) => r == Ok::<Instruction, ParseError>(inst) && final(self).pos == old(self).pos + 5,
                Err(e) => r is Err && r->Err_0@ == e,
            },
    {
        let lfo = self.parse_lfo()?;
        self.expect_comma()?;
        let freq = self.parse_number()?.to_u16();
        self.expect_comma()?;
        let amplitude = self.parse_number()?.to_u16();
        Ok(Instruction::WLDS { lfo, freq, amplitude })
    }

    /// Parse the operands of `CHO`.
    fn parse_cho(&mut self) -> (r: Result<Instruction, ParseError>)
        ensures
            final(self).tokens@ == old(self).tokens@,
            match cho_at(old(self).tokens@, old(self).pos as int) {
                Ok(inst) => r == Ok::<Instruction, ParseError>(inst) && final(self).pos == old(self).pos + 7,
                Err(e) => r is Err && r->Err_0@ == e,
            },
    {
        let mode = self.parse_cho_mode()?;
        self.expect_comma()?;
        let lfo = self.parse_lfo()?;
        self.expect_comma()?;
        let flags = self.parse_cho_flags()?;
        self.expect_comma()?;
        let addr = self.parse_number()?.to_u16();
        Ok(Instruction::CHO { mode, lfo, flags, addr })
    }

    /// Parse a register.
    fn parse_register(&mut self) -> (r: Result<Register, ParseError>)
        ensures
            final(self).tokens@ == old(self).tokens@,
            match register_at(old(self).tokens@, old(self).pos as int) {
                Ok(reg) => r == Ok::<Register, ParseError>(reg) && final(self).pos == old(self).pos
                    + 1,
                Err(e) => r is Err && r->Err_0@ == e,
            },
    {
        let token = self.advance_checked()?;
        match token {
            Token::ACC => Ok(Register::ACC),
            Token::ADCL => Ok(Register::ADCL),
            Token::ADCR => Ok(Register::ADCR),
            Token::DACL => Ok(Register::DACL),
            Token::DACR => Ok(Register::DACR),
            Token::ADDR_PTR => Ok(Register::ADDR_PTR),
            Token::LR => Ok(Register::LR),
            Token::REG(n) => Ok(Register::REG(*n)),
            Token::POT(n) => {
                if *n <= 2 {
                    Ok(Register::REG(16 + *n))
                } else {
                    Err(ParseError::ExpectedRegister { span: self.span_before() })
                }
            },
            Token::SIN0_RATE => Ok(Register::SIN0_RATE),
            Token::SIN0_RANGE => Ok(Register::SIN0_RANGE),
            Token::SIN1_RATE => Ok(Register::SIN1_RATE),
            Token::SIN1_RANGE => Ok(Register::SIN1_RANGE),
            Token::RMP0_RATE => Ok(Register::RMP0_RATE),
            Token::RMP0_RANGE => Ok(Register::RMP0_RANGE),
            Token::RMP1_RATE => Ok(Register::RMP1_RATE),
            Token::RMP1_RANGE => Ok(Register::RMP1_RANGE),
            _ => Err(ParseError::ExpectedRegister { span: self.span_before() }),
        }
    }

    /// Parse a numeric value (float or integer).
    fn parse_number(&mut self) -> (r: Result<Number, ParseError>)
        ensures
            final(self).tokens@ == old(self).tokens@,
            match number_at(old(self).tokens@, old(self).pos as int) {
                Ok(number) => r == Ok::<Number, ParseError>(number) && final(self).pos == old(self).pos + 1,
                Err(e) => r is Err && r->Err_0@ == e,
            },
    {
        let token = self.advance_checked()?;
        match token {
            Token::Float(f) => Ok(Number::Float(*f)),
            Token::Integer(i) => Ok(Number::Integer(*i)),
            _ => Err(ParseError::ExpectedNumber { span: self.span_before() }),
        }
    }

    /// Parse an LFO.
    fn parse_lfo(&mut self) -> (r: Result<Lfo, ParseError>)
        ensures
            final(self).tokens@ == old(self).tokens@,
            match lfo_at(old(self).tokens@, old(self).pos as int) {
                Ok(lfo) => r == Ok::<Lfo, ParseError>(lfo) && final(self).pos == old(self).pos + 1,
                Err(e) => r is Err && r->Err_0@ == e,
            },
    {
        let token = self.advance_checked()?;
        match token {
            Token::SIN0 => Ok(Lfo::SIN0),
            Token::SIN1 => Ok(Lfo::SIN1),
            Token::RMP0 => Ok(Lfo::RMP0),
            Token::RMP1 => Ok(Lfo::RMP1),
            _ => Err(self.unexpected_before("LFO (sin0, sin1, rmp0, rmp1)")),
        }
    }

    /// Parse a skip condition.
    fn parse_skip_condition(&mut self) -> (r: Result<SkipCondition, ParseError>)
        ensures
            final(self).tokens@ == old(self).tokens@,
            match condition_at(old(self).tokens@, old(self).pos as int) {
                Ok(condition) => r == Ok::<SkipCondition, ParseError>(condition) && final(self).pos == old(self).pos + 1,
                Err(e) => r is Err && r->Err_0@ == e,
            },
    {
        let token = self.advance_checked()?;
        match token {
            Token::GEZ => Ok(SkipCondition::GEZ),
            Token::NEG => Ok(SkipCondition::NEG),
            Token::ZRC => Ok(SkipCondition::ZRC),
            Token::ZRO => Ok(SkipCondition::ZRO),
            Token::RUN => Ok(SkipCondition::RUN),
            _ => Err(self.unexpected_before("skip condition (gez, neg, zrc, zro, run)")),
        }
    }

    /// Parse CHO mode.
    fn parse_cho_mode(&mut self) -> (r: Result<ChoMode, ParseError>)
        ensures
            final(self).tokens@ == old(self).tokens@,
            match mode_at(old(self).tokens@, old(self).pos as int) {
                Ok(mode) => r == Ok::<ChoMode, ParseError>(mode) && final(self).pos == old(self).pos + 1,
                Err(e) => r is Err && r->Err_0@ == e,
            },
    {
        let token = self.advance_checked()?;
        match token {
            Token::RDA => Ok(ChoMode::RDA),
            Token::SOF => Ok(ChoMode::SOF),
            Token::RDAL => Ok(ChoMode::RDAL),
            _ => Err(self.unexpected_before("CHO mode (rda, sof, rdal)")),
        }
    }

    /// Parse CHO flags: one token is read, and no flag is set.
    fn parse_cho_flags(&mut self) -> (r: Result<ChoFlags, ParseError>)
        ensures
            final(self).tokens@ == old(self).tokens@,
            match flags_at(old(self).tokens@, old(self).pos as int) {
                Ok(flags) => r == Ok::<ChoFlags, ParseError>(flags) && final(self).pos == old(self).pos + 1,
                Err(e) => r is Err && r->Err_0@ == e,
            },
    {
        let _token = self.advance_checked()?;
        Ok(ChoFlags { rptr2: false, na: false, compc: false, compa: false, rptr2_select: false })
    }

    /// Parse a directive.
    #[verifier::rlimit(40)]
    fn parse_directive(&mut self) -> (r: Result<Directive, ParseError>)
        ensures
            final(self).tokens@ == old(self).tokens@,
            match directive_at(old(self).tokens@, old(self).pos as int) {
                Ok((directive, next)) => r is Ok && r->Ok_0@ == directive && final(self).pos
                    == next && old(self).pos < next,
                Err(e) => r is Err && r->Err_0@ == e,
            },
    {
        proof {
            use_type_invariant(&*self);
            reveal(directive_at);
        }
        let token = self.advance_checked()?;
        match token {
            Token::EQU => {
                let name = self.parse_identifier()?;
                self.expect_comma()?;
                let value = self.parse_value()?;
                Ok(Directive::Equate { name, value })
            },
            Token::MEM => {
                let name = self.parse_identifier()?;
                let size = self.parse_number()?.to_u16();
                Ok(Directive::MemoryAllocation { name, size })
            },
            Token::SPINASM => {
                let version = self.parse_identifier()?;
                Ok(Directive::SpinAsm { version })
            },
            _ => Err(self.unexpected_before("directive (equ, mem, spinasm)")),
        }
    }

    /// Parse an identifier.
    fn parse_identifier(&mut self) -> (r: Result<String, ParseError>)
        ensures
            final(self).tokens@ == old(self).tokens@,
            match identifier_at(old(self).tokens@, old(self).pos as int) {
                Ok(name) => r is Ok && r->Ok_0@ == name && final(self).pos == old(self).pos + 1,
                Err(e) => r is Err && r->Err_0@ == e,
            },
    {
        let token = self.advance_checked()?;
        match token {
            Token::Identifier(name) => Ok(name.clone()),
            _ => Err(self.unexpected_before("identifier")),
        }
    }

    /// Parse a value (for directives).
    fn parse_value(&mut self) -> (r: Result<Value, ParseError>)
        ensures
            final(self).tokens@ == old(self).tokens@,
            match value_at(old(self).tokens@, old(self).pos as int) {
                Ok(value) => r is Ok && r->Ok_0@ == value && final(self).pos == old(self).pos + 1,
                Err(e) => r is Err && r->Err_0@ == e,
            },
    {
        let token = self.advance_checked()?;
        match token {
            Token::Float(f) => Ok(Value::Float(*f)),
            Token::Integer(i) => Ok(Value::Integer(*i)),
            Token::Identifier(name) => Ok(Value::Identifier(name.clone())),
            _ => Err(ParseError::ExpectedNumber { span: 0..0 }),
        }
    }

    // Helper methods

    /// Check if current token is a directive.
    fn check_directive(&self) -> (b: bool)
        ensures
            b == directive_begins_at(self.tokens@, self.pos as int),
    {
        match self.peek() {
            Some((Ok(Token::EQU), _)) => true,
            Some((Ok(Token::MEM), _)) => true,
            Some((Ok(Token::SPINASM), _)) => true,
            _ => false,
        }
    }

    /// Check if current token is an instruction.
    fn is_instruction(&self) -> (b: bool)
        ensures
            b == mnemonic_at(self.tokens@, self.pos as int),
    {
        match self.peek() {
            Some((Ok(token), _)) => match token {
                Token::RDAX => true,
                Token::RDA => true,
                Token::WRAX => true,
                Token::WRA => true,
                Token::WRAP => true,
                Token::RMPA => true,
                Token::MULX => true,
                Token::RDFX => true,
                Token::RDFX2 => true,
                Token::LDAX => true,
                Token::SOF => true,
                Token::AND => true,
                Token::OR => true,
                Token::XOR => true,
                Token::EXP => true,
                Token::LOG => true,
                Token::SKP => true,
                Token::WLDS => true,
                Token::JAM => true,
                Token::CHO => true,
                Token::ABSA => true,
                Token::SHL => true,
                Token::SHR => true,
                Token::CLR => true,
                Token::NOP => true,
                _ => false,
            },
            _ => false,
        }
    }

    /// Check if at end of token stream.
    fn is_at_end(&self) -> (b: bool)
        ensures
            b == (self.pos >= self.tokens@.len()),
            self.tokens@.len() <= usize::MAX,
    {
        self.pos >= self.tokens.len()
    }

    /// Peek at current token without consuming.
    fn peek(&self) -> (entry: Option<&Spanned>)
        ensures
            match entry {
                Some(e) => self.pos < self.tokens@.len() && *e == self.tokens@[self.pos as int],
                None => self.pos >= self.tokens@.len(),
            },
    {
        if self.pos < self.tokens.len() {
            Some(&self.tokens[self.pos])
        } else {
            None
        }
    }

    /// Advance and return the token, or an error at the end of the tokens
    /// and where the lexer found no token.
    fn advance_checked(&mut self) -> (r: Result<&Token, ParseError>)
        ensures
            final(self).tokens@ == old(self).tokens@,
            match token_at(old(self).tokens@, old(self).pos as int) {
                Ok(token) => r is Ok && *r->Ok_0 == token && final(self).pos == old(self).pos + 1,
                Err(e) => r is Err && r->Err_0@ == e,
            },
    {
        proof {
            use_type_invariant(&*self);
        }
        if self.is_at_end() {
            return Err(ParseError::UnexpectedEof);
        }
        self.pos = self.pos + 1;
        let entry = &self.tokens[self.pos - 1];
        match &entry.0 {
            Ok(token) => Ok(token),
            Err(_) => Err(ParseError::InvalidToken { span: entry.1.start..entry.1.end }),
        }
    }

    /// The span of the token that was read last.
    fn span_before(&self) -> (span: Range<usize>)
        requires
            0 < self.pos <= self.tokens@.len(),
        ensures
            span == self.tokens@[self.pos - 1].1,
    {
        let entry = &self.tokens[self.pos - 1];
        entry.1.start..entry.1.end
    }

    /// The error for the token that was read last, where another was required.
    fn unexpected_before(&self, expected: &str) -> (e: ParseError)
        requires
            0 < self.pos <= self.tokens@.len(),
            self.tokens@[self.pos - 1].0 is Ok,
        ensures
            e@ == unexpected(
                expected@,
                self.tokens@[self.pos - 1].0->Ok_0,
                self.tokens@[self.pos - 1].1,
            ),
    {
        let entry = &self.tokens[self.pos - 1];
        match &entry.0 {
            Ok(token) => ParseError::UnexpectedToken {
                expected: expected.to_owned(),
                found: describe_token(token),
                span: entry.1.start..entry.1.end,
            },
            Err(_) => ParseError::UnexpectedEof,
        }
    }

    /// Expect a comma.
    fn expect_comma(&mut self) -> (r: Result<(), ParseError>)
        ensures
            final(self).tokens@ == old(self).tokens@,
            match comma_at(old(self).tokens@, old(self).pos as int) {
                None => r is Ok && final(self).pos == old(self).pos + 1,
                Some(e) => r is Err && r->Err_0@ == e,
            },
    {
        let token = self.advance_checked()?;
        match token {
            Token::Comma => Ok(()),
            _ => Err(self.unexpected_before("Comma")),
        }
    }
}

} // verus!
