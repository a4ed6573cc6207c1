//! Lexical analysis of FV-1 assembly source.
//!
//! The source is read as bytes. Whitespace and comments (from `;` to the
//! end of the line) separate lexemes and are not reported. At every other
//! place the longest lexeme that begins there is taken: a word, a number,
//! a punctuation mark, or, where none begins, one invalid character.

use crate::float32::Float32;
use crate::literal::{decimal_bits, decimal_float, MAX_EXPONENT};
use crate::text::push_char;
use crate::wide::{is_normal, mul_add, value_of};
use std::ops::Range;
use vstd::prelude::*;
use vstd::string::*;

verus! {

/// Token types for FV-1 assembly language.
#[derive(Debug, Clone, PartialEq)]
#[allow(non_camel_case_types)]
pub enum Token {
    // Instructions
    RDAX,
    RDA,
    WRAX,
    WRA,
    WRAP,
    RMPA,
    MULX,
    RDFX,
    ABSA,
    LDAX,
    RDFX2,
    SOF,
    AND,
    OR,
    XOR,
    SHL,
    SHR,
    CLR,
    NOP,
    EXP,
    LOG,
    SKP,
    WLDS,
    JAM,
    CHO,
    // Registers
    ACC,
    ADCL,
    ADCR,
    DACL,
    DACR,
    ADDR_PTR,
    LR,
    /// REG0 to REG31.
    REG(u8),
    /// POT0 to POT2.
    POT(u8),
    // LFOs
    SIN0,
    SIN1,
    RMP0,
    RMP1,
    // LFO rate/range registers
    SIN0_RATE,
    SIN0_RANGE,
    SIN1_RATE,
    SIN1_RANGE,
    RMP0_RATE,
    RMP0_RANGE,
    RMP1_RATE,
    RMP1_RANGE,
    // Skip conditions
    GEZ,
    NEG,
    ZRC,
    ZRO,
    RUN,
    // CHO modes
    RDAL,
    // CHO flags
    RPTR2,
    NA,
    COMPC,
    COMPA,
    // Numeric literals
    Float(Float32),
    Integer(i64),
    /// Labels and equate names.
    Identifier(String),
    // Operators and punctuation
    Comma,
    Colon,
    Equals,
    Pipe,
    // Directives
    EQU,
    MEM,
    SPINASM,
    Hash,
}

/// A token with its span in the source, or the span of text that is none.
pub type Spanned = (Result<Token, ()>, Range<usize>);

/// What a lexeme is, with the name of an identifier as a sequence of characters.
pub ghost enum LexemeSpec {
    /// A token other than an identifier.
    Plain(Token),
    /// An identifier.
    Name(Seq<char>),
    /// No lexeme.
    Invalid,
}

/// The token, or the lack of one, is the lexeme: an identifier has its name.
pub open spec fn describes(lexeme: Result<Token, ()>, spec: LexemeSpec) -> bool {
    match spec {
        LexemeSpec::Plain(token) => lexeme == Ok::<Token, ()>(token),
        LexemeSpec::Name(name) => lexeme matches Ok(Token::Identifier(text)) && text@ == name,
        LexemeSpec::Invalid => lexeme is Err,
    }
}

/// Classes of bytes of which a lexeme holds a run.
#[derive(Clone, Copy, Debug, PartialEq, Eq, Structural)]
pub enum ByteClass {
    /// `0` to `9`.
    Digit,
    /// `0` to `9`, `a` to `f`, `A` to `F`.
    HexDigit,
    /// `0` and `1`.
    BinaryDigit,
    /// Letters, digits and `_`.
    Word,
    /// Every byte but the line feed.
    Comment,
    /// The bytes of a character of several bytes after its first.
    Continuation,
}

/// A byte of blank space: space, tab, carriage return, line feed, form feed.
pub open spec fn is_space(b: u8) -> bool {
    b == 32 || b == 9 || b == 13 || b == 10 || b == 12
}

/// A decimal digit.
pub open spec fn is_digit(b: u8) -> bool {
    48 <= b <= 57
}

/// A letter or `_`.
pub open spec fn is_word_start(b: u8) -> bool {
    (65 <= b <= 90) || (97 <= b <= 122) || b == 95
}

/// Whether a byte belongs to a class.
pub open spec fn in_class(class: ByteClass, b: u8) -> bool {
    match class {
        ByteClass::Digit => is_digit(b),
        ByteClass::HexDigit => is_digit(b) || (65 <= b <= 70) || (97 <= b <= 102),
        ByteClass::BinaryDigit => b == 48 || b == 49,
        ByteClass::Word => is_word_start(b) || is_digit(b),
        ByteClass::Comment => b != 10,
        ByteClass::Continuation => 128 <= b < 192,
    }
}

/// Where the run of bytes of a class that begins at `pos` ends.
pub open spec fn run_end(bytes: Seq<u8>, pos: int, class: ByteClass) -> int
    decreases bytes.len() - pos,
{
    if 0 <= pos < bytes.len() && in_class(class, bytes[pos]) {
        run_end(bytes, pos + 1, class)
    } else {
        pos
    }
}

/// Where the blank space and the comments that begin at `pos` end.
pub open spec fn skip_trivia(bytes: Seq<u8>, pos: int) -> int
    decreases bytes.len() - pos,
{
    if 0 <= pos < bytes.len() && is_space(bytes[pos]) {
        skip_trivia(bytes, pos + 1)
    } else if 0 <= pos < bytes.len() && bytes[pos] == 59 {
        let end = run_end(bytes, pos + 1, ByteClass::Comment);
        if pos < end <= bytes.len() {
            skip_trivia(bytes, end)
        } else {
            pos
        }
    } else {
        pos
    }
}

/// The value of a digit in any base up to sixteen.
pub open spec fn digit_value(b: u8) -> nat {
    if is_digit(b) {
        (b - 48) as nat
    } else if 97 <= b <= 102 {
        (b - 87) as nat
    } else if 65 <= b <= 70 {
        (b - 55) as nat
    } else {
        0
    }
}

/// The value of the digits from `start` to `end` in a base.
pub open spec fn digits_value(bytes: Seq<u8>, start: int, end: int, base: nat) -> nat
    decreases end - start,
{
    if end <= start {
        0
    } else {
        digits_value(bytes, start, end - 1, base) * base + digit_value(bytes[end - 1])
    }
}

/// A byte in lower case.
pub open spec fn lower(b: u8) -> u8 {
    if 65 <= b <= 90 {
        (b + 32) as u8
    } else {
        b
    }
}

/// The bytes as characters.
pub open spec fn chars_of(word: Seq<u8>) -> Seq<char> {
    Seq::new(word.len(), |i: int| word[i] as char)
}

/// The bytes as characters in lower case.
pub open spec fn lower_chars_of(word: Seq<u8>) -> Seq<char> {
    Seq::new(word.len(), |i: int| lower(word[i]) as char)
}

/// The token of a word in lower case that is a mnemonic, a register, an
/// LFO, a condition, a mode, a flag or a directive.
pub open spec fn keyword(word: Seq<char>) -> Option<Token> {
    if word == "rdax"@ {
        Some(Token::RDAX)
    } else if word == "rda"@ {
        Some(Token::RDA)
    } else if word == "wrax"@ {
        Some(Token::WRAX)
    } else if word == "wra"@ {
        Some(Token::WRA)
    } else if word == "wrap"@ {
        Some(Token::WRAP)
    } else if word == "rmpa"@ {
        Some(Token::RMPA)
    } else if word == "mulx"@ {
        Some(Token::MULX)
    } else if word == "rdfx"@ {
        Some(Token::RDFX)
    } else if word == "absa"@ {
        Some(Token::ABSA)
    } else if word == "ldax"@ {
        Some(Token::LDAX)
    } else if word == "rdfx2"@ {
        Some(Token::RDFX2)
    } else if word == "sof"@ {
        Some(Token::SOF)
    } else if word == "and"@ {
        Some(Token::AND)
    } else if word == "or"@ {
        Some(Token::OR)
    } else if word == "xor"@ {
        Some(Token::XOR)
    } else if word == "shl"@ {
        Some(Token::SHL)
    } else if word == "shr"@ {
        Some(Token::SHR)
    } else if word == "clr"@ {
        Some(Token::CLR)
    } else if word == "nop"@ {
        Some(Token::NOP)
    } else if word == "exp"@ {
        Some(Token::EXP)
    } else if word == "log"@ {
        Some(Token::LOG)
    } else if word == "skp"@ {
        Some(Token::SKP)
    } else if word == "wlds"@ {
        Some(Token::WLDS)
    } else if word == "jam"@ {
        Some(Token::JAM)
    } else if word == "cho"@ {
        Some(Token::CHO)
    } else if word == "acc"@ {
        Some(Token::ACC)
    } else if word == "adcl"@ {
        Some(Token::ADCL)
    } else if word == "adcr"@ {
        Some(Token::ADCR)
    } else if word == "dacl"@ {
        Some(Token::DACL)
    } else if word == "dacr"@ {
        Some(Token::DACR)
    } else if word == "addr_ptr"@ {
        Some(Token::ADDR_PTR)
    } else if word == "lr"@ {
        Some(Token::LR)
    } else if word == "sin0"@ {
        Some(Token::SIN0)
    } else if word == "sin1"@ {
        Some(Token::SIN1)
    } else if word == "rmp0"@ {
        Some(Token::RMP0)
    } else if word == "rmp1"@ {
        Some(Token::RMP1)
    } else if word == "sin0_rate"@ {
        Some(Token::SIN0_RATE)
    } else if word == "sin0_range"@ {
        Some(Token::SIN0_RANGE)
    } else if word == "sin1_rate"@ {
        Some(Token::SIN1_RATE)
    } else if word == "sin1_range"@ {
        Some(Token::SIN1_RANGE)
    } else if word == "rmp0_rate"@ {
        Some(Token::RMP0_RATE)
    } else if word == "rmp0_range"@ {
        Some(Token::RMP0_RANGE)
    } else if word == "rmp1_rate"@ {
        Some(Token::RMP1_RATE)
    } else if word == "rmp1_range"@ {
        Some(Token::RMP1_RANGE)
    } else if word == "gez"@ {
        Some(Token::GEZ)
    } else if word == "neg"@ {
        Some(Token::NEG)
    } else if word == "zrc"@ {
        Some(Token::ZRC)
    } else if word == "zro"@ {
        Some(Token::ZRO)
    } else if word == "run"@ {
        Some(Token::RUN)
    } else if word == "rdal"@ {
        Some(Token::RDAL)
    } else if word == "rptr2"@ {
        Some(Token::RPTR2)
    } else if word == "na"@ {
        Some(Token::NA)
    } else if word == "compc"@ {
        Some(Token::COMPC)
    } else if word == "compa"@ {
        Some(Token::COMPA)
    } else if word == "equ"@ {
        Some(Token::EQU)
    } else if word == "mem"@ {
        Some(Token::MEM)
    } else if word == "spinasm"@ {
        Some(Token::SPINASM)
    } else {
        None
    }
}

/// The value of a character that is a decimal digit.
pub open spec fn char_digit(c: char) -> Option<u8> {
    if '0' <= c <= '9' {
        Some((c as u8 - 48) as u8)
    } else {
        None
    }
}

/// The token of a word in lower case that is `reg` with a number from 0 to
/// 31 without a leading zero, or `pot` with a number from 0 to 2.
pub open spec fn indexed_token(word: Seq<char>) -> Option<Token> {
    if word.len() == 4 && word[0] == 'r' && word[1] == 'e' && word[2] == 'g' && char_digit(
        word[3],
    ) is Some {
        Some(Token::REG(char_digit(word[3])->Some_0))
    } else if word.len() == 5 && word[0] == 'r' && word[1] == 'e' && word[2] == 'g' && (word[3]
        == '1' || word[3] == '2') && char_digit(word[4]) is Some {
        Some(Token::REG((char_digit(word[3])->Some_0 * 10 + char_digit(word[4])->Some_0) as u8))
    } else if word.len() == 5 && word[0] == 'r' && word[1] == 'e' && word[2] == 'g' && word[3]
        == '3' && (word[4] == '0' || word[4] == '1') {
        Some(Token::REG((30 + char_digit(word[4])->Some_0) as u8))
    } else if word.len() == 4 && word[0] == 'p' && word[1] == 'o' && word[2] == 't' && (word[3]
        == '0' || word[3] == '1' || word[3] == '2') {
        Some(Token::POT(char_digit(word[3])->Some_0))
    } else {
        None
    }
}

/// The lexeme of a word: a keyword or an indexed register whatever the case
/// of its letters, else an identifier.
pub open spec fn word_lexeme(word: Seq<u8>) -> LexemeSpec {
    match keyword(lower_chars_of(word)) {
        Some(token) => LexemeSpec::Plain(token),
        None => match indexed_token(lower_chars_of(word)) {
            Some(token) => LexemeSpec::Plain(token),
            None => LexemeSpec::Name(chars_of(word)),
        },
    }
}

/// The lexeme of the digits from `start` to `end` in a base, negated or
/// not: a whole number, or invalid if it does not fit 64 bits with a sign.
pub open spec fn integer_lexeme(bytes: Seq<u8>, start: int, end: int, base: nat, negative: bool) -> LexemeSpec {
    let value = digits_value(bytes, start, end, base);
    if negative {
        if value <= 0x8000_0000_0000_0000 {
            LexemeSpec::Plain(Token::Integer((-(value as int)) as i64))
        } else {
            LexemeSpec::Invalid
        }
    } else {
        if value <= 0x7FFF_FFFF_FFFF_FFFF {
            LexemeSpec::Plain(Token::Integer(value as i64))
        } else {
            LexemeSpec::Invalid
        }
    }
}

/// The value of the decimal digits from `start` to `end`, written after
/// the digits of `seed`.
pub open spec fn digits_onto(bytes: Seq<u8>, start: int, end: int, seed: nat) -> nat
    decreases end - start,
{
    if end <= start {
        seed
    } else {
        digits_onto(bytes, start, end - 1, seed) * 10 + digit_value(bytes[end - 1])
    }
}

/// The power of ten of the exponent from `pos`, where `e` or `E` stands, to
/// `end`. A power beyond `MAX_EXPONENT` counts as `MAX_EXPONENT`.
pub open spec fn exponent_value(bytes: Seq<u8>, pos: int, end: int) -> int {
    let signed = bytes[pos + 1] == 43 || bytes[pos + 1] == 45;
    let digits = if signed {
        pos + 2
    } else {
        pos + 1
    };
    let value = digits_value(bytes, digits, end, 10);
    let capped = if value > MAX_EXPONENT {
        MAX_EXPONENT as int
    } else {
        value as int
    };
    if bytes[pos + 1] == 45 {
        -capped
    } else {
        capped
    }
}

/// The number of the floating-point literal from `pos` to `end`, whose
/// digits before the point end at `whole_end` and whose digits after the
/// point, if it has any, end at `fraction_end`: the nearest
/// single-precision number to its decimal value.
pub open spec fn float_value(
    bytes: Seq<u8>,
    pos: int,
    whole_end: int,
    fraction_end: Option<int>,
    end: int,
) -> Float32 {
    let negative = bytes[pos] == 45;
    let digits = if negative {
        pos + 1
    } else {
        pos
    };
    let whole = digits_onto(bytes, digits, whole_end, 0);
    let all = match fraction_end {
        Some(fraction_end) => digits_onto(bytes, whole_end + 1, fraction_end, whole),
        None => whole,
    };
    let places = match fraction_end {
        Some(fraction_end) => fraction_end - whole_end - 1,
        None => 0,
    };
    let mantissa_end = match fraction_end {
        Some(fraction_end) => fraction_end,
        None => whole_end,
    };
    let power = if mantissa_end < end {
        exponent_value(bytes, mantissa_end, end)
    } else {
        0
    };
    decimal_float(negative, all, power - places)
}

/// Where the exponent that begins at `pos` ends, if one begins there: `e`
/// or `E`, a sign or none, and at least one digit.
pub open spec fn exponent_end(bytes: Seq<u8>, pos: int) -> Option<int> {
    if 0 <= pos < bytes.len() && (bytes[pos] == 101 || bytes[pos] == 69) {
        let digits = if pos + 1 < bytes.len() && (bytes[pos + 1] == 43 || bytes[pos + 1] == 45) {
            pos + 2
        } else {
            pos + 1
        };
        let end = run_end(bytes, digits, ByteClass::Digit);
        if end > digits {
            Some(end)
        } else {
            None
        }
    } else {
        None
    }
}

/// The number that begins at `pos` with a digit, or with a minus sign and
/// a digit: a hexadecimal number after `0x`, else a floating-point literal
/// if a fraction or an exponent follows the digits, else a decimal number.
pub open spec fn number_lexeme(bytes: Seq<u8>, pos: int) -> (LexemeSpec, int) {
    let negative = bytes[pos] == 45;
    let digits = if negative {
        pos + 1
    } else {
        pos
    };
    let whole_end = run_end(bytes, digits, ByteClass::Digit);
    let hex_end = run_end(bytes, pos + 2, ByteClass::HexDigit);
    let fraction_end = run_end(bytes, whole_end + 1, ByteClass::Digit);
    if bytes[pos] == 48 && pos + 1 < bytes.len() && bytes[pos + 1] == 120 && hex_end > pos + 2 {
        (integer_lexeme(bytes, pos + 2, hex_end, 16, false), hex_end)
    } else if whole_end < bytes.len() && bytes[whole_end] == 46 && fraction_end > whole_end + 1 {
        let end = match exponent_end(bytes, fraction_end) {
            Some(end) => end,
            None => fraction_end,
        };
        (
            LexemeSpec::Plain(
                Token::Float(float_value(bytes, pos, whole_end, Some(fraction_end), end)),
            ),
            end,
        )
    } else {
        match exponent_end(bytes, whole_end) {
            Some(end) => (
                LexemeSpec::Plain(Token::Float(float_value(bytes, pos, whole_end, None, end))),
                end,
            ),
            None => (integer_lexeme(bytes, digits, whole_end, 10, negative), whole_end),
        }
    }
}

/// The number that begins at `pos` with a mark (`$` or `%`) and digits of
/// a class, or one invalid character if no digit follows the mark.
pub open spec fn marked_lexeme(bytes: Seq<u8>, pos: int, class: ByteClass, base: nat) -> (
    LexemeSpec,
    int,
) {
    let end = run_end(bytes, pos + 1, class);
    if end > pos + 1 {
        (integer_lexeme(bytes, pos + 1, end, base, false), end)
    } else {
        (LexemeSpec::Invalid, pos + 1)
    }
}

/// The lexeme that begins at `pos`, where a byte stands that is neither
/// blank nor the start of a comment, and where it ends.
pub open spec fn lexeme_at(bytes: Seq<u8>, pos: int) -> (LexemeSpec, int) {
    let b = bytes[pos];
    if is_word_start(b) {
        let end = run_end(bytes, pos, ByteClass::Word);
        (word_lexeme(bytes.subrange(pos, end)), end)
    } else if is_digit(b) || (b == 45 && pos + 1 < bytes.len() && is_digit(bytes[pos + 1])) {
        number_lexeme(bytes, pos)
    } else if b == 36 {
        marked_lexeme(bytes, pos, ByteClass::HexDigit, 16)
    } else if b == 37 {
        marked_lexeme(bytes, pos, ByteClass::BinaryDigit, 2)
    } else if b == 44 {
        (LexemeSpec::Plain(Token::Comma), pos + 1)
    } else if b == 58 {
        (LexemeSpec::Plain(Token::Colon), pos + 1)
    } else if b == 61 {
        (LexemeSpec::Plain(Token::Equals), pos + 1)
    } else if b == 124 {
        (LexemeSpec::Plain(Token::Pipe), pos + 1)
    } else if b == 35 {
        (LexemeSpec::Plain(Token::Hash), pos + 1)
    } else {
        (LexemeSpec::Invalid, run_end(bytes, pos + 1, ByteClass::Continuation))
    }
}

/// A run ends between its start and the end of the bytes, and holds only
/// bytes of its class.
pub proof fn lemma_run_end(bytes: Seq<u8>, pos: int, class: ByteClass)
    requires
        0 <= pos <= bytes.len(),
    ensures
        pos <= run_end(bytes, pos, class) <= bytes.len(),
        forall|i: int| pos <= i < run_end(bytes, pos, class) ==> in_class(class, #[trigger] bytes[i]),
        run_end(bytes, pos, class) < bytes.len() ==> !in_class(
            class,
            bytes[run_end(bytes, pos, class)],
        ),
    decreases bytes.len() - pos,
{
    if pos < bytes.len() && in_class(class, bytes[pos]) {
        lemma_run_end(bytes, pos + 1, class);
    }
}

/// Every lexeme has at least one byte and ends within the bytes.
pub proof fn lemma_lexeme_advances(bytes: Seq<u8>, pos: int)
    requires
        0 <= pos < bytes.len(),
    ensures
        pos < lexeme_at(bytes, pos).1 <= bytes.len(),
{
    lemma_run_end(bytes, pos, ByteClass::Word);
    lemma_run_end(bytes, pos + 1, ByteClass::HexDigit);
    lemma_run_end(bytes, pos + 1, ByteClass::BinaryDigit);
    lemma_run_end(bytes, pos + 1, ByteClass::Continuation);
    let b = bytes[pos];
    if is_digit(b) || (b == 45 && pos + 1 < bytes.len() && is_digit(bytes[pos + 1])) {
        let digits = if b == 45 {
            pos + 1
        } else {
            pos
        };
        lemma_run_end(bytes, digits, ByteClass::Digit);
        let whole_end = run_end(bytes, digits, ByteClass::Digit);
        assert(whole_end > digits);
        if pos + 2 <= bytes.len() {
            lemma_run_end(bytes, pos + 2, ByteClass::HexDigit);
        }
        if whole_end < bytes.len() {
            lemma_run_end(bytes, whole_end + 1, ByteClass::Digit);
            let fraction_end = run_end(bytes, whole_end + 1, ByteClass::Digit);
            lemma_exponent_end(bytes, fraction_end);
        }
        lemma_exponent_end(bytes, whole_end);
    }
}

/// An exponent ends after its start and within the bytes.
pub proof fn lemma_exponent_end(bytes: Seq<u8>, pos: int)
    requires
        0 <= pos <= bytes.len(),
    ensures
        exponent_end(bytes, pos) matches Some(end) ==> pos < end <= bytes.len(),
{
    if pos < bytes.len() {
        lemma_run_end(bytes, pos + 1, ByteClass::Digit);
        if pos + 2 <= bytes.len() {
            lemma_run_end(bytes, pos + 2, ByteClass::Digit);
        }
    }
}

/// Blank space and comments end between their start and the end of the
/// bytes, and a lexeme begins where they end.
pub proof fn lemma_skip_trivia(bytes: Seq<u8>, pos: int)
    requires
        0 <= pos <= bytes.len(),
    ensures
        pos <= skip_trivia(bytes, pos) <= bytes.len(),
        skip_trivia(bytes, pos) < bytes.len() ==> !is_space(bytes[skip_trivia(bytes, pos)])
            && bytes[skip_trivia(bytes, pos)] != 59,
    decreases bytes.len() - pos,
{
    if pos < bytes.len() && is_space(bytes[pos]) {
        lemma_skip_trivia(bytes, pos + 1);
    } else if pos < bytes.len() && bytes[pos] == 59 {
        lemma_run_end(bytes, pos + 1, ByteClass::Comment);
        lemma_skip_trivia(bytes, run_end(bytes, pos + 1, ByteClass::Comment));
    }
}

/// Whether a byte belongs to a class.
fn class_has(class: ByteClass, b: u8) -> (r: bool)
    ensures
        r == in_class(class, b),
{
    match class {
        ByteClass::Digit => 48 <= b && b <= 57,
        ByteClass::HexDigit => (48 <= b && b <= 57) || (65 <= b && b <= 70) || (97 <= b && b
            <= 102),
        ByteClass::BinaryDigit => b == 48 || b == 49,
        ByteClass::Word => (65 <= b && b <= 90) || (97 <= b && b <= 122) || b == 95 || (48 <= b
            && b <= 57),
        ByteClass::Comment => b != 10,
        ByteClass::Continuation => 128 <= b && b < 192,
    }
}

/// Where the run of bytes of a class that begins at `pos` ends.
fn scan_run(bytes: &[u8], pos: usize, class: ByteClass) -> (end: usize)
    requires
        pos <= bytes@.len(),
    ensures
        end == run_end(bytes@, pos as int, class),
        pos <= end <= bytes@.len(),
{
    let mut end: usize = pos;
    while end < bytes.len() && class_has(class, bytes[end])
        invariant
            pos <= end <= bytes@.len(),
            run_end(bytes@, end as int, class) == run_end(bytes@, pos as int, class),
        decreases bytes@.len() - end,
    {
        end += 1;
    }
    end
}

/// Where the blank space and the comments that begin at `pos` end.
fn scan_trivia(bytes: &[u8], pos: usize) -> (end: usize)
    requires
        pos <= bytes@.len(),
    ensures
        end == skip_trivia(bytes@, pos as int),
        pos <= end <= bytes@.len(),
{
    let mut end: usize = pos;
    let mut done = false;
    while !done
        invariant
            pos <= end <= bytes@.len(),
            skip_trivia(bytes@, end as int) == skip_trivia(bytes@, pos as int),
            done ==> skip_trivia(bytes@, end as int) == end,
        decreases bytes@.len() - end + (if done { 0int } else { 1int }),
    {
        if end < bytes.len() && (bytes[end] == 32 || bytes[end] == 9 || bytes[end] == 13
            || bytes[end] == 10 || bytes[end] == 12) {
            end += 1;
        } else if end < bytes.len() && bytes[end] == 59 {
            end = scan_run(bytes, end + 1, ByteClass::Comment);
        } else {
            done = true;
        }
    }
    end
}

/// The value of the digits from `start` to `end` in a base, if it is at
/// most `limit`.
fn read_digits(bytes: &[u8], start: usize, end: usize, base: u64, limit: u64) -> (value: Option<
    u64,
>)
    requires
        start <= end <= bytes@.len(),
        2 <= base <= 16,
        limit <= 0x8000_0000_0000_0000,
    ensures
        match value {
            Some(v) => v == digits_value(bytes@, start as int, end as int, base as nat) && v
                <= limit,
            None => digits_value(bytes@, start as int, end as int, base as nat) > limit,
        },
{
    let mut value: u64 = 0;
    let mut i: usize = start;
    while i < end
        invariant
            start <= i <= end <= bytes@.len(),
            2 <= base <= 16,
            limit <= 0x8000_0000_0000_0000,
            value == digits_value(bytes@, start as int, i as int, base as nat),
            value <= limit,
        decreases end - i,
    {
        let b = bytes[i];
        let digit: u64 = if 48 <= b && b <= 57 {
            (b - 48) as u64
        } else if 97 <= b && b <= 102 {
            (b - 87) as u64
        } else if 65 <= b && b <= 70 {
            (b - 55) as u64
        } else {
            0
        };
        assert(value * base + digit <= 0x8000_0000_0000_0000 * 16 + 15 && value * base >= 0)
            by (nonlinear_arith)
            requires
                0 <= value <= 0x8000_0000_0000_0000,
                0 <= base <= 16,
                0 <= digit <= 15,
        ;
        let next: u128 = (value as u128) * (base as u128) + (digit as u128);
        if next > limit as u128 {
            proof {
                lemma_digits_grow(bytes@, start as int, i + 1, end as int, base as nat);
            }
            return None;
        }
        value = next as u64;
        i += 1;
    }
    Some(value)
}

/// More digits do not make a number smaller.
pub proof fn lemma_digits_grow(bytes: Seq<u8>, start: int, mid: int, end: int, base: nat)
    requires
        start <= mid <= end,
        base >= 1,
    ensures
        digits_value(bytes, start, mid, base) <= digits_value(bytes, start, end, base),
    decreases end - mid,
{
    if mid < end {
        lemma_digits_grow(bytes, start, mid, end - 1, base);
        assert(digits_value(bytes, start, end - 1, base) * base >= digits_value(
            bytes,
            start,
            end - 1,
            base,
        )) by (nonlinear_arith)
            requires
                base >= 1,
        ;
    }
}

/// The whole number of the digits from `start` to `end`.
fn integer_token(bytes: &[u8], start: usize, end: usize, base: u64, negative: bool) -> (lexeme:
    Result<Token, ()>)
    requires
        start <= end <= bytes@.len(),
        2 <= base <= 16,
    ensures
        describes(
            lexeme,
            integer_lexeme(bytes@, start as int, end as int, base as nat, negative),
        ),
{
    if negative {
        match read_digits(bytes, start, end, base, 0x8000_0000_0000_0000) {
            Some(value) => {
                if value == 0x8000_0000_0000_0000 {
                    Ok(Token::Integer(i64::MIN))
                } else {
                    Ok(Token::Integer(-(value as i64)))
                }
            },
            None => Err(()),
        }
    } else {
        match read_digits(bytes, start, end, base, 0x7FFF_FFFF_FFFF_FFFF) {
            Some(value) => Ok(Token::Integer(value as i64)),
            None => Err(()),
        }
    }
}

/// Where the exponent that begins at `pos` ends, if one begins there.
fn scan_exponent(bytes: &[u8], pos: usize) -> (end: Option<usize>)
    requires
        pos <= bytes@.len(),
    ensures
        match end {
            Some(e) => exponent_end(bytes@, pos as int) == Some(e as int) && pos < e
                <= bytes@.len(),
            None => exponent_end(bytes@, pos as int) is None,
        },
{
    if pos < bytes.len() && (bytes[pos] == 101 || bytes[pos] == 69) {
        let digits: usize = if pos + 1 < bytes.len() && (bytes[pos + 1] == 43 || bytes[pos + 1]
            == 45) {
            pos + 2
        } else {
            pos + 1
        };
        let end = scan_run(bytes, digits, ByteClass::Digit);
        if end > digits {
            Some(end)
        } else {
            None
        }
    } else {
        None
    }
}

/// The value of a digit in any base up to sixteen.
fn digit_of_byte(b: u8) -> (d: u32)
    ensures
        d == digit_value(b),
        d < 16,
{
    if 48 <= b && b <= 57 {
        (b - 48) as u32
    } else if 97 <= b && b <= 102 {
        (b - 87) as u32
    } else if 65 <= b && b <= 70 {
        (b - 55) as u32
    } else {
        0
    }
}

/// The number of the decimal digits from `start` to `end`, written after
/// the digits of `seed`.
fn read_wide(bytes: &[u8], start: usize, end: usize, seed: Vec<u32>) -> (out: Vec<u32>)
    requires
        start <= end <= bytes@.len(),
        is_normal(seed@),
    ensures
        value_of(out@) == digits_onto(bytes@, start as int, end as int, value_of(seed@)),
        is_normal(out@),
{
    let mut out = seed;
    let mut i: usize = start;
    while i < end
        invariant
            start <= i <= end <= bytes@.len(),
            is_normal(out@),
            value_of(out@) == digits_onto(bytes@, start as int, i as int, value_of(seed@)),
        decreases end - i,
    {
        out = mul_add(&out, 10, digit_of_byte(bytes[i]));
        i += 1;
    }
    out
}

/// The power of ten of the exponent from `pos` to `end`.
fn read_exponent(bytes: &[u8], pos: usize, end: usize) -> (power: i128)
    requires
        pos + 1 < end <= bytes@.len(),
    ensures
        power == exponent_value(bytes@, pos as int, end as int),
        -(MAX_EXPONENT as int) <= power <= MAX_EXPONENT,
{
    let signed = bytes[pos + 1] == 43 || bytes[pos + 1] == 45;
    let digits: usize = if signed {
        pos + 2
    } else {
        pos + 1
    };
    let mut value: u128 = 0;
    let mut i: usize = digits;
    while i < end
        invariant
            digits <= i <= end <= bytes@.len(),
            value <= MAX_EXPONENT,
            value == (if digits_value(bytes@, digits as int, i as int, 10) > MAX_EXPONENT {
                MAX_EXPONENT as nat
            } else {
                digits_value(bytes@, digits as int, i as int, 10)
            }),
        decreases end - i,
    {
        let d = digit_of_byte(bytes[i]) as u128;
        proof {
            let before = digits_value(bytes@, digits as int, i as int, 10);
            assert(before > MAX_EXPONENT ==> before * 10 + d > MAX_EXPONENT) by (nonlinear_arith)
                requires
                    d >= 0,
                    before >= 0,
                    MAX_EXPONENT == 0x10_0000_0000_0000_0000_0000_0000,
            ;
        }
        let next: u128 = value * 10 + d;
        value = if next > MAX_EXPONENT {
            MAX_EXPONENT
        } else {
            next
        };
        i += 1;
    }
    if bytes[pos + 1] == 45 {
        -(value as i128)
    } else {
        value as i128
    }
}

/// The number of the floating-point literal from `pos` to `end`.
#[verifier::rlimit(40)]
fn read_float(
    bytes: &[u8],
    pos: usize,
    whole_end: usize,
    fraction_end: Option<usize>,
    end: usize,
) -> (f: Float32)
    requires
        pos < whole_end <= end <= bytes@.len(),
        match fraction_end {
            Some(fraction_end) => whole_end + 1 < fraction_end <= end && (fraction_end == end
                || fraction_end + 1 < end),
            None => whole_end + 1 < end,
        },
    ensures
        f == float_value(
            bytes@,
            pos as int,
            whole_end as int,
            match fraction_end {
                Some(fraction_end) => Some(fraction_end as int),
                None => None,
            },
            end as int,
        ),
{
    let negative = bytes[pos] == 45;
    let digits: usize = if negative {
        pos + 1
    } else {
        pos
    };
    let whole = read_wide(bytes, digits, whole_end, Vec::new());
    let (all, places, mantissa_end) = match fraction_end {
        Some(fraction_end) => (
            read_wide(bytes, whole_end + 1, fraction_end, whole),
            fraction_end - whole_end - 1,
            fraction_end,
        ),
        None => (whole, 0, whole_end),
    };
    let power: i128 = if mantissa_end < end {
        read_exponent(bytes, mantissa_end, end)
    } else {
        0
    };
    let bits = decimal_bits(all, power - (places as i128));
    let sign: u32 = if negative {
        0x8000_0000
    } else {
        0
    };
    Float32 { bits: sign + bits }
}

/// The number that begins at `pos`.
#[verifier::rlimit(40)]
fn scan_number(bytes: &[u8], pos: usize) -> (r: (Result<Token, ()>, usize))
    requires
        pos < bytes@.len(),
        is_digit(bytes@[pos as int]) || (bytes@[pos as int] == 45 && pos + 1 < bytes@.len()
            && is_digit(bytes@[pos + 1])),
    ensures
        describes(r.0, number_lexeme(bytes@, pos as int).0),
        r.1 == number_lexeme(bytes@, pos as int).1,
        pos < r.1 <= bytes@.len(),
{
    let negative = bytes[pos] == 45;
    let digits: usize = if negative {
        pos + 1
    } else {
        pos
    };
    let whole_end = scan_run(bytes, digits, ByteClass::Digit);
    proof {
        lemma_run_end(bytes@, digits as int, ByteClass::Digit);
    }
    if bytes[pos] == 48 && pos + 1 < bytes.len() && bytes[pos + 1] == 120 {
        let hex_end = scan_run(bytes, pos + 2, ByteClass::HexDigit);
        if hex_end > pos + 2 {
            return (integer_token(bytes, pos + 2, hex_end, 16, false), hex_end);
        }
    }
    if whole_end < bytes.len() && bytes[whole_end] == 46 {
        let fraction_end = scan_run(bytes, whole_end + 1, ByteClass::Digit);
        if fraction_end > whole_end + 1 {
            let end = match scan_exponent(bytes, fraction_end) {
                Some(end) => end,
                None => fraction_end,
            };
            return (
                Ok(Token::Float(read_float(bytes, pos, whole_end, Some(fraction_end), end))),
                end,
            );
        }
    }
    match scan_exponent(bytes, whole_end) {
        Some(end) => (Ok(Token::Float(read_float(bytes, pos, whole_end, None, end))), end),
        None => (integer_token(bytes, digits, whole_end, 10, negative), whole_end),
    }
}

/// The number that begins at `pos` with a mark and digits of a class.
fn scan_marked(bytes: &[u8], pos: usize, class: ByteClass, base: u64) -> (r: (Result<Token, ()>, usize))
    requires
        pos < bytes@.len(),
        2 <= base <= 16,
    ensures
        describes(r.0, marked_lexeme(bytes@, pos as int, class, base as nat).0),
        r.1 == marked_lexeme(bytes@, pos as int, class, base as nat).1,
        pos < r.1 <= bytes@.len(),
{
    let total = bytes.len();
    let end = scan_run(bytes, pos + 1, class);
    if end > pos + 1 {
        (integer_token(bytes, pos + 1, end, base, false), end)
    } else {
        (Err(()), pos + 1)
    }
}

/// Whether a text is a given word.
fn text_is(text: &String, word: &str) -> (r: bool)
    ensures
        r == (text@ == word@),
{
    let owned = word.to_owned();
    *text == owned
}

/// The token of a word in lower case that is a keyword.
#[verifier::rlimit(40)]
fn keyword_token(word: &String) -> (token: Option<Token>)
    ensures
        token == keyword(word@),
{
    if text_is(word, "rdax") {
        Some(Token::RDAX)
    } else if text_is(word, "rda") {
        Some(Token::RDA)
    } else if text_is(word, "wrax") {
        Some(Token::WRAX)
    } else if text_is(word, "wra") {
        Some(Token::WRA)
    } else if text_is(word, "wrap") {
        Some(Token::WRAP)
    } else if text_is(word, "rmpa") {
        Some(Token::RMPA)
    } else if text_is(word, "mulx") {
        Some(Token::MULX)
    } else if text_is(word, "rdfx") {
        Some(Token::RDFX)
    } else if text_is(word, "absa") {
        Some(Token::ABSA)
    } else if text_is(word, "ldax") {
        Some(Token::LDAX)
    } else if text_is(word, "rdfx2") {
        Some(Token::RDFX2)
    } else if text_is(word, "sof") {
        Some(Token::SOF)
    } else if text_is(word, "and") {
        Some(Token::AND)
    } else if text_is(word, "or") {
        Some(Token::OR)
    } else if text_is(word, "xor") {
        Some(Token::XOR)
    } else if text_is(word, "shl") {
        Some(Token::SHL)
    } else if text_is(word, "shr") {
        Some(Token::SHR)
    } else if text_is(word, "clr") {
        Some(Token::CLR)
    } else if text_is(word, "nop") {
        Some(Token::NOP)
    } else if text_is(word, "exp") {
        Some(Token::EXP)
    } else if text_is(word, "log") {
        Some(Token::LOG)
    } else if text_is(word, "skp") {
        Some(Token::SKP)
    } else if text_is(word, "wlds") {
        Some(Token::WLDS)
    } else if text_is(word, "jam") {
        Some(Token::JAM)
    } else if text_is(word, "cho") {
        Some(Token::CHO)
    } else if text_is(word, "acc") {
        Some(Token::ACC)
    } else if text_is(word, "adcl") {
        Some(Token::ADCL)
    } else if text_is(word, "adcr") {
        Some(Token::ADCR)
    } else if text_is(word, "dacl") {
        Some(Token::DACL)
    } else if text_is(word, "dacr") {
        Some(Token::DACR)
    } else if text_is(word, "addr_ptr") {
        Some(Token::ADDR_PTR)
    } else if text_is(word, "lr") {
        Some(Token::LR)
    } else if text_is(word, "sin0") {
        Some(Token::SIN0)
    } else if text_is(word, "sin1") {
        Some(Token::SIN1)
    } else if text_is(word, "rmp0") {
        Some(Token::RMP0)
    } else if text_is(word, "rmp1") {
        Some(Token::RMP1)
    } else if text_is(word, "sin0_rate") {
        Some(Token::SIN0_RATE)
    } else if text_is(word, "sin0_range") {
        Some(Token::SIN0_RANGE)
    } else if text_is(word, "sin1_rate") {
        Some(Token::SIN1_RATE)
    } else if text_is(word, "sin1_range") {
        Some(Token::SIN1_RANGE)
    } else if text_is(word, "rmp0_rate") {
        Some(Token::RMP0_RATE)
    } else if text_is(word, "rmp0_range") {
        Some(Token::RMP0_RANGE)
    } else if text_is(word, "rmp1_rate") {
        Some(Token::RMP1_RATE)
    } else if text_is(word, "rmp1_range") {
        Some(Token::RMP1_RANGE)
    } else if text_is(word, "gez") {
        Some(Token::GEZ)
    } else if text_is(word, "neg") {
        Some(Token::NEG)
    } else if text_is(word, "zrc") {
        Some(Token::ZRC)
    } else if text_is(word, "zro") {
        Some(Token::ZRO)
    } else if text_is(word, "run") {
        Some(Token::RUN)
    } else if text_is(word, "rdal") {
        Some(Token::RDAL)
    } else if text_is(word, "rptr2") {
        Some(Token::RPTR2)
    } else if text_is(word, "na") {
        Some(Token::NA)
    } else if text_is(word, "compc") {
        Some(Token::COMPC)
    } else if text_is(word, "compa") {
        Some(Token::COMPA)
    } else if text_is(word, "equ") {
        Some(Token::EQU)
    } else if text_is(word, "mem") {
        Some(Token::MEM)
    } else if text_is(word, "spinasm") {
        Some(Token::SPINASM)
    } else {
        None
    }
}

/// The value of a byte that is a decimal digit.
fn digit_of(b: u8) -> (d: Option<u8>)
    ensures
        d == char_digit(b as char),
{
    if 48 <= b && b <= 57 {
        Some(b - 48)
    } else {
        None
    }
}

/// The token of a word in lower case that is `reg` or `pot` with a number.
fn indexed(word: &Vec<u8>) -> (token: Option<Token>)
    requires
        forall|i: int| 0 <= i < word@.len() ==> #[trigger] word@[i] < 128,
    ensures
        token == indexed_token(chars_of(word@)),
{
    let n = word.len();
    if n != 4 && n != 5 {
        return None;
    }
    let is_reg = word[0] == 114 && word[1] == 101 && word[2] == 103;
    let is_pot = word[0] == 112 && word[1] == 111 && word[2] == 116;
    proof {
        let chars = chars_of(word@);
        assert(chars[0] == word@[0] as char);
        assert(chars[1] == word@[1] as char);
        assert(chars[2] == word@[2] as char);
        assert(chars[3] == word@[3] as char);
        if n == 5 {
            assert(chars[4] == word@[4] as char);
        }
    }
    if n == 4 && is_reg {
        match digit_of(word[3]) {
            Some(d) => Some(Token::REG(d)),
            None => None,
        }
    } else if n == 5 && is_reg && (word[3] == 49 || word[3] == 50) {
        match (digit_of(word[3]), digit_of(word[4])) {
            (Some(tens), Some(ones)) => Some(Token::REG(tens * 10 + ones)),
            _ => None,
        }
    } else if n == 5 && is_reg && word[3] == 51 && (word[4] == 48 || word[4] == 49) {
        Some(Token::REG(30 + (word[4] - 48)))
    } else if n == 4 && is_pot && (word[3] == 48 || word[3] == 49 || word[3] == 50) {
        Some(Token::POT(word[3] - 48))
    } else {
        None
    }
}

/// The word that begins at `pos`.
#[verifier::rlimit(40)]
fn scan_word(bytes: &[u8], pos: usize) -> (r: (Result<Token, ()>, usize))
    requires
        pos < bytes@.len(),
        is_word_start(bytes@[pos as int]),
    ensures
        r.1 == run_end(bytes@, pos as int, ByteClass::Word),
        describes(r.0, word_lexeme(bytes@.subrange(pos as int, r.1 as int))),
        pos < r.1 <= bytes@.len(),
{
    let end = scan_run(bytes, pos, ByteClass::Word);
    proof {
        lemma_run_end(bytes@, pos as int, ByteClass::Word);
    }
    let ghost word = bytes@.subrange(pos as int, end as int);
    let mut name = String::new();
    let mut lowered = String::new();
    let mut lowered_bytes: Vec<u8> = Vec::new();
    let mut i: usize = pos;
    while i < end
        invariant
            pos <= i <= end <= bytes@.len(),
            word == bytes@.subrange(pos as int, end as int),
            forall|j: int| pos <= j < end ==> in_class(ByteClass::Word, #[trigger] bytes@[j]),
            name@ == chars_of(word.take(i - pos)),
            lowered@ == lower_chars_of(word.take(i - pos)),
            lowered_bytes@.len() == i - pos,
            forall|j: int|
                0 <= j < i - pos ==> #[trigger] lowered_bytes@[j] == lower(word[j])
                    && lowered_bytes@[j] < 128,
        decreases end - i,
    {
        let b = bytes[i];
        assert(in_class(ByteClass::Word, bytes@[i as int]));
        let low: u8 = if 65 <= b && b <= 90 {
            b + 32
        } else {
            b
        };
        push_char(&mut name, b as char);
        push_char(&mut lowered, low as char);
        lowered_bytes.push(low);
        proof {
            assert(word.take(i + 1 - pos) =~= word.take(i - pos).push(b));
            assert(chars_of(word.take(i + 1 - pos)) =~= chars_of(word.take(i - pos)).push(
                b as char,
            ));
            assert(lower_chars_of(word.take(i + 1 - pos)) =~= lower_chars_of(
                word.take(i - pos),
            ).push(low as char));
        }
        i += 1;
    }
    proof {
        assert(word.take(end - pos) =~= word);
        assert(chars_of(lowered_bytes@) =~= lower_chars_of(word));
    }
    let lexeme = match keyword_token(&lowered) {
        Some(token) => Ok(token),
        None => match indexed(&lowered_bytes) {
            Some(token) => Ok(token),
            None => Ok(Token::Identifier(name)),
        },
    };
    (lexeme, end)
}

/// The lexeme that begins at `pos`.
fn scan_lexeme(bytes: &[u8], pos: usize) -> (r: (Result<Token, ()>, usize))
    requires
        pos < bytes@.len(),
    ensures
        describes(r.0, lexeme_at(bytes@, pos as int).0),
        r.1 == lexeme_at(bytes@, pos as int).1,
        pos < r.1 <= bytes@.len(),
{
    let b = bytes[pos];
    if (65 <= b && b <= 90) || (97 <= b && b <= 122) || b == 95 {
        scan_word(bytes, pos)
    } else if (48 <= b && b <= 57) || (b == 45 && pos + 1 < bytes.len() && 48 <= bytes[pos + 1]
        && bytes[pos + 1] <= 57) {
        scan_number(bytes, pos)
    } else if b == 36 {
        scan_marked(bytes, pos, ByteClass::HexDigit, 16)
    } else if b == 37 {
        scan_marked(bytes, pos, ByteClass::BinaryDigit, 2)
    } else if b == 44 {
        (Ok(Token::Comma), pos + 1)
    } else if b == 58 {
        (Ok(Token::Colon), pos + 1)
    } else if b == 61 {
        (Ok(Token::Equals), pos + 1)
    } else if b == 124 {
        (Ok(Token::Pipe), pos + 1)
    } else if b == 35 {
        (Ok(Token::Hash), pos + 1)
    } else {
        (Err(()), scan_run(bytes, pos + 1, ByteClass::Continuation))
    }
}

/// Lexer for FV-1 assembly source code.
pub struct Lexer<'source> {
    source: &'source str,
    pos: usize,
}

impl<'source> Lexer<'source> {
    /// The bytes of the source.
    pub closed spec fn bytes(&self) -> Seq<u8> {
        self.source.spec_bytes()
    }

    /// The place in the source from which the lexer reads on.
    pub closed spec fn position(&self) -> int {
        self.pos as int
    }

    #[verifier::type_invariant]
    closed spec fn in_bounds(&self) -> bool {
        self.pos <= self.source.spec_bytes().len()
    }

    /// Create a new lexer for the given source code.
    pub fn new(source: &'source str) -> (lexer: Lexer<'source>)
        ensures
            lexer.bytes() == source.spec_bytes(),
            lexer.position() == 0,
    {
        Lexer { source, pos: 0 }
    }

    /// The next token and its span in bytes, an error with the span of text
    /// that is no token, or `None` at the end of the source. Blank space
    /// and comments before the token are passed over.
    pub fn next(&mut self) -> (r: Option<Spanned>)
        ensures
            final(self).bytes() == old(self).bytes(),
            ({
                let bytes = old(self).bytes();
                let start = skip_trivia(bytes, old(self).position());
                if start >= bytes.len() {
                    r is None && final(self).position() == start
                } else {
                    &&& r matches Some((token, span))
                    &&& describes(token, lexeme_at(bytes, start).0)
                    &&& span.start == start
                    &&& span.end == lexeme_at(bytes, start).1
                    &&& start < span.end <= bytes.len()
                    &&& final(self).position() == span.end
                }
            }),
    {
        proof {
            use_type_invariant(&*self);
        }
        let bytes = self.source.as_bytes();
        let start = scan_trivia(bytes, self.pos);
        if start >= bytes.len() {
            self.pos = start;
            return None;
        }
        let (token, end) = scan_lexeme(bytes, start);
        self.pos = end;
        Some((token, start..end))
    }

    /// All the tokens from the place of the lexer to the end of the source.
    #[verifier::rlimit(40)]
    pub fn tokenize(&mut self) -> (tokens: Vec<Spanned>)
        ensures
            final(self).bytes() == old(self).bytes(),
            matches_lexemes(tokens@, lexemes_from(old(self).bytes(), old(self).position())),
    {
        let mut tokens: Vec<Spanned> = Vec::new();
        let ghost bytes = self.bytes();
        let ghost all = lexemes_from(bytes, self.position());
        let ghost mut found: Seq<(LexemeSpec, Range<usize>)> = Seq::empty();
        let mut done = false;
        proof {
            use_type_invariant(&*self);
            assert(found + lexemes_from(bytes, self.position()) =~= all);
        }
        while !done
            invariant
                self.bytes() == bytes,
                0 <= self.position() <= bytes.len(),
                matches_lexemes(tokens@, found),
                !done ==> found + lexemes_from(bytes, self.position()) == all,
                done ==> found == all,
            decreases bytes.len() - self.position() + (if done { 0int } else { 1int }),
        {
            let ghost before = self.position();
            let ghost start = skip_trivia(bytes, before);
            proof {
                lemma_skip_trivia(bytes, before);
            }
            match self.next() {
                Some(entry) => {
                    proof {
                        let piece = (lexeme_at(bytes, start).0, entry.1);
                        let rest = lexemes_from(bytes, entry.1.end as int);
                        assert(lexemes_from(bytes, before) == seq![piece] + rest);
                        assert(found.push(piece) + rest =~= found + (seq![piece] + rest));
                        found = found.push(piece);
                    }
                    tokens.push(entry);
                },
                None => {
                    proof {
                        assert(lexemes_from(bytes, before) =~= Seq::empty());
                        assert(found + Seq::empty() =~= found);
                    }
                    done = true;
                },
            }
        }
        tokens
    }
}

/// The lexemes of the bytes from a place on, each with its span.
pub open spec fn lexemes_from(bytes: Seq<u8>, pos: int) -> Seq<(LexemeSpec, Range<usize>)>
    decreases bytes.len() - pos,
{
    let start = skip_trivia(bytes, pos);
    let end = lexeme_at(bytes, start).1;
    if pos <= start < bytes.len() && start < end <= bytes.len() {
        seq![(lexeme_at(bytes, start).0, (Range { start: start as usize, end: end as usize }))]
            + lexemes_from(bytes, end)
    } else {
        Seq::empty()
    }
}

/// The tokens are those of the lexemes, with the same spans.
pub open spec fn matches_lexemes(
    tokens: Seq<Spanned>,
    lexemes: Seq<(LexemeSpec, Range<usize>)>,
) -> bool {
    &&& tokens.len() == lexemes.len()
    &&& forall|i: int|
        0 <= i < tokens.len() ==> describes(#[trigger] tokens[i].0, lexemes[i].0) && tokens[i].1
            == lexemes[i].1
}

/// The lexemes follow one another in the source: each lies within the
/// bytes, has at least one byte, and begins where the one before it ends
/// or later.
pub proof fn lemma_lexemes_in_order(bytes: Seq<u8>, pos: int)
    requires
        0 <= pos <= bytes.len() <= usize::MAX,
    ensures
        forall|i: int|
            0 <= i < lexemes_from(bytes, pos).len() ==> pos <= (#[trigger] lexemes_from(
                bytes,
                pos,
            )[i]).1.start < lexemes_from(bytes, pos)[i].1.end <= bytes.len(),
        forall|i: int, j: int|
            0 <= i < j < lexemes_from(bytes, pos).len() ==> (#[trigger] lexemes_from(
                bytes,
                pos,
            )[i]).1.end <= (#[trigger] lexemes_from(bytes, pos)[j]).1.start,
        lexemes_from(bytes, pos).len() <= bytes.len() - pos,
    decreases bytes.len() - pos,
{
    let start = skip_trivia(bytes, pos);
    let end = lexeme_at(bytes, start).1;
    lemma_skip_trivia(bytes, pos);
    if pos <= start < bytes.len() && start < end <= bytes.len() {
        let rest = lexemes_from(bytes, end);
        let all = lexemes_from(bytes, pos);
        lemma_lexemes_in_order(bytes, end);
        assert(all.len() == rest.len() + 1);
        assert forall|i: int| 0 <= i < all.len() implies pos <= (#[trigger] all[i]).1.start
            < all[i].1.end <= bytes.len() by {
            if i > 0 {
                assert(all[i] == rest[i - 1]);
            }
        }
        assert forall|i: int, j: int| 0 <= i < j < all.len() implies (#[trigger] all[i]).1.end <= (
        #[trigger] all[j]).1.start by {
            assert(all[j] == rest[j - 1]);
            if i > 0 {
                assert(all[i] == rest[i - 1]);
            }
        }
    }
}

} // verus!
