//! Assembly of programs into binary images, and the image's export formats.

use crate::ast::Program;
use crate::codegen::encoder::{encode_instruction, encode_spec};
use crate::constants::MAX_INSTRUCTIONS;
use crate::error::CodegenError;
use crate::instruction::Instruction;
use crate::text::{hex_text, decimal_text, push_char, push_decimal, push_hex, push_text};
use vstd::prelude::*;

verus! {

/// Size of a complete binary image in bytes.
pub const BINARY_SIZE: usize = 512;

/// The first error among the instructions, if one of them cannot be encoded.
#[verifier::opaque]
pub open spec fn first_encode_error(instructions: Seq<Instruction>) -> Option<CodegenError>
    decreases instructions.len(),
{
    if instructions.len() == 0 {
        None
    } else {
        match first_encode_error(instructions.drop_last()) {
            Some(e) => Some(e),
            None => match encode_spec(instructions.last()) {
                Ok(_) => None,
                Err(e) => Some(e),
            },
        }
    }
}

/// The image of a list of instructions: their words in order, then zero
/// words (the word of `NOP`) up to 128 words.
pub open spec fn padded_words(instructions: Seq<Instruction>) -> Seq<u32> {
    Seq::new(
        MAX_INSTRUCTIONS as nat,
        |i: int|
            if i < instructions.len() {
                encode_spec(instructions[i])->Ok_0
            } else {
                0u32
            },
    )
}

/// What assembling a list of instructions gives: an error if there are more
/// than 128 of them, else the error of the first that cannot be encoded,
/// else the padded image.
pub open spec fn assemble_spec(instructions: Seq<Instruction>) -> Result<Seq<u32>, CodegenError> {
    if instructions.len() > MAX_INSTRUCTIONS {
        Err(
            CodegenError::ProgramTooLarge {
                size: instructions.len() as usize,
                max: MAX_INSTRUCTIONS,
            },
        )
    } else {
        match first_encode_error(instructions) {
            Some(e) => Err(e),
            None => Ok(padded_words(instructions)),
        }
    }
}

/// FV-1 program assembler.
pub struct Assembler {
    /// Whether the optimization pass runs over the assembled image.
    pub optimize: bool,
}

impl Assembler {
    /// Create a new assembler, without optimization.
    pub fn new() -> (assembler: Assembler)
        ensures
            !assembler.optimize,
    {
        Assembler { optimize: false }
    }

    /// Enable or disable optimization.
    pub fn with_optimization(self, enable: bool) -> (assembler: Assembler)
        ensures
            assembler.optimize == enable,
    {
        let mut assembler = self;
        assembler.optimize = enable;
        assembler
    }

    /// Assemble a program into an FV-1 binary of exactly 128 words.
    #[verifier::rlimit(40)]
    pub fn assemble(&self, program: &Program) -> (r: Result<Binary, CodegenError>)
        ensures
            match assemble_spec(program.instruction_seq()) {
                Ok(words) => r is Ok && r->Ok_0@ == words,
                Err(e) => r == Err::<Binary, CodegenError>(e),
            },
    {
        let instructions = program.instructions();
        let ghost list = program.instruction_seq();

        // Check program size
        if instructions.len() > MAX_INSTRUCTIONS {
            return Err(
                CodegenError::ProgramTooLarge { size: instructions.len(), max: MAX_INSTRUCTIONS },
            );
        }
        let mut binary = Binary::new();
        proof {
            reveal_with_fuel(first_encode_error, 2);
            assert(list.take(0).len() == 0);
        }

        // Encode each instruction
        let mut i: usize = 0;
        while i < instructions.len()
            invariant
                i <= instructions@.len(),
                list == program.instruction_seq(),
                instructions@.len() == list.len(),
                list.len() <= MAX_INSTRUCTIONS,
                forall|j: int| 0 <= j < list.len() ==> *#[trigger] instructions@[j] == list[j],
                first_encode_error(list.take(i as int)) is None,
                binary@.len() == i,
                forall|j: int| 0 <= j < i ==> #[trigger] binary@[j] == encode_spec(list[j])->Ok_0,
            decreases instructions@.len() - i,
        {
            let encoded = encode_instruction(instructions[i]);
            proof {
                assert(encoded == encode_spec(list[i as int]));
                lemma_first_error_step(list, i as int);
            }
            match encoded {
                Ok(word) => {
                    binary.push(word);
                },
                Err(e) => {
                    proof {
                        lemma_first_error_stays(list, i + 1);
                    }
                    return Err(e);
                },
            }
            i += 1;
        }
        proof {
            assert(list.take(i as int) =~= list);
        }

        // Pad to 128 instructions with NOPs
        while binary.len() < MAX_INSTRUCTIONS
            invariant
                list.len() <= binary@.len() <= MAX_INSTRUCTIONS,
                forall|j: int|
                    0 <= j < list.len() ==> #[trigger] binary@[j] == encode_spec(list[j])->Ok_0,
                forall|j: int| list.len() <= j < binary@.len() ==> #[trigger] binary@[j] == 0,
            decreases MAX_INSTRUCTIONS - binary@.len(),
        {
            binary.push(0x00000000);
        }
        proof {
            assert(binary@ =~= padded_words(list));
        }

        // Apply optimizations if enabled
        if self.optimize {
            binary = self.optimize_binary(binary)?;
        }
        Ok(binary)
    }

    /// The optimization pass over a completed image. It is a fixed point
    /// for later passes to replace: the image comes back unchanged.
    pub fn optimize_binary(&self, binary: Binary) -> (r: Result<Binary, CodegenError>)
        ensures
            r == Ok::<Binary, CodegenError>(binary),
    {
        Ok(binary)
    }
}

/// The first error among `n + 1` instructions is the first error among
/// `n`, or else the error of the last.
pub proof fn lemma_first_error_step(instructions: Seq<Instruction>, n: int)
    requires
        0 <= n < instructions.len(),
    ensures
        first_encode_error(instructions.take(n + 1)) == (match first_encode_error(
            instructions.take(n),
        ) {
            Some(e) => Some(e),
            None => match encode_spec(instructions[n]) {
                Ok(_) => None,
                Err(e) => Some(e),
            },
        }),
{
    reveal_with_fuel(first_encode_error, 2);
    assert(instructions.take(n + 1).drop_last() =~= instructions.take(n));
    assert(instructions.take(n + 1).last() == instructions[n]);
}

/// An error among the first instructions is the error of the whole list.
pub proof fn lemma_first_error_stays(instructions: Seq<Instruction>, n: int)
    requires
        0 <= n <= instructions.len(),
        first_encode_error(instructions.take(n)) is Some,
    ensures
        first_encode_error(instructions) == first_encode_error(instructions.take(n)),
    decreases instructions.len() - n,
{
    if n < instructions.len() {
        lemma_first_error_step(instructions, n);
        lemma_first_error_stays(instructions, n + 1);
    } else {
        assert(instructions.take(n) =~= instructions);
    }
}

impl Default for Assembler {
    fn default() -> (assembler: Assembler)
        ensures
            !assembler.optimize,
    {
        Assembler::new()
    }
}

/// The four bytes of a word, most significant first.
pub open spec fn be_bytes(word: u32) -> Seq<u8> {
    seq![
        (word / 0x100_0000) as u8,
        (word / 0x1_0000 % 256) as u8,
        (word / 0x100 % 256) as u8,
        (word % 256) as u8,
    ]
}

/// The word of four bytes, most significant first.
pub open spec fn be_word(b0: u8, b1: u8, b2: u8, b3: u8) -> u32 {
    (b0 * 0x100_0000 + b1 * 0x1_0000 + b2 * 0x100 + b3) as u32
}

/// The bytes of a list of words, each word most significant byte first.
pub open spec fn bytes_of(words: Seq<u32>) -> Seq<u8>
    decreases words.len(),
{
    if words.len() == 0 {
        Seq::empty()
    } else {
        bytes_of(words.drop_last()) + be_bytes(words.last())
    }
}

/// The words of a list of bytes, four bytes to a word, most significant first.
pub open spec fn words_of(bytes: Seq<u8>) -> Seq<u32> {
    Seq::new(
        bytes.len() / 4,
        |i: int| be_word(bytes[4 * i], bytes[4 * i + 1], bytes[4 * i + 2], bytes[4 * i + 3]),
    )
}

/// There are four bytes to a word.
pub proof fn lemma_bytes_of_len(words: Seq<u32>)
    ensures
        bytes_of(words).len() == 4 * words.len(),
    decreases words.len(),
{
    if words.len() > 0 {
        lemma_bytes_of_len(words.drop_last());
    }
}

/// The bytes of a word are where its index says.
pub proof fn lemma_bytes_of_index(words: Seq<u32>, i: int)
    requires
        0 <= i < words.len(),
    ensures
        bytes_of(words).len() == 4 * words.len(),
        bytes_of(words)[4 * i] == be_bytes(words[i])[0],
        bytes_of(words)[4 * i + 1] == be_bytes(words[i])[1],
        bytes_of(words)[4 * i + 2] == be_bytes(words[i])[2],
        bytes_of(words)[4 * i + 3] == be_bytes(words[i])[3],
    decreases words.len(),
{
    lemma_bytes_of_len(words);
    lemma_bytes_of_len(words.drop_last());
    if i < words.len() - 1 {
        lemma_bytes_of_index(words.drop_last(), i);
    }
}

/// Reading the bytes of a list of words gives the words back.
pub proof fn lemma_words_of_bytes_of(words: Seq<u32>)
    ensures
        words_of(bytes_of(words)) == words,
{
    lemma_bytes_of_len(words);
    assert forall|i: int| 0 <= i < words.len() implies #[trigger] words_of(bytes_of(words))[i]
        == words[i] by {
        lemma_bytes_of_index(words, i);
    }
    assert(words_of(bytes_of(words)) =~= words);
}

/// The sum of the bytes.
pub open spec fn byte_sum(data: Seq<u8>) -> nat
    decreases data.len(),
{
    if data.len() == 0 {
        0
    } else {
        byte_sum(data.drop_last()) + data.last() as nat
    }
}

/// What the checksum of a data record covers: its length byte, the two
/// bytes of its address and its data bytes.
pub open spec fn record_sum(addr: nat, data: Seq<u8>) -> nat {
    data.len() + addr / 256 + addr % 256 + byte_sum(data)
}

/// The checksum byte of a data record: the two's complement of the low byte
/// of what it covers.
pub open spec fn record_checksum(addr: nat, data: Seq<u8>) -> nat {
    ((256 - record_sum(addr, data) % 256) % 256) as nat
}

/// The bytes in hexadecimal, two digits each.
pub open spec fn hex_bytes(data: Seq<u8>) -> Seq<char>
    decreases data.len(),
{
    if data.len() == 0 {
        Seq::empty()
    } else {
        hex_bytes(data.drop_last()) + hex_text(data.last() as nat, 2)
    }
}

/// One Intel HEX data record: the record mark, the byte count, the
/// address, the record type 00, the data, the checksum and a line feed.
pub open spec fn hex_record(addr: nat, data: Seq<u8>) -> Seq<char> {
    seq![':'] + hex_text(data.len(), 2) + hex_text(addr, 4) + seq!['0', '0'] + hex_bytes(data)
        + hex_text(record_checksum(addr, data), 2) + seq!['\n']
}

/// The data records of the bytes, sixteen bytes to a record, the first at
/// address `addr`.
pub open spec fn hex_records(bytes: Seq<u8>, addr: nat) -> Seq<char>
    decreases bytes.len(),
{
    if bytes.len() == 0 {
        Seq::empty()
    } else if bytes.len() <= 16 {
        hex_record(addr, bytes)
    } else {
        hex_record(addr, bytes.take(16)) + hex_records(bytes.skip(16), addr + 16)
    }
}

/// The Intel HEX text of the bytes: the data records and the end-of-file record.
pub open spec fn hex_image(bytes: Seq<u8>) -> Seq<char> {
    hex_records(bytes, 0) + ":00000001FF\n"@
}

/// One word of a C array: an indent at the start of a line, the word as a
/// literal of eight hexadecimal digits, a comma unless it is the last, and a
/// line feed after every fourth word or else a space unless it is the last.
pub open spec fn c_array_item(words: Seq<u32>, i: int) -> Seq<char> {
    (if i % 4 == 0 {
        "    "@
    } else {
        Seq::empty()
    }) + "0x"@ + hex_text(words[i] as nat, 8) + (if i < words.len() - 1 {
        seq![',']
    } else {
        Seq::empty()
    }) + (if (i + 1) % 4 == 0 {
        seq!['\n']
    } else if i < words.len() - 1 {
        seq![' ']
    } else {
        Seq::empty()
    })
}

/// The first `count` words of a C array.
pub open spec fn c_array_items(words: Seq<u32>, count: nat) -> Seq<char>
    decreases count,
{
    if count == 0 {
        Seq::empty()
    } else {
        c_array_items(words, (count - 1) as nat) + c_array_item(words, count - 1)
    }
}

/// The C source of the words as an array called `name`: a comment, the
/// declaration, the words four to a line and the closing brace.
pub open spec fn c_array_text(name: Seq<char>, words: Seq<u32>) -> Seq<char> {
    "// FV-1 program: "@ + name + " ("@ + decimal_text(words.len()) + " instructions)\n"@
        + "const uint32_t "@ + name + "["@ + decimal_text(words.len()) + "] = {\n"@ + c_array_items(
        words,
        words.len(),
    ) + (if words.len() % 4 != 0 {
        seq!['\n']
    } else {
        Seq::empty()
    }) + "};\n"@
}

/// Appends the data record of `len` bytes from `start` on, at the address `start`.
#[verifier::rlimit(40)]
fn push_hex_record(hex: &mut String, bytes: &Vec<u8>, start: usize, len: usize)
    requires
        1 <= len <= 16,
        start + len <= bytes@.len(),
    ensures
        final(hex)@ == old(hex)@ + hex_record(
            start as nat,
            bytes@.subrange(start as int, start + len),
        ),
{
    let ghost before = hex@;
    let ghost data = bytes@.subrange(start as int, start + len);
    let total = bytes.len();

    // Record header: :LLAAAATT
    push_char(hex, ':');
    push_hex(hex, len as u64, 2);
    push_hex(hex, start as u64, 4);
    push_text(hex, "00");
    proof {
        reveal_strlit("00");
        assert("00"@ =~= seq!['0', '0']);
    }

    // Data bytes and calculate checksum
    let mut checksum: usize = len + start / 256 + start % 256;
    let ghost header = hex@;
    let mut k: usize = 0;
    proof {
        assert(header + hex_bytes(data.take(0)) =~= header);
    }
    while k < len
        invariant
            k <= len <= 16,
            start + len <= total,
            total == bytes@.len(),
            data == bytes@.subrange(start as int, start + len),
            hex@ == header + hex_bytes(data.take(k as int)),
            checksum == len + start / 256 + start % 256 + byte_sum(data.take(k as int)),
            byte_sum(data.take(k as int)) <= 255 * k,
        decreases len - k,
    {
        let byte = bytes[start + k];
        let ghost sofar = hex@;
        proof {
            assert(data.take(k + 1).drop_last() =~= data.take(k as int));
            assert(data.take(k + 1).last() == byte);
        }
        push_hex(hex, byte as u64, 2);
        proof {
            assert(hex@ =~= header + hex_bytes(data.take(k + 1)));
        }
        checksum += byte as usize;
        k += 1;
    }
    proof {
        assert(data.take(len as int) =~= data);
    }

    // Two's complement checksum
    checksum = (256 - (checksum % 256)) % 256;
    push_hex(hex, checksum as u64, 2);
    push_char(hex, '\n');
    proof {
        assert(hex@ =~= before + hex_record(start as nat, data));
    }
}

/// Where every instruction has a word, there is no first error.
pub proof fn lemma_all_encode_no_error(instructions: Seq<Instruction>)
    requires
        forall|i: int| 0 <= i < instructions.len() ==> encode_spec(#[trigger] instructions[i]) is Ok,
    ensures
        first_encode_error(instructions) is None,
    decreases instructions.len(),
{
    reveal_with_fuel(first_encode_error, 2);
    if instructions.len() > 0 {
        assert forall|i: int| 0 <= i < instructions.drop_last().len() implies encode_spec(
            #[trigger] instructions.drop_last()[i],
        ) is Ok by {
            assert(instructions.drop_last()[i] == instructions[i]);
        }
        lemma_all_encode_no_error(instructions.drop_last());
        assert(instructions.last() == instructions[instructions.len() - 1]);
    }
}

/// Assembling at most 128 instructions that can all be encoded gives an
/// image of exactly 128 words: the words of the instructions in order,
/// then zero words.
pub proof fn lemma_assemble_pads(instructions: Seq<Instruction>)
    requires
        instructions.len() <= MAX_INSTRUCTIONS,
        forall|i: int| 0 <= i < instructions.len() ==> encode_spec(#[trigger] instructions[i]) is Ok,
    ensures
        assemble_spec(instructions) is Ok,
        assemble_spec(instructions)->Ok_0.len() == MAX_INSTRUCTIONS,
        forall|i: int|
            0 <= i < instructions.len() ==> #[trigger] assemble_spec(instructions)->Ok_0[i]
                == encode_spec(instructions[i])->Ok_0,
        forall|i: int|
            instructions.len() <= i < MAX_INSTRUCTIONS ==> #[trigger] assemble_spec(
                instructions,
            )->Ok_0[i] == 0,
{
    lemma_all_encode_no_error(instructions);
}

/// Assembling more than 128 instructions fails, and the error reports
/// their number and the limit.
pub proof fn lemma_assemble_too_large(instructions: Seq<Instruction>)
    requires
        MAX_INSTRUCTIONS < instructions.len() <= usize::MAX,
    ensures
        assemble_spec(instructions) == Err::<Seq<u32>, CodegenError>(
            CodegenError::ProgramTooLarge { size: instructions.len() as usize, max: 128 },
        ),
{
}

/// The bytes of a complete image are 512.
pub proof fn lemma_complete_image_bytes(words: Seq<u32>)
    requires
        words.len() == MAX_INSTRUCTIONS,
    ensures
        bytes_of(words).len() == BINARY_SIZE,
{
    lemma_bytes_of_len(words);
}

/// The checksum of a data record is a byte that brings the sum of the
/// record's bytes to a multiple of 256.
pub proof fn lemma_record_checksum(addr: nat, data: Seq<u8>)
    ensures
        record_checksum(addr, data) < 256,
        (record_sum(addr, data) + record_checksum(addr, data)) % 256 == 0,
{
}

/// A data record begins with the record mark.
pub proof fn lemma_hex_record_mark(addr: nat, data: Seq<u8>)
    ensures
        hex_record(addr, data).len() > 0,
        hex_record(addr, data)[0] == ':',
{
}

/// The data records of bytes, if there are any, begin with the record mark.
pub proof fn lemma_hex_records_mark(bytes: Seq<u8>, addr: nat)
    requires
        bytes.len() > 0,
    ensures
        hex_records(bytes, addr).len() > 0,
        hex_records(bytes, addr)[0] == ':',
{
    if bytes.len() <= 16 {
        lemma_hex_record_mark(addr, bytes);
    } else {
        lemma_hex_record_mark(addr, bytes.take(16));
    }
}

/// The Intel HEX text begins with the record mark and ends with the
/// end-of-file record.
pub proof fn lemma_hex_image_frame(bytes: Seq<u8>)
    ensures
        hex_image(bytes).len() >= 12,
        hex_image(bytes)[0] == ':',
        hex_image(bytes).skip(hex_image(bytes).len() - 12) == ":00000001FF\n"@,
{
    reveal_strlit(":00000001FF\n");
    let end = ":00000001FF\n"@;
    let records = hex_records(bytes, 0);
    assert(end.len() == 12 && end[0] == ':');
    if bytes.len() > 0 {
        lemma_hex_records_mark(bytes, 0);
    }
    assert((records + end).skip(records.len() as int) =~= end);
}

/// Compiled FV-1 binary program: a list of 32-bit instruction words. An
/// image made by the assembler or read from 512 bytes holds exactly 128.
#[derive(Debug, Clone)]
pub struct Binary {
    instructions: Vec<u32>,
}

impl View for Binary {
    type V = Seq<u32>;

    closed spec fn view(&self) -> Seq<u32> {
        self.instructions@
    }
}

impl Binary {
    /// Create a new empty binary.
    pub fn new() -> (binary: Binary)
        ensures
            binary@ == Seq::<u32>::empty(),
    {
        Binary { instructions: Vec::new() }
    }

    /// Add an instruction word to the binary.
    pub fn push(&mut self, instruction: u32)
        ensures
            final(self)@ == old(self)@.push(instruction),
    {
        self.instructions.push(instruction);
    }

    /// Get the number of instruction words.
    pub fn len(&self) -> (n: usize)
        ensures
            n == self@.len(),
    {
        self.instructions.len()
    }

    /// Check if the binary is empty.
    pub fn is_empty(&self) -> (b: bool)
        ensures
            b == (self@.len() == 0),
    {
        self.instructions.len() == 0
    }

    /// Get the instruction words as a slice.
    pub fn instructions(&self) -> (words: &[u32])
        ensures
            words@ == self@,
    {
        self.instructions.as_slice()
    }

    /// Create a Binary from raw bytes (512 bytes, big-endian).
    pub fn from_bytes(bytes: &[u8]) -> (r: Result<Binary, CodegenError>)
        ensures
            bytes@.len() != BINARY_SIZE ==> r == Err::<Binary, CodegenError>(
                CodegenError::InvalidBinarySize { size: bytes@.len() as usize, expected: BINARY_SIZE },
            ),
            bytes@.len() == BINARY_SIZE ==> r is Ok && r->Ok_0@ == words_of(bytes@),
    {
        if bytes.len() != 512 {
            return Err(CodegenError::InvalidBinarySize { size: bytes.len(), expected: 512 });
        }
        let mut instructions: Vec<u32> = Vec::with_capacity(MAX_INSTRUCTIONS);
        let mut i: usize = 0;
        while i < MAX_INSTRUCTIONS
            invariant
                bytes@.len() == 512,
                i <= MAX_INSTRUCTIONS,
                instructions@.len() == i,
                forall|j: int| 0 <= j < i ==> #[trigger] instructions@[j] == words_of(bytes@)[j],
            decreases MAX_INSTRUCTIONS - i,
        {
            let word: u32 = (bytes[4 * i] as u32) * 0x100_0000 + (bytes[4 * i + 1] as u32)
                * 0x1_0000 + (bytes[4 * i + 2] as u32) * 0x100 + (bytes[4 * i + 3] as u32);
            instructions.push(word);
            i += 1;
        }
        proof {
            assert(instructions@ =~= words_of(bytes@));
        }
        Ok(Binary { instructions })
    }

    /// Export as raw binary bytes (big-endian): 512 bytes for a complete image.
    pub fn to_bytes(&self) -> (bytes: Vec<u8>)
        ensures
            bytes@ == bytes_of(self@),
            bytes@.len() == 4 * self@.len(),
    {
        let mut bytes: Vec<u8> = Vec::with_capacity(512);
        let mut i: usize = 0;
        while i < self.instructions.len()
            invariant
                i <= self.instructions@.len(),
                bytes@ == bytes_of(self.instructions@.take(i as int)),
            decreases self.instructions@.len() - i,
        {
            let word = self.instructions[i];
            proof {
                assert(self.instructions@.take(i + 1).drop_last() =~= self.instructions@.take(
                    i as int,
                ));
            }
            bytes.push((word / 0x100_0000) as u8);
            bytes.push((word / 0x1_0000 % 256) as u8);
            bytes.push((word / 0x100 % 256) as u8);
            bytes.push((word % 256) as u8);
            proof {
                assert(bytes@ =~= bytes_of(self.instructions@.take(i as int)) + be_bytes(word));
            }
            i += 1;
        }
        proof {
            assert(self.instructions@.take(i as int) =~= self.instructions@);
            lemma_bytes_of_len(self@);
        }
        bytes
    }

    /// Export as Intel HEX format.
    ///
    /// Each line of sixteen bytes holds the record mark (`:`), the byte
    /// count (2 hex digits), the address (4 hex digits), the record type
    /// (`00` for data), the data bytes (2 hex digits each) and the checksum
    /// (2 hex digits). The end-of-file record closes the text.
    #[verifier::rlimit(40)]
    pub fn to_hex(&self) -> (hex: String)
        ensures
            hex@ == hex_image(bytes_of(self@)),
    {
        let mut hex = String::new();
        let bytes = self.to_bytes();
        let total = bytes.len();

        // Generate data records (16 bytes per line)
        let mut start: usize = 0;
        proof {
            assert(bytes@.skip(0) =~= bytes@);
            assert(hex@ + hex_records(bytes@, 0) =~= hex_records(bytes@, 0));
        }
        while start < total
            invariant
                total == bytes@.len(),
                start <= total,
                hex@ + hex_records(bytes@.skip(start as int), start as nat) == hex_records(
                    bytes@,
                    0,
                ),
            decreases total - start,
        {
            let len: usize = if total - start < 16 {
                total - start
            } else {
                16
            };
            let ghost before = hex@;
            let ghost rest = bytes@.skip(start as int);
            let ghost data = bytes@.subrange(start as int, start + len);
            push_hex_record(&mut hex, &bytes, start, len);
            proof {
                assert(rest.take(len as int) =~= data);
                if rest.len() > 16 {
                    assert(rest.skip(16) =~= bytes@.skip(start + 16));
                    assert(hex_records(rest, start as nat) == hex_record(start as nat, data)
                        + hex_records(bytes@.skip(start + 16), (start + 16) as nat));
                    assert(before + (hex_record(start as nat, data) + hex_records(
                        bytes@.skip(start + 16),
                        (start + 16) as nat,
                    )) =~= (before + hex_record(start as nat, data)) + hex_records(
                        bytes@.skip(start + 16),
                        (start + 16) as nat,
                    ));
                } else {
                    assert(rest =~= data);
                    assert(bytes@.skip(start + len).len() == 0);
                    assert(hex_records(rest, start as nat) == hex_record(start as nat, data));
                    assert(hex@ + hex_records(bytes@.skip(start + len), (start + len) as nat)
                        =~= hex@);
                }
            }
            start = start + len;
        }

        // End of file record
        push_text(&mut hex, ":00000001FF\n");
        hex
    }

    /// Export as C array for embedding in firmware.
    #[verifier::rlimit(40)]
    pub fn to_c_array(&self, name: &str) -> (c_code: String)
        ensures
            c_code@ == c_array_text(name@, self@),
    {
        let mut c_code = String::new();
        let count = self.instructions.len();
        push_text(&mut c_code, "// FV-1 program: ");
        push_text(&mut c_code, name);
        push_text(&mut c_code, " (");
        push_decimal(&mut c_code, count as u128);
        push_text(&mut c_code, " instructions)\n");
        push_text(&mut c_code, "const uint32_t ");
        push_text(&mut c_code, name);
        push_text(&mut c_code, "[");
        push_decimal(&mut c_code, count as u128);
        push_text(&mut c_code, "] = {\n");
        let ghost header = c_code@;

        let mut i: usize = 0;
        while i < count
            invariant
                count == self.instructions@.len(),
                i <= count,
                c_code@ == header + c_array_items(self@, i as nat),
            decreases count - i,
        {
            let ghost before = c_code@;
            let inst = self.instructions[i];
            if i % 4 == 0 {
                push_text(&mut c_code, "    ");
            }
            push_text(&mut c_code, "0x");
            push_hex(&mut c_code, inst as u64, 8);
            if i < count - 1 {
                push_char(&mut c_code, ',');
            }
            if (i + 1) % 4 == 0 {
                push_char(&mut c_code, '\n');
            } else if i < count - 1 {
                push_char(&mut c_code, ' ');
            }
            proof {
                assert(c_code@ =~= before + c_array_item(self@, i as int));
            }
            i += 1;
        }

        if count % 4 != 0 {
            push_char(&mut c_code, '\n');
        }
        push_text(&mut c_code, "};\n");
        proof {
            assert(c_code@ =~= c_array_text(name@, self@));
        }
        c_code
    }
}

impl Default for Binary {
    fn default() -> (binary: Binary)
        ensures
            binary@ == Seq::<u32>::empty(),
    {
        Binary::new()
    }
}

} // verus!
