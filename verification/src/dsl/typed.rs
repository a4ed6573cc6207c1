//! A builder that keeps track of what the accumulator holds.
//!
//! The state of the accumulator is a type parameter of the builder. An
//! instruction that needs audio data in the accumulator can only be added
//! in the `Audio` state, so a program that uses the accumulator before it
//! holds anything does not compile.

use crate::ast::Program;
use crate::dsl::{as_statements, ProgramBuilder};
use crate::float32::Float32;
use crate::instruction::Instruction;
use crate::register::Register;
use std::marker::PhantomData;
use vstd::prelude::*;

verus! {

/// Phantom type representing the state of the accumulator (ACC).
pub struct Acc<T> {
    _phantom: PhantomData<T>,
}

/// Marker: ACC contains audio data.
pub struct Audio;

/// Marker: ACC contains control data.
pub struct Control;

/// Marker: ACC contains LFO data.
pub struct Lfo;

/// Type-safe instruction builder that tracks accumulator state.
pub struct TypedBuilder<State> {
    builder: ProgramBuilder,
    _state: PhantomData<State>,
}

impl TypedBuilder<()> {
    /// Create a new typed builder in the initial state.
    pub fn new() -> (builder: TypedBuilder<()>)
        ensures
            builder.instructions() == Seq::<Instruction>::empty(),
            builder.labels() == Map::<Seq<char>, usize>::empty(),
    {
        TypedBuilder { builder: ProgramBuilder::new(), _state: PhantomData }
    }
}

impl Default for TypedBuilder<()> {
    fn default() -> (builder: TypedBuilder<()>)
        ensures
            builder.instructions() == Seq::<Instruction>::empty(),
            builder.labels() == Map::<Seq<char>, usize>::empty(),
    {
        TypedBuilder::new()
    }
}

// Instructions available from any state
impl<S> TypedBuilder<S> {
    /// The instructions added so far.
    pub closed spec fn instructions(&self) -> Seq<Instruction> {
        self.builder.instructions@
    }

    /// The labels added so far.
    pub closed spec fn labels(&self) -> Map<Seq<char>, usize> {
        self.builder.labels@
    }

    /// Read from register and accumulate (transitions to Audio state).
    pub fn rdax(self, reg: Register, coeff: Float32) -> (next: TypedBuilder<Audio>)
        ensures
            next.instructions() == self.instructions().push((Instruction::RDAX { reg, coeff })),
            next.labels() == self.labels(),
    {
        TypedBuilder { builder: self.builder.inst(Instruction::RDAX { reg, coeff }), _state: PhantomData }
    }

    /// Clear the accumulator (transitions to Audio state with zero).
    pub fn clr(self) -> (next: TypedBuilder<Audio>)
        ensures
            next.instructions() == self.instructions().push(Instruction::CLR),
            next.labels() == self.labels(),
    {
        TypedBuilder { builder: self.builder.inst(Instruction::CLR), _state: PhantomData }
    }

    /// No operation.
    pub fn nop(self) -> (next: TypedBuilder<S>)
        ensures
            next.instructions() == self.instructions().push(Instruction::NOP),
            next.labels() == self.labels(),
    {
        TypedBuilder { builder: self.builder.inst(Instruction::NOP), _state: PhantomData }
    }

    /// Build the final program.
    pub fn build(self) -> (program: Program)
        ensures
            program.statements@ == as_statements(self.instructions()),
            program.instruction_seq() == self.instructions(),
            program.labels@ == self.labels(),
            program.directives@.len() == 0,
    {
        self.builder.build()
    }
}

// Instructions available in Audio state
impl TypedBuilder<Audio> {
    /// Write to register and scale the accumulator (stays in Audio state).
    pub fn wrax(self, reg: Register, coeff: Float32) -> (next: TypedBuilder<Audio>)
        ensures
            next.instructions() == self.instructions().push((Instruction::WRAX { reg, coeff })),
            next.labels() == self.labels(),
    {
        TypedBuilder { builder: self.builder.inst(Instruction::WRAX { reg, coeff }), _state: PhantomData }
    }

    /// Multiply accumulator by register (stays in Audio state).
    pub fn mulx(self, reg: Register) -> (next: TypedBuilder<Audio>)
        ensures
            next.instructions() == self.instructions().push((Instruction::MULX { reg })),
            next.labels() == self.labels(),
    {
        TypedBuilder { builder: self.builder.inst(Instruction::MULX { reg }), _state: PhantomData }
    }

    /// Scale and offset (stays in Audio state).
    pub fn sof(self, coeff: Float32, offset: Float32) -> (next: TypedBuilder<Audio>)
        ensures
            next.instructions() == self.instructions().push((Instruction::SOF { coeff, offset })),
            next.labels() == self.labels(),
    {
        TypedBuilder { builder: self.builder.inst(Instruction::SOF { coeff, offset }), _state: PhantomData }
    }

    /// Read from delay memory (stays in Audio state).
    pub fn rda(self, addr: u16, coeff: Float32) -> (next: TypedBuilder<Audio>)
        ensures
            next.instructions() == self.instructions().push((Instruction::RDA { addr, coeff })),
            next.labels() == self.labels(),
    {
        TypedBuilder { builder: self.builder.inst(Instruction::RDA { addr, coeff }), _state: PhantomData }
    }

    /// Write to delay memory (stays in Audio state).
    pub fn wra(self, addr: u16, coeff: Float32) -> (next: TypedBuilder<Audio>)
        ensures
            next.instructions() == self.instructions().push((Instruction::WRA { addr, coeff })),
            next.labels() == self.labels(),
    {
        TypedBuilder { builder: self.builder.inst(Instruction::WRA { addr, coeff }), _state: PhantomData }
    }

    /// Write to delay memory and wrap (stays in Audio state).
    pub fn wrap(self, addr: u16, coeff: Float32) -> (next: TypedBuilder<Audio>)
        ensures
            next.instructions() == self.instructions().push((Instruction::WRAP { addr, coeff })),
            next.labels() == self.labels(),
    {
        TypedBuilder { builder: self.builder.inst(Instruction::WRAP { addr, coeff }), _state: PhantomData }
    }

    /// Read from delay memory through the address pointer (stays in Audio state).
    pub fn rmpa(self, coeff: Float32) -> (next: TypedBuilder<Audio>)
        ensures
            next.instructions() == self.instructions().push((Instruction::RMPA { coeff })),
            next.labels() == self.labels(),
    {
        TypedBuilder { builder: self.builder.inst(Instruction::RMPA { coeff }), _state: PhantomData }
    }

    /// Load accumulator with register (stays in Audio state).
    pub fn ldax(self, reg: Register) -> (next: TypedBuilder<Audio>)
        ensures
            next.instructions() == self.instructions().push((Instruction::LDAX { reg })),
            next.labels() == self.labels(),
    {
        TypedBuilder { builder: self.builder.inst(Instruction::LDAX { reg }), _state: PhantomData }
    }

    /// Absolute value (stays in Audio state).
    pub fn absa(self) -> (next: TypedBuilder<Audio>)
        ensures
            next.instructions() == self.instructions().push(Instruction::ABSA),
            next.labels() == self.labels(),
    {
        TypedBuilder { builder: self.builder.inst(Instruction::ABSA), _state: PhantomData }
    }

    /// Exponential conversion (stays in Audio state).
    pub fn exp(self, coeff: Float32, offset: Float32) -> (next: TypedBuilder<Audio>)
        ensures
            next.instructions() == self.instructions().push((Instruction::EXP { coeff, offset })),
            next.labels() == self.labels(),
    {
        TypedBuilder { builder: self.builder.inst(Instruction::EXP { coeff, offset }), _state: PhantomData }
    }

    /// Logarithmic conversion (stays in Audio state).
    pub fn log(self, coeff: Float32, offset: Float32) -> (next: TypedBuilder<Audio>)
        ensures
            next.instructions() == self.instructions().push((Instruction::LOG { coeff, offset })),
            next.labels() == self.labels(),
    {
        TypedBuilder { builder: self.builder.inst(Instruction::LOG { coeff, offset }), _state: PhantomData }
    }

    /// Bitwise AND (stays in Audio state).
    pub fn and(self, mask: u32) -> (next: TypedBuilder<Audio>)
        ensures
            next.instructions() == self.instructions().push((Instruction::AND { mask })),
            next.labels() == self.labels(),
    {
        TypedBuilder { builder: self.builder.inst(Instruction::AND { mask }), _state: PhantomData }
    }

    /// Bitwise OR (stays in Audio state).
    pub fn or(self, mask: u32) -> (next: TypedBuilder<Audio>)
        ensures
            next.instructions() == self.instructions().push((Instruction::OR { mask })),
            next.labels() == self.labels(),
    {
        TypedBuilder { builder: self.builder.inst(Instruction::OR { mask }), _state: PhantomData }
    }

    /// Bitwise XOR (stays in Audio state).
    pub fn xor(self, mask: u32) -> (next: TypedBuilder<Audio>)
        ensures
            next.instructions() == self.instructions().push((Instruction::XOR { mask })),
            next.labels() == self.labels(),
    {
        TypedBuilder { builder: self.builder.inst(Instruction::XOR { mask }), _state: PhantomData }
    }
}

} // verus!
