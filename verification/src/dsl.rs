//! Builders for FV-1 programs.
//!
//! A program can be put together from instructions in code: with the plain
//! [`ProgramBuilder`], with the helper functions of [`ops`], with the blocks
//! of [`blocks`], or with the [`typed::TypedBuilder`], which keeps track of
//! what the accumulator holds.

pub mod blocks;
pub mod ops;
pub mod prelude;
pub mod typed;

use crate::ast::{LabelTable, Program, Statement};
use crate::instruction::Instruction;
use vstd::prelude::*;

verus! {

/// Builder for FV-1 programs: a list of instructions, and labels at
/// places in it.
pub struct ProgramBuilder {
    /// The instructions added so far.
    pub instructions: Vec<Instruction>,
    /// The labels added so far, each with the number of instructions that
    /// had been added before it.
    pub labels: LabelTable,
}

/// The instructions as statements.
pub open spec fn as_statements(instructions: Seq<Instruction>) -> Seq<Statement> {
    Seq::new(instructions.len(), |i: int| Statement::Instruction(instructions[i]))
}

impl ProgramBuilder {
    /// Create a new empty program builder.
    pub fn new() -> (builder: ProgramBuilder)
        ensures
            builder.instructions@ == Seq::<Instruction>::empty(),
            builder.labels@ == Map::<Seq<char>, usize>::empty(),
    {
        ProgramBuilder { instructions: Vec::new(), labels: LabelTable::new() }
    }

    /// Add an instruction to the program (builder pattern - consumes self).
    pub fn inst(self, inst: Instruction) -> (builder: ProgramBuilder)
        ensures
            builder.instructions@ == self.instructions@.push(inst),
            builder.labels@ == self.labels@,
    {
        let mut builder = self;
        builder.instructions.push(inst);
        builder
    }

    /// Add an instruction to the program (mutable reference).
    pub fn add_inst(&mut self, inst: Instruction) -> (builder: &mut ProgramBuilder)
        ensures
            builder.instructions@ == old(self).instructions@.push(inst),
            builder.labels@ == old(self).labels@,
            *final(self) == *final(builder),
    {
        self.instructions.push(inst);
        self
    }

    /// Add a label at the current instruction position (builder pattern -
    /// consumes self).
    pub fn label(self, name: &str) -> (builder: ProgramBuilder)
        ensures
            builder.instructions@ == self.instructions@,
            builder.labels@ == self.labels@.insert(name@, self.instructions@.len() as usize),
    {
        let mut builder = self;
        let at = builder.instructions.len();
        builder.labels.insert(name.to_owned(), at);
        builder
    }

    /// Add a label at the current instruction position (mutable reference).
    pub fn add_label(&mut self, name: &str) -> (builder: &mut ProgramBuilder)
        ensures
            builder.instructions@ == old(self).instructions@,
            builder.labels@ == old(self).labels@.insert(
                name@,
                old(self).instructions@.len() as usize,
            ),
            *final(self) == *final(builder),
    {
        let at = self.instructions.len();
        self.labels.insert(name.to_owned(), at);
        self
    }

    /// Build the final program: the instructions in their order, and the
    /// labels at the places where they were added.
    pub fn build(self) -> (program: Program)
        ensures
            program.statements@ == as_statements(self.instructions@),
            program.instruction_seq() == self.instructions@,
            program.labels@ == self.labels@,
            program.directives@.len() == 0,
    {
        let mut program = Program::new();
        let ProgramBuilder { instructions, labels } = self;
        let mut i: usize = 0;
        while i < instructions.len()
            invariant
                i <= instructions@.len(),
                program.statements@ == as_statements(instructions@.take(i as int)),
                program.instruction_seq() == instructions@.take(i as int),
                program.directives@.len() == 0,
            decreases instructions@.len() - i,
        {
            let ghost before = program.instruction_seq();
            program.add_statement(Statement::Instruction(instructions[i]));
            proof {
                let one = seq![Statement::Instruction(instructions@[i as int])];
                assert(one.drop_last() =~= Seq::<Statement>::empty());
                reveal_with_fuel(crate::ast::instructions_of, 2);
                assert(crate::ast::instructions_of(one) =~= seq![instructions@[i as int]]);
                assert(instructions@.take(i + 1) =~= instructions@.take(i as int).push(
                    instructions@[i as int],
                ));
                assert(program.statements@ =~= as_statements(instructions@.take(i + 1)));
            }
            i += 1;
        }
        proof {
            assert(instructions@.take(i as int) =~= instructions@);
        }
        program.labels = labels;
        program
    }
}

impl Default for ProgramBuilder {
    fn default() -> (builder: ProgramBuilder)
        ensures
            builder.instructions@ == Seq::<Instruction>::empty(),
            builder.labels@ == Map::<Seq<char>, usize>::empty(),
    {
        ProgramBuilder::new()
    }
}

} // verus!
