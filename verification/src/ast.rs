//! Programs: directives, statements and the label table.

use crate::float32::Float32;
use crate::instruction::Instruction;
use vstd::prelude::*;

verus! {

/// Label name to instruction index mapping. A name occurs at most once;
/// defining a name again replaces its index.
#[derive(Debug)]
pub struct LabelTable {
    entries: Vec<(String, usize)>,
}

impl View for LabelTable {
    type V = Map<Seq<char>, usize>;

    closed spec fn view(&self) -> Map<Seq<char>, usize> {
        Map::new(
            |name: Seq<char>| self.names().contains(name),
            |name: Seq<char>| self.entries@[self.names().index_of(name)].1,
        )
    }
}

impl Clone for LabelTable {
    fn clone(&self) -> (table: LabelTable)
        ensures
            table@ == self@,
    {
        proof {
            use_type_invariant(self);
        }
        let table = LabelTable { entries: self.copy_entries() };
        proof {
            assert(table.names() =~= self.names());
            assert(table@ =~= self@);
        }
        table
    }
}

impl LabelTable {
    /// The names of the entries, in the order in which they were first defined.
    pub closed spec fn names(&self) -> Seq<Seq<char>> {
        Seq::new(self.entries@.len(), |i: int| self.entries@[i].0@)
    }

    #[verifier::type_invariant]
    closed spec fn distinct(&self) -> bool {
        self.names().no_duplicates()
    }

    /// An empty table.
    pub fn new() -> (table: LabelTable)
        ensures
            table@ == Map::<Seq<char>, usize>::empty(),
    {
        let table = LabelTable { entries: Vec::new() };
        assert(table.names() =~= Seq::empty());
        assert(table@ =~= Map::<Seq<char>, usize>::empty());
        table
    }

    /// The place of a name among the entries.
    fn position(&self, name: &String) -> (at: Option<usize>)
        ensures
            match at {
                Some(i) => i < self.entries@.len() && self.entries@[i as int].0@ == name@,
                None => !self.names().contains(name@),
            },
    {
        let mut i: usize = 0;
        while i < self.entries.len()
            invariant
                i <= self.entries@.len(),
                forall|j: int| 0 <= j < i ==> self.names()[j] != name@,
            decreases self.entries@.len() - i,
        {
            if self.entries[i].0 == *name {
                return Some(i);
            }
            i += 1;
        }
        None
    }

    /// A copy of the entries.
    fn copy_entries(&self) -> (entries: Vec<(String, usize)>)
        ensures
            entries@ == self.entries@,
    {
        let mut entries: Vec<(String, usize)> = Vec::new();
        let mut k: usize = 0;
        while k < self.entries.len()
            invariant
                k <= self.entries@.len(),
                entries@ == self.entries@.take(k as int),
            decreases self.entries@.len() - k,
        {
            let copy = (self.entries[k].0.clone(), self.entries[k].1);
            entries.push(copy);
            proof {
                assert(self.entries@.take(k + 1) =~= self.entries@.take(k as int).push(
                    self.entries@[k as int],
                ));
            }
            k += 1;
        }
        proof {
            assert(self.entries@.take(k as int) =~= self.entries@);
        }
        entries
    }

    /// Defines a label, replacing an earlier definition of the same name.
    #[verifier::rlimit(40)]
    pub fn insert(&mut self, name: String, index: usize)
        ensures
            final(self)@ == old(self)@.insert(name@, index),
    {
        proof {
            use_type_invariant(&*self);
        }
        let ghost before = *self;
        let found = self.position(&name);
        let mut entries = self.copy_entries();
        let ghost key = name@;
        match found {
            Some(i) => {
                entries.set(i, (name, index));
                proof {
                    lemma_replace(before, LabelTable { entries }, i as int, key, index);
                }
            },
            None => {
                entries.push((name, index));
                proof {
                    assert(entries@.drop_last() =~= before.entries@);
                    lemma_append(before, LabelTable { entries }, key, index);
                }
            },
        }
        self.entries = entries;
    }

    /// The index of a label, if it is defined.
    pub fn get(&self, name: &str) -> (index: Option<&usize>)
        ensures
            match index {
                Some(i) => self@.contains_key(name@) && *i == self@[name@],
                None => !self@.contains_key(name@),
            },
    {
        proof {
            use_type_invariant(self);
        }
        let owned = name.to_owned();
        match self.position(&owned) {
            Some(i) => {
                proof {
                    let j = self.names().index_of(name@);
                    assert(self.names()[i as int] == name@);
                    assert(j == i);
                }
                Some(&self.entries[i].1)
            },
            None => None,
        }
    }

    /// The number of labels.
    pub fn len(&self) -> (n: usize)
        ensures
            n == self@.dom().len(),
    {
        proof {
            use_type_invariant(self);
            self.names().unique_seq_to_set();
            assert(self@.dom() =~= self.names().to_set());
        }
        self.entries.len()
    }

    /// Whether no label is defined.
    pub fn is_empty(&self) -> (b: bool)
        ensures
            b == (self@.dom().len() == 0),
    {
        self.len() == 0
    }
}

/// Appending a name that is not yet there keeps the names distinct and
/// changes the table as `insert` does.
#[verifier::rlimit(40)]
proof fn lemma_append(before: LabelTable, after: LabelTable, name: Seq<char>, index: usize)
    requires
        before.names().no_duplicates(),
        !before.names().contains(name),
        after.entries@.len() == before.entries@.len() + 1,
        after.entries@.last().0@ == name,
        after.entries@.last().1 == index,
        after.entries@.drop_last() == before.entries@,
    ensures
        after.names().no_duplicates(),
        after@ == before@.insert(name, index),
{
    let n = before.entries@.len() as int;
    assert forall|j: int| 0 <= j < n implies #[trigger] after.names()[j] == before.names()[j] by {
        assert(after.entries@.drop_last()[j] == before.entries@[j]);
    }
    assert(after.names()[n] == name);
    assert forall|j: int| 0 <= j < n implies #[trigger] after.names()[j] != name by {
        assert(before.names()[j] == after.names()[j]);
    }
    assert forall|key: Seq<char>| after.names().contains(key) <==> (key == name
        || before.names().contains(key)) by {
        if before.names().contains(key) {
            let b = before.names().index_of(key);
            assert(after.names()[b] == key);
        }
        if after.names().contains(key) && key != name {
            let j = after.names().index_of(key);
            assert(before.names()[j] == key);
        }
    }
    assert forall|key: Seq<char>| #[trigger] after.names().contains(key) implies after@[key]
        == before@.insert(name, index)[key] by {
        let j = after.names().index_of(key);
        assert(after.names()[j] == key);
        if key == name {
            assert(j == n);
        } else {
            assert(before.names()[j] == key);
            let b = before.names().index_of(key);
            assert(before.names()[b] == key);
            assert(after.entries@.drop_last()[j] == before.entries@[j]);
        }
    }
    assert(after@ =~= before@.insert(name, index));
}

/// Replacing the index of a name that is there keeps the names distinct and
/// changes the table as `insert` does.
#[verifier::rlimit(40)]
proof fn lemma_replace(before: LabelTable, after: LabelTable, i: int, name: Seq<char>, index: usize)
    requires
        before.names().no_duplicates(),
        0 <= i < before.entries@.len(),
        before.entries@[i].0@ == name,
        after.entries@.len() == before.entries@.len(),
        after.entries@[i].0@ == name,
        after.entries@[i].1 == index,
        forall|j: int|
            0 <= j < before.entries@.len() && j != i ==> #[trigger] after.entries@[j]
                == before.entries@[j],
    ensures
        after.names().no_duplicates(),
        after@ == before@.insert(name, index),
{
    assert(after.names() =~= before.names());
    assert(before.names()[i] == name);
    assert forall|key: Seq<char>| #[trigger] after.names().contains(key) implies after@[key]
        == before@.insert(name, index)[key] by {
        let j = after.names().index_of(key);
        let b = before.names().index_of(key);
        assert(after.names()[j] == key && before.names()[b] == key);
        assert(j == b);
        if key == name {
            assert(j == i);
        }
    }
    assert(after@ =~= before@.insert(name, index));
}

/// Complete FV-1 program.
#[derive(Debug, Clone)]
pub struct Program {
    /// Assembly directives (EQU, MEM, etc.).
    pub directives: Vec<Directive>,
    /// Program statements (labels and instructions).
    pub statements: Vec<Statement>,
    /// Label name to instruction index mapping.
    pub labels: LabelTable,
}

/// Assembly directive.
#[derive(Debug, Clone)]
pub enum Directive {
    /// EQU name, value - define a symbolic constant.
    Equate { name: String, value: Value },
    /// MEM name size - allocate delay memory.
    MemoryAllocation { name: String, size: u16 },
    /// SPINASM version - compatibility directive.
    SpinAsm { version: String },
}

/// Program statement (label or instruction).
#[derive(Debug, Clone)]
pub enum Statement {
    /// `label:` - defines a label at the current position.
    Label(String),
    /// An instruction.
    Instruction(Instruction),
    /// `label: instruction` - label and instruction on the same line.
    LabeledInstruction { label: String, instruction: Instruction },
}

/// Value in a directive.
#[derive(Debug, Clone)]
pub enum Value {
    /// Floating-point literal.
    Float(Float32),
    /// Integer literal.
    Integer(i64),
    /// Reference to a symbolic constant (equate).
    Identifier(String),
}

/// A value in a directive, with the name of an identifier as a sequence of
/// characters.
pub ghost enum ValueView {
    Float(Float32),
    Integer(i64),
    Identifier(Seq<char>),
}

impl View for Value {
    type V = ValueView;

    open spec fn view(&self) -> ValueView {
        match *self {
            Value::Float(f) => ValueView::Float(f),
            Value::Integer(i) => ValueView::Integer(i),
            Value::Identifier(name) => ValueView::Identifier(name@),
        }
    }
}

/// A directive, with its names as sequences of characters.
pub ghost enum DirectiveView {
    Equate { name: Seq<char>, value: ValueView },
    MemoryAllocation { name: Seq<char>, size: u16 },
    SpinAsm { version: Seq<char> },
}

impl View for Directive {
    type V = DirectiveView;

    open spec fn view(&self) -> DirectiveView {
        match *self {
            Directive::Equate { name, value } => DirectiveView::Equate {
                name: name@,
                value: value@,
            },
            Directive::MemoryAllocation { name, size } => DirectiveView::MemoryAllocation {
                name: name@,
                size,
            },
            Directive::SpinAsm { version } => DirectiveView::SpinAsm { version: version@ },
        }
    }
}

/// A statement, with its label as a sequence of characters.
pub ghost enum StatementView {
    Label(Seq<char>),
    Instruction(Instruction),
    LabeledInstruction { label: Seq<char>, instruction: Instruction },
}

impl View for Statement {
    type V = StatementView;

    open spec fn view(&self) -> StatementView {
        match *self {
            Statement::Label(name) => StatementView::Label(name@),
            Statement::Instruction(instruction) => StatementView::Instruction(instruction),
            Statement::LabeledInstruction { label, instruction } => {
                StatementView::LabeledInstruction { label: label@, instruction }
            },
        }
    }
}

/// A program, with its names as sequences of characters.
pub ghost struct ProgramView {
    pub directives: Seq<DirectiveView>,
    pub statements: Seq<StatementView>,
    pub labels: Map<Seq<char>, usize>,
}

impl View for Program {
    type V = ProgramView;

    open spec fn view(&self) -> ProgramView {
        ProgramView {
            directives: self.directives@.map_values(|d: Directive| d@),
            statements: self.statements@.map_values(|s: Statement| s@),
            labels: self.labels@,
        }
    }
}

/// The instructions among the statements, in order: a bare label holds none.
pub open spec fn instructions_of(statements: Seq<Statement>) -> Seq<Instruction>
    decreases statements.len(),
{
    if statements.len() == 0 {
        Seq::empty()
    } else {
        let rest = instructions_of(statements.drop_last());
        match statements.last() {
            Statement::Label(_) => rest,
            Statement::Instruction(instruction) => rest.push(instruction),
            Statement::LabeledInstruction { label, instruction } => rest.push(instruction),
        }
    }
}

/// The label table after a statement is appended to `count` instructions: a
/// label names the index of the next instruction.
pub open spec fn labels_after(
    labels: Map<Seq<char>, usize>,
    count: nat,
    statement: Statement,
) -> Map<Seq<char>, usize> {
    match statement {
        Statement::Label(name) => labels.insert(name@, count as usize),
        Statement::Instruction(_) => labels,
        Statement::LabeledInstruction { label, instruction } => labels.insert(
            label@,
            count as usize,
        ),
    }
}

/// There are no more instructions than statements.
pub proof fn lemma_instructions_len(statements: Seq<Statement>)
    ensures
        instructions_of(statements).len() <= statements.len(),
    decreases statements.len(),
{
    if statements.len() > 0 {
        lemma_instructions_len(statements.drop_last());
    }
}

impl Program {
    /// The instructions of the program, in order.
    pub open spec fn instruction_seq(&self) -> Seq<Instruction> {
        instructions_of(self.statements@)
    }

    /// Create a new empty program.
    pub fn new() -> (program: Program)
        ensures
            program.directives@.len() == 0,
            program.statements@.len() == 0,
            program.labels@ == Map::<Seq<char>, usize>::empty(),
    {
        Program { directives: Vec::new(), statements: Vec::new(), labels: LabelTable::new() }
    }

    /// Get all instructions in order, excluding standalone labels.
    pub fn instructions(&self) -> (list: Vec<&Instruction>)
        ensures
            list@.len() == self.instruction_seq().len(),
            forall|i: int| 0 <= i < list@.len() ==> *#[trigger] list@[i] == self.instruction_seq()[i],
    {
        let mut list: Vec<&Instruction> = Vec::new();
        let mut i: usize = 0;
        while i < self.statements.len()
            invariant
                i <= self.statements@.len(),
                list@.len() == instructions_of(self.statements@.take(i as int)).len(),
                forall|j: int|
                    0 <= j < list@.len() ==> *#[trigger] list@[j] == instructions_of(
                        self.statements@.take(i as int),
                    )[j],
            decreases self.statements@.len() - i,
        {
            proof {
                assert(self.statements@.take(i + 1).drop_last() =~= self.statements@.take(i as int));
            }
            match &self.statements[i] {
                Statement::Instruction(instruction) => {
                    list.push(instruction);
                },
                Statement::LabeledInstruction { label, instruction } => {
                    list.push(instruction);
                },
                Statement::Label(_) => {},
            }
            i += 1;
        }
        proof {
            assert(self.statements@.take(i as int) =~= self.statements@);
        }
        list
    }

    /// Resolve a label to its instruction index.
    pub fn resolve_label(&self, label: &str) -> (index: Option<usize>)
        ensures
            index == (if self.labels@.contains_key(label@) {
                Some(self.labels@[label@])
            } else {
                None
            }),
    {
        match self.labels.get(label) {
            Some(i) => Some(*i),
            None => None,
        }
    }

    /// Add a statement and update label mappings if needed: a label is
    /// mapped to the index of the next instruction.
    pub fn add_statement(&mut self, statement: Statement)
        ensures
            final(self).statements@ == old(self).statements@.push(statement),
            final(self).directives == old(self).directives,
            final(self).labels@ == labels_after(
                old(self).labels@,
                old(self).instruction_seq().len(),
                statement,
            ),
            final(self).instruction_seq() == old(self).instruction_seq() + instructions_of(
                seq![statement],
            ),
    {
        match &statement {
            Statement::Label(name) => {
                // Label points to the next instruction.
                let count = self.instruction_count();
                self.labels.insert(name.clone(), count);
            },
            Statement::LabeledInstruction { label, instruction } => {
                // Label points to this instruction.
                let count = self.instruction_count();
                self.labels.insert(label.clone(), count);
            },
            Statement::Instruction(_) => {},
        }
        proof {
            let all = self.statements@.push(statement);
            assert(all.drop_last() =~= self.statements@);
            assert(seq![statement].drop_last() =~= Seq::<Statement>::empty());
            assert(instructions_of(seq![statement].drop_last()) =~= Seq::<Instruction>::empty());
            assert(instructions_of(all) =~= instructions_of(self.statements@) + instructions_of(
                seq![statement],
            ));
        }
        self.statements.push(statement);
    }

    /// Get the current instruction count (for label resolution).
    pub fn instruction_count(&self) -> (count: usize)
        ensures
            count == self.instruction_seq().len(),
    {
        let mut count: usize = 0;
        let mut i: usize = 0;
        while i < self.statements.len()
            invariant
                i <= self.statements@.len(),
                count == instructions_of(self.statements@.take(i as int)).len(),
                count <= i,
            decreases self.statements@.len() - i,
        {
            proof {
                assert(self.statements@.take(i + 1).drop_last() =~= self.statements@.take(i as int));
            }
            match &self.statements[i] {
                Statement::Label(_) => {},
                _ => {
                    count += 1;
                },
            }
            i += 1;
        }
        proof {
            assert(self.statements@.take(i as int) =~= self.statements@);
        }
        count
    }
}

impl Default for Program {
    fn default() -> (program: Program)
        ensures
            program.directives@.len() == 0,
            program.statements@.len() == 0,
            program.labels@ == Map::<Seq<char>, usize>::empty(),
    {
        Program::new()
    }
}

} // verus!
