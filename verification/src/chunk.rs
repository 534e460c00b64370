//! Instructions and chunks: a code stream with the line of each instruction,
//! and the pool of constants that the instructions name.

use vstd::prelude::*;
use vstd::string::*;
use crate::value::Value;
use crate::text::{decimal, decimal_text};

verus! {

/// One instruction of the machine.
#[derive(Clone, Copy, Debug, PartialEq, Eq, Structural)]
pub enum Op {
    Constant(usize),
    Nil,
    True,
    False,
    Pop,
    GetLocal(usize),
    SetLocal(usize),
    GetGlobal(usize),
    DefineGlobal(usize),
    SetGlobal(usize),
    Equal,
    Greater,
    Less,
    Add,
    Subtract,
    Multiply,
    Divide,
    Not,
    Negate,
    Print,
    JumpIfFalse(usize),
    Jump(usize),
    Loop(usize),
    Return,
}

/// The source line that an instruction was compiled from.
#[derive(Clone, Copy, Debug, PartialEq, Eq, Structural)]
pub struct Line {
    pub value: usize,
}

/// Makes a `Line`.
pub fn line(value: usize) -> (l: Line)
    ensures
        l.value == value,
{
    Line { value }
}

/// The text of an instruction with an operand: its name, then the operand in
/// round brackets.
pub open spec fn with_operand(name: Seq<char>, operand: usize) -> Seq<char> {
    name + "("@ + decimal(operand as nat) + ")"@
}

impl Op {
    /// The instruction as text, as a report of a runtime error shows it.
    pub open spec fn text(self) -> Seq<char> {
        match self {
            Op::Constant(k) => with_operand("Constant"@, k),
            Op::Nil => "Nil"@,
            Op::True => "True"@,
            Op::False => "False"@,
            Op::Pop => "Pop"@,
            Op::GetLocal(s) => with_operand("GetLocal"@, s),
            Op::SetLocal(s) => with_operand("SetLocal"@, s),
            Op::GetGlobal(k) => with_operand("GetGlobal"@, k),
            Op::DefineGlobal(k) => with_operand("DefineGlobal"@, k),
            Op::SetGlobal(k) => with_operand("SetGlobal"@, k),
            Op::Equal => "Equal"@,
            Op::Greater => "Greater"@,
            Op::Less => "Less"@,
            Op::Add => "Add"@,
            Op::Subtract => "Subtract"@,
            Op::Multiply => "Multiply"@,
            Op::Divide => "Divide"@,
            Op::Not => "Not"@,
            Op::Negate => "Negate"@,
            Op::Print => "Print"@,
            Op::JumpIfFalse(d) => with_operand("JumpIfFalse"@, d),
            Op::Jump(d) => with_operand("Jump"@, d),
            Op::Loop(d) => with_operand("Loop"@, d),
            Op::Return => "Return"@,
        }
    }

    /// Whether the instruction can be appended to a chunk with `constants`
    /// constants and leave it sound: it is no jump, and the constant that it
    /// names, if any, is there.
    pub open spec fn fits(self, constants: nat) -> bool {
        match self {
            Op::Constant(k) => k < constants,
            Op::GetGlobal(k) => k < constants,
            Op::DefineGlobal(k) => k < constants,
            Op::SetGlobal(k) => k < constants,
            Op::JumpIfFalse(_) => false,
            Op::Jump(_) => false,
            Op::Loop(_) => false,
            _ => true,
        }
    }

    /// Whether the instruction moves the instruction pointer by an offset.
    pub open spec fn is_jump(self) -> bool {
        self is JumpIfFalse || self is Jump || self is Loop
    }

    /// Writes the instruction as text.
    pub fn to_text(&self) -> (s: String)
        ensures
            s@ == self.text(),
    {
        match *self {
            Op::Constant(k) => operand_text("Constant", k),
            Op::Nil => String::from_str("Nil"),
            Op::True => String::from_str("True"),
            Op::False => String::from_str("False"),
            Op::Pop => String::from_str("Pop"),
            Op::GetLocal(s) => operand_text("GetLocal", s),
            Op::SetLocal(s) => operand_text("SetLocal", s),
            Op::GetGlobal(k) => operand_text("GetGlobal", k),
            Op::DefineGlobal(k) => operand_text("DefineGlobal", k),
            Op::SetGlobal(k) => operand_text("SetGlobal", k),
            Op::Equal => String::from_str("Equal"),
            Op::Greater => String::from_str("Greater"),
            Op::Less => String::from_str("Less"),
            Op::Add => String::from_str("Add"),
            Op::Subtract => String::from_str("Subtract"),
            Op::Multiply => String::from_str("Multiply"),
            Op::Divide => String::from_str("Divide"),
            Op::Not => String::from_str("Not"),
            Op::Negate => String::from_str("Negate"),
            Op::Print => String::from_str("Print"),
            Op::JumpIfFalse(d) => operand_text("JumpIfFalse", d),
            Op::Jump(d) => operand_text("Jump", d),
            Op::Loop(d) => operand_text("Loop", d),
            Op::Return => String::from_str("Return"),
        }
    }
}

fn operand_text(name: &str, operand: usize) -> (s: String)
    ensures
        s@ == with_operand(name@, operand),
{
    let mut s = String::from_str(name);
    s.append("(");
    let digits = decimal_text(operand);
    s.append(digits.as_str());
    s.append(")");
    s
}

/// What a chunk holds, as sequences.
pub struct ChunkView {
    pub code: Seq<(Op, Line)>,
    pub constants: Seq<Value>,
}

/// A compiled code stream with its constant pool. Both only ever grow.
#[derive(Clone, Debug)]
pub struct Chunk {
    pub code: Vec<(Op, Line)>,
    pub constants: Vec<Value>,
}

impl View for Chunk {
    type V = ChunkView;

    open spec fn view(&self) -> ChunkView {
        ChunkView { code: self.code@, constants: self.constants@ }
    }
}

impl ChunkView {
    /// Every instruction that names a constant names one that the pool holds.
    pub open spec fn constants_in_range(self) -> bool {
        forall|i: int|
            0 <= i < self.code.len() ==> match (#[trigger] self.code[i]).0 {
                Op::Constant(k) => k < self.constants.len(),
                Op::GetGlobal(k) => k < self.constants.len(),
                Op::DefineGlobal(k) => k < self.constants.len(),
                Op::SetGlobal(k) => k < self.constants.len(),
                _ => true,
            }
    }

    /// Every jump lands inside the code or just behind its last instruction.
    /// The offset counts from the instruction that follows the jump.
    pub open spec fn jumps_in_range(self) -> bool {
        forall|i: int|
            0 <= i < self.code.len() ==> match (#[trigger] self.code[i]).0 {
                Op::JumpIfFalse(d) => i + 1 + d <= self.code.len(),
                Op::Jump(d) => i + 1 + d <= self.code.len(),
                Op::Loop(d) => d <= i + 1,
                _ => true,
            }
    }

    /// No instruction is a jump: the code runs from its start to its end.
    pub open spec fn straight(self) -> bool {
        forall|i: int| 0 <= i < self.code.len() ==> !(#[trigger] self.code[i]).0.is_jump()
    }

    /// Whether `other` is this chunk with more code and constants appended.
    pub open spec fn extended_by(self, other: ChunkView) -> bool {
        &&& self.code.len() <= other.code.len()
        &&& other.code.subrange(0, self.code.len() as int) == self.code
        &&& self.constants.len() <= other.constants.len()
        &&& other.constants.subrange(0, self.constants.len() as int) == self.constants
    }
}

impl Default for Chunk {
    /// An empty chunk.
    fn default() -> (chunk: Chunk)
        ensures
            chunk@.code == Seq::<(Op, Line)>::empty(),
            chunk@.constants == Seq::<Value>::empty(),
    {
        Chunk::new()
    }
}

impl Chunk {
    /// An empty chunk.
    pub fn new() -> (chunk: Chunk)
        ensures
            chunk@.code == Seq::<(Op, Line)>::empty(),
            chunk@.constants == Seq::<Value>::empty(),
    {
        Chunk { code: Vec::new(), constants: Vec::new() }
    }

    /// Appends a value to the constant pool and returns its index.
    pub fn add_constant(&mut self, val: Value) -> (index: usize)
        ensures
            index == old(self)@.constants.len(),
            final(self)@.constants == old(self)@.constants.push(val),
            final(self)@.code == old(self)@.code,
    {
        self.constants.push(val);
        self.constants.len() - 1
    }
}

} // verus!
