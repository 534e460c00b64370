//! The virtual machine.
//!
//! `Machine::step` says what one instruction does; `VM::step` does it. The
//! machine neither prints nor rounds numbers: it hands lines of output to its
//! host and asks the host for sums, products and the like, and for the text of
//! numbers. A run pauses with a `Signal` and goes on with `VM::run`.

use vstd::prelude::*;
use vstd::string::*;
use crate::chunk::{Chunk, ChunkView, Line, Op};
use crate::compile::{fresh_parser, Parser};
use crate::globals::Globals;
use crate::object::{Heap, HeapData, HeapView, Object};
use crate::parsing::{report_lines, Parsing};
use crate::scanner::Cursor;
use crate::text::{concat_text, decimal, decimal_text};
use crate::value::{
    negate_number,
    number_equal,
    number_less,
    number_negated,
    numbers_equal,
    numbers_less,
    Value,
};

verus! {

/// How an interpretation ended.
#[derive(Clone, Copy, Debug, PartialEq, Eq, Structural)]
pub enum InterpretResult {
    /// The run reached the end of the code or a `Return`.
    Success,
    /// The source did not compile; nothing ran.
    CompileError,
    /// An instruction did not find what it needs; the run stopped there.
    RuntimeError,
}

/// The four operations on numbers that round their result.
#[derive(Clone, Copy, Debug, PartialEq, Eq, Structural)]
pub enum Arithmetic {
    Add,
    Subtract,
    Multiply,
    Divide,
}

/// Work on numbers that the machine leaves to its host.
#[derive(Clone, Copy, Debug, PartialEq, Eq, Structural)]
pub enum Request {
    /// The result of the operation on the two numbers, left operand first.
    Calculate(Arithmetic, u64, u64),
    /// The shortest decimal text of the number.
    Format(u64),
}

/// What an answer of the host holds.
pub enum Answer {
    Number(u64),
    Text(Seq<char>),
}

/// The host's answer to a `Request`.
#[derive(Debug)]
pub enum Reply {
    /// The result of a calculation.
    Number(u64),
    /// The text of a number.
    Text(String),
}

impl View for Reply {
    type V = Answer;

    open spec fn view(&self) -> Answer {
        match self {
            Reply::Number(bits) => Answer::Number(*bits),
            Reply::Text(text) => Answer::Text(text@),
        }
    }
}

/// The answer that the machine was handed, if any.
pub open spec fn answer_of(reply: Option<Reply>) -> Option<Answer> {
    match reply {
        Some(r) => Some(r@),
        None => None,
    }
}

/// What a signal of the machine holds.
pub enum Event {
    Continue,
    Output(Seq<char>),
    Need(Request),
    Halt(InterpretResult, Seq<char>),
}

/// What the machine tells its host after it has run.
#[derive(Debug)]
pub enum Signal {
    /// The machine can run on.
    Continue,
    /// A line for standard output; the machine can run on.
    Output(String),
    /// The next instruction needs this from the host, and has not run.
    Need(Request),
    /// The run is over. After a runtime error the text is the report for
    /// standard output; after a compile error it holds the diagnostics for
    /// standard error, one per line.
    Halt(InterpretResult, String),
}

impl View for Signal {
    type V = Event;

    open spec fn view(&self) -> Event {
        match self {
            Signal::Continue => Event::Continue,
            Signal::Output(text) => Event::Output(text@),
            Signal::Need(request) => Event::Need(*request),
            Signal::Halt(result, text) => Event::Halt(*result, text@),
        }
    }
}

/// The report of a runtime error: the message, the instruction that failed,
/// and its line.
pub open spec fn report(message: Seq<char>, op: Op, line: Line) -> Seq<char> {
    message + "\n"@ + op.text() + "\n[line "@ + decimal(line.value as nat) + "] in script"@
}

/// The message for a global variable that is read or assigned before it is
/// defined.
pub open spec fn undefined_variable(name: Seq<char>) -> Seq<char> {
    "Undefined variable '"@ + name + "'"@
}

/// Equality of values: values of different kinds differ, numbers are compared
/// as numbers, and two objects are equal when both are strings of one text.
pub open spec fn values_equal(heap: HeapView, a: Value, b: Value) -> bool {
    match (a, b) {
        (Value::Bool(x), Value::Bool(y)) => x == y,
        (Value::Nil, Value::Nil) => true,
        (Value::Number(x), Value::Number(y)) => number_equal(x, y),
        (Value::Obj(x), Value::Obj(y)) => heap.is_text(x) && heap.is_text(y)
            && heap.entries[x].data == heap.entries[y].data,
        _ => false,
    }
}

/// The text of a value that is no number, as `Print` shows it. A handle that
/// is not live has none.
pub open spec fn plain_text(heap: HeapView, value: Value) -> Option<Seq<char>> {
    match value {
        Value::Bool(true) => Some("true"@),
        Value::Bool(false) => Some("false"@),
        Value::Nil => Some("nil"@),
        Value::Number(_) => None,
        Value::Obj(id) => if heap.resolves(id) {
            Some(heap.entries[id].data.label())
        } else {
            None
        },
    }
}

/// The state of the machine.
pub struct Machine {
    pub chunk: ChunkView,
    pub ip: usize,
    pub stack: Seq<Value>,
    pub globals: Map<Seq<char>, Value>,
    pub heap: HeapView,
}

impl Machine {
    /// The value `distance` places below the top of the stack.
    pub open spec fn top(self, distance: int) -> Value {
        self.stack[self.stack.len() - 1 - distance]
    }

    /// The machine with one more value on its stack.
    pub open spec fn push(self, value: Value) -> Machine {
        Machine { stack: self.stack.push(value), ..self }
    }

    /// The machine without the top `count` values of its stack.
    pub open spec fn drop(self, count: int) -> Machine {
        Machine { stack: self.stack.subrange(0, self.stack.len() - count), ..self }
    }

    /// The machine with its instruction pointer at `ip`.
    pub open spec fn jump_to(self, ip: usize) -> Machine {
        Machine { ip, ..self }
    }

    /// A runtime error: the stack is cleared and the run halts with the report.
    pub open spec fn fault(self, message: Seq<char>, op: Op, line: Line) -> (Machine, Event) {
        (
            Machine { stack: Seq::empty(), ..self },
            Event::Halt(InterpretResult::RuntimeError, report(message, op, line)),
        )
    }

    /// The name that the constant `index` gives to a global variable: the
    /// constant must be the handle of a string.
    pub open spec fn global_name(self, index: usize) -> Option<Seq<char>> {
        if index < self.chunk.constants.len() {
            match self.chunk.constants[index as int] {
                Value::Obj(id) => if self.heap.is_text(id) {
                    Some(self.heap.entries[id].data.label())
                } else {
                    None
                },
                _ => None,
            }
        } else {
            None
        }
    }

    /// Whether the handle is the value of a stack slot, a constant or a global.
    pub open spec fn references(self, id: usize) -> bool {
        ||| self.stack.contains(Value::Obj(id))
        ||| self.chunk.constants.contains(Value::Obj(id))
        ||| exists|name: Seq<char>|
            self.globals.contains_key(name) && #[trigger] self.globals[name] == Value::Obj(id)
    }

    /// Frees the object under `id` unless something still refers to it.
    pub open spec fn release(self, id: usize) -> Machine {
        if self.references(id) {
            self
        } else {
            Machine { heap: self.heap.free(id), ..self }
        }
    }

    /// Every handle on the stack, in the constant pool and in the globals is
    /// live.
    pub open spec fn handles_resolve(self) -> bool {
        &&& forall|i: int|
            0 <= i < self.stack.len() ==> (#[trigger] self.stack[i] matches Value::Obj(id)
                ==> self.heap.resolves(id))
        &&& forall|i: int|
            0 <= i < self.chunk.constants.len() ==> (
            #[trigger] self.chunk.constants[i] matches Value::Obj(id) ==> self.heap.resolves(id))
        &&& forall|name: Seq<char>|
            self.globals.contains_key(name) ==> (#[trigger] self.globals[name] matches Value::Obj(
                id,
            ) ==> self.heap.resolves(id))
    }

    /// Whether the two values on top of the stack are numbers.
    pub open spec fn two_numbers(self) -> bool {
        self.stack.len() >= 2 && self.top(1) is Number && self.top(0) is Number
    }

    /// Whether the value `distance` places below the top is the handle of a
    /// string.
    pub open spec fn text_at(self, distance: int) -> bool {
        self.top(distance) matches Value::Obj(id) && self.heap.is_text(id)
    }

    /// Whether the next instruction finds what it needs: operands of the
    /// kinds it works on, a constant, slot or defined name where it names
    /// one, a target inside the code where it loops, and a free handle where
    /// it makes a string. At the end of the code nothing is needed.
    pub open spec fn well_typed(self) -> bool {
        if self.ip >= self.chunk.code.len() {
            true
        } else {
            let depth = self.stack.len();
            match self.chunk.code[self.ip as int].0 {
                Op::Constant(k) => k < self.chunk.constants.len(),
                Op::Nil | Op::True | Op::False | Op::Jump(_) | Op::Return => true,
                Op::Pop | Op::JumpIfFalse(_) => depth >= 1,
                Op::GetLocal(slot) => slot < depth,
                Op::SetLocal(slot) => slot < depth,
                Op::GetGlobal(k) => self.global_name(k) matches Some(name)
                    && self.globals.contains_key(name),
                Op::DefineGlobal(k) => depth >= 1 && self.global_name(k) is Some,
                Op::SetGlobal(k) => depth >= 1 && (self.global_name(k) matches Some(name)
                    && self.globals.contains_key(name)),
                Op::Equal => depth >= 2,
                Op::Greater | Op::Less | Op::Subtract | Op::Multiply | Op::Divide => self.two_numbers(),
                Op::Add => depth >= 2 && (self.two_numbers() || ((self.top(1) is Number
                    || self.text_at(1)) && (self.top(0) is Number || self.text_at(0))
                    && self.heap.next_id < usize::MAX)),
                Op::Not => depth >= 1 && (self.top(0) is Bool || self.top(0) is Nil),
                Op::Negate => depth >= 1 && self.top(0) is Number,
                Op::Print => depth >= 1 && (self.top(0) matches Value::Obj(id)
                    ==> self.heap.resolves(id)),
                Op::Loop(offset) => offset <= self.ip + 1,
            }
        }
    }

    /// The machine is sound: every handle it holds is live, and the heap never
    /// issues a handle twice.
    pub open spec fn sound(self) -> bool {
        self.handles_resolve() && self.heap.well_formed()
    }

    /// What the next instruction needs from the host before it can run.
    pub open spec fn needs(self) -> Option<Request> {
        if self.ip >= self.chunk.code.len() {
            None
        } else {
            match self.chunk.code[self.ip as int].0 {
                Op::Add => if self.stack.len() < 2 {
                    None
                } else {
                    match (self.top(1), self.top(0)) {
                        (Value::Number(a), Value::Number(b)) => Some(
                            Request::Calculate(Arithmetic::Add, a, b),
                        ),
                        (Value::Number(a), Value::Obj(id)) => if self.heap.is_text(id) {
                            Some(Request::Format(a))
                        } else {
                            None
                        },
                        (Value::Obj(id), Value::Number(b)) => if self.heap.is_text(id) {
                            Some(Request::Format(b))
                        } else {
                            None
                        },
                        _ => None,
                    }
                },
                Op::Subtract => self.needs_result(Arithmetic::Subtract),
                Op::Multiply => self.needs_result(Arithmetic::Multiply),
                Op::Divide => self.needs_result(Arithmetic::Divide),
                Op::Print => if self.stack.len() < 1 {
                    None
                } else {
                    match self.top(0) {
                        Value::Number(n) => Some(Request::Format(n)),
                        _ => None,
                    }
                },
                _ => None,
            }
        }
    }

    /// The request for `operation` on the two numbers on top of the stack, if
    /// two numbers are there.
    pub open spec fn needs_result(self, operation: Arithmetic) -> Option<Request> {
        if self.stack.len() < 2 {
            None
        } else {
            match (self.top(1), self.top(0)) {
                (Value::Number(a), Value::Number(b)) => Some(Request::Calculate(operation, a, b)),
                _ => None,
            }
        }
    }

    /// Replaces the two operands on top of the stack by a new string of the
    /// given text, then frees the strings `first` and `second` unless something
    /// still refers to them.
    pub open spec fn join(self, text: Seq<char>, first: usize, second: usize, op: Op, line: Line) -> (
        Machine,
        Event,
    ) {
        let popped = self.drop(2);
        if popped.heap.next_id == usize::MAX {
            popped.fault("Out of object handles"@, op, line)
        } else {
            let stored = Machine {
                heap: popped.heap.allocate(Object::Text(text)),
                stack: popped.stack.push(Value::Obj(popped.heap.next_id)),
                ..popped
            };
            (stored.release(first).release(second), Event::Continue)
        }
    }

    /// An arithmetic instruction, given the host's result: the result replaces
    /// the two operands.
    pub open spec fn calculated(self, result: u64) -> (Machine, Event) {
        (self.drop(2).push(Value::Number(result)), Event::Continue)
    }

    /// An instruction that asked for the text of a number, given that text:
    /// `Print` writes it; `Add` joins it with the string operand, number first
    /// or last as the operands stand.
    pub open spec fn formatted(self, text: Seq<char>, op: Op, line: Line) -> (Machine, Event) {
        if op is Print {
            (self.drop(1), Event::Output(text))
        } else {
            match (self.top(1), self.top(0)) {
                (Value::Number(_), Value::Obj(id)) => self.join(
                    text + self.heap.entries[id].data.label(),
                    id,
                    id,
                    op,
                    line,
                ),
                (Value::Obj(id), _) => self.join(
                    self.heap.entries[id].data.label() + text,
                    id,
                    id,
                    op,
                    line,
                ),
                _ => (self, Event::Continue),
            }
        }
    }

    /// A comparison of the two numbers on top of the stack.
    pub open spec fn compared(self, greater: bool, op: Op, line: Line) -> (Machine, Event) {
        if self.stack.len() < 2 {
            self.fault("Stack underflow"@, op, line)
        } else {
            match (self.top(1), self.top(0)) {
                (Value::Number(a), Value::Number(b)) => (
                    self.drop(2).push(
                        Value::Bool(
                            if greater {
                                number_less(b, a)
                            } else {
                                number_less(a, b)
                            },
                        ),
                    ),
                    Event::Continue,
                ),
                _ => self.fault("Operands must be numbers"@, op, line),
            }
        }
    }

    /// An instruction that needs nothing from the host. The instruction pointer
    /// already stands behind the instruction.
    pub open spec fn execute(self, op: Op, line: Line) -> (Machine, Event) {
        match op {
            Op::Constant(k) => if k < self.chunk.constants.len() {
                (self.push(self.chunk.constants[k as int]), Event::Continue)
            } else {
                self.fault("Invalid constant index"@, op, line)
            },
            Op::Nil => (self.push(Value::Nil), Event::Continue),
            Op::True => (self.push(Value::Bool(true)), Event::Continue),
            Op::False => (self.push(Value::Bool(false)), Event::Continue),
            Op::Pop => if self.stack.len() < 1 {
                self.fault("Stack underflow"@, op, line)
            } else {
                (self.drop(1), Event::Continue)
            },
            Op::GetLocal(slot) => if slot < self.stack.len() {
                (self.push(self.stack[slot as int]), Event::Continue)
            } else {
                self.fault("Invalid local slot"@, op, line)
            },
            Op::SetLocal(slot) => if self.stack.len() < 1 {
                self.fault("Stack underflow"@, op, line)
            } else if slot < self.stack.len() {
                (
                    Machine { stack: self.stack.update(slot as int, self.top(0)), ..self },
                    Event::Continue,
                )
            } else {
                self.fault("Invalid local slot"@, op, line)
            },
            Op::GetGlobal(k) => match self.global_name(k) {
                None => self.fault("Expected string as global variable name"@, op, line),
                Some(name) => if self.globals.contains_key(name) {
                    (self.push(self.globals[name]), Event::Continue)
                } else {
                    self.fault(undefined_variable(name), op, line)
                },
            },
            Op::DefineGlobal(k) => if self.stack.len() < 1 {
                self.fault("Stack underflow"@, op, line)
            } else {
                match self.global_name(k) {
                    None => self.drop(1).fault(
                        "Expected string as global variable name"@,
                        op,
                        line,
                    ),
                    Some(name) => (
                        Machine {
                            globals: self.globals.insert(name, self.top(0)),
                            ..self.drop(1)
                        },
                        Event::Continue,
                    ),
                }
            },
            Op::SetGlobal(k) => if self.stack.len() < 1 {
                self.fault("Stack underflow"@, op, line)
            } else {
                match self.global_name(k) {
                    None => self.drop(1).fault(
                        "Expected string as global variable name"@,
                        op,
                        line,
                    ),
                    Some(name) => if self.globals.contains_key(name) {
                        (
                            Machine {
                                globals: self.globals.insert(name, self.top(0)),
                                ..self.drop(1)
                            },
                            Event::Continue,
                        )
                    } else {
                        self.drop(1).fault(undefined_variable(name), op, line)
                    },
                }
            },
            Op::Equal => if self.stack.len() < 2 {
                self.fault("Stack underflow"@, op, line)
            } else {
                (
                    self.drop(2).push(
                        Value::Bool(values_equal(self.heap, self.top(1), self.top(0))),
                    ),
                    Event::Continue,
                )
            },
            Op::Greater => self.compared(true, op, line),
            Op::Less => self.compared(false, op, line),
            Op::Add => if self.stack.len() < 2 {
                self.fault("Stack underflow"@, op, line)
            } else {
                match (self.top(1), self.top(0)) {
                    (Value::Obj(a), Value::Obj(b)) => if self.heap.is_text(a) && self.heap.is_text(
                        b,
                    ) {
                        self.join(
                            self.heap.entries[a].data.label() + self.heap.entries[b].data.label(),
                            a,
                            b,
                            op,
                            line,
                        )
                    } else {
                        self.fault(
                            "Operands must be two numbers or two strings or one of each"@,
                            op,
                            line,
                        )
                    },
                    _ => self.fault(
                        "Operands must be two numbers or two strings or one of each"@,
                        op,
                        line,
                    ),
                }
            },
            Op::Subtract | Op::Multiply | Op::Divide => if self.stack.len() < 2 {
                self.fault("Stack underflow"@, op, line)
            } else {
                self.fault("Operands must be numbers"@, op, line)
            },
            Op::Not => if self.stack.len() < 1 {
                self.fault("Stack underflow"@, op, line)
            } else {
                match self.top(0) {
                    Value::Bool(b) => (self.drop(1).push(Value::Bool(!b)), Event::Continue),
                    Value::Nil => (self.drop(1).push(Value::Bool(true)), Event::Continue),
                    _ => self.fault("Operand must be a boolean"@, op, line),
                }
            },
            Op::Negate => if self.stack.len() < 1 {
                self.fault("Stack underflow"@, op, line)
            } else {
                match self.top(0) {
                    Value::Number(n) => (
                        self.drop(1).push(Value::Number(number_negated(n))),
                        Event::Continue,
                    ),
                    _ => self.fault("Operand must be a number"@, op, line),
                }
            },
            Op::Print => if self.stack.len() < 1 {
                self.fault("Stack underflow"@, op, line)
            } else {
                match plain_text(self.heap, self.top(0)) {
                    Some(text) => (self.drop(1), Event::Output(text)),
                    None => self.fault("Unknown object handle"@, op, line),
                }
            },
            Op::JumpIfFalse(offset) => if self.stack.len() < 1 {
                self.fault("Stack underflow"@, op, line)
            } else if self.top(0) == Value::Nil || self.top(0) == Value::Bool(false) {
                (self.jump_to(forward(self.ip, offset)), Event::Continue)
            } else {
                (self, Event::Continue)
            },
            Op::Jump(offset) => (self.jump_to(forward(self.ip, offset)), Event::Continue),
            Op::Loop(offset) => if offset <= self.ip {
                (self.jump_to((self.ip - offset) as usize), Event::Continue)
            } else {
                self.fault("Invalid loop offset"@, op, line)
            },
            Op::Return => (self, Event::Halt(InterpretResult::Success, Seq::empty())),
        }
    }

    /// One instruction. At the end of the code the run halts with `Success`. An
    /// instruction that needs the host's help runs only when `reply` answers
    /// its request; otherwise the machine stays as it is and asks.
    pub open spec fn step(self, reply: Option<Answer>) -> (Machine, Event) {
        if self.ip >= self.chunk.code.len() {
            (self, Event::Halt(InterpretResult::Success, Seq::empty()))
        } else {
            let (op, line) = self.chunk.code[self.ip as int];
            let next = self.jump_to((self.ip + 1) as usize);
            match (self.needs(), reply) {
                (Some(Request::Calculate(_, _, _)), Some(Answer::Number(result))) => next.calculated(
                    result,
                ),
                (Some(Request::Format(_)), Some(Answer::Text(text))) => next.formatted(
                    text,
                    op,
                    line,
                ),
                (Some(request), _) => (self, Event::Need(request)),
                (None, _) => next.execute(op, line),
            }
        }
    }

    /// How many instructions lie at or behind the instruction pointer.
    pub open spec fn remaining(self) -> nat {
        if self.ip <= self.chunk.code.len() {
            (self.chunk.code.len() - self.ip) as nat
        } else {
            0
        }
    }

    /// Instructions one after another, as long as each lets the machine
    /// continue and moves the instruction pointer forward. Only the first one
    /// sees `reply`.
    pub open spec fn run(self, reply: Option<Answer>) -> (Machine, Event)
        decreases self.remaining(),
    {
        let (next, event) = self.step(reply);
        if event is Continue && next.ip > self.ip && next.chunk == self.chunk {
            next.run(None)
        } else {
            (next, event)
        }
    }
}

/// The result of compiling a source for a machine with the given heap, from
/// a new parser into an empty chunk.
pub open spec fn compiled(src: Seq<char>, numbers: Seq<u64>, heap: HeapView) -> Parsing {
    (Parsing {
        parser: fresh_parser(),
        cursor: Cursor { start: 0, current: 0, line: 1 },
        chunk: ChunkView { code: Seq::empty(), constants: Seq::empty() },
        heap,
    }).compile(src, numbers)
}

/// The target of a forward jump: where the sum does not fit the machine's
/// word, the largest address, which lies behind any code.
pub open spec fn forward(ip: usize, offset: usize) -> usize {
    if ip + offset <= usize::MAX {
        (ip + offset) as usize
    } else {
        usize::MAX
    }
}


/// How many values the stack has room for before it first grows.
pub const STACK_MAX: usize = 256;

/// The virtual machine: the chunk it runs, its instruction pointer, the
/// operand stack, the global variables and the heap. The globals and the heap
/// outlive a run.
pub struct VM {
    pub chunk: Chunk,
    pub ip: usize,
    pub stack: Vec<Value>,
    pub globals: Globals,
    pub heap: Heap,
}

impl View for VM {
    type V = Machine;

    open spec fn view(&self) -> Machine {
        Machine {
            chunk: self.chunk@,
            ip: self.ip,
            stack: self.stack@,
            globals: self.globals@,
            heap: self.heap@,
        }
    }
}

fn holds(values: &Vec<Value>, id: usize) -> (found: bool)
    ensures
        found == values@.contains(Value::Obj(id)),
{
    let mut i: usize = 0;
    while i < values.len()
        invariant
            i <= values@.len(),
            forall|j: int| 0 <= j < i ==> values@[j] != Value::Obj(id),
        decreases values@.len() - i,
    {
        if values[i] == Value::Obj(id) {
            return true;
        }
        i = i + 1;
    }
    false
}

/// The text of a value that is no number, as `Print` shows it: `true`,
/// `false`, `nil`, the characters of a string, the name of a function. A
/// number has none here, since the host writes numbers, and a handle that is
/// not live has none.
pub fn value_text(value: &Value, heap: &Heap) -> (text: Option<String>)
    ensures
        match text {
            Some(t) => plain_text(heap@, *value) == Some(t@),
            None => plain_text(heap@, *value) is None,
        },
{
    match *value {
        Value::Bool(true) => Some(String::from_str("true")),
        Value::Bool(false) => Some(String::from_str("false")),
        Value::Nil => Some(String::from_str("nil")),
        Value::Number(_) => None,
        Value::Obj(id) => match heap.get(&id) {
            Some(data) => Some(data.as_string().clone()),
            None => None,
        },
    }
}

fn forward_to(ip: usize, offset: usize) -> (target: usize)
    ensures
        target == forward(ip, offset),
{
    if offset <= usize::MAX - ip {
        ip + offset
    } else {
        usize::MAX
    }
}

impl VM {
    /// A machine with nothing to run, no globals and an empty heap.
    pub fn new() -> (vm: VM)
        ensures
            vm@.chunk.code.len() == 0,
            vm@.chunk.constants.len() == 0,
            vm@.ip == 0,
            vm@.stack.len() == 0,
            vm@.globals == Map::<Seq<char>, Value>::empty(),
            vm@.heap.entries == Map::<usize, crate::object::Entry>::empty(),
            vm@.heap.next_id == 0,
            vm@.sound(),
    {
        VM {
            chunk: Chunk::new(),
            ip: 0,
            stack: Vec::with_capacity(STACK_MAX),
            globals: Globals::new(),
            heap: Heap::new(),
        }
    }

    /// Makes the machine ready for a new run: no code, an empty stack. The
    /// globals and the heap stay as they are.
    pub fn init_vm(&mut self)
        ensures
            final(self)@.chunk.code.len() == 0,
            final(self)@.chunk.constants.len() == 0,
            final(self)@.ip == 0,
            final(self)@.stack.len() == 0,
            final(self)@.globals == old(self)@.globals,
            final(self)@.heap == old(self)@.heap,
    {
        self.reset_stack();
        self.chunk = Chunk::new();
        self.ip = 0;
    }

    /// Empties the stack.
    pub fn reset_stack(&mut self)
        ensures
            final(self)@ == (Machine { stack: Seq::empty(), ..old(self)@ }),
    {
        self.stack.clear();
    }

    /// Puts a value on top of the stack.
    pub fn push(&mut self, value: Value)
        ensures
            final(self)@ == old(self)@.push(value),
    {
        self.stack.push(value);
    }

    /// Takes the top value off the stack.
    pub fn pop(&mut self) -> (value: Value)
        requires
            old(self)@.stack.len() > 0,
        ensures
            value == old(self)@.top(0),
            final(self)@ == old(self)@.drop(1),
    {
        let value = self.stack.pop();
        match value {
            Some(v) => v,
            None => Value::Nil,
        }
    }

    /// The value `distance` places below the top of the stack.
    pub fn peek(&self, distance: usize) -> (value: Value)
        requires
            distance < self@.stack.len(),
        ensures
            value == self@.top(distance as int),
    {
        self.stack[self.stack.len() - 1 - distance]
    }

    /// Compares two values.
    pub fn equal(&self, a: Value, b: Value) -> (same: bool)
        ensures
            same == values_equal(self@.heap, a, b),
    {
        match (a, b) {
            (Value::Bool(x), Value::Bool(y)) => x == y,
            (Value::Nil, Value::Nil) => true,
            (Value::Number(x), Value::Number(y)) => numbers_equal(x, y),
            (Value::Obj(x), Value::Obj(y)) => {
                match (self.heap.get(&x), self.heap.get(&y)) {
                    (Some(HeapData::String(s)), Some(HeapData::String(t))) => *s == *t,
                    _ => false,
                }
            },
            _ => false,
        }
    }

    /// Compiles `source` and runs it as far as `run` goes. `numbers` holds the
    /// values of the number literals of the source, in its order.
    ///
    /// After a compile error the machine keeps its chunk, stack and globals,
    /// and the signal holds the error lines. Else the new chunk replaces the
    /// old one and runs from its start on an empty stack; the globals stay.
    /// A sound machine stays sound. Compiled code has no jumps, so the run
    /// goes on until it needs the host or halts.
    pub fn interpret(&mut self, source: String, numbers: Vec<u64>) -> (signal: Signal)
        ensures
            ({
                let done = compiled(source@, numbers@, old(self)@.heap);
                if done.parser.had_error {
                    &&& final(self)@ == (Machine { heap: done.heap, ..old(self)@ })
                    &&& signal@ == Event::Halt(
                        InterpretResult::CompileError,
                        report_lines(source@, done.parser.diagnostics),
                    )
                } else {
                    let loaded = Machine {
                        chunk: done.chunk,
                        ip: 0,
                        stack: Seq::empty(),
                        globals: old(self)@.globals,
                        heap: done.heap,
                    };
                    &&& final(self)@ == loaded.run(None).0
                    &&& signal@ == loaded.run(None).1
                }
            }),
            old(self)@.sound() ==> final(self)@.sound(),
            !(signal@ is Continue),
    {
        let mut parser = Parser::new();
        let mut chunk: Chunk = Chunk::new();
        let text = source.clone();
        let ghost before = self@;

        if !parser.compile(source, numbers, &mut chunk, &mut self.heap) {
            let lines = parser.error_lines(&text);
            return Signal::Halt(InterpretResult::CompileError, lines);
        }
        self.chunk = chunk;
        self.ip = 0;
        self.stack.clear();
        proof {
            assert(self.chunk.code@.len() == self.chunk.code.len());
            lemma_straight_run_goes_on(self@, None);
            if before.sound() {
                assert(self@.handles_resolve());
                lemma_run_keeps_handles(self@, None);
                lemma_run_keeps_heap(self@, None);
            }
        }
        self.run(None)
    }

    /// Ends the run with a runtime error: builds the report and clears the
    /// stack.
    fn runtime_error(&mut self, message: &str, op: Op, line: Line) -> (signal: Signal)
        ensures
            final(self)@ == old(self)@.fault(message@, op, line).0,
            signal@ == old(self)@.fault(message@, op, line).1,
    {
        let mut text = String::from_str(message);
        text.append("\n");
        let instruction = op.to_text();
        text.append(instruction.as_str());
        text.append("\n[line ");
        let number = decimal_text(line.value);
        text.append(number.as_str());
        text.append("] in script");
        self.stack.clear();
        Signal::Halt(InterpretResult::RuntimeError, text)
    }

    fn undefined(&mut self, name: &String, op: Op, line: Line) -> (signal: Signal)
        ensures
            final(self)@ == old(self)@.fault(undefined_variable(name@), op, line).0,
            signal@ == old(self)@.fault(undefined_variable(name@), op, line).1,
    {
        let mut message = String::from_str("Undefined variable '");
        message.append(name.as_str());
        message.append("'");
        self.runtime_error(message.as_str(), op, line)
    }

    /// Whether a stack slot, a constant or a global holds the handle.
    pub fn references(&self, id: usize) -> (found: bool)
        ensures
            found == self@.references(id),
    {
        holds(&self.stack, id) || holds(&self.chunk.constants, id) || self.globals.mentions(id)
    }

    fn release(&mut self, id: usize)
        ensures
            final(self)@ == old(self)@.release(id),
    {
        if !self.references(id) {
            self.heap.free(id);
        }
    }

    fn global_name(&self, index: usize) -> (name: Option<String>)
        ensures
            match name {
                Some(n) => self@.global_name(index) == Some(n@),
                None => self@.global_name(index) is None,
            },
    {
        if index < self.chunk.constants.len() {
            match self.chunk.constants[index] {
                Value::Obj(id) => match self.heap.get(&id) {
                    Some(HeapData::String(s)) => Some(s.clone()),
                    _ => None,
                },
                _ => None,
            }
        } else {
            None
        }
    }

    /// The text of the string under `id`, if the handle names a string.
    fn text_of(&self, id: usize) -> (text: Option<String>)
        ensures
            match text {
                Some(t) => self@.heap.is_text(id) && t@ == self@.heap.entries[id].data.label(),
                None => !self@.heap.is_text(id),
            },
    {
        match self.heap.get(&id) {
            Some(HeapData::String(s)) => Some(s.clone()),
            _ => None,
        }
    }

    fn request_result(&self, operation: Arithmetic) -> (request: Option<Request>)
        ensures
            request == self@.needs_result(operation),
    {
        let depth = self.stack.len();
        if depth < 2 {
            None
        } else {
            match (self.stack[depth - 2], self.stack[depth - 1]) {
                (Value::Number(a), Value::Number(b)) => Some(Request::Calculate(operation, a, b)),
                _ => None,
            }
        }
    }

    /// What the next instruction needs from the host before it can run.
    pub fn request(&self) -> (request: Option<Request>)
        ensures
            request == self@.needs(),
    {
        if self.ip >= self.chunk.code.len() {
            return None;
        }
        let depth = self.stack.len();
        match self.chunk.code[self.ip].0 {
            Op::Add => {
                if depth < 2 {
                    None
                } else {
                    match (self.stack[depth - 2], self.stack[depth - 1]) {
                        (Value::Number(a), Value::Number(b)) => Some(
                            Request::Calculate(Arithmetic::Add, a, b),
                        ),
                        (Value::Number(a), Value::Obj(id)) => {
                            if self.text_of(id).is_some() {
                                Some(Request::Format(a))
                            } else {
                                None
                            }
                        },
                        (Value::Obj(id), Value::Number(b)) => {
                            if self.text_of(id).is_some() {
                                Some(Request::Format(b))
                            } else {
                                None
                            }
                        },
                        _ => None,
                    }
                }
            },
            Op::Subtract => self.request_result(Arithmetic::Subtract),
            Op::Multiply => self.request_result(Arithmetic::Multiply),
            Op::Divide => self.request_result(Arithmetic::Divide),
            Op::Print => {
                if depth < 1 {
                    None
                } else {
                    match self.stack[depth - 1] {
                        Value::Number(n) => Some(Request::Format(n)),
                        _ => None,
                    }
                }
            },
            _ => None,
        }
    }

    fn join(&mut self, text: String, first: usize, second: usize, op: Op, line: Line) -> (signal:
        Signal)
        requires
            old(self)@.stack.len() >= 2,
        ensures
            final(self)@ == old(self)@.join(text@, first, second, op, line).0,
            signal@ == old(self)@.join(text@, first, second, op, line).1,
    {
        self.stack.pop();
        self.stack.pop();
        assert(self@.stack =~= old(self)@.drop(2).stack);
        if self.heap.is_full() {
            return self.runtime_error("Out of object handles", op, line);
        }
        let id = self.heap.allocate(HeapData::String(text));
        self.stack.push(Value::Obj(id));
        self.release(first);
        self.release(second);
        Signal::Continue
    }

    fn calculated(&mut self, result: u64) -> (signal: Signal)
        requires
            old(self)@.stack.len() >= 2,
        ensures
            final(self)@ == old(self)@.calculated(result).0,
            signal@ == old(self)@.calculated(result).1,
    {
        self.stack.pop();
        self.stack.pop();
        self.stack.push(Value::Number(result));
        assert(self@.stack =~= old(self)@.drop(2).push(Value::Number(result)).stack);
        Signal::Continue
    }

    fn formatted(&mut self, text: String, op: Op, line: Line) -> (signal: Signal)
        requires
            op is Print ==> old(self)@.stack.len() >= 1,
            !(op is Print) ==> old(self)@.stack.len() >= 2 && (match (
                old(self)@.top(1),
                old(self)@.top(0),
            ) {
                (Value::Number(_), Value::Obj(id)) => old(self)@.heap.is_text(id),
                (Value::Obj(id), Value::Number(_)) => old(self)@.heap.is_text(id),
                _ => false,
            }),
        ensures
            final(self)@ == old(self)@.formatted(text@, op, line).0,
            signal@ == old(self)@.formatted(text@, op, line).1,
    {
        match op {
            Op::Print => {
                self.stack.pop();
                Signal::Output(text)
            },
            _ => {
                let depth = self.stack.len();
                match (self.stack[depth - 2], self.stack[depth - 1]) {
                    (Value::Number(_), Value::Obj(id)) => {
                        match self.text_of(id) {
                            Some(tail) => {
                                let joined = concat_text(&text, &tail);
                                self.join(joined, id, id, op, line)
                            },
                            None => Signal::Continue,
                        }
                    },
                    (Value::Obj(id), _) => {
                        match self.text_of(id) {
                            Some(head) => {
                                let joined = concat_text(&head, &text);
                                self.join(joined, id, id, op, line)
                            },
                            None => Signal::Continue,
                        }
                    },
                    _ => Signal::Continue,
                }
            },
        }
    }

    fn compared(&mut self, greater: bool, op: Op, line: Line) -> (signal: Signal)
        ensures
            final(self)@ == old(self)@.compared(greater, op, line).0,
            signal@ == old(self)@.compared(greater, op, line).1,
    {
        let depth = self.stack.len();
        if depth < 2 {
            return self.runtime_error("Stack underflow", op, line);
        }
        match (self.stack[depth - 2], self.stack[depth - 1]) {
            (Value::Number(a), Value::Number(b)) => {
                let outcome = if greater {
                    numbers_less(b, a)
                } else {
                    numbers_less(a, b)
                };
                self.stack.pop();
                self.stack.pop();
                self.stack.push(Value::Bool(outcome));
                assert(self@.stack =~= old(self)@.drop(2).push(Value::Bool(outcome)).stack);
                Signal::Continue
            },
            _ => self.runtime_error("Operands must be numbers", op, line),
        }
    }

    fn global_read(&mut self, index: usize, op: Op, line: Line) -> (signal: Signal)
        requires
            op == Op::GetGlobal(index),
        ensures
            final(self)@ == old(self)@.execute(op, line).0,
            signal@ == old(self)@.execute(op, line).1,
    {
        match self.global_name(index) {
            None => self.runtime_error("Expected string as global variable name", op, line),
            Some(name) => match self.globals.get(&name) {
                Some(value) => {
                    self.stack.push(value);
                    Signal::Continue
                },
                None => self.undefined(&name, op, line),
            },
        }
    }

    fn global_write(&mut self, index: usize, define: bool, op: Op, line: Line) -> (signal: Signal)
        requires
            define ==> op == Op::DefineGlobal(index),
            !define ==> op == Op::SetGlobal(index),
        ensures
            final(self)@ == old(self)@.execute(op, line).0,
            signal@ == old(self)@.execute(op, line).1,
    {
        let depth = self.stack.len();
        if depth < 1 {
            return self.runtime_error("Stack underflow", op, line);
        }
        let value = self.stack[depth - 1];
        self.stack.pop();
        assert(self@ == old(self)@.drop(1));
        match self.global_name(index) {
            None => self.runtime_error("Expected string as global variable name", op, line),
            Some(name) => {
                if define || self.globals.contains_key(&name) {
                    self.globals.insert(name, value);
                    Signal::Continue
                } else {
                    self.undefined(&name, op, line)
                }
            },
        }
    }

    fn add_strings(&mut self, op: Op, line: Line) -> (signal: Signal)
        requires
            op == Op::Add,
        ensures
            final(self)@ == old(self)@.execute(op, line).0,
            signal@ == old(self)@.execute(op, line).1,
    {
        let depth = self.stack.len();
        if depth < 2 {
            return self.runtime_error("Stack underflow", op, line);
        }
        match (self.stack[depth - 2], self.stack[depth - 1]) {
            (Value::Obj(a), Value::Obj(b)) => {
                match (self.text_of(a), self.text_of(b)) {
                    (Some(head), Some(tail)) => {
                        let joined = concat_text(&head, &tail);
                        self.join(joined, a, b, op, line)
                    },
                    _ => self.runtime_error(
                        "Operands must be two numbers or two strings or one of each",
                        op,
                        line,
                    ),
                }
            },
            _ => self.runtime_error(
                "Operands must be two numbers or two strings or one of each",
                op,
                line,
            ),
        }
    }

    fn print(&mut self, op: Op, line: Line) -> (signal: Signal)
        requires
            op == Op::Print,
        ensures
            final(self)@ == old(self)@.execute(op, line).0,
            signal@ == old(self)@.execute(op, line).1,
    {
        let depth = self.stack.len();
        if depth < 1 {
            return self.runtime_error("Stack underflow", op, line);
        }
        let text = value_text(&self.stack[depth - 1], &self.heap);
        match text {
            Some(text) => {
                self.stack.pop();
                Signal::Output(text)
            },
            None => self.runtime_error("Unknown object handle", op, line),
        }
    }

    /// Runs an instruction that needs nothing from the host.
    fn execute(&mut self, op: Op, line: Line) -> (signal: Signal)
        ensures
            final(self)@ == old(self)@.execute(op, line).0,
            signal@ == old(self)@.execute(op, line).1,
    {
        let depth = self.stack.len();
        match op {
            Op::Constant(k) => {
                if k < self.chunk.constants.len() {
                    let value = self.chunk.constants[k];
                    self.stack.push(value);
                    Signal::Continue
                } else {
                    self.runtime_error("Invalid constant index", op, line)
                }
            },
            Op::Nil => {
                self.stack.push(Value::Nil);
                Signal::Continue
            },
            Op::True => {
                self.stack.push(Value::Bool(true));
                Signal::Continue
            },
            Op::False => {
                self.stack.push(Value::Bool(false));
                Signal::Continue
            },
            Op::Pop => {
                if depth < 1 {
                    self.runtime_error("Stack underflow", op, line)
                } else {
                    self.stack.pop();
                    Signal::Continue
                }
            },
            Op::GetLocal(slot) => {
                if slot < depth {
                    let value = self.stack[slot];
                    self.stack.push(value);
                    Signal::Continue
                } else {
                    self.runtime_error("Invalid local slot", op, line)
                }
            },
            Op::SetLocal(slot) => {
                if depth < 1 {
                    self.runtime_error("Stack underflow", op, line)
                } else if slot < depth {
                    let value = self.stack[depth - 1];
                    self.stack[slot] = value;
                    Signal::Continue
                } else {
                    self.runtime_error("Invalid local slot", op, line)
                }
            },
            Op::GetGlobal(k) => self.global_read(k, op, line),
            Op::DefineGlobal(k) => self.global_write(k, true, op, line),
            Op::SetGlobal(k) => self.global_write(k, false, op, line),
            Op::Equal => {
                if depth < 2 {
                    self.runtime_error("Stack underflow", op, line)
                } else {
                    let same = self.equal(self.stack[depth - 2], self.stack[depth - 1]);
                    self.stack.pop();
                    self.stack.pop();
                    self.stack.push(Value::Bool(same));
                    assert(self@.stack =~= old(self)@.drop(2).push(Value::Bool(same)).stack);
                    Signal::Continue
                }
            },
            Op::Greater => self.compared(true, op, line),
            Op::Less => self.compared(false, op, line),
            Op::Add => self.add_strings(op, line),
            Op::Subtract | Op::Multiply | Op::Divide => {
                if depth < 2 {
                    self.runtime_error("Stack underflow", op, line)
                } else {
                    self.runtime_error("Operands must be numbers", op, line)
                }
            },
            Op::Not => {
                if depth < 1 {
                    self.runtime_error("Stack underflow", op, line)
                } else {
                    match self.stack[depth - 1] {
                        Value::Bool(b) => {
                            self.stack.pop();
                            self.stack.push(Value::Bool(!b));
                            Signal::Continue
                        },
                        Value::Nil => {
                            self.stack.pop();
                            self.stack.push(Value::Bool(true));
                            Signal::Continue
                        },
                        _ => self.runtime_error("Operand must be a boolean", op, line),
                    }
                }
            },
            Op::Negate => {
                if depth < 1 {
                    self.runtime_error("Stack underflow", op, line)
                } else {
                    match self.stack[depth - 1] {
                        Value::Number(n) => {
                            self.stack.pop();
                            self.stack.push(Value::Number(negate_number(n)));
                            Signal::Continue
                        },
                        _ => self.runtime_error("Operand must be a number", op, line),
                    }
                }
            },
            Op::Print => self.print(op, line),
            Op::JumpIfFalse(offset) => {
                if depth < 1 {
                    self.runtime_error("Stack underflow", op, line)
                } else {
                    let top = self.stack[depth - 1];
                    if top == Value::Nil || top == Value::Bool(false) {
                        self.ip = forward_to(self.ip, offset);
                    }
                    Signal::Continue
                }
            },
            Op::Jump(offset) => {
                self.ip = forward_to(self.ip, offset);
                Signal::Continue
            },
            Op::Loop(offset) => {
                if offset <= self.ip {
                    self.ip = self.ip - offset;
                    Signal::Continue
                } else {
                    self.runtime_error("Invalid loop offset", op, line)
                }
            },
            Op::Return => Signal::Halt(InterpretResult::Success, String::new()),
        }
    }

    /// Runs one instruction. See `Machine::step`.
    pub fn step(&mut self, reply: Option<Reply>) -> (signal: Signal)
        ensures
            final(self)@ == old(self)@.step(answer_of(reply)).0,
            signal@ == old(self)@.step(answer_of(reply)).1,
    {
        if self.ip >= self.chunk.code.len() {
            return Signal::Halt(InterpretResult::Success, String::new());
        }
        let (op, line) = self.chunk.code[self.ip];
        match (self.request(), reply) {
            (Some(Request::Calculate(_, _, _)), Some(Reply::Number(result))) => {
                self.ip = self.ip + 1;
                self.calculated(result)
            },
            (Some(Request::Format(_)), Some(Reply::Text(text))) => {
                self.ip = self.ip + 1;
                self.formatted(text, op, line)
            },
            (Some(request), _) => Signal::Need(request),
            (None, _) => {
                self.ip = self.ip + 1;
                self.execute(op, line)
            },
        }
    }

    /// Runs instructions until the host is needed, the run halts, or a jump
    /// does not move forward. See `Machine::run`.
    pub fn run(&mut self, reply: Option<Reply>) -> (signal: Signal)
        ensures
            final(self)@ == old(self)@.run(answer_of(reply)).0,
            signal@ == old(self)@.run(answer_of(reply)).1,
    {
        let ghost start = self@;
        let mut before = self.ip;
        proof {
            lemma_step_keeps_chunk(self@, answer_of(reply));
        }
        let mut signal = self.step(reply);
        loop
            invariant
                start == old(self)@,
                start.run(answer_of(reply)) == (if signal@ is Continue && self.ip > before {
                    self@.run(None)
                } else {
                    (self@, signal@)
                }),
            decreases
                    (if signal@ is Continue && self.ip > before {
                        self@.remaining() + 1
                    } else {
                        0
                    }),
        {
            let moved = self.ip > before;
            match signal {
                Signal::Continue => {
                    if !moved {
                        return Signal::Continue;
                    }
                },
                _ => {
                    return signal;
                },
            }
            proof {
                lemma_step_keeps_chunk(self@, None);
            }
            before = self.ip;
            signal = self.step(None);
        }
    }
}

/// No instruction changes the chunk that it belongs to.
pub proof fn lemma_step_keeps_chunk(machine: Machine, reply: Option<Answer>)
    ensures
        machine.step(reply).0.chunk == machine.chunk,
{
}

/// Freeing an object that nothing refers to leaves every handle live.
proof fn lemma_release_keeps_handles(machine: Machine, id: usize)
    requires
        machine.handles_resolve(),
    ensures
        machine.release(id).handles_resolve(),
{
    let after = machine.release(id);
    if !machine.references(id) {
        assert forall|i: int| 0 <= i < after.stack.len() implies (
        #[trigger] after.stack[i] matches Value::Obj(h) ==> after.heap.resolves(h)) by {
            if after.stack[i] == Value::Obj(id) {
                assert(machine.stack.contains(Value::Obj(id)));
            }
        }
        assert forall|i: int| 0 <= i < after.chunk.constants.len() implies (
        #[trigger] after.chunk.constants[i] matches Value::Obj(h) ==> after.heap.resolves(h)) by {
            if after.chunk.constants[i] == Value::Obj(id) {
                assert(machine.chunk.constants.contains(Value::Obj(id)));
            }
        }
    }
}

proof fn lemma_join_keeps_handles(
    machine: Machine,
    text: Seq<char>,
    first: usize,
    second: usize,
    op: Op,
    line: Line,
)
    requires
        machine.handles_resolve(),
        machine.stack.len() >= 2,
    ensures
        machine.join(text, first, second, op, line).0.handles_resolve(),
{
    let popped = machine.drop(2);
    if popped.heap.next_id != usize::MAX {
        let stored = Machine {
            heap: popped.heap.allocate(Object::Text(text)),
            stack: popped.stack.push(Value::Obj(popped.heap.next_id)),
            ..popped
        };
        assert(stored.handles_resolve());
        lemma_release_keeps_handles(stored, first);
        lemma_release_keeps_handles(stored.release(first), second);
    }
}

/// An instruction that needs nothing from the host keeps every handle live.
#[verifier::rlimit(50)]
#[verifier::spinoff_prover]
proof fn lemma_execute_keeps_handles(machine: Machine, op: Op, line: Line)
    requires
        machine.handles_resolve(),
    ensures
        machine.execute(op, line).0.handles_resolve(),
{
    match op {
        Op::Add => {
            if machine.stack.len() >= 2 {
                match (machine.top(1), machine.top(0)) {
                    (Value::Obj(a), Value::Obj(b)) => {
                        lemma_join_keeps_handles(
                            machine,
                            machine.heap.entries[a].data.label()
                                + machine.heap.entries[b].data.label(),
                            a,
                            b,
                            op,
                            line,
                        );
                    },
                    _ => {},
                }
            }
        },
        Op::Constant(_) => {},
        Op::Nil => {},
        Op::True => {},
        Op::False => {},
        Op::Pop => {},
        Op::GetLocal(_) => {},
        Op::SetLocal(_) => {},
        Op::GetGlobal(_) => {},
        Op::DefineGlobal(_) => {},
        Op::SetGlobal(_) => {},
        Op::Equal => {},
        Op::Greater => {},
        Op::Less => {},
        Op::Subtract => {},
        Op::Multiply => {},
        Op::Divide => {},
        Op::Not => {},
        Op::Negate => {},
        Op::Print => {},
        Op::JumpIfFalse(_) => {},
        Op::Jump(_) => {},
        Op::Loop(_) => {},
        Op::Return => {},
    }
}

/// Heap integrity: when every handle on the stack, in the constant pool and in
/// the globals is live before an instruction, every such handle is live after
/// it.
pub proof fn lemma_step_keeps_handles(machine: Machine, reply: Option<Answer>)
    requires
        machine.handles_resolve(),
    ensures
        machine.step(reply).0.handles_resolve(),
{
    if machine.ip < machine.chunk.code.len() {
        let (op, line) = machine.chunk.code[machine.ip as int];
        let next = machine.jump_to((machine.ip + 1) as usize);
        assert(next.handles_resolve());
        match (machine.needs(), reply) {
            (Some(Request::Calculate(_, _, _)), Some(Answer::Number(result))) => {},
            (Some(Request::Format(_)), Some(Answer::Text(text))) => {
                if !(op is Print) {
                    match (next.top(1), next.top(0)) {
                        (Value::Number(_), Value::Obj(id)) => {
                            lemma_join_keeps_handles(
                                next,
                                text + next.heap.entries[id].data.label(),
                                id,
                                id,
                                op,
                                line,
                            );
                        },
                        (Value::Obj(id), _) => {
                            lemma_join_keeps_handles(
                                next,
                                next.heap.entries[id].data.label() + text,
                                id,
                                id,
                                op,
                                line,
                            );
                        },
                        _ => {},
                    }
                }
            },
            (Some(request), _) => {},
            (None, _) => {
                lemma_execute_keeps_handles(next, op, line);
            },
        }
    }
}

/// Heap integrity over a run: see `lemma_step_keeps_handles`.
pub proof fn lemma_run_keeps_handles(machine: Machine, reply: Option<Answer>)
    requires
        machine.handles_resolve(),
    ensures
        machine.run(reply).0.handles_resolve(),
    decreases machine.remaining(),
{
    lemma_step_keeps_handles(machine, reply);
    let (next, event) = machine.step(reply);
    if event is Continue && next.ip > machine.ip && next.chunk == machine.chunk {
        lemma_run_keeps_handles(next, None);
    }
}

/// In a chunk whose jumps are in range, an instruction pointer that stands in
/// the code or just behind it stays there: every jump lands within
/// `0..=code.len()`.
pub proof fn lemma_step_lands_in_code(machine: Machine, reply: Option<Answer>)
    requires
        machine.chunk.jumps_in_range(),
        machine.ip <= machine.chunk.code.len(),
    ensures
        machine.step(reply).0.ip <= machine.chunk.code.len(),
        machine.step(reply).0.chunk == machine.chunk,
{
}

/// The same over a run.
pub proof fn lemma_run_lands_in_code(machine: Machine, reply: Option<Answer>)
    requires
        machine.chunk.jumps_in_range(),
        machine.ip <= machine.chunk.code.len(),
    ensures
        machine.run(reply).0.ip <= machine.chunk.code.len(),
        machine.run(reply).0.chunk == machine.chunk,
    decreases machine.remaining(),
{
    lemma_step_lands_in_code(machine, reply);
    let (next, event) = machine.step(reply);
    if event is Continue && next.ip > machine.ip && next.chunk == machine.chunk {
        lemma_run_lands_in_code(next, None);
    }
}

/// Double negation: two `Not` instructions in a row leave a boolean on top of
/// the stack as it was, and the rest of the machine too but for the
/// instruction pointer.
pub proof fn lemma_double_negation(machine: Machine, b: bool)
    requires
        machine.chunk.code.len() <= usize::MAX,
        machine.ip + 1 < machine.chunk.code.len(),
        machine.chunk.code[machine.ip as int].0 == Op::Not,
        machine.chunk.code[machine.ip + 1].0 == Op::Not,
        machine.stack.len() > 0,
        machine.top(0) == Value::Bool(b),
    ensures
        machine.step(None).1 is Continue,
        machine.step(None).0.top(0) == Value::Bool(!b),
        machine.step(None).0.step(None).1 is Continue,
        machine.step(None).0.step(None).0 == machine.jump_to((machine.ip + 2) as usize),
{
    let once = machine.step(None).0;
    assert(machine.needs() is None);
    assert(once == machine.jump_to((machine.ip + 1) as usize).drop(1).push(Value::Bool(!b)));
    assert(once.needs() is None);
    assert(once.top(0) == Value::Bool(!b));
    let twice = once.step(None).0;
    assert(twice == once.jump_to((machine.ip + 2) as usize).drop(1).push(Value::Bool(b)));
    assert(twice.stack =~= machine.stack);
}

/// Leaving a scope: `count` `Pop` instructions in a row take exactly the top
/// `count` values off the stack, when it holds that many.
pub proof fn lemma_pops_shrink_stack(machine: Machine, count: nat)
    requires
        machine.chunk.code.len() <= usize::MAX,
        machine.ip + count <= machine.chunk.code.len(),
        forall|i: int|
            machine.ip <= i < machine.ip + count ==> (#[trigger] machine.chunk.code[i]).0
                == Op::Pop,
        count <= machine.stack.len(),
    ensures
        steps(machine, count) == (Machine {
            ip: (machine.ip + count) as usize,
            ..machine.drop(count as int)
        }),
    decreases count,
{
    if count == 0 {
        assert(machine.drop(0).stack =~= machine.stack);
    } else {
        let next = machine.step(None).0;
        assert(machine.chunk.code[machine.ip as int].0 == Op::Pop);
        assert(machine.needs() is None);
        assert(next == machine.jump_to((machine.ip + 1) as usize).drop(1));
        assert forall|i: int| next.ip <= i < next.ip + (count - 1) implies (
        #[trigger] next.chunk.code[i]).0 == Op::Pop by {
            assert(machine.chunk.code[i].0 == Op::Pop);
        }
        lemma_pops_shrink_stack(next, (count - 1) as nat);
        assert(next.drop(count - 1).stack =~= machine.drop(count as int).stack);
    }
}

/// The machine after `count` instructions, none of which is given an answer.
pub open spec fn steps(machine: Machine, count: nat) -> Machine
    decreases count,
{
    if count == 0 {
        machine
    } else {
        steps(machine.step(None).0, (count - 1) as nat)
    }
}

/// No instruction makes the heap issue a handle twice.
pub proof fn lemma_step_keeps_heap(machine: Machine, reply: Option<Answer>)
    requires
        machine.heap.well_formed(),
    ensures
        machine.step(reply).0.heap.well_formed(),
{
}

/// The same over a run.
pub proof fn lemma_run_keeps_heap(machine: Machine, reply: Option<Answer>)
    requires
        machine.heap.well_formed(),
    ensures
        machine.run(reply).0.heap.well_formed(),
    decreases machine.remaining(),
{
    lemma_step_keeps_heap(machine, reply);
    let (next, event) = machine.step(reply);
    if event is Continue && next.ip > machine.ip && next.chunk == machine.chunk {
        lemma_run_keeps_heap(next, None);
    }
}

/// Whether the event is the end of a run by a runtime error.
pub open spec fn failed(event: Event) -> bool {
    event matches Event::Halt(result, _) && result == InterpretResult::RuntimeError
}

/// Whether the reply gives what the request asks for; no request asks for
/// nothing.
pub open spec fn answers(request: Option<Request>, reply: Option<Answer>) -> bool {
    match (request, reply) {
        (Some(Request::Calculate(_, _, _)), Some(Answer::Number(_))) => true,
        (Some(Request::Format(_)), Some(Answer::Text(_))) => true,
        (Some(_), _) => false,
        (None, _) => true,
    }
}

/// Given the host's answer where one is needed, an instruction ends the run
/// with a runtime error exactly when it does not find what it needs: a
/// program whose every instruction is well typed where it runs never fails.
/// Without the answer the machine asks for it and stays as it is.
pub proof fn lemma_runtime_error_means_ill_typed(machine: Machine, reply: Option<Answer>)
    requires
        machine.chunk.code.len() <= usize::MAX,
    ensures
        answers(machine.needs(), reply) ==> (failed(machine.step(reply).1)
            <==> !machine.well_typed()),
        !answers(machine.needs(), reply) ==> machine.step(reply) == (
            machine,
            Event::Need(machine.needs()->0),
        ),
        !(machine.step(reply).1 matches Event::Halt(result, _) && result
            == InterpretResult::CompileError),
{
}

/// In code without jumps every instruction that lets the machine continue
/// moves the instruction pointer forward.
pub proof fn lemma_straight_step_moves_forward(machine: Machine, reply: Option<Answer>)
    requires
        machine.chunk.straight(),
        machine.chunk.code.len() <= usize::MAX,
    ensures
        machine.step(reply).1 is Continue ==> machine.step(reply).0.ip == machine.ip + 1,
{
    if machine.ip < machine.chunk.code.len() {
        assert(!machine.chunk.code[machine.ip as int].0.is_jump());
    }
}

/// A run of code without jumps pauses only where the host is needed, a line
/// is written, or the run halts.
pub proof fn lemma_straight_run_goes_on(machine: Machine, reply: Option<Answer>)
    requires
        machine.chunk.straight(),
        machine.chunk.code.len() <= usize::MAX,
    ensures
        !(machine.run(reply).1 is Continue),
    decreases machine.remaining(),
{
    lemma_straight_step_moves_forward(machine, reply);
    lemma_step_keeps_chunk(machine, reply);
    let (next, event) = machine.step(reply);
    if event is Continue {
        lemma_straight_run_goes_on(next, None);
    }
}

} // verus!
