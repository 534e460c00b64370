//! What the compiler does, as functions on values.
//!
//! The compiler parses and emits in one pass. Its state has four parts: the
//! parser, the scanner's cursor, the chunk and the heap. A step is stated on
//! the parts that it touches (`ParserView`, `Reading`, `Emitting`, `Writing`)
//! and lifted to the whole (`Parsing`) under the same name.
//!
//! Parsing goes on from where a part of the source ended. Where a definition
//! does so in a loop, it first compares what is left to parse. The comparison
//! makes the definition well-founded; it always holds, as `progress` proves,
//! where the loops are stated without it.

use vstd::prelude::*;
use crate::chunk::{ChunkView, Line, Op};
use crate::object::{HeapView, Object};
use crate::scanner::{
    lemma_scan_moves_forward,
    lexeme,
    number_lexemes,
    scan,
    Cursor,
    Token,
    TokenType,
};
use crate::text::{decimal, slice};
use crate::value::Value;

verus! {

/// How tightly an operator binds, from loosest to tightest.
#[derive(Clone, Copy, Debug, PartialEq, Eq, Structural)]
pub enum Precedence {
    Lowest,
    Assignment,
    Or,
    And,
    Equality,
    Comparison,
    Term,
    Factor,
    Unary,
    Call,
    Primary,
}

impl Precedence {
    /// The place of the level in the order.
    pub open spec fn rank(self) -> nat {
        match self {
            Precedence::Lowest => 0,
            Precedence::Assignment => 1,
            Precedence::Or => 2,
            Precedence::And => 3,
            Precedence::Equality => 4,
            Precedence::Comparison => 5,
            Precedence::Term => 6,
            Precedence::Factor => 7,
            Precedence::Unary => 8,
            Precedence::Call => 9,
            Precedence::Primary => 10,
        }
    }

    /// The next tighter level; the tightest stays.
    pub open spec fn next(self) -> Precedence {
        match self {
            Precedence::Lowest => Precedence::Assignment,
            Precedence::Assignment => Precedence::Or,
            Precedence::Or => Precedence::And,
            Precedence::And => Precedence::Equality,
            Precedence::Equality => Precedence::Comparison,
            Precedence::Comparison => Precedence::Term,
            Precedence::Term => Precedence::Factor,
            Precedence::Factor => Precedence::Unary,
            Precedence::Unary => Precedence::Call,
            Precedence::Call => Precedence::Primary,
            Precedence::Primary => Precedence::Primary,
        }
    }
}

/// The parse functions that a rule can name.
#[derive(Clone, Copy, Debug, PartialEq, Eq, Structural)]
pub enum ParseFn {
    Grouping,
    Unary,
    Binary,
    Variable,
    String,
    Number,
    Literal,
}

/// What a kind of token does at the start of an expression, what it does
/// between two operands, and how tightly it binds them.
#[derive(Clone, Copy, Debug, PartialEq, Eq, Structural)]
pub struct ParseRule {
    pub prefix: Option<ParseFn>,
    pub infix: Option<ParseFn>,
    pub precedence: Precedence,
}

/// The table of parse rules.
pub open spec fn rule(kind: TokenType) -> ParseRule {
    match kind {
        TokenType::LeftParen => ParseRule {
            prefix: Some(ParseFn::Grouping),
            infix: None,
            precedence: Precedence::Lowest,
        },
        TokenType::Minus => ParseRule {
            prefix: Some(ParseFn::Unary),
            infix: Some(ParseFn::Binary),
            precedence: Precedence::Term,
        },
        TokenType::Plus => ParseRule {
            prefix: None,
            infix: Some(ParseFn::Binary),
            precedence: Precedence::Term,
        },
        TokenType::Slash | TokenType::Star => ParseRule {
            prefix: None,
            infix: Some(ParseFn::Binary),
            precedence: Precedence::Factor,
        },
        TokenType::Bang => ParseRule {
            prefix: Some(ParseFn::Unary),
            infix: None,
            precedence: Precedence::Lowest,
        },
        TokenType::BangEqual | TokenType::EqualEqual => ParseRule {
            prefix: None,
            infix: Some(ParseFn::Binary),
            precedence: Precedence::Equality,
        },
        TokenType::Greater | TokenType::GreaterEqual | TokenType::Less | TokenType::LessEqual => ParseRule {
            prefix: None,
            infix: Some(ParseFn::Binary),
            precedence: Precedence::Comparison,
        },
        TokenType::Identifier => ParseRule {
            prefix: Some(ParseFn::Variable),
            infix: None,
            precedence: Precedence::Lowest,
        },
        TokenType::String => ParseRule {
            prefix: Some(ParseFn::String),
            infix: None,
            precedence: Precedence::Lowest,
        },
        TokenType::Number => ParseRule {
            prefix: Some(ParseFn::Number),
            infix: None,
            precedence: Precedence::Lowest,
        },
        TokenType::False | TokenType::True | TokenType::Nil => ParseRule {
            prefix: Some(ParseFn::Literal),
            infix: None,
            precedence: Precedence::Lowest,
        },
        _ => ParseRule { prefix: None, infix: None, precedence: Precedence::Lowest },
    }
}

/// The instructions that a binary operator compiles to, behind its operands.
pub open spec fn binary_code(operator: TokenType) -> Seq<Op> {
    match operator {
        TokenType::BangEqual => seq![Op::Equal, Op::Not],
        TokenType::EqualEqual => seq![Op::Equal],
        TokenType::Greater => seq![Op::Greater],
        TokenType::GreaterEqual => seq![Op::Less, Op::Not],
        TokenType::Less => seq![Op::Less],
        TokenType::LessEqual => seq![Op::Greater, Op::Not],
        TokenType::Plus => seq![Op::Add],
        TokenType::Minus => seq![Op::Subtract],
        TokenType::Star => seq![Op::Multiply],
        TokenType::Slash => seq![Op::Divide],
        _ => seq![],
    }
}

/// Whether a statement can start with a token of this kind, so that the
/// parser can resume in front of it after an error.
pub open spec fn starts_statement(kind: TokenType) -> bool {
    kind == TokenType::Class || kind == TokenType::Fun || kind == TokenType::Var || kind
        == TokenType::For || kind == TokenType::If || kind == TokenType::While || kind
        == TokenType::Print || kind == TokenType::Return
}

/// A local variable at compile time: the token that names it and the depth of
/// its scope, or -1 while its initializer is compiled. Its index among the
/// locals is its slot on the stack.
#[derive(Clone, Copy, Debug, PartialEq, Eq, Structural)]
pub struct Local {
    pub token: Token,
    pub depth: isize,
}

/// A compile error: the token it was found at and the message.
pub struct Report {
    pub token: Token,
    pub message: Seq<char>,
}

impl Report {
    /// The line that the compiler writes for the error.
    pub open spec fn text(self, src: Seq<char>) -> Seq<char> {
        let place = if self.token.token_type == TokenType::EOF {
            " at end"@
        } else if self.token.token_type == TokenType::Error {
            Seq::empty()
        } else {
            " at '"@ + lexeme(src, self.token) + "'"@
        };
        "[line "@ + decimal(self.token.line as nat) + "] Error"@ + place + ": "@ + self.message
    }
}

/// All the error lines, each closed by a line end.
pub open spec fn report_lines(src: Seq<char>, reports: Seq<Report>) -> Seq<char>
    decreases reports.len(),
{
    if reports.len() == 0 {
        Seq::empty()
    } else {
        report_lines(src, reports.drop_last()) + reports.last().text(src) + "\n"@
    }
}

/// What the parser holds.
pub struct ParserView {
    pub current: Token,
    pub previous: Token,
    /// The values of `current` and `previous` where they are number literals
    /// whose value the parser was given.
    pub current_number: Option<u64>,
    pub previous_number: Option<u64>,
    /// The values of the number literals of the source, in its order.
    pub numbers: Seq<u64>,
    /// How many of them the scanned tokens have taken.
    pub taken: nat,
    pub had_error: bool,
    pub panic_mode: bool,
    pub diagnostics: Seq<Report>,
    pub locals: Seq<Local>,
    pub scope_depth: isize,
}

impl ParserView {
    /// Whether the locals and the depth of the scope are the same.
    pub open spec fn same_scope(self, after: ParserView) -> bool {
        after.locals == self.locals && after.scope_depth == self.scope_depth
    }

    /// Records an error at `token` and enters panic mode.
    pub open spec fn error_at(self, token: Token, message: Seq<char>) -> ParserView {
        ParserView {
            panic_mode: true,
            had_error: true,
            diagnostics: self.diagnostics.push(Report { token, message }),
            ..self
        }
    }

    /// Records an error at the current token.
    pub open spec fn error_at_current(self, message: Seq<char>) -> ParserView {
        self.error_at(self.current, message)
    }

    /// Records an error at the previous token.
    pub open spec fn error_at_previous(self, message: Seq<char>) -> ParserView {
        self.error_at(self.previous, message)
    }

    /// A new local that is not yet initialized.
    pub open spec fn add_local(self, token: Token) -> ParserView {
        ParserView { locals: self.locals.push(Local { token, depth: -1isize }), ..self }
    }

    /// One scope deeper; the depth stops at the largest number.
    pub open spec fn begin_scope(self) -> ParserView {
        ParserView {
            scope_depth: if self.scope_depth < isize::MAX {
                (self.scope_depth + 1) as isize
            } else {
                self.scope_depth
            },
            ..self
        }
    }

    /// Gives the newest local the current depth, inside a scope.
    pub open spec fn mark_initialized(self) -> ParserView {
        if self.scope_depth == 0 || self.locals.len() == 0 {
            self
        } else {
            ParserView {
                locals: self.locals.update(
                    self.locals.len() - 1,
                    Local { token: self.locals.last().token, depth: self.scope_depth },
                ),
                ..self
            }
        }
    }

    /// Goes down the first `count` locals from the newest of them, as long as
    /// they belong to the current scope, and records an error for each that
    /// has the name of the previous token.
    pub open spec fn collisions(self, src: Seq<char>, count: nat) -> ParserView
        decreases count,
    {
        if count == 0 || count > self.locals.len() || self.locals[count - 1].depth
            != self.scope_depth {
            self
        } else if lexeme(src, self.previous) == lexeme(src, self.locals[count - 1].token) {
            self.error_at_current(
                "Variable with this name already declared in this scope."@,
            ).collisions(src, (count - 1) as nat)
        } else {
            self.collisions(src, (count - 1) as nat)
        }
    }

    /// Declares the previous token as a local of the current scope. At global
    /// scope nothing is declared.
    pub open spec fn declare_variable(self, src: Seq<char>) -> ParserView {
        if self.scope_depth == 0 {
            self
        } else {
            self.collisions(src, self.locals.len()).add_local(self.previous)
        }
    }

    /// The newest of the first `count` locals that has the name of the previous
    /// token.
    pub open spec fn find_local(self, src: Seq<char>, count: nat) -> Option<nat>
        decreases count,
    {
        if count == 0 || count > self.locals.len() {
            None
        } else if lexeme(src, self.previous) == lexeme(src, self.locals[count - 1].token) {
            Some((count - 1) as nat)
        } else {
            self.find_local(src, (count - 1) as nat)
        }
    }

    /// The slot of the local that the previous token names, or -1. Reading a
    /// local inside its own initializer is an error.
    pub open spec fn resolve_local(self, src: Seq<char>) -> (ParserView, isize) {
        match self.find_local(src, self.locals.len()) {
            Some(slot) => (
                if self.locals[slot as int].depth == -1 {
                    self.error_at_current("Cannot read local variable in its own initializer."@)
                } else {
                    self
                },
                slot as isize,
            ),
            None => (self, -1isize),
        }
    }
}

/// What reading tokens touches: the parser and the scanner's cursor.
pub struct Reading {
    pub parser: ParserView,
    pub cursor: Cursor,
}

impl Reading {
    pub open spec fn with(self, parser: ParserView) -> Reading {
        Reading { parser, ..self }
    }

    /// How much is left to parse: the characters behind the cursor, and the
    /// current token unless it is the end.
    pub open spec fn measure(self, src: Seq<char>) -> nat {
        let ahead: nat = if self.cursor.current <= src.len() {
            (src.len() - self.cursor.current) as nat
        } else {
            0
        };
        if self.parser.current.token_type == TokenType::EOF {
            ahead
        } else {
            ahead + 1
        }
    }

    /// Scans until a token is no error token, and makes it the current one.
    /// Each error token is recorded as an error. A number literal takes the
    /// next of the values that the parser was given.
    pub open spec fn next_token(self, src: Seq<char>) -> Reading
        decreases src.len() - self.cursor.current,
    {
        let (token, cursor) = scan(src, self.cursor);
        let takes = token.token_type == TokenType::Number && self.parser.taken
            < self.parser.numbers.len();
        let scanned = Reading {
            cursor,
            parser: ParserView {
                current: token,
                current_number: if takes {
                    Some(self.parser.numbers[self.parser.taken as int])
                } else {
                    None
                },
                taken: if takes {
                    self.parser.taken + 1
                } else {
                    self.parser.taken
                },
                ..self.parser
            },
        };
        if token.token_type == TokenType::Error {
            proof {
                lemma_scan_moves_forward(src, self.cursor);
            }
            scanned.with(
                scanned.parser.error_at_current(decimal(token.start as nat)),
            ).next_token(src)
        } else {
            scanned
        }
    }

    /// Makes the current token the previous one and scans the next.
    pub open spec fn advance(self, src: Seq<char>) -> Reading {
        self.with(
            ParserView {
                previous: self.parser.current,
                previous_number: self.parser.current_number,
                ..self.parser
            },
        ).next_token(src)
    }

    /// Takes the current token if it is of the given kind; else records the
    /// error.
    pub open spec fn consume(self, src: Seq<char>, kind: TokenType, message: Seq<char>) -> Reading {
        if self.parser.current.token_type == kind {
            self.advance(src)
        } else {
            self.with(self.parser.error_at_current(message))
        }
    }

    /// Takes the current token if it is of the given kind.
    pub open spec fn match_token(self, src: Seq<char>, kind: TokenType) -> Reading {
        if self.parser.current.token_type == kind {
            self.advance(src)
        } else {
            self
        }
    }

    /// Skips tokens up to the start of the next statement.
    pub open spec fn skip_to_statement(self, src: Seq<char>) -> Reading
        decreases self.measure(src),
    {
        if self.parser.current.token_type == TokenType::EOF || self.parser.previous.token_type
            == TokenType::Semicolon || starts_statement(self.parser.current.token_type) {
            self
        } else {
            proof {
                lemma_advance(src, self);
            }
            self.advance(src).skip_to_statement(src)
        }
    }

    /// Leaves panic mode and skips to the start of the next statement.
    pub open spec fn synchronize(self, src: Seq<char>) -> Reading {
        self.with(ParserView { panic_mode: false, ..self.parser }).skip_to_statement(src)
    }
}

/// What emitting instructions touches: the parser and the chunk.
pub struct Emitting {
    pub parser: ParserView,
    pub chunk: ChunkView,
}

impl Emitting {
    pub open spec fn with(self, parser: ParserView) -> Emitting {
        Emitting { parser, ..self }
    }

    /// Appends the instruction with the given line.
    pub open spec fn emit_byte(self, op: Op, line: Line) -> Emitting {
        Emitting { chunk: ChunkView { code: self.chunk.code.push((op, line)), ..self.chunk }, ..self }
    }

    /// Appends the instruction with the line of the previous token.
    pub open spec fn emit(self, op: Op) -> Emitting {
        self.emit_byte(op, Line { value: self.parser.previous.line })
    }

    /// Appends the instructions, each with the line of the previous token.
    pub open spec fn emit_all(self, ops: Seq<Op>) -> Emitting
        decreases ops.len(),
    {
        if ops.len() == 0 {
            self
        } else {
            self.emit_all(ops.drop_last()).emit(ops.last())
        }
    }

    /// Appends the value to the constant pool.
    pub open spec fn add_constant(self, value: Value) -> Emitting {
        Emitting {
            chunk: ChunkView { constants: self.chunk.constants.push(value), ..self.chunk },
            ..self
        }
    }

    /// Adds a number or an object to the constant pool and appends the
    /// instruction that loads it. A pool of more than 256 constants is an error.
    pub open spec fn emit_constant(self, value: Value, line: Line) -> Emitting {
        if value is Number || value is Obj {
            let index = self.chunk.constants.len() as usize;
            let added = self.add_constant(value);
            let checked = if index > 255 {
                added.with(added.parser.error_at_previous("Too many constants in one chunk."@))
            } else {
                added
            };
            checked.emit_byte(Op::Constant(index), line)
        } else {
            self
        }
    }

    /// Takes locals off, newest first, as long as they lie deeper than the
    /// current scope, and appends a `Pop` for each.
    pub open spec fn pop_locals(self) -> Emitting
        decreases self.parser.locals.len(),
    {
        if self.parser.locals.len() > 0 && self.parser.locals.last().depth
            > self.parser.scope_depth {
            self.with(
                ParserView { locals: self.parser.locals.drop_last(), ..self.parser },
            ).emit(Op::Pop).pop_locals()
        } else {
            self
        }
    }

    /// Leaves a scope: its locals are taken off the stack and forgotten.
    pub open spec fn end_scope(self) -> Emitting {
        self.with(
            ParserView {
                scope_depth: if self.parser.scope_depth > isize::MIN {
                    (self.parser.scope_depth - 1) as isize
                } else {
                    self.parser.scope_depth
                },
                ..self.parser
            },
        ).pop_locals()
    }

    /// Defines the variable that was just declared: a local becomes
    /// initialized, a global gets its defining instruction.
    pub open spec fn define_variable(self, global: usize) -> Emitting {
        if self.parser.scope_depth > 0 {
            self.with(self.parser.mark_initialized())
        } else {
            self.emit(Op::DefineGlobal(global))
        }
    }

    /// The instruction that reads or assigns a variable: the local in the
    /// given slot, or, where the slot is -1, the global whose name is the
    /// constant `global`.
    pub open spec fn access(self, local: isize, global: usize, assign: bool) -> Emitting {
        if assign {
            if local != -1 {
                self.emit(Op::SetLocal(local as usize))
            } else {
                self.emit(Op::SetGlobal(global))
            }
        } else {
            if local != -1 {
                self.emit(Op::GetLocal(local as usize))
            } else {
                self.emit(Op::GetGlobal(global))
            }
        }
    }

    /// The instruction of the literal that is the previous token.
    pub open spec fn literal(self) -> Emitting {
        match self.parser.previous.token_type {
            TokenType::False => self.emit(Op::False),
            TokenType::Nil => self.emit(Op::Nil),
            TokenType::True => self.emit(Op::True),
            _ => self,
        }
    }

    /// A number literal: its value becomes a constant.
    pub open spec fn number(self) -> Emitting {
        match self.parser.previous_number {
            Some(bits) => self.emit_constant(
                Value::Number(bits),
                Line { value: self.parser.previous.line },
            ),
            None => self.with(self.parser.error_at_previous("Number literal without a value."@)),
        }
    }
}

/// What making constants of strings touches: the parser, the chunk and the
/// heap.
pub struct Writing {
    pub parser: ParserView,
    pub chunk: ChunkView,
    pub heap: HeapView,
}

impl Writing {
    pub open spec fn with(self, parser: ParserView) -> Writing {
        Writing { parser, ..self }
    }

    /// The part that emitting instructions touches.
    pub open spec fn emitting(self) -> Emitting {
        Emitting { parser: self.parser, chunk: self.chunk }
    }

    pub open spec fn emitted(self, emitting: Emitting) -> Writing {
        Writing { parser: emitting.parser, chunk: emitting.chunk, ..self }
    }

    /// Stores a string of the given text on the heap and adds its handle to
    /// the constant pool. Where the heap has no handle left, that is an error,
    /// and `Nil` takes the handle's place in the pool.
    pub open spec fn intern_constant(self, text: Seq<char>) -> Writing {
        if self.heap.next_id == usize::MAX {
            self.emitted(
                self.emitting().with(self.parser.error_at_previous("Too many objects."@)).add_constant(
                    Value::Nil,
                ),
            )
        } else {
            Writing { heap: self.heap.allocate(Object::Text(text)), ..self }.emitted(
                self.emitting().add_constant(Value::Obj(self.heap.next_id)),
            )
        }
    }

    /// Makes the name of the previous token a constant. Its index is the
    /// length that the pool had.
    pub open spec fn identifier_constant(self, src: Seq<char>) -> Writing {
        self.intern_constant(lexeme(src, self.parser.previous))
    }

    /// A string literal: the text between its quotes becomes a string on the
    /// heap and a constant.
    pub open spec fn string(self, src: Seq<char>) -> Writing {
        let token = self.parser.previous;
        let text = slice(src, token.start + 1, token.start + token.length - 1);
        if self.heap.next_id == usize::MAX {
            self.with(self.parser.error_at_previous("Too many objects."@))
        } else {
            Writing { heap: self.heap.allocate(Object::Text(text)), ..self }.emitted(
                self.emitting().emit_constant(
                    Value::Obj(self.heap.next_id),
                    Line { value: token.line },
                ),
            )
        }
    }
}

/// Everything that compiling reads and writes: the parser, the scanner's
/// cursor, the chunk that is written and the heap that takes the strings.
pub struct Parsing {
    pub parser: ParserView,
    pub cursor: Cursor,
    pub chunk: ChunkView,
    pub heap: HeapView,
}

impl Parsing {
    pub open spec fn with(self, parser: ParserView) -> Parsing {
        Parsing { parser, ..self }
    }

    /// The part that reading tokens touches.
    pub open spec fn reading(self) -> Reading {
        Reading { parser: self.parser, cursor: self.cursor }
    }

    pub open spec fn read(self, reading: Reading) -> Parsing {
        Parsing { parser: reading.parser, cursor: reading.cursor, ..self }
    }

    /// How much is left to parse.
    pub open spec fn measure(self, src: Seq<char>) -> nat {
        self.reading().measure(src)
    }

    // The steps of the parts, as steps of the whole.

    pub open spec fn advance(self, src: Seq<char>) -> Parsing {
        self.read(self.reading().advance(src))
    }

    pub open spec fn consume(self, src: Seq<char>, kind: TokenType, message: Seq<char>) -> Parsing {
        self.read(self.reading().consume(src, kind, message))
    }

    pub open spec fn match_token(self, src: Seq<char>, kind: TokenType) -> Parsing {
        self.read(self.reading().match_token(src, kind))
    }

    pub open spec fn synchronize(self, src: Seq<char>) -> Parsing {
        self.read(self.reading().synchronize(src))
    }

    /// The part that writing code touches.
    pub open spec fn writing(self) -> Writing {
        Writing { parser: self.parser, chunk: self.chunk, heap: self.heap }
    }

    pub open spec fn write(self, writing: Writing) -> Parsing {
        Parsing { parser: writing.parser, chunk: writing.chunk, heap: writing.heap, ..self }
    }

    /// The part that emitting instructions touches.
    pub open spec fn emitting(self) -> Emitting {
        Emitting { parser: self.parser, chunk: self.chunk }
    }

    pub open spec fn emitted(self, emitting: Emitting) -> Parsing {
        Parsing { parser: emitting.parser, chunk: emitting.chunk, ..self }
    }

    pub open spec fn emit(self, op: Op) -> Parsing {
        self.emitted(self.emitting().emit(op))
    }

    pub open spec fn emit_all(self, ops: Seq<Op>) -> Parsing {
        self.emitted(self.emitting().emit_all(ops))
    }

    pub open spec fn identifier_constant(self, src: Seq<char>) -> Parsing {
        self.write(self.writing().identifier_constant(src))
    }

    pub open spec fn end_scope(self) -> Parsing {
        self.emitted(self.emitting().end_scope())
    }

    pub open spec fn define_variable(self, global: usize) -> Parsing {
        self.emitted(self.emitting().define_variable(global))
    }

    pub open spec fn literal(self) -> Parsing {
        self.emitted(self.emitting().literal())
    }

    pub open spec fn string(self, src: Seq<char>) -> Parsing {
        self.write(self.writing().string(src))
    }

    pub open spec fn number(self) -> Parsing {
        self.emitted(self.emitting().number())
    }

    /// The name of a variable to declare. The result's second part is the index
    /// of the name in the constant pool for a global, 0 for a local.
    #[verifier::opaque]
    pub open spec fn parse_variable(self, src: Seq<char>) -> (Parsing, usize) {
        let named = self.consume(src, TokenType::Identifier, "Expect variable name."@);
        let declared = named.with(named.parser.declare_variable(src));
        if declared.parser.scope_depth > 0 {
            (declared, 0)
        } else {
            (declared.identifier_constant(src), declared.chunk.constants.len() as usize)
        }
    }

    /// An expression: operators from assignment on.
    #[verifier::opaque]
    pub open spec fn expression(self, src: Seq<char>) -> Parsing
        decreases self.measure(src), 2nat,
    {
        self.parse_precedence(src, Precedence::Assignment)
    }

    /// `(` is taken: an expression and `)`.
    #[verifier::opaque]
    pub open spec fn grouping(self, src: Seq<char>) -> Parsing
        decreases self.measure(src), 3nat,
    {
        self.expression(src).consume(src, TokenType::RightParen, "Expect ')' after expression."@)
    }

    /// The operand of the unary operator that is the previous token, then
    /// the operator.
    #[verifier::opaque]
    pub open spec fn unary(self, src: Seq<char>) -> Parsing
        decreases self.measure(src), 2nat,
    {
        let operator = self.parser.previous.token_type;
        let operand = self.parse_precedence(src, Precedence::Unary);
        match operator {
            TokenType::Bang => operand.emit(Op::Not),
            TokenType::Minus => operand.emit(Op::Negate),
            _ => operand,
        }
    }

    /// The right operand of the binary operator that is the previous token,
    /// which binds one level tighter than the operator, then the operator.
    #[verifier::opaque]
    pub open spec fn binary(self, src: Seq<char>) -> Parsing
        decreases self.measure(src), 2nat,
    {
        let operator = self.parser.previous.token_type;
        self.parse_precedence(src, rule(operator).precedence.next()).emit_all(
            binary_code(operator),
        )
    }

    /// A variable that is read or, where `can_assign` holds and `=` follows,
    /// assigned: a local where the name resolves to one, else a global. The
    /// name becomes a constant in both cases.
    #[verifier::opaque]
    pub open spec fn named_variable(self, src: Seq<char>, can_assign: bool) -> Parsing
        decreases self.measure(src), 3nat,
    {
        let global = self.chunk.constants.len() as usize;
        let named = self.identifier_constant(src);
        let (parser, local) = named.parser.resolve_local(src);
        let resolved = named.with(parser);
        if can_assign && resolved.parser.current.token_type == TokenType::Equal {
            proof {
                lemma_advance(src, resolved.reading());
                assert(resolved.measure(src) == self.measure(src));
            }
            let assigned = resolved.advance(src).expression(src);
            assigned.emitted(assigned.emitting().access(local, global, true))
        } else {
            resolved.emitted(resolved.emitting().access(local, global, false))
        }
    }

    /// The variable that the previous token names.
    #[verifier::opaque]
    pub open spec fn variable(self, src: Seq<char>, can_assign: bool) -> Parsing
        decreases self.measure(src), 4nat,
    {
        self.named_variable(src, can_assign)
    }

    /// The start of an expression, parsed by the given function.
    #[verifier::opaque]
    pub open spec fn prefix(self, src: Seq<char>, kind: ParseFn, can_assign: bool) -> Parsing
        decreases self.measure(src), 5nat,
    {
        match kind {
            ParseFn::Grouping => self.grouping(src),
            ParseFn::Unary => self.unary(src),
            ParseFn::Variable => self.variable(src, can_assign),
            ParseFn::String => self.string(src),
            ParseFn::Number => self.number(),
            ParseFn::Literal => self.literal(),
            ParseFn::Binary => self,
        }
    }

    /// Parses infix operators that bind at least as tightly as `precedence`,
    /// each with its right operand.
    #[verifier::opaque]
    pub open spec fn infix_loop(self, src: Seq<char>, precedence: Precedence) -> Parsing
        decreases self.measure(src), 0nat,
    {
        if precedence.rank() <= rule(self.parser.current.token_type).precedence.rank() {
            proof {
                lemma_advance(src, self.reading());
            }
            let advanced = self.advance(src);
            let parsed = match rule(advanced.parser.previous.token_type).infix {
                Some(ParseFn::Binary) => advanced.binary(src),
                _ => advanced,
            };
            if parsed.measure(src) < self.measure(src) {
                parsed.infix_loop(src, precedence)
            } else {
                parsed
            }
        } else {
            self
        }
    }

    /// Parses an expression whose operators bind at least as tightly as
    /// `precedence`: a token with a prefix rule, then infix operators. Where an
    /// assignment could stand and an `=` is left over, that is an error.
    #[verifier::opaque]
    pub open spec fn parse_precedence(self, src: Seq<char>, precedence: Precedence) -> Parsing
        decreases self.measure(src), 1nat,
    {
        proof {
            lemma_advance(src, self.reading());
        }
        let advanced = self.advance(src);
        let can_assign = precedence.rank() <= Precedence::Assignment.rank();
        let parsed = match rule(advanced.parser.previous.token_type).prefix {
            Some(kind) => advanced.prefix(src, kind, can_assign),
            None => advanced.with(advanced.parser.error_at_previous("Expect expression."@)),
        };
        let operated = if parsed.measure(src) <= self.measure(src) {
            parsed.infix_loop(src, precedence)
        } else {
            parsed
        };
        if can_assign && operated.parser.current.token_type == TokenType::Equal {
            let passed = operated.advance(src);
            passed.with(passed.parser.error_at_previous("Invalid assignment target."@))
        } else {
            operated
        }
    }

    /// `print` is taken: an expression, the semicolon, and `Print`.
    #[verifier::opaque]
    pub open spec fn print_statement(self, src: Seq<char>) -> Parsing {
        self.expression(src).consume(src, TokenType::Semicolon, "Expect ';' after value."@).emit(
            Op::Print,
        )
    }

    /// `var` is taken: the name, an initializer or `Nil` in its place, the
    /// semicolon, and the definition.
    #[verifier::opaque]
    pub open spec fn var_declaration(self, src: Seq<char>) -> Parsing {
        let (named, global) = self.parse_variable(src);
        let valued = if named.parser.current.token_type == TokenType::Equal {
            named.advance(src).expression(src)
        } else {
            named.emit(Op::Nil)
        };
        valued.consume(
            src,
            TokenType::Semicolon,
            "Expect ';' after variable declaration."@,
        ).define_variable(global)
    }

    /// Declarations up to the closing brace.
    #[verifier::opaque]
    pub open spec fn block(self, src: Seq<char>) -> Parsing
        decreases self.measure(src), 2nat,
    {
        if self.parser.current.token_type == TokenType::RightBrace
            || self.parser.current.token_type == TokenType::EOF {
            self.consume(src, TokenType::RightBrace, "Expect '}' after block."@)
        } else {
            let declared = self.declaration(src);
            if declared.measure(src) < self.measure(src) {
                declared.block(src)
            } else {
                declared
            }
        }
    }

    /// A print statement, a block in a scope of its own, or an expression with
    /// its semicolon.
    #[verifier::opaque]
    pub open spec fn statement(self, src: Seq<char>) -> Parsing
        decreases self.measure(src), 0nat,
    {
        if self.parser.current.token_type == TokenType::Print {
            self.advance(src).print_statement(src)
        } else if self.parser.current.token_type == TokenType::LeftBrace {
            proof {
                lemma_advance(src, self.reading());
            }
            let opened = self.advance(src);
            opened.with(opened.parser.begin_scope()).block(src).end_scope()
        } else {
            self.expression(src).consume(
                src,
                TokenType::Semicolon,
                "Expect ';' after expression."@,
            )
        }
    }

    /// A variable declaration or a statement; after an error, the parser skips
    /// to the next statement.
    #[verifier::opaque]
    pub open spec fn declaration(self, src: Seq<char>) -> Parsing
        decreases self.measure(src), 1nat,
    {
        let parsed = if self.parser.current.token_type == TokenType::Var {
            self.advance(src).var_declaration(src)
        } else {
            self.statement(src)
        };
        if parsed.parser.panic_mode {
            parsed.synchronize(src)
        } else {
            parsed
        }
    }

    /// Declarations up to the end of the source.
    #[verifier::opaque]
    pub open spec fn declarations(self, src: Seq<char>) -> Parsing
        decreases self.measure(src),
    {
        if self.parser.current.token_type == TokenType::EOF {
            self.advance(src)
        } else {
            let declared = self.declaration(src);
            if declared.measure(src) < self.measure(src) {
                declared.declarations(src)
            } else {
                declared
            }
        }
    }

    /// Compiles a source from its start: the parser takes the given values for
    /// the number literals, scans the first token and parses declarations up
    /// to the end.
    #[verifier::opaque]
    pub open spec fn compile(self, src: Seq<char>, numbers: Seq<u64>) -> Parsing {
        Parsing {
            parser: ParserView {
                numbers,
                taken: 0,
                current_number: None,
                previous_number: None,
                ..self.parser
            },
            cursor: Cursor { start: 0, current: 0, line: 1 },
            ..self
        }.advance(src).declarations(src)
    }
}

/// What scanning to the next token leaves as it was, and how far it gets.
pub proof fn lemma_next_token(src: Seq<char>, s: Reading)
    ensures
        s.next_token(src).cursor.current >= s.cursor.current,
        s.next_token(src).parser.current.token_type != TokenType::EOF ==> s.next_token(
            src,
        ).cursor.current > s.cursor.current,
        s.cursor.current <= src.len() ==> s.next_token(src).cursor.current <= src.len(),
        s.next_token(src).parser.current.token_type != TokenType::Error,
        s.next_token(src).parser.previous == s.parser.previous,
        s.next_token(src).parser.previous_number == s.parser.previous_number,
        s.next_token(src).parser.locals == s.parser.locals,
        s.next_token(src).parser.scope_depth == s.parser.scope_depth,
        s.next_token(src).parser.numbers == s.parser.numbers,
        s.parser.had_error ==> s.next_token(src).parser.had_error,
    decreases src.len() - s.cursor.current,
{
    lemma_scan_moves_forward(src, s.cursor);
    let (token, cursor) = scan(src, s.cursor);
    let takes = token.token_type == TokenType::Number && s.parser.taken < s.parser.numbers.len();
    let scanned = Reading {
        cursor,
        parser: ParserView {
            current: token,
            current_number: if takes {
                Some(s.parser.numbers[s.parser.taken as int])
            } else {
                None
            },
            taken: if takes {
                s.parser.taken + 1
            } else {
                s.parser.taken
            },
            ..s.parser
        },
    };
    if token.token_type == TokenType::Error {
        lemma_next_token(
            src,
            scanned.with(scanned.parser.error_at_current(decimal(token.start as nat))),
        );
    }
}

/// Taking a token never leaves more to parse, and leaves less unless the
/// current token is the end. It leaves the locals and the scope as they are.
pub proof fn lemma_advance(src: Seq<char>, s: Reading)
    ensures
        s.advance(src).measure(src) <= s.measure(src),
        s.parser.current.token_type != TokenType::EOF ==> s.advance(src).measure(src) < s.measure(
            src,
        ),
        s.advance(src).parser.previous == s.parser.current,
        s.advance(src).parser.current.token_type != TokenType::Error,
        s.advance(src).parser.locals == s.parser.locals,
        s.advance(src).parser.scope_depth == s.parser.scope_depth,
        s.advance(src).parser.numbers == s.parser.numbers,
        s.parser.had_error ==> s.advance(src).parser.had_error,
{
    lemma_next_token(
        src,
        s.with(
            ParserView {
                previous: s.parser.current,
                previous_number: s.parser.current_number,
                ..s.parser
            },
        ),
    );
}

/// Skipping to the next statement leaves no more to parse, and leaves the
/// locals and the scope as they are.
pub proof fn lemma_synchronize(src: Seq<char>, s: Reading)
    ensures
        s.skip_to_statement(src).measure(src) <= s.measure(src),
        s.settled(s.skip_to_statement(src), src),
        s.skip_to_statement(src).parser.locals == s.parser.locals,
        s.skip_to_statement(src).parser.scope_depth == s.parser.scope_depth,
        s.skip_to_statement(src).parser.numbers == s.parser.numbers,
        s.parser.had_error ==> s.skip_to_statement(src).parser.had_error,
    decreases s.measure(src),
{
    if !(s.parser.current.token_type == TokenType::EOF || s.parser.previous.token_type
        == TokenType::Semicolon || starts_statement(s.parser.current.token_type)) {
        lemma_advance(src, s);
        lemma_synchronize(src, s.advance(src));
    }
}

impl Parsing {
    /// The chunk is sound and fits the heap: every constant that an
    /// instruction names exists, every jump lands in the code or just behind
    /// it, and every handle in the constant pool is live.
    pub open spec fn tidy(self) -> bool {
        &&& self.chunk.constants_in_range()
        &&& self.chunk.jumps_in_range()
        &&& handles_live(self.chunk.constants, self.heap)
        &&& self.heap.well_formed()
    }

    /// What every step of compiling keeps: nothing is added to what is left to
    /// parse, what was on a well-formed heap stays there, a sound chunk stays
    /// sound, a chunk without jumps stays without, an error stays recorded,
    /// and the values of the number literals stay.
    pub open spec fn carried(self, after: Parsing, src: Seq<char>) -> bool {
        &&& after.measure(src) <= self.measure(src)
        &&& self.chunk.constants.len() <= after.chunk.constants.len()
        &&& (self.heap.well_formed() ==> after.heap.well_formed() && self.heap.extended_by(
            after.heap,
        ))
        &&& (self.tidy() ==> after.tidy())
        &&& (self.chunk.straight() ==> after.chunk.straight())
        &&& (self.parser.had_error ==> after.parser.had_error)
        &&& after.parser.numbers == self.parser.numbers
    }
}

/// Whether every handle among the values is live on the heap.
pub open spec fn handles_live(values: Seq<Value>, heap: HeapView) -> bool {
    forall|i: int|
        0 <= i < values.len() ==> (#[trigger] values[i] matches Value::Obj(id) ==> heap.resolves(
            id,
        ))
}

impl Reading {
    /// What reading tokens keeps: nothing is added to what is left to parse,
    /// an error stays recorded, and the values of the number literals stay.
    pub open spec fn settled(self, after: Reading, src: Seq<char>) -> bool {
        &&& after.measure(src) <= self.measure(src)
        &&& (self.parser.had_error ==> after.parser.had_error)
        &&& after.parser.numbers == self.parser.numbers
        &&& self.parser.same_scope(after.parser)
    }
}

impl Emitting {
    /// What emitting keeps: the current token, the values of the number
    /// literals, a recorded error, the soundness of the chunk, and that the
    /// handles in its pool are live, given that `added`, if any, is.
    pub open spec fn steady(self, after: Emitting, added: Option<usize>) -> bool {
        &&& after.parser.current == self.parser.current
        &&& after.parser.numbers == self.parser.numbers
        &&& (self.parser.had_error ==> after.parser.had_error)
        &&& self.chunk.constants.len() <= after.chunk.constants.len()
        &&& (self.chunk.constants_in_range() ==> after.chunk.constants_in_range())
        &&& (self.chunk.jumps_in_range() ==> after.chunk.jumps_in_range())
        &&& (self.chunk.straight() ==> after.chunk.straight())
        &&& forall|heap: HeapView|
            handles_live(self.chunk.constants, heap) && (added matches Some(id) ==> heap.resolves(
                id,
            )) ==> #[trigger] handles_live(after.chunk.constants, heap)
    }
}

impl Writing {
    /// The chunk is sound and fits the heap.
    pub open spec fn tidy(self) -> bool {
        &&& self.chunk.constants_in_range()
        &&& self.chunk.jumps_in_range()
        &&& handles_live(self.chunk.constants, self.heap)
        &&& self.heap.well_formed()
    }

    /// What making a constant of a string keeps.
    pub open spec fn kept(self, after: Writing) -> bool {
        &&& after.parser.current == self.parser.current
        &&& after.parser.numbers == self.parser.numbers
        &&& (self.parser.had_error ==> after.parser.had_error)
        &&& self.chunk.constants.len() <= after.chunk.constants.len()
        &&& (self.heap.well_formed() ==> after.heap.well_formed() && self.heap.extended_by(
            after.heap,
        ))
        &&& (self.tidy() ==> after.tidy())
        &&& (self.chunk.straight() ==> after.chunk.straight())
    }
}

/// Emitting does not disturb compiling.
pub proof fn lemma_emitted(s: Parsing, e: Emitting, src: Seq<char>)
    requires
        s.emitting().steady(e, None),
    ensures
        s.carried(s.emitted(e), src),
        s.emitted(e).measure(src) == s.measure(src),
{
}

/// Making a constant of a string does not disturb compiling.
pub proof fn lemma_written(s: Parsing, w: Writing, src: Seq<char>)
    requires
        s.writing().kept(w),
    ensures
        s.carried(s.write(w), src),
        s.write(w).measure(src) == s.measure(src),
{
}

/// Reading tokens does not disturb compiling.
pub proof fn lemma_read(s: Parsing, r: Reading, src: Seq<char>)
    requires
        s.reading().settled(r, src),
    ensures
        s.carried(s.read(r), src),
{
}

/// What compiling keeps over one step, it keeps over two.
pub proof fn lemma_carried(a: Parsing, b: Parsing, c: Parsing, src: Seq<char>)
    requires
        a.carried(b, src),
        b.carried(c, src),
    ensures
        a.carried(c, src),
{
}

/// What `parse_precedence` is, written out.
pub proof fn lemma_parse_precedence(s: Parsing, src: Seq<char>, precedence: Precedence)
    ensures
        s.parse_precedence(src, precedence) == ({
        let advanced = s.advance(src);
        let can_assign = precedence.rank() <= Precedence::Assignment.rank();
        let parsed = match rule(advanced.parser.previous.token_type).prefix {
            Some(kind) => advanced.prefix(src, kind, can_assign),
            None => advanced.with(advanced.parser.error_at_previous("Expect expression."@)),
        };
        let operated = if parsed.measure(src) <= s.measure(src) {
            parsed.infix_loop(src, precedence)
        } else {
            parsed
        };
        if can_assign && operated.parser.current.token_type == TokenType::Equal {
            let passed = operated.advance(src);
            passed.with(passed.parser.error_at_previous("Invalid assignment target."@))
        } else {
            operated
        }
        }),
{
    reveal(Parsing::parse_precedence);
    reveal(Parsing::prefix);
    reveal(Parsing::infix_loop);
}

impl Parsing {
    /// The scopes are in order: the depth is not negative, no local lies
    /// deeper than the current scope, and the depth can grow by one for every
    /// token that is left.
    pub open spec fn orderly(self, src: Seq<char>) -> bool {
        &&& 0 <= self.parser.scope_depth
        &&& self.parser.scope_depth + self.measure(src) < isize::MAX
        &&& forall|i: int|
            0 <= i < self.parser.locals.len() ==> (#[trigger] self.parser.locals[i]).depth
                <= self.parser.scope_depth
    }

    /// What a declaration does to scopes that are in order: they stay in order
    /// at the same depth, the locals that were there stay, and those that come
    /// behind them belong to the current scope.
    pub open spec fn grown(self, after: Parsing, src: Seq<char>) -> bool {
        self.orderly(src) ==> {
            &&& after.orderly(src)
            &&& after.parser.scope_depth == self.parser.scope_depth
            &&& self.parser.locals.len() <= after.parser.locals.len()
            &&& forall|i: int|
                0 <= i < self.parser.locals.len() ==> #[trigger] after.parser.locals[i]
                    == self.parser.locals[i]
            &&& forall|i: int|
                self.parser.locals.len() <= i < after.parser.locals.len() ==> (
                #[trigger] after.parser.locals[i]).depth == after.parser.scope_depth
        }
    }

    /// What a statement does to scopes that are in order: it leaves them as
    /// they were.
    pub open spec fn level(self, after: Parsing, src: Seq<char>) -> bool {
        self.orderly(src) ==> after.orderly(src) && self.parser.same_scope(after.parser)
    }
}

/// What a declaration does to the scopes, two do one after the other.
pub proof fn lemma_grown(a: Parsing, b: Parsing, c: Parsing, src: Seq<char>)
    requires
        a.grown(b, src),
        b.grown(c, src),
    ensures
        a.grown(c, src),
{
    if a.orderly(src) {
        assert forall|i: int| 0 <= i < a.parser.locals.len() implies #[trigger] c.parser.locals[i]
            == a.parser.locals[i] by {
            assert(b.parser.locals[i] == a.parser.locals[i]);
        }
        assert forall|i: int| a.parser.locals.len() <= i < c.parser.locals.len() implies (
        #[trigger] c.parser.locals[i]).depth == c.parser.scope_depth by {
            if i < b.parser.locals.len() {
                assert(c.parser.locals[i] == b.parser.locals[i]);
            }
        }
    }
}

/// Leaving a scope: where the locals from index `base` on lie deeper than the
/// scope that is returned to and the others do not, exactly those from `base`
/// on are forgotten, and one `Pop` is emitted for each of them.
pub proof fn lemma_pop_locals(e: Emitting, base: nat)
    requires
        base <= e.parser.locals.len(),
        forall|i: int|
            base <= i < e.parser.locals.len() ==> (#[trigger] e.parser.locals[i]).depth
                > e.parser.scope_depth,
        forall|i: int|
            0 <= i < base ==> (#[trigger] e.parser.locals[i]).depth <= e.parser.scope_depth,
    ensures
        e.pop_locals().parser == (ParserView {
            locals: e.parser.locals.subrange(0, base as int),
            ..e.parser
        }),
        e.pop_locals().chunk.constants == e.chunk.constants,
        e.pop_locals().chunk.code == e.chunk.code + Seq::new(
            (e.parser.locals.len() - base) as nat,
            |i: int| (Op::Pop, Line { value: e.parser.previous.line }),
        ),
    decreases e.parser.locals.len() - base,
{
    let count = (e.parser.locals.len() - base) as nat;
    let pops = Seq::new(count, |i: int| (Op::Pop, Line { value: e.parser.previous.line }));
    if e.parser.locals.len() > base {
        assert(e.parser.locals.last() == e.parser.locals[e.parser.locals.len() - 1]);
        let next = e.with(
            ParserView { locals: e.parser.locals.drop_last(), ..e.parser },
        ).emit(Op::Pop);
        assert forall|i: int| base <= i < next.parser.locals.len() implies (
        #[trigger] next.parser.locals[i]).depth > next.parser.scope_depth by {
            assert(next.parser.locals[i] == e.parser.locals[i]);
        }
        assert forall|i: int| 0 <= i < base implies (#[trigger] next.parser.locals[i]).depth
            <= next.parser.scope_depth by {
            assert(next.parser.locals[i] == e.parser.locals[i]);
        }
        lemma_pop_locals(next, base);
        let fewer = Seq::new(
            (count - 1) as nat,
            |i: int| (Op::Pop, Line { value: e.parser.previous.line }),
        );
        assert(next.parser.locals.subrange(0, base as int) =~= e.parser.locals.subrange(
            0,
            base as int,
        ));
        assert(e.chunk.code.push((Op::Pop, Line { value: e.parser.previous.line })) + fewer
            =~= e.chunk.code + pops);
    } else {
        if base > 0 {
            assert(e.parser.locals.last() == e.parser.locals[base - 1]);
        }
        assert(e.parser.locals.subrange(0, base as int) =~= e.parser.locals);
        assert(e.chunk.code + pops =~= e.chunk.code);
    }
}

impl Reading {
    /// The parser has a value for every number literal: one is left for each
    /// literal behind the cursor, and the current and the previous token have
    /// theirs where they are number literals.
    pub open spec fn fed(self, src: Seq<char>) -> bool {
        &&& self.parser.taken + number_lexemes(src, self.cursor).len() == self.parser.numbers.len()
        &&& (self.parser.current.token_type == TokenType::Number
            ==> self.parser.current_number is Some)
        &&& (self.parser.previous.token_type == TokenType::Number
            ==> self.parser.previous_number is Some)
    }
}

proof fn lemma_next_token_feeds_numbers(src: Seq<char>, r: Reading)
    requires
        r.parser.taken + number_lexemes(src, r.cursor).len() == r.parser.numbers.len(),
        r.parser.previous.token_type == TokenType::Number ==> r.parser.previous_number is Some,
    ensures
        r.next_token(src).fed(src),
    decreases src.len() - r.cursor.current,
{
    lemma_scan_moves_forward(src, r.cursor);
    let (token, cursor) = scan(src, r.cursor);
    let takes = token.token_type == TokenType::Number && r.parser.taken < r.parser.numbers.len();
    let scanned = Reading {
        cursor,
        parser: ParserView {
            current: token,
            current_number: if takes {
                Some(r.parser.numbers[r.parser.taken as int])
            } else {
                None
            },
            taken: if takes {
                r.parser.taken + 1
            } else {
                r.parser.taken
            },
            ..r.parser
        },
    };
    if token.token_type == TokenType::Error {
        lemma_next_token_feeds_numbers(
            src,
            scanned.with(scanned.parser.error_at_current(decimal(token.start as nat))),
        );
    } else if token.token_type == TokenType::EOF {
        assert(scan(src, cursor) == scan(src, r.cursor));
    }
}

/// The values of the number literals reach their tokens: a parser that has a
/// value for every number literal still has one after it took a token. The
/// parser that starts to compile has, if it was given as many values as
/// `number_lexemes` finds literals in the source.
pub proof fn lemma_advance_feeds_numbers(src: Seq<char>, r: Reading)
    requires
        r.fed(src),
    ensures
        r.advance(src).fed(src),
{
    lemma_next_token_feeds_numbers(
        src,
        r.with(
            ParserView {
                previous: r.parser.current,
                previous_number: r.parser.current_number,
                ..r.parser
            },
        ),
    );
}

} // verus!
