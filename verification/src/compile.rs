//! The compiler: a Pratt parser that emits bytecode while it parses and
//! tracks scopes and local slots. Each function does what the function of its
//! name in `parsing` says.

use vstd::prelude::*;
use vstd::string::*;
use crate::chunk::{line, Chunk, Line, Op};
use crate::object::{Heap, HeapData};
use crate::parsing::{
    binary_code,
    handles_live,
    lemma_advance,
    lemma_carried,
    lemma_emitted,
    lemma_grown,
    lemma_parse_precedence,
    lemma_pop_locals,
    lemma_read,
    lemma_synchronize,
    lemma_written,
    report_lines,
    rule,
    Emitting,
    ParserView,
    Parsing,
    Reading,
    Report,
    Writing,
};
pub use crate::parsing::{Local, ParseFn, ParseRule, Precedence};
use crate::scanner::{lemma_scan_moves_forward, lexeme, Cursor, Scanner, Token, TokenType};
use crate::text::{decimal_text, slice, slice_text};
use crate::value::Value;

verus! {

impl Precedence {
    /// The place of the level in the order, as a number.
    pub fn level(&self) -> (n: u8)
        ensures
            n == self.rank(),
    {
        match self {
            Precedence::Lowest => 0,
            Precedence::Assignment => 1,
            Precedence::Or => 2,
            Precedence::And => 3,
            Precedence::Equality => 4,
            Precedence::Comparison => 5,
            Precedence::Term => 6,
            Precedence::Factor => 7,
            Precedence::Unary => 8,
            Precedence::Call => 9,
            Precedence::Primary => 10,
        }
    }

    fn increase(&self) -> (higher: Precedence)
        ensures
            higher == self.next(),
            higher != Precedence::Lowest,
    {
        match self {
            Precedence::Lowest => Precedence::Assignment,
            Precedence::Assignment => Precedence::Or,
            Precedence::Or => Precedence::And,
            Precedence::And => Precedence::Equality,
            Precedence::Equality => Precedence::Comparison,
            Precedence::Comparison => Precedence::Term,
            Precedence::Term => Precedence::Factor,
            Precedence::Factor => Precedence::Unary,
            Precedence::Unary => Precedence::Call,
            Precedence::Call => Precedence::Primary,
            Precedence::Primary => Precedence::Primary,
        }
    }
}

/// The text of a token.
pub fn lexeme_text(source: &String, token: &Token) -> (text: String)
    ensures
        text@ == lexeme(source@, *token),
{
    let end = if token.length <= usize::MAX - token.start {
        token.start + token.length
    } else {
        usize::MAX
    };
    slice_text(source, token.start, end)
}

/// The text of a string literal between its quotes.
fn inner_text(source: &String, token: &Token) -> (text: String)
    ensures
        text@ == slice(source@, token.start + 1, token.start + token.length - 1),
{
    if token.start == usize::MAX || token.length < 2 {
        slice_text(source, usize::MAX, 0)
    } else {
        let end = if token.length - 1 <= usize::MAX - token.start {
            token.start + (token.length - 1)
        } else {
            usize::MAX
        };
        slice_text(source, token.start + 1, end)
    }
}

/// A compile error: the token it was found at and the message.
#[derive(Debug)]
pub struct Diagnostic {
    pub token: Token,
    pub message: String,
}

impl View for Diagnostic {
    type V = Report;

    open spec fn view(&self) -> Report {
        Report { token: self.token, message: self.message@ }
    }
}

impl Diagnostic {
    /// The line that reports the error: `[line N] Error`, then ` at end` or
    /// ` at '` and the token's text and `'`, then `: ` and the message. An
    /// error token has no place.
    pub fn to_text(&self, source: &String) -> (text: String)
        ensures
            text@ == self@.text(source@),
    {
        let mut text = String::from_str("[line ");
        let number = decimal_text(self.token.line);
        text.append(number.as_str());
        text.append("] Error");
        let mut place = String::new();
        if self.token.token_type == TokenType::EOF {
            place.append(" at end");
            assert(place@ == " at end"@);
        } else if self.token.token_type == TokenType::Error {
        } else {
            place.append(" at '");
            let name = lexeme_text(source, &self.token);
            place.append(name.as_str());
            place.append("'");
            assert(place@ == " at '"@ + lexeme(source@, self.token) + "'"@);
        }
        text.append(place.as_str());
        text.append(": ");
        text.append(self.message.as_str());
        text
    }
}

/// What the scope tracker holds.
pub struct CompilerView {
    pub locals: Seq<Local>,
    pub scope_depth: isize,
}

/// The scope tracker: the locals in the order of their stack slots, and the
/// depth of the current scope, 0 for the globals.
pub struct Compiler {
    locals: Vec<Local>,
    scope_depth: isize,
}

impl View for Compiler {
    type V = CompilerView;

    closed spec fn view(&self) -> CompilerView {
        CompilerView { locals: self.locals@, scope_depth: self.scope_depth }
    }
}

impl Compiler {
    /// A tracker at global scope, without locals.
    pub fn new() -> (compiler: Compiler)
        ensures
            compiler@.locals.len() == 0,
            compiler@.scope_depth == 0,
    {
        Compiler { locals: Vec::new(), scope_depth: 0 }
    }
}

/// The parser: the current and the previous token, whether an error was found
/// and whether the parser is skipping after one, and the scope tracker.
pub struct Parser {
    current: Token,
    previous: Token,
    had_error: bool,
    panic_mode: bool,
    compiler: Compiler,
    current_number: Option<u64>,
    previous_number: Option<u64>,
    numbers: Vec<u64>,
    taken: usize,
    diagnostics: Vec<Diagnostic>,
}

impl View for Parser {
    type V = ParserView;

    closed spec fn view(&self) -> ParserView {
        ParserView {
            current: self.current,
            previous: self.previous,
            current_number: self.current_number,
            previous_number: self.previous_number,
            numbers: self.numbers@,
            taken: self.taken as nat,
            had_error: self.had_error,
            panic_mode: self.panic_mode,
            diagnostics: Seq::new(self.diagnostics@.len(), |i: int| self.diagnostics@[i]@),
            locals: self.compiler.locals@,
            scope_depth: self.compiler.scope_depth,
        }
    }
}

/// The parser and the scanner together.
pub open spec fn reading(parser: Parser, scanner: Scanner) -> Reading {
    Reading { parser: parser@, cursor: scanner@ }
}

/// The parser and the chunk together.
pub open spec fn emitting(parser: Parser, chunk: Chunk) -> Emitting {
    Emitting { parser: parser@, chunk: chunk@ }
}

/// The parser, the chunk and the heap together.
pub open spec fn writing(parser: Parser, chunk: Chunk, heap: Heap) -> Writing {
    Writing { parser: parser@, chunk: chunk@, heap: heap@ }
}

/// All that compiling works on.
pub open spec fn parsing(parser: Parser, scanner: Scanner, chunk: Chunk, heap: Heap) -> Parsing {
    Parsing { parser: parser@, cursor: scanner@, chunk: chunk@, heap: heap@ }
}

/// The token that a new parser holds as current and previous.
pub open spec fn no_token() -> Token {
    Token { token_type: TokenType::EOF, start: 0, length: 0, line: 0 }
}

/// What a new parser holds.
pub open spec fn fresh_parser() -> ParserView {
    ParserView {
        current: no_token(),
        previous: no_token(),
        current_number: None,
        previous_number: None,
        numbers: Seq::empty(),
        taken: 0,
        had_error: false,
        panic_mode: false,
        diagnostics: Seq::empty(),
        locals: Seq::empty(),
        scope_depth: 0,
    }
}

impl Parser {
    /// A parser that has read nothing.
    pub fn new() -> (parser: Parser)
        ensures
            parser@ == fresh_parser(),
    {
        let parser = Parser {
            current: Token { token_type: TokenType::EOF, start: 0, length: 0, line: 0 },
            previous: Token { token_type: TokenType::EOF, start: 0, length: 0, line: 0 },
            had_error: false,
            panic_mode: false,
            compiler: Compiler::new(),
            current_number: None,
            previous_number: None,
            numbers: Vec::new(),
            taken: 0,
            diagnostics: Vec::new(),
        };
        assert(parser@.diagnostics =~= Seq::empty());
        assert(parser@.locals =~= Seq::empty());
        assert(parser@.numbers =~= Seq::empty());
        parser
    }

    /// Whether an error was recorded.
    pub fn had_error(&self) -> (b: bool)
        ensures
            b == self@.had_error,
    {
        self.had_error
    }

    /// The recorded errors, one line each, in the order they were found.
    pub fn error_lines(&self, source: &String) -> (text: String)
        ensures
            text@ == report_lines(source@, self@.diagnostics),
    {
        let mut text = String::new();
        let mut i: usize = 0;
        while i < self.diagnostics.len()
            invariant
                i <= self.diagnostics@.len(),
                text@ == report_lines(source@, self@.diagnostics.take(i as int)),
            decreases self.diagnostics@.len() - i,
        {
            let entry = self.diagnostics[i].to_text(source);
            text.append(entry.as_str());
            text.append("\n");
            proof {
                let upto = self@.diagnostics.take(i + 1);
                assert(upto.drop_last() =~= self@.diagnostics.take(i as int));
                assert(upto.last() == self@.diagnostics[i as int]);
            }
            i = i + 1;
        }
        assert(self@.diagnostics.take(i as int) =~= self@.diagnostics);
        text
    }

    /// Compiles `source` into `chunk`; the strings go to `heap`. `numbers`
    /// holds the values of the number literals of the source, in its order.
    /// Returns whether no error was found.
    ///
    /// No jump is emitted: a chunk without jumps stays without. A sound chunk
    /// stays sound: the constants that its instructions name exist, its jumps
    /// land in the code or just behind it, and the handles in its pool are
    /// live. What was on the heap stays there.
    pub fn compile(
        &mut self,
        source: String,
        numbers: Vec<u64>,
        chunk: &mut Chunk,
        heap: &mut Heap,
    ) -> (ok: bool)
        ensures
            ({
                let done = (Parsing {
                    parser: old(self)@,
                    cursor: Cursor { start: 0, current: 0, line: 1 },
                    chunk: old(chunk)@,
                    heap: old(heap)@,
                }).compile(source@, numbers@);
                &&& final(self)@ == done.parser
                &&& final(chunk)@ == done.chunk
                &&& final(heap)@ == done.heap
            }),
            ok == !final(self)@.had_error,
            old(self)@.had_error ==> !ok,
            old(heap)@.well_formed() ==> old(heap)@.extended_by(final(heap)@),
            old(chunk)@.straight() ==> final(chunk)@.straight(),
            old(chunk)@.constants_in_range() && old(chunk)@.jumps_in_range() && handles_live(
                old(chunk)@.constants,
                old(heap)@,
            ) && old(heap)@.well_formed() ==> final(chunk)@.constants_in_range()
                && final(chunk)@.jumps_in_range() && handles_live(
                final(chunk)@.constants,
                final(heap)@,
            ) && final(heap)@.well_formed(),
    {
        let mut scanner = Scanner::new();
        self.numbers = numbers;
        self.taken = 0;
        self.current_number = None;
        self.previous_number = None;
        let ghost entered = Parsing {
            parser: old(self)@,
            cursor: Cursor { start: 0, current: 0, line: 1 },
            chunk: old(chunk)@,
            heap: old(heap)@,
        };
        let ghost begun = parsing(*self, scanner, *chunk, *heap);
        proof {
            reveal(Parsing::compile);
            assert(entered.compile(source@, numbers@) == begun.advance(source@).declarations(
                source@,
            ));
        }
        self.advance(&source, &mut scanner);
        let ghost primed = parsing(*self, scanner, *chunk, *heap);
        proof {
            lemma_read(begun, primed.reading(), source@);
            assert(primed == begun.advance(source@));
        }
        loop
            invariant_except_break
                primed.declarations(source@) == parsing(*self, scanner, *chunk, *heap).declarations(
                    source@,
                ),
            invariant
                primed.carried(parsing(*self, scanner, *chunk, *heap), source@),
            ensures
                primed.declarations(source@) == parsing(*self, scanner, *chunk, *heap),
            decreases parsing(*self, scanner, *chunk, *heap).measure(source@),
        {
            let ghost here = parsing(*self, scanner, *chunk, *heap);
            proof {
                reveal(Parsing::declarations);
            }
            if self.match_token(TokenType::EOF, &source, &mut scanner) {
                proof {
                    let there = parsing(*self, scanner, *chunk, *heap);
                    lemma_read(here, there.reading(), source@);
                    lemma_carried(primed, here, there, source@);
                }
                break;
            }
            self.declaration(&source, chunk, &mut scanner, heap);
            proof {
                lemma_carried(primed, here, parsing(*self, scanner, *chunk, *heap), source@);
            }
        }
        proof {
            lemma_carried(begun, primed, parsing(*self, scanner, *chunk, *heap), source@);
        }
        !self.had_error
    }

    /// Makes the current token the previous one and scans the next; error
    /// tokens are recorded as errors and passed over.
    pub fn advance(&mut self, source: &String, scanner: &mut Scanner)
        ensures
            reading(*final(self), *final(scanner)) == reading(*old(self), *old(scanner)).advance(
                source@,
            ),
            reading(*old(self), *old(scanner)).settled(
                reading(*final(self), *final(scanner)),
                source@,
            ),
            old(self)@.current.token_type != TokenType::EOF ==> reading(
                *final(self),
                *final(scanner),
            ).measure(source@) < reading(*old(self), *old(scanner)).measure(source@),
            final(self)@.previous == old(self)@.current,
    {
        proof {
            lemma_advance(source@, reading(*self, *scanner));
        }
        self.previous = self.current;
        self.previous_number = self.current_number;
        let ghost shifted = reading(*self, *scanner);
        loop
            invariant_except_break
                shifted.next_token(source@) == reading(*self, *scanner).next_token(source@),
            ensures
                shifted.next_token(source@) == reading(*self, *scanner),
            decreases source@.len() - scanner@.current,
        {
            proof {
                lemma_scan_moves_forward(source@, scanner@);
            }
            self.current = scanner.scan_token(source);
            if self.current.token_type == TokenType::Number && self.taken < self.numbers.len() {
                self.current_number = Some(self.numbers[self.taken]);
                self.taken = self.taken + 1;
            } else {
                self.current_number = None;
            }
            if self.current.token_type != TokenType::Error {
                break;
            }
            let message = decimal_text(self.current.start);
            self.error_at_current(message.as_str());
        }
    }

    /// Records an error at the current token.
    pub fn error_at_current(&mut self, message: &str)
        ensures
            final(self)@ == old(self)@.error_at_current(message@),
    {
        let token = self.current;
        self.error_at(&token, message);
    }

    /// Records an error at the previous token.
    pub fn error_at_previous(&mut self, message: &str)
        ensures
            final(self)@ == old(self)@.error_at_previous(message@),
    {
        let token = self.previous;
        self.error_at(&token, message);
    }

    /// Records an error at `token` and enters panic mode.
    pub fn error_at(&mut self, token: &Token, message: &str)
        ensures
            final(self)@ == old(self)@.error_at(*token, message@),
    {
        self.panic_mode = true;
        let entry = Diagnostic { token: *token, message: String::from_str(message) };
        self.diagnostics.push(entry);
        self.had_error = true;
        assert(self@.diagnostics =~= old(self)@.diagnostics.push(
            Report { token: *token, message: message@ },
        ));
    }

    /// Adds a local with the given name that is not yet initialized.
    pub fn add_local(&mut self, token: Token)
        ensures
            final(self)@ == old(self)@.add_local(token),
    {
        self.compiler.locals.push(Local { token: token, depth: -1 });
    }

    /// Parses declarations up to the closing brace.
    pub fn block(
        &mut self,
        source: &String,
        chunk: &mut Chunk,
        scanner: &mut Scanner,
        heap: &mut Heap,
    )
        ensures
            ({
                let before = parsing(*old(self), *old(scanner), *old(chunk), *old(heap));
                let after = parsing(*final(self), *final(scanner), *final(chunk), *final(heap));
                &&& after == before.block(source@)
                &&& before.carried(after, source@)
                &&& before.grown(after, source@)
            }),
        decreases
            parsing(*old(self), *old(scanner), *old(chunk), *old(heap)).measure(source@),
            2nat,
    {
        let ghost begun = parsing(*self, *scanner, *chunk, *heap);
        loop
            invariant_except_break
                begun.block(source@) == parsing(*self, *scanner, *chunk, *heap).block(source@),
            invariant
                begun == parsing(*old(self), *old(scanner), *old(chunk), *old(heap)),
                begun.carried(parsing(*self, *scanner, *chunk, *heap), source@),
                begun.grown(parsing(*self, *scanner, *chunk, *heap), source@),
            ensures
                begun.block(source@) == parsing(*self, *scanner, *chunk, *heap),
            decreases parsing(*self, *scanner, *chunk, *heap).measure(source@),
        {
            let ghost here = parsing(*self, *scanner, *chunk, *heap);
            proof {
                reveal(Parsing::block);
                reveal(Parsing::declaration);
            }
            if self.current.token_type == TokenType::RightBrace || self.current.token_type
                == TokenType::EOF {
                self.consume(source, TokenType::RightBrace, "Expect '}' after block.", scanner);
                proof {
                    let there = parsing(*self, *scanner, *chunk, *heap);
                    lemma_read(here, there.reading(), source@);
                    lemma_carried(begun, here, there, source@);
                    assert(here.grown(there, source@));
                    lemma_grown(begun, here, there, source@);
                }
                break;
            }
            self.declaration(source, chunk, scanner, heap);
            proof {
                lemma_carried(begun, here, parsing(*self, *scanner, *chunk, *heap), source@);
                lemma_grown(begun, here, parsing(*self, *scanner, *chunk, *heap), source@);
            }
        }
    }

    /// Enters a scope.
    pub fn begin_scope(&mut self)
        ensures
            final(self)@ == old(self)@.begin_scope(),
    {
        if self.compiler.scope_depth < isize::MAX {
            self.compiler.scope_depth = self.compiler.scope_depth + 1;
        }
    }

    /// Leaves a scope: its locals are forgotten, and a `Pop` is emitted for
    /// each.
    pub fn end_scope(&mut self, chunk: &mut Chunk)
        ensures
            emitting(*final(self), *final(chunk)) == emitting(*old(self), *old(chunk)).end_scope(),
            emitting(*old(self), *old(chunk)).steady(emitting(*final(self), *final(chunk)), None),
    {
        if self.compiler.scope_depth > isize::MIN {
            self.compiler.scope_depth = self.compiler.scope_depth - 1;
        }
        let ghost lowered = emitting(*self, *chunk);
        while self.compiler.locals.len() > 0 && self.compiler.locals[self.compiler.locals.len()
            - 1].depth > self.compiler.scope_depth
            invariant
                lowered.pop_locals() == emitting(*self, *chunk).pop_locals(),
                emitting(*old(self), *old(chunk)).steady(emitting(*self, *chunk), None),
            decreases self@.locals.len(),
        {
            self.compiler.locals.pop();
            self.emit_byte(chunk, (Op::Pop, line(self.previous.line)));
        }
    }

    /// Takes the current token if it is of the given kind; else records the
    /// error.
    pub fn consume(
        &mut self,
        source: &String,
        token_type: TokenType,
        message: &str,
        scanner: &mut Scanner,
    )
        ensures
            reading(*final(self), *final(scanner)) == reading(*old(self), *old(scanner)).consume(
                source@,
                token_type,
                message@,
            ),
            reading(*old(self), *old(scanner)).settled(
                reading(*final(self), *final(scanner)),
                source@,
            ),
    {
        if self.current.token_type == token_type {
            self.advance(source, scanner);
            return;
        }
        self.error_at_current(message);
    }

    /// Parses a variable declaration or a statement. After an error the
    /// parser skips to where the next statement starts.
    pub fn declaration(
        &mut self,
        source: &String,
        chunk: &mut Chunk,
        scanner: &mut Scanner,
        heap: &mut Heap,
    )
        ensures
            ({
                let before = parsing(*old(self), *old(scanner), *old(chunk), *old(heap));
                let after = parsing(*final(self), *final(scanner), *final(chunk), *final(heap));
                &&& after == before.declaration(source@)
                &&& before.carried(after, source@)
                &&& before.grown(after, source@)
                &&& (before.parser.current.token_type != TokenType::EOF
                    ==> after.measure(source@) < before.measure(source@))
            }),
        decreases
            parsing(*old(self), *old(scanner), *old(chunk), *old(heap)).measure(source@),
            1nat,
    {
        let ghost begun = parsing(*self, *scanner, *chunk, *heap);
        proof {
            reveal(Parsing::declaration);
            reveal(Parsing::statement);
        }
        if self.match_token(TokenType::Var, source, scanner) {
            let ghost taken = parsing(*self, *scanner, *chunk, *heap);
            proof {
                lemma_read(begun, taken.reading(), source@);
            }
            self.var_declaration(source, chunk, scanner, heap);
            proof {
                lemma_carried(begun, taken, parsing(*self, *scanner, *chunk, *heap), source@);
                assert(begun.grown(taken, source@));
                lemma_grown(begun, taken, parsing(*self, *scanner, *chunk, *heap), source@);
            }
        } else {
            self.statement(source, chunk, scanner, heap);
        }
        let ghost parsed = parsing(*self, *scanner, *chunk, *heap);
        assert(begun.grown(parsed, source@));

        if self.panic_mode {
            self.synchronize(source, scanner);
            proof {
                let calm = parsing(*self, *scanner, *chunk, *heap);
                lemma_read(parsed, calm.reading(), source@);
                lemma_carried(begun, parsed, calm, source@);
                assert(parsed.grown(calm, source@));
                lemma_grown(begun, parsed, calm, source@);
            }
        }
    }

    /// Declares the previous token as a local of the current scope. A local of
    /// the same scope with the same name is an error.
    pub fn declare_variable(&mut self, source: &String)
        ensures
            final(self)@ == old(self)@.declare_variable(source@),
            final(self)@.current == old(self)@.current,
            final(self)@.numbers == old(self)@.numbers,
            old(self)@.had_error ==> final(self)@.had_error,
            final(self)@.scope_depth == old(self)@.scope_depth,
            final(self)@.locals == (if old(self)@.scope_depth == 0 {
                old(self)@.locals
            } else {
                old(self)@.locals.push(Local { token: old(self)@.previous, depth: -1isize })
            }),
    {
        if self.compiler.scope_depth == 0 {
            return;
        }
        let name = self.previous;
        let scope_depth = self.compiler.scope_depth;
        let name_text = lexeme_text(source, &name);
        let mut i = self.compiler.locals.len();
        while i > 0 && self.compiler.locals[i - 1].depth == scope_depth
            invariant
                i <= self@.locals.len(),
                self@.locals == old(self)@.locals,
                self@.previous == old(self)@.previous,
                self@.current == old(self)@.current,
                self@.numbers == old(self)@.numbers,
                old(self)@.had_error ==> self@.had_error,
                self@.scope_depth == old(self)@.scope_depth,
                name == self@.previous,
                scope_depth == self@.scope_depth,
                name_text@ == lexeme(source@, name),
                self@.collisions(source@, i as nat) == old(self)@.collisions(
                    source@,
                    old(self)@.locals.len(),
                ),
            decreases i,
        {
            let other = lexeme_text(source, &self.compiler.locals[i - 1].token);
            if name_text == other {
                self.error_at_current("Variable with this name already declared in this scope.");
            }
            i = i - 1;
        }
        self.add_local(name);
    }

    /// Defines the variable that was just declared. For a global, `global` is
    /// the index of its name in the constant pool.
    pub fn define_variable(&mut self, chunk: &mut Chunk, global: usize)
        ensures
            emitting(*final(self), *final(chunk)) == emitting(
                *old(self),
                *old(chunk),
            ).define_variable(global),
            old(self)@.scope_depth > 0 || global < old(chunk)@.constants.len() ==> emitting(
                *old(self),
                *old(chunk),
            ).steady(emitting(*final(self), *final(chunk)), None),
    {
        if self.compiler.scope_depth > 0 {
            self.mark_initialized();
            return;
        }
        self.emit_byte(chunk, (Op::DefineGlobal(global), line(self.previous.line)));
    }

    /// Appends an instruction with its line.
    pub fn emit_byte(&mut self, chunk: &mut Chunk, instruction: (Op, Line))
        ensures
            emitting(*final(self), *final(chunk)) == emitting(*old(self), *old(chunk)).emit_byte(
                instruction.0,
                instruction.1,
            ),
            final(self)@ == old(self)@,
            instruction.0.fits(old(chunk)@.constants.len()) ==> emitting(
                *old(self),
                *old(chunk),
            ).steady(emitting(*final(self), *final(chunk)), None),
    {
        chunk.code.push(instruction);
    }

    /// Appends two instructions with their lines.
    pub fn emit_bytes(&mut self, chunk: &mut Chunk, first: (Op, Line), second: (Op, Line))
        ensures
            emitting(*final(self), *final(chunk)) == emitting(*old(self), *old(chunk)).emit_byte(
                first.0,
                first.1,
            ).emit_byte(second.0, second.1),
            final(self)@ == old(self)@,
            first.0.fits(old(chunk)@.constants.len()) && second.0.fits(
                old(chunk)@.constants.len(),
            ) ==> emitting(*old(self), *old(chunk)).steady(
                emitting(*final(self), *final(chunk)),
                None,
            ),
    {
        self.emit_byte(chunk, first);
        self.emit_byte(chunk, second);
    }

    /// Adds a number or an object to the constant pool and emits the
    /// instruction that loads it.
    pub fn emit_constant(&mut self, chunk: &mut Chunk, value: Value, line: Line)
        ensures
            emitting(*final(self), *final(chunk)) == emitting(
                *old(self),
                *old(chunk),
            ).emit_constant(value, line),
            emitting(*old(self), *old(chunk)).steady(
                emitting(*final(self), *final(chunk)),
                match value {
                    Value::Obj(id) => Some(id),
                    _ => None,
                },
            ),
    {
        match value {
            Value::Number(_) | Value::Obj(_) => {
                let constant = chunk.add_constant(value);
                if constant > 255 {
                    self.error_at_previous("Too many constants in one chunk.");
                }
                self.emit_byte(chunk, (Op::Constant(constant), line));
            },
            _ => {},
        }
    }

    /// Makes the name of the previous token a constant and returns its index.
    pub fn identifier_constant(
        &mut self,
        source: &String,
        chunk: &mut Chunk,
        heap: &mut Heap,
    ) -> (index: usize)
        ensures
            writing(*final(self), *final(chunk), *final(heap)) == writing(
                *old(self),
                *old(chunk),
                *old(heap),
            ).identifier_constant(source@),
            writing(*old(self), *old(chunk), *old(heap)).kept(
                writing(*final(self), *final(chunk), *final(heap)),
            ),
            index == old(chunk)@.constants.len(),
            index < final(chunk)@.constants.len(),
    {
        let identifier = lexeme_text(source, &self.previous);
        if heap.is_full() {
            self.error_at_previous("Too many objects.");
            chunk.add_constant(Value::Nil)
        } else {
            let id = heap.allocate(HeapData::String(identifier));
            chunk.add_constant(Value::Obj(id))
        }
    }

    /// Takes the current token if it is of the given kind, and tells whether
    /// it was.
    pub fn match_token(
        &mut self,
        token_type: TokenType,
        source: &String,
        scanner: &mut Scanner,
    ) -> (matched: bool)
        ensures
            matched == (old(self)@.current.token_type == token_type),
            reading(*final(self), *final(scanner)) == reading(
                *old(self),
                *old(scanner),
            ).match_token(source@, token_type),
            reading(*old(self), *old(scanner)).settled(
                reading(*final(self), *final(scanner)),
                source@,
            ),
            matched && token_type != TokenType::EOF ==> reading(
                *final(self),
                *final(scanner),
            ).measure(source@) < reading(*old(self), *old(scanner)).measure(source@),
            matched ==> final(self)@.previous == old(self)@.current,
    {
        if self.current.token_type != token_type {
            return false;
        }
        self.advance(source, scanner);
        true
    }

    /// Gives the newest local the current depth, inside a scope.
    pub fn mark_initialized(&mut self)
        ensures
            final(self)@ == old(self)@.mark_initialized(),
    {
        if self.compiler.scope_depth == 0 {
            return;
        }
        let count = self.compiler.locals.len();
        if count > 0 {
            let token = self.compiler.locals[count - 1].token;
            self.compiler.locals[count - 1] = Local { token, depth: self.compiler.scope_depth };
        }
    }

    /// Compiles a variable that is read or assigned.
    #[verifier::rlimit(50)]
    pub fn named_variable(
        &mut self,
        source: &String,
        chunk: &mut Chunk,
        scanner: &mut Scanner,
        heap: &mut Heap,
        can_assign: bool,
    )
        ensures
            ({
                let before = parsing(*old(self), *old(scanner), *old(chunk), *old(heap));
                let after = parsing(*final(self), *final(scanner), *final(chunk), *final(heap));
                &&& after == before.named_variable(source@, can_assign)
                &&& before.carried(after, source@)
                &&& before.parser.same_scope(after.parser)
            }),
        decreases
            parsing(*old(self), *old(scanner), *old(chunk), *old(heap)).measure(source@),
            3nat,
    {
        let ghost begun = parsing(*self, *scanner, *chunk, *heap);
        proof {
            reveal(Parsing::named_variable);
            reveal(Parsing::expression);
        }
        let global = self.identifier_constant(source, chunk, heap);
        let ghost named = parsing(*self, *scanner, *chunk, *heap);
        proof {
            lemma_written(begun, named.writing(), source@);
        }
        let local = self.resolve_local(source);
        let ghost resolved = parsing(*self, *scanner, *chunk, *heap);
        proof {
            assert(named.carried(resolved, source@));
            lemma_carried(begun, named, resolved, source@);
        }
        if can_assign && self.match_token(TokenType::Equal, source, scanner) {
            let ghost taken = parsing(*self, *scanner, *chunk, *heap);
            proof {
                lemma_read(resolved, taken.reading(), source@);
                lemma_carried(begun, resolved, taken, source@);
            }
            self.expression(source, chunk, scanner, heap, can_assign);
            let ghost assigned = parsing(*self, *scanner, *chunk, *heap);
            proof {
                lemma_carried(begun, taken, assigned, source@);
            }
            self.emit_access(chunk, local, global, true);
            proof {
                let done = parsing(*self, *scanner, *chunk, *heap);
                lemma_emitted(assigned, done.emitting(), source@);
                lemma_carried(begun, assigned, done, source@);
            }
        } else {
            self.emit_access(chunk, local, global, false);
            proof {
                let done = parsing(*self, *scanner, *chunk, *heap);
                lemma_emitted(resolved, done.emitting(), source@);
                lemma_carried(begun, resolved, done, source@);
            }
        }
    }

    /// Emits the instruction that reads or assigns a variable.
    fn emit_access(&mut self, chunk: &mut Chunk, local: isize, global: usize, assign: bool)
        ensures
            emitting(*final(self), *final(chunk)) == emitting(*old(self), *old(chunk)).access(
                local,
                global,
                assign,
            ),
            final(self)@ == old(self)@,
            local != -1 || global < old(chunk)@.constants.len() ==> emitting(
                *old(self),
                *old(chunk),
            ).steady(emitting(*final(self), *final(chunk)), None),
    {
        if assign {
            if local != -1 {
                self.emit_byte(
                    chunk,
                    (
                        Op::SetLocal(#[verifier::truncate] (local as usize)),
                        line(self.previous.line),
                    ),
                );
            } else {
                self.emit_byte(chunk, (Op::SetGlobal(global), line(self.previous.line)));
            }
        } else {
            if local != -1 {
                self.emit_byte(
                    chunk,
                    (
                        Op::GetLocal(#[verifier::truncate] (local as usize)),
                        line(self.previous.line),
                    ),
                );
            } else {
                self.emit_byte(chunk, (Op::GetGlobal(global), line(self.previous.line)));
            }
        }
    }

    /// Parses the name of a variable to declare. Returns the index of the name
    /// in the constant pool for a global, 0 for a local.
    pub fn parse_variable(
        &mut self,
        source: &String,
        chunk: &mut Chunk,
        scanner: &mut Scanner,
        heap: &mut Heap,
    ) -> (index: usize)
        ensures
            ({
                let before = parsing(*old(self), *old(scanner), *old(chunk), *old(heap));
                let after = parsing(*final(self), *final(scanner), *final(chunk), *final(heap));
                &&& after == before.parse_variable(source@).0
                &&& index == before.parse_variable(source@).1
                &&& before.carried(after, source@)
                &&& (after.parser.scope_depth <= 0 ==> index < after.chunk.constants.len())
                &&& after.parser.scope_depth == before.parser.scope_depth
                &&& (before.parser.scope_depth == 0 ==> after.parser.locals == before.parser.locals)
                &&& (before.parser.scope_depth != 0 ==>
                    after.parser.locals.len() == before.parser.locals.len() + 1
                    && after.parser.locals.drop_last() == before.parser.locals)
            }),
    {
        let ghost begun = parsing(*self, *scanner, *chunk, *heap);
        proof {
            reveal(Parsing::parse_variable);
        }
        self.consume(source, TokenType::Identifier, "Expect variable name.", scanner);
        let ghost named = parsing(*self, *scanner, *chunk, *heap);
        proof {
            lemma_read(begun, named.reading(), source@);
        }
        self.declare_variable(source);
        let ghost declared = parsing(*self, *scanner, *chunk, *heap);
        proof {
            assert(named.carried(declared, source@));
            lemma_carried(begun, named, declared, source@);
            if begun.parser.scope_depth != 0 {
                assert(declared.parser.locals.drop_last() =~= begun.parser.locals);
            }
        }
        if self.compiler.scope_depth > 0 {
            return 0;
        }
        let index = self.identifier_constant(source, chunk, heap);
        proof {
            let done = parsing(*self, *scanner, *chunk, *heap);
            lemma_written(declared, done.writing(), source@);
            lemma_carried(begun, declared, done, source@);
        }
        index
    }

    /// Parses what follows `print`: an expression and a semicolon, and emits
    /// `Print`.
    pub fn print_statement(
        &mut self,
        source: &String,
        chunk: &mut Chunk,
        scanner: &mut Scanner,
        heap: &mut Heap,
    )
        ensures
            ({
                let before = parsing(*old(self), *old(scanner), *old(chunk), *old(heap));
                let after = parsing(*final(self), *final(scanner), *final(chunk), *final(heap));
                &&& after == before.print_statement(source@)
                &&& before.carried(after, source@)
                &&& before.parser.same_scope(after.parser)
            }),
    {
        let ghost begun = parsing(*self, *scanner, *chunk, *heap);
        proof {
            reveal(Parsing::print_statement);
        }
        self.expression(source, chunk, scanner, heap, false);
        let ghost valued = parsing(*self, *scanner, *chunk, *heap);
        self.consume(source, TokenType::Semicolon, "Expect ';' after value.", scanner);
        let ghost closed = parsing(*self, *scanner, *chunk, *heap);
        proof {
            lemma_read(valued, closed.reading(), source@);
            lemma_carried(begun, valued, closed, source@);
        }
        self.emit_byte(chunk, (Op::Print, line(self.previous.line)));
        proof {
            let done = parsing(*self, *scanner, *chunk, *heap);
            lemma_emitted(closed, done.emitting(), source@);
            lemma_carried(begun, closed, done, source@);
        }
    }

    /// The slot of the local that the previous token names, or -1.
    pub fn resolve_local(&mut self, source: &String) -> (slot: isize)
        ensures
            final(self)@ == old(self)@.resolve_local(source@).0,
            slot == old(self)@.resolve_local(source@).1,
            final(self)@.current == old(self)@.current,
            final(self)@.numbers == old(self)@.numbers,
            old(self)@.had_error ==> final(self)@.had_error,
            old(self)@.same_scope(final(self)@),
    {
        let name = lexeme_text(source, &self.previous);
        let mut i = self.compiler.locals.len();
        while i > 0
            invariant
                i <= self@.locals.len(),
                *self == *old(self),
                name@ == lexeme(source@, self@.previous),
                self@.find_local(source@, i as nat) == self@.find_local(
                    source@,
                    self@.locals.len(),
                ),
            decreases i,
        {
            let local = self.compiler.locals[i - 1];
            let local_name = lexeme_text(source, &local.token);
            if name == local_name {
                if local.depth == -1 {
                    self.error_at_current("Cannot read local variable in its own initializer.");
                }
                return #[verifier::truncate] ((i - 1) as isize);
            }
            i = i - 1;
        }
        -1
    }

    /// Parses a print statement, a block, or an expression statement.
    pub fn statement(
        &mut self,
        source: &String,
        chunk: &mut Chunk,
        scanner: &mut Scanner,
        heap: &mut Heap,
    )
        ensures
            ({
                let before = parsing(*old(self), *old(scanner), *old(chunk), *old(heap));
                let after = parsing(*final(self), *final(scanner), *final(chunk), *final(heap));
                &&& after == before.statement(source@)
                &&& before.carried(after, source@)
                &&& before.level(after, source@)
                &&& (before.parser.current.token_type != TokenType::EOF
                    ==> after.measure(source@) < before.measure(source@))
            }),
        decreases
            parsing(*old(self), *old(scanner), *old(chunk), *old(heap)).measure(source@),
            0nat,
    {
        let ghost begun = parsing(*self, *scanner, *chunk, *heap);
        proof {
            reveal(Parsing::statement);
            reveal(Parsing::block);
        }
        if self.match_token(TokenType::Print, source, scanner) {
            let ghost taken = parsing(*self, *scanner, *chunk, *heap);
            proof {
                lemma_read(begun, taken.reading(), source@);
            }
            self.print_statement(source, chunk, scanner, heap);
            proof {
                lemma_carried(begun, taken, parsing(*self, *scanner, *chunk, *heap), source@);
            }
        } else if self.match_token(TokenType::LeftBrace, source, scanner) {
            let ghost opened = parsing(*self, *scanner, *chunk, *heap);
            proof {
                lemma_read(begun, opened.reading(), source@);
            }
            self.begin_scope();
            let ghost inside = parsing(*self, *scanner, *chunk, *heap);
            proof {
                assert(inside == opened.with(opened.parser.begin_scope()));
                assert(opened.carried(inside, source@));
                lemma_carried(begun, opened, inside, source@);
                assert(begun.orderly(source@) ==> inside.orderly(source@)
                    && inside.parser.scope_depth == begun.parser.scope_depth + 1
                    && inside.parser.locals == begun.parser.locals);
            }
            self.block(source, chunk, scanner, heap);
            let ghost closed = parsing(*self, *scanner, *chunk, *heap);
            proof {
                lemma_carried(begun, inside, closed, source@);
            }
            self.end_scope(chunk);
            proof {
                let done = parsing(*self, *scanner, *chunk, *heap);
                lemma_emitted(closed, done.emitting(), source@);
                lemma_carried(begun, closed, done, source@);
                if begun.orderly(source@) {
                    let lowered = closed.emitting().with(
                        ParserView {
                            scope_depth: begun.parser.scope_depth,
                            ..closed.parser
                        },
                    );
                    assert(closed.emitting().end_scope() == lowered.pop_locals());
                    assert forall|i: int| 0 <= i < begun.parser.locals.len() implies (
                    #[trigger] lowered.parser.locals[i]).depth <= lowered.parser.scope_depth by {
                        assert(closed.parser.locals[i] == begun.parser.locals[i]);
                    }
                    lemma_pop_locals(lowered, begun.parser.locals.len());
                    assert(done.parser.locals =~= begun.parser.locals);
                }
            }
        } else {
            self.expression(source, chunk, scanner, heap, false);
            let ghost valued = parsing(*self, *scanner, *chunk, *heap);
            self.consume(source, TokenType::Semicolon, "Expect ';' after expression.", scanner);
            proof {
                let done = parsing(*self, *scanner, *chunk, *heap);
                lemma_read(valued, done.reading(), source@);
                lemma_carried(begun, valued, done, source@);
            }
        }
    }

    /// Leaves panic mode and skips to where the next statement starts.
    pub fn synchronize(&mut self, source: &String, scanner: &mut Scanner)
        ensures
            reading(*final(self), *final(scanner)) == reading(
                *old(self),
                *old(scanner),
            ).synchronize(source@),
            reading(*old(self), *old(scanner)).settled(
                reading(*final(self), *final(scanner)),
                source@,
            ),
    {
        self.panic_mode = false;
        let ghost calm = reading(*self, *scanner);
        proof {
            lemma_synchronize(source@, calm);
        }
        loop
            invariant_except_break
                calm.skip_to_statement(source@) == reading(*self, *scanner).skip_to_statement(
                    source@,
                ),
            ensures
                calm.skip_to_statement(source@) == reading(*self, *scanner),
            decreases reading(*self, *scanner).measure(source@),
        {
            if self.current.token_type == TokenType::EOF {
                break;
            }
            if self.previous.token_type == TokenType::Semicolon {
                break;
            }
            match self.current.token_type {
                TokenType::Class
                | TokenType::Fun
                | TokenType::Var
                | TokenType::For
                | TokenType::If
                | TokenType::While
                | TokenType::Print
                | TokenType::Return => {
                    break;
                },
                _ => (),
            }
            self.advance(source, scanner);
        }
    }

    /// Parses what follows `var`: the name, an initializer if there is one,
    /// and the semicolon; then defines the variable.
    pub fn var_declaration(
        &mut self,
        source: &String,
        chunk: &mut Chunk,
        scanner: &mut Scanner,
        heap: &mut Heap,
    )
        ensures
            ({
                let before = parsing(*old(self), *old(scanner), *old(chunk), *old(heap));
                let after = parsing(*final(self), *final(scanner), *final(chunk), *final(heap));
                &&& after == before.var_declaration(source@)
                &&& before.carried(after, source@)
                &&& before.grown(after, source@)
            }),
    {
        let ghost begun = parsing(*self, *scanner, *chunk, *heap);
        proof {
            reveal(Parsing::var_declaration);
        }
        let global = self.parse_variable(source, chunk, scanner, heap);
        let ghost named = parsing(*self, *scanner, *chunk, *heap);
        if self.match_token(TokenType::Equal, source, scanner) {
            let ghost taken = parsing(*self, *scanner, *chunk, *heap);
            proof {
                lemma_read(named, taken.reading(), source@);
            }
            self.expression(source, chunk, scanner, heap, false);
            proof {
                lemma_carried(named, taken, parsing(*self, *scanner, *chunk, *heap), source@);
            }
        } else {
            let ghost bare = parsing(*self, *scanner, *chunk, *heap);
            self.emit_byte(chunk, (Op::Nil, line(self.previous.line)));
            proof {
                lemma_emitted(bare, parsing(*self, *scanner, *chunk, *heap).emitting(), source@);
            }
        }
        let ghost valued = parsing(*self, *scanner, *chunk, *heap);
        proof {
            lemma_carried(begun, named, valued, source@);
        }
        self.consume(
            source,
            TokenType::Semicolon,
            "Expect ';' after variable declaration.",
            scanner,
        );
        let ghost closed = parsing(*self, *scanner, *chunk, *heap);
        proof {
            lemma_read(valued, closed.reading(), source@);
            lemma_carried(begun, valued, closed, source@);
        }
        self.define_variable(chunk, global);
        proof {
            let done = parsing(*self, *scanner, *chunk, *heap);
            lemma_emitted(closed, done.emitting(), source@);
            lemma_carried(begun, closed, done, source@);
            assert(named.parser.same_scope(closed.parser));
            if begun.orderly(source@) {
                if begun.parser.scope_depth != 0 {
                    assert(named.parser.locals.drop_last() == begun.parser.locals);
                    assert(forall|i: int|
                        0 <= i < begun.parser.locals.len() ==> named.parser.locals[i]
                            == begun.parser.locals[i]);
                }
                assert(begun.grown(done, source@));
            }
        }
    }

    /// Emits the instruction of the literal `false`, `nil` or `true` that is
    /// the previous token.
    pub fn literal(
        &mut self,
        _source: &String,
        chunk: &mut Chunk,
        _scanner: &mut Scanner,
        _heap: &mut Heap,
        _can_assign: bool,
    )
        ensures
            emitting(*final(self), *final(chunk)) == emitting(*old(self), *old(chunk)).literal(),
            emitting(*old(self), *old(chunk)).steady(emitting(*final(self), *final(chunk)), None),
            *final(_scanner) == *old(_scanner),
            *final(_heap) == *old(_heap),
    {
        match self.previous.token_type {
            TokenType::False => self.emit_byte(chunk, (Op::False, line(self.previous.line))),
            TokenType::Nil => self.emit_byte(chunk, (Op::Nil, line(self.previous.line))),
            TokenType::True => self.emit_byte(chunk, (Op::True, line(self.previous.line))),
            _ => (),
        }
    }

    /// Makes the string literal that is the previous token a string on the
    /// heap and a constant.
    pub fn string(
        &mut self,
        source: &String,
        chunk: &mut Chunk,
        _scanner: &mut Scanner,
        heap: &mut Heap,
        _can_assign: bool,
    )
        ensures
            writing(*final(self), *final(chunk), *final(heap)) == writing(
                *old(self),
                *old(chunk),
                *old(heap),
            ).string(source@),
            writing(*old(self), *old(chunk), *old(heap)).kept(
                writing(*final(self), *final(chunk), *final(heap)),
            ),
            *final(_scanner) == *old(_scanner),
    {
        let text = inner_text(source, &self.previous);
        if heap.is_full() {
            self.error_at_previous("Too many objects.");
        } else {
            let heap_id = heap.allocate(HeapData::String(text));
            self.emit_constant(chunk, Value::Obj(heap_id), line(self.previous.line));
        }
    }

    /// Parses an expression.
    pub fn expression(
        &mut self,
        source: &String,
        chunk: &mut Chunk,
        scanner: &mut Scanner,
        heap: &mut Heap,
        _can_assign: bool,
    )
        ensures
            ({
                let before = parsing(*old(self), *old(scanner), *old(chunk), *old(heap));
                let after = parsing(*final(self), *final(scanner), *final(chunk), *final(heap));
                &&& after == before.expression(source@)
                &&& before.carried(after, source@)
                &&& before.parser.same_scope(after.parser)
                &&& (before.parser.current.token_type != TokenType::EOF
                    ==> after.measure(source@) < before.measure(source@))
            }),
        decreases
            parsing(*old(self), *old(scanner), *old(chunk), *old(heap)).measure(source@),
            2nat,
    {
        proof {
            reveal(Parsing::expression);
            reveal(Parsing::parse_precedence);
            reveal(Parsing::prefix);
            reveal(Parsing::infix_loop);
        }
        self.parse_precedence(source, chunk, Precedence::Assignment, scanner, heap);
    }

    /// Parses the variable that the previous token names.
    pub fn variable(
        &mut self,
        source: &String,
        chunk: &mut Chunk,
        scanner: &mut Scanner,
        heap: &mut Heap,
        can_assign: bool,
    )
        ensures
            ({
                let before = parsing(*old(self), *old(scanner), *old(chunk), *old(heap));
                let after = parsing(*final(self), *final(scanner), *final(chunk), *final(heap));
                &&& after == before.variable(source@, can_assign)
                &&& before.carried(after, source@)
                &&& before.parser.same_scope(after.parser)
            }),
        decreases
            parsing(*old(self), *old(scanner), *old(chunk), *old(heap)).measure(source@),
            4nat,
    {
        proof {
            reveal(Parsing::variable);
            reveal(Parsing::named_variable);
        }
        self.named_variable(source, chunk, scanner, heap, can_assign);
    }

    /// Makes the value of the number literal that is the previous token a
    /// constant.
    pub fn number(
        &mut self,
        _source: &String,
        chunk: &mut Chunk,
        _scanner: &mut Scanner,
        _heap: &mut Heap,
        _can_assign: bool,
    )
        ensures
            emitting(*final(self), *final(chunk)) == emitting(*old(self), *old(chunk)).number(),
            emitting(*old(self), *old(chunk)).steady(emitting(*final(self), *final(chunk)), None),
            *final(_scanner) == *old(_scanner),
            *final(_heap) == *old(_heap),
    {
        match self.previous_number {
            Some(bits) => {
                self.emit_constant(chunk, Value::Number(bits), line(self.previous.line));
            },
            None => {
                self.error_at_previous("Number literal without a value.");
            },
        }
    }

    /// Parses what follows `(`: an expression and `)`.
    pub fn grouping(
        &mut self,
        source: &String,
        chunk: &mut Chunk,
        scanner: &mut Scanner,
        heap: &mut Heap,
        _can_assign: bool,
    )
        ensures
            ({
                let before = parsing(*old(self), *old(scanner), *old(chunk), *old(heap));
                let after = parsing(*final(self), *final(scanner), *final(chunk), *final(heap));
                &&& after == before.grouping(source@)
                &&& before.carried(after, source@)
                &&& before.parser.same_scope(after.parser)
            }),
        decreases
            parsing(*old(self), *old(scanner), *old(chunk), *old(heap)).measure(source@),
            3nat,
    {
        let ghost begun = parsing(*self, *scanner, *chunk, *heap);
        proof {
            reveal(Parsing::grouping);
            reveal(Parsing::expression);
        }
        self.expression(source, chunk, scanner, heap, false);
        let ghost valued = parsing(*self, *scanner, *chunk, *heap);
        self.consume(source, TokenType::RightParen, "Expect ')' after expression.", scanner);
        proof {
            let done = parsing(*self, *scanner, *chunk, *heap);
            lemma_read(valued, done.reading(), source@);
            lemma_carried(begun, valued, done, source@);
        }
    }

    /// Parses the operand of the unary operator that is the previous token,
    /// then emits the operator.
    pub fn unary(
        &mut self,
        source: &String,
        chunk: &mut Chunk,
        scanner: &mut Scanner,
        heap: &mut Heap,
        _can_assign: bool,
    )
        ensures
            ({
                let before = parsing(*old(self), *old(scanner), *old(chunk), *old(heap));
                let after = parsing(*final(self), *final(scanner), *final(chunk), *final(heap));
                &&& after == before.unary(source@)
                &&& before.carried(after, source@)
                &&& before.parser.same_scope(after.parser)
            }),
        decreases
            parsing(*old(self), *old(scanner), *old(chunk), *old(heap)).measure(source@),
            2nat,
    {
        let ghost begun = parsing(*self, *scanner, *chunk, *heap);
        proof {
            reveal(Parsing::unary);
            reveal(Parsing::parse_precedence);
        }
        let operator_type = self.previous.token_type;
        self.parse_precedence(source, chunk, Precedence::Unary, scanner, heap);
        let ghost operand = parsing(*self, *scanner, *chunk, *heap);
        match operator_type {
            TokenType::Bang => self.emit_byte(chunk, (Op::Not, line(self.previous.line))),
            TokenType::Minus => self.emit_byte(chunk, (Op::Negate, line(self.previous.line))),
            _ => (),
        }
        proof {
            let done = parsing(*self, *scanner, *chunk, *heap);
            lemma_emitted(operand, done.emitting(), source@);
            lemma_carried(begun, operand, done, source@);
        }
    }

    /// Parses the right operand of the binary operator that is the previous
    /// token, then emits the operator.
    pub fn binary(
        &mut self,
        source: &String,
        chunk: &mut Chunk,
        scanner: &mut Scanner,
        heap: &mut Heap,
        _can_assign: bool,
    )
        ensures
            ({
                let before = parsing(*old(self), *old(scanner), *old(chunk), *old(heap));
                let after = parsing(*final(self), *final(scanner), *final(chunk), *final(heap));
                &&& after == before.binary(source@)
                &&& before.carried(after, source@)
                &&& before.parser.same_scope(after.parser)
            }),
        decreases
            parsing(*old(self), *old(scanner), *old(chunk), *old(heap)).measure(source@),
            2nat,
    {
        let ghost begun = parsing(*self, *scanner, *chunk, *heap);
        proof {
            reveal(Parsing::binary);
            reveal(Parsing::parse_precedence);
        }
        let operator_type = self.previous.token_type;
        let rule = self.get_rule(&operator_type);
        self.parse_precedence(source, chunk, rule.precedence.increase(), scanner, heap);
        let ghost operand = parsing(*self, *scanner, *chunk, *heap);
        self.emit_operator(chunk, operator_type);
        proof {
            let done = parsing(*self, *scanner, *chunk, *heap);
            lemma_emitted(operand, done.emitting(), source@);
            lemma_carried(begun, operand, done, source@);
        }
    }

    /// Emits the instructions of a binary operator.
    fn emit_operator(&mut self, chunk: &mut Chunk, operator_type: TokenType)
        ensures
            emitting(*final(self), *final(chunk)) == emitting(*old(self), *old(chunk)).emit_all(
                binary_code(operator_type),
            ),
            emitting(*old(self), *old(chunk)).steady(emitting(*final(self), *final(chunk)), None),
            final(self)@ == old(self)@,
    {
        let ghost before = emitting(*self, *chunk);
        proof {
            reveal_with_fuel(Emitting::emit_all, 3);
            let ops = binary_code(operator_type);
            if ops.len() == 1 {
                assert(ops.drop_last() =~= Seq::<Op>::empty());
            } else if ops.len() == 2 {
                assert(ops.drop_last() =~= seq![ops[0]]);
                assert(seq![ops[0]].drop_last() =~= Seq::<Op>::empty());
            }
        }
        match operator_type {
            TokenType::BangEqual => {
                self.emit_bytes(
                    chunk,
                    (Op::Equal, line(self.previous.line)),
                    (Op::Not, line(self.previous.line)),
                );
            },
            TokenType::EqualEqual => self.emit_byte(chunk, (Op::Equal, line(self.previous.line))),
            TokenType::Greater => self.emit_byte(chunk, (Op::Greater, line(self.previous.line))),
            TokenType::GreaterEqual => {
                self.emit_bytes(
                    chunk,
                    (Op::Less, line(self.previous.line)),
                    (Op::Not, line(self.previous.line)),
                );
            },
            TokenType::Less => self.emit_byte(chunk, (Op::Less, line(self.previous.line))),
            TokenType::LessEqual => {
                self.emit_bytes(
                    chunk,
                    (Op::Greater, line(self.previous.line)),
                    (Op::Not, line(self.previous.line)),
                );
            },
            TokenType::Plus => self.emit_byte(chunk, (Op::Add, line(self.previous.line))),
            TokenType::Minus => self.emit_byte(chunk, (Op::Subtract, line(self.previous.line))),
            TokenType::Star => self.emit_byte(chunk, (Op::Multiply, line(self.previous.line))),
            TokenType::Slash => self.emit_byte(chunk, (Op::Divide, line(self.previous.line))),
            _ => (),
        }
    }

    /// The parse rule of a kind of token.
    pub fn get_rule(&self, token_type: &TokenType) -> (found: ParseRule)
        ensures
            found == rule(*token_type),
    {
        let lowest = Precedence::Lowest;
        match token_type {
            TokenType::LeftParen => ParseRule {
                prefix: Some(ParseFn::Grouping),
                infix: None,
                precedence: lowest,
            },
            TokenType::RightParen => ParseRule { prefix: None, infix: None, precedence: lowest },
            TokenType::LeftBrace => ParseRule { prefix: None, infix: None, precedence: lowest },
            TokenType::RightBrace => ParseRule { prefix: None, infix: None, precedence: lowest },
            TokenType::Comma => ParseRule { prefix: None, infix: None, precedence: lowest },
            TokenType::Dot => ParseRule { prefix: None, infix: None, precedence: lowest },
            TokenType::Minus => ParseRule {
                prefix: Some(ParseFn::Unary),
                infix: Some(ParseFn::Binary),
                precedence: Precedence::Term,
            },
            TokenType::Plus => ParseRule {
                prefix: None,
                infix: Some(ParseFn::Binary),
                precedence: Precedence::Term,
            },
            TokenType::Semicolon => ParseRule { prefix: None, infix: None, precedence: lowest },
            TokenType::Slash => ParseRule {
                prefix: None,
                infix: Some(ParseFn::Binary),
                precedence: Precedence::Factor,
            },
            TokenType::Star => ParseRule {
                prefix: None,
                infix: Some(ParseFn::Binary),
                precedence: Precedence::Factor,
            },
            TokenType::Bang => ParseRule {
                prefix: Some(ParseFn::Unary),
                infix: None,
                precedence: lowest,
            },
            TokenType::BangEqual => ParseRule {
                prefix: None,
                infix: Some(ParseFn::Binary),
                precedence: Precedence::Equality,
            },
            TokenType::Equal => ParseRule { prefix: None, infix: None, precedence: lowest },
            TokenType::EqualEqual => ParseRule {
                prefix: None,
                infix: Some(ParseFn::Binary),
                precedence: Precedence::Equality,
            },
            TokenType::Greater => ParseRule {
                prefix: None,
                infix: Some(ParseFn::Binary),
                precedence: Precedence::Comparison,
            },
            TokenType::GreaterEqual => ParseRule {
                prefix: None,
                infix: Some(ParseFn::Binary),
                precedence: Precedence::Comparison,
            },
            TokenType::Less => ParseRule {
                prefix: None,
                infix: Some(ParseFn::Binary),
                precedence: Precedence::Comparison,
            },
            TokenType::LessEqual => ParseRule {
                prefix: None,
                infix: Some(ParseFn::Binary),
                precedence: Precedence::Comparison,
            },
            TokenType::Identifier => ParseRule {
                prefix: Some(ParseFn::Variable),
                infix: None,
                precedence: lowest,
            },
            TokenType::String => ParseRule {
                prefix: Some(ParseFn::String),
                infix: None,
                precedence: lowest,
            },
            TokenType::Number => ParseRule {
                prefix: Some(ParseFn::Number),
                infix: None,
                precedence: lowest,
            },
            TokenType::And => ParseRule { prefix: None, infix: None, precedence: lowest },
            TokenType::Class => ParseRule { prefix: None, infix: None, precedence: lowest },
            TokenType::Else => ParseRule { prefix: None, infix: None, precedence: lowest },
            TokenType::False => ParseRule {
                prefix: Some(ParseFn::Literal),
                infix: None,
                precedence: lowest,
            },
            TokenType::For => ParseRule { prefix: None, infix: None, precedence: lowest },
            TokenType::Fun => ParseRule { prefix: None, infix: None, precedence: lowest },
            TokenType::If => ParseRule { prefix: None, infix: None, precedence: lowest },
            TokenType::Nil => ParseRule {
                prefix: Some(ParseFn::Literal),
                infix: None,
                precedence: lowest,
            },
            TokenType::Or => ParseRule { prefix: None, infix: None, precedence: lowest },
            TokenType::Print => ParseRule { prefix: None, infix: None, precedence: lowest },
            TokenType::Return => ParseRule { prefix: None, infix: None, precedence: lowest },
            TokenType::Super => ParseRule { prefix: None, infix: None, precedence: lowest },
            TokenType::This => ParseRule { prefix: None, infix: None, precedence: lowest },
            TokenType::True => ParseRule {
                prefix: Some(ParseFn::Literal),
                infix: None,
                precedence: lowest,
            },
            TokenType::Var => ParseRule { prefix: None, infix: None, precedence: lowest },
            TokenType::While => ParseRule { prefix: None, infix: None, precedence: lowest },
            TokenType::Error => ParseRule { prefix: None, infix: None, precedence: lowest },
            TokenType::EOF => ParseRule { prefix: None, infix: None, precedence: lowest },
        }
    }

    /// Parses the start of an expression by the given function.
    fn prefix(
        &mut self,
        source: &String,
        chunk: &mut Chunk,
        scanner: &mut Scanner,
        heap: &mut Heap,
        kind: ParseFn,
        can_assign: bool,
    )
        ensures
            ({
                let before = parsing(*old(self), *old(scanner), *old(chunk), *old(heap));
                let after = parsing(*final(self), *final(scanner), *final(chunk), *final(heap));
                &&& after == before.prefix(source@, kind, can_assign)
                &&& before.carried(after, source@)
                &&& before.parser.same_scope(after.parser)
            }),
        decreases
            parsing(*old(self), *old(scanner), *old(chunk), *old(heap)).measure(source@),
            5nat,
    {
        let ghost begun = parsing(*self, *scanner, *chunk, *heap);
        proof {
            reveal(Parsing::prefix);
            reveal(Parsing::grouping);
            reveal(Parsing::unary);
            reveal(Parsing::variable);
        }
        match kind {
            ParseFn::Grouping => self.grouping(source, chunk, scanner, heap, can_assign),
            ParseFn::Unary => self.unary(source, chunk, scanner, heap, can_assign),
            ParseFn::Variable => self.variable(source, chunk, scanner, heap, can_assign),
            ParseFn::String => {
                self.string(source, chunk, scanner, heap, can_assign);
                proof {
                    lemma_written(begun, parsing(*self, *scanner, *chunk, *heap).writing(), source@);
                }
            },
            ParseFn::Number => {
                self.number(source, chunk, scanner, heap, can_assign);
                proof {
                    lemma_emitted(begun, parsing(*self, *scanner, *chunk, *heap).emitting(), source@);
                }
            },
            ParseFn::Literal => {
                self.literal(source, chunk, scanner, heap, can_assign);
                proof {
                    lemma_emitted(begun, parsing(*self, *scanner, *chunk, *heap).emitting(), source@);
                }
            },
            ParseFn::Binary => {},
        }
    }

    /// Parses an expression whose operators bind at least as tightly as
    /// `precedence`. With the lowest level the parser would not stop at the end
    /// of the source: that level is left out.
    #[verifier::rlimit(50)]
    pub fn parse_precedence(
        &mut self,
        source: &String,
        chunk: &mut Chunk,
        precedence: Precedence,
        scanner: &mut Scanner,
        heap: &mut Heap,
    )
        requires
            precedence != Precedence::Lowest,
        ensures
            ({
                let before = parsing(*old(self), *old(scanner), *old(chunk), *old(heap));
                let after = parsing(*final(self), *final(scanner), *final(chunk), *final(heap));
                &&& after == before.parse_precedence(source@, precedence)
                &&& before.carried(after, source@)
                &&& before.parser.same_scope(after.parser)
                &&& (before.parser.current.token_type != TokenType::EOF
                    ==> after.measure(source@) < before.measure(source@))
            }),
        decreases
            parsing(*old(self), *old(scanner), *old(chunk), *old(heap)).measure(source@),
            1nat,
    {
        let ghost begun = parsing(*self, *scanner, *chunk, *heap);
        proof {
            reveal(Parsing::parse_precedence);
        }
        self.advance(source, scanner);
        let ghost advanced = parsing(*self, *scanner, *chunk, *heap);
        proof {
            lemma_read(begun, advanced.reading(), source@);
        }
        let can_assign = precedence.level() <= Precedence::Assignment.level();
        match self.get_rule(&self.previous.token_type).prefix {
            Some(kind) => self.prefix(source, chunk, scanner, heap, kind, can_assign),
            None => {
                self.error_at_previous("Expect expression.");
                proof {
                    assert(advanced.carried(parsing(*self, *scanner, *chunk, *heap), source@));
                }
            },
        }
        let ghost parsed = parsing(*self, *scanner, *chunk, *heap);
        proof {
            lemma_carried(begun, advanced, parsed, source@);
        }

        loop
            invariant_except_break
                parsed.infix_loop(source@, precedence) == parsing(
                    *self,
                    *scanner,
                    *chunk,
                    *heap,
                ).infix_loop(source@, precedence),
            invariant
                precedence != Precedence::Lowest,
                begun == parsing(*old(self), *old(scanner), *old(chunk), *old(heap)),
                begun.carried(parsing(*self, *scanner, *chunk, *heap), source@),
                begun.parser.same_scope(self@),
                begun.parser.current.token_type != TokenType::EOF ==> parsing(
                    *self,
                    *scanner,
                    *chunk,
                    *heap,
                ).measure(source@) < begun.measure(source@),
            ensures
                parsed.infix_loop(source@, precedence) == parsing(*self, *scanner, *chunk, *heap),
            decreases parsing(*self, *scanner, *chunk, *heap).measure(source@),
        {
            let ghost here = parsing(*self, *scanner, *chunk, *heap);
            proof {
                reveal(Parsing::infix_loop);
                reveal(Parsing::binary);
            }
            if !(precedence.level() <= self.get_rule(&self.current.token_type).precedence.level()) {
                break;
            }
            self.advance(source, scanner);
            let ghost taken = parsing(*self, *scanner, *chunk, *heap);
            proof {
                lemma_read(here, taken.reading(), source@);
                lemma_carried(begun, here, taken, source@);
            }
            let infix_rule = self.get_rule(&self.previous.token_type).infix;
            match infix_rule {
                Some(ParseFn::Binary) => {
                    self.binary(source, chunk, scanner, heap, false);
                    proof {
                        lemma_carried(begun, taken, parsing(*self, *scanner, *chunk, *heap), source@);
                    }
                },
                _ => (),
            }
        }
        let ghost operated = parsing(*self, *scanner, *chunk, *heap);
        proof {
            lemma_parse_precedence(begun, source@, precedence);
        }
        if can_assign && self.match_token(TokenType::Equal, source, scanner) {
            let ghost passed = parsing(*self, *scanner, *chunk, *heap);
            proof {
                lemma_read(operated, passed.reading(), source@);
            }
            self.error_at_previous("Invalid assignment target.");
            proof {
                let done = parsing(*self, *scanner, *chunk, *heap);
                assert(passed.carried(done, source@));
                lemma_carried(operated, passed, done, source@);
                lemma_carried(begun, operated, done, source@);
            }
        }
    }
}

} // verus!
