use lox::chunk::{Chunk, Op};
use lox::compile::{lexeme_text, Parser};
use lox::object::Heap;
use lox::parsing::{ParseFn, Precedence};
use lox::scanner::{number_literals, Scanner, Token, TokenType};
use lox::value::Value;

fn numbers_of(source: &str) -> Vec<u64> {
    number_literals(&source.to_string())
        .iter()
        .map(|text| text.parse::<f64>().unwrap().to_bits())
        .collect()
}

struct Compiled {
    ok: bool,
    chunk: Chunk,
    heap: Heap,
    errors: String,
}

fn compile(source: &str) -> Compiled {
    let mut parser = Parser::new();
    let mut chunk = Chunk::new();
    let mut heap = Heap::new();
    let ok = parser.compile(source.to_string(), numbers_of(source), &mut chunk, &mut heap);
    assert_eq!(ok, !parser.had_error());
    let errors = parser.error_lines(&source.to_string());
    assert_eq!(ok, errors.is_empty());
    Compiled { ok, chunk, heap, errors }
}

fn ops(source: &str) -> Vec<Op> {
    let compiled = compile(source);
    assert!(compiled.ok, "{}", compiled.errors);
    compiled.chunk.code.iter().map(|instruction| instruction.0).collect()
}

fn errors(source: &str) -> String {
    let compiled = compile(source);
    assert!(!compiled.ok);
    compiled.errors
}

fn number(value: f64) -> Value {
    Value::Number(value.to_bits())
}

fn text_at(heap: &Heap, value: Value) -> String {
    match value {
        Value::Obj(id) => heap.get(&id).unwrap().as_string().clone(),
        _ => panic!("no object"),
    }
}

#[test]
fn empty_source_compiles_to_nothing() {
    let compiled = compile("");
    assert!(compiled.ok);
    assert!(compiled.chunk.code.is_empty());
    assert!(compiled.chunk.constants.is_empty());
}

#[test]
fn factor_binds_tighter_than_term() {
    let compiled = compile("print 1 + 2 * 3;");
    assert!(compiled.ok);
    assert_eq!(
        compiled.chunk.code.iter().map(|i| i.0).collect::<Vec<Op>>(),
        vec![
            Op::Constant(0),
            Op::Constant(1),
            Op::Constant(2),
            Op::Multiply,
            Op::Add,
            Op::Print,
        ]
    );
    assert_eq!(compiled.chunk.constants, vec![number(1.0), number(2.0), number(3.0)]);
}

#[test]
fn binary_operators_are_left_associative() {
    assert_eq!(
        ops("1 - 2 - 3;"),
        vec![Op::Constant(0), Op::Constant(1), Op::Subtract, Op::Constant(2), Op::Subtract]
    );
    assert_eq!(
        ops("8 / 4 / 2;"),
        vec![Op::Constant(0), Op::Constant(1), Op::Divide, Op::Constant(2), Op::Divide]
    );
}

#[test]
fn grouping_overrides_precedence() {
    assert_eq!(
        ops("(1 + 2) * 3;"),
        vec![Op::Constant(0), Op::Constant(1), Op::Add, Op::Constant(2), Op::Multiply]
    );
}

#[test]
fn comparison_binds_tighter_than_equality_and_looser_than_term() {
    assert_eq!(
        ops("1 + 2 < 3 == true;"),
        vec![
            Op::Constant(0),
            Op::Constant(1),
            Op::Add,
            Op::Constant(2),
            Op::Less,
            Op::True,
            Op::Equal,
        ]
    );
}

#[test]
fn each_binary_operator_emits_its_instructions() {
    let operand = |code: Vec<Op>| {
        let mut all = vec![Op::Constant(0), Op::Constant(1)];
        all.extend(code);
        all
    };
    assert_eq!(ops("1 != 2;"), operand(vec![Op::Equal, Op::Not]));
    assert_eq!(ops("1 == 2;"), operand(vec![Op::Equal]));
    assert_eq!(ops("1 > 2;"), operand(vec![Op::Greater]));
    assert_eq!(ops("1 >= 2;"), operand(vec![Op::Less, Op::Not]));
    assert_eq!(ops("1 < 2;"), operand(vec![Op::Less]));
    assert_eq!(ops("1 <= 2;"), operand(vec![Op::Greater, Op::Not]));
    assert_eq!(ops("1 + 2;"), operand(vec![Op::Add]));
    assert_eq!(ops("1 - 2;"), operand(vec![Op::Subtract]));
    assert_eq!(ops("1 * 2;"), operand(vec![Op::Multiply]));
    assert_eq!(ops("1 / 2;"), operand(vec![Op::Divide]));
}

#[test]
fn unary_operators_follow_their_operand() {
    assert_eq!(ops("-1;"), vec![Op::Constant(0), Op::Negate]);
    assert_eq!(ops("!true;"), vec![Op::True, Op::Not]);
    assert_eq!(ops("!!false;"), vec![Op::False, Op::Not, Op::Not]);
    assert_eq!(ops("--1;"), vec![Op::Constant(0), Op::Negate, Op::Negate]);
    assert_eq!(
        ops("-1 + 2;"),
        vec![Op::Constant(0), Op::Negate, Op::Constant(1), Op::Add]
    );
    assert_eq!(
        ops("-1 * 2;"),
        vec![Op::Constant(0), Op::Negate, Op::Constant(1), Op::Multiply]
    );
}

#[test]
fn literals_emit_their_instruction() {
    assert_eq!(ops("nil;"), vec![Op::Nil]);
    assert_eq!(ops("true;"), vec![Op::True]);
    assert_eq!(ops("false;"), vec![Op::False]);
}

#[test]
fn expression_statement_emits_no_pop() {
    assert_eq!(ops("1; 2;"), vec![Op::Constant(0), Op::Constant(1)]);
}

#[test]
fn number_constants_take_the_given_values_in_order() {
    let source = "print 1.5; print 20; \"3\"; print 0.25;";
    let compiled = compile(source);
    assert!(compiled.ok);
    assert_eq!(compiled.chunk.constants[0], number(1.5));
    assert_eq!(compiled.chunk.constants[1], number(20.0));
    assert_eq!(text_at(&compiled.heap, compiled.chunk.constants[2]), "3");
    assert_eq!(compiled.chunk.constants[3], number(0.25));
}

#[test]
fn string_literal_becomes_heap_string_without_quotes() {
    let compiled = compile("print \"hi there\"; \"\";");
    assert!(compiled.ok);
    assert_eq!(
        compiled.chunk.code.iter().map(|i| i.0).collect::<Vec<Op>>(),
        vec![Op::Constant(0), Op::Print, Op::Constant(1)]
    );
    assert_eq!(compiled.chunk.constants, vec![Value::Obj(0), Value::Obj(1)]);
    assert_eq!(text_at(&compiled.heap, Value::Obj(0)), "hi there");
    assert_eq!(text_at(&compiled.heap, Value::Obj(1)), "");
}

#[test]
fn global_declaration_names_the_variable_by_constant() {
    let compiled = compile("var a = 1;");
    assert!(compiled.ok);
    assert_eq!(
        compiled.chunk.code.iter().map(|i| i.0).collect::<Vec<Op>>(),
        vec![Op::Constant(1), Op::DefineGlobal(0)]
    );
    assert_eq!(text_at(&compiled.heap, compiled.chunk.constants[0]), "a");
    assert_eq!(compiled.chunk.constants[1], number(1.0));
}

#[test]
fn global_without_initializer_is_nil() {
    assert_eq!(ops("var a;"), vec![Op::Nil, Op::DefineGlobal(0)]);
}

#[test]
fn global_is_read_and_assigned_by_name() {
    let compiled = compile("print a; a = 2;");
    assert!(compiled.ok);
    assert_eq!(
        compiled.chunk.code.iter().map(|i| i.0).collect::<Vec<Op>>(),
        vec![Op::GetGlobal(0), Op::Print, Op::Constant(2), Op::SetGlobal(1)]
    );
    assert_eq!(text_at(&compiled.heap, compiled.chunk.constants[0]), "a");
    assert_eq!(text_at(&compiled.heap, compiled.chunk.constants[1]), "a");
    assert_eq!(compiled.chunk.constants[2], number(2.0));
}

#[test]
fn local_is_read_and_assigned_by_slot() {
    assert_eq!(
        ops("{ var a = 1; var b = 2; print a; b = a; }"),
        vec![
            Op::Constant(0),
            Op::Constant(1),
            Op::GetLocal(0),
            Op::Print,
            Op::GetLocal(0),
            Op::SetLocal(1),
            Op::Pop,
            Op::Pop,
        ]
    );
}

#[test]
fn local_name_still_becomes_a_constant() {
    let compiled = compile("{ var a = 1; print a; }");
    assert!(compiled.ok);
    assert_eq!(compiled.chunk.constants.len(), 2);
    assert_eq!(compiled.chunk.constants[0], number(1.0));
    assert_eq!(text_at(&compiled.heap, compiled.chunk.constants[1]), "a");
}

#[test]
fn block_pops_its_locals_on_exit() {
    assert_eq!(ops("{ }"), vec![]);
    assert_eq!(ops("{ var a; }"), vec![Op::Nil, Op::Pop]);
    assert_eq!(
        ops("{ var a; { var b; var c; } var d; }"),
        vec![Op::Nil, Op::Nil, Op::Nil, Op::Pop, Op::Pop, Op::Nil, Op::Pop, Op::Pop]
    );
}

#[test]
fn inner_local_shadows_outer_one() {
    assert_eq!(
        ops("{ var a = 1; { var a = 2; print a; } print a; }"),
        vec![
            Op::Constant(0),
            Op::Constant(1),
            Op::GetLocal(1),
            Op::Print,
            Op::Pop,
            Op::GetLocal(0),
            Op::Print,
            Op::Pop,
        ]
    );
}

#[test]
fn local_forgotten_after_its_block_is_a_global_again() {
    assert_eq!(
        ops("{ var a = 1; } print a;"),
        vec![Op::Constant(0), Op::Pop, Op::GetGlobal(1), Op::Print]
    );
}

#[test]
fn same_name_in_nested_scope_is_no_collision() {
    assert!(compile("{ var a = 1; { var a = 2; } }").ok);
    assert!(compile("var a = 1; var a = 2;").ok);
}

#[test]
fn instructions_carry_the_line_of_their_token() {
    let compiled = compile("print 1;\nprint\n2\n;\n\nvar a = 3;");
    assert!(compiled.ok);
    let lines: Vec<usize> = compiled.chunk.code.iter().map(|i| i.1.value).collect();
    assert_eq!(lines, vec![1, 1, 3, 4, 6, 6]);
}

#[test]
fn compiled_code_has_no_jumps_and_names_only_constants_it_has() {
    for source in [
        "print 1 + 2 * 3;",
        "var a = \"hi\"; var b = \" there\"; print a + b;",
        "var x = 10; { var x = 20; print x; } print x;",
        "x = 1;",
        "{ var a = 1; { var b = a; a = b; } }",
    ] {
        let compiled = compile(source);
        assert!(compiled.ok);
        for (op, _) in &compiled.chunk.code {
            match op {
                Op::Jump(_) | Op::JumpIfFalse(_) | Op::Loop(_) => panic!("jump in {}", source),
                Op::Constant(k) | Op::GetGlobal(k) | Op::DefineGlobal(k) | Op::SetGlobal(k) => {
                    assert!(*k < compiled.chunk.constants.len())
                }
                _ => {}
            }
        }
        for value in &compiled.chunk.constants {
            if let Value::Obj(id) = value {
                assert!(compiled.heap.get(id).is_some());
            }
        }
    }
}

#[test]
fn compiler_appends_to_chunk_and_heap_it_is_given() {
    let mut heap = Heap::new();
    let kept = heap.allocate(lox::object::HeapData::String("kept".to_string()));
    let mut chunk = Chunk::new();
    chunk.add_constant(Value::Obj(kept));
    chunk.code.push((Op::Constant(0), lox::chunk::Line { value: 9 }));
    let mut parser = Parser::new();
    let source = "print \"new\";";
    assert!(parser.compile(source.to_string(), Vec::new(), &mut chunk, &mut heap));
    assert_eq!(
        chunk.code.iter().map(|i| i.0).collect::<Vec<Op>>(),
        vec![Op::Constant(0), Op::Constant(1), Op::Print]
    );
    assert_eq!(chunk.constants, vec![Value::Obj(0), Value::Obj(1)]);
    assert_eq!(text_at(&heap, Value::Obj(0)), "kept");
    assert_eq!(text_at(&heap, Value::Obj(1)), "new");
}

#[test]
fn reports_missing_semicolon_after_value() {
    assert_eq!(errors("print 1"), "[line 1] Error at end: Expect ';' after value.\n");
}

#[test]
fn reports_missing_semicolon_after_expression() {
    assert_eq!(errors("1"), "[line 1] Error at end: Expect ';' after expression.\n");
    assert_eq!(errors("1 2;"), "[line 1] Error at '2': Expect ';' after expression.\n");
}

#[test]
fn reports_missing_semicolon_after_variable_declaration() {
    assert_eq!(
        errors("var a = 1"),
        "[line 1] Error at end: Expect ';' after variable declaration.\n"
    );
}

#[test]
fn reports_missing_brace_after_block() {
    assert_eq!(errors("{ print 1;"), "[line 1] Error at end: Expect '}' after block.\n");
}

#[test]
fn reports_missing_variable_name() {
    assert_eq!(errors("var = 3;"), "[line 1] Error at '=': Expect variable name.\n");
}

#[test]
fn reports_missing_expression() {
    assert_eq!(
        errors("print ;"),
        "[line 1] Error at ';': Expect expression.\n\
         [line 1] Error at end: Expect ';' after value.\n"
    );
    assert_eq!(errors("+1;"), "[line 1] Error at '+': Expect expression.\n\
         [line 1] Error at '1': Expect ';' after expression.\n");
    assert_eq!(
        errors("1 +;"),
        "[line 1] Error at ';': Expect expression.\n\
         [line 1] Error at end: Expect ';' after expression.\n"
    );
}

#[test]
fn reports_missing_parenthesis() {
    assert_eq!(errors("(1;"), "[line 1] Error at ';': Expect ')' after expression.\n");
}

#[test]
fn reports_invalid_assignment_target() {
    let report = errors("a + b = c;");
    assert!(
        report.starts_with("[line 1] Error at '=': Invalid assignment target.\n"),
        "{}",
        report
    );
    assert!(errors("1 = 2;").starts_with("[line 1] Error at '=': Invalid assignment target.\n"));
}

#[test]
fn assignment_is_right_associative() {
    assert_eq!(
        ops("a = b = 1;"),
        vec![Op::Constant(2), Op::SetGlobal(1), Op::SetGlobal(0)]
    );
}

#[test]
fn reports_redeclared_local() {
    assert_eq!(
        errors("{\n var a = 1;\n var a = 2;\n}"),
        "[line 3] Error at '=': Variable with this name already declared in this scope.\n"
    );
}

#[test]
fn reports_local_read_in_its_own_initializer() {
    assert_eq!(
        errors("{ var a = a; }"),
        "[line 1] Error at ';': Cannot read local variable in its own initializer.\n"
    );
}

#[test]
fn reports_too_many_constants() {
    let fits = "0;".repeat(256);
    assert!(compile(&fits).ok);
    let over = "0;".repeat(257);
    assert_eq!(errors(&over), "[line 1] Error at '0': Too many constants in one chunk.\n");
}

#[test]
fn reports_number_literal_without_value() {
    let mut parser = Parser::new();
    let mut chunk = Chunk::new();
    let mut heap = Heap::new();
    let source = "print 1 + 2;".to_string();
    let ok = parser.compile(source.clone(), vec![1.0f64.to_bits()], &mut chunk, &mut heap);
    assert!(!ok);
    assert_eq!(
        parser.error_lines(&source),
        "[line 1] Error at '2': Number literal without a value.\n"
    );
}

#[test]
fn reports_error_tokens_and_goes_on() {
    assert_eq!(errors("@"), "[line 1] Error: 0\n");
    assert_eq!(errors("\"open"), "[line 1] Error: 0\n");
    assert_eq!(errors("print @ 1;\n#"), "[line 1] Error: 0\n[line 2] Error: 0\n");
}

#[test]
fn resumes_after_error_at_next_statement() {
    assert_eq!(
        errors("print +;\nprint 1;\nvar = 2;\nprint 3"),
        "[line 1] Error at '+': Expect expression.\n\
         [line 3] Error at '=': Expect variable name.\n\
         [line 4] Error at end: Expect ';' after value.\n"
    );
}

#[test]
fn skips_to_statement_keyword_after_error() {
    let compiled = compile("1 2 3 print 4;");
    assert!(!compiled.ok);
    assert_eq!(compiled.errors, "[line 1] Error at '2': Expect ';' after expression.\n");
    assert_eq!(
        compiled.chunk.code.iter().map(|i| i.0).collect::<Vec<Op>>(),
        vec![Op::Constant(0), Op::Constant(1), Op::Print]
    );
}

#[test]
fn error_once_recorded_stays() {
    let mut parser = Parser::new();
    parser.error_at_current("first");
    assert!(parser.had_error());
    let mut chunk = Chunk::new();
    let mut heap = Heap::new();
    assert!(!parser.compile("print 1;".to_string(), vec![1.0f64.to_bits()], &mut chunk, &mut heap));
    assert_eq!(parser.error_lines(&String::new()), "[line 0] Error at end: first\n");
}

#[test]
fn error_lines_name_the_token_or_the_end() {
    let source = "ab cd".to_string();
    let mut parser = Parser::new();
    let word = Token { token_type: TokenType::Identifier, start: 3, length: 2, line: 7 };
    parser.error_at(&word, "one");
    let end = Token { token_type: TokenType::EOF, start: 5, length: 0, line: 8 };
    parser.error_at(&end, "two");
    let broken = Token { token_type: TokenType::Error, start: 0, length: 20, line: 9 };
    parser.error_at(&broken, "three");
    assert_eq!(
        parser.error_lines(&source),
        "[line 7] Error at 'cd': one\n[line 8] Error at end: two\n[line 9] Error: three\n"
    );
}

#[test]
fn parser_reads_tokens_one_ahead() {
    let source = "var x;".to_string();
    let mut scanner = Scanner::new();
    let mut parser = Parser::new();
    parser.advance(&source, &mut scanner);
    assert!(parser.match_token(TokenType::Var, &source, &mut scanner));
    assert!(!parser.match_token(TokenType::Var, &source, &mut scanner));
    parser.consume(&source, TokenType::Identifier, "name", &mut scanner);
    assert!(!parser.had_error());
    parser.consume(&source, TokenType::Identifier, "name", &mut scanner);
    assert!(parser.had_error());
    assert_eq!(parser.error_lines(&source), "[line 1] Error at ';': name\n");
    assert!(parser.match_token(TokenType::Semicolon, &source, &mut scanner));
    assert!(parser.match_token(TokenType::EOF, &source, &mut scanner));
    assert!(parser.match_token(TokenType::EOF, &source, &mut scanner));
}

#[test]
fn locals_resolve_to_their_newest_slot() {
    let source = "a b a c".to_string();
    let mut scanner = Scanner::new();
    let mut parser = Parser::new();
    parser.begin_scope();
    parser.advance(&source, &mut scanner);
    for _ in 0..3 {
        parser.advance(&source, &mut scanner);
        parser.declare_variable(&source);
        parser.mark_initialized();
    }
    assert!(parser.had_error());
    parser.advance(&source, &mut scanner);
    assert_eq!(parser.resolve_local(&source), -1);
    let again = "a b a c".to_string();
    let mut scanner = Scanner::new();
    parser.advance(&again, &mut scanner);
    parser.advance(&again, &mut scanner);
    assert_eq!(parser.resolve_local(&again), 2);
    parser.advance(&again, &mut scanner);
    assert_eq!(parser.resolve_local(&again), 1);
}

#[test]
fn token_text_is_cut_from_the_source() {
    let source = "print \u{e9}t\u{e9};".to_string();
    let word = Token { token_type: TokenType::Identifier, start: 6, length: 3, line: 1 };
    assert_eq!(lexeme_text(&source, &word), "\u{e9}t\u{e9}");
    let beyond = Token { token_type: TokenType::Identifier, start: 8, length: 30, line: 1 };
    assert_eq!(lexeme_text(&source, &beyond), "\u{e9};");
    let outside = Token { token_type: TokenType::Identifier, start: 40, length: 2, line: 1 };
    assert_eq!(lexeme_text(&source, &outside), "");
}

#[test]
fn precedence_levels_are_ordered() {
    let levels = [
        Precedence::Lowest,
        Precedence::Assignment,
        Precedence::Or,
        Precedence::And,
        Precedence::Equality,
        Precedence::Comparison,
        Precedence::Term,
        Precedence::Factor,
        Precedence::Unary,
        Precedence::Call,
        Precedence::Primary,
    ];
    for (index, level) in levels.iter().enumerate() {
        assert_eq!(level.level() as usize, index);
    }
}

#[test]
fn parse_rules_follow_the_table() {
    let parser = Parser::new();
    let rule = parser.get_rule(&TokenType::Minus);
    assert_eq!(rule.prefix, Some(ParseFn::Unary));
    assert_eq!(rule.infix, Some(ParseFn::Binary));
    assert_eq!(rule.precedence, Precedence::Term);
    let rule = parser.get_rule(&TokenType::LeftParen);
    assert_eq!(rule.prefix, Some(ParseFn::Grouping));
    assert_eq!(rule.infix, None);
    assert_eq!(rule.precedence, Precedence::Lowest);
    for (kind, precedence) in [
        (TokenType::Plus, Precedence::Term),
        (TokenType::Slash, Precedence::Factor),
        (TokenType::Star, Precedence::Factor),
        (TokenType::BangEqual, Precedence::Equality),
        (TokenType::EqualEqual, Precedence::Equality),
        (TokenType::Greater, Precedence::Comparison),
        (TokenType::GreaterEqual, Precedence::Comparison),
        (TokenType::Less, Precedence::Comparison),
        (TokenType::LessEqual, Precedence::Comparison),
    ] {
        let rule = parser.get_rule(&kind);
        assert_eq!(rule.prefix, None);
        assert_eq!(rule.infix, Some(ParseFn::Binary));
        assert_eq!(rule.precedence, precedence);
    }
    for (kind, prefix) in [
        (TokenType::Bang, ParseFn::Unary),
        (TokenType::Identifier, ParseFn::Variable),
        (TokenType::String, ParseFn::String),
        (TokenType::Number, ParseFn::Number),
        (TokenType::False, ParseFn::Literal),
        (TokenType::True, ParseFn::Literal),
        (TokenType::Nil, ParseFn::Literal),
    ] {
        let rule = parser.get_rule(&kind);
        assert_eq!(rule.prefix, Some(prefix));
        assert_eq!(rule.infix, None);
        assert_eq!(rule.precedence, Precedence::Lowest);
    }
    for kind in [
        TokenType::RightParen,
        TokenType::LeftBrace,
        TokenType::RightBrace,
        TokenType::Comma,
        TokenType::Dot,
        TokenType::Semicolon,
        TokenType::Equal,
        TokenType::And,
        TokenType::Class,
        TokenType::Else,
        TokenType::For,
        TokenType::Fun,
        TokenType::If,
        TokenType::Or,
        TokenType::Print,
        TokenType::Return,
        TokenType::Super,
        TokenType::This,
        TokenType::Var,
        TokenType::While,
        TokenType::Error,
        TokenType::EOF,
    ] {
        let rule = parser.get_rule(&kind);
        assert_eq!(rule.prefix, None);
        assert_eq!(rule.infix, None);
        assert_eq!(rule.precedence, Precedence::Lowest);
    }
}
