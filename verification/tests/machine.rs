use lox::chunk::{Line, Op};
use lox::object::HeapData;
use lox::scanner::number_literals;
use lox::value::Value;
use lox::vm::{value_text, Arithmetic, InterpretResult, Reply, Request, Signal, VM};

fn numbers_of(source: &str) -> Vec<u64> {
    number_literals(&source.to_string())
        .iter()
        .map(|text| text.parse::<f64>().unwrap().to_bits())
        .collect()
}

fn answer(request: Request) -> Reply {
    match request {
        Request::Calculate(operation, left, right) => {
            let a = f64::from_bits(left);
            let b = f64::from_bits(right);
            let result = match operation {
                Arithmetic::Add => a + b,
                Arithmetic::Subtract => a - b,
                Arithmetic::Multiply => a * b,
                Arithmetic::Divide => a / b,
            };
            Reply::Number(result.to_bits())
        }
        Request::Format(bits) => Reply::Text(format!("{}", f64::from_bits(bits))),
    }
}

/// Runs the machine to its end, at most `limit` calls of `run`.
fn drive(vm: &mut VM, first: Signal, limit: usize) -> (InterpretResult, Vec<String>, String) {
    let mut output = Vec::new();
    let mut signal = first;
    for _ in 0..limit {
        signal = match signal {
            Signal::Halt(result, report) => return (result, output, report),
            Signal::Output(text) => {
                output.push(text);
                vm.run(None)
            }
            Signal::Need(request) => vm.run(Some(answer(request))),
            Signal::Continue => vm.run(None),
        };
    }
    panic!("the machine did not halt");
}

fn interpret(vm: &mut VM, source: &str) -> (InterpretResult, Vec<String>, String) {
    let first = vm.interpret(source.to_string(), numbers_of(source));
    drive(vm, first, 10_000)
}

fn output_of(source: &str) -> Vec<String> {
    let mut vm = VM::new();
    let (result, output, report) = interpret(&mut vm, source);
    assert_eq!(result, InterpretResult::Success, "{}", report);
    output
}

fn failure_of(source: &str) -> String {
    let mut vm = VM::new();
    let (result, _, report) = interpret(&mut vm, source);
    assert_eq!(result, InterpretResult::RuntimeError);
    assert!(vm.stack.is_empty());
    report
}

/// A machine that is about to run the given code, all of it on line 1.
fn machine(code: Vec<Op>, constants: Vec<Value>) -> VM {
    let mut vm = VM::new();
    vm.chunk.code = code.into_iter().map(|op| (op, Line { value: 1 })).collect();
    vm.chunk.constants = constants;
    vm
}

fn run(vm: &mut VM) -> (InterpretResult, Vec<String>, String) {
    let first = vm.run(None);
    drive(vm, first, 10_000)
}

fn number(value: f64) -> Value {
    Value::Number(value.to_bits())
}

fn string(vm: &mut VM, text: &str) -> Value {
    Value::Obj(vm.heap.allocate(HeapData::String(text.to_string())))
}

fn text_of(vm: &VM, value: Value) -> String {
    match value {
        Value::Obj(id) => vm.heap.get(&id).unwrap().as_string().clone(),
        _ => panic!("no object"),
    }
}

fn is_continue(signal: &Signal) -> bool {
    matches!(signal, Signal::Continue)
}

#[test]
fn new_machine_is_empty() {
    let vm = VM::new();
    assert_eq!(vm.ip, 0);
    assert!(vm.stack.is_empty());
    assert!(vm.chunk.code.is_empty());
    assert!(vm.chunk.constants.is_empty());
    assert!(vm.heap.get(&0).is_none());
    assert!(!vm.globals.contains_key(&"a".to_string()));
}

#[test]
fn empty_program_succeeds() {
    assert_eq!(output_of(""), Vec::<String>::new());
    assert_eq!(output_of("// nothing\n"), Vec::<String>::new());
    let mut vm = machine(vec![], vec![]);
    assert!(matches!(vm.step(None), Signal::Halt(InterpretResult::Success, _)));
    assert!(matches!(vm.run(None), Signal::Halt(InterpretResult::Success, _)));
}

#[test]
fn prints_numbers_in_shortest_form() {
    assert_eq!(output_of("print 7;"), vec!["7"]);
    assert_eq!(output_of("print 2.50;"), vec!["2.5"]);
    assert_eq!(output_of("print 0.1 + 0.2;"), vec!["0.30000000000000004"]);
    assert_eq!(output_of("print 1 / 3;"), vec!["0.3333333333333333"]);
    assert_eq!(output_of("print -0;"), vec!["-0"]);
    assert_eq!(output_of("print 1 / 0;"), vec!["inf"]);
    assert_eq!(output_of("print 0 / 0;"), vec!["NaN"]);
    assert_eq!(output_of("print 100000000000000000000;"), vec!["100000000000000000000"]);
}

#[test]
fn computes_arithmetic() {
    assert_eq!(output_of("print 1 + 2;"), vec!["3"]);
    assert_eq!(output_of("print 5 - 8;"), vec!["-3"]);
    assert_eq!(output_of("print 6 * 7;"), vec!["42"]);
    assert_eq!(output_of("print 9 / 2;"), vec!["4.5"]);
    assert_eq!(output_of("print (1 + 2) * (3 - 4) / 2;"), vec!["-1.5"]);
    assert_eq!(output_of("print -(1 + 2);"), vec!["-3"]);
    assert_eq!(output_of("print --4;"), vec!["4"]);
}

#[test]
fn adding_then_subtracting_gives_the_number_back() {
    assert_eq!(output_of("print (5 + 3) - 3;"), vec!["5"]);
    assert_eq!(output_of("print (0.5 + 0.25) - 0.25 == 0.5;"), vec!["true"]);
}

#[test]
fn compares_numbers() {
    assert_eq!(output_of("print 1 < 2; print 2 < 1; print 1 < 1;"), vec!["true", "false", "false"]);
    assert_eq!(output_of("print 1 > 2; print 2 > 1; print 1 > 1;"), vec!["false", "true", "false"]);
    assert_eq!(output_of("print 1 <= 2; print 2 <= 1; print 1 <= 1;"), vec!["true", "false", "true"]);
    assert_eq!(output_of("print 1 >= 2; print 2 >= 1; print 1 >= 1;"), vec!["false", "true", "true"]);
    assert_eq!(output_of("print -1 < 0; print -2 < -1; print 0 < -0;"), vec!["true", "true", "false"]);
}

#[test]
fn compares_for_equality() {
    assert_eq!(output_of("print 1 == 1; print 1 == 2; print 1 != 2;"), vec!["true", "false", "true"]);
    assert_eq!(output_of("print nil == nil; print nil == false;"), vec!["true", "false"]);
    assert_eq!(output_of("print true == true; print true == false;"), vec!["true", "false"]);
    assert_eq!(output_of("print \"a\" == \"a\"; print \"a\" == \"b\";"), vec!["true", "false"]);
    assert_eq!(output_of("print 1 == \"1\"; print 0 == nil; print 0 == false;"), vec![
        "false", "false", "false"
    ]);
    assert_eq!(output_of("print 0 == -0; print 0 / 0 == 0 / 0;"), vec!["true", "false"]);
}

#[test]
fn negates_truth_values() {
    assert_eq!(output_of("print !nil; print !false; print !true;"), vec!["true", "true", "false"]);
}

#[test]
fn double_negation_gives_the_boolean_back() {
    assert_eq!(output_of("print !!true; print !!false;"), vec!["true", "false"]);
    for value in [true, false] {
        let mut vm = machine(vec![Op::Not, Op::Not], vec![]);
        vm.push(Value::Bool(value));
        assert!(is_continue(&vm.step(None)));
        assert_eq!(vm.stack, vec![Value::Bool(!value)]);
        assert!(is_continue(&vm.step(None)));
        assert_eq!(vm.stack, vec![Value::Bool(value)]);
        assert_eq!(vm.ip, 2);
    }
}

#[test]
fn prints_literals_and_strings() {
    assert_eq!(output_of("print nil; print true; print false;"), vec!["nil", "true", "false"]);
    assert_eq!(output_of("print \"\"; print \"a b\";"), vec!["", "a b"]);
    assert_eq!(output_of("print \"two\nlines\";"), vec!["two\nlines"]);
}

#[test]
fn joins_strings_and_numbers() {
    assert_eq!(output_of("print \"a\" + \"b\" + \"c\";"), vec!["abc"]);
    assert_eq!(output_of("print \"n = \" + 1.5;"), vec!["n = 1.5"]);
    assert_eq!(output_of("print 2 + \" apples\";"), vec!["2 apples"]);
    assert_eq!(output_of("print 1 + 2 + \"3\";"), vec!["33"]);
    assert_eq!(output_of("print \"1\" + 2 + 3;"), vec!["123"]);
}

#[test]
fn globals_are_defined_read_and_assigned() {
    assert_eq!(output_of("var a; print a;"), vec!["nil"]);
    assert_eq!(output_of("var a = 1; a = a + 1; print a;"), vec!["2"]);
    assert_eq!(output_of("var a = 1; var a = \"again\"; print a;"), vec!["again"]);
    assert_eq!(output_of("var a = 1; var b = a; a = 2; print b; print a;"), vec!["1", "2"]);
}

#[test]
fn locals_live_in_stack_slots() {
    assert_eq!(output_of("{ var a = 1; var b = 2; print a + b; }"), vec!["3"]);
    assert_eq!(output_of("{ var a = 1; { var a = 2; print a; } print a; }"), vec!["2", "1"]);
    assert_eq!(output_of("var x = 10; { var x = 20; print x; } print x;"), vec!["20", "10"]);
}

#[test]
fn block_leaves_the_stack_as_deep_as_it_found_it() {
    let mut vm = VM::new();
    let source = "{ var a = 1; var b = \"s\"; { var c = a; print c; } print b; }";
    let (result, output, _) = interpret(&mut vm, source);
    assert_eq!(result, InterpretResult::Success);
    assert_eq!(output, vec!["1", "s"]);
    assert!(vm.stack.is_empty());
}

#[test]
fn string_used_twice_stays_alive() {
    assert_eq!(output_of("var a = \"x\"; print a + a; print a;"), vec!["xx", "x"]);
    assert_eq!(output_of("{ var a = \"x\"; print a + 1; print a; }"), vec!["x1", "x"]);
}

#[test]
fn handles_held_by_the_machine_stay_live() {
    let mut vm = VM::new();
    for source in [
        "var a = \"x\"; var b = a + a; var c = b + a + 1;",
        "print a + b + c; { var d = c + \"d\"; a = d + d; }",
        "print a; b = 1 + b;",
    ] {
        let (result, _, report) = interpret(&mut vm, source);
        assert_eq!(result, InterpretResult::Success, "{}", report);
        for value in vm.stack.iter().chain(vm.chunk.constants.iter()) {
            if let Value::Obj(id) = value {
                assert!(vm.heap.get(id).is_some());
            }
        }
        for name in ["a", "b", "c"] {
            if let Some(Value::Obj(id)) = vm.globals.get(&name.to_string()) {
                assert!(vm.heap.get(&id).is_some());
            }
        }
    }
    assert_eq!(text_of(&vm, vm.globals.get(&"a".to_string()).unwrap()), "xxx1dxxx1d");
    assert_eq!(text_of(&vm, vm.globals.get(&"b".to_string()).unwrap()), "1xx");
}

#[test]
fn globals_outlive_a_run() {
    let mut vm = VM::new();
    assert_eq!(interpret(&mut vm, "var a = 1;").0, InterpretResult::Success);
    assert_eq!(interpret(&mut vm, "print a; a = \"s\";").1, vec!["1"]);
    vm.init_vm();
    assert_eq!(interpret(&mut vm, "print a;").1, vec!["s"]);
    assert_eq!(vm.globals.get(&"a".to_string()).map(|v| text_of(&vm, v)), Some("s".to_string()));
}

#[test]
fn init_vm_resets_the_run_but_not_the_globals() {
    let mut vm = machine(vec![Op::Nil, Op::Nil], vec![Value::Nil]);
    vm.globals.insert("g".to_string(), Value::Bool(true));
    let kept = string(&mut vm, "kept");
    vm.run(None);
    assert_eq!(vm.ip, 2);
    assert_eq!(vm.stack.len(), 2);
    vm.init_vm();
    assert_eq!(vm.ip, 0);
    assert!(vm.stack.is_empty());
    assert!(vm.chunk.code.is_empty());
    assert!(vm.chunk.constants.is_empty());
    assert_eq!(vm.globals.get(&"g".to_string()), Some(Value::Bool(true)));
    assert_eq!(text_of(&vm, kept), "kept");
}

#[test]
fn compile_error_leaves_the_machine_as_it_was() {
    let mut vm = machine(vec![Op::Nil], vec![Value::Bool(true)]);
    vm.push(Value::Nil);
    vm.ip = 1;
    let signal = vm.interpret("print 1".to_string(), numbers_of("print 1"));
    match signal {
        Signal::Halt(result, report) => {
            assert_eq!(result, InterpretResult::CompileError);
            assert_eq!(report, "[line 1] Error at end: Expect ';' after value.\n");
        }
        _ => panic!("no halt"),
    }
    assert_eq!(vm.ip, 1);
    assert_eq!(vm.stack, vec![Value::Nil]);
    assert_eq!(vm.chunk.code, vec![(Op::Nil, Line { value: 1 })]);
    assert_eq!(vm.chunk.constants, vec![Value::Bool(true)]);
}

#[test]
fn reports_undefined_global() {
    assert_eq!(failure_of("x = 1;"), "Undefined variable 'x'\nSetGlobal(0)\n[line 1] in script");
    assert_eq!(
        failure_of("var a;\nprint\nb;"),
        "Undefined variable 'b'\nGetGlobal(1)\n[line 3] in script"
    );
}

#[test]
fn reports_operands_that_are_no_numbers() {
    for (source, op) in [
        ("1 - nil;", "Subtract"),
        ("true * 2;", "Multiply"),
        ("\"a\" / 2;", "Divide"),
        ("1 < \"2\";", "Less"),
        ("nil > 1;", "Greater"),
        ("1 <= true;", "Greater"),
        ("\"a\" >= \"b\";", "Less"),
    ] {
        assert_eq!(
            failure_of(source),
            format!("Operands must be numbers\n{}\n[line 1] in script", op),
            "{}",
            source
        );
    }
}

#[test]
fn reports_operands_that_cannot_be_added() {
    for source in ["1 + nil;", "nil + 1;", "true + \"a\";", "\"a\" + false;", "nil + nil;"] {
        assert_eq!(
            failure_of(source),
            "Operands must be two numbers or two strings or one of each\nAdd\n[line 1] in script",
            "{}",
            source
        );
    }
}

#[test]
fn reports_operand_that_is_no_boolean() {
    assert_eq!(failure_of("!1;"), "Operand must be a boolean\nNot\n[line 1] in script");
    assert_eq!(failure_of("!\"a\";"), "Operand must be a boolean\nNot\n[line 1] in script");
}

#[test]
fn reports_operand_that_is_no_number() {
    assert_eq!(failure_of("-nil;"), "Operand must be a number\nNegate\n[line 1] in script");
    assert_eq!(failure_of("-\"a\";"), "Operand must be a number\nNegate\n[line 1] in script");
}

#[test]
fn assignment_consumes_its_value() {
    assert_eq!(
        failure_of("var a = 1; print a = 2;"),
        "Stack underflow\nPrint\n[line 1] in script"
    );
    let mut vm = VM::new();
    assert_eq!(interpret(&mut vm, "var a = 1; a = 2;").0, InterpretResult::Success);
    assert!(vm.stack.is_empty());
    assert_eq!(vm.globals.get(&"a".to_string()), Some(number(2.0)));
}

#[test]
fn runtime_error_stops_the_run_and_clears_the_stack() {
    let mut vm = VM::new();
    let (result, output, report) = interpret(&mut vm, "print 1; 2; 3; print -nil; print 4;");
    assert_eq!(result, InterpretResult::RuntimeError);
    assert_eq!(output, vec!["1"]);
    assert_eq!(report, "Operand must be a number\nNegate\n[line 1] in script");
    assert!(vm.stack.is_empty());
}

#[test]
fn reports_faults_of_malformed_code() {
    let cases: Vec<(Vec<Op>, &str)> = vec![
        (vec![Op::Constant(0)], "Invalid constant index\nConstant(0)"),
        (vec![Op::Pop], "Stack underflow\nPop"),
        (vec![Op::Print], "Stack underflow\nPrint"),
        (vec![Op::Equal], "Stack underflow\nEqual"),
        (vec![Op::Nil, Op::Equal], "Stack underflow\nEqual"),
        (vec![Op::Nil, Op::Add], "Stack underflow\nAdd"),
        (vec![Op::Nil, Op::Subtract], "Stack underflow\nSubtract"),
        (vec![Op::Less], "Stack underflow\nLess"),
        (vec![Op::Not], "Stack underflow\nNot"),
        (vec![Op::Negate], "Stack underflow\nNegate"),
        (vec![Op::JumpIfFalse(0)], "Stack underflow\nJumpIfFalse(0)"),
        (vec![Op::DefineGlobal(0)], "Stack underflow\nDefineGlobal(0)"),
        (vec![Op::SetGlobal(0)], "Stack underflow\nSetGlobal(0)"),
        (vec![Op::SetLocal(0)], "Stack underflow\nSetLocal(0)"),
        (vec![Op::GetLocal(0)], "Invalid local slot\nGetLocal(0)"),
        (vec![Op::Nil, Op::GetLocal(1)], "Invalid local slot\nGetLocal(1)"),
        (vec![Op::Nil, Op::SetLocal(1)], "Invalid local slot\nSetLocal(1)"),
        (vec![Op::Loop(2)], "Invalid loop offset\nLoop(2)"),
        (vec![Op::GetGlobal(0)], "Expected string as global variable name\nGetGlobal(0)"),
        (vec![Op::Nil, Op::DefineGlobal(7)], "Expected string as global variable name\nDefineGlobal(7)"),
        (vec![Op::Nil, Op::SetGlobal(7)], "Expected string as global variable name\nSetGlobal(7)"),
    ];
    for (code, start) in cases {
        let mut vm = machine(code, vec![]);
        let (result, output, report) = run(&mut vm);
        assert_eq!(result, InterpretResult::RuntimeError, "{}", start);
        assert!(output.is_empty());
        assert_eq!(report, format!("{}\n[line 1] in script", start));
        assert!(vm.stack.is_empty());
    }
}

#[test]
fn global_name_must_be_a_live_string() {
    for constant in [Value::Nil, number(1.0), Value::Bool(true), Value::Obj(99)] {
        let mut vm = machine(vec![Op::Nil, Op::DefineGlobal(0)], vec![constant]);
        let (result, _, report) = run(&mut vm);
        assert_eq!(result, InterpretResult::RuntimeError);
        assert_eq!(
            report,
            "Expected string as global variable name\nDefineGlobal(0)\n[line 1] in script"
        );
    }
}

#[test]
fn printing_a_dead_handle_is_a_fault() {
    let mut vm = machine(vec![Op::Constant(0), Op::Print], vec![Value::Obj(5)]);
    let (result, _, report) = run(&mut vm);
    assert_eq!(result, InterpretResult::RuntimeError);
    assert_eq!(report, "Unknown object handle\nPrint\n[line 1] in script");
}

#[test]
fn report_names_the_line_of_the_instruction() {
    let mut vm = VM::new();
    vm.chunk.code = vec![(Op::Nil, Line { value: 3 }), (Op::Negate, Line { value: 12 })];
    let (result, _, report) = run(&mut vm);
    assert_eq!(result, InterpretResult::RuntimeError);
    assert_eq!(report, "Operand must be a number\nNegate\n[line 12] in script");
}

#[test]
fn constant_and_literal_instructions_push() {
    let mut vm = machine(
        vec![Op::Constant(1), Op::Nil, Op::True, Op::False, Op::Constant(0)],
        vec![number(1.0), Value::Obj(3)],
    );
    assert!(matches!(vm.run(None), Signal::Halt(InterpretResult::Success, _)));
    assert_eq!(
        vm.stack,
        vec![Value::Obj(3), Value::Nil, Value::Bool(true), Value::Bool(false), number(1.0)]
    );
    assert_eq!(vm.ip, 5);
}

#[test]
fn local_instructions_read_and_write_slots() {
    let mut vm = machine(
        vec![Op::True, Op::Nil, Op::GetLocal(0), Op::False, Op::SetLocal(1), Op::Pop, Op::Pop],
        vec![],
    );
    for _ in 0..3 {
        assert!(is_continue(&vm.step(None)));
    }
    assert_eq!(vm.stack, vec![Value::Bool(true), Value::Nil, Value::Bool(true)]);
    assert!(is_continue(&vm.step(None)));
    assert!(is_continue(&vm.step(None)));
    assert_eq!(
        vm.stack,
        vec![Value::Bool(true), Value::Bool(false), Value::Bool(true), Value::Bool(false)]
    );
    assert!(is_continue(&vm.step(None)));
    assert!(is_continue(&vm.step(None)));
    assert_eq!(vm.stack, vec![Value::Bool(true), Value::Bool(false)]);
    assert!(matches!(vm.step(None), Signal::Halt(InterpretResult::Success, _)));
}

#[test]
fn return_ends_the_run() {
    let mut vm = machine(vec![Op::Nil, Op::Return, Op::Pop, Op::Pop], vec![]);
    let (result, _, _) = run(&mut vm);
    assert_eq!(result, InterpretResult::Success);
    assert_eq!(vm.stack, vec![Value::Nil]);
    assert_eq!(vm.ip, 2);
}

#[test]
fn jump_skips_instructions() {
    let mut vm = machine(vec![Op::Jump(2), Op::Nil, Op::Nil, Op::True], vec![]);
    assert_eq!(run(&mut vm).0, InterpretResult::Success);
    assert_eq!(vm.stack, vec![Value::Bool(true)]);
    assert_eq!(vm.ip, 4);
}

#[test]
fn jump_behind_the_code_ends_the_run() {
    let mut vm = machine(vec![Op::Jump(7), Op::Nil], vec![]);
    assert_eq!(run(&mut vm).0, InterpretResult::Success);
    assert!(vm.stack.is_empty());
    let mut vm = machine(vec![Op::Jump(usize::MAX), Op::Nil], vec![]);
    assert_eq!(run(&mut vm).0, InterpretResult::Success);
    assert_eq!(vm.ip, usize::MAX);
    assert!(vm.stack.is_empty());
}

#[test]
fn jump_if_false_peeks_at_the_condition() {
    for (condition, jumps) in [
        (Value::Bool(false), true),
        (Value::Nil, true),
        (Value::Bool(true), false),
        (number(0.0), false),
        (Value::Obj(0), false),
    ] {
        let mut vm = machine(vec![Op::JumpIfFalse(1), Op::Pop, Op::True], vec![]);
        vm.push(Value::Nil);
        vm.push(condition);
        assert_eq!(run(&mut vm).0, InterpretResult::Success);
        if jumps {
            assert_eq!(vm.stack, vec![Value::Nil, condition, Value::Bool(true)]);
        } else {
            assert_eq!(vm.stack, vec![Value::Nil, Value::Bool(true)]);
        }
    }
}

#[test]
fn loop_jumps_back_and_run_hands_control_to_the_host() {
    // Pushes nil forever.
    let mut vm = machine(vec![Op::Nil, Op::Loop(2)], vec![]);
    for round in 1..=5 {
        assert!(is_continue(&vm.run(None)));
        assert_eq!(vm.ip, 0);
        assert_eq!(vm.stack.len(), round);
    }
}

#[test]
fn jumps_in_range_keep_the_instruction_pointer_in_the_code() {
    let code = vec![Op::Jump(1), Op::Nil, Op::False, Op::JumpIfFalse(1), Op::Loop(5), Op::Loop(2)];
    let length = code.len();
    let mut vm = machine(code, vec![]);
    for _ in 0..40 {
        let signal = vm.step(None);
        assert!(vm.ip <= length);
        if !is_continue(&signal) {
            break;
        }
    }
}

#[test]
fn machine_asks_for_arithmetic_and_waits() {
    let mut vm = machine(vec![Op::Add], vec![]);
    vm.push(number(1.0));
    vm.push(number(2.0));
    let wanted = Request::Calculate(Arithmetic::Add, 1.0f64.to_bits(), 2.0f64.to_bits());
    assert_eq!(vm.request(), Some(wanted));
    for reply in [None, Some(Reply::Text("3".to_string()))] {
        match vm.step(reply) {
            Signal::Need(request) => assert_eq!(request, wanted),
            _ => panic!("no request"),
        }
        assert_eq!(vm.ip, 0);
        assert_eq!(vm.stack, vec![number(1.0), number(2.0)]);
    }
    assert!(is_continue(&vm.step(Some(Reply::Number(3.0f64.to_bits())))));
    assert_eq!(vm.ip, 1);
    assert_eq!(vm.stack, vec![number(3.0)]);
    assert_eq!(vm.request(), None);
}

#[test]
fn machine_asks_for_each_operation_with_operands_in_order() {
    for (op, operation) in [
        (Op::Add, Arithmetic::Add),
        (Op::Subtract, Arithmetic::Subtract),
        (Op::Multiply, Arithmetic::Multiply),
        (Op::Divide, Arithmetic::Divide),
    ] {
        let mut vm = machine(vec![op], vec![]);
        vm.push(number(8.0));
        vm.push(number(2.0));
        assert_eq!(
            vm.request(),
            Some(Request::Calculate(operation, 8.0f64.to_bits(), 2.0f64.to_bits()))
        );
    }
}

#[test]
fn machine_asks_for_the_text_of_a_number() {
    let mut vm = machine(vec![Op::Print], vec![]);
    vm.push(number(2.5));
    assert_eq!(vm.request(), Some(Request::Format(2.5f64.to_bits())));
    assert!(matches!(vm.run(None), Signal::Need(Request::Format(_))));
    assert!(matches!(vm.run(Some(Reply::Number(0))), Signal::Need(Request::Format(_))));
    match vm.run(Some(Reply::Text("2.5".to_string()))) {
        Signal::Output(text) => assert_eq!(text, "2.5"),
        _ => panic!("no output"),
    }
    assert!(vm.stack.is_empty());

    let mut vm = machine(vec![Op::Add, Op::Add], vec![]);
    let text = string(&mut vm, "s");
    vm.push(number(7.0));
    vm.push(text);
    vm.push(number(2.5));
    assert_eq!(vm.request(), Some(Request::Format(2.5f64.to_bits())));
    assert!(is_continue(&vm.step(Some(Reply::Text("2.5".to_string())))));
    assert_eq!(vm.request(), Some(Request::Format(7.0f64.to_bits())));
    assert!(is_continue(&vm.step(Some(Reply::Text("7".to_string())))));
    assert_eq!(vm.stack.len(), 1);
    assert_eq!(text_of(&vm, vm.stack[0]), "7s2.5");
}

#[test]
fn machine_needs_nothing_for_other_instructions() {
    for op in [Op::Nil, Op::Pop, Op::Equal, Op::Less, Op::Greater, Op::Not, Op::Negate, Op::Return] {
        let mut vm = machine(vec![op], vec![]);
        vm.push(number(1.0));
        vm.push(number(2.0));
        assert_eq!(vm.request(), None);
    }
    let mut vm = machine(vec![Op::Add], vec![]);
    vm.push(number(1.0));
    vm.push(Value::Nil);
    assert_eq!(vm.request(), None);
    let mut vm = machine(vec![Op::Print], vec![]);
    vm.push(Value::Nil);
    assert_eq!(vm.request(), None);
    assert_eq!(machine(vec![], vec![]).request(), None);
}

#[test]
fn joined_strings_are_freed_unless_something_holds_them() {
    let mut vm = machine(vec![Op::Add], vec![]);
    let a = string(&mut vm, "a");
    let b = string(&mut vm, "b");
    vm.push(a);
    vm.push(b);
    assert_eq!(run(&mut vm).0, InterpretResult::Success);
    assert_eq!(vm.stack, vec![Value::Obj(2)]);
    assert_eq!(text_of(&vm, Value::Obj(2)), "ab");
    assert!(vm.heap.get(&0).is_none());
    assert!(vm.heap.get(&1).is_none());

    let mut vm = machine(vec![Op::Add], vec![]);
    let a = string(&mut vm, "a");
    let b = string(&mut vm, "b");
    let c = string(&mut vm, "c");
    vm.chunk.constants.push(a);
    vm.globals.insert("g".to_string(), b);
    vm.push(c);
    vm.push(a);
    vm.push(b);
    assert_eq!(run(&mut vm).0, InterpretResult::Success);
    assert_eq!(vm.stack, vec![c, Value::Obj(3)]);
    assert_eq!(text_of(&vm, Value::Obj(3)), "ab");
    assert_eq!(text_of(&vm, a), "a");
    assert_eq!(text_of(&vm, b), "b");

    let mut vm = machine(vec![Op::Add], vec![]);
    let a = string(&mut vm, "a");
    vm.push(a);
    vm.push(a);
    vm.push(a);
    assert_eq!(run(&mut vm).0, InterpretResult::Success);
    assert_eq!(text_of(&vm, vm.stack[1]), "aa");
    assert_eq!(text_of(&vm, a), "a");
}

#[test]
fn machine_knows_what_it_refers_to() {
    let mut vm = machine(vec![], vec![Value::Obj(1)]);
    vm.push(Value::Obj(2));
    vm.globals.insert("g".to_string(), Value::Obj(3));
    assert!(vm.references(1));
    assert!(vm.references(2));
    assert!(vm.references(3));
    assert!(!vm.references(4));
}

#[test]
fn function_object_is_no_operand_of_add() {
    let mut vm = machine(vec![Op::Add], vec![]);
    let f = Value::Obj(vm.heap.allocate(HeapData::ObjFunction(lox::object::ObjFunction::new())));
    let s = string(&mut vm, "s");
    vm.push(s);
    vm.push(f);
    let (result, _, report) = run(&mut vm);
    assert_eq!(result, InterpretResult::RuntimeError);
    assert_eq!(
        report,
        "Operands must be two numbers or two strings or one of each\nAdd\n[line 1] in script"
    );
}

#[test]
fn equal_compares_values() {
    let mut vm = VM::new();
    let a = string(&mut vm, "same");
    let b = string(&mut vm, "same");
    let c = string(&mut vm, "other");
    let f = Value::Obj(
        vm.heap.allocate(HeapData::ObjFunction(lox::object::ObjFunction::with_name("same".to_string()))),
    );
    assert!(vm.equal(a, a));
    assert!(vm.equal(a, b));
    assert!(!vm.equal(a, c));
    assert!(!vm.equal(a, f));
    assert!(!vm.equal(f, f));
    assert!(!vm.equal(a, Value::Obj(99)));
    assert!(!vm.equal(Value::Obj(99), Value::Obj(99)));
    assert!(vm.equal(Value::Nil, Value::Nil));
    assert!(vm.equal(Value::Bool(false), Value::Bool(false)));
    assert!(!vm.equal(Value::Bool(false), Value::Bool(true)));
    assert!(!vm.equal(Value::Nil, Value::Bool(false)));
    assert!(vm.equal(number(1.5), number(1.5)));
    assert!(!vm.equal(number(1.5), number(2.5)));
    assert!(vm.equal(number(0.0), number(-0.0)));
    assert!(!vm.equal(number(f64::NAN), number(f64::NAN)));
    assert!(!vm.equal(number(0.0), Value::Nil));
    assert!(!vm.equal(number(1.0), a));
}

#[test]
fn stack_is_pushed_popped_and_peeked() {
    let mut vm = VM::new();
    vm.push(Value::Nil);
    vm.push(Value::Bool(true));
    vm.push(number(3.0));
    assert_eq!(vm.peek(0), number(3.0));
    assert_eq!(vm.peek(1), Value::Bool(true));
    assert_eq!(vm.peek(2), Value::Nil);
    assert_eq!(vm.pop(), number(3.0));
    assert_eq!(vm.pop(), Value::Bool(true));
    assert_eq!(vm.stack, vec![Value::Nil]);
    vm.reset_stack();
    assert!(vm.stack.is_empty());
}

#[test]
fn values_have_text_but_numbers_and_dead_handles() {
    let mut vm = VM::new();
    let s = string(&mut vm, "text");
    let f = Value::Obj(
        vm.heap.allocate(HeapData::ObjFunction(lox::object::ObjFunction::with_name("f".to_string()))),
    );
    assert_eq!(value_text(&Value::Nil, &vm.heap), Some("nil".to_string()));
    assert_eq!(value_text(&Value::Bool(true), &vm.heap), Some("true".to_string()));
    assert_eq!(value_text(&Value::Bool(false), &vm.heap), Some("false".to_string()));
    assert_eq!(value_text(&s, &vm.heap), Some("text".to_string()));
    assert_eq!(value_text(&f, &vm.heap), Some("f".to_string()));
    assert_eq!(value_text(&number(1.0), &vm.heap), None);
    assert_eq!(value_text(&Value::Obj(9), &vm.heap), None);
}

#[test]
fn step_runs_one_instruction_and_run_runs_on() {
    let mut vm = machine(vec![Op::Nil, Op::True, Op::Print, Op::False], vec![]);
    assert!(is_continue(&vm.step(None)));
    assert_eq!(vm.ip, 1);
    match vm.run(None) {
        Signal::Output(text) => assert_eq!(text, "true"),
        _ => panic!("no output"),
    }
    assert_eq!(vm.ip, 3);
    assert!(matches!(vm.run(None), Signal::Halt(InterpretResult::Success, _)));
    assert_eq!(vm.stack, vec![Value::Nil, Value::Bool(false)]);
    assert!(matches!(vm.run(None), Signal::Halt(InterpretResult::Success, _)));
}

#[test]
fn output_comes_in_the_order_of_the_program() {
    assert_eq!(
        output_of("print 1; var a = \"x\"; print a; { print 2 + 1; print a + a; } print nil;"),
        vec!["1", "x", "3", "xx", "nil"]
    );
}
