use lox::scanner::number_literals;
use lox::vm::{Arithmetic, InterpretResult, Reply, Request, Signal, VM};

/// The values of the number literals of a source, as the compiler wants them.
fn numbers_of(source: &str) -> Vec<u64> {
    number_literals(&source.to_string())
        .iter()
        .map(|text| text.parse::<f64>().unwrap().to_bits())
        .collect()
}

/// Does the work on numbers that the machine asks for.
fn answer(request: Request) -> Reply {
    match request {
        Request::Calculate(operation, left, right) => {
            let a = f64::from_bits(left);
            let b = f64::from_bits(right);
            let result = match operation {
                Arithmetic::Add => a + b,
                Arithmetic::Subtract => a - b,
                Arithmetic::Multiply => a * b,
                Arithmetic::Divide => a / b,
            };
            Reply::Number(result.to_bits())
        }
        Request::Format(bits) => Reply::Text(format!("{}", f64::from_bits(bits))),
    }
}

/// Interprets a source to its end. Returns the result, the lines written to
/// standard output, and the report of the error, if any.
fn interpret(vm: &mut VM, source: &str) -> (InterpretResult, Vec<String>, String) {
    let mut output = Vec::new();
    let mut signal = vm.interpret(source.to_string(), numbers_of(source));
    loop {
        signal = match signal {
            Signal::Halt(result, report) => return (result, output, report),
            Signal::Output(line) => {
                output.push(line);
                vm.run(None)
            }
            Signal::Need(request) => vm.run(Some(answer(request))),
            Signal::Continue => vm.run(None),
        };
    }
}

fn output_of(source: &str) -> Vec<String> {
    let mut vm = VM::new();
    let (result, output, _) = interpret(&mut vm, source);
    assert_eq!(result, InterpretResult::Success);
    output
}

#[test]
fn prints_arithmetic_with_precedence() {
    assert_eq!(output_of("print 1 + 2 * 3;"), vec!["7"]);
}

#[test]
fn concatenates_global_strings() {
    assert_eq!(
        output_of("var a = \"hi\"; var b = \" there\"; print a + b;"),
        vec!["hi there"]
    );
}

#[test]
fn inner_scope_shadows_global() {
    assert_eq!(
        output_of("var x = 10; { var x = 20; print x; } print x;"),
        vec!["20", "10"]
    );
}

#[test]
fn negates_nil_and_booleans() {
    assert_eq!(
        output_of("print !nil; print !false; print !true;"),
        vec!["true", "true", "false"]
    );
}

#[test]
fn compares_values_for_equality() {
    assert_eq!(
        output_of("print 1 == 1; print \"a\" == \"a\"; print 1 == \"1\";"),
        vec!["true", "true", "false"]
    );
}

#[test]
fn assigning_undefined_global_is_runtime_error() {
    let mut vm = VM::new();
    let (result, output, report) = interpret(&mut vm, "x = 1;");
    assert_eq!(result, InterpretResult::RuntimeError);
    assert!(output.is_empty());
    assert_eq!(report, "Undefined variable 'x'\nSetGlobal(0)\n[line 1] in script");
}

#[test]
fn missing_variable_name_is_compile_error() {
    let mut vm = VM::new();
    let (result, output, report) = interpret(&mut vm, "var = 3;");
    assert_eq!(result, InterpretResult::CompileError);
    assert!(output.is_empty());
    assert!(report.starts_with("[line 1] Error at '=': Expect variable name.\n"));
}

#[test]
fn redeclaring_local_is_compile_error() {
    let mut vm = VM::new();
    let (result, _, report) = interpret(&mut vm, "{ var a = 1; var a = 2; }");
    assert_eq!(result, InterpretResult::CompileError);
    assert!(report.contains("Variable with this name already declared in this scope."));
}

#[test]
fn local_in_own_initializer_is_compile_error() {
    let mut vm = VM::new();
    let (result, _, report) = interpret(&mut vm, "{ var a = a; }");
    assert_eq!(result, InterpretResult::CompileError);
    assert!(report.contains("Cannot read local variable in its own initializer."));
}
