use rlox::errors::{Interrupt, ParseErrorKind, RuntimeErrorKind, RuntimeErrorT, RuntimeReturn, StaticErrorKind};
use rlox::function::{builtin_function_clock, LoxCallable};
use rlox::interpreter::{
    binary_op, check_number_operand, check_number_operands, numeric_op, unary_op, Interpreter,
};
use rlox::lexing::ScanErrorKind;
use rlox::lox::{LoxError, RunResult};
use rlox::parser::Parser;
use rlox::scanner::Scanner;
use rlox::scope_resolver::ScopeResolver;
use rlox::token::{Token, TokenLiteral, TokenType};
use rlox::value::{is_equal, is_truthy, LoxValue};
use rlox::{Lox, LoxOption};

fn easy_test(source: &String) -> String {
    let scanner = Scanner::build(source);
    let tokens = scanner.scan_tokens();
    let mut parser = Parser::new(tokens);
    let expression = parser.parse_expression().unwrap();
    let mut interpreter = Interpreter::new();
    match interpreter.evaluate(&expression, 100, 1000) {
        Ok(value) => value.to_string(),
        Err(error) => panic!("{}", error.to_string()),
    }
}

fn run(source: &str) -> (Vec<String>, RunResult) {
    let mut lox = Lox::new();
    let r = lox.run(&source.to_string(), LoxOption::INTERPRET);
    (lox.interpreter.output, r)
}

fn output(source: &str) -> Vec<String> {
    let (lines, r) = run(source);
    match r {
        RunResult::Finished => lines,
        RunResult::Failed(LoxError::Runtime(e)) => panic!("{}", e.to_string()),
        RunResult::Failed(LoxError::Parse(e)) => panic!("{}", e.to_string()),
        RunResult::Failed(LoxError::Static(e)) => panic!("{}", e.to_string()),
        _ => panic!("the run did not finish"),
    }
}

fn runtime_error(source: &str) -> (Vec<String>, RuntimeErrorKind, String) {
    let (lines, r) = run(source);
    match r {
        RunResult::Failed(LoxError::Runtime(e)) => (lines, e.kind, e.to_string()),
        _ => panic!("no runtime error"),
    }
}

#[test]
fn interpreter_test1() {
    let source: String = "1 >= 99 and 5.2 == 5.2 or 2.2 > 3.3)".to_string();
    let output = easy_test(&source);
    assert_eq!("false", output.as_str());
}

#[test]
fn interpreter_test2() {
    // `and` binds tighter than `or`, and both are operators of the language:
    // false or (true and true).
    let source: String = "1 >= 99 or 5.2 == 5.2 and 2.2 < 3.3".to_string();
    let output = easy_test(&source);
    assert_eq!("true", output.as_str());
}

#[test]
fn interpreter_test3() {
    let source: String = "1 + 2 * 3 + 4".to_string();
    let output = easy_test(&source);
    assert_eq!("11", output.as_str());
}

#[test]
fn test4() {
    let source: String = "\"hello\" + \"world\"".to_string();
    let output = easy_test(&source);
    assert_eq!("helloworld", output.as_str());
}

#[test]
fn arithmetic_precedence() {
    assert_eq!(output("print 1 + 2 * 3 + 4;"), vec!["11"]);
}

#[test]
fn truthiness_and_short_circuit() {
    // Zero is truthy, so `0 or "y"` is its left operand.
    assert_eq!(output("print nil or \"x\"; print 0 or \"y\"; print false and crash;"), vec!["x", "0", "false"]);
}

#[test]
fn shadowing() {
    assert_eq!(
        output("var a = \"global\"; { var a = \"local\"; print a; } print a;"),
        vec!["local", "global"]
    );
}

#[test]
fn for_loop() {
    assert_eq!(output("var s = 0; for (var i = 0; i < 4; i = i + 1) { s = s + i; } print s;"), vec!["6"]);
}

#[test]
fn closure_keeps_its_frame() {
    let source = "var a = \"global\";\n{\n  fun showA() { print a; }\n  showA();\n  var a = \"block\";\n  showA();\n}\n";
    assert_eq!(output(source), vec!["global", "global"]);
}

#[test]
fn early_return_unwinds_blocks() {
    assert_eq!(output("fun f() { while (true) { return 42; } } print f();"), vec!["42"]);
}

#[test]
fn logical_operators_give_an_operand() {
    assert_eq!(
        output("print 1 and 2; print nil and 2; print false or nil; print \"\" or 2; print 0 and \"z\";"),
        vec!["2", "nil", "nil", "", "z"]
    );
}

#[test]
fn the_right_operand_is_evaluated_only_where_needed() {
    let source = "var n = 0; fun hit() { n = n + 1; return true; }\n\
                  true or hit(); false and hit(); print n;\n\
                  false or hit(); true and hit(); print n;";
    assert_eq!(output(source), vec!["0", "2"]);
}

#[test]
fn not_and_truthiness() {
    assert_eq!(output("print !nil; print !0; print !false; print !\"\"; print !true;"), vec!["true", "false", "true", "false", "false"]);
    assert!(!is_truthy(&LoxValue::Nil));
    assert!(!is_truthy(&LoxValue::Bool(false)));
    assert!(is_truthy(&LoxValue::Bool(true)));
    assert!(is_truthy(&LoxValue::Number(0)));
    assert!(is_truthy(&LoxValue::String(String::new())));
    assert!(is_truthy(&LoxValue::Callable(builtin_function_clock())));
}

#[test]
fn equality_of_values() {
    assert_eq!(
        output("print 1 == 1; print 1 == 2; print \"a\" == \"a\"; print \"a\" == \"b\"; print nil == nil; print true == true; print 1 == \"1\"; print nil == false; print 0 == false; print 1 != 2; print 0/0 == 0/0;"),
        vec!["true", "false", "true", "false", "true", "true", "false", "false", "false", "true", "false"]
    );
    assert_eq!(output("fun f() {} print f == f; print clock == clock; print f != f;"), vec!["false", "false", "true"]);
    let a = LoxValue::Number(0.0f64.to_bits());
    let b = LoxValue::Number((-0.0f64).to_bits());
    assert!(is_equal(&a, &b));
    assert!(is_equal(&b, &a));
    let nan = LoxValue::Number(f64::NAN.to_bits());
    assert!(!is_equal(&nan, &nan));
    assert!(is_equal(&LoxValue::Nil, &LoxValue::Nil));
    let clock = LoxValue::Callable(builtin_function_clock());
    assert!(!is_equal(&clock, &clock));
}

#[test]
fn division_by_zero_is_no_error() {
    assert_eq!(output("print 1 / 0; print -1 / 0; print 0 / 0;"), vec!["inf", "-inf", "NaN"]);
}

#[test]
fn a_string_and_a_number_do_not_add() {
    let (_, kind, text) = runtime_error("print \"a\" + 1;");
    assert_eq!(kind, RuntimeErrorKind::OperandsMustBeTwoNumbersOrTwoStrings);
    assert_eq!(text, "RuntimeError at line 1 column 11: Operands must be two numbers or two strings.");
    let (_, kind, _) = runtime_error("print 1 + \"a\";");
    assert_eq!(kind, RuntimeErrorKind::OperandsMustBeTwoNumbersOrTwoStrings);
    let (_, kind, _) = runtime_error("print nil + nil;");
    assert_eq!(kind, RuntimeErrorKind::OperandsMustBeTwoNumbersOrTwoStrings);
}

#[test]
fn operands_must_be_numbers() {
    for op in ["-", "*", "/", "<", "<=", ">", ">="] {
        let (_, kind, text) = runtime_error(&format!("print 1 {} \"a\";", op));
        assert_eq!(kind, RuntimeErrorKind::OperandsMustBeNumbers);
        assert!(text.ends_with("Operands must be numbers."));
        let (_, kind, _) = runtime_error(&format!("print nil {} 1;", op));
        assert_eq!(kind, RuntimeErrorKind::OperandsMustBeNumbers);
    }
    let (_, kind, text) = runtime_error("print -\"a\";");
    assert_eq!(kind, RuntimeErrorKind::OperandMustBeNumber);
    assert_eq!(text, "RuntimeError at line 1 column 7: Operand must be a number.");
}

#[test]
fn operators_on_values() {
    let plus = Token::build(TokenType::PLUS, "+", TokenLiteral::Nil, 1, 1);
    let r = binary_op(&plus, LoxValue::String("ab".to_string()), LoxValue::String("cd".to_string()));
    assert!(matches!(r, Ok(LoxValue::String(s)) if s == "abcd"));
    let dot = Token::build(TokenType::DOT, ".", TokenLiteral::Nil, 1, 1);
    let r = binary_op(&dot, LoxValue::Nil, LoxValue::Nil);
    assert!(matches!(r, Err(e) if e.kind == RuntimeErrorKind::UnknownOperator));
    let r = unary_op(&dot, LoxValue::Nil);
    assert!(matches!(r, Err(e) if e.kind == RuntimeErrorKind::UnknownOperator));
    let minus = Token::build(TokenType::MINUS, "-", TokenLiteral::Nil, 1, 1);
    let r = unary_op(&minus, LoxValue::Number(2.5f64.to_bits()));
    assert!(matches!(r, Ok(LoxValue::Number(bits)) if bits == (-2.5f64).to_bits()));
    let r = numeric_op(TokenType::STAR, 3.0f64.to_bits(), 0.5f64.to_bits());
    assert!(matches!(r, LoxValue::Number(bits) if bits == 1.5f64.to_bits()));
    assert!(matches!(check_number_operand(&minus, &LoxValue::Number(7)), Ok(7)));
    assert!(check_number_operand(&minus, &LoxValue::Nil).is_err());
    assert!(matches!(check_number_operands(&minus, &LoxValue::Number(7), &LoxValue::Number(8)), Ok((7, 8))));
    assert!(check_number_operands(&minus, &LoxValue::Number(7), &LoxValue::Bool(true)).is_err());
}

#[test]
fn only_functions_can_be_called() {
    let (_, kind, text) = runtime_error("var a = 1; a();");
    assert_eq!(kind, RuntimeErrorKind::NotCallable);
    assert_eq!(text, "RuntimeError at line 1 column 14: Can only call functions and classes.");
    let (_, kind, _) = runtime_error("\"text\"();");
    assert_eq!(kind, RuntimeErrorKind::NotCallable);
}

#[test]
fn a_call_passes_as_many_arguments_as_the_function_has_parameters() {
    let (_, kind, text) = runtime_error("fun f(a, b) {} f(1);");
    assert_eq!(kind, RuntimeErrorKind::WrongArity { expected: 2, got: 1 });
    assert!(text.ends_with("Expected 2 arguments but got 1."));
    let (_, kind, _) = runtime_error("clock(1);");
    assert_eq!(kind, RuntimeErrorKind::WrongArity { expected: 0, got: 1 });
}

#[test]
fn an_undefined_variable_is_an_error() {
    let (_, kind, text) = runtime_error("print a;");
    assert_eq!(kind, RuntimeErrorKind::UndefinedVariable);
    assert_eq!(text, "RuntimeError at line 1 column 7: Undefined variable 'a'.");
    let (_, kind, _) = runtime_error("a = 1;");
    assert_eq!(kind, RuntimeErrorKind::UndefinedVariable);
}

#[test]
fn output_before_an_error_is_kept() {
    let (lines, kind, _) = runtime_error("print 1; print 2; print -nil; print 3;");
    assert_eq!(lines, vec!["1", "2"]);
    assert_eq!(kind, RuntimeErrorKind::OperandMustBeNumber);
}

#[test]
fn arguments_are_evaluated_from_left_to_right() {
    let source = "fun show(x) { print x; return x; } fun f(a, b, c) { return a + b + c; }\n\
                  print f(show(1), show(2), show(3));";
    assert_eq!(output(source), vec!["1", "2", "3", "6"]);
    assert_eq!(output("fun show(x) { print x; return x; } print show(1) - show(2);"), vec!["1", "2", "-1"]);
}

#[test]
fn functions() {
    assert_eq!(output("fun f() {} print f(); print f;"), vec!["nil", "<fn f>"]);
    assert_eq!(output("print clock;"), vec!["<native fn clock>"]);
    assert_eq!(output("fun add(a, b) { return a + b; } print add(1, 2);"), vec!["3"]);
    assert_eq!(
        output("fun fib(n) { if (n < 2) return n; return fib(n - 1) + fib(n - 2); } print fib(15);"),
        vec!["610"]
    );
    assert_eq!(output("fun f() { return; print 1; } print f();"), vec!["nil"]);
}

#[test]
fn closures_share_their_frame() {
    let source = "fun counter() { var n = 0; fun next() { n = n + 1; return n; } return next; }\n\
                  var a = counter(); var b = counter();\n\
                  print a(); print a(); print b(); print a();";
    assert_eq!(output(source), vec!["1", "2", "1", "3"]);
    let source = "var get; var set;\n\
                  { var x = 1; fun g() { return x; } fun s(v) { x = v; } get = g; set = s; }\n\
                  print get(); set(5); print get();";
    assert_eq!(output(source), vec!["1", "5"]);
}

#[test]
fn globals_may_be_used_before_they_are_declared() {
    let source = "fun even(n) { if (n == 0) return true; return odd(n - 1); }\n\
                  fun odd(n) { if (n == 0) return false; return even(n - 1); }\n\
                  print even(10); print odd(7);";
    assert_eq!(output(source), vec!["true", "true"]);
}

#[test]
fn a_variable_may_be_declared_again() {
    assert_eq!(output("var x = 1; var x = 2; print x; { var y = 1; var y = 3; print y; }"), vec!["2", "3"]);
}

#[test]
fn statements_of_every_kind() {
    assert_eq!(output("var a; print a; a = 3; print a; print a = 4;"), vec!["nil", "3", "4"]);
    assert_eq!(output("if (1 < 2) print \"y\"; else print \"n\"; if (nil) print 1;"), vec!["y"]);
    assert_eq!(output("var i = 0; while (i < 3) { print i; i = i + 1; }"), vec!["0", "1", "2"]);
    assert_eq!(output("print \"a\" + \"b\"; print (1 + 2) * 3; print -(2); print 7 / 2;"), vec!["ab", "9", "-2", "3.5"]);
    assert_eq!(output("print true; print false; print nil; print \"s\";"), vec!["true", "false", "nil", "s"]);
}

#[test]
fn a_return_at_the_top_level_ends_the_program() {
    assert_eq!(output("print 1; return 2; print 3;"), vec!["1"]);
}

#[test]
fn reading_a_local_in_its_own_initializer_is_a_static_error() {
    let (lines, r) = run("print 1; { var a = a; }");
    assert_eq!(lines.len(), 0);
    match r {
        RunResult::Failed(LoxError::Static(e)) => {
            assert_eq!(e.kind, StaticErrorKind::ReadInOwnInitializer);
            assert_eq!(e.line, 1);
            assert_eq!(
                e.to_string(),
                "StaticError at line 1 column 20: Can't read local variable in its own initializer."
            );
        },
        _ => panic!("no static error"),
    }
    // At the top level the name is global, and the initializer is looked up at run time.
    let (_, kind, _) = runtime_error("var a = a;");
    assert_eq!(kind, RuntimeErrorKind::UndefinedVariable);
}

#[test]
fn scopes_are_left_on_every_path() {
    let sources = [
        "{ { { print 1; } } }",
        "fun f() { { { return 1; } } } { f(); }",
        "{ { print -nil; } }",
        "fun f() { { print -nil; } } { { f(); } }",
        "fun f(n) { if (n > 0) { { f(n - 1); } } else { print nil + 1; } } f(5);",
        "while (true) { { return; } }",
    ];
    for source in sources {
        let mut lox = Lox::new();
        let depth = lox.interpreter.environment.depth();
        let current = lox.interpreter.environment.current();
        lox.run(&source.to_string(), LoxOption::INTERPRET);
        assert_eq!(lox.interpreter.environment.depth(), depth);
        assert_eq!(lox.interpreter.environment.current(), current);
    }
}

#[test]
fn calls_nest_up_to_the_limit() {
    let (_, kind, text) = runtime_error("fun f() { f(); } f();");
    assert_eq!(kind, RuntimeErrorKind::StackOverflow);
    assert!(text.ends_with("Stack overflow."));
    let mut lox = Lox::new();
    lox.interpreter.max_depth = 3;
    let source = "fun f(n) { if (n > 0) f(n - 1); } f(2); print 1; f(3);".to_string();
    let r = lox.run(&source, LoxOption::INTERPRET);
    assert_eq!(lox.interpreter.output, vec!["1"]);
    assert!(matches!(r, RunResult::Failed(LoxError::Runtime(e)) if e.kind == RuntimeErrorKind::StackOverflow));
}

#[test]
fn loops_run_up_to_the_limit() {
    let mut lox = Lox::new();
    lox.interpreter.max_steps = 10;
    let r = lox.run(&"var i = 0; while (i < 10) i = i + 1; print i;".to_string(), LoxOption::INTERPRET);
    assert!(matches!(r, RunResult::Finished));
    assert_eq!(lox.interpreter.output, vec!["10"]);
    let mut lox = Lox::new();
    lox.interpreter.max_steps = 10;
    let r = lox.run(&"while (true) {}".to_string(), LoxOption::INTERPRET);
    match r {
        RunResult::Failed(LoxError::Runtime(e)) => {
            assert_eq!(e.kind, RuntimeErrorKind::LoopLimit);
            assert_eq!(e.to_string(), "RuntimeError: Loop limit reached.");
        },
        _ => panic!("no runtime error"),
    }
}

#[test]
fn the_clock_is_read_once_for_a_run() {
    let lines = output("var a = clock(); var b = clock(); print a == b; print a > 1600000000;");
    assert_eq!(lines, vec!["true", "true"]);
    let mut interpreter = Interpreter::new();
    interpreter.clock = 12.5f64.to_bits();
    let paren = Token::build(TokenType::RIGHTPAREN, ")", TokenLiteral::Nil, 1, 1);
    let r = interpreter.call_value(LoxValue::Callable(LoxCallable::Clock), Vec::new(), &paren, 1, 1);
    assert!(matches!(r, Ok(LoxValue::Number(bits)) if bits == 12.5f64.to_bits()));
}

#[test]
fn the_value_of_the_clock_for_a_reading() {
    assert_eq!(rlox::clock::clock_value(Some((3, 500_000_000))), 3.5f64.to_bits());
    assert_eq!(rlox::clock::clock_value(Some((1_700_000_000, 123_456_789))), 1700000000.123456789f64.to_bits());
    assert_eq!(rlox::clock::clock_value(None), 0);
}

#[test]
fn a_function_that_lost_its_frame_cannot_be_called() {
    let stmts = Parser::new(Scanner::build(&"fun f() {}".to_string()).scan_tokens()).parse().unwrap();
    let mut interpreter = Interpreter::new();
    interpreter.interpret(&stmts).unwrap();
    let mut value = interpreter.environment.get("f").unwrap();
    if let LoxValue::Callable(LoxCallable::Function(f)) = &mut value {
        assert_eq!(f.closure, 0);
        f.closure = 99;
    }
    let paren = Token::build(TokenType::RIGHTPAREN, ")", TokenLiteral::Nil, 1, 1);
    let r = interpreter.call_value(value, Vec::new(), &paren, 10, 10);
    assert!(matches!(r, Err(e) if e.kind == RuntimeErrorKind::LostClosure));
}

#[test]
fn run_options() {
    let mut lox = Lox::new();
    match lox.run(&"print 1;".to_string(), LoxOption::TOKEN) {
        RunResult::Tokens(tokens) => assert_eq!(tokens.len(), 4),
        _ => panic!("no tokens"),
    }
    match lox.run(&"print 1; var a = 2;".to_string(), LoxOption::AST) {
        RunResult::Tree(lines) => assert_eq!(lines, vec!["[AstPrinter]: (print 1)", "[AstPrinter]: ( var a = 2 )"]),
        _ => panic!("no tree"),
    }
    assert_eq!(lox.interpreter.output.len(), 0);
    assert!(!lox.had_error);
}

#[test]
fn exit_codes() {
    let mut lox = Lox::new();
    assert_eq!(lox.run(&"print 1;".to_string(), LoxOption::INTERPRET).exit_code(), 0);
    assert!(!lox.had_error);
    assert_eq!(lox.run(&"print -nil;".to_string(), LoxOption::INTERPRET).exit_code(), 70);
    assert!(lox.had_error);
    assert!(lox.had_runtime_error);
    let mut lox = Lox::new();
    let r = lox.run(&"print ;".to_string(), LoxOption::INTERPRET);
    assert!(matches!(&r, RunResult::Failed(LoxError::Parse(e)) if e.kind == ParseErrorKind::ExpectExpression));
    assert_eq!(r.exit_code(), 65);
    assert!(lox.had_error);
    assert!(!lox.had_runtime_error);
    assert_eq!(lox.run(&"{ var a = a; }".to_string(), LoxOption::INTERPRET).exit_code(), 65);
    let r = lox.run(&"print 1 ? 2;".to_string(), LoxOption::INTERPRET);
    assert!(matches!(&r, RunResult::Failed(LoxError::Scan(e)) if e.kind == ScanErrorKind::UnexpectedCharacter('?')));
    assert_eq!(r.exit_code(), 65);
}

#[test]
fn every_run_starts_anew_and_adds_to_the_output() {
    let mut lox = Lox::new();
    let r = lox.run(&"var a = 1; fun f() { return a; } print f();".to_string(), LoxOption::INTERPRET);
    assert!(matches!(r, RunResult::Finished));
    let r = lox.run(&"{ var b = 2; print b; } print a;".to_string(), LoxOption::INTERPRET);
    assert!(matches!(r, RunResult::Failed(LoxError::Runtime(e)) if e.kind == RuntimeErrorKind::UndefinedVariable));
    assert_eq!(lox.interpreter.output, vec!["1", "2"]);
    assert_eq!(lox.interpreter.environment.frames(), 2);
    lox.interpreter.restart();
    assert_eq!(lox.interpreter.environment.frames(), 1);
    assert_eq!(lox.interpreter.locals.get(0), None);
    assert_eq!(lox.interpreter.output, vec!["1", "2"]);
    assert!(lox.interpreter.environment.get("clock").is_ok());
}

#[test]
fn a_local_assigned_in_its_own_initializer_is_missed() {
    // The resolver gives the assignment the distance of the scope that is
    // about to hold `a`, and the frame does not bind `a` yet.
    let (_, kind, text) = runtime_error("{ var a = (a = 1); }");
    assert_eq!(kind, RuntimeErrorKind::MissingLocal);
    assert_eq!(text, "RuntimeError at line 1 column 12: Unresolved local variable 'a'.");
    // At the top level the name is global, and is simply not defined yet.
    let (_, kind, _) = runtime_error("var a = (a = 1);");
    assert_eq!(kind, RuntimeErrorKind::UndefinedVariable);
}

#[test]
fn the_carriers_describe_themselves() {
    let r = RuntimeReturn::new(LoxValue::Nil);
    assert_eq!(r.describe(), "LoxFunctionReturn");
    assert!(matches!(r.0, LoxValue::Nil));
    let token = Token::build(TokenType::MINUS, "-", TokenLiteral::Nil, 4, 9);
    let e = rlox::errors::RuntimeError::new(&token, RuntimeErrorKind::OperandMustBeNumber);
    assert_eq!(e.describe(), "RuntimeError at line 4 column 9: Operand must be a number.");
    assert_eq!(e.message(), "Operand must be a number.");
    let e = rlox::errors::RuntimeError::new(&token, RuntimeErrorKind::MissingLocal);
    assert_eq!(e.message(), "Unresolved local variable '-'.");
    let e = rlox::errors::RuntimeError::unplaced(RuntimeErrorKind::UndefinedVariable);
    assert_eq!(e.message(), "Undefined variable ''.");
    let i = Interrupt::Return(RuntimeReturn::new(LoxValue::Bool(true)));
    assert!(matches!(i, Interrupt::Return(RuntimeReturn(LoxValue::Bool(true)))));
}

#[test]
fn resolved_distances() {
    let source = "var g = 1; { var a = 2; { var b = 3; print a + b + g; a = b; } }".to_string();
    let stmts = Parser::new(Scanner::build(&source).scan_tokens()).parse().unwrap();
    let mut interpreter = Interpreter::new();
    let mut resolver = ScopeResolver::new();
    resolver.resolve(&stmts, &mut interpreter.locals).unwrap();
    // print a + b + g: a is one scope out, b is in the innermost scope, g is global.
    assert_eq!(interpreter.locals.get(18), Some(1));
    assert_eq!(interpreter.locals.get(20), Some(0));
    assert_eq!(interpreter.locals.get(22), None);
    // a = b
    assert_eq!(interpreter.locals.get(24), Some(1));
    assert_eq!(interpreter.locals.get(26), Some(0));
    interpreter.resolve(40, 7);
    assert_eq!(interpreter.locals.get(40), Some(7));
    assert_eq!(interpreter.locals.get(39), None);
    assert_eq!(interpreter.locals.get(1000), None);
    interpreter.interpret(&stmts).unwrap();
    assert_eq!(interpreter.output, vec!["6"]);
}

#[test]
fn parameters_and_body_share_a_scope() {
    let source = "fun f(a) { var b = a; { print a + b; } } f(2);".to_string();
    let stmts = Parser::new(Scanner::build(&source).scan_tokens()).parse().unwrap();
    let mut interpreter = Interpreter::new();
    let mut resolver = ScopeResolver::new();
    resolver.resolve(&stmts, &mut interpreter.locals).unwrap();
    // var b = a: a is a parameter, in the scope of the body.
    assert_eq!(interpreter.locals.get(9), Some(0));
    // print a + b, one block further in.
    assert_eq!(interpreter.locals.get(13), Some(1));
    assert_eq!(interpreter.locals.get(15), Some(1));
    interpreter.interpret(&stmts).unwrap();
    assert_eq!(interpreter.output, vec!["4"]);
}

#[test]
fn every_runtime_error_has_its_message() {
    let token = Token::build(TokenType::IDENTIFIER, "x", TokenLiteral::Nil, 2, 5);
    let expected = [
        (RuntimeErrorKind::OperandMustBeNumber, "Operand must be a number."),
        (RuntimeErrorKind::OperandsMustBeNumbers, "Operands must be numbers."),
        (RuntimeErrorKind::OperandsMustBeTwoNumbersOrTwoStrings, "Operands must be two numbers or two strings."),
        (RuntimeErrorKind::NotCallable, "Can only call functions and classes."),
        (RuntimeErrorKind::WrongArity { expected: 12, got: 0 }, "Expected 12 arguments but got 0."),
        (RuntimeErrorKind::UndefinedVariable, "Undefined variable 'x'."),
        (RuntimeErrorKind::MissingLocal, "Unresolved local variable 'x'."),
        (RuntimeErrorKind::UnknownOperator, "Unknown operator."),
        (RuntimeErrorKind::LostClosure, "The function has lost its closure."),
        (RuntimeErrorKind::StackOverflow, "Stack overflow."),
        (RuntimeErrorKind::LoopLimit, "Loop limit reached."),
    ];
    for (kind, text) in expected {
        let e = rlox::errors::RuntimeError::new(&token, kind);
        assert_eq!(e.message(), text);
        assert_eq!(e.to_string(), format!("RuntimeError at line 2 column 5: {}", text));
    }
    assert_eq!(StaticErrorKind::ReadInOwnInitializer.message(), "Can't read local variable in its own initializer.");
}
