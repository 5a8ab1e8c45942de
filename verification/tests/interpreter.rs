use minilang::ast::{Program, Property, Stmt};
use minilang::environment::Environment;
use minilang::error::{EnvError, EvalError, InterpreterError, RuntimeError};
use minilang::interpreter::{
    eval_numeric_binary_expr, evaluate, evaluate_within, MAX_CALL_DEPTH,
};
use minilang::parser::Parser;
use minilang::values::{NativeFunction, RuntimeValue};

fn number(text: &str) -> RuntimeValue {
    RuntimeValue::Number(text.to_owned())
}

fn ident(name: &str) -> Stmt {
    Stmt::Identifier(name.to_owned())
}

fn num(text: &str) -> Stmt {
    Stmt::NumericLiteral(text.to_owned())
}

fn binary(left: Stmt, operator: &str, right: Stmt) -> Stmt {
    Stmt::BinaryExpr {
        left: Box::new(left),
        right: Box::new(right),
        operator: operator.to_owned(),
    }
}

fn program(src: &str) -> Stmt {
    let mut parser = Parser::new();
    Stmt::Program(parser.produce_ast(src.to_owned()).expect("Unable to parse"))
}

fn run(src: &str, env: &mut Environment) -> Result<RuntimeValue, RuntimeError> {
    let mut out = Vec::new();
    evaluate(program(src), env, &mut out)
}

fn run_fresh(src: &str) -> Result<RuntimeValue, RuntimeError> {
    run(src, &mut Environment::new())
}

fn arithmetic(lhs: &str, operator: &str, rhs: &str) -> Result<RuntimeValue, EvalError> {
    eval_numeric_binary_expr(lhs, rhs, operator)
}

#[test]
fn declared_function_adds_its_arguments() {
    let mut env = Environment::new();
    let declared = run("fn add(x,y) { let result = x + y; result }", &mut env);
    assert!(matches!(declared, Ok(RuntimeValue::Function { .. })));
    assert_eq!(run("add(3, 4)", &mut env), Ok(number("7")));
}

#[test]
fn object_literal_resolves_shorthand_by_lookup() {
    let mut env = Environment::new();
    env.declare_var("y", number("32"), false).unwrap();
    assert_eq!(
        run("{ x: 100, y, baz: { z: true } }", &mut env),
        Ok(RuntimeValue::Object(vec![
            ("x".to_owned(), number("100")),
            ("y".to_owned(), number("32")),
            (
                "baz".to_owned(),
                RuntimeValue::Object(vec![("z".to_owned(), RuntimeValue::Boolean(true))])
            ),
        ]))
    );
}

#[test]
fn an_identifier_evaluates_alike_twice() {
    let mut env = Environment::new();
    env.declare_var("x", number("5"), false).unwrap();
    let before = env.clone();
    let mut out = Vec::new();
    let first = evaluate(ident("x"), &mut env, &mut out);
    let second = evaluate(ident("x"), &mut env, &mut out);
    assert_eq!(first, Ok(number("5")));
    assert_eq!(first, second);
    assert_eq!(env, before);
    assert!(out.is_empty());
}

#[test]
fn a_numeric_literal_keeps_its_text() {
    let mut env = Environment::new();
    let mut out = Vec::new();
    assert_eq!(evaluate(num("007"), &mut env, &mut out), Ok(number("007")));
    assert_eq!(
        evaluate(num("not a number"), &mut env, &mut out),
        Ok(number("not a number"))
    );
}

#[test]
fn an_unknown_identifier_fails() {
    assert_eq!(
        run_fresh("foo"),
        Err(RuntimeError::Env(EnvError::VariableNotFound(
            "foo".to_owned()
        )))
    );
}

#[test]
fn a_later_key_replaces_an_earlier_one() {
    assert_eq!(
        run_fresh("{ a: 1, b: 2, a: 3 }"),
        Ok(RuntimeValue::Object(vec![
            ("a".to_owned(), number("3")),
            ("b".to_owned(), number("2")),
        ]))
    );
}

#[test]
fn an_unknown_shorthand_fails() {
    assert_eq!(
        run_fresh("{ a: 1, missing }"),
        Err(RuntimeError::Env(EnvError::VariableNotFound(
            "missing".to_owned()
        )))
    );
}

#[test]
fn an_empty_object_has_no_entries() {
    let mut env = Environment::new();
    let mut out = Vec::new();
    assert_eq!(
        evaluate(Stmt::ObjectLiteral(vec![]), &mut env, &mut out),
        Ok(RuntimeValue::Object(vec![]))
    );
    assert_eq!(
        evaluate(
            Stmt::ObjectLiteral(vec![Property {
                key: "true".to_owned(),
                value: None
            }]),
            &mut env,
            &mut out
        ),
        Ok(RuntimeValue::Object(vec![(
            "true".to_owned(),
            RuntimeValue::Boolean(true)
        )]))
    );
}

#[test]
fn exact_arithmetic() {
    assert_eq!(arithmetic("3", "+", "4"), Ok(number("7")));
    assert_eq!(arithmetic("3", "-", "4"), Ok(number("-1")));
    assert_eq!(arithmetic("-6", "*", "7"), Ok(number("-42")));
    assert_eq!(arithmetic("50", "/", "2"), Ok(number("25")));
    assert_eq!(arithmetic("7", "/", "2"), Ok(number("3")));
    assert_eq!(arithmetic("-7", "/", "2"), Ok(number("-3")));
    assert_eq!(arithmetic("7", "/", "-2"), Ok(number("-3")));
    assert_eq!(arithmetic("-7", "/", "-2"), Ok(number("3")));
    assert_eq!(arithmetic("7", "%", "3"), Ok(number("1")));
    assert_eq!(arithmetic("-7", "%", "3"), Ok(number("-1")));
    assert_eq!(arithmetic("7", "%", "-3"), Ok(number("1")));
    assert_eq!(arithmetic("-7", "%", "-3"), Ok(number("-1")));
    assert_eq!(arithmetic("0", "%", "5"), Ok(number("0")));
    assert_eq!(arithmetic("0", "/", "5"), Ok(number("0")));
    assert_eq!(arithmetic("+5", "+", "007"), Ok(number("12")));
    assert_eq!(arithmetic("-0", "+", "0"), Ok(number("0")));
    assert_eq!(arithmetic("1000000", "*", "1000000"), Ok(number("1000000000000")));
}

#[test]
fn arithmetic_at_the_edges_of_the_range() {
    let max = "9223372036854775807";
    let min = "-9223372036854775808";
    assert_eq!(arithmetic(max, "+", "0"), Ok(number(max)));
    assert_eq!(arithmetic(min, "+", "0"), Ok(number(min)));
    assert_eq!(arithmetic(max, "+", "1"), Err(EvalError::ArithmeticOverflow));
    assert_eq!(arithmetic(min, "-", "1"), Err(EvalError::ArithmeticOverflow));
    assert_eq!(arithmetic(max, "*", "2"), Err(EvalError::ArithmeticOverflow));
    assert_eq!(arithmetic(min, "/", "-1"), Err(EvalError::ArithmeticOverflow));
    assert_eq!(arithmetic(min, "%", "-1"), Ok(number("0")));
    assert_eq!(arithmetic(min, "/", "1"), Ok(number(min)));
    assert_eq!(arithmetic(max, "-", max), Ok(number("0")));
    assert_eq!(arithmetic(min, "+", max), Ok(number("-1")));
    assert_eq!(arithmetic("5", "%", "-1"), Ok(number("0")));
}

#[test]
fn division_by_zero_is_a_failure() {
    assert_eq!(arithmetic("1", "/", "0"), Err(EvalError::DivisionByZero));
    assert_eq!(arithmetic("1", "%", "0"), Err(EvalError::DivisionByZero));
    assert_eq!(arithmetic("0", "/", "0"), Err(EvalError::DivisionByZero));
    assert_eq!(
        run_fresh("10 / (5 - 5)"),
        Err(RuntimeError::Eval(EvalError::DivisionByZero))
    );
}

#[test]
fn an_unknown_operator_is_a_failure() {
    assert_eq!(
        arithmetic("1", "^", "2"),
        Err(EvalError::InvalidOperator("^".to_owned()))
    );
    assert_eq!(
        arithmetic("1", "", "2"),
        Err(EvalError::InvalidOperator("".to_owned()))
    );
    assert_eq!(
        arithmetic("1", "++", "2"),
        Err(EvalError::InvalidOperator("++".to_owned()))
    );
    let mut env = Environment::new();
    let mut out = Vec::new();
    assert_eq!(
        evaluate(binary(num("1"), "**", num("2")), &mut env, &mut out),
        Err(RuntimeError::Eval(EvalError::InvalidOperator(
            "**".to_owned()
        )))
    );
}

#[test]
fn text_that_is_no_integer_is_a_failure() {
    assert_eq!(
        arithmetic("", "+", "1"),
        Err(EvalError::InvalidNumber("".to_owned()))
    );
    assert_eq!(
        arithmetic("1", "+", "-"),
        Err(EvalError::InvalidNumber("-".to_owned()))
    );
    assert_eq!(
        arithmetic("+", "+", "1"),
        Err(EvalError::InvalidNumber("+".to_owned()))
    );
    assert_eq!(
        arithmetic("1 ", "+", "1"),
        Err(EvalError::InvalidNumber("1 ".to_owned()))
    );
    assert_eq!(
        arithmetic("1_000", "+", "1"),
        Err(EvalError::InvalidNumber("1_000".to_owned()))
    );
    assert_eq!(
        arithmetic("٣", "+", "1"),
        Err(EvalError::InvalidNumber("٣".to_owned()))
    );
    assert_eq!(
        arithmetic("9223372036854775808", "+", "0"),
        Err(EvalError::InvalidNumber("9223372036854775808".to_owned()))
    );
    assert_eq!(
        arithmetic("-9223372036854775809", "+", "0"),
        Err(EvalError::InvalidNumber("-9223372036854775809".to_owned()))
    );
    assert_eq!(
        arithmetic("1", "?", "x"),
        Err(EvalError::InvalidNumber("x".to_owned()))
    );
    assert_eq!(
        arithmetic("00000000000000000000000000000000000012", "+", "0"),
        Ok(number("12"))
    );
    assert_eq!(
        run_fresh("time() + 1"),
        Err(RuntimeError::Eval(EvalError::InvalidNumber(
            "Friday 13th".to_owned()
        )))
    );
}

#[test]
fn an_operand_that_is_no_number_gives_null() {
    assert_eq!(run_fresh("true + 1"), Ok(RuntimeValue::Null));
    assert_eq!(run_fresh("1 + null"), Ok(RuntimeValue::Null));
    assert_eq!(run_fresh("print * true"), Ok(RuntimeValue::Null));
}

#[test]
fn both_operands_are_evaluated() {
    let mut env = Environment::new();
    env.declare_var("n", number("0"), false).unwrap();
    assert_eq!(run("true + (n = 5)", &mut env), Ok(RuntimeValue::Null));
    assert_eq!(env.lookup_var("n"), Ok(number("5")));
    assert_eq!(
        run("true + missing", &mut env),
        Err(RuntimeError::Env(EnvError::VariableNotFound(
            "missing".to_owned()
        )))
    );
}

#[test]
fn precedence_through_the_whole_pipeline() {
    assert_eq!(run_fresh("45 + (2 + 4) % 4"), Ok(number("47")));
    assert_eq!(run_fresh("1 + 2 * 3 - 8 / 4"), Ok(number("5")));
    assert_eq!(run_fresh("(1 + 2) * 3"), Ok(number("9")));
}

#[test]
fn declarations_bind_and_return_the_value() {
    let mut env = Environment::new();
    assert_eq!(run("let a = 1 + 1;", &mut env), Ok(number("2")));
    assert_eq!(run("let b;", &mut env), Ok(RuntimeValue::Null));
    assert_eq!(run("const c = a * 10;", &mut env), Ok(number("20")));
    assert_eq!(env.lookup_var("a"), Ok(number("2")));
    assert_eq!(env.lookup_var("b"), Ok(RuntimeValue::Null));
    assert_eq!(env.lookup_var("c"), Ok(number("20")));
    assert_eq!(
        run("let a = 3;", &mut env),
        Err(RuntimeError::Env(EnvError::RedeclareVariable(
            "a".to_owned()
        )))
    );
    assert_eq!(
        run("c = 3;", &mut env),
        Err(RuntimeError::Env(EnvError::ReassignVariable(
            "c".to_owned()
        )))
    );
    assert_eq!(env.lookup_var("c"), Ok(number("20")));
}

#[test]
fn assignment_evaluates_the_right_side_and_stores_it() {
    let mut env = Environment::new();
    run("let a = 1; let b = 2;", &mut env).unwrap();
    assert_eq!(run("a = b = a + 10;", &mut env), Ok(number("11")));
    assert_eq!(env.lookup_var("a"), Ok(number("11")));
    assert_eq!(env.lookup_var("b"), Ok(number("11")));
    assert_eq!(
        run("missing = 1;", &mut env),
        Err(RuntimeError::Env(EnvError::VariableNotFound(
            "missing".to_owned()
        )))
    );
}

#[test]
fn only_a_name_can_be_assigned_to() {
    let mut env = Environment::new();
    env.declare_var("n", number("0"), false).unwrap();
    assert_eq!(
        run("1 = (n = 2);", &mut env),
        Err(RuntimeError::Eval(EvalError::InvalidAssignment))
    );
    assert_eq!(env.lookup_var("n"), Ok(number("0")));
    assert_eq!(
        run("n.a = 2;", &mut env),
        Err(RuntimeError::Eval(EvalError::InvalidAssignment))
    );
}

#[test]
fn the_value_of_a_program_is_that_of_its_last_statement() {
    let mut env = Environment::new();
    let mut out = Vec::new();
    assert_eq!(
        evaluate(
            Stmt::Program(Program { body: vec![] }),
            &mut env,
            &mut out
        ),
        Ok(RuntimeValue::Null)
    );
    assert_eq!(run("1; 2; 3;", &mut env), Ok(number("3")));
}

#[test]
fn the_first_failure_ends_the_program() {
    let mut env = Environment::new();
    assert_eq!(
        run("let a = 1; missing; let b = 2;", &mut env),
        Err(RuntimeError::Env(EnvError::VariableNotFound(
            "missing".to_owned()
        )))
    );
    assert_eq!(env.lookup_var("a"), Ok(number("1")));
    assert_eq!(
        env.lookup_var("b"),
        Err(EnvError::VariableNotFound("b".to_owned()))
    );
}

#[test]
fn nodes_without_a_rule_fail() {
    let mut env = Environment::new();
    let mut out = Vec::new();
    let member = Stmt::MemberExpr {
        object: Box::new(ident("a")),
        property: Box::new(ident("b")),
        computed: false,
    };
    assert_eq!(
        evaluate(member.clone(), &mut env, &mut out),
        Err(RuntimeError::Interpreter(
            InterpreterError::UnexpectedStatement(member)
        ))
    );
    assert_eq!(
        evaluate(Stmt::UniaryExpr, &mut env, &mut out),
        Err(RuntimeError::Interpreter(
            InterpreterError::UnexpectedStatement(Stmt::UniaryExpr)
        ))
    );
    assert_eq!(
        evaluate(Stmt::FunctionDeclaration, &mut env, &mut out),
        Err(RuntimeError::Interpreter(
            InterpreterError::UnexpectedStatement(Stmt::FunctionDeclaration)
        ))
    );
    assert_eq!(
        evaluate(Stmt::Comment(" c".to_owned()), &mut env, &mut out),
        Err(RuntimeError::Interpreter(
            InterpreterError::UnexpectedStatement(Stmt::Comment(" c".to_owned()))
        ))
    );
}

#[test]
fn print_hands_its_arguments_to_the_output() {
    let mut env = Environment::new();
    let mut out = vec![RuntimeValue::Boolean(false)];
    assert_eq!(
        evaluate(
            program("print(1, true, 2 + 3); print(); print(null);"),
            &mut env,
            &mut out
        ),
        Ok(RuntimeValue::Null)
    );
    assert_eq!(
        out,
        vec![
            RuntimeValue::Boolean(false),
            number("1"),
            RuntimeValue::Boolean(true),
            number("5"),
            RuntimeValue::Null,
        ]
    );
}

#[test]
fn nested_prints_come_out_in_the_order_of_the_calls() {
    let mut env = Environment::new();
    let mut out = Vec::new();
    assert_eq!(
        evaluate(program("print(print(5));"), &mut env, &mut out),
        Ok(RuntimeValue::Null)
    );
    assert_eq!(out, vec![number("5"), RuntimeValue::Null]);
}

#[test]
fn output_before_a_failure_is_kept() {
    let mut env = Environment::new();
    let mut out = Vec::new();
    assert!(evaluate(program("print(1); missing; print(2);"), &mut env, &mut out).is_err());
    assert_eq!(out, vec![number("1")]);
}

#[test]
fn the_clock_is_a_fixed_value() {
    assert_eq!(run_fresh("time()"), Ok(number("Friday 13th")));
    assert_eq!(run_fresh("time(1, 2)"), Ok(number("Friday 13th")));
    assert_eq!(
        run_fresh("time"),
        Ok(RuntimeValue::NativeFn(NativeFunction::Time))
    );
}

#[test]
fn arguments_are_evaluated_before_the_callee() {
    let mut env = Environment::new();
    env.declare_var("n", number("0"), false).unwrap();
    assert_eq!(
        run("missing(n = 1)", &mut env),
        Err(RuntimeError::Env(EnvError::VariableNotFound(
            "missing".to_owned()
        )))
    );
    assert_eq!(env.lookup_var("n"), Ok(number("1")));
}

#[test]
fn a_failing_argument_ends_the_call() {
    let mut env = Environment::new();
    let mut out = Vec::new();
    assert_eq!(
        evaluate(program("print(1, missing, 2)"), &mut env, &mut out),
        Err(RuntimeError::Env(EnvError::VariableNotFound(
            "missing".to_owned()
        )))
    );
    assert!(out.is_empty());
}

#[test]
fn calling_what_is_no_function_fails() {
    assert_eq!(
        run_fresh("true(1)"),
        Err(RuntimeError::Eval(EvalError::ValueNotAFunction(ident(
            "true"
        ))))
    );
    let mut env = Environment::new();
    run("let n = 5;", &mut env).unwrap();
    assert_eq!(
        run("n()", &mut env),
        Err(RuntimeError::Eval(EvalError::ValueNotAFunction(ident("n"))))
    );
}

#[test]
fn the_number_of_arguments_must_match() {
    let mut env = Environment::new();
    run("fn add(x,y) { x + y }", &mut env).unwrap();
    assert_eq!(
        run("add(1)", &mut env),
        Err(RuntimeError::Eval(EvalError::ArityMismatch {
            expected: 2,
            found: 1
        }))
    );
    assert_eq!(
        run("add(1, 2, 3)", &mut env),
        Err(RuntimeError::Eval(EvalError::ArityMismatch {
            expected: 2,
            found: 3
        }))
    );
    assert_eq!(run("add(1, 2)", &mut env), Ok(number("3")));
    let call = Stmt::CallExpr {
        args: vec![num("1")],
        caller: Box::new(ident("add")),
    };
    let mut out = Vec::new();
    assert_eq!(
        evaluate_within(&call, &mut env, &mut out, 0),
        Err(RuntimeError::Eval(EvalError::ArityMismatch {
            expected: 2,
            found: 1
        }))
    );
}

#[test]
fn a_parameter_named_twice_cannot_be_bound() {
    let mut env = Environment::new();
    run("fn twice(x,x) { x }", &mut env).unwrap();
    assert_eq!(
        run("twice(1, 2)", &mut env),
        Err(RuntimeError::Env(EnvError::RedeclareVariable(
            "x".to_owned()
        )))
    );
}

#[test]
fn an_empty_body_gives_null() {
    let mut env = Environment::new();
    run("fn nothing() { }", &mut env).unwrap();
    assert_eq!(run("nothing()", &mut env), Ok(RuntimeValue::Null));
}

#[test]
fn a_function_is_a_constant() {
    let mut env = Environment::new();
    run("fn f() { 1 }", &mut env).unwrap();
    assert_eq!(
        run("f = 2;", &mut env),
        Err(RuntimeError::Env(EnvError::ReassignVariable(
            "f".to_owned()
        )))
    );
    assert_eq!(
        run("fn f() { 2 }", &mut env),
        Err(RuntimeError::Env(EnvError::RedeclareVariable(
            "f".to_owned()
        )))
    );
}

#[test]
fn a_function_value_holds_the_scopes_of_its_declaration() {
    let mut env = Environment::new();
    env.declare_var("a", number("1"), false).unwrap();
    let snapshot = env.clone();
    let declared = run("fn f(p) { p }", &mut env);
    assert_eq!(
        declared,
        Ok(RuntimeValue::Function {
            name: "f".to_owned(),
            parameters: vec!["p".to_owned()],
            declaration_env: snapshot,
            body: vec![ident("p")],
        })
    );
    assert_eq!(env.lookup_var("f").ok(), declared.ok());
}

#[test]
fn a_function_sees_the_scopes_as_they_were_when_it_was_declared() {
    let mut env = Environment::new();
    run("let a = 1; fn get() { a }", &mut env).unwrap();
    run("a = 2;", &mut env).unwrap();
    assert_eq!(run("get()", &mut env), Ok(number("1")));
    assert_eq!(run("a", &mut env), Ok(number("2")));
}

#[test]
fn a_function_does_not_see_itself() {
    let mut env = Environment::new();
    run("fn again() { again() }", &mut env).unwrap();
    assert_eq!(
        run("again()", &mut env),
        Err(RuntimeError::Env(EnvError::VariableNotFound(
            "again".to_owned()
        )))
    );
}

#[test]
fn a_call_leaves_the_scopes_of_the_caller_alone() {
    let mut env = Environment::new();
    run("let a = 1; fn change() { a = 5; let b = 2; a }", &mut env).unwrap();
    let before = env.clone();
    assert_eq!(run("change()", &mut env), Ok(number("5")));
    assert_eq!(env, before);
    assert_eq!(env.lookup_var("a"), Ok(number("1")));
}

#[test]
fn parameters_shadow_outer_names() {
    let mut env = Environment::new();
    run("let x = 1; fn id(x) { x }", &mut env).unwrap();
    assert_eq!(run("id(42)", &mut env), Ok(number("42")));
    assert_eq!(run("x", &mut env), Ok(number("1")));
}

#[test]
fn functions_can_be_passed_and_returned() {
    let mut env = Environment::new();
    run("fn one() { 1; }; fn call(f) { f(); };", &mut env).unwrap();
    assert_eq!(run("call(one)", &mut env), Ok(number("1")));
    run("fn make() { fn inner(a) { a * 2; }; inner; };", &mut env).unwrap();
    assert_eq!(run("make()(21)", &mut env), Ok(number("42")));
}

#[test]
fn calls_that_never_end_are_stopped() {
    let mut env = Environment::new();
    run("fn w(x) { x(x) }", &mut env).unwrap();
    assert_eq!(
        run("w(w)", &mut env),
        Err(RuntimeError::Eval(EvalError::CallDepthExceeded))
    );
}

#[test]
fn the_depth_limit_counts_nested_calls() {
    let mut env = Environment::new();
    run("fn a() { 1; }; fn b() { a(); }; fn c() { b(); };", &mut env).unwrap();
    let call = Stmt::CallExpr {
        args: vec![],
        caller: Box::new(ident("c")),
    };
    let mut out = Vec::new();
    assert_eq!(
        evaluate_within(&call, &mut env, &mut out, 3),
        Ok(number("1"))
    );
    assert_eq!(
        evaluate_within(&call, &mut env, &mut out, 2),
        Err(RuntimeError::Eval(EvalError::CallDepthExceeded))
    );
    assert_eq!(
        evaluate_within(&call, &mut env, &mut out, 0),
        Err(RuntimeError::Eval(EvalError::CallDepthExceeded))
    );
    assert_eq!(
        evaluate_within(&binary(num("1"), "+", num("2")), &mut env, &mut out, 0),
        Ok(number("3"))
    );
    let print = Stmt::CallExpr {
        args: vec![num("1")],
        caller: Box::new(ident("print")),
    };
    assert_eq!(
        evaluate_within(&print, &mut env, &mut out, 0),
        Ok(RuntimeValue::Null)
    );
    assert_eq!(evaluate(call, &mut env, &mut out), Ok(number("1")));
    assert!(MAX_CALL_DEPTH >= 3);
}

#[test]
fn a_comment_in_a_program_has_no_value() {
    let mut env = Environment::new();
    let mut parser = Parser::new();
    let parsed = parser
        .produce_ast("let a = 1; // note".to_owned())
        .unwrap();
    let mut out = Vec::new();
    assert_eq!(
        evaluate(Stmt::Program(parsed), &mut env, &mut out),
        Err(RuntimeError::Interpreter(
            InterpreterError::UnexpectedStatement(Stmt::Comment(" note".to_owned()))
        ))
    );
    assert_eq!(env.lookup_var("a"), Ok(number("1")));
}

#[test]
fn a_copy_of_a_value_equals_it() {
    let mut env = Environment::new();
    let value = run("fn f(a) { { a, b: 1 }; }; let o = { f, n: f(2) };", &mut env).unwrap();
    assert_eq!(value.clone(), value);
}

#[test]
fn runtime_failures_in_words() {
    assert_eq!(EvalError::InvalidAssignment.message(), "Invalid assignment");
    assert_eq!(
        EvalError::InvalidOperator("^".to_owned()).message(),
        "Unsupported binary operator ^"
    );
    assert_eq!(
        EvalError::ValueNotAFunction(ident("n")).message(),
        "Value Identifier(\"n\") is not a function"
    );
    assert_eq!(
        EvalError::ArityMismatch {
            expected: 2,
            found: 10
        }
        .message(),
        "Expected 2 arguments but got 10"
    );
    assert_eq!(
        EvalError::ArityMismatch {
            expected: 0,
            found: usize::MAX
        }
        .message(),
        format!("Expected 0 arguments but got {}", usize::MAX)
    );
    assert_eq!(EvalError::DivisionByZero.message(), "Division by zero");
    assert_eq!(
        EvalError::InvalidNumber("x1".to_owned()).message(),
        "Invalid number x1"
    );
    assert_eq!(
        EvalError::ArithmeticOverflow.message(),
        "Arithmetic overflow"
    );
    assert_eq!(
        EvalError::CallDepthExceeded.message(),
        "Call depth exceeded"
    );
    assert_eq!(
        InterpreterError::UnexpectedStatement(Stmt::UniaryExpr).message(),
        "Unexpected character UniaryExpr"
    );
    assert_eq!(
        RuntimeError::Env(EnvError::VariableNotFound("foo".to_owned())).message(),
        "Cannot resolve foo since it doesnt exist"
    );
    assert_eq!(
        RuntimeError::Eval(EvalError::DivisionByZero).message(),
        "Division by zero"
    );
    assert_eq!(
        RuntimeError::Interpreter(InterpreterError::UnexpectedStatement(
            Stmt::FunctionDeclaration
        ))
        .message(),
        "Unexpected character FunctionDeclaration"
    );
}

#[test]
fn values_as_text() {
    assert_eq!(RuntimeValue::Null.to_text(), "null\n");
    assert_eq!(RuntimeValue::Boolean(true).to_text(), "true\n");
    assert_eq!(RuntimeValue::Boolean(false).to_text(), "false\n");
    assert_eq!(number("42").to_text(), "42\n");
    assert_eq!(
        RuntimeValue::NativeFn(NativeFunction::Print).to_text(),
        "FnCall\n"
    );
    assert_eq!(
        RuntimeValue::NativeFn(NativeFunction::Time).to_text(),
        "FnCall\n"
    );
    let mut env = Environment::new();
    let function = run("fn add(x,y) { x + y }", &mut env).unwrap();
    assert_eq!(function.to_text(), "add()\n");
    assert_eq!(RuntimeValue::Object(vec![]).to_text(), "");
    let object = RuntimeValue::Object(vec![
        ("x".to_owned(), number("100")),
        (
            "baz".to_owned(),
            RuntimeValue::Object(vec![("z".to_owned(), RuntimeValue::Boolean(true))]),
        ),
        ("f".to_owned(), function),
    ]);
    assert_eq!(
        object.to_text(),
        "x -> 100\n\nbaz -> z -> true\n\n\nf -> add()\n\n"
    );
}

#[test]
fn formatted_results_have_no_leading_zeros() {
    assert_eq!(arithmetic("0007", "*", "010"), Ok(number("70")));
    assert_eq!(arithmetic("-0", "*", "5"), Ok(number("0")));
    assert_eq!(arithmetic("100", "-", "100"), Ok(number("0")));
    assert_eq!(arithmetic("99", "+", "1"), Ok(number("100")));
    assert_eq!(arithmetic("-99", "-", "1"), Ok(number("-100")));
    assert_eq!(
        arithmetic("1234567890", "*", "987654321"),
        Ok(number("1219326311126352690"))
    );
}
