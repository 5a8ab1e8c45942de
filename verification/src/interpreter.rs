//! The evaluator: a walk over the tree that computes what the semantics
//! say.

use vstd::prelude::*;
use crate::ast::{
    child_view, clone_stmt, clone_stmts, clone_strings, properties_view, stmts_view, strings_view,
    Program, Property, Stmt, StmtView,
};
use crate::environment::{declare, Environment};
use crate::error::{EvalError, EvalErrorView, InterpreterError, RuntimeError, RuntimeErrorView};
use crate::number::{abs, format_number, parse_number, truncated_quotient, truncated_remainder};
use crate::semantics;
use crate::semantics::Outcome;
use crate::text::str_eq;
use crate::values::{
    clone_env, clone_value, entries_view, values_view, EnvView, NativeFunction, RuntimeValue,
    ValueView, VariableView,
};

verus! {

/// How deep calls may nest in [`evaluate`].
pub const MAX_CALL_DEPTH: usize = 64;

/// The view of what an evaluation returned.
pub open spec fn result_view(result: Result<RuntimeValue, RuntimeError>) -> Result<
    ValueView,
    RuntimeErrorView,
> {
    match result {
        Ok(value) => Ok(value@),
        Err(e) => Err(e@),
    }
}

/// Whether an evaluation that returned `result`, left the scopes as
/// `env` and the output as `printed`, ended as `expected`.
pub open spec fn agrees(
    result: Result<RuntimeValue, RuntimeError>,
    env: EnvView,
    printed: Seq<ValueView>,
    expected: Outcome,
) -> bool {
    &&& result_view(result) == expected.result
    &&& env == expected.env
    &&& printed == expected.printed
}

/// Evaluates a node in the scopes `env`. Every value that the program
/// prints is appended to `out`, in the order of the calls. Calls may nest
/// [`MAX_CALL_DEPTH`] deep.
pub fn evaluate(stmt: Stmt, env: &mut Environment, out: &mut Vec<RuntimeValue>) -> (result: Result<
    RuntimeValue,
    RuntimeError,
>)
    ensures
        agrees(
            result,
            final(env)@,
            values_view(final(out)@),
            semantics::eval(stmt@, old(env)@, values_view(old(out)@), MAX_CALL_DEPTH as nat),
        ),
{
    evaluate_within(&stmt, env, out, MAX_CALL_DEPTH)
}

/// Evaluates a node as [`evaluate`] does, with calls nesting at most
/// `depth` deep.
pub fn evaluate_within(
    stmt: &Stmt,
    env: &mut Environment,
    out: &mut Vec<RuntimeValue>,
    depth: usize,
) -> (result: Result<RuntimeValue, RuntimeError>)
    ensures
        agrees(
            result,
            final(env)@,
            values_view(final(out)@),
            semantics::eval(stmt@, old(env)@, values_view(old(out)@), depth as nat),
        ),
    decreases depth, stmt, 1nat,
{
    match stmt {
        Stmt::NumericLiteral(text) => Ok(RuntimeValue::Number(text.clone())),
        Stmt::Identifier(name) => eval_identifier(name, env),
        Stmt::ObjectLiteral(properties) => eval_object_expr(properties, env, out, depth),
        Stmt::CallExpr { args, caller } => eval_call_expr(args, caller, env, out, depth, Ghost(*stmt)),
        Stmt::AssignmentExpr { assignee, value } => eval_assignment_expr(
            assignee,
            value,
            env,
            out,
            depth,
        ),
        Stmt::FnDeclaration { name, parameters, body, is_const } => eval_function_declaration(
            name,
            parameters,
            body,
            *is_const,
            env,
        ),
        Stmt::VarDeclaration { constant, identifier, value } => eval_variable_declaration(
            *constant,
            identifier,
            value,
            env,
            out,
            depth,
        ),
        Stmt::BinaryExpr { left, right, operator } => evaluate_binary_expr(
            left,
            right,
            operator,
            env,
            out,
            depth,
            Ghost(*stmt),
        ),
        Stmt::Program(program) => eval_program(program, env, out, depth),
        _ => Err(RuntimeError::Interpreter(InterpreterError::UnexpectedStatement(clone_stmt(stmt)))),
    }
}

/// Evaluates the arguments of a call from left to right, then the
/// expression that is called, and calls its value.
fn eval_call_expr(
    args: &Vec<Stmt>,
    caller: &Stmt,
    env: &mut Environment,
    out: &mut Vec<RuntimeValue>,
    depth: usize,
    Ghost(whole): Ghost<Stmt>,
) -> (result: Result<RuntimeValue, RuntimeError>)
    requires
        whole == (Stmt::CallExpr { args: *args, caller: Box::new(*caller) }),
    ensures
        agrees(
            result,
            final(env)@,
            values_view(final(out)@),
            semantics::eval(whole@, old(env)@, values_view(old(out)@), depth as nat),
        ),
    decreases depth, whole, 0nat,
{
    let ghost goal = semantics::eval_arguments(
        stmts_view(args@),
        0,
        Seq::empty(),
        old(env)@,
        values_view(old(out)@),
        depth as nat,
    );
    let mut values: Vec<RuntimeValue> = Vec::new();
    let mut i: usize = 0;
    assert(values_view(values@) =~= Seq::<ValueView>::empty());
    while i < args.len()
        invariant
            i <= args.len(),
            whole == (Stmt::CallExpr { args: *args, caller: Box::new(*caller) }),
            goal == semantics::eval_arguments(
                stmts_view(args@),
                0,
                Seq::empty(),
                old(env)@,
                values_view(old(out)@),
                depth as nat,
            ),
            goal == semantics::eval_arguments(
                stmts_view(args@),
                i as int,
                values_view(values@),
                env@,
                values_view(out@),
                depth as nat,
            ),
        decreases args.len() - i,
    {
        match evaluate_within(&args[i], env, out, depth) {
            Ok(value) => {
                assert(values_view(values@.push(value)) =~= values_view(values@).push(value@));
                values.push(value);
            },
            Err(e) => {
                return Err(e);
            },
        }
        i += 1;
    }
    let callee = match evaluate_within(caller, env, out, depth) {
        Ok(callee) => callee,
        Err(e) => {
            return Err(e);
        },
    };
    call_value(callee, values, caller, env, out, depth)
}

/// Calls a value with arguments that have been evaluated.
fn call_value(
    callee: RuntimeValue,
    args: Vec<RuntimeValue>,
    caller: &Stmt,
    env: &mut Environment,
    out: &mut Vec<RuntimeValue>,
    depth: usize,
) -> (result: Result<RuntimeValue, RuntimeError>)
    ensures
        agrees(
            result,
            final(env)@,
            values_view(final(out)@),
            semantics::eval_call(
                callee@,
                values_view(args@),
                caller@,
                old(env)@,
                values_view(old(out)@),
                depth as nat,
            ),
        ),
    decreases depth, caller, 0nat,
{
    match callee {
        RuntimeValue::NativeFn(function) => Ok(call_native(function, args, env, out)),
        RuntimeValue::Function { name: _, parameters, declaration_env, body } => {
            if parameters.len() != args.len() {
                proof {
                    assert(strings_view(parameters@).len() == parameters.len());
                }
                return Err(
                    RuntimeError::Eval(
                        EvalError::ArityMismatch { expected: parameters.len(), found: args.len() },
                    ),
                );
            }
            if depth == 0 {
                return Err(RuntimeError::Eval(EvalError::CallDepthExceeded));
            }
            let mut scope = Environment::with(declaration_env);
            let ghost fresh = scope@;
            let mut i: usize = 0;
            while i < parameters.len()
                invariant
                    i <= parameters.len(),
                    parameters.len() == args.len(),
                    depth > 0,
                    env@ == old(env)@,
                    out@ == old(out)@,
                    callee@ matches ValueView::Function { name, parameters: p, declaration_env: d, body: b }
                        && p == strings_view(parameters@) && fresh == seq![
                        Seq::<VariableView>::empty(),
                    ] + d,
                    semantics::bind_parameters(
                        fresh,
                        strings_view(parameters@),
                        values_view(args@),
                        0,
                    ) == semantics::bind_parameters(
                        scope@,
                        strings_view(parameters@),
                        values_view(args@),
                        i as int,
                    ),
                decreases parameters.len() - i,
            {
                proof {
                    scope.lemma_has_scope();
                }
                match scope.declare_var(parameters[i].as_str(), clone_value(&args[i]), false) {
                    Ok(_) => {},
                    Err(e) => {
                        return Err(RuntimeError::Env(e));
                    },
                }
                i += 1;
            }
            eval_statements(&body, &mut scope, out, depth - 1)
        },
        _ => Err(RuntimeError::Eval(EvalError::ValueNotAFunction(clone_stmt(caller)))),
    }
}

/// Calls a native function. It may use the scopes of its caller.
fn call_native(
    function: NativeFunction,
    args: Vec<RuntimeValue>,
    env: &mut Environment,
    out: &mut Vec<RuntimeValue>,
) -> (value: RuntimeValue)
    ensures
        value@ == semantics::native_value(function, values_view(args@)),
        values_view(final(out)@) == values_view(old(out)@) + semantics::native_output(
            function,
            values_view(args@),
        ),
        final(env)@ == old(env)@,
{
    match function {
        NativeFunction::Print => {
            let mut args = args;
            let ghost printed = args@;
            out.append(&mut args);
            assert(values_view(out@) =~= values_view(old(out)@) + values_view(printed));
            RuntimeValue::Null
        },
        NativeFunction::Time => {
            assert(values_view(out@) =~= values_view(old(out)@) + Seq::<ValueView>::empty());
            RuntimeValue::Number("Friday 13th".to_owned())
        },
    }
}

/// Evaluates the statements of a program in order.
fn eval_program(
    program: &Program,
    env: &mut Environment,
    out: &mut Vec<RuntimeValue>,
    depth: usize,
) -> (result: Result<RuntimeValue, RuntimeError>)
    ensures
        agrees(
            result,
            final(env)@,
            values_view(final(out)@),
            semantics::eval_block(
                program@,
                0,
                ValueView::Null,
                old(env)@,
                values_view(old(out)@),
                depth as nat,
            ),
        ),
    decreases depth, program, 0nat,
{
    eval_statements(&program.body, env, out, depth)
}

/// Evaluates statements in order. The value is that of the last one, or
/// `Null` where there is none.
fn eval_statements(
    stmts: &Vec<Stmt>,
    env: &mut Environment,
    out: &mut Vec<RuntimeValue>,
    depth: usize,
) -> (result: Result<RuntimeValue, RuntimeError>)
    ensures
        agrees(
            result,
            final(env)@,
            values_view(final(out)@),
            semantics::eval_block(
                stmts_view(stmts@),
                0,
                ValueView::Null,
                old(env)@,
                values_view(old(out)@),
                depth as nat,
            ),
        ),
    decreases depth, stmts, 0nat,
{
    let ghost goal = semantics::eval_block(
        stmts_view(stmts@),
        0,
        ValueView::Null,
        old(env)@,
        values_view(old(out)@),
        depth as nat,
    );
    let mut last_evaluated = RuntimeValue::Null;
    let mut i: usize = 0;
    while i < stmts.len()
        invariant
            i <= stmts.len(),
            goal == semantics::eval_block(
                stmts_view(stmts@),
                0,
                ValueView::Null,
                old(env)@,
                values_view(old(out)@),
                depth as nat,
            ),
            goal == semantics::eval_block(
                stmts_view(stmts@),
                i as int,
                last_evaluated@,
                env@,
                values_view(out@),
                depth as nat,
            ),
        decreases stmts.len() - i,
    {
        match evaluate_within(&stmts[i], env, out, depth) {
            Ok(value) => {
                last_evaluated = value;
            },
            Err(e) => {
                return Err(e);
            },
        }
        i += 1;
    }
    Ok(last_evaluated)
}

/// The entries of an object with `key` set to `value`.
fn set_entry(entries: &mut Vec<(String, RuntimeValue)>, key: String, value: RuntimeValue)
    ensures
        entries_view(final(entries)@) == semantics::with_entry(
            entries_view(old(entries)@),
            key@,
            value@,
        ),
{
    let mut at: usize = 0;
    while at < entries.len() && !str_eq(entries[at].0.as_str(), key.as_str())
        invariant
            at <= entries.len(),
            semantics::key_position(entries_view(entries@), key@, 0) == semantics::key_position(
                entries_view(entries@),
                key@,
                at as int,
            ),
        decreases entries.len() - at,
    {
        at += 1;
    }
    let ghost before = entries_view(entries@);
    let ghost entry = (key@, value@);
    if at < entries.len() {
        entries.set(at, (key, value));
        assert(entries_view(entries@) =~= before.update(at as int, entry));
    } else {
        entries.push((key, value));
        assert(entries_view(entries@) =~= before.push(entry));
    }
}

/// Evaluates the entries of an object literal in the order of the
/// source.
fn eval_object_expr(
    object_properties: &Vec<Property>,
    env: &mut Environment,
    out: &mut Vec<RuntimeValue>,
    depth: usize,
) -> (result: Result<RuntimeValue, RuntimeError>)
    ensures
        agrees(
            result,
            final(env)@,
            values_view(final(out)@),
            semantics::eval_properties(
                properties_view(object_properties@),
                0,
                Seq::empty(),
                old(env)@,
                values_view(old(out)@),
                depth as nat,
            ),
        ),
    decreases depth, object_properties, 0nat,
{
    let ghost goal = semantics::eval_properties(
        properties_view(object_properties@),
        0,
        Seq::empty(),
        old(env)@,
        values_view(old(out)@),
        depth as nat,
    );
    let mut properties: Vec<(String, RuntimeValue)> = Vec::new();
    let mut i: usize = 0;
    assert(entries_view(properties@) =~= Seq::<(Seq<char>, ValueView)>::empty());
    while i < object_properties.len()
        invariant
            i <= object_properties.len(),
            goal == semantics::eval_properties(
                properties_view(object_properties@),
                0,
                Seq::empty(),
                old(env)@,
                values_view(old(out)@),
                depth as nat,
            ),
            goal == semantics::eval_properties(
                properties_view(object_properties@),
                i as int,
                entries_view(properties@),
                env@,
                values_view(out@),
                depth as nat,
            ),
        decreases object_properties.len() - i,
    {
        let property = &object_properties[i];
        assert(properties_view(object_properties@)[i as int] == property@);
        let value = match &property.value {
            Some(value) => {
                assert(child_view(property.value) == Some(Box::new(value@)));
                match evaluate_within(value, env, out, depth) {
                    Ok(value) => value,
                    Err(e) => {
                        return Err(e);
                    },
                }
            },
            None => {
                assert(child_view(property.value) == None::<Box<StmtView>>);
                match env.lookup_var(property.key.as_str()) {
                    Ok(value) => value,
                    Err(e) => {
                        return Err(RuntimeError::Env(e));
                    },
                }
            },
        };
        set_entry(&mut properties, property.key.clone(), value);
        i += 1;
    }
    Ok(RuntimeValue::Object(properties))
}

/// Evaluates the right-hand side and assigns it to the name on the left.
fn eval_assignment_expr(
    assignee: &Stmt,
    value: &Stmt,
    env: &mut Environment,
    out: &mut Vec<RuntimeValue>,
    depth: usize,
) -> (result: Result<RuntimeValue, RuntimeError>)
    ensures
        agrees(
            result,
            final(env)@,
            values_view(final(out)@),
            semantics::eval(
                StmtView::AssignmentExpr {
                    assignee: Box::new(assignee@),
                    value: Box::new(value@),
                },
                old(env)@,
                values_view(old(out)@),
                depth as nat,
            ),
        ),
    decreases depth, value, 2nat,
{
    match assignee {
        Stmt::Identifier(name) => {
            let value = match evaluate_within(value, env, out, depth) {
                Ok(value) => value,
                Err(e) => {
                    return Err(e);
                },
            };
            match env.assign_var(name.as_str(), value) {
                Ok(value) => Ok(value),
                Err(e) => Err(RuntimeError::Env(e)),
            }
        },
        _ => Err(RuntimeError::Eval(EvalError::InvalidAssignment)),
    }
}

/// Declares a function under its name, as a constant. The function value
/// takes a copy of the scopes as they are before the declaration.
fn eval_function_declaration(
    name: &String,
    parameters: &Vec<String>,
    body: &Vec<Stmt>,
    is_const: bool,
    env: &mut Environment,
) -> (result: Result<RuntimeValue, RuntimeError>)
    ensures
        ({
            let function = ValueView::Function {
                name: name@,
                parameters: strings_view(parameters@),
                declaration_env: old(env)@,
                body: stmts_view(body@),
            };
            let expected = semantics::scoped(
                declare(old(env)@, name@, function, true),
                function,
                old(env)@,
                Seq::empty(),
            );
            &&& result_view(result) == expected.result
            &&& final(env)@ == expected.env
        }),
{
    let function = RuntimeValue::Function {
        name: name.clone(),
        parameters: clone_strings(parameters),
        declaration_env: clone_env(env),
        body: clone_stmts(body),
    };
    match env.declare_var(name.as_str(), function, true) {
        Ok(value) => Ok(value),
        Err(e) => Err(RuntimeError::Env(e)),
    }
}

/// Declares a variable with the value of its initialiser, or with `Null`.
fn eval_variable_declaration(
    constant: bool,
    identifier: &String,
    value: &Option<Box<Stmt>>,
    env: &mut Environment,
    out: &mut Vec<RuntimeValue>,
    depth: usize,
) -> (result: Result<RuntimeValue, RuntimeError>)
    ensures
        agrees(
            result,
            final(env)@,
            values_view(final(out)@),
            semantics::eval(
                StmtView::VarDeclaration {
                    constant,
                    identifier: identifier@,
                    value: child_view(*value),
                },
                old(env)@,
                values_view(old(out)@),
                depth as nat,
            ),
        ),
    decreases depth, value, 0nat,
{
    let runtime_value = match value {
        Some(value) => {
            assert(child_view(Some(*value)) == Some(Box::new(value@)));
            match evaluate_within(value, env, out, depth) {
                Ok(value) => value,
                Err(e) => {
                    return Err(e);
                },
            }
        },
        None => {
            assert(child_view(None::<Box<Stmt>>) == None::<Box<StmtView>>);
            RuntimeValue::Null
        },
    };
    match env.declare_var(identifier.as_str(), runtime_value, constant) {
        Ok(value) => Ok(value),
        Err(e) => Err(RuntimeError::Env(e)),
    }
}

/// Looks a name up.
fn eval_identifier(name: &String, env: &mut Environment) -> (result: Result<
    RuntimeValue,
    RuntimeError,
>)
    ensures
        final(env)@ == old(env)@,
        result_view(result) == match crate::environment::lookup(old(env)@, name@) {
            Ok(value) => Ok::<ValueView, RuntimeErrorView>(value),
            Err(e) => Err::<ValueView, RuntimeErrorView>(RuntimeErrorView::Env(e)),
        },
{
    match env.lookup_var(name.as_str()) {
        Ok(value) => Ok(value),
        Err(e) => Err(RuntimeError::Env(e)),
    }
}

/// Evaluates both operands, the left one first, and applies the
/// operator where both are numbers.
fn evaluate_binary_expr(
    left: &Stmt,
    right: &Stmt,
    operator: &String,
    env: &mut Environment,
    out: &mut Vec<RuntimeValue>,
    depth: usize,
    Ghost(whole): Ghost<Stmt>,
) -> (result: Result<RuntimeValue, RuntimeError>)
    requires
        whole == (Stmt::BinaryExpr {
            left: Box::new(*left),
            right: Box::new(*right),
            operator: *operator,
        }),
    ensures
        agrees(
            result,
            final(env)@,
            values_view(final(out)@),
            semantics::eval(whole@, old(env)@, values_view(old(out)@), depth as nat),
        ),
    decreases depth, whole, 0nat,
{
    let lhs = match evaluate_within(left, env, out, depth) {
        Ok(value) => value,
        Err(e) => {
            return Err(e);
        },
    };
    let rhs = match evaluate_within(right, env, out, depth) {
        Ok(value) => value,
        Err(e) => {
            return Err(e);
        },
    };
    match (&lhs, &rhs) {
        (RuntimeValue::Number(lhs), RuntimeValue::Number(rhs)) => {
            match eval_numeric_binary_expr(lhs.as_str(), rhs.as_str(), operator.as_str()) {
                Ok(value) => Ok(value),
                Err(e) => Err(RuntimeError::Eval(e)),
            }
        },
        _ => Ok(RuntimeValue::Null),
    }
}

/// Rounding towards zero, as the checked operations of the 64-bit
/// integers compute it.
proof fn lemma_truncated_division(x: i64, d: i64)
    requires
        d != 0,
    ensures
        x.checked_div(d) == if i64::MIN <= truncated_quotient(x as int, d as int) <= i64::MAX {
            Some(truncated_quotient(x as int, d as int) as i64)
        } else {
            None
        },
        d != -1 ==> x.checked_rem(d) == Some(truncated_remainder(x as int, d as int) as i64),
        i64::MIN <= truncated_remainder(x as int, d as int) <= i64::MAX,
        d == -1 ==> truncated_remainder(x as int, d as int) == 0,
{
    let a = abs(x as int);
    let b = abs(d as int);
    assert(0 <= a % b < b) by (nonlinear_arith)
        requires
            b > 0,
            a >= 0,
    ;
    assert(0 <= a / b <= a) by (nonlinear_arith)
        requires
            b > 0,
            a >= 0,
    ;
    assert(x as int * -1 == -(x as int));
    assert(d as int * -1 == -(d as int));
    if x == 0 {
        assert(0int / b == 0) by (nonlinear_arith)
            requires
                b > 0,
        ;
        assert(0int % b == 0) by (nonlinear_arith)
            requires
                b > 0,
        ;
    }
    if d == -1 {
        assert(a % 1 == 0) by (nonlinear_arith);
    }
}

/// Applies an operator to the texts of two numbers.
pub fn eval_numeric_binary_expr(lhs: &str, rhs: &str, operator: &str) -> (result: Result<
    RuntimeValue,
    EvalError,
>)
    ensures
        match result {
            Ok(value) => semantics::numeric_binary(lhs@, rhs@, operator@) == Ok::<
                ValueView,
                EvalErrorView,
            >(value@),
            Err(e) => semantics::numeric_binary(lhs@, rhs@, operator@) == Err::<
                ValueView,
                EvalErrorView,
            >(e@),
        },
{
    let left = match parse_number(lhs) {
        Some(left) => left,
        None => {
            return Err(EvalError::InvalidNumber(lhs.to_owned()));
        },
    };
    let right = match parse_number(rhs) {
        Some(right) => right,
        None => {
            return Err(EvalError::InvalidNumber(rhs.to_owned()));
        },
    };
    let computed = if str_eq(operator, "+") {
        left.checked_add(right)
    } else if str_eq(operator, "-") {
        left.checked_sub(right)
    } else if str_eq(operator, "*") {
        left.checked_mul(right)
    } else if str_eq(operator, "/") {
        if right == 0 {
            return Err(EvalError::DivisionByZero);
        }
        proof {
            lemma_truncated_division(left, right);
        }
        left.checked_div(right)
    } else if str_eq(operator, "%") {
        if right == 0 {
            return Err(EvalError::DivisionByZero);
        }
        proof {
            lemma_truncated_division(left, right);
        }
        if right == -1 {
            Some(0)
        } else {
            left.checked_rem(right)
        }
    } else {
        return Err(EvalError::InvalidOperator(operator.to_owned()));
    };
    proof {
        reveal_strlit("+");
        reveal_strlit("-");
        reveal_strlit("*");
        reveal_strlit("/");
        reveal_strlit("%");
        assert("+"@[0] == '+' && "-"@[0] == '-' && "*"@[0] == '*' && "/"@[0] == '/' && "%"@[0]
            == '%');
    }
    match computed {
        Some(value) => Ok(RuntimeValue::Number(format_number(value))),
        None => Err(EvalError::ArithmeticOverflow),
    }
}

} // verus!
