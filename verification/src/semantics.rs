//! What a program means: the value of every node, the scopes it leaves
//! behind and the values it hands to the output.
//!
//! A function value holds a copy of the scopes in which it was declared,
//! taken before its own name was bound there. What those scopes hold
//! later it does not see.

use vstd::prelude::*;
use crate::ast::{PropertyView, StmtView};
use crate::environment::{assign, declare, lookup};
use crate::error::{EnvErrorView, EvalErrorView, InterpreterErrorView, RuntimeErrorView};
use crate::number::{integer_text, parse_i64, truncated_quotient, truncated_remainder};
use crate::values::{EnvView, NativeFunction, ValueView, VariableView};

verus! {

/// How an evaluation ended: its value or its failure, the scopes as it
/// left them, and everything handed to the output so far.
pub struct Outcome {
    pub result: Result<ValueView, RuntimeErrorView>,
    pub env: EnvView,
    pub printed: Seq<ValueView>,
}

/// How the evaluation of a list of expressions ended.
pub struct ListOutcome {
    pub result: Result<Seq<ValueView>, RuntimeErrorView>,
    pub env: EnvView,
    pub printed: Seq<ValueView>,
}

/// The result of an operator on two integers, before it is held to the
/// range of the 64-bit signed integers.
pub open spec fn arithmetic(operator: Seq<char>, lhs: int, rhs: int) -> Result<int, EvalErrorView> {
    if operator == "+"@ {
        Ok(lhs + rhs)
    } else if operator == "-"@ {
        Ok(lhs - rhs)
    } else if operator == "*"@ {
        Ok(lhs * rhs)
    } else if operator == "/"@ {
        if rhs == 0 {
            Err(EvalErrorView::DivisionByZero)
        } else {
            Ok(truncated_quotient(lhs, rhs))
        }
    } else if operator == "%"@ {
        if rhs == 0 {
            Err(EvalErrorView::DivisionByZero)
        } else {
            Ok(truncated_remainder(lhs, rhs))
        }
    } else {
        Err(EvalErrorView::InvalidOperator(operator))
    }
}

/// The value of an operator on the texts of two numbers: both are read
/// as 64-bit signed integers, the left one first, and the result is
/// written in decimal.
pub open spec fn numeric_binary(lhs: Seq<char>, rhs: Seq<char>, operator: Seq<char>) -> Result<
    ValueView,
    EvalErrorView,
> {
    match parse_i64(lhs) {
        None => Err(EvalErrorView::InvalidNumber(lhs)),
        Some(left) => match parse_i64(rhs) {
            None => Err(EvalErrorView::InvalidNumber(rhs)),
            Some(right) => match arithmetic(operator, left as int, right as int) {
                Err(e) => Err(e),
                Ok(value) => if i64::MIN <= value <= i64::MAX {
                    Ok(ValueView::Number(integer_text(value)))
                } else {
                    Err(EvalErrorView::ArithmeticOverflow)
                },
            },
        },
    }
}

/// The value of a binary expression whose operands have been evaluated:
/// arithmetic on two numbers, `Null` where an operand is no number.
pub open spec fn binary_value(left: ValueView, right: ValueView, operator: Seq<char>) -> Result<
    ValueView,
    EvalErrorView,
> {
    match (left, right) {
        (ValueView::Number(lhs), ValueView::Number(rhs)) => numeric_binary(lhs, rhs, operator),
        _ => Ok(ValueView::Null),
    }
}

/// The value of a call of a native function.
pub open spec fn native_value(function: NativeFunction, args: Seq<ValueView>) -> ValueView {
    match function {
        NativeFunction::Print => ValueView::Null,
        NativeFunction::Time => ValueView::Number("Friday 13th"@),
    }
}

/// What a call of a native function hands to the output.
pub open spec fn native_output(function: NativeFunction, args: Seq<ValueView>) -> Seq<ValueView> {
    match function {
        NativeFunction::Print => args,
        NativeFunction::Time => Seq::empty(),
    }
}

/// The position of the first entry with the given key at or after
/// `from`, or the number of entries.
pub open spec fn key_position(entries: Seq<(Seq<char>, ValueView)>, key: Seq<char>, from: int) -> int
    decreases entries.len() - from,
{
    if 0 <= from < entries.len() && entries[from].0 != key {
        key_position(entries, key, from + 1)
    } else {
        from
    }
}

/// The entries of an object after `key` was set to `value`: the entry of
/// the key holds the new value where there was one, and a new entry
/// stands at the end where there was none.
pub open spec fn with_entry(entries: Seq<(Seq<char>, ValueView)>, key: Seq<char>, value: ValueView) -> Seq<
    (Seq<char>, ValueView),
> {
    let at = key_position(entries, key, 0);
    if 0 <= at < entries.len() {
        entries.update(at, (key, value))
    } else {
        entries.push((key, value))
    }
}

/// The scopes of a call: a fresh scope inside the scopes that the
/// function was declared in, with the parameters from `from` on bound to
/// the arguments, position by position.
pub open spec fn bind_parameters(scope: EnvView, parameters: Seq<Seq<char>>, args: Seq<ValueView>, from: int) -> Result<
    EnvView,
    EnvErrorView,
>
    decreases parameters.len() - from,
{
    if 0 <= from < parameters.len() {
        match declare(scope, parameters[from], args[from], false) {
            Ok(bound) => bind_parameters(bound, parameters, args, from + 1),
            Err(e) => Err(e),
        }
    } else {
        Ok(scope)
    }
}

/// An evaluation that failed.
pub open spec fn failed(error: RuntimeErrorView, env: EnvView, printed: Seq<ValueView>) -> Outcome {
    Outcome { result: Err(error), env, printed }
}

/// An evaluation that gave a value.
pub open spec fn done(value: ValueView, env: EnvView, printed: Seq<ValueView>) -> Outcome {
    Outcome { result: Ok(value), env, printed }
}

/// The outcome of a scope operation that yields a value and leaves the
/// scopes as `env`, or fails and leaves them as `unchanged`.
pub open spec fn scoped(
    changed: Result<EnvView, EnvErrorView>,
    value: ValueView,
    unchanged: EnvView,
    printed: Seq<ValueView>,
) -> Outcome {
    match changed {
        Ok(env) => done(value, env, printed),
        Err(e) => failed(RuntimeErrorView::Env(e), unchanged, printed),
    }
}

/// The statements from `from` on, one after the other. The value is that
/// of the last statement, or `last` where none is left; the first
/// failure ends the evaluation.
pub open spec fn eval_block(
    stmts: Seq<StmtView>,
    from: int,
    last: ValueView,
    env: EnvView,
    printed: Seq<ValueView>,
    depth: nat,
) -> Outcome
    decreases depth, stmts, stmts.len() - from,
{
    if 0 <= from < stmts.len() {
        let first = eval(stmts[from], env, printed, depth);
        match first.result {
            Ok(value) => eval_block(stmts, from + 1, value, first.env, first.printed, depth),
            Err(_) => first,
        }
    } else {
        done(last, env, printed)
    }
}

/// The arguments from `from` on, from left to right, behind the values
/// that are there already.
pub open spec fn eval_arguments(
    args: Seq<StmtView>,
    from: int,
    values: Seq<ValueView>,
    env: EnvView,
    printed: Seq<ValueView>,
    depth: nat,
) -> ListOutcome
    decreases depth, args, args.len() - from,
{
    if 0 <= from < args.len() {
        let first = eval(args[from], env, printed, depth);
        match first.result {
            Ok(value) => eval_arguments(
                args,
                from + 1,
                values.push(value),
                first.env,
                first.printed,
                depth,
            ),
            Err(e) => ListOutcome { result: Err(e), env: first.env, printed: first.printed },
        }
    } else {
        ListOutcome { result: Ok(values), env, printed }
    }
}

/// The entries of an object literal from `from` on, in the order of the
/// source. An entry without a value takes the value of the variable of
/// its name. A key that comes again replaces the value it had.
pub open spec fn eval_properties(
    properties: Seq<PropertyView>,
    from: int,
    entries: Seq<(Seq<char>, ValueView)>,
    env: EnvView,
    printed: Seq<ValueView>,
    depth: nat,
) -> Outcome
    decreases depth, properties, properties.len() - from,
{
    if 0 <= from < properties.len() {
        let property = properties[from];
        let first = match property.value {
            Some(value) => eval(*value, env, printed, depth),
            None => match lookup(env, property.key) {
                Ok(value) => done(value, env, printed),
                Err(e) => failed(RuntimeErrorView::Env(e), env, printed),
            },
        };
        match first.result {
            Ok(value) => eval_properties(
                properties,
                from + 1,
                with_entry(entries, property.key, value),
                first.env,
                first.printed,
                depth,
            ),
            Err(_) => first,
        }
    } else {
        done(ValueView::Object(entries), env, printed)
    }
}

/// The call of a value with arguments that have been evaluated.
///
/// A native function hands over its output and yields its value. A
/// declared function takes as many arguments as it has parameters, and
/// runs its body in a fresh scope inside a copy of the scopes it was
/// declared in, one call deeper; the scopes of the caller stay as they
/// are. `called` is the expression that gave the value.
pub open spec fn eval_call(
    callee: ValueView,
    args: Seq<ValueView>,
    called: StmtView,
    env: EnvView,
    printed: Seq<ValueView>,
    depth: nat,
) -> Outcome
    decreases depth, called, 0nat,
{
    match callee {
        ValueView::NativeFn(function) => done(
            native_value(function, args),
            env,
            printed + native_output(function, args),
        ),
        ValueView::Function { name, parameters, declaration_env, body } => {
            if parameters.len() != args.len() {
                failed(
                    RuntimeErrorView::Eval(
                        EvalErrorView::ArityMismatch {
                            expected: parameters.len(),
                            found: args.len(),
                        },
                    ),
                    env,
                    printed,
                )
            } else if depth == 0 {
                failed(RuntimeErrorView::Eval(EvalErrorView::CallDepthExceeded), env, printed)
            } else {
                match bind_parameters(
                    seq![Seq::<VariableView>::empty()] + declaration_env,
                    parameters,
                    args,
                    0,
                ) {
                    Err(e) => failed(RuntimeErrorView::Env(e), env, printed),
                    Ok(scope) => {
                        let ran = eval_block(
                            body,
                            0,
                            ValueView::Null,
                            scope,
                            printed,
                            (depth - 1) as nat,
                        );
                        Outcome { result: ran.result, env, printed: ran.printed }
                    },
                }
            }
        },
        _ => failed(RuntimeErrorView::Eval(EvalErrorView::ValueNotAFunction(called)), env, printed),
    }
}

/// The outcome of evaluating a node in the scopes `env`, after `printed`
/// was handed to the output, with `depth` nested calls still allowed.
pub open spec fn eval(stmt: StmtView, env: EnvView, printed: Seq<ValueView>, depth: nat) -> Outcome
    decreases depth, stmt, 0nat,
{
    match stmt {
        StmtView::NumericLiteral(text) => done(ValueView::Number(text), env, printed),
        StmtView::Identifier(name) => match lookup(env, name) {
            Ok(value) => done(value, env, printed),
            Err(e) => failed(RuntimeErrorView::Env(e), env, printed),
        },
        StmtView::ObjectLiteral(properties) => eval_properties(
            properties,
            0,
            Seq::empty(),
            env,
            printed,
            depth,
        ),
        StmtView::CallExpr { args, caller } => {
            let evaluated = eval_arguments(args, 0, Seq::empty(), env, printed, depth);
            match evaluated.result {
                Err(e) => failed(e, evaluated.env, evaluated.printed),
                Ok(values) => {
                    let callee = eval(*caller, evaluated.env, evaluated.printed, depth);
                    match callee.result {
                        Err(_) => callee,
                        Ok(function) => eval_call(
                            function,
                            values,
                            *caller,
                            callee.env,
                            callee.printed,
                            depth,
                        ),
                    }
                },
            }
        },
        StmtView::AssignmentExpr { assignee, value } => match *assignee {
            StmtView::Identifier(name) => {
                let right = eval(*value, env, printed, depth);
                match right.result {
                    Err(_) => right,
                    Ok(assigned) => scoped(
                        assign(right.env, name, assigned),
                        assigned,
                        right.env,
                        right.printed,
                    ),
                }
            },
            _ => failed(RuntimeErrorView::Eval(EvalErrorView::InvalidAssignment), env, printed),
        },
        StmtView::FnDeclaration { name, parameters, body, is_const } => {
            let function = ValueView::Function { name, parameters, declaration_env: env, body };
            scoped(declare(env, name, function, true), function, env, printed)
        },
        StmtView::VarDeclaration { constant, identifier, value } => {
            let initial = match value {
                Some(value) => eval(*value, env, printed, depth),
                None => done(ValueView::Null, env, printed),
            };
            match initial.result {
                Err(_) => initial,
                Ok(declared) => scoped(
                    declare(initial.env, identifier, declared, constant),
                    declared,
                    initial.env,
                    initial.printed,
                ),
            }
        },
        StmtView::BinaryExpr { left, right, operator } => {
            let lhs = eval(*left, env, printed, depth);
            match lhs.result {
                Err(_) => lhs,
                Ok(left_value) => {
                    let rhs = eval(*right, lhs.env, lhs.printed, depth);
                    match rhs.result {
                        Err(_) => rhs,
                        Ok(right_value) => match binary_value(left_value, right_value, operator) {
                            Ok(value) => done(value, rhs.env, rhs.printed),
                            Err(e) => failed(RuntimeErrorView::Eval(e), rhs.env, rhs.printed),
                        },
                    }
                },
            }
        },
        StmtView::Program(body) => eval_block(body, 0, ValueView::Null, env, printed, depth),
        _ => failed(
            RuntimeErrorView::Interpreter(InterpreterErrorView::UnexpectedStatement(stmt)),
            env,
            printed,
        ),
    }
}

/// Whether no key stands twice among the entries of an object.
pub open spec fn keys_distinct(entries: Seq<(Seq<char>, ValueView)>) -> bool {
    forall|i: int, j: int|
        0 <= i < j < entries.len() ==> (#[trigger] entries[i]).0 != (#[trigger] entries[j]).0
}

/// `key_position` gives the first entry of the key, if there is one.
pub proof fn lemma_key_position(entries: Seq<(Seq<char>, ValueView)>, key: Seq<char>, from: int)
    requires
        0 <= from,
    ensures
        from <= key_position(entries, key, from),
        key_position(entries, key, from) < entries.len() ==> entries[key_position(
            entries,
            key,
            from,
        )].0 == key,
        forall|k: int|
            from <= k < key_position(entries, key, from) && k < entries.len() ==> (
            #[trigger] entries[k]).0 != key,
    decreases entries.len() - from,
{
    if from < entries.len() && entries[from].0 != key {
        lemma_key_position(entries, key, from + 1);
    }
}

/// Setting a key keeps every key single, holds the new value under the
/// key, and leaves the entries of the other keys alone.
pub proof fn lemma_with_entry(entries: Seq<(Seq<char>, ValueView)>, key: Seq<char>, value: ValueView)
    requires
        keys_distinct(entries),
    ensures
        ({
            let set = with_entry(entries, key, value);
            let at = key_position(set, key, 0);
            &&& keys_distinct(set)
            &&& 0 <= at < set.len()
            &&& set[at] == (key, value)
            &&& forall|i: int|
                0 <= i < entries.len() && (#[trigger] entries[i]).0 != key ==> set[i] == entries[i]
        }),
{
    let set = with_entry(entries, key, value);
    let old_at = key_position(entries, key, 0);
    lemma_key_position(entries, key, 0);
    lemma_key_position(set, key, 0);
    assert forall|i: int, j: int| 0 <= i < j < set.len() implies (#[trigger] set[i]).0 != (
    #[trigger] set[j]).0 by {
        if old_at < entries.len() {
            assert(set[i].0 == entries[i].0 && set[j].0 == entries[j].0);
        } else if j < entries.len() {
            assert(set[i] == entries[i] && set[j] == entries[j]);
        } else {
            assert(set[i] == entries[i]);
        }
    }
    let at = key_position(set, key, 0);
    if old_at < entries.len() {
        assert(set[old_at] == (key, value));
        if at < old_at {
            assert(set[at].0 == key);
        }
    } else {
        assert(set[entries.len() as int] == (key, value));
        if at < entries.len() {
            assert(set[at] == entries[at]);
        }
    }
}

/// An object literal evaluates to an object in which no key stands twice.
pub proof fn lemma_object_keys_distinct(
    properties: Seq<PropertyView>,
    from: int,
    entries: Seq<(Seq<char>, ValueView)>,
    env: EnvView,
    printed: Seq<ValueView>,
    depth: nat,
)
    requires
        0 <= from,
        keys_distinct(entries),
    ensures
        eval_properties(properties, from, entries, env, printed, depth).result matches Ok(value)
            ==> value matches ValueView::Object(object) && keys_distinct(object),
    decreases properties.len() - from,
{
    if from < properties.len() {
        let property = properties[from];
        let first = match property.value {
            Some(value) => eval(*value, env, printed, depth),
            None => match lookup(env, property.key) {
                Ok(value) => done(value, env, printed),
                Err(e) => failed(RuntimeErrorView::Env(e), env, printed),
            },
        };
        if let Ok(value) = first.result {
            lemma_with_entry(entries, property.key, value);
            lemma_object_keys_distinct(
                properties,
                from + 1,
                with_entry(entries, property.key, value),
                first.env,
                first.printed,
                depth,
            );
        }
    }
}

/// Evaluating a name changes neither the scopes nor the output, so that
/// evaluating it again gives the same outcome, whatever number of nested
/// calls is allowed either time.
pub proof fn lemma_identifier_evaluates_alike(
    name: Seq<char>,
    env: EnvView,
    printed: Seq<ValueView>,
    depth: nat,
    again: nat,
)
    ensures
        ({
            let first = eval(StmtView::Identifier(name), env, printed, depth);
            &&& first.env == env
            &&& first.printed == printed
            &&& eval(StmtView::Identifier(name), first.env, first.printed, again) == first
        }),
{
}

} // verus!
