//! The values that evaluation produces and that scopes store.

use vstd::prelude::*;
use vstd::string::StringExecFns;
use crate::ast::{clone_stmts, clone_strings, stmts_view, strings_view, Stmt, StmtView};

verus! {

/// A function that the host provides under a name of the global scope.
#[derive(Debug, PartialEq, Eq, Clone, Copy, Structural)]
pub enum NativeFunction {
    /// Hands each argument to the output, in order, and yields `Null`.
    Print,
    /// A placeholder for a clock: yields one fixed value.
    Time,
}

/// A runtime value.
#[allow(inconsistent_fields)]
#[derive(Debug, PartialEq)]
pub enum RuntimeValue {
    Null,
    /// The entries of an object, each key once, in the order in which the
    /// keys first came.
    Object(Vec<(String, RuntimeValue)>),
    Boolean(bool),
    /// A declared function with a copy of the scopes it was declared in.
    Function { name: String, parameters: Vec<String>, declaration_env: Environment, body: Vec<Stmt> },
    NativeFn(NativeFunction),
    /// A number, kept as text until arithmetic reads it.
    Number(String),
}

/// A name bound in a scope.
#[derive(Debug, PartialEq)]
pub struct Variable {
    pub name: String,
    pub value: RuntimeValue,
    pub constant: bool,
}

/// A scope and, through `parent`, the scopes around it.
#[derive(Debug, PartialEq)]
pub struct Environment {
    pub(crate) parent: Option<Box<Environment>>,
    pub(crate) variables: Vec<Variable>,
}

/// A runtime value as a mathematical value.
#[allow(inconsistent_fields)]
pub enum ValueView {
    Null,
    Object(Seq<(Seq<char>, ValueView)>),
    Boolean(bool),
    Function {
        name: Seq<char>,
        parameters: Seq<Seq<char>>,
        declaration_env: Seq<Seq<VariableView>>,
        body: Seq<StmtView>,
    },
    NativeFn(NativeFunction),
    Number(Seq<char>),
}

/// A binding as a mathematical value.
pub struct VariableView {
    pub name: Seq<char>,
    pub value: ValueView,
    pub constant: bool,
}

/// A scope as a mathematical value: its bindings in the order in which
/// they were declared.
pub type ScopeView = Seq<VariableView>;

/// A chain of scopes as a mathematical value: the innermost scope first,
/// the root last.
pub type EnvView = Seq<ScopeView>;

/// The views of the entries of an object, one for one.
pub open spec fn entries_view(entries: Seq<(String, RuntimeValue)>) -> Seq<(Seq<char>, ValueView)>
    decreases entries,
{
    Seq::new(
        entries.len(),
        |i: int|
            if 0 <= i < entries.len() {
                (entries[i].0@, value_view(entries[i].1))
            } else {
                (Seq::empty(), ValueView::Null)
            },
    )
}

/// The views of a sequence of values, one for one.
pub open spec fn values_view(values: Seq<RuntimeValue>) -> Seq<ValueView>
    decreases values,
{
    Seq::new(
        values.len(),
        |i: int|
            if 0 <= i < values.len() {
                value_view(values[i])
            } else {
                ValueView::Null
            },
    )
}

/// The value that a runtime value stands for.
pub open spec fn value_view(value: RuntimeValue) -> ValueView
    decreases value,
{
    match value {
        RuntimeValue::Null => ValueView::Null,
        RuntimeValue::Object(entries) => ValueView::Object(entries_view(entries@)),
        RuntimeValue::Boolean(b) => ValueView::Boolean(b),
        RuntimeValue::Function { name, parameters, declaration_env, body } => ValueView::Function {
            name: name@,
            parameters: strings_view(parameters@),
            declaration_env: env_view(declaration_env),
            body: stmts_view(body@),
        },
        RuntimeValue::NativeFn(function) => ValueView::NativeFn(function),
        RuntimeValue::Number(text) => ValueView::Number(text@),
    }
}

/// The binding that a variable stands for.
pub open spec fn variable_view(variable: Variable) -> VariableView
    decreases variable,
{
    VariableView {
        name: variable.name@,
        value: value_view(variable.value),
        constant: variable.constant,
    }
}

/// The views of the bindings of one scope, one for one.
pub open spec fn scope_view(variables: Seq<Variable>) -> ScopeView
    decreases variables,
{
    Seq::new(
        variables.len(),
        |i: int|
            if 0 <= i < variables.len() {
                variable_view(variables[i])
            } else {
                VariableView { name: Seq::empty(), value: ValueView::Null, constant: false }
            },
    )
}

/// The scopes around a scope, the nearest first.
pub open spec fn parent_view(parent: Option<Box<Environment>>) -> EnvView
    decreases parent,
{
    match parent {
        Some(env) => env_view(*env),
        None => Seq::empty(),
    }
}

/// The chain of scopes that an environment stands for.
pub open(crate) spec fn env_view(env: Environment) -> EnvView
    decreases env,
{
    seq![scope_view(env.variables@)] + parent_view(env.parent)
}

/// An environment is its own scope followed by the scopes around it.
pub(crate) proof fn lemma_env_view(env: Environment)
    ensures
        env@.len() == 1 + parent_view(env.parent).len(),
        env@[0] == scope_view(env.variables@),
        env@.skip(1) == parent_view(env.parent),
        env@ == seq![scope_view(env.variables@)] + parent_view(env.parent),
{
    assert(env@.skip(1) =~= parent_view(env.parent));
}

impl View for RuntimeValue {
    type V = ValueView;

    open spec fn view(&self) -> ValueView {
        value_view(*self)
    }
}

impl View for Variable {
    type V = VariableView;

    open spec fn view(&self) -> VariableView {
        variable_view(*self)
    }
}

impl View for Environment {
    type V = EnvView;

    open spec fn view(&self) -> EnvView {
        env_view(*self)
    }
}

/// A copy of the entries of an object.
pub fn clone_entries(entries: &Vec<(String, RuntimeValue)>) -> (copy: Vec<(String, RuntimeValue)>)
    ensures
        entries_view(copy@) == entries_view(entries@),
    decreases entries,
{
    let mut copy: Vec<(String, RuntimeValue)> = Vec::new();
    let mut i: usize = 0;
    while i < entries.len()
        invariant
            i <= entries.len(),
            copy.len() == i,
            forall|k: int|
                0 <= k < i ==> (#[trigger] copy[k]).0@ == entries[k].0@ && copy[k].1@
                    == entries[k].1@,
        decreases entries.len() - i,
    {
        let entry = &entries[i];
        copy.push((entry.0.clone(), clone_value(&entry.1)));
        i += 1;
    }
    assert(entries_view(copy@) =~= entries_view(entries@));
    copy
}

/// A copy of a value and of everything it holds.
pub fn clone_value(value: &RuntimeValue) -> (copy: RuntimeValue)
    ensures
        copy@ == value@,
    decreases value,
{
    match value {
        RuntimeValue::Null => RuntimeValue::Null,
        RuntimeValue::Object(entries) => RuntimeValue::Object(clone_entries(entries)),
        RuntimeValue::Boolean(b) => RuntimeValue::Boolean(*b),
        RuntimeValue::Function { name, parameters, declaration_env, body } => {
            RuntimeValue::Function {
                name: name.clone(),
                parameters: clone_strings(parameters),
                declaration_env: clone_env(declaration_env),
                body: clone_stmts(body),
            }
        },
        RuntimeValue::NativeFn(function) => RuntimeValue::NativeFn(*function),
        RuntimeValue::Number(text) => RuntimeValue::Number(text.clone()),
    }
}

/// A copy of the bindings of one scope.
pub fn clone_variables(variables: &Vec<Variable>) -> (copy: Vec<Variable>)
    ensures
        scope_view(copy@) == scope_view(variables@),
    decreases variables,
{
    let mut copy: Vec<Variable> = Vec::new();
    let mut i: usize = 0;
    while i < variables.len()
        invariant
            i <= variables.len(),
            copy.len() == i,
            forall|k: int| 0 <= k < i ==> (#[trigger] copy[k])@ == variables[k]@,
        decreases variables.len() - i,
    {
        let variable = &variables[i];
        copy.push(
            Variable {
                name: variable.name.clone(),
                value: clone_value(&variable.value),
                constant: variable.constant,
            },
        );
        i += 1;
    }
    assert(scope_view(copy@) =~= scope_view(variables@));
    copy
}

/// A copy of a scope and of all the scopes around it.
pub fn clone_env(env: &Environment) -> (copy: Environment)
    ensures
        copy@ == env@,
    decreases env,
{
    let parent = match &env.parent {
        Some(parent) => Some(Box::new(clone_env(&**parent))),
        None => None,
    };
    Environment { parent, variables: clone_variables(&env.variables) }
}

/// The lines of the entries of an object from `from` on: for each entry
/// its key, an arrow and the text of its value, which ends its own line,
/// and a line end.
pub open spec fn entries_text(entries: Seq<(Seq<char>, ValueView)>, from: int) -> Seq<char>
    decreases entries, entries.len() - from,
{
    if 0 <= from < entries.len() {
        entries[from].0 + " -> "@ + value_text(entries[from].1) + "\n"@ + entries_text(
            entries,
            from + 1,
        )
    } else {
        Seq::empty()
    }
}

/// A value as text, as a host shows it. Every value ends its line.
pub open spec fn value_text(value: ValueView) -> Seq<char>
    decreases value, 0nat,
{
    match value {
        ValueView::Null => "null\n"@,
        ValueView::Object(entries) => entries_text(entries, 0),
        ValueView::Boolean(b) => if b {
            "true\n"@
        } else {
            "false\n"@
        },
        ValueView::Function { name, parameters, declaration_env, body } => name + "()\n"@,
        ValueView::NativeFn(function) => "FnCall\n"@,
        ValueView::Number(text) => text + "\n"@,
    }
}

impl RuntimeValue {
    /// The value as text, as a host shows it.
    pub fn to_text(&self) -> (text: String)
        ensures
            text@ == value_text(self@),
        decreases self,
    {
        match self {
            RuntimeValue::Null => "null\n".to_owned(),
            RuntimeValue::Object(entries) => {
                let mut text = String::new();
                let mut i: usize = 0;
                assert(text@ + entries_text(self@->Object_0, 0) =~= value_text(self@));
                while i < entries.len()
                    invariant
                        i <= entries.len(),
                        self@ == ValueView::Object(entries_view(entries@)),
                        *self == RuntimeValue::Object(*entries),
                        text@ + entries_text(entries_view(entries@), i as int) == value_text(self@),
                    decreases entries.len() - i,
                {
                    let entry = &entries[i];
                    let ghost before = text@;
                    let value = entry.1.to_text();
                    text.append(entry.0.as_str());
                    text.append(" -> ");
                    text.append(value.as_str());
                    text.append("\n");
                    proof {
                        let all = entries_view(entries@);
                        assert(all[i as int] == (entry.0@, entry.1@));
                        assert(text@ + entries_text(all, i + 1) =~= before + entries_text(
                            all,
                            i as int,
                        ));
                    }
                    i += 1;
                }
                assert(text@ + Seq::<char>::empty() =~= text@);
                text
            },
            RuntimeValue::Boolean(b) => if *b {
                "true\n".to_owned()
            } else {
                "false\n".to_owned()
            },
            RuntimeValue::Function { name, parameters: _, declaration_env: _, body: _ } => {
                name.clone().concat("()\n")
            },
            RuntimeValue::NativeFn(_) => "FnCall\n".to_owned(),
            RuntimeValue::Number(text) => text.clone().concat("\n"),
        }
    }
}

impl Clone for RuntimeValue {
    fn clone(&self) -> (copy: Self)
        ensures
            copy@ == self@,
    {
        clone_value(self)
    }
}

impl Clone for Variable {
    fn clone(&self) -> (copy: Self)
        ensures
            copy@ == self@,
    {
        Variable {
            name: self.name.clone(),
            value: clone_value(&self.value),
            constant: self.constant,
        }
    }
}

impl Clone for Environment {
    fn clone(&self) -> (copy: Self)
        ensures
            copy@ == self@,
    {
        clone_env(self)
    }
}

} // verus!
