//! Chained lexical scopes: declaring, assigning and looking up names.

use vstd::prelude::*;
use crate::error::{EnvError, EnvErrorView};
use crate::text::str_eq;
pub use crate::values::Environment;
use crate::values::{
    clone_value, lemma_env_view, scope_view, EnvView, NativeFunction, RuntimeValue, ScopeView,
    ValueView, Variable, VariableView,
};

verus! {

/// The position of the first binding of `name` at or after `from`, or the
/// number of bindings if there is none.
pub open spec fn find(scope: ScopeView, name: Seq<char>, from: int) -> int
    decreases scope.len() - from,
{
    if 0 <= from < scope.len() && scope[from].name != name {
        find(scope, name, from + 1)
    } else {
        from
    }
}

/// Whether a scope binds `name`.
pub open spec fn defines(scope: ScopeView, name: Seq<char>) -> bool {
    0 <= find(scope, name, 0) < scope.len()
}

/// How many scopes out from `depth` the nearest scope that binds `name`
/// lies, counted from the innermost scope; `None` where no scope from
/// `depth` outward binds it.
pub open spec fn resolve_from(env: EnvView, name: Seq<char>, depth: int) -> Option<int>
    decreases env.len() - depth,
{
    if depth < 0 || depth >= env.len() {
        None
    } else if defines(env[depth], name) {
        Some(depth)
    } else {
        resolve_from(env, name, depth + 1)
    }
}

/// The depth of the scope that `name` resolves to.
pub open spec fn resolve(env: EnvView, name: Seq<char>) -> Option<int> {
    resolve_from(env, name, 0)
}

/// The binding that `name` resolves to, where it resolves.
pub open spec fn binding(env: EnvView, name: Seq<char>) -> Option<VariableView> {
    match resolve(env, name) {
        Some(depth) => Some(env[depth][find(env[depth], name, 0)]),
        None => None,
    }
}

/// What looking a name up gives: the value of the nearest binding.
pub open spec fn lookup(env: EnvView, name: Seq<char>) -> Result<ValueView, EnvErrorView> {
    match binding(env, name) {
        Some(variable) => Ok(variable.value),
        None => Err(EnvErrorView::VariableNotFound(name)),
    }
}

/// What declaring a name gives: the chain with the binding added to the
/// innermost scope, unless that scope binds the name already.
pub open spec fn declare(env: EnvView, name: Seq<char>, value: ValueView, constant: bool) -> Result<
    EnvView,
    EnvErrorView,
> {
    if defines(env[0], name) {
        Err(EnvErrorView::RedeclareVariable(name))
    } else {
        Ok(env.update(0, env[0].push(VariableView { name, value, constant })))
    }
}

/// What assigning to a name gives: the chain with the value of the
/// nearest binding replaced, unless no scope binds the name or the
/// binding is a constant.
pub open spec fn assign(env: EnvView, name: Seq<char>, value: ValueView) -> Result<
    EnvView,
    EnvErrorView,
> {
    match resolve(env, name) {
        None => Err(EnvErrorView::VariableNotFound(name)),
        Some(depth) => {
            let scope = env[depth];
            let at = find(scope, name, 0);
            if scope[at].constant {
                Err(EnvErrorView::ReassignVariable(name))
            } else {
                Ok(
                    env.update(
                        depth,
                        scope.update(at, VariableView { name: scope[at].name, value, constant: false }),
                    ),
                )
            }
        },
    }
}

/// The scope that every program starts in: the three literals and the
/// two native functions, all constant.
pub open spec fn global_scope() -> ScopeView {
    seq![
        VariableView { name: "true"@, value: ValueView::Boolean(true), constant: true },
        VariableView { name: "false"@, value: ValueView::Boolean(false), constant: true },
        VariableView { name: "null"@, value: ValueView::Null, constant: true },
        VariableView {
            name: "print"@,
            value: ValueView::NativeFn(NativeFunction::Print),
            constant: true,
        },
        VariableView {
            name: "time"@,
            value: ValueView::NativeFn(NativeFunction::Time),
            constant: true,
        },
    ]
}

/// Whether a scope binds no name twice.
pub open spec fn scope_distinct(scope: ScopeView) -> bool {
    forall|i: int, j: int|
        0 <= i < j < scope.len() ==> (#[trigger] scope[i]).name != (#[trigger] scope[j]).name
}

/// Whether no scope of the chain binds a name twice. A name may still be
/// bound in several scopes: the inner binding shadows the outer one.
pub open spec fn names_distinct(env: EnvView) -> bool {
    forall|depth: int| 0 <= depth < env.len() ==> scope_distinct(#[trigger] env[depth])
}

/// The views of what a scope operation returns.
pub open spec fn returned_view(result: Result<RuntimeValue, EnvError>) -> Result<
    ValueView,
    EnvErrorView,
> {
    match result {
        Ok(value) => Ok(value@),
        Err(e) => Err(e@),
    }
}

} // verus!

verus! {

/// Where the innermost scope does not bind a name, the name resolves as
/// it does in the scopes around it, one scope further out.
pub proof fn lemma_resolve_outward(env: EnvView, name: Seq<char>)
    requires
        env.len() > 0,
        !defines(env[0], name),
    ensures
        resolve(env, name) == match resolve(env.skip(1), name) {
            Some(depth) => Some(depth + 1),
            None => None,
        },
{
    lemma_resolve_shift(env, name, 0);
}

proof fn lemma_resolve_shift(env: EnvView, name: Seq<char>, depth: int)
    requires
        env.len() > 0,
        0 <= depth,
    ensures
        resolve_from(env, name, depth + 1) == match resolve_from(env.skip(1), name, depth) {
            Some(found) => Some(found + 1),
            None => None,
        },
    decreases env.len() - depth,
{
    if depth + 1 < env.len() {
        assert(env.skip(1)[depth] == env[depth + 1]);
        if !defines(env[depth + 1], name) {
            lemma_resolve_shift(env, name, depth + 1);
        }
    }
}

/// `find` gives the first binding of the name, if the scope has one.
pub proof fn lemma_find(scope: ScopeView, name: Seq<char>, from: int)
    requires
        0 <= from,
    ensures
        from <= find(scope, name, from),
        find(scope, name, from) < scope.len() ==> scope[find(scope, name, from)].name == name,
        forall|k: int| from <= k < find(scope, name, from) && k < scope.len() ==> (#[trigger] scope[k]).name != name,
    decreases scope.len() - from,
{
    if from < scope.len() && scope[from].name != name {
        lemma_find(scope, name, from + 1);
    }
}

/// A name resolves to a scope of the chain, and to the nearest that binds
/// it.
pub proof fn lemma_resolve_range(env: EnvView, name: Seq<char>, depth: int)
    requires
        0 <= depth,
    ensures
        resolve_from(env, name, depth) matches Some(found) ==> depth <= found < env.len()
            && defines(env[found], name) && forall|k: int|
            depth <= k < found ==> !defines(#[trigger] env[k], name),
        resolve_from(env, name, depth) is None ==> forall|k: int|
            depth <= k < env.len() ==> !defines(#[trigger] env[k], name),
    decreases env.len() - depth,
{
    if depth < env.len() && !defines(env[depth], name) {
        lemma_resolve_range(env, name, depth + 1);
    }
}

/// How the scopes around a scope sit inside the whole chain.
proof fn lemma_chain(scope: ScopeView, around: EnvView)
    ensures
        forall|depth: int|
            0 <= depth <= around.len() ==> #[trigger] around.skip(depth) == (seq![scope]
                + around).skip(depth + 1),
        forall|depth: int, rest: EnvView|
            0 <= depth <= around.len() ==> seq![scope] + #[trigger] (around.take(depth) + rest) == (
            seq![scope] + around).take(depth + 1) + rest,
{
    assert forall|depth: int| 0 <= depth <= around.len() implies #[trigger] around.skip(depth) == (
    seq![scope] + around).skip(depth + 1) by {
        assert(around.skip(depth) =~= (seq![scope] + around).skip(depth + 1));
    }
    assert forall|depth: int, rest: EnvView| 0 <= depth <= around.len() implies seq![scope]
        + #[trigger] (around.take(depth) + rest) == (seq![scope] + around).take(depth + 1)
        + rest by {
        assert(seq![scope] + (around.take(depth) + rest) =~= (seq![scope] + around).take(depth + 1)
            + rest);
    }
}

/// Where a binding is added behind a scope, an earlier binding of the
/// name is still the one found; the new one is found where there was
/// none.
pub proof fn lemma_find_after_push(scope: ScopeView, added: VariableView, name: Seq<char>, from: int)
    requires
        0 <= from <= scope.len(),
    ensures
        find(scope.push(added), name, from) == if find(scope, name, from) < scope.len() {
            find(scope, name, from)
        } else if added.name == name {
            scope.len() as int
        } else {
            (scope.len() + 1) as int
        },
    decreases scope.len() - from,
{
    let longer = scope.push(added);
    if from < scope.len() {
        assert(longer[from] == scope[from]);
        if scope[from].name != name {
            lemma_find_after_push(scope, added, name, from + 1);
        }
    } else {
        assert(longer[from] == added);
        reveal_with_fuel(find, 2);
    }
}

/// The global scope binds no name twice.
pub proof fn lemma_global_scope_distinct()
    ensures
        scope_distinct(global_scope()),
        names_distinct(seq![global_scope()]),
{
    lemma_global_names_differ();
}

/// The five names of the global scope differ from one another.
proof fn lemma_global_names_differ()
    ensures
        "true"@ != "false"@,
        "true"@ != "null"@,
        "true"@ != "print"@,
        "true"@ != "time"@,
        "false"@ != "null"@,
        "false"@ != "print"@,
        "false"@ != "time"@,
        "null"@ != "print"@,
        "null"@ != "time"@,
        "print"@ != "time"@,
{
    reveal_strlit("true");
    reveal_strlit("false");
    reveal_strlit("null");
    reveal_strlit("print");
    reveal_strlit("time");
    assert("true"@.len() == 4 && "false"@.len() == 5 && "null"@.len() == 4);
    assert("print"@.len() == 5 && "time"@.len() == 4);
    assert("true"@[0] == 't' && "null"@[0] == 'n' && "false"@[0] == 'f');
    assert("print"@[0] == 'p' && "time"@[1] == 'i' && "true"@[1] == 'r');
}

/// A fresh scope inside a chain that binds no name twice in a scope gives
/// such a chain again.
pub proof fn lemma_distinct_in_fresh_scope(parent: EnvView)
    requires
        names_distinct(parent),
    ensures
        names_distinct(seq![Seq::<VariableView>::empty()] + parent),
{
    let child = seq![Seq::<VariableView>::empty()] + parent;
    assert forall|depth: int| 0 <= depth < child.len() implies scope_distinct(
        #[trigger] child[depth],
    ) by {
        if depth > 0 {
            assert(child[depth] == parent[depth - 1]);
        }
    }
}

/// Declaring keeps every scope free of names bound twice.
pub proof fn lemma_distinct_after_declare(env: EnvView, name: Seq<char>, value: ValueView, constant: bool)
    requires
        env.len() > 0,
        names_distinct(env),
    ensures
        names_distinct(after_declare(env, name, value, constant)),
{
    if !defines(env[0], name) {
        let added = VariableView { name, value, constant };
        let scope = env[0].push(added);
        let declared = env.update(0, scope);
        lemma_find(env[0], name, 0);
        assert(scope_distinct(env[0]));
        assert(scope_distinct(scope)) by {
            assert forall|i: int, j: int| 0 <= i < j < scope.len() implies (#[trigger] scope[i]).name
                != (#[trigger] scope[j]).name by {
                if j < env[0].len() {
                    assert(scope[i] == env[0][i] && scope[j] == env[0][j]);
                } else {
                    assert(scope[i] == env[0][i]);
                }
            }
        }
        assert forall|depth: int| 0 <= depth < declared.len() implies scope_distinct(
            #[trigger] declared[depth],
        ) by {
            if depth > 0 {
                assert(declared[depth] == env[depth]);
            }
        }
    }
}

/// Assigning keeps every scope free of names bound twice.
pub proof fn lemma_distinct_after_assign(env: EnvView, name: Seq<char>, value: ValueView)
    requires
        names_distinct(env),
        assign(env, name, value) is Ok,
    ensures
        names_distinct(assign(env, name, value)->Ok_0),
{
    let assigned = assign(env, name, value)->Ok_0;
    lemma_resolve_range(env, name, 0);
    let depth = resolve(env, name)->0;
    let scope = env[depth];
    let at = find(scope, name, 0);
    lemma_find(scope, name, 0);
    let changed = scope.update(at, VariableView { name: scope[at].name, value, constant: false });
    assert(scope_distinct(scope));
    assert(scope_distinct(changed)) by {
        assert forall|i: int, j: int| 0 <= i < j < changed.len() implies (
        #[trigger] changed[i]).name != (#[trigger] changed[j]).name by {
            assert(changed[i].name == scope[i].name && changed[j].name == scope[j].name);
        }
    }
    assert forall|k: int| 0 <= k < assigned.len() implies scope_distinct(#[trigger] assigned[k]) by {
        if k != depth {
            assert(assigned[k] == env[k]);
        }
    }
}

/// The chain that an attempt to declare a name leaves: the new chain
/// where the name was declared, the old one where it was refused.
pub open spec fn after_declare(env: EnvView, name: Seq<char>, value: ValueView, constant: bool) -> EnvView {
    match declare(env, name, value, constant) {
        Ok(declared) => declared,
        Err(_) => env,
    }
}

/// Declaring a name a second time in the same scope fails: whatever the
/// first attempt did, and whatever the two attempts would bind.
pub proof fn lemma_redeclaration_fails(
    env: EnvView,
    name: Seq<char>,
    first: ValueView,
    first_constant: bool,
    second: ValueView,
    second_constant: bool,
)
    requires
        env.len() > 0,
    ensures
        declare(after_declare(env, name, first, first_constant), name, second, second_constant)
            == Err::<EnvView, EnvErrorView>(EnvErrorView::RedeclareVariable(name)),
{
    if !defines(env[0], name) {
        lemma_find(env[0], name, 0);
        lemma_find_after_push(
            env[0],
            VariableView { name, value: first, constant: first_constant },
            name,
            0,
        );
    }
}

/// A scope that does not bind a name yet accepts it, whatever the scopes
/// around it bind, and the name then resolves to the new binding of that
/// scope: an inner declaration shadows the outer ones.
pub proof fn lemma_shadowing(env: EnvView, name: Seq<char>, value: ValueView, constant: bool)
    requires
        env.len() > 0,
        !defines(env[0], name),
    ensures
        declare(env, name, value, constant) matches Ok(declared) && resolve(declared, name)
            == Some(0int) && binding(declared, name) == Some(
            VariableView { name, value, constant },
        ) && lookup(declared, name) == Ok::<ValueView, EnvErrorView>(value),
{
    lemma_find(env[0], name, 0);
    lemma_find_after_push(env[0], VariableView { name, value, constant }, name, 0);
}

/// A fresh scope binds nothing, so it accepts any name.
pub proof fn lemma_fresh_scope_accepts(parent: EnvView, name: Seq<char>)
    ensures
        !defines((seq![Seq::<VariableView>::empty()] + parent)[0], name),
{
    assert((seq![Seq::<VariableView>::empty()] + parent)[0] =~= Seq::<VariableView>::empty());
}

/// A name that was declared successfully resolves to its new binding.
pub proof fn lemma_lookup_after_declare(env: EnvView, name: Seq<char>, value: ValueView, constant: bool)
    requires
        env.len() > 0,
    ensures
        declare(env, name, value, constant) matches Ok(declared) ==> binding(declared, name)
            == Some(VariableView { name, value, constant }),
{
    if !defines(env[0], name) {
        lemma_find(env[0], name, 0);
        lemma_find_after_push(env[0], VariableView { name, value, constant }, name, 0);
    }
}

/// A declaration changes no binding of another name: what was a constant
/// stays one.
pub proof fn lemma_declaration_keeps_other_bindings(
    env: EnvView,
    name: Seq<char>,
    value: ValueView,
    constant: bool,
    other: Seq<char>,
)
    requires
        env.len() > 0,
        other != name,
    ensures
        resolve(after_declare(env, name, value, constant), other) == resolve(env, other),
        binding(after_declare(env, name, value, constant), other) == binding(env, other),
{
    if !defines(env[0], name) {
        let added = VariableView { name, value, constant };
        let declared = env.update(0, env[0].push(added));
        lemma_find_after_push(env[0], added, other, 0);
        lemma_find(env[0], other, 0);
        if defines(env[0], other) {
            assert(declared[0][find(env[0], other, 0)] == env[0][find(env[0], other, 0)]);
        } else {
            lemma_resolve_same_tail(env, declared, other, 1);
            lemma_resolve_range(env, other, 1);
            if let Some(found) = resolve_from(env, other, 1) {
                assert(declared[found] == env[found]);
            }
        }
    }
}

/// Chains that agree from `depth` outward resolve a name alike from
/// there.
proof fn lemma_resolve_same_tail(a: EnvView, b: EnvView, name: Seq<char>, depth: int)
    requires
        0 <= depth,
        a.len() == b.len(),
        forall|k: int| depth <= k < a.len() ==> a[k] == b[k],
    ensures
        resolve_from(a, name, depth) == resolve_from(b, name, depth),
    decreases a.len() - depth,
{
    if depth < a.len() && !defines(a[depth], name) {
        lemma_resolve_same_tail(a, b, name, depth + 1);
    }
}

/// Whether `name` resolves to a binding that is a constant.
pub open spec fn resolves_to_constant(env: EnvView, name: Seq<char>) -> bool {
    binding(env, name) matches Some(variable) && variable.constant
}

/// Scopes that do not bind a name leave its resolution to the scopes
/// around them.
pub proof fn lemma_resolve_through(inner: EnvView, env: EnvView, name: Seq<char>, depth: int)
    requires
        0 <= depth <= inner.len(),
        forall|k: int| 0 <= k < inner.len() ==> !defines(#[trigger] inner[k], name),
    ensures
        resolve_from(inner + env, name, depth) == match resolve(env, name) {
            Some(found) => Some(inner.len() + found),
            None => None,
        },
    decreases inner.len() - depth,
{
    let chain = inner + env;
    if depth < inner.len() {
        assert(chain[depth] == inner[depth]);
        lemma_resolve_through(inner, env, name, depth + 1);
    } else {
        lemma_resolve_rebase(inner, env, name, 0);
    }
}

proof fn lemma_resolve_rebase(inner: EnvView, env: EnvView, name: Seq<char>, depth: int)
    requires
        0 <= depth,
    ensures
        resolve_from(inner + env, name, inner.len() + depth) == match resolve_from(env, name, depth) {
            Some(found) => Some(inner.len() + found),
            None => None,
        },
    decreases env.len() - depth,
{
    let chain = inner + env;
    if depth < env.len() {
        assert(chain[inner.len() + depth] == env[depth]);
        if !defines(env[depth], name) {
            lemma_resolve_rebase(inner, env, name, depth + 1);
        }
    }
}

/// A name that resolves to a constant cannot be assigned to.
pub proof fn lemma_constant_refuses_assignment(env: EnvView, name: Seq<char>, value: ValueView)
    requires
        resolves_to_constant(env, name),
    ensures
        assign(env, name, value) == Err::<EnvView, EnvErrorView>(
            EnvErrorView::ReassignVariable(name),
        ),
{
}

/// Assigning to a name that was declared as a constant fails at any
/// depth: from the scope of the declaration, and from any scopes inside
/// it that do not bind the name themselves.
pub proof fn lemma_const_reassignment_fails(
    env: EnvView,
    inner: EnvView,
    name: Seq<char>,
    value: ValueView,
    other: ValueView,
)
    requires
        env.len() > 0,
        declare(env, name, value, true) is Ok,
        forall|k: int| 0 <= k < inner.len() ==> !defines(#[trigger] inner[k], name),
    ensures
        assign(inner + declare(env, name, value, true)->Ok_0, name, other) == Err::<
            EnvView,
            EnvErrorView,
        >(EnvErrorView::ReassignVariable(name)),
{
    let declared = declare(env, name, value, true)->Ok_0;
    lemma_lookup_after_declare(env, name, value, true);
    lemma_resolve_range(declared, name, 0);
    lemma_resolve_through(inner, declared, name, 0);
    let depth = resolve(declared, name)->0;
    assert((inner + declared)[inner.len() + depth] == declared[depth]);
}

/// An assignment that succeeds binds the name to the new value, leaves
/// every constant a constant, and changes no binding of another name.
pub proof fn lemma_assignment_keeps_other_bindings(
    env: EnvView,
    name: Seq<char>,
    value: ValueView,
    other: Seq<char>,
)
    requires
        assign(env, name, value) is Ok,
    ensures
        ({
            let assigned = assign(env, name, value)->Ok_0;
            &&& resolve(assigned, other) == resolve(env, other)
            &&& other != name ==> binding(assigned, other) == binding(env, other)
            &&& resolves_to_constant(assigned, other) == resolves_to_constant(env, other)
            &&& binding(assigned, name) == Some(VariableView { name, value, constant: false })
        }),
{
    lemma_binding_after_assign(env, name, value, other);
    lemma_binding_after_assign(env, name, value, name);
}

proof fn lemma_binding_after_assign(env: EnvView, name: Seq<char>, value: ValueView, other: Seq<char>)
    requires
        assign(env, name, value) is Ok,
    ensures
        ({
            let assigned = assign(env, name, value)->Ok_0;
            &&& resolve(assigned, other) == resolve(env, other)
            &&& binding(assigned, other) == if other == name {
                Some(VariableView { name, value, constant: false })
            } else {
                binding(env, other)
            }
        }),
{
    let assigned = assign(env, name, value)->Ok_0;
    lemma_resolve_range(env, name, 0);
    let depth = resolve(env, name)->0;
    let scope = env[depth];
    let at = find(scope, name, 0);
    lemma_find(scope, name, 0);
    let changed = scope.update(at, VariableView { name: scope[at].name, value, constant: false });
    assert(assigned == env.update(depth, changed));
    lemma_find_same_names(scope, changed, other, 0);
    assert forall|k: int| 0 <= k < env.len() implies find(#[trigger] env[k], other, 0) == find(
        assigned[k],
        other,
        0,
    ) && env[k].len() == assigned[k].len() by {
        if k != depth {
            assert(assigned[k] == env[k]);
        }
    }
    lemma_resolve_same_names(env, assigned, other, 0);
    lemma_resolve_range(env, other, 0);
    if let Some(found) = resolve(env, other) {
        lemma_find(env[found], other, 0);
        if found == depth {
            if other == name {
                assert(assigned[depth][at] == VariableView { name, value, constant: false });
            } else {
                assert(find(scope, other, 0) != at);
            }
        } else {
            assert(assigned[found] == env[found]);
        }
    }
}

/// Scopes that bind the same names in the same places find them alike.
proof fn lemma_find_same_names(a: ScopeView, b: ScopeView, name: Seq<char>, from: int)
    requires
        0 <= from,
        a.len() == b.len(),
        forall|k: int| 0 <= k < a.len() ==> (#[trigger] a[k]).name == b[k].name,
    ensures
        find(a, name, from) == find(b, name, from),
    decreases a.len() - from,
{
    if from < a.len() && a[from].name != name {
        lemma_find_same_names(a, b, name, from + 1);
    }
}

proof fn lemma_resolve_same_names(a: EnvView, b: EnvView, name: Seq<char>, depth: int)
    requires
        0 <= depth,
        a.len() == b.len(),
        forall|k: int| 0 <= k < a.len() ==> find(#[trigger] a[k], name, 0) == find(b[k], name, 0)
            && a[k].len() == b[k].len(),
    ensures
        resolve_from(a, name, depth) == resolve_from(b, name, depth),
    decreases a.len() - depth,
{
    if depth < a.len() && !defines(a[depth], name) {
        lemma_resolve_same_names(a, b, name, depth + 1);
    }
}

impl Environment {
    /// The position of the binding of `name` in this scope, or the number
    /// of bindings.
    fn position(&self, name: &str) -> (at: usize)
        ensures
            at == find(self@[0], name@, 0),
            at <= self.variables.len(),
            self@[0].len() == self.variables.len(),
    {
        proof {
            lemma_env_view(*self);
        }
        let mut at: usize = 0;
        while at < self.variables.len() && !str_eq(self.variables[at].name.as_str(), name)
            invariant
                at <= self.variables.len(),
                self@[0] == scope_view(self.variables@),
                find(self@[0], name@, 0) == find(self@[0], name@, at as int),
            decreases self.variables.len() - at,
        {
            at += 1;
        }
        at
    }

    /// Every environment has a scope of its own.
    pub proof fn lemma_has_scope(self)
        ensures
            self@.len() >= 1,
    {
        lemma_env_view(self);
    }

    /// The global scope, with the literals and the native functions.
    pub fn new() -> (env: Environment)
        ensures
            env@ == seq![global_scope()],
            names_distinct(env@),
    {
        proof {
            lemma_global_scope_distinct();
        }
        let mut global = Environment { parent: None, variables: Vec::new() };
        proof {
            lemma_env_view(global);
            assert(scope_view(global.variables@) =~= Seq::<VariableView>::empty());
            assert(global@ =~= seq![Seq::<VariableView>::empty()]);
        }
        global.setup_scope();
        global
    }

    /// Declares what every program starts with.
    fn setup_scope(&mut self)
        requires
            old(self)@ == seq![Seq::<VariableView>::empty()],
        ensures
            final(self)@ == seq![global_scope()],
    {
        proof {
            lemma_global_names_differ();
            reveal_with_fuel(find, 6);
        }
        let _ = self.declare_var("true", RuntimeValue::Boolean(true), true);
        assert(self@[0] =~= global_scope().take(1));
        let _ = self.declare_var("false", RuntimeValue::Boolean(false), true);
        assert(self@[0] =~= global_scope().take(2));
        let _ = self.declare_var("null", RuntimeValue::Null, true);
        assert(self@[0] =~= global_scope().take(3));
        let _ = self.declare_var("print", RuntimeValue::NativeFn(NativeFunction::Print), true);
        assert(self@[0] =~= global_scope().take(4));
        let _ = self.declare_var("time", RuntimeValue::NativeFn(NativeFunction::Time), true);
        assert(self@[0] =~= global_scope());
        assert(self@ =~= seq![global_scope()]);
    }

    /// An empty scope inside `parent_env`.
    pub fn with(parent_env: Environment) -> (env: Environment)
        ensures
            env@ == seq![Seq::<VariableView>::empty()] + parent_env@,
            names_distinct(parent_env@) ==> names_distinct(env@),
    {
        proof {
            if names_distinct(parent_env@) {
                lemma_distinct_in_fresh_scope(parent_env@);
            }
        }
        let env = Environment { parent: Some(Box::new(parent_env)), variables: Vec::new() };
        proof {
            lemma_env_view(env);
            assert(scope_view(env.variables@) =~= Seq::<VariableView>::empty());
        }
        env
    }

    /// Binds `name` in this scope and returns the value. A name that this
    /// scope binds already is refused, whatever the scopes around it hold.
    pub fn declare_var(&mut self, name: &str, value: RuntimeValue, constant: bool) -> (result: Result<
        RuntimeValue,
        EnvError,
    >)
        ensures
            match declare(old(self)@, name@, value@, constant) {
                Ok(env) => final(self)@ == env && returned_view(result) == Ok::<
                    ValueView,
                    EnvErrorView,
                >(value@),
                Err(e) => final(self)@ == old(self)@ && returned_view(result) == Err::<
                    ValueView,
                    EnvErrorView,
                >(e),
            },
            names_distinct(old(self)@) ==> names_distinct(final(self)@),
    {
        proof {
            lemma_env_view(*old(self));
            if names_distinct(old(self)@) {
                lemma_distinct_after_declare(old(self)@, name@, value@, constant);
            }
        }
        if self.position(name) < self.variables.len() {
            return Err(EnvError::RedeclareVariable(name.to_owned()));
        }
        let variable = Variable { name: name.to_owned(), value: clone_value(&value), constant };
        self.variables.push(variable);
        proof {
            lemma_env_view(*self);
            assert(scope_view(self.variables@) =~= old(self)@[0].push(variable@));
            assert(self@ =~= old(self)@.update(0, old(self)@[0].push(variable@)));
        }
        Ok(value)
    }

    /// Replaces the value of the nearest binding of `name` and returns the
    /// value. Fails where no scope binds the name, and where the binding
    /// is a constant.
    pub fn assign_var(&mut self, name: &str, value: RuntimeValue) -> (result: Result<
        RuntimeValue,
        EnvError,
    >)
        ensures
            match assign(old(self)@, name@, value@) {
                Ok(env) => final(self)@ == env && returned_view(result) == Ok::<
                    ValueView,
                    EnvErrorView,
                >(value@),
                Err(e) => final(self)@ == old(self)@ && returned_view(result) == Err::<
                    ValueView,
                    EnvErrorView,
                >(e),
            },
            names_distinct(old(self)@) ==> names_distinct(final(self)@),
    {
        proof {
            if names_distinct(old(self)@) && assign(old(self)@, name@, value@) is Ok {
                lemma_distinct_after_assign(old(self)@, name@, value@);
            }
        }
        let env = match self.resolve(name) {
            Ok(env) => env,
            Err(e) => {
                return Err(e);
            },
        };
        let ghost depth = resolve(old(self)@, name@)->0;
        let ghost found = env@;
        proof {
            lemma_resolve_range(old(self)@, name@, 0);
            assert(old(self)@.take(depth) + found =~= old(self)@);
            assert(found[0] == old(self)@[depth]);
        }
        let at = env.position(name);
        proof {
            lemma_env_view(*env);
            lemma_find(found[0], name@, 0);
        }
        if env.variables[at].constant {
            return Err(EnvError::ReassignVariable(name.to_owned()));
        }
        let variable = Variable { name: name.to_owned(), value: clone_value(&value), constant: false };
        env.variables.set(at, variable);
        proof {
            lemma_env_view(*env);
            assert(scope_view(env.variables@) =~= found[0].update(at as int, variable@));
            assert(env@ =~= found.update(0, found[0].update(at as int, variable@)));
            assert(old(self)@.take(depth) + env@ =~= old(self)@.update(
                depth,
                found[0].update(at as int, variable@),
            ));
        }
        Ok(value)
    }

    /// A copy of the value of the nearest binding of `name`. The scopes
    /// stay as they are.
    pub fn lookup_var(&mut self, name: &str) -> (result: Result<RuntimeValue, EnvError>)
        ensures
            final(self)@ == old(self)@,
            returned_view(result) == lookup(old(self)@, name@),
    {
        let env = match self.resolve(name) {
            Ok(env) => env,
            Err(e) => {
                return Err(e);
            },
        };
        let ghost depth = resolve(old(self)@, name@)->0;
        proof {
            lemma_resolve_range(old(self)@, name@, 0);
            assert(old(self)@.take(depth) + env@ =~= old(self)@);
            assert(env@[0] == old(self)@[depth]);
            lemma_env_view(*env);
        }
        let at = env.position(name);
        Ok(clone_value(&env.variables[at].value))
    }

    /// The nearest scope, from this one outward, that binds `name`.
    pub fn resolve(&mut self, name: &str) -> (result: Result<&mut Environment, EnvError>)
        ensures
            match result {
                Ok(scope) => {
                    &&& resolve(old(self)@, name@) matches Some(depth)
                    &&& 0 <= depth < old(self)@.len()
                    &&& scope@ == old(self)@.skip(depth)
                    &&& final(self)@ == old(self)@.take(depth) + final(scope)@
                },
                Err(e) => {
                    &&& resolve(old(self)@, name@) is None
                    &&& e@ == EnvErrorView::VariableNotFound(name@)
                    &&& final(self)@ == old(self)@
                },
            },
        decreases old(self)@.len(),
    {
        proof {
            lemma_env_view(*old(self));
            lemma_chain(old(self)@[0], old(self)@.skip(1));
        }
        if self.position(name) < self.variables.len() {
            assert(old(self)@.skip(0) =~= old(self)@);
            assert(forall|rest: EnvView| old(self)@.take(0) + rest =~= rest);
            return Ok(self);
        }
        proof {
            lemma_resolve_outward(old(self)@, name@);
        }
        match &mut self.parent {
            None => Err(EnvError::VariableNotFound(name.to_owned())),
            Some(parent) => parent.resolve(name),
        }
    }
}

} // verus!
