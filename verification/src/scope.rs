//! Which names a piece of the syntax tree refers to, and whether each of
//! them is in scope: a piece that is closed makes no use of the global
//! environment.

use vstd::prelude::*;
use crate::ast::{
    AssignmentTarget, BinaryOperator, Block, CallSuffix, Expression, FieldSuffix,
    FunctionDefinition, HeadExpression, PrimaryExpression, SimpleExpression, Statement, SuffixPart,
    SuffixedExpression,
};
use crate::descriptor::ExprDescriptor;
use crate::function::UpValueDescriptor;
use crate::opcode::RegisterIndex;
use crate::resolve::{
    binder, binds, creates_environment, first_upvalue, function_resolved, innermost_local,
    lemma_binder_innermost, lemma_binding_depth_range, nest_resolved,
};
use crate::state::{nest_grows, prefix, Compiler, CompilerFunction};

verus! {

/// The names among `names`, as a set.
pub open spec fn name_set(names: Seq<Vec<u8>>) -> Set<Seq<u8>> {
    Set::new(|name: Seq<u8>| exists|i: int| 0 <= i < names.len() && (#[trigger] names[i])@ == name)
}

/// The names that a statement brings into scope for the statements after
/// it.
pub open spec fn declared(statement: Statement) -> Set<Seq<u8>> {
    match statement {
        Statement::LocalStatement(local) => name_set(local.names@),
        Statement::LocalFunction(function) => set![function.name.name@],
        _ => Set::empty(),
    }
}

/// The scope after the first `n` statements, where `scope` is the scope
/// before them.
pub open spec fn scope_after(statements: Seq<Statement>, n: nat, scope: Set<Seq<u8>>) -> Set<
    Seq<u8>,
>
    decreases n,
{
    if n == 0 || n > statements.len() {
        scope
    } else {
        scope_after(statements, (n - 1) as nat, scope).union(declared(statements[n - 1]))
    }
}

/// Whether every name that the expression refers to is in `scope`.
pub open spec fn closed_expression(e: Expression, scope: Set<Seq<u8>>) -> bool
    decreases e, 0nat,
{
    closed_head(*e.head, scope) && closed_tail(e.tail@, e.tail@.len(), scope)
}

pub open spec fn closed_tail(
    tail: Seq<(BinaryOperator, Expression)>,
    n: nat,
    scope: Set<Seq<u8>>,
) -> bool
    decreases tail, n,
{
    if n == 0 || n > tail.len() {
        true
    } else {
        closed_tail(tail, (n - 1) as nat, scope) && closed_expression(tail[n - 1].1, scope)
    }
}

pub open spec fn closed_head(h: HeadExpression, scope: Set<Seq<u8>>) -> bool
    decreases h, 0nat,
{
    match h {
        HeadExpression::Simple(s) => closed_simple(s, scope),
        HeadExpression::UnaryOperator(_, e) => closed_expression(e, scope),
    }
}

pub open spec fn closed_simple(s: SimpleExpression, scope: Set<Seq<u8>>) -> bool
    decreases s, 0nat,
{
    match s {
        SimpleExpression::Function(definition) => closed_definition(definition, scope),
        SimpleExpression::Suffixed(suffixed) => closed_suffixed(suffixed, scope),
        _ => true,
    }
}

pub open spec fn closed_suffixed(s: SuffixedExpression, scope: Set<Seq<u8>>) -> bool
    decreases s, 0nat,
{
    closed_primary(s.primary, scope) && closed_suffixes(s.suffixes@, s.suffixes@.len(), scope)
}

pub open spec fn closed_primary(p: PrimaryExpression, scope: Set<Seq<u8>>) -> bool
    decreases p, 0nat,
{
    match p {
        PrimaryExpression::Name(name) => scope.contains(name@),
        PrimaryExpression::GroupedExpression(e) => closed_expression(e, scope),
    }
}

pub open spec fn closed_suffixes(suffixes: Seq<SuffixPart>, n: nat, scope: Set<Seq<u8>>) -> bool
    decreases suffixes, n,
{
    if n == 0 || n > suffixes.len() {
        true
    } else {
        closed_suffixes(suffixes, (n - 1) as nat, scope) && closed_suffix(suffixes[n - 1], scope)
    }
}

pub open spec fn closed_suffix(s: SuffixPart, scope: Set<Seq<u8>>) -> bool
    decreases s, 0nat,
{
    match s {
        SuffixPart::Field(f) => closed_field(f, scope),
        SuffixPart::Call(c) => closed_call(c, scope),
    }
}

pub open spec fn closed_field(f: FieldSuffix, scope: Set<Seq<u8>>) -> bool
    decreases f, 0nat,
{
    match f {
        FieldSuffix::Named(_) => true,
        FieldSuffix::Indexed(e) => closed_expression(e, scope),
    }
}

pub open spec fn closed_call(c: CallSuffix, scope: Set<Seq<u8>>) -> bool
    decreases c, 0nat,
{
    match c {
        CallSuffix::Function(args) => closed_expressions(args@, args@.len(), scope),
        CallSuffix::Method(_, _) => true,
    }
}

pub open spec fn closed_expressions(
    expressions: Seq<Expression>,
    n: nat,
    scope: Set<Seq<u8>>,
) -> bool
    decreases expressions, n,
{
    if n == 0 || n > expressions.len() {
        true
    } else {
        closed_expressions(expressions, (n - 1) as nat, scope) && closed_expression(
            expressions[n - 1],
            scope,
        )
    }
}

/// Whether every name that the body of the function refers to is a
/// parameter, a local declared before in the body, or in `scope`.
pub open spec fn closed_definition(d: FunctionDefinition, scope: Set<Seq<u8>>) -> bool
    decreases d, 0nat,
{
    closed_block(d.body, scope.union(name_set(d.parameters@)))
}

/// Whether every name that the block refers to is a local declared before
/// in the block, or in `scope`.
pub open spec fn closed_block(b: Block, scope: Set<Seq<u8>>) -> bool
    decreases b, 0nat,
{
    closed_statements(b.statements@, b.statements@.len(), scope) && match b.return_statement {
        Some(r) => closed_expressions(
            r.returns@,
            r.returns@.len(),
            scope_after(b.statements@, b.statements@.len(), scope),
        ),
        None => true,
    }
}

pub open spec fn closed_statements(statements: Seq<Statement>, n: nat, scope: Set<Seq<u8>>) -> bool
    decreases statements, n,
{
    if n == 0 || n > statements.len() {
        true
    } else {
        closed_statements(statements, (n - 1) as nat, scope) && closed_statement(
            statements[n - 1],
            scope_after(statements, (n - 1) as nat, scope),
        )
    }
}

/// Whether every name that the statement refers to is in `scope`. The
/// declaration of a global function is never closed: it writes to the
/// environment.
pub open spec fn closed_statement(s: Statement, scope: Set<Seq<u8>>) -> bool
    decreases s, 0nat,
{
    match s {
        Statement::Function(_) => false,
        Statement::LocalFunction(f) => closed_definition(f.definition, scope),
        Statement::LocalStatement(l) => closed_expressions(l.values@, l.values@.len(), scope),
        Statement::FunctionCall(c) => closed_suffixed(c.head, scope) && closed_call(c.call, scope),
        Statement::Assignment(a) => closed_targets(a.targets@, a.targets@.len(), scope)
            && closed_expressions(a.values@, a.values@.len(), scope),
        _ => true,
    }
}

pub open spec fn closed_targets(targets: Seq<AssignmentTarget>, n: nat, scope: Set<Seq<u8>>) -> bool
    decreases targets, n,
{
    if n == 0 || n > targets.len() {
        true
    } else {
        closed_targets(targets, (n - 1) as nat, scope) && closed_target(targets[n - 1], scope)
    }
}

pub open spec fn closed_target(t: AssignmentTarget, scope: Set<Seq<u8>>) -> bool
    decreases t, 0nat,
{
    match t {
        AssignmentTarget::Name(name) => scope.contains(name@),
        AssignmentTarget::Field(s, f) => closed_suffixed(s, scope) && closed_field(f, scope),
    }
}

/// Whether every name that is still to be resolved for the descriptor is in
/// `scope`: the names in the right operands of `and` and `or` that have not
/// been compiled yet.
pub open spec fn closed_descriptor(expr: ExprDescriptor<'_>, scope: Set<Seq<u8>>) -> bool
    decreases expr,
{
    match expr {
        ExprDescriptor::FunctionCall { func, args } => {
            &&& closed_descriptor(*func, scope)
            &&& forall|i: int| 0 <= i < args@.len()
                ==> closed_descriptor(#[trigger] args@[i], scope)
        },
        ExprDescriptor::ShortCircuitBinOp { left, right, .. } => {
            &&& closed_descriptor(*left, scope)
            &&& closed_expression(*right, scope)
        },
        _ => true,
    }
}

pub open spec fn closed_descriptors(exprs: Seq<ExprDescriptor<'_>>, scope: Set<Seq<u8>>) -> bool {
    forall|i: int| 0 <= i < exprs.len() ==> closed_descriptor(#[trigger] exprs[i], scope)
}

/// Whether the function has a local or an upvalue named `name`.
pub open spec fn has_name(f: CompilerFunction, name: Seq<u8>) -> bool {
    innermost_local(f.locals@, name, f.locals@.len() as int).is_some() || first_upvalue(
        f.upvalues@,
        name,
        0,
    ).is_some()
}

/// Whether a function of the nest has a local or an upvalue named `name`.
pub open spec fn named(functions: Seq<CompilerFunction>, name: Seq<u8>) -> bool {
    exists|i: int| 0 <= i < functions.len() && has_name(#[trigger] functions[i], name)
}

impl Compiler {
    /// Whether each name in `scope` is a local or an upvalue of a function
    /// of the nest.
    pub open spec fn covers(self, scope: Set<Seq<u8>>) -> bool {
        forall|name: Seq<u8>| #[trigger] scope.contains(name) ==> named(self.functions@, name)
    }

    /// Whether `after` has the upvalues of the outermost function as they
    /// are in this state.
    pub open spec fn keeps_outermost(self, after: Compiler) -> bool {
        after.functions@[0].upvalues == self.functions@[0].upvalues
    }
}

pub proof fn lemma_innermost_local_agrees(
    a: Seq<(Vec<u8>, RegisterIndex)>,
    b: Seq<(Vec<u8>, RegisterIndex)>,
    name: Seq<u8>,
    n: int,
)
    requires
        n <= a.len(),
        n <= b.len(),
        forall|i: int| 0 <= i < n ==> a[i] == b[i],
    ensures
        innermost_local(a, name, n) == innermost_local(b, name, n),
    decreases n,
{
    if n > 0 {
        lemma_innermost_local_agrees(a, b, name, n - 1);
    }
}

/// A name that is a local stays one when more locals are declared.
pub proof fn lemma_innermost_local_grows(
    a: Seq<(Vec<u8>, RegisterIndex)>,
    b: Seq<(Vec<u8>, RegisterIndex)>,
    name: Seq<u8>,
    n: int,
)
    requires
        prefix(a, b),
        a.len() <= n <= b.len(),
        innermost_local(a, name, a.len() as int).is_some(),
    ensures
        innermost_local(b, name, n).is_some(),
    decreases n,
{
    if n == a.len() {
        lemma_innermost_local_agrees(a, b, name, n);
    } else if b[n - 1].0@ != name {
        lemma_innermost_local_grows(a, b, name, n - 1);
    }
}

/// A name is found among the upvalues from `from` on if one of them has it.
pub proof fn lemma_first_upvalue_found(
    upvalues: Seq<(Vec<u8>, UpValueDescriptor)>,
    name: Seq<u8>,
    from: int,
    j: int,
)
    requires
        0 <= from <= j < upvalues.len(),
        upvalues[j].0@ == name,
    ensures
        first_upvalue(upvalues, name, from).is_some(),
    decreases upvalues.len() - from,
{
    if upvalues[from].0@ != name {
        lemma_first_upvalue_found(upvalues, name, from + 1, j);
    }
}

/// A local of a given name makes the name a local.
pub proof fn lemma_innermost_local_found(
    locals: Seq<(Vec<u8>, RegisterIndex)>,
    name: Seq<u8>,
    n: int,
    j: int,
)
    requires
        0 <= j < n <= locals.len(),
        locals[j].0@ == name,
    ensures
        innermost_local(locals, name, n).is_some(),
    decreases n,
{
    if locals[n - 1].0@ != name {
        lemma_innermost_local_found(locals, name, n - 1, j);
    }
}

/// A function that grows keeps the names it has.
pub proof fn lemma_has_name_grows(f: CompilerFunction, g: CompilerFunction, name: Seq<u8>)
    requires
        prefix(f.locals@, g.locals@),
        prefix(f.upvalues@, g.upvalues@),
        has_name(f, name),
    ensures
        has_name(g, name),
{
    if innermost_local(f.locals@, name, f.locals@.len() as int).is_some() {
        lemma_innermost_local_grows(f.locals@, g.locals@, name, g.locals@.len() as int);
    } else {
        crate::resolve::lemma_first_upvalue_range(f.upvalues@, name, 0);
        let j = first_upvalue(f.upvalues@, name, 0).unwrap();
        assert(g.upvalues@[j] == f.upvalues@[j]);
        lemma_first_upvalue_found(g.upvalues@, name, 0, j);
    }
}

/// A nest that grows keeps the names it has.
pub proof fn lemma_named_grows(a: Seq<CompilerFunction>, b: Seq<CompilerFunction>)
    requires
        nest_grows(a, b),
    ensures
        forall|name: Seq<u8>| #[trigger] named(a, name) ==> named(b, name),
{
    assert forall|name: Seq<u8>| #[trigger] named(a, name) implies named(b, name) by {
        let i = choose|i: int| 0 <= i < a.len() && has_name(#[trigger] a[i], name);
        assert(a[i].grows_to(b[i]));
        lemma_has_name_grows(a[i], b[i], name);
        assert(has_name(b[i], name));
    }
}

/// Resolving a name that a function of the nest has leaves the upvalues of
/// the outermost function as they are, and finds the name bound.
pub proof fn lemma_named_resolved(
    functions: Seq<CompilerFunction>,
    name: Seq<u8>,
    after: Seq<CompilerFunction>,
)
    requires
        functions.len() >= 1,
        named(functions, name),
        nest_resolved(functions, name, after),
    ensures
        after[0].upvalues == functions[0].upvalues,
{
    let t = functions.len() - 1;
    let i = choose|i: int| 0 <= i < functions.len() && has_name(#[trigger] functions[i], name);
    assert(binds(functions, name, i));
    lemma_binder_innermost(functions, name, t);
    lemma_binding_depth_range(functions, name, t);
    assert(binder(functions, name) >= i);
    assert(!creates_environment(functions, name));
    assert(function_resolved(functions, name, 0, after[0]));
}

/// A name that a function of the nest has is bound.
pub proof fn lemma_named_bound(functions: Seq<CompilerFunction>, name: Seq<u8>)
    requires
        functions.len() >= 1,
        named(functions, name),
    ensures
        binder(functions, name) >= 0,
{
    let t = functions.len() - 1;
    let i = choose|i: int| 0 <= i < functions.len() && has_name(#[trigger] functions[i], name);
    assert(binds(functions, name, i));
    lemma_binder_innermost(functions, name, t);
    lemma_binding_depth_range(functions, name, t);
}

pub proof fn lemma_closed_tail_element(
    tail: Seq<(BinaryOperator, Expression)>,
    n: nat,
    scope: Set<Seq<u8>>,
    i: int,
)
    requires
        closed_tail(tail, n, scope),
        0 <= i < n <= tail.len(),
    ensures
        closed_expression(tail[i].1, scope),
    decreases n,
{
    if i < n - 1 {
        lemma_closed_tail_element(tail, (n - 1) as nat, scope, i);
    }
}

pub proof fn lemma_closed_suffixes_element(
    suffixes: Seq<SuffixPart>,
    n: nat,
    scope: Set<Seq<u8>>,
    i: int,
)
    requires
        closed_suffixes(suffixes, n, scope),
        0 <= i < n <= suffixes.len(),
    ensures
        closed_suffix(suffixes[i], scope),
    decreases n,
{
    if i < n - 1 {
        lemma_closed_suffixes_element(suffixes, (n - 1) as nat, scope, i);
    }
}

pub proof fn lemma_closed_expressions_element(
    expressions: Seq<Expression>,
    n: nat,
    scope: Set<Seq<u8>>,
    i: int,
)
    requires
        closed_expressions(expressions, n, scope),
        0 <= i < n <= expressions.len(),
    ensures
        closed_expression(expressions[i], scope),
    decreases n,
{
    if i < n - 1 {
        lemma_closed_expressions_element(expressions, (n - 1) as nat, scope, i);
    }
}

pub proof fn lemma_closed_targets_element(
    targets: Seq<AssignmentTarget>,
    n: nat,
    scope: Set<Seq<u8>>,
    i: int,
)
    requires
        closed_targets(targets, n, scope),
        0 <= i < n <= targets.len(),
    ensures
        closed_target(targets[i], scope),
    decreases n,
{
    if i < n - 1 {
        lemma_closed_targets_element(targets, (n - 1) as nat, scope, i);
    }
}

pub proof fn lemma_closed_statements_element(
    statements: Seq<Statement>,
    n: nat,
    scope: Set<Seq<u8>>,
    i: int,
)
    requires
        closed_statements(statements, n, scope),
        0 <= i < n <= statements.len(),
    ensures
        closed_statement(statements[i], scope_after(statements, i as nat, scope)),
    decreases n,
{
    if i < n - 1 {
        lemma_closed_statements_element(statements, (n - 1) as nat, scope, i);
    }
}

} // verus!
