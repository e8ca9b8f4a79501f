//! The syntax tree that the code generator consumes, and the size of its
//! parts, by which the code generator's recursion is measured.

use vstd::prelude::*;

verus! {

#[derive(Clone, Copy, Debug, PartialEq, Eq, Structural, Hash)]
pub enum UnaryOperator {
    Not,
    Minus,
    BitNot,
    Len,
}

#[derive(Clone, Copy, Debug, PartialEq, Eq, Structural, Hash)]
pub enum BinaryOperator {
    Add,
    Sub,
    Mul,
    Mod,
    Pow,
    Div,
    IDiv,
    BitAnd,
    BitOr,
    BitXor,
    ShiftLeft,
    ShiftRight,
    Concat,
    NotEqual,
    Equal,
    LessThan,
    LessEqual,
    GreaterThan,
    GreaterEqual,
    And,
    Or,
}

#[derive(Debug)]
pub struct Chunk {
    pub block: Block,
}

#[derive(Debug)]
pub struct Block {
    pub statements: Vec<Statement>,
    pub return_statement: Option<ReturnStatement>,
}

#[derive(Debug)]
pub enum Statement {
    If(IfStatement),
    While(WhileStatement),
    Do(Block),
    For(ForStatement),
    Repeat(RepeatStatement),
    Function(FunctionStatement),
    LocalFunction(FunctionStatement),
    LocalStatement(LocalStatement),
    Label(Vec<u8>),
    Break,
    Goto(Vec<u8>),
    FunctionCall(FunctionCallStatement),
    Assignment(AssignmentStatement),
}

#[derive(Debug)]
pub struct ReturnStatement {
    pub returns: Vec<Expression>,
}

#[derive(Debug)]
pub struct IfStatement {
    pub if_part: (Expression, Block),
    pub else_if_parts: Vec<(Expression, Block)>,
    pub else_part: Option<Block>,
}

#[derive(Debug)]
pub struct WhileStatement {
    pub condition: Expression,
    pub block: Block,
}

#[derive(Debug)]
pub enum ForStatement {
    Numeric {
        name: Vec<u8>,
        initial: Expression,
        limit: Expression,
        step: Option<Expression>,
        body: Block,
    },
    Generic { names: Vec<Vec<u8>>, lists: Vec<Expression>, body: Block },
}

#[derive(Debug)]
pub struct RepeatStatement {
    pub body: Block,
    pub until: Expression,
}

#[derive(Debug)]
pub struct FunctionName {
    pub name: Vec<u8>,
    pub fields: Vec<Vec<u8>>,
    pub method: Option<Vec<u8>>,
}

#[derive(Debug)]
pub struct FunctionStatement {
    pub name: FunctionName,
    pub definition: FunctionDefinition,
}

#[derive(Debug)]
pub struct LocalStatement {
    pub names: Vec<Vec<u8>>,
    pub values: Vec<Expression>,
}

#[derive(Debug)]
pub struct FunctionCallStatement {
    pub head: SuffixedExpression,
    pub call: CallSuffix,
}

#[derive(Debug)]
pub struct AssignmentStatement {
    pub targets: Vec<AssignmentTarget>,
    pub values: Vec<Expression>,
}

#[derive(Debug)]
pub enum AssignmentTarget {
    Name(Vec<u8>),
    Field(SuffixedExpression, FieldSuffix),
}

/// A head operand followed by binary operators, each with its right operand.
#[derive(Debug)]
pub struct Expression {
    pub head: Box<HeadExpression>,
    pub tail: Vec<(BinaryOperator, Expression)>,
}

#[derive(Debug)]
pub enum HeadExpression {
    Simple(SimpleExpression),
    UnaryOperator(UnaryOperator, Expression),
}

#[derive(Debug)]
pub enum SimpleExpression {
    /// A float literal, held as its IEEE 754 bit pattern.
    Float(u64),
    Integer(i64),
    String(Vec<u8>),
    Nil,
    True,
    False,
    VarArgs,
    TableConstructor(TableConstructor),
    Function(FunctionDefinition),
    Suffixed(SuffixedExpression),
}

#[derive(Debug)]
pub enum PrimaryExpression {
    Name(Vec<u8>),
    GroupedExpression(Expression),
}

#[derive(Debug)]
pub enum FieldSuffix {
    Named(Vec<u8>),
    Indexed(Expression),
}

#[derive(Debug)]
pub enum CallSuffix {
    Function(Vec<Expression>),
    Method(Vec<u8>, Vec<Expression>),
}

#[derive(Debug)]
pub enum SuffixPart {
    Field(FieldSuffix),
    Call(CallSuffix),
}

#[derive(Debug)]
pub struct SuffixedExpression {
    pub primary: PrimaryExpression,
    pub suffixes: Vec<SuffixPart>,
}

#[derive(Debug)]
pub struct FunctionDefinition {
    pub parameters: Vec<Vec<u8>>,
    pub has_varargs: bool,
    pub body: Block,
}

#[derive(Debug)]
pub struct TableConstructor {
    pub fields: Vec<ConstructorField>,
}

#[derive(Debug)]
pub enum ConstructorField {
    Array(Expression),
    Record(RecordKey, Expression),
}

#[derive(Debug)]
pub enum RecordKey {
    Named(Vec<u8>),
    Indexed(Expression),
}

pub open spec fn expression_size(e: Expression) -> nat
    decreases e, 0nat,
{
    1 + head_size(*e.head) + tail_size(e.tail@, e.tail@.len())
}

/// The size of the first `n` entries of an expression's tail.
pub open spec fn tail_size(tail: Seq<(BinaryOperator, Expression)>, n: nat) -> nat
    decreases tail, n,
{
    if n == 0 || n > tail.len() {
        0
    } else {
        tail_size(tail, (n - 1) as nat) + 1 + expression_size(tail[n - 1].1)
    }
}

pub open spec fn head_size(h: HeadExpression) -> nat
    decreases h, 0nat,
{
    match h {
        HeadExpression::Simple(s) => 1 + simple_size(s),
        HeadExpression::UnaryOperator(_, e) => 1 + expression_size(e),
    }
}

pub open spec fn simple_size(s: SimpleExpression) -> nat
    decreases s, 0nat,
{
    match s {
        SimpleExpression::Function(definition) => 1 + definition_size(definition),
        SimpleExpression::Suffixed(suffixed) => 1 + suffixed_size(suffixed),
        _ => 1,
    }
}

pub open spec fn suffixed_size(s: SuffixedExpression) -> nat
    decreases s, 0nat,
{
    1 + primary_size(s.primary) + suffixes_size(s.suffixes@, s.suffixes@.len())
}

pub open spec fn primary_size(p: PrimaryExpression) -> nat
    decreases p, 0nat,
{
    match p {
        PrimaryExpression::Name(_) => 3,
        PrimaryExpression::GroupedExpression(e) => 1 + expression_size(e),
    }
}

/// The size of the first `n` suffixes.
pub open spec fn suffixes_size(suffixes: Seq<SuffixPart>, n: nat) -> nat
    decreases suffixes, n,
{
    if n == 0 || n > suffixes.len() {
        0
    } else {
        suffixes_size(suffixes, (n - 1) as nat) + suffix_size(suffixes[n - 1])
    }
}

pub open spec fn suffix_size(s: SuffixPart) -> nat
    decreases s, 0nat,
{
    match s {
        SuffixPart::Field(f) => field_size(f),
        SuffixPart::Call(c) => call_size(c),
    }
}

pub open spec fn field_size(f: FieldSuffix) -> nat
    decreases f, 0nat,
{
    match f {
        FieldSuffix::Named(_) => 1,
        FieldSuffix::Indexed(e) => 1 + expression_size(e),
    }
}

pub open spec fn call_size(c: CallSuffix) -> nat
    decreases c, 0nat,
{
    match c {
        CallSuffix::Function(args) => 2 + expressions_size(args@, args@.len()),
        CallSuffix::Method(_, _) => 1,
    }
}

/// The size of the first `n` expressions.
pub open spec fn expressions_size(expressions: Seq<Expression>, n: nat) -> nat
    decreases expressions, n,
{
    if n == 0 || n > expressions.len() {
        0
    } else {
        expressions_size(expressions, (n - 1) as nat) + expression_size(expressions[n - 1])
    }
}

pub open spec fn definition_size(d: FunctionDefinition) -> nat
    decreases d, 0nat,
{
    1 + block_size(d.body)
}

pub open spec fn block_size(b: Block) -> nat
    decreases b, 0nat,
{
    1 + statements_size(b.statements@, b.statements@.len()) + match b.return_statement {
        Some(r) => return_size(r),
        None => 0,
    }
}

/// The size of the first `n` statements.
pub open spec fn statements_size(statements: Seq<Statement>, n: nat) -> nat
    decreases statements, n,
{
    if n == 0 || n > statements.len() {
        0
    } else {
        statements_size(statements, (n - 1) as nat) + 1 + statement_size(statements[n - 1])
    }
}

pub open spec fn statement_size(s: Statement) -> nat
    decreases s, 0nat,
{
    match s {
        Statement::Function(f) => 5 + definition_size(f.definition),
        Statement::LocalFunction(f) => 1 + definition_size(f.definition),
        Statement::LocalStatement(l) => 1 + expressions_size(l.values@, l.values@.len()),
        Statement::FunctionCall(c) => 2 + suffixed_size(c.head) + call_size(c.call),
        Statement::Assignment(a) => 1 + targets_size(a.targets@, a.targets@.len())
            + expressions_size(a.values@, a.values@.len()),
        _ => 1,
    }
}

pub open spec fn return_size(r: ReturnStatement) -> nat
    decreases r, 0nat,
{
    1 + expressions_size(r.returns@, r.returns@.len())
}

/// The size of the first `n` assignment targets.
pub open spec fn targets_size(targets: Seq<AssignmentTarget>, n: nat) -> nat
    decreases targets, n,
{
    if n == 0 || n > targets.len() {
        0
    } else {
        targets_size(targets, (n - 1) as nat) + target_size(targets[n - 1])
    }
}

pub open spec fn target_size(t: AssignmentTarget) -> nat
    decreases t, 0nat,
{
    match t {
        AssignmentTarget::Name(_) => 4,
        AssignmentTarget::Field(s, f) => 1 + suffixed_size(s) + field_size(f),
    }
}

pub proof fn lemma_tail_size_monotone(
    tail: Seq<(BinaryOperator, Expression)>,
    i: nat,
    n: nat,
)
    requires
        i <= n <= tail.len(),
    ensures
        tail_size(tail, i) <= tail_size(tail, n),
    decreases n,
{
    if i < n {
        lemma_tail_size_monotone(tail, i, (n - 1) as nat);
    }
}

pub proof fn lemma_suffixes_size_monotone(suffixes: Seq<SuffixPart>, i: nat, n: nat)
    requires
        i <= n <= suffixes.len(),
    ensures
        suffixes_size(suffixes, i) <= suffixes_size(suffixes, n),
    decreases n,
{
    if i < n {
        lemma_suffixes_size_monotone(suffixes, i, (n - 1) as nat);
    }
}

pub proof fn lemma_expressions_size_monotone(expressions: Seq<Expression>, i: nat, n: nat)
    requires
        i <= n <= expressions.len(),
    ensures
        expressions_size(expressions, i) <= expressions_size(expressions, n),
    decreases n,
{
    if i < n {
        lemma_expressions_size_monotone(expressions, i, (n - 1) as nat);
    }
}

pub proof fn lemma_statements_size_monotone(statements: Seq<Statement>, i: nat, n: nat)
    requires
        i <= n <= statements.len(),
    ensures
        statements_size(statements, i) <= statements_size(statements, n),
    decreases n,
{
    if i < n {
        lemma_statements_size_monotone(statements, i, (n - 1) as nat);
    }
}

pub proof fn lemma_targets_size_monotone(targets: Seq<AssignmentTarget>, i: nat, n: nat)
    requires
        i <= n <= targets.len(),
    ensures
        targets_size(targets, i) <= targets_size(targets, n),
    decreases n,
{
    if i < n {
        lemma_targets_size_monotone(targets, i, (n - 1) as nat);
    }
}

pub proof fn lemma_tail_size_step(tail: Seq<(BinaryOperator, Expression)>, i: int)
    requires
        0 <= i < tail.len(),
    ensures
        tail_size(tail, (i + 1) as nat) == tail_size(tail, i as nat) + 1 + expression_size(
            tail[i].1,
        ),
        tail_size(tail, (i + 1) as nat) <= tail_size(tail, tail.len()),
{
    lemma_tail_size_monotone(tail, (i + 1) as nat, tail.len());
}

pub proof fn lemma_suffixes_size_step(suffixes: Seq<SuffixPart>, i: int)
    requires
        0 <= i < suffixes.len(),
    ensures
        suffixes_size(suffixes, (i + 1) as nat) == suffixes_size(suffixes, i as nat) + suffix_size(
            suffixes[i],
        ),
        suffixes_size(suffixes, (i + 1) as nat) <= suffixes_size(suffixes, suffixes.len()),
{
    lemma_suffixes_size_monotone(suffixes, (i + 1) as nat, suffixes.len());
}

pub proof fn lemma_expressions_size_step(expressions: Seq<Expression>, i: int)
    requires
        0 <= i < expressions.len(),
    ensures
        expressions_size(expressions, (i + 1) as nat) == expressions_size(expressions, i as nat)
            + expression_size(expressions[i]),
        expressions_size(expressions, (i + 1) as nat) <= expressions_size(
            expressions,
            expressions.len(),
        ),
{
    lemma_expressions_size_monotone(expressions, (i + 1) as nat, expressions.len());
}

pub proof fn lemma_statements_size_step(statements: Seq<Statement>, i: int)
    requires
        0 <= i < statements.len(),
    ensures
        statements_size(statements, (i + 1) as nat) == statements_size(statements, i as nat) + 1
            + statement_size(statements[i]),
        statements_size(statements, (i + 1) as nat) <= statements_size(
            statements,
            statements.len(),
        ),
{
    lemma_statements_size_monotone(statements, (i + 1) as nat, statements.len());
}

pub proof fn lemma_targets_size_step(targets: Seq<AssignmentTarget>, i: int)
    requires
        0 <= i < targets.len(),
    ensures
        targets_size(targets, (i + 1) as nat) == targets_size(targets, i as nat) + target_size(
            targets[i],
        ),
        targets_size(targets, (i + 1) as nat) <= targets_size(targets, targets.len()),
{
    lemma_targets_size_monotone(targets, (i + 1) as nat, targets.len());
}

} // verus!
