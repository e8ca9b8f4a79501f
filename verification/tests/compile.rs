use lua_codegen::ast::{
    AssignmentStatement, AssignmentTarget, BinaryOperator, Block, CallSuffix, Chunk, Expression,
    FieldSuffix, FunctionCallStatement, FunctionDefinition, FunctionName, FunctionStatement,
    HeadExpression, LocalStatement, PrimaryExpression, ReturnStatement, SimpleExpression,
    Statement, SuffixPart, SuffixedExpression, UnaryOperator,
};
use lua_codegen::compile_chunk;
use lua_codegen::function::{FunctionProto, UpValueDescriptor};
use lua_codegen::opcode::{
    BinOpArgs, ConstantIndex16, ConstantIndex8, OpCode, PrototypeIndex, RegisterIndex,
    UpValueIndex, VarCount,
};
use lua_codegen::state::Compiler;
use lua_codegen::value::Value;

fn simple(s: SimpleExpression) -> Expression {
    Expression { head: Box::new(HeadExpression::Simple(s)), tail: vec![] }
}

fn integer(i: i64) -> Expression {
    simple(SimpleExpression::Integer(i))
}

fn string(s: &str) -> Expression {
    simple(SimpleExpression::String(s.as_bytes().to_vec()))
}

fn suffixed(n: &str, suffixes: Vec<SuffixPart>) -> SuffixedExpression {
    SuffixedExpression { primary: PrimaryExpression::Name(n.as_bytes().to_vec()), suffixes }
}

fn name(n: &str) -> Expression {
    simple(SimpleExpression::Suffixed(suffixed(n, vec![])))
}

fn call(n: &str, args: Vec<Expression>) -> Expression {
    simple(SimpleExpression::Suffixed(suffixed(
        n,
        vec![SuffixPart::Call(CallSuffix::Function(args))],
    )))
}

fn grouped(e: Expression) -> Expression {
    simple(SimpleExpression::Suffixed(SuffixedExpression {
        primary: PrimaryExpression::GroupedExpression(e),
        suffixes: vec![],
    }))
}

fn unary(op: UnaryOperator, e: Expression) -> Expression {
    Expression { head: Box::new(HeadExpression::UnaryOperator(op, e)), tail: vec![] }
}

fn binary(left: Expression, op: BinaryOperator, right: Expression) -> Expression {
    let Expression { head, mut tail } = left;
    tail.push((op, right));
    Expression { head, tail }
}

fn local(names: &[&str], values: Vec<Expression>) -> Statement {
    Statement::LocalStatement(LocalStatement {
        names: names.iter().map(|n| n.as_bytes().to_vec()).collect(),
        values,
    })
}

fn block(statements: Vec<Statement>, returns: Option<Vec<Expression>>) -> Block {
    Block { statements, return_statement: returns.map(|returns| ReturnStatement { returns }) }
}

fn chunk(statements: Vec<Statement>, returns: Option<Vec<Expression>>) -> Chunk {
    Chunk { block: block(statements, returns) }
}

fn function(
    params: &[&str],
    statements: Vec<Statement>,
    returns: Option<Vec<Expression>>,
) -> FunctionDefinition {
    FunctionDefinition {
        parameters: params.iter().map(|n| n.as_bytes().to_vec()).collect(),
        has_varargs: false,
        body: block(statements, returns),
    }
}

fn function_name(n: &str) -> FunctionName {
    FunctionName { name: n.as_bytes().to_vec(), fields: vec![], method: None }
}

fn local_function(n: &str, definition: FunctionDefinition) -> Statement {
    Statement::LocalFunction(FunctionStatement { name: function_name(n), definition })
}

fn assign(target: &str, value: Expression) -> Statement {
    Statement::Assignment(AssignmentStatement {
        targets: vec![AssignmentTarget::Name(target.as_bytes().to_vec())],
        values: vec![value],
    })
}

fn call_statement(n: &str, args: Vec<Expression>) -> Statement {
    Statement::FunctionCall(FunctionCallStatement {
        head: suffixed(n, vec![]),
        call: CallSuffix::Function(args),
    })
}

fn r(i: u8) -> RegisterIndex {
    RegisterIndex(i)
}

fn load(dest: u8, constant: u16) -> OpCode {
    OpCode::LoadConstant { dest: r(dest), constant: ConstantIndex16(constant) }
}

fn constant(n: u8) -> VarCount {
    VarCount::make_constant(n).unwrap()
}

fn return_nothing() -> OpCode {
    OpCode::Return { start: r(0), count: VarCount::make_zero() }
}

fn highest_register(op: &OpCode) -> i32 {
    let reg = |x: &RegisterIndex| x.0 as i32;
    let of_args = |args: &BinOpArgs| match args {
        BinOpArgs::RR(a, b) => reg(a).max(reg(b)),
        BinOpArgs::RC(a, _) => reg(a),
        BinOpArgs::CR(_, b) => reg(b),
    };
    match op {
        OpCode::Move { dest, source } => reg(dest).max(reg(source)),
        OpCode::LoadConstant { dest, .. } => reg(dest),
        OpCode::LoadBool { dest, .. } => reg(dest),
        OpCode::LoadNil { dest, count } => reg(dest) + *count as i32 - 1,
        OpCode::NewTable { dest } => reg(dest),
        OpCode::GetTableR { dest, table, key } => reg(dest).max(reg(table)).max(reg(key)),
        OpCode::GetTableC { dest, table, .. } => reg(dest).max(reg(table)),
        OpCode::SetTableRR { table, key, value } => reg(table).max(reg(key)).max(reg(value)),
        OpCode::SetTableRC { table, key, .. } => reg(table).max(reg(key)),
        OpCode::SetTableCR { table, value, .. } => reg(table).max(reg(value)),
        OpCode::SetTableCC { table, .. } => reg(table),
        OpCode::GetUpTableR { dest, key, .. } => reg(dest).max(reg(key)),
        OpCode::GetUpTableC { dest, .. } => reg(dest),
        OpCode::SetUpTableRR { key, value, .. } => reg(key).max(reg(value)),
        OpCode::SetUpTableRC { key, .. } => reg(key),
        OpCode::SetUpTableCR { value, .. } => reg(value),
        OpCode::SetUpTableCC { .. } => -1,
        OpCode::Call { func, .. } => reg(func),
        OpCode::Return { start, .. } => reg(start),
        OpCode::Jump { .. } => -1,
        OpCode::Test { value, .. } => reg(value),
        OpCode::TestSet { dest, value, .. } => reg(dest).max(reg(value)),
        OpCode::Closure { dest, .. } => reg(dest),
        OpCode::GetUpValue { dest, .. } => reg(dest),
        OpCode::SetUpValue { source, .. } => reg(source),
        OpCode::Eq { args, .. } => of_args(args),
        OpCode::Less { args, .. } => of_args(args),
        OpCode::LessEqual { args, .. } => of_args(args),
        OpCode::Not { dest, source } => reg(dest).max(reg(source)),
        OpCode::Minus { dest, source } => reg(dest).max(reg(source)),
        OpCode::Add { dest, args } => reg(dest).max(of_args(args)),
        OpCode::Sub { dest, args } => reg(dest).max(of_args(args)),
        OpCode::Mul { dest, args } => reg(dest).max(of_args(args)),
    }
}

fn check_consistent(proto: &FunctionProto) {
    assert!(proto.stack_size <= 256);
    assert!(!proto.has_varargs);
    for op in &proto.opcodes {
        let highest = highest_register(op);
        assert!(highest <= proto.stack_size as i32, "{:?} in frame of {}", op, proto.stack_size);
        if !matches!(op, OpCode::Return { .. }) {
            assert!(highest < proto.stack_size as i32, "{:?}", op);
        }
        if let OpCode::LoadConstant { constant, .. } = op {
            assert!((constant.0 as usize) < proto.constants.len());
        }
        if let OpCode::Closure { proto: nested, .. } = op {
            assert!((nested.0 as usize) < proto.prototypes.len());
        }
    }
    for (i, a) in proto.constants.iter().enumerate() {
        for b in &proto.constants[i + 1..] {
            assert_ne!(a, b);
        }
    }
    for nested in &proto.prototypes {
        for upvalue in &nested.upvalues {
            match upvalue {
                UpValueDescriptor::Environment => panic!("nested function captures environment"),
                UpValueDescriptor::ParentLocal(reg) => assert!((reg.0 as u16) < proto.stack_size),
                UpValueDescriptor::Outer(index) => {
                    assert!((index.0 as usize) < proto.upvalues.len())
                }
            }
        }
        check_consistent(nested);
    }
}

#[test]
fn empty_chunk_returns_nothing() {
    let proto = compile_chunk(&chunk(vec![], None)).unwrap();
    assert_eq!(proto.opcodes, vec![return_nothing()]);
    assert_eq!(proto.stack_size, 0);
    assert_eq!(proto.fixed_params, 0);
    assert!(proto.constants.is_empty());
    assert!(proto.upvalues.is_empty());
    assert!(proto.prototypes.is_empty());
    assert!(!proto.has_varargs);
}

#[test]
fn local_of_enclosing_function_is_captured_in_a_chain() {
    let h = function(&[], vec![], Some(vec![name("n")]));
    let g = function(&[], vec![local_function("h", h)], Some(vec![name("n")]));
    let f = function(&[], vec![local_function("g", g)], None);
    let c = chunk(vec![local(&["m", "n"], vec![integer(1), integer(2)]), local_function("f", f)], None);
    let proto = compile_chunk(&c).unwrap();
    check_consistent(&proto);
    assert!(proto.upvalues.is_empty());
    let f = &proto.prototypes[0];
    let g = &f.prototypes[0];
    let h = &g.prototypes[0];
    assert_eq!(f.upvalues, vec![UpValueDescriptor::ParentLocal(r(1))]);
    assert_eq!(g.upvalues, vec![UpValueDescriptor::Outer(UpValueIndex(0))]);
    assert_eq!(h.upvalues, vec![UpValueDescriptor::Outer(UpValueIndex(0))]);
    assert_eq!(
        h.opcodes,
        vec![
            OpCode::GetUpValue { source: UpValueIndex(0), dest: r(0) },
            OpCode::Return { start: r(0), count: constant(1) },
        ]
    );
    assert_eq!(
        g.opcodes,
        vec![
            OpCode::Closure { proto: PrototypeIndex(0), dest: r(0) },
            OpCode::GetUpValue { source: UpValueIndex(0), dest: r(1) },
            OpCode::Return { start: r(1), count: constant(1) },
        ]
    );
    assert_eq!(
        f.opcodes,
        vec![OpCode::Closure { proto: PrototypeIndex(0), dest: r(0) }, return_nothing()]
    );
}

#[test]
fn second_capture_gets_the_next_upvalue() {
    let g = function(&[], vec![], Some(vec![name("b"), name("a"), name("b")]));
    let c = chunk(vec![local(&["a", "b"], vec![]), local_function("g", g)], None);
    let proto = compile_chunk(&c).unwrap();
    check_consistent(&proto);
    let g = &proto.prototypes[0];
    assert_eq!(
        g.upvalues,
        vec![UpValueDescriptor::ParentLocal(r(1)), UpValueDescriptor::ParentLocal(r(0))]
    );
    assert_eq!(
        g.opcodes,
        vec![
            OpCode::GetUpValue { source: UpValueIndex(0), dest: r(0) },
            OpCode::GetUpValue { source: UpValueIndex(1), dest: r(1) },
            OpCode::GetUpValue { source: UpValueIndex(0), dest: r(2) },
            OpCode::Return { start: r(0), count: constant(3) },
        ]
    );
}

#[test]
fn equal_literals_share_one_constant() {
    let c = chunk(
        vec![
            local(&["a"], vec![string("s")]),
            local(&["b"], vec![integer(5)]),
            local(&["c"], vec![string("s")]),
            local(&["d"], vec![integer(5)]),
            local(&["e"], vec![simple(SimpleExpression::Float(5.0f64.to_bits()))]),
            local(&["f"], vec![simple(SimpleExpression::Float(5.0f64.to_bits()))]),
        ],
        None,
    );
    let proto = compile_chunk(&c).unwrap();
    check_consistent(&proto);
    assert_eq!(
        proto.constants,
        vec![
            Value::String(b"s".to_vec()),
            Value::Integer(5),
            Value::Number(5.0f64.to_bits())
        ]
    );
    assert_eq!(
        proto.opcodes,
        vec![load(0, 0), load(1, 1), load(2, 0), load(3, 1), load(4, 2), load(5, 2), return_nothing()]
    );
}

#[test]
fn zeros_of_either_sign_are_two_constants() {
    let c = chunk(
        vec![
            local(&["a"], vec![simple(SimpleExpression::Float(0.0f64.to_bits()))]),
            local(&["b"], vec![simple(SimpleExpression::Float((-0.0f64).to_bits()))]),
        ],
        None,
    );
    let proto = compile_chunk(&c).unwrap();
    assert_eq!(
        proto.constants,
        vec![Value::Number(0.0f64.to_bits()), Value::Number((-0.0f64).to_bits())]
    );
}

#[test]
fn chunk_without_globals_has_no_upvalue() {
    let f = function(&["x"], vec![], Some(vec![binary(name("x"), BinaryOperator::Add, name("a"))]));
    let c = chunk(
        vec![
            local(&["a"], vec![integer(1)]),
            local(&["b"], vec![name("a")]),
            assign("a", name("b")),
            local_function("f", f),
        ],
        Some(vec![call("f", vec![name("a")])]),
    );
    let proto = compile_chunk(&c).unwrap();
    check_consistent(&proto);
    assert!(proto.upvalues.is_empty());
}

#[test]
fn any_number_of_globals_needs_one_environment() {
    let c = chunk(
        vec![
            assign("x", integer(1)),
            assign("y", name("x")),
            local(&["a"], vec![name("y")]),
            assign("z", name("a")),
        ],
        None,
    );
    let proto = compile_chunk(&c).unwrap();
    check_consistent(&proto);
    assert_eq!(proto.upvalues, vec![UpValueDescriptor::Environment]);
}

#[test]
fn global_in_nested_function_reaches_the_environment_through_outer() {
    let g = function(&[], vec![], Some(vec![name("x")]));
    let f = function(&[], vec![local_function("g", g)], None);
    let c = chunk(vec![local_function("f", f)], None);
    let proto = compile_chunk(&c).unwrap();
    check_consistent(&proto);
    assert_eq!(proto.upvalues, vec![UpValueDescriptor::Environment]);
    let f = &proto.prototypes[0];
    let g = &f.prototypes[0];
    assert_eq!(f.upvalues, vec![UpValueDescriptor::Outer(UpValueIndex(0))]);
    assert_eq!(g.upvalues, vec![UpValueDescriptor::Outer(UpValueIndex(0))]);
    assert_eq!(g.constants, vec![Value::String(b"x".to_vec())]);
    assert_eq!(
        g.opcodes,
        vec![
            OpCode::GetUpTableC { dest: r(0), table: UpValueIndex(0), key: ConstantIndex8(0) },
            OpCode::Return { start: r(0), count: constant(1) },
        ]
    );
}

#[test]
fn folding_emits_no_arithmetic() {
    let c = chunk(
        vec![
            local(&["a"], vec![binary(integer(6), BinaryOperator::Mul, integer(7))]),
            local(&["b"], vec![binary(integer(1), BinaryOperator::Sub, integer(2))]),
            local(&["c"], vec![binary(integer(1), BinaryOperator::LessThan, integer(2))]),
            local(&["d"], vec![unary(UnaryOperator::Minus, integer(5))]),
            local(&["e"], vec![unary(UnaryOperator::Not, simple(SimpleExpression::Nil))]),
            local(
                &["f"],
                vec![binary(
                    binary(integer(1), BinaryOperator::Add, integer(2)),
                    BinaryOperator::Add,
                    integer(3),
                )],
            ),
        ],
        None,
    );
    let proto = compile_chunk(&c).unwrap();
    check_consistent(&proto);
    assert_eq!(
        proto.constants,
        vec![Value::Integer(42), Value::Integer(-1), Value::Integer(-5), Value::Integer(6)]
    );
    assert_eq!(
        proto.opcodes,
        vec![
            load(0, 0),
            load(1, 1),
            OpCode::LoadBool { dest: r(2), value: true, skip_next: false },
            load(3, 2),
            OpCode::LoadBool { dest: r(4), value: true, skip_next: false },
            load(5, 3),
            return_nothing(),
        ]
    );
}

#[test]
fn float_operands_are_not_folded() {
    let c = chunk(
        vec![local(
            &["a"],
            vec![binary(
                simple(SimpleExpression::Float(1.5f64.to_bits())),
                BinaryOperator::Add,
                simple(SimpleExpression::Float(2.5f64.to_bits())),
            )],
        )],
        None,
    );
    let proto = compile_chunk(&c).unwrap();
    check_consistent(&proto);
    assert_eq!(
        proto.constants,
        vec![Value::Number(1.5f64.to_bits()), Value::Number(2.5f64.to_bits())]
    );
    assert_eq!(
        proto.opcodes,
        vec![
            load(0, 0),
            OpCode::Add { dest: r(0), args: BinOpArgs::RC(r(0), ConstantIndex8(1)) },
            return_nothing(),
        ]
    );
}

#[test]
fn operand_forms_follow_the_operands() {
    let c = chunk(
        vec![
            local(&["a", "b"], vec![integer(1), integer(2)]),
            local(&["c"], vec![binary(name("a"), BinaryOperator::Add, name("b"))]),
            local(&["d"], vec![binary(name("a"), BinaryOperator::Sub, integer(1))]),
            local(&["e"], vec![binary(integer(2), BinaryOperator::Mul, name("b"))]),
        ],
        None,
    );
    let proto = compile_chunk(&c).unwrap();
    check_consistent(&proto);
    assert_eq!(proto.constants, vec![Value::Integer(1), Value::Integer(2)]);
    assert_eq!(
        proto.opcodes,
        vec![
            load(0, 0),
            load(1, 1),
            OpCode::Add { dest: r(2), args: BinOpArgs::RR(r(0), r(1)) },
            OpCode::Sub { dest: r(3), args: BinOpArgs::RC(r(0), ConstantIndex8(0)) },
            OpCode::Mul { dest: r(4), args: BinOpArgs::CR(ConstantIndex8(1), r(1)) },
            return_nothing(),
        ]
    );
}

#[test]
fn comparison_leaves_a_boolean() {
    let c = chunk(
        vec![
            local(&["a"], vec![integer(1)]),
            local(&["b"], vec![binary(name("a"), BinaryOperator::GreaterThan, integer(2))]),
        ],
        None,
    );
    let proto = compile_chunk(&c).unwrap();
    check_consistent(&proto);
    assert_eq!(
        proto.opcodes,
        vec![
            load(0, 0),
            OpCode::Less { skip_if: true, args: BinOpArgs::CR(ConstantIndex8(1), r(0)) },
            OpCode::Jump { offset: 1 },
            OpCode::LoadBool { dest: r(1), value: true, skip_next: true },
            OpCode::LoadBool { dest: r(1), value: false, skip_next: false },
            return_nothing(),
        ]
    );
}

#[test]
fn unary_operator_on_a_local() {
    let c = chunk(
        vec![
            local(&["a"], vec![integer(1)]),
            local(&["b"], vec![unary(UnaryOperator::Minus, name("a"))]),
            local(&["c"], vec![unary(UnaryOperator::Not, name("b"))]),
        ],
        None,
    );
    let proto = compile_chunk(&c).unwrap();
    check_consistent(&proto);
    assert_eq!(
        proto.opcodes,
        vec![
            load(0, 0),
            OpCode::Minus { dest: r(1), source: r(0) },
            OpCode::Not { dest: r(2), source: r(1) },
            return_nothing(),
        ]
    );
}

#[test]
fn or_copies_the_left_operand_when_it_decides() {
    let c = chunk(
        vec![
            local(&["a"], vec![integer(1)]),
            local(&["b"], vec![binary(name("a"), BinaryOperator::Or, integer(2))]),
        ],
        None,
    );
    let proto = compile_chunk(&c).unwrap();
    check_consistent(&proto);
    assert_eq!(
        proto.opcodes,
        vec![
            load(0, 0),
            OpCode::TestSet { dest: r(1), value: r(0), is_true: false },
            OpCode::Jump { offset: 1 },
            load(1, 1),
            return_nothing(),
        ]
    );
}

#[test]
fn nested_short_circuits_jump_to_their_own_ends() {
    let inner = grouped(binary(name("a"), BinaryOperator::Or, integer(3)));
    let c = chunk(
        vec![
            local(&["a"], vec![integer(1)]),
            local(&["b"], vec![binary(name("a"), BinaryOperator::And, inner)]),
        ],
        None,
    );
    let proto = compile_chunk(&c).unwrap();
    check_consistent(&proto);
    assert_eq!(
        proto.opcodes,
        vec![
            load(0, 0),
            OpCode::TestSet { dest: r(1), value: r(0), is_true: true },
            OpCode::Jump { offset: 3 },
            OpCode::TestSet { dest: r(1), value: r(0), is_true: false },
            OpCode::Jump { offset: 1 },
            load(1, 1),
            return_nothing(),
        ]
    );
    for (i, op) in proto.opcodes.iter().enumerate() {
        if let OpCode::Jump { offset } = op {
            assert!(i + 1 + *offset as usize <= proto.opcodes.len() - 1);
        }
    }
}

#[test]
fn short_circuit_for_effect_only_tests() {
    let c = chunk(
        vec![
            local_function("f", function(&[], vec![], None)),
            local(&["a"], vec![binary(name("f"), BinaryOperator::And, call("f", vec![]))]),
        ],
        None,
    );
    let proto = compile_chunk(&c).unwrap();
    check_consistent(&proto);
    assert_eq!(
        proto.opcodes,
        vec![
            OpCode::Closure { proto: PrototypeIndex(0), dest: r(0) },
            OpCode::TestSet { dest: r(1), value: r(0), is_true: true },
            OpCode::Jump { offset: 3 },
            OpCode::Move { dest: r(2), source: r(0) },
            OpCode::Call { func: r(2), args: constant(0), returns: VarCount::make_one() },
            OpCode::Move { dest: r(1), source: r(2) },
            return_nothing(),
        ]
    );
}

#[test]
fn global_is_read_from_and_written_to_the_environment() {
    let c = chunk(vec![assign("x", integer(1)), local(&["a"], vec![name("x")])], None);
    let proto = compile_chunk(&c).unwrap();
    check_consistent(&proto);
    assert_eq!(proto.constants, vec![Value::String(b"x".to_vec()), Value::Integer(1)]);
    assert_eq!(
        proto.opcodes,
        vec![
            OpCode::SetUpTableCC {
                table: UpValueIndex(0),
                key: ConstantIndex8(0),
                value: ConstantIndex8(1),
            },
            OpCode::GetUpTableC { dest: r(0), table: UpValueIndex(0), key: ConstantIndex8(0) },
            return_nothing(),
        ]
    );
    assert_eq!(proto.stack_size, 1);
}

#[test]
fn field_access_with_register_key_and_with_constant_key() {
    let index = simple(SimpleExpression::Suffixed(suffixed(
        "t",
        vec![SuffixPart::Field(FieldSuffix::Indexed(name("k")))],
    )));
    let named = simple(SimpleExpression::Suffixed(suffixed(
        "t",
        vec![SuffixPart::Field(FieldSuffix::Named(b"x".to_vec()))],
    )));
    let c = chunk(
        vec![
            local(&["t", "k"], vec![]),
            local(&["a"], vec![index]),
            local(&["b"], vec![named]),
        ],
        None,
    );
    let proto = compile_chunk(&c).unwrap();
    check_consistent(&proto);
    assert_eq!(proto.constants, vec![Value::String(b"x".to_vec())]);
    assert_eq!(
        proto.opcodes,
        vec![
            OpCode::LoadNil { dest: r(0), count: 2 },
            OpCode::GetTableR { dest: r(2), table: r(0), key: r(1) },
            OpCode::GetTableC { dest: r(3), table: r(0), key: ConstantIndex8(0) },
            return_nothing(),
        ]
    );
}

#[test]
fn chained_field_access_leaves_a_hole() {
    let named = simple(SimpleExpression::Suffixed(suffixed(
        "t",
        vec![
            SuffixPart::Field(FieldSuffix::Named(b"x".to_vec())),
            SuffixPart::Field(FieldSuffix::Named(b"y".to_vec())),
        ],
    )));
    let c = chunk(vec![local(&["t"], vec![]), local(&["b"], vec![named])], None);
    let mut compiler = Compiler::new();
    compiler.block(&c.block).unwrap();
    let top = &compiler.functions.top;
    assert_eq!(
        top.opcodes,
        vec![
            OpCode::LoadNil { dest: r(0), count: 1 },
            OpCode::GetTableC { dest: r(1), table: r(0), key: ConstantIndex8(0) },
            OpCode::GetTableC { dest: r(2), table: r(1), key: ConstantIndex8(1) },
            return_nothing(),
        ]
    );
    assert_eq!(top.locals, vec![(b"t".to_vec(), r(0)), (b"b".to_vec(), r(2))]);
    assert!(!top.register_allocator.is_allocated(r(1)));
    assert_eq!(top.register_allocator.stack_top, 3);
    assert_eq!(
        compile_chunk(&c).unwrap_err(),
        lua_codegen::error::CompileError::Register(lua_codegen::error::RegisterFault::Leak)
    );
}

#[test]
fn field_is_assigned_in_each_operand_form() {
    let target = |field: FieldSuffix| AssignmentTarget::Field(suffixed("t", vec![]), field);
    let c = chunk(
        vec![
            local(&["t", "k", "v"], vec![]),
            Statement::Assignment(AssignmentStatement {
                targets: vec![
                    target(FieldSuffix::Indexed(name("k"))),
                    target(FieldSuffix::Indexed(name("k"))),
                    target(FieldSuffix::Named(b"f".to_vec())),
                    target(FieldSuffix::Named(b"f".to_vec())),
                ],
                values: vec![name("v"), integer(1), name("v")],
            }),
        ],
        None,
    );
    let proto = compile_chunk(&c).unwrap();
    check_consistent(&proto);
    assert_eq!(
        proto.constants,
        vec![Value::Integer(1), Value::String(b"f".to_vec()), Value::Nil]
    );
    assert_eq!(
        proto.opcodes,
        vec![
            OpCode::LoadNil { dest: r(0), count: 3 },
            OpCode::SetTableRR { table: r(0), key: r(1), value: r(2) },
            OpCode::SetTableRC { table: r(0), key: r(1), value: ConstantIndex8(0) },
            OpCode::SetTableCR { table: r(0), key: ConstantIndex8(1), value: r(2) },
            OpCode::SetTableCC { table: r(0), key: ConstantIndex8(1), value: ConstantIndex8(2) },
            return_nothing(),
        ]
    );
}

#[test]
fn local_is_assigned_by_a_move() {
    let c = chunk(
        vec![
            local(&["a", "b"], vec![integer(1), integer(2)]),
            assign("a", name("b")),
            assign("a", name("a")),
            assign("b", integer(3)),
        ],
        None,
    );
    let proto = compile_chunk(&c).unwrap();
    check_consistent(&proto);
    assert_eq!(
        proto.opcodes,
        vec![
            load(0, 0),
            load(1, 1),
            OpCode::Move { dest: r(0), source: r(1) },
            load(1, 2),
            return_nothing(),
        ]
    );
}

#[test]
fn upvalue_is_assigned_from_a_register() {
    let f = function(&[], vec![assign("a", integer(7)), assign("a", name("a"))], None);
    let c = chunk(vec![local(&["a"], vec![]), local_function("f", f)], None);
    let proto = compile_chunk(&c).unwrap();
    check_consistent(&proto);
    let f = &proto.prototypes[0];
    assert_eq!(f.upvalues, vec![UpValueDescriptor::ParentLocal(r(0))]);
    assert_eq!(
        f.opcodes,
        vec![
            load(0, 0),
            OpCode::SetUpValue { source: r(0), dest: UpValueIndex(0) },
            OpCode::GetUpValue { source: UpValueIndex(0), dest: r(0) },
            OpCode::SetUpValue { source: r(0), dest: UpValueIndex(0) },
            return_nothing(),
        ]
    );
    assert_eq!(f.stack_size, 1);
}

#[test]
fn missing_values_are_nil_and_surplus_values_are_dropped() {
    let c = chunk(
        vec![
            local(&["a", "b", "c"], vec![integer(1)]),
            local(&["d"], vec![integer(2), integer(3), name("a")]),
            Statement::Assignment(AssignmentStatement {
                targets: vec![
                    AssignmentTarget::Name(b"a".to_vec()),
                    AssignmentTarget::Name(b"b".to_vec()),
                ],
                values: vec![integer(4)],
            }),
        ],
        None,
    );
    let proto = compile_chunk(&c).unwrap();
    check_consistent(&proto);
    assert_eq!(proto.constants, vec![Value::Integer(1), Value::Integer(2), Value::Integer(4)]);
    assert_eq!(
        proto.opcodes,
        vec![
            load(0, 0),
            OpCode::LoadNil { dest: r(1), count: 2 },
            load(3, 1),
            load(0, 2),
            OpCode::LoadNil { dest: r(1), count: 1 },
            return_nothing(),
        ]
    );
    assert_eq!(proto.stack_size, 4);
}

#[test]
fn nil_literal_fuses_with_the_load_before() {
    let c = chunk(
        vec![
            local(&["a"], vec![]),
            local(&["b"], vec![simple(SimpleExpression::Nil)]),
            local(&["c"], vec![integer(1)]),
            local(&["d", "e"], vec![]),
        ],
        None,
    );
    let proto = compile_chunk(&c).unwrap();
    assert_eq!(
        proto.opcodes,
        vec![
            OpCode::LoadNil { dest: r(0), count: 2 },
            load(2, 0),
            OpCode::LoadNil { dest: r(3), count: 2 },
            return_nothing(),
        ]
    );
}

#[test]
fn results_of_a_call_fill_the_last_locals() {
    let c = chunk(
        vec![
            local_function("f", function(&[], vec![], None)),
            local(&["a", "b", "c"], vec![integer(1), call("f", vec![])]),
        ],
        Some(vec![name("c")]),
    );
    let proto = compile_chunk(&c).unwrap();
    check_consistent(&proto);
    assert_eq!(
        proto.opcodes,
        vec![
            OpCode::Closure { proto: PrototypeIndex(0), dest: r(0) },
            load(1, 0),
            OpCode::Move { dest: r(2), source: r(0) },
            OpCode::Call { func: r(2), args: constant(0), returns: constant(2) },
            OpCode::Move { dest: r(4), source: r(3) },
            OpCode::Return { start: r(4), count: constant(1) },
        ]
    );
    assert_eq!(proto.stack_size, 5);
}

#[test]
fn call_in_the_middle_gives_one_value() {
    let c = chunk(
        vec![
            local_function("f", function(&[], vec![], None)),
            local(&["a", "b"], vec![call("f", vec![]), integer(1)]),
        ],
        None,
    );
    let proto = compile_chunk(&c).unwrap();
    check_consistent(&proto);
    assert_eq!(
        proto.opcodes,
        vec![
            OpCode::Closure { proto: PrototypeIndex(0), dest: r(0) },
            OpCode::Move { dest: r(1), source: r(0) },
            OpCode::Call { func: r(1), args: constant(0), returns: VarCount::make_one() },
            load(2, 0),
            return_nothing(),
        ]
    );
}

#[test]
fn last_argument_that_is_a_call_passes_all_its_results() {
    let c = chunk(
        vec![
            local_function("f", function(&[], vec![], None)),
            call_statement("f", vec![integer(1), call("f", vec![])]),
        ],
        None,
    );
    let proto = compile_chunk(&c).unwrap();
    check_consistent(&proto);
    assert_eq!(
        proto.opcodes,
        vec![
            OpCode::Closure { proto: PrototypeIndex(0), dest: r(0) },
            OpCode::Move { dest: r(1), source: r(0) },
            load(2, 0),
            OpCode::Move { dest: r(3), source: r(0) },
            OpCode::Call { func: r(3), args: constant(0), returns: VarCount::make_variable() },
            OpCode::Call {
                func: r(1),
                args: VarCount::make_variable(),
                returns: VarCount::make_zero(),
            },
            return_nothing(),
        ]
    );
    assert_eq!(proto.stack_size, 4);
}

#[test]
fn return_of_several_values() {
    let c = chunk(vec![local(&["a"], vec![integer(1)])], Some(vec![name("a"), integer(5)]));
    let proto = compile_chunk(&c).unwrap();
    check_consistent(&proto);
    assert_eq!(
        proto.opcodes,
        vec![
            load(0, 0),
            OpCode::Move { dest: r(1), source: r(0) },
            load(2, 1),
            OpCode::Return { start: r(1), count: constant(2) },
        ]
    );
    assert_eq!(proto.stack_size, 3);
}

#[test]
fn local_is_copied_to_a_new_local_and_returned_from_the_top() {
    let c = chunk(
        vec![local(&["a"], vec![integer(1)]), local(&["b"], vec![name("a")])],
        Some(vec![name("b")]),
    );
    let proto = compile_chunk(&c).unwrap();
    check_consistent(&proto);
    assert_eq!(
        proto.opcodes,
        vec![
            load(0, 0),
            OpCode::Move { dest: r(1), source: r(0) },
            OpCode::Move { dest: r(2), source: r(1) },
            OpCode::Return { start: r(2), count: constant(1) },
        ]
    );
    assert_eq!(proto.stack_size, 3);
    assert_eq!(proto.constants, vec![Value::Integer(1)]);
}

#[test]
fn reading_a_local_changes_nothing() {
    let mut compiler = Compiler::new();
    compiler.statement(&local(&["a", "b"], vec![integer(1), integer(2)])).unwrap();
    compiler.statement(&local(&["a"], vec![integer(3)])).unwrap();
    let code = compiler.functions.top.opcodes.clone();
    let top = compiler.functions.top.register_allocator.stack_top;
    let a = name("a");
    let read = compiler.expression(&a).unwrap();
    assert_eq!(
        format!("{:?}", read),
        format!("{:?}", lua_codegen::descriptor::ExprDescriptor::Register {
            register: r(2),
            is_temporary: false
        })
    );
    assert_eq!(compiler.functions.top.opcodes, code);
    assert_eq!(compiler.functions.top.register_allocator.stack_top, top);
    let none = Vec::new();
    assert!(compiler.expressions(&none).unwrap().is_empty());
    assert_eq!(compiler.functions.top.opcodes, code);
}

#[test]
fn local_function_that_does_nothing_is_called_at_the_top() {
    let c = chunk(
        vec![local_function("f", function(&["x", "y"], vec![], None)), call_statement("f", vec![])],
        None,
    );
    let proto = compile_chunk(&c).unwrap();
    check_consistent(&proto);
    assert_eq!(
        proto.opcodes,
        vec![
            OpCode::Closure { proto: PrototypeIndex(0), dest: r(0) },
            OpCode::Move { dest: r(1), source: r(0) },
            OpCode::Call { func: r(1), args: constant(0), returns: constant(0) },
            return_nothing(),
        ]
    );
    assert_eq!(proto.stack_size, 2);
    assert_eq!(proto.prototypes.len(), 1);
    let inner = &proto.prototypes[0];
    assert_eq!(inner.fixed_params, 2);
    assert!(!inner.has_varargs);
    assert_eq!(inner.stack_size, 2);
    assert_eq!(inner.opcodes, vec![return_nothing()]);
    assert!(inner.constants.is_empty());
    assert!(inner.upvalues.is_empty());
    assert!(inner.prototypes.is_empty());
}

#[test]
fn operators_on_locals_take_the_lowest_free_register() {
    let c = chunk(
        vec![
            local(&["a", "b"], vec![integer(1), integer(2)]),
            local(&["c"], vec![binary(name("a"), BinaryOperator::Sub, name("b"))]),
            local(&["d"], vec![unary(UnaryOperator::Minus, name("c"))]),
            local(&["e"], vec![binary(name("a"), BinaryOperator::LessThan, name("d"))]),
        ],
        None,
    );
    let proto = compile_chunk(&c).unwrap();
    check_consistent(&proto);
    assert_eq!(
        proto.opcodes,
        vec![
            load(0, 0),
            load(1, 1),
            OpCode::Sub { dest: r(2), args: BinOpArgs::RR(r(0), r(1)) },
            OpCode::Minus { dest: r(3), source: r(2) },
            OpCode::Less { skip_if: true, args: BinOpArgs::RR(r(0), r(3)) },
            OpCode::Jump { offset: 1 },
            OpCode::LoadBool { dest: r(4), value: true, skip_next: true },
            OpCode::LoadBool { dest: r(4), value: false, skip_next: false },
            return_nothing(),
        ]
    );
}

#[test]
fn explicit_empty_return() {
    let proto = compile_chunk(&chunk(vec![local(&["a"], vec![])], Some(vec![]))).unwrap();
    assert_eq!(
        proto.opcodes,
        vec![OpCode::LoadNil { dest: r(0), count: 1 }, return_nothing()]
    );
}

#[test]
fn parameters_are_the_first_locals() {
    let f = function(&["x", "y"], vec![], Some(vec![binary(name("x"), BinaryOperator::Add, name("y"))]));
    let proto = compile_chunk(&chunk(vec![local_function("f", f)], None)).unwrap();
    check_consistent(&proto);
    let f = &proto.prototypes[0];
    assert_eq!(f.fixed_params, 2);
    assert_eq!(f.stack_size, 3);
    assert_eq!(
        f.opcodes,
        vec![
            OpCode::Add { dest: r(2), args: BinOpArgs::RR(r(0), r(1)) },
            OpCode::Return { start: r(2), count: constant(1) },
        ]
    );
}

#[test]
fn global_function_is_stored_in_the_environment() {
    let c = chunk(
        vec![Statement::Function(FunctionStatement {
            name: function_name("f"),
            definition: function(&[], vec![], None),
        })],
        None,
    );
    let proto = compile_chunk(&c).unwrap();
    check_consistent(&proto);
    assert_eq!(proto.upvalues, vec![UpValueDescriptor::Environment]);
    assert_eq!(proto.constants, vec![Value::String(b"f".to_vec())]);
    assert_eq!(
        proto.opcodes,
        vec![
            OpCode::Closure { proto: PrototypeIndex(0), dest: r(0) },
            OpCode::SetUpTableCR { table: UpValueIndex(0), key: ConstantIndex8(0), value: r(0) },
            return_nothing(),
        ]
    );
    assert_eq!(proto.prototypes[0].opcodes, vec![return_nothing()]);
}

#[test]
fn function_expression_is_a_closure_in_a_temporary() {
    let c = chunk(
        vec![local(&["f"], vec![simple(SimpleExpression::Function(function(&[], vec![], None)))])],
        None,
    );
    let proto = compile_chunk(&c).unwrap();
    check_consistent(&proto);
    assert_eq!(
        proto.opcodes,
        vec![OpCode::Closure { proto: PrototypeIndex(0), dest: r(0) }, return_nothing()]
    );
    assert_eq!(proto.prototypes.len(), 1);
}

#[test]
fn local_named_env_is_the_environment_in_scope() {
    let c = chunk(vec![local(&["_ENV"], vec![]), assign("x", integer(1))], None);
    let proto = compile_chunk(&c).unwrap();
    check_consistent(&proto);
    assert!(proto.upvalues.is_empty());
    assert_eq!(
        proto.opcodes,
        vec![
            OpCode::LoadNil { dest: r(0), count: 1 },
            OpCode::SetTableCC { table: r(0), key: ConstantIndex8(0), value: ConstantIndex8(1) },
            return_nothing(),
        ]
    );
}

#[test]
fn body_of_call_with_global_argument_before_the_leak_check() {
    let c = chunk(vec![call_statement("print", vec![name("x")])], None);
    let mut compiler = Compiler::new();
    compiler.block(&c.block).unwrap();
    let top = &compiler.functions.top;
    assert_eq!(
        top.opcodes,
        vec![
            OpCode::GetUpTableC { dest: r(0), table: UpValueIndex(0), key: ConstantIndex8(0) },
            OpCode::GetUpTableC { dest: r(1), table: UpValueIndex(0), key: ConstantIndex8(1) },
            OpCode::Move { dest: r(2), source: r(0) },
            OpCode::Move { dest: r(3), source: r(1) },
            OpCode::Call { func: r(2), args: constant(1), returns: VarCount::make_zero() },
            return_nothing(),
        ]
    );
    assert_eq!(
        top.constants,
        vec![Value::String(b"print".to_vec()), Value::String(b"x".to_vec())]
    );
    assert_eq!(top.upvalues, vec![(b"_ENV".to_vec(), UpValueDescriptor::Environment)]);
    assert_eq!(top.register_allocator.stack_top, 2);
    assert_eq!(top.locals.len(), 0);
    assert_eq!(top.register_allocator.stack_size, 4);
}

#[test]
fn body_that_compiles_ends_with_the_top_at_the_number_of_locals() {
    let bodies = vec![
        block(vec![], None),
        block(vec![local(&["a", "b"], vec![integer(1)])], Some(vec![name("a"), name("b")])),
        block(
            vec![
                local_function("f", function(&["x"], vec![], Some(vec![name("x")]))),
                local(&["a", "b", "c"], vec![call("f", vec![integer(1)])]),
                call_statement("f", vec![name("a"), binary(name("b"), BinaryOperator::Or, name("c"))]),
                assign("a", binary(name("b"), BinaryOperator::Add, name("c"))),
            ],
            Some(vec![call("f", vec![name("a")])]),
        ),
    ];
    for body in &bodies {
        let mut compiler = Compiler::new();
        compiler.function_body(body).unwrap();
        let top = &compiler.functions.top;
        assert_eq!(top.register_allocator.stack_top as usize, top.locals.len());
        for (_, register) in &top.locals {
            assert!(top.register_allocator.is_allocated(*register));
        }
        for i in 0..=255u8 {
            let held = top.locals.iter().filter(|(_, register)| register.0 == i).count();
            assert_eq!(held, if top.register_allocator.is_allocated(r(i)) { 1 } else { 0 });
        }
    }
    let leaking = block(vec![call_statement("f", vec![name("x")])], None);
    let mut compiler = Compiler::new();
    assert_eq!(
        compiler.function_body(&leaking),
        Err(lua_codegen::error::CompileError::Register(lua_codegen::error::RegisterFault::Leak))
    );
    let top = &compiler.functions.top;
    assert_ne!(top.register_allocator.stack_top as usize, top.locals.len());
}
