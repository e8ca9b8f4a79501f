use lua_codegen::ast::{
    BinaryOperator, Block, CallSuffix, Chunk, Expression, FieldSuffix, FunctionCallStatement,
    FunctionDefinition, FunctionName, FunctionStatement, HeadExpression, LocalStatement,
    PrimaryExpression, ReturnStatement, SimpleExpression, Statement, SuffixPart,
    SuffixedExpression, TableConstructor, AssignmentStatement, AssignmentTarget,
};
use lua_codegen::compile_chunk;
use lua_codegen::error::{CompileError, RegisterFault};
use lua_codegen::function::UpValueDescriptor;
use lua_codegen::opcode::{
    ConstantIndex16, ConstantIndex8, OpCode, PrototypeIndex, RegisterIndex, UpValueIndex,
    VarCount,
};
use lua_codegen::value::Value;

fn simple(s: SimpleExpression) -> Expression {
    Expression { head: Box::new(HeadExpression::Simple(s)), tail: vec![] }
}

fn integer(i: i64) -> Expression {
    simple(SimpleExpression::Integer(i))
}

fn name(n: &str) -> Expression {
    simple(SimpleExpression::Suffixed(SuffixedExpression {
        primary: PrimaryExpression::Name(n.as_bytes().to_vec()),
        suffixes: vec![],
    }))
}

fn binary(left: Expression, op: BinaryOperator, right: Expression) -> Expression {
    let Expression { head, mut tail } = left;
    tail.push((op, right));
    Expression { head, tail }
}

fn local(names: &[&str], values: Vec<Expression>) -> Statement {
    Statement::LocalStatement(LocalStatement {
        names: names.iter().map(|n| n.as_bytes().to_vec()).collect(),
        values,
    })
}

fn chunk(statements: Vec<Statement>, returns: Option<Vec<Expression>>) -> Chunk {
    Chunk {
        block: Block {
            statements,
            return_statement: returns.map(|returns| ReturnStatement { returns }),
        },
    }
}

fn return_nothing() -> OpCode {
    OpCode::Return { start: RegisterIndex(0), count: VarCount::make_zero() }
}

#[test]
fn folded_sum_is_one_constant() {
    let c = chunk(
        vec![local(&["x"], vec![binary(integer(1), BinaryOperator::Add, integer(2))])],
        None,
    );
    let proto = compile_chunk(&c).unwrap();
    assert_eq!(proto.constants, vec![Value::Integer(3)]);
    assert_eq!(
        proto.opcodes,
        vec![
            OpCode::LoadConstant { dest: RegisterIndex(0), constant: ConstantIndex16(0) },
            return_nothing(),
        ]
    );
    assert_eq!(proto.fixed_params, 0);
    assert!(proto.upvalues.is_empty());
    assert_eq!(proto.stack_size, 1);
    assert!(!proto.has_varargs);
    assert!(proto.prototypes.is_empty());
}

#[test]
fn nil_locals_share_one_load() {
    let c = chunk(vec![local(&["a"], vec![]), local(&["b"], vec![]), local(&["c"], vec![])], None);
    let proto = compile_chunk(&c).unwrap();
    assert_eq!(
        proto.opcodes,
        vec![OpCode::LoadNil { dest: RegisterIndex(0), count: 3 }, return_nothing()]
    );
    assert_eq!(proto.stack_size, 3);
}

#[test]
fn call_of_global_with_global_argument_leaks() {
    let c = chunk(
        vec![Statement::FunctionCall(FunctionCallStatement {
            head: SuffixedExpression {
                primary: PrimaryExpression::Name(b"print".to_vec()),
                suffixes: vec![],
            },
            call: CallSuffix::Function(vec![name("x")]),
        })],
        None,
    );
    assert_eq!(compile_chunk(&c).unwrap_err(), CompileError::Register(RegisterFault::Leak));
}

#[test]
fn field_assignment_uses_two_constants() {
    let c = chunk(
        vec![
            local(
                &["t"],
                vec![simple(SimpleExpression::TableConstructor(TableConstructor { fields: vec![] }))],
            ),
            Statement::Assignment(AssignmentStatement {
                targets: vec![AssignmentTarget::Field(
                    SuffixedExpression {
                        primary: PrimaryExpression::Name(b"t".to_vec()),
                        suffixes: vec![],
                    },
                    FieldSuffix::Named(b"k".to_vec()),
                )],
                values: vec![integer(1)],
            }),
        ],
        None,
    );
    let proto = compile_chunk(&c).unwrap();
    assert_eq!(proto.constants, vec![Value::String(b"k".to_vec()), Value::Integer(1)]);
    assert_eq!(
        proto.opcodes,
        vec![
            OpCode::NewTable { dest: RegisterIndex(0) },
            OpCode::SetTableCC {
                table: RegisterIndex(0),
                key: ConstantIndex8(0),
                value: ConstantIndex8(1),
            },
            return_nothing(),
        ]
    );
}

#[test]
fn local_function_called_in_return() {
    let body = Block {
        statements: vec![],
        return_statement: Some(ReturnStatement { returns: vec![integer(1)] }),
    };
    let c = chunk(
        vec![Statement::LocalFunction(FunctionStatement {
            name: FunctionName { name: b"f".to_vec(), fields: vec![], method: None },
            definition: FunctionDefinition { parameters: vec![], has_varargs: false, body },
        })],
        Some(vec![simple(SimpleExpression::Suffixed(SuffixedExpression {
            primary: PrimaryExpression::Name(b"f".to_vec()),
            suffixes: vec![SuffixPart::Call(CallSuffix::Function(vec![]))],
        }))]),
    );
    let proto = compile_chunk(&c).unwrap();
    assert_eq!(proto.prototypes.len(), 1);
    let inner = &proto.prototypes[0];
    assert_eq!(inner.constants, vec![Value::Integer(1)]);
    assert_eq!(
        inner.opcodes,
        vec![
            OpCode::LoadConstant { dest: RegisterIndex(0), constant: ConstantIndex16(0) },
            OpCode::Return { start: RegisterIndex(0), count: VarCount::make_constant(1).unwrap() },
        ]
    );
    assert_eq!(
        proto.opcodes,
        vec![
            OpCode::Closure { proto: PrototypeIndex(0), dest: RegisterIndex(0) },
            OpCode::Move { dest: RegisterIndex(1), source: RegisterIndex(0) },
            OpCode::Call {
                func: RegisterIndex(1),
                args: VarCount::make_constant(0).unwrap(),
                returns: VarCount::make_variable(),
            },
            OpCode::Return { start: RegisterIndex(1), count: VarCount::make_variable() },
        ]
    );
}

#[test]
fn and_jumps_over_its_right_operand() {
    let c = chunk(
        vec![local(&["a"], vec![binary(integer(1), BinaryOperator::And, integer(2))])],
        None,
    );
    let proto = compile_chunk(&c).unwrap();
    assert_eq!(proto.constants, vec![Value::Integer(1), Value::Integer(2)]);
    assert_eq!(
        proto.opcodes,
        vec![
            OpCode::LoadConstant { dest: RegisterIndex(0), constant: ConstantIndex16(0) },
            OpCode::Test { value: RegisterIndex(0), is_true: true },
            OpCode::Jump { offset: 1 },
            OpCode::LoadConstant { dest: RegisterIndex(0), constant: ConstantIndex16(1) },
            return_nothing(),
        ]
    );
    assert_eq!(proto.stack_size, 1);
}

#[test]
fn call_of_global_with_constant_argument() {
    let c = chunk(
        vec![Statement::FunctionCall(FunctionCallStatement {
            head: SuffixedExpression {
                primary: PrimaryExpression::Name(b"print".to_vec()),
                suffixes: vec![],
            },
            call: CallSuffix::Function(vec![integer(7)]),
        })],
        None,
    );
    let proto = compile_chunk(&c).unwrap();
    assert_eq!(proto.upvalues, vec![UpValueDescriptor::Environment]);
    assert_eq!(proto.constants, vec![Value::String(b"print".to_vec()), Value::Integer(7)]);
    assert_eq!(
        proto.opcodes,
        vec![
            OpCode::GetUpTableC {
                dest: RegisterIndex(0),
                table: UpValueIndex(0),
                key: ConstantIndex8(0),
            },
            OpCode::LoadConstant { dest: RegisterIndex(1), constant: ConstantIndex16(1) },
            OpCode::Call {
                func: RegisterIndex(0),
                args: VarCount::make_constant(1).unwrap(),
                returns: VarCount::make_zero(),
            },
            return_nothing(),
        ]
    );
}
