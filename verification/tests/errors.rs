use lua_codegen::ast::{
    AssignmentStatement, AssignmentTarget, BinaryOperator, Block, CallSuffix, Chunk,
    ConstructorField, Expression, FieldSuffix, ForStatement, FunctionCallStatement,
    FunctionDefinition, FunctionName, FunctionStatement, HeadExpression, IfStatement,
    LocalStatement, PrimaryExpression, RepeatStatement, ReturnStatement, SimpleExpression,
    Statement, SuffixPart, SuffixedExpression, TableConstructor, UnaryOperator,
    WhileStatement,
};
use lua_codegen::compile_chunk;
use lua_codegen::descriptor::{ExprDescriptor, ExprDestination};
use lua_codegen::error::{CompileError, CompilerLimit, RegisterFault, Unsupported};
use lua_codegen::function::{FunctionProto, UpValueDescriptor};
use lua_codegen::opcode::{ConstantIndex16, OpCode, RegisterIndex, VarCount};
use lua_codegen::state::{Compiler, CompilerFunction};
use lua_codegen::value::Value;

fn simple(s: SimpleExpression) -> Expression {
    Expression { head: Box::new(HeadExpression::Simple(s)), tail: vec![] }
}

fn integer(i: i64) -> Expression {
    simple(SimpleExpression::Integer(i))
}

fn suffixed(n: &str, suffixes: Vec<SuffixPart>) -> SuffixedExpression {
    SuffixedExpression { primary: PrimaryExpression::Name(n.as_bytes().to_vec()), suffixes }
}

fn name(n: &str) -> Expression {
    simple(SimpleExpression::Suffixed(suffixed(n, vec![])))
}

fn call(n: &str, args: Vec<Expression>) -> Expression {
    simple(SimpleExpression::Suffixed(suffixed(
        n,
        vec![SuffixPart::Call(CallSuffix::Function(args))],
    )))
}

fn binary(left: Expression, op: BinaryOperator, right: Expression) -> Expression {
    let Expression { head, mut tail } = left;
    tail.push((op, right));
    Expression { head, tail }
}

fn names(n: usize) -> Vec<Vec<u8>> {
    (0..n).map(|i| format!("v{}", i).into_bytes()).collect()
}

fn local(names: Vec<Vec<u8>>, values: Vec<Expression>) -> Statement {
    Statement::LocalStatement(LocalStatement { names, values })
}

fn block(statements: Vec<Statement>, returns: Option<Vec<Expression>>) -> Block {
    Block { statements, return_statement: returns.map(|returns| ReturnStatement { returns }) }
}

fn chunk(statements: Vec<Statement>, returns: Option<Vec<Expression>>) -> Chunk {
    Chunk { block: block(statements, returns) }
}

fn function(parameters: Vec<Vec<u8>>, statements: Vec<Statement>) -> FunctionDefinition {
    FunctionDefinition { parameters, has_varargs: false, body: block(statements, None) }
}

fn local_function(n: &str, definition: FunctionDefinition) -> Statement {
    Statement::LocalFunction(FunctionStatement {
        name: FunctionName { name: n.as_bytes().to_vec(), fields: vec![], method: None },
        definition,
    })
}

fn rejected(statement: Statement) -> CompileError {
    compile_chunk(&chunk(vec![statement], None)).unwrap_err()
}

fn rejected_expression(e: Expression) -> CompileError {
    rejected(local(names(1), vec![e]))
}

fn unsupported(reason: Unsupported) -> CompileError {
    CompileError::Unsupported(reason)
}

#[test]
fn control_statements_are_rejected() {
    let empty = || block(vec![], None);
    assert_eq!(
        rejected(Statement::If(IfStatement {
            if_part: (integer(1), empty()),
            else_if_parts: vec![],
            else_part: None,
        })),
        unsupported(Unsupported::IfStatement)
    );
    assert_eq!(
        rejected(Statement::While(WhileStatement { condition: integer(1), block: empty() })),
        unsupported(Unsupported::WhileStatement)
    );
    assert_eq!(rejected(Statement::Do(empty())), unsupported(Unsupported::DoStatement));
    assert_eq!(
        rejected(Statement::For(ForStatement::Numeric {
            name: b"i".to_vec(),
            initial: integer(1),
            limit: integer(2),
            step: None,
            body: empty(),
        })),
        unsupported(Unsupported::ForStatement)
    );
    assert_eq!(
        rejected(Statement::For(ForStatement::Generic {
            names: names(1),
            lists: vec![integer(1)],
            body: empty(),
        })),
        unsupported(Unsupported::ForStatement)
    );
    assert_eq!(
        rejected(Statement::Repeat(RepeatStatement { body: empty(), until: integer(1) })),
        unsupported(Unsupported::RepeatStatement)
    );
    assert_eq!(
        rejected(Statement::Label(b"l".to_vec())),
        unsupported(Unsupported::LabelStatement)
    );
    assert_eq!(rejected(Statement::Break), unsupported(Unsupported::BreakStatement));
    assert_eq!(
        rejected(Statement::Goto(b"l".to_vec())),
        unsupported(Unsupported::GotoStatement)
    );
}

#[test]
fn rejected_statement_in_a_nested_function_aborts_the_whole() {
    let f = function(vec![], vec![Statement::Break]);
    assert_eq!(rejected(local_function("f", f)), unsupported(Unsupported::BreakStatement));
}

#[test]
fn function_names_with_fields_or_method_are_rejected() {
    let with_fields = FunctionStatement {
        name: FunctionName {
            name: b"t".to_vec(),
            fields: vec![b"f".to_vec()],
            method: Some(b"m".to_vec()),
        },
        definition: function(vec![], vec![]),
    };
    assert_eq!(
        rejected(Statement::Function(with_fields)),
        unsupported(Unsupported::FunctionNameFields)
    );
    let with_method = || FunctionStatement {
        name: FunctionName { name: b"t".to_vec(), fields: vec![], method: Some(b"m".to_vec()) },
        definition: function(vec![], vec![]),
    };
    assert_eq!(
        rejected(Statement::Function(with_method())),
        unsupported(Unsupported::MethodDefinition)
    );
    assert_eq!(
        rejected(Statement::LocalFunction(with_method())),
        unsupported(Unsupported::MethodDefinition)
    );
}

#[test]
fn varargs_are_rejected() {
    assert_eq!(
        rejected_expression(simple(SimpleExpression::VarArgs)),
        unsupported(Unsupported::VarArgsExpression)
    );
    let mut f = function(vec![], vec![]);
    f.has_varargs = true;
    assert_eq!(rejected(local_function("f", f)), unsupported(Unsupported::VarArgsFunction));
    let mut g = function(vec![], vec![]);
    g.has_varargs = true;
    assert_eq!(
        rejected_expression(simple(SimpleExpression::Function(g))),
        unsupported(Unsupported::VarArgsFunction)
    );
}

#[test]
fn table_constructor_with_fields_is_rejected() {
    let table = TableConstructor { fields: vec![ConstructorField::Array(integer(1))] };
    assert_eq!(
        rejected_expression(simple(SimpleExpression::TableConstructor(table))),
        unsupported(Unsupported::TableFields)
    );
}

#[test]
fn method_calls_are_rejected() {
    let in_expression = simple(SimpleExpression::Suffixed(suffixed(
        "t",
        vec![SuffixPart::Call(CallSuffix::Method(b"m".to_vec(), vec![]))],
    )));
    assert_eq!(rejected_expression(in_expression), unsupported(Unsupported::MethodCall));
    let as_statement = Statement::FunctionCall(FunctionCallStatement {
        head: suffixed("t", vec![]),
        call: CallSuffix::Method(b"m".to_vec(), vec![]),
    });
    let with_local = chunk(vec![local(vec![b"t".to_vec()], vec![]), as_statement], None);
    assert_eq!(compile_chunk(&with_local).unwrap_err(), unsupported(Unsupported::MethodCall));
}

#[test]
fn operators_outside_the_tables_are_rejected() {
    for op in [
        BinaryOperator::Mod,
        BinaryOperator::Pow,
        BinaryOperator::Div,
        BinaryOperator::IDiv,
        BinaryOperator::BitAnd,
        BinaryOperator::BitOr,
        BinaryOperator::BitXor,
        BinaryOperator::ShiftLeft,
        BinaryOperator::ShiftRight,
    ] {
        assert_eq!(
            rejected_expression(binary(integer(1), op, integer(2))),
            unsupported(Unsupported::BinaryOperator)
        );
    }
    assert_eq!(
        rejected_expression(binary(integer(1), BinaryOperator::Concat, integer(2))),
        unsupported(Unsupported::ConcatOperator)
    );
    for op in [UnaryOperator::BitNot, UnaryOperator::Len] {
        let e = Expression { head: Box::new(HeadExpression::UnaryOperator(op, integer(1))), tail: vec![] };
        assert_eq!(rejected_expression(e), unsupported(Unsupported::UnaryOperator));
    }
}

#[test]
fn frame_has_256_registers() {
    let fits = chunk(vec![local(names(256), vec![])], None);
    let proto = compile_chunk(&fits).unwrap();
    assert_eq!(proto.stack_size, 256);
    assert_eq!(
        proto.opcodes,
        vec![
            OpCode::LoadNil { dest: RegisterIndex(0), count: 255 },
            OpCode::LoadNil { dest: RegisterIndex(255), count: 1 },
            OpCode::Return { start: RegisterIndex(0), count: VarCount::make_zero() },
        ]
    );
    let too_many = chunk(vec![local(names(257), vec![])], None);
    assert_eq!(
        compile_chunk(&too_many).unwrap_err(),
        CompileError::Limit(CompilerLimit::Registers)
    );
    let full =
        chunk(vec![local(names(256), vec![])], Some(vec![integer(1)]));
    assert_eq!(compile_chunk(&full).unwrap_err(), CompileError::Limit(CompilerLimit::Registers));
}

#[test]
fn function_has_at_most_255_parameters() {
    let fits = chunk(vec![local_function("f", function(names(255), vec![]))], None);
    let proto = compile_chunk(&fits).unwrap();
    assert_eq!(proto.prototypes[0].fixed_params, 255);
    assert_eq!(proto.prototypes[0].stack_size, 255);
    let too_many = chunk(vec![local_function("f", function(names(256), vec![]))], None);
    assert_eq!(
        compile_chunk(&too_many).unwrap_err(),
        CompileError::Limit(CompilerLimit::FixedParameters)
    );
}

#[test]
fn call_has_at_most_254_arguments() {
    let with_args = |n: usize| {
        chunk(
            vec![
                local_function("f", function(vec![], vec![])),
                local(names(1), vec![call("f", (0..n).map(|_| integer(1)).collect())]),
            ],
            None,
        )
    };
    let proto = compile_chunk(&with_args(254)).unwrap();
    assert!(proto.opcodes.contains(&OpCode::Call {
        func: RegisterIndex(1),
        args: VarCount::make_constant(254).unwrap(),
        returns: VarCount::make_one(),
    }));
    assert_eq!(proto.stack_size, 256);
    assert_eq!(
        compile_chunk(&with_args(255)).unwrap_err(),
        CompileError::Limit(CompilerLimit::Registers)
    );
    assert_eq!(
        compile_chunk(&with_args(256)).unwrap_err(),
        CompileError::Limit(CompilerLimit::FixedParameters)
    );
}

#[test]
fn call_with_255_arguments_cannot_name_their_number() {
    let mut compiler = Compiler::new();
    let args: Vec<ExprDescriptor> =
        (0..255).map(|_| ExprDescriptor::Value(Value::Boolean(true))).collect();
    let func = ExprDescriptor::Value(Value::Boolean(false));
    assert_eq!(
        compiler.expr_function_call(func, args, VarCount::make_zero()).unwrap_err(),
        CompileError::Limit(CompilerLimit::FixedParameters)
    );
}

#[test]
fn at_most_254_results_are_asked_of_a_call() {
    let with_names = |n: usize| {
        chunk(
            vec![
                local_function("f", function(vec![], vec![])),
                local(names(n), vec![call("f", vec![])]),
            ],
            None,
        )
    };
    let proto = compile_chunk(&with_names(254)).unwrap();
    assert!(proto.opcodes.contains(&OpCode::Call {
        func: RegisterIndex(1),
        args: VarCount::make_zero(),
        returns: VarCount::make_constant(254).unwrap(),
    }));
    assert_eq!(
        compile_chunk(&with_names(255)).unwrap_err(),
        CompileError::Limit(CompilerLimit::Returns)
    );
    assert_eq!(
        compile_chunk(&with_names(256)).unwrap_err(),
        CompileError::Limit(CompilerLimit::Registers)
    );
}

#[test]
fn at_most_254_values_are_returned() {
    let returning = |n: usize| chunk(vec![], Some((0..n).map(|_| integer(1)).collect()));
    let proto = compile_chunk(&returning(254)).unwrap();
    assert_eq!(
        proto.opcodes.last(),
        Some(&OpCode::Return {
            start: RegisterIndex(0),
            count: VarCount::make_constant(254).unwrap()
        })
    );
    assert_eq!(proto.stack_size, 254);
    assert_eq!(
        compile_chunk(&returning(255)).unwrap_err(),
        CompileError::Limit(CompilerLimit::Returns)
    );
    assert_eq!(
        compile_chunk(&returning(256)).unwrap_err(),
        CompileError::Limit(CompilerLimit::Returns)
    );
    assert_eq!(
        compile_chunk(&returning(257)).unwrap_err(),
        CompileError::Limit(CompilerLimit::Registers)
    );
}

#[test]
fn constant_table_has_65536_entries() {
    let mut f = CompilerFunction::new();
    f.constants = (0..65535).map(Value::Integer).collect();
    assert_eq!(f.get_constant(Value::Integer(7)), Ok(ConstantIndex16(7)));
    assert_eq!(f.get_constant(Value::Integer(-1)), Ok(ConstantIndex16(65535)));
    assert_eq!(f.constants.len(), 65536);
    assert_eq!(
        f.get_constant(Value::Integer(-2)),
        Err(CompileError::Limit(CompilerLimit::Constants))
    );
    assert_eq!(f.constants.len(), 65536);
    assert_eq!(f.get_constant(Value::Integer(-1)), Ok(ConstantIndex16(65535)));
    assert_eq!(f.get_constant(Value::Integer(65534)), Ok(ConstantIndex16(65534)));
}

#[test]
fn constant_with_index_above_255_is_loaded_into_a_register() {
    let mut compiler = Compiler::new();
    compiler.functions.top.constants = (0..256).map(Value::Integer).collect();
    let mut small = ExprDescriptor::Value(Value::Integer(255));
    assert_eq!(
        compiler.expr_any_register_or_constant(&mut small),
        Ok(lua_codegen::descriptor::RegisterOrConstant::Constant(
            lua_codegen::opcode::ConstantIndex8(255)
        ))
    );
    assert!(compiler.functions.top.opcodes.is_empty());
    let mut large = ExprDescriptor::Value(Value::Integer(256));
    assert_eq!(
        compiler.expr_any_register_or_constant(&mut large),
        Ok(lua_codegen::descriptor::RegisterOrConstant::Register(RegisterIndex(0)))
    );
    assert_eq!(
        compiler.functions.top.opcodes,
        vec![OpCode::LoadConstant { dest: RegisterIndex(0), constant: ConstantIndex16(256) }]
    );
    assert!(matches!(
        large,
        ExprDescriptor::Register { register: RegisterIndex(0), is_temporary: true }
    ));
}

#[test]
fn function_has_at_most_256_upvalues() {
    let mut compiler = Compiler::new();
    compiler.functions.top.register_allocator.allocate();
    compiler.functions.top.locals.push((b"n".to_vec(), RegisterIndex(0)));
    let mut inner = CompilerFunction::new();
    inner.upvalues = (0..255)
        .map(|i| (format!("u{}", i).into_bytes(), UpValueDescriptor::ParentLocal(RegisterIndex(0))))
        .collect();
    compiler.functions.push(inner);
    let found = compiler.find_variable(&b"n".to_vec()).unwrap();
    assert!(matches!(
        found,
        lua_codegen::descriptor::VariableDescriptor::UpValue(lua_codegen::opcode::UpValueIndex(255))
    ));
    assert_eq!(compiler.functions.top.upvalues.len(), 256);
    assert_eq!(
        compiler.find_variable(&b"m".to_vec()).map(|_| ()),
        Ok(())
    );
    compiler.functions.get_mut(0).locals.push((b"m".to_vec(), RegisterIndex(0)));
    assert_eq!(
        compiler.find_variable(&b"m".to_vec()).unwrap_err(),
        CompileError::Limit(CompilerLimit::UpValues)
    );
}

#[test]
fn function_has_at_most_65536_nested_functions() {
    let proto = || FunctionProto {
        fixed_params: 0,
        has_varargs: false,
        stack_size: 0,
        constants: vec![],
        opcodes: vec![],
        upvalues: vec![],
        prototypes: vec![],
    };
    let mut compiler = Compiler::new();
    compiler.functions.top.prototypes = (0..65535).map(|_| proto()).collect();
    let definition = function(vec![], vec![]);
    assert_eq!(
        compiler.new_prototype(&definition),
        Ok(lua_codegen::opcode::PrototypeIndex(65535))
    );
    assert_eq!(compiler.functions.top.prototypes.len(), 65536);
    assert_eq!(
        compiler.new_prototype(&definition),
        Err(CompileError::Limit(CompilerLimit::Functions))
    );
}

#[test]
fn jump_offset_has_sixteen_bits() {
    let code = |n: usize| {
        let mut f = CompilerFunction::new();
        f.opcodes.push(OpCode::Jump { offset: 0 });
        for _ in 0..n {
            f.opcodes.push(OpCode::Jump { offset: 0 });
        }
        f
    };
    let mut fits = code(32767);
    assert_eq!(fits.patch_jump(0), Ok(()));
    assert_eq!(fits.opcodes[0], OpCode::Jump { offset: 32767 });
    assert_eq!(fits.opcodes[1], OpCode::Jump { offset: 0 });
    assert_eq!(fits.patch_jump(32767), Ok(()));
    assert_eq!(fits.opcodes[32767], OpCode::Jump { offset: 0 });
    assert_eq!(fits.patch_jump(32760), Ok(()));
    assert_eq!(fits.opcodes[32760], OpCode::Jump { offset: 7 });
    let mut too_far = code(32768);
    assert_eq!(too_far.patch_jump(0), Err(CompileError::Limit(CompilerLimit::OpCodes)));
    assert_eq!(too_far.opcodes[0], OpCode::Jump { offset: 0 });
    assert_eq!(too_far.patch_jump(1), Ok(()));
}

#[test]
fn right_operand_of_more_than_32767_instructions_is_too_long() {
    let mut sum = name("a");
    for _ in 0..32768 {
        sum.tail.push((BinaryOperator::Add, name("a")));
    }
    let c = chunk(
        vec![
            local(vec![b"a".to_vec()], vec![integer(1)]),
            local(vec![b"b".to_vec()], vec![binary(name("a"), BinaryOperator::And, sum)]),
        ],
        None,
    );
    assert_eq!(compile_chunk(&c).unwrap_err(), CompileError::Limit(CompilerLimit::OpCodes));
}

#[test]
fn push_above_a_free_register_is_a_fault() {
    let indexed = suffixed("t", vec![SuffixPart::Field(FieldSuffix::Indexed(name("x")))]);
    let c = chunk(
        vec![Statement::FunctionCall(FunctionCallStatement {
            head: indexed,
            call: CallSuffix::Function(vec![name("y")]),
        })],
        None,
    );
    assert_eq!(
        compile_chunk(&c).unwrap_err(),
        CompileError::Register(RegisterFault::PushBelowGap)
    );
    let mut f = CompilerFunction::new();
    f.register_allocator.push(2);
    f.register_allocator.free(RegisterIndex(1));
    assert_eq!(f.register_allocator.stack_top, 1);
    assert_eq!(f.new_destination(ExprDestination::PushNew), Ok(Some(RegisterIndex(1))));
    f.register_allocator.allocate();
    f.register_allocator.free(RegisterIndex(1));
    f.register_allocator.free(RegisterIndex(2));
    assert_eq!(f.register_allocator.stack_top, 2);
    assert_eq!(
        f.new_destination(ExprDestination::PushNew),
        Err(CompileError::Register(RegisterFault::PushBelowGap))
    );
}

#[test]
fn leak_is_a_fault() {
    let c = chunk(
        vec![Statement::FunctionCall(FunctionCallStatement {
            head: suffixed("f", vec![]),
            call: CallSuffix::Function(vec![name("x")]),
        })],
        None,
    );
    assert_eq!(compile_chunk(&c).unwrap_err(), CompileError::Register(RegisterFault::Leak));
    let inside = chunk(
        vec![local_function(
            "g",
            function(
                vec![],
                vec![Statement::Assignment(AssignmentStatement {
                    targets: vec![AssignmentTarget::Field(
                        suffixed("t", vec![SuffixPart::Field(FieldSuffix::Named(b"a".to_vec()))]),
                        FieldSuffix::Named(b"b".to_vec()),
                    )],
                    values: vec![integer(1)],
                })],
            ),
        )],
        None,
    );
    assert_eq!(compile_chunk(&inside).unwrap_err(), CompileError::Register(RegisterFault::Leak));
}

#[test]
fn errors_have_messages() {
    assert_eq!(CompilerLimit::Registers.message(), "insufficient available registers");
    assert_eq!(CompilerLimit::UpValues.message(), "too many upvalues");
    assert_eq!(CompilerLimit::Returns.message(), "too many returns");
    assert_eq!(CompilerLimit::FixedParameters.message(), "too many fixed parameters");
    assert_eq!(CompilerLimit::Functions.message(), "too many inner functions");
    assert_eq!(CompilerLimit::Constants.message(), "too many constants");
    assert_eq!(CompilerLimit::OpCodes.message(), "too many opcodes");
    assert_eq!(Unsupported::IfStatement.message(), "if statement unsupported");
    assert_eq!(Unsupported::WhileStatement.message(), "while statement unsupported");
    assert_eq!(Unsupported::DoStatement.message(), "do statement unsupported");
    assert_eq!(Unsupported::ForStatement.message(), "for statement unsupported");
    assert_eq!(Unsupported::RepeatStatement.message(), "repeat statement unsupported");
    assert_eq!(Unsupported::LabelStatement.message(), "label statement unsupported");
    assert_eq!(Unsupported::BreakStatement.message(), "break statement unsupported");
    assert_eq!(Unsupported::GotoStatement.message(), "goto statement unsupported");
    assert_eq!(Unsupported::FunctionNameFields.message(), "no function name fields support");
    assert_eq!(Unsupported::MethodDefinition.message(), "no method support");
    assert_eq!(Unsupported::MethodCall.message(), "method call unsupported");
    assert_eq!(Unsupported::VarArgsExpression.message(), "varargs expression unsupported");
    assert_eq!(Unsupported::VarArgsFunction.message(), "no varargs support");
    assert_eq!(Unsupported::TableFields.message(), "only empty table constructors supported");
    assert_eq!(Unsupported::UnaryOperator.message(), "unsupported unary operator");
    assert_eq!(Unsupported::BinaryOperator.message(), "unsupported binary operator");
    assert_eq!(Unsupported::ConcatOperator.message(), "no support for concat operator");
    assert_eq!(RegisterFault::Leak.message(), "register leak detected");
    assert_eq!(RegisterFault::PushBelowGap.message(), "register pushed above a free register");
    assert_eq!(
        CompileError::Limit(CompilerLimit::Constants).message(),
        "too many constants"
    );
    assert_eq!(
        CompileError::Unsupported(Unsupported::MethodCall).message(),
        "method call unsupported"
    );
    assert_eq!(CompileError::Register(RegisterFault::Leak).message(), "register leak detected");
}
