use lua_codegen::descriptor::{ExprDescriptor, ExprDestination, RegisterOrConstant};
use lua_codegen::error::{CompileError, CompilerLimit};
use lua_codegen::function::UpValueDescriptor;
use lua_codegen::opcode::{
    ConstantIndex16, ConstantIndex8, OpCode, RegisterIndex, UpValueIndex, VarCount,
};
use lua_codegen::state::{Compiler, CompilerFunction};
use lua_codegen::value::Value;

fn r(i: u8) -> RegisterIndex {
    RegisterIndex(i)
}

fn function_with(registers: u8) -> CompilerFunction {
    let mut f = CompilerFunction::new();
    if registers > 0 {
        f.push(registers).unwrap();
    }
    f
}

#[test]
fn destination_that_is_a_register_is_that_register() {
    let mut f = function_with(3);
    assert_eq!(f.new_destination(ExprDestination::Register(r(1))), Ok(Some(r(1))));
    assert_eq!(f.new_destination(ExprDestination::Nowhere), Ok(None));
    assert_eq!(f.register_allocator.stack_top, 3);
    assert_eq!(f.new_destination(ExprDestination::AllocateNew), Ok(Some(r(3))));
    assert_eq!(f.new_destination(ExprDestination::PushNew), Ok(Some(r(4))));
    f.free(r(0));
    assert_eq!(f.new_destination(ExprDestination::AllocateNew), Ok(Some(r(0))));
    assert_eq!(f.new_destination(ExprDestination::PushNew), Ok(Some(r(5))));
    assert_eq!(f.register_allocator.stack_size, 6);
    assert!(f.opcodes.is_empty());
}

#[test]
fn destination_fails_without_a_free_register() {
    let mut f = function_with(255);
    f.push(1).unwrap();
    assert_eq!(
        f.new_destination(ExprDestination::AllocateNew),
        Err(CompileError::Limit(CompilerLimit::Registers))
    );
    assert_eq!(
        f.new_destination(ExprDestination::PushNew),
        Err(CompileError::Limit(CompilerLimit::Registers))
    );
    assert_eq!(f.new_destination(ExprDestination::Register(r(9))), Ok(Some(r(9))));
}

#[test]
fn temporary_register_is_taken_over_for_any_new_register() {
    let mut f = function_with(2);
    assert_eq!(f.discharge_register(r(1), true, ExprDestination::AllocateNew), Ok(Some(r(1))));
    assert!(f.opcodes.is_empty());
    assert!(f.register_allocator.is_allocated(r(1)));
}

#[test]
fn register_of_a_local_is_copied_to_a_new_register() {
    let mut f = function_with(2);
    assert_eq!(f.discharge_register(r(0), false, ExprDestination::AllocateNew), Ok(Some(r(2))));
    assert_eq!(f.opcodes, vec![OpCode::Move { dest: r(2), source: r(0) }]);
    assert!(f.register_allocator.is_allocated(r(0)));
    assert_eq!(f.discharge_register(r(0), false, ExprDestination::PushNew), Ok(Some(r(3))));
    assert_eq!(f.opcodes.len(), 2);
    assert_eq!(f.opcodes[1], OpCode::Move { dest: r(3), source: r(0) });
}

#[test]
fn register_is_moved_unless_in_place() {
    let mut f = function_with(3);
    assert_eq!(
        f.discharge_register(r(2), true, ExprDestination::Register(r(0))),
        Ok(Some(r(0)))
    );
    assert_eq!(f.opcodes, vec![OpCode::Move { dest: r(0), source: r(2) }]);
    assert!(!f.register_allocator.is_allocated(r(2)));
    assert_eq!(f.register_allocator.stack_top, 2);
    assert_eq!(
        f.discharge_register(r(1), false, ExprDestination::Register(r(1))),
        Ok(Some(r(1)))
    );
    assert_eq!(f.opcodes.len(), 1);
}

#[test]
fn temporary_at_the_top_is_pushed_back_in_place() {
    let mut f = function_with(2);
    assert_eq!(f.discharge_register(r(1), true, ExprDestination::PushNew), Ok(Some(r(1))));
    assert!(f.opcodes.is_empty());
    assert!(f.register_allocator.is_allocated(r(1)));
    assert_eq!(f.register_allocator.stack_top, 2);
}

#[test]
fn discharge_to_nowhere_frees_a_temporary_only() {
    let mut f = function_with(2);
    assert_eq!(f.discharge_register(r(1), true, ExprDestination::Nowhere), Ok(None));
    assert!(!f.register_allocator.is_allocated(r(1)));
    assert_eq!(f.discharge_register(r(0), false, ExprDestination::Nowhere), Ok(None));
    assert!(f.register_allocator.is_allocated(r(0)));
    assert!(f.opcodes.is_empty());
}

#[test]
fn upvalue_is_fetched_into_the_destination() {
    let mut f = function_with(1);
    f.upvalues.push((b"u".to_vec(), UpValueDescriptor::Environment));
    assert_eq!(f.discharge_upvalue(UpValueIndex(0), ExprDestination::Nowhere), Ok(None));
    assert!(f.opcodes.is_empty());
    assert_eq!(
        f.discharge_upvalue(UpValueIndex(0), ExprDestination::Register(r(0))),
        Ok(Some(r(0)))
    );
    assert_eq!(
        f.discharge_upvalue(UpValueIndex(0), ExprDestination::AllocateNew),
        Ok(Some(r(1)))
    );
    assert_eq!(
        f.opcodes,
        vec![
            OpCode::GetUpValue { source: UpValueIndex(0), dest: r(0) },
            OpCode::GetUpValue { source: UpValueIndex(0), dest: r(1) },
        ]
    );
}

#[test]
fn values_are_loaded_by_kind() {
    let mut f = function_with(0);
    assert_eq!(f.discharge_value(Value::Integer(9), ExprDestination::Nowhere), Ok(None));
    assert!(f.constants.is_empty());
    assert_eq!(
        f.discharge_value(Value::Boolean(true), ExprDestination::AllocateNew),
        Ok(Some(r(0)))
    );
    assert_eq!(f.discharge_value(Value::Integer(9), ExprDestination::PushNew), Ok(Some(r(1))));
    assert_eq!(
        f.discharge_value(Value::String(b"s".to_vec()), ExprDestination::Register(r(0))),
        Ok(Some(r(0)))
    );
    assert_eq!(f.discharge_value(Value::Integer(9), ExprDestination::Register(r(1))), Ok(Some(r(1))));
    assert_eq!(f.discharge_value(Value::Nil, ExprDestination::Register(r(0))), Ok(Some(r(0))));
    assert_eq!(f.constants, vec![Value::Integer(9), Value::String(b"s".to_vec())]);
    assert_eq!(
        f.opcodes,
        vec![
            OpCode::LoadBool { dest: r(0), value: true, skip_next: false },
            OpCode::LoadConstant { dest: r(1), constant: ConstantIndex16(0) },
            OpCode::LoadConstant { dest: r(0), constant: ConstantIndex16(1) },
            OpCode::LoadConstant { dest: r(1), constant: ConstantIndex16(0) },
            OpCode::LoadNil { dest: r(0), count: 1 },
        ]
    );
}

#[test]
fn consecutive_nils_share_one_instruction() {
    let mut f = function_with(6);
    f.load_nil(r(1));
    f.load_nil(r(2));
    f.load_nil(r(3));
    assert_eq!(f.opcodes, vec![OpCode::LoadNil { dest: r(1), count: 3 }]);
    f.load_nil(r(5));
    f.load_nil(r(4));
    f.load_nil(r(5));
    assert_eq!(
        f.opcodes,
        vec![
            OpCode::LoadNil { dest: r(1), count: 3 },
            OpCode::LoadNil { dest: r(5), count: 1 },
            OpCode::LoadNil { dest: r(4), count: 2 },
        ]
    );
    f.emit(OpCode::NewTable { dest: r(0) });
    f.load_nil(r(0));
    assert_eq!(f.opcodes.len(), 5);
    assert_eq!(f.opcodes[4], OpCode::LoadNil { dest: r(0), count: 1 });
}

#[test]
fn nil_count_stops_at_255() {
    let mut f = function_with(255);
    f.push(1).unwrap();
    for i in 0..=255u8 {
        f.load_nil(r(i));
    }
    assert_eq!(
        f.opcodes,
        vec![OpCode::LoadNil { dest: r(0), count: 255 }, OpCode::LoadNil { dest: r(255), count: 1 }]
    );
}

#[test]
fn any_register_keeps_a_register_and_loads_anything_else() {
    let mut compiler = Compiler::new();
    compiler.functions.top.push(2).unwrap();
    let mut held = ExprDescriptor::Register { register: r(1), is_temporary: false };
    assert_eq!(compiler.expr_any_register(&mut held), Ok(r(1)));
    assert!(matches!(held, ExprDescriptor::Register { register: RegisterIndex(1), is_temporary: false }));
    assert!(compiler.functions.top.opcodes.is_empty());
    let mut value = ExprDescriptor::Value(Value::Boolean(false));
    assert_eq!(compiler.expr_any_register(&mut value), Ok(r(2)));
    assert!(matches!(value, ExprDescriptor::Register { register: RegisterIndex(2), is_temporary: true }));
    assert_eq!(
        compiler.functions.top.opcodes,
        vec![OpCode::LoadBool { dest: r(2), value: false, skip_next: false }]
    );
}

#[test]
fn small_constant_is_named_by_its_index() {
    let mut compiler = Compiler::new();
    let mut value = ExprDescriptor::Value(Value::Integer(4));
    assert_eq!(
        compiler.expr_any_register_or_constant(&mut value),
        Ok(RegisterOrConstant::Constant(ConstantIndex8(0)))
    );
    assert!(matches!(value, ExprDescriptor::Value(Value::Integer(4))));
    assert!(compiler.functions.top.opcodes.is_empty());
    assert_eq!(compiler.functions.top.constants, vec![Value::Integer(4)]);
    let mut nil = ExprDescriptor::Value(Value::Nil);
    assert_eq!(
        compiler.expr_any_register_or_constant(&mut nil),
        Ok(RegisterOrConstant::Constant(ConstantIndex8(1)))
    );
    assert_eq!(compiler.functions.top.constants, vec![Value::Integer(4), Value::Nil]);
    compiler.functions.top.upvalues.push((b"u".to_vec(), UpValueDescriptor::Environment));
    let mut upvalue = ExprDescriptor::UpValue(UpValueIndex(0));
    assert_eq!(
        compiler.expr_any_register_or_constant(&mut upvalue),
        Ok(RegisterOrConstant::Register(r(0)))
    );
    assert_eq!(
        compiler.functions.top.opcodes,
        vec![OpCode::GetUpValue { source: UpValueIndex(0), dest: r(0) }]
    );
}

#[test]
fn call_leaves_its_registers_free() {
    let mut compiler = Compiler::new();
    compiler.functions.top.push(1).unwrap();
    let func = ExprDescriptor::Register { register: r(0), is_temporary: false };
    let args = vec![
        ExprDescriptor::Value(Value::Boolean(true)),
        ExprDescriptor::Value(Value::Nil),
    ];
    assert_eq!(compiler.expr_function_call(func, args, VarCount::make_one()), Ok(r(1)));
    let top = &compiler.functions.top;
    assert_eq!(
        top.opcodes,
        vec![
            OpCode::Move { dest: r(1), source: r(0) },
            OpCode::LoadBool { dest: r(2), value: true, skip_next: false },
            OpCode::LoadNil { dest: r(3), count: 1 },
            OpCode::Call {
                func: r(1),
                args: VarCount::make_constant(2).unwrap(),
                returns: VarCount::make_one(),
            },
        ]
    );
    assert_eq!(top.register_allocator.stack_top, 1);
    assert_eq!(top.register_allocator.stack_size, 4);
    assert!(!top.register_allocator.is_allocated(r(1)));
}

#[test]
fn result_of_a_call_is_claimed_in_place_or_moved() {
    let call = || ExprDescriptor::FunctionCall {
        func: Box::new(ExprDescriptor::Register { register: r(0), is_temporary: false }),
        args: vec![],
    };
    let mut compiler = Compiler::new();
    compiler.functions.top.push(1).unwrap();
    assert_eq!(compiler.expr_discharge(call(), ExprDestination::AllocateNew), Ok(Some(r(1))));
    assert!(compiler.functions.top.register_allocator.is_allocated(r(1)));
    assert_eq!(compiler.expr_discharge(call(), ExprDestination::Nowhere), Ok(None));
    assert_eq!(compiler.functions.top.register_allocator.stack_top, 2);
    assert_eq!(
        compiler.expr_discharge(call(), ExprDestination::Register(r(1))),
        Ok(Some(r(1)))
    );
    assert_eq!(
        compiler.functions.top.opcodes.last(),
        Some(&OpCode::Move { dest: r(1), source: r(2) })
    );
    assert_eq!(compiler.expr_discharge(call(), ExprDestination::PushNew), Ok(Some(r(2))));
    assert_eq!(compiler.functions.top.register_allocator.stack_top, 3);
}

#[test]
fn table_read_picks_the_instruction_by_the_operands() {
    let mut compiler = Compiler::new();
    compiler.functions.top.push(2).unwrap();
    compiler.functions.top.upvalues.push((b"u".to_vec(), UpValueDescriptor::Environment));
    let mut table = ExprDescriptor::UpValue(UpValueIndex(0));
    let mut key = ExprDescriptor::Register { register: r(1), is_temporary: false };
    let result = compiler.get_table(&mut table, &mut key).unwrap();
    assert!(matches!(result, ExprDescriptor::Register { register: RegisterIndex(2), is_temporary: true }));
    assert!(matches!(table, ExprDescriptor::UpValue(UpValueIndex(0))));
    let mut table = ExprDescriptor::UpValue(UpValueIndex(0));
    let mut key = ExprDescriptor::Value(Value::Integer(1));
    compiler.get_table(&mut table, &mut key).unwrap();
    let mut table = ExprDescriptor::Register { register: r(0), is_temporary: false };
    let mut key = ExprDescriptor::Value(Value::Integer(1));
    compiler.get_table(&mut table, &mut key).unwrap();
    let mut table = ExprDescriptor::Value(Value::Integer(1));
    let mut key = ExprDescriptor::Register { register: r(1), is_temporary: false };
    compiler.get_table(&mut table, &mut key).unwrap();
    assert!(matches!(table, ExprDescriptor::Register { register: RegisterIndex(6), is_temporary: true }));
    assert_eq!(
        compiler.functions.top.opcodes,
        vec![
            OpCode::GetUpTableR { dest: r(2), table: UpValueIndex(0), key: r(1) },
            OpCode::GetUpTableC { dest: r(3), table: UpValueIndex(0), key: ConstantIndex8(0) },
            OpCode::GetTableC { dest: r(4), table: r(0), key: ConstantIndex8(0) },
            OpCode::LoadConstant { dest: r(6), constant: ConstantIndex16(0) },
            OpCode::GetTableR { dest: r(5), table: r(6), key: r(1) },
        ]
    );
}

#[test]
fn table_write_through_an_upvalue() {
    let mut compiler = Compiler::new();
    compiler.functions.top.push(2).unwrap();
    compiler.functions.top.upvalues.push((b"u".to_vec(), UpValueDescriptor::Environment));
    let register = |i: u8| ExprDescriptor::Register { register: r(i), is_temporary: false };
    let value = |i: i64| ExprDescriptor::Value(Value::Integer(i));
    let upvalue = || ExprDescriptor::UpValue(UpValueIndex(0));
    compiler.set_table(&mut upvalue(), &mut register(0), &mut register(1)).unwrap();
    compiler.set_table(&mut upvalue(), &mut register(0), &mut value(1)).unwrap();
    compiler.set_table(&mut upvalue(), &mut value(2), &mut register(1)).unwrap();
    compiler.set_table(&mut upvalue(), &mut value(2), &mut value(1)).unwrap();
    assert_eq!(
        compiler.functions.top.opcodes,
        vec![
            OpCode::SetUpTableRR { table: UpValueIndex(0), key: r(0), value: r(1) },
            OpCode::SetUpTableRC { table: UpValueIndex(0), key: r(0), value: ConstantIndex8(0) },
            OpCode::SetUpTableCR { table: UpValueIndex(0), key: ConstantIndex8(1), value: r(1) },
            OpCode::SetUpTableCC {
                table: UpValueIndex(0),
                key: ConstantIndex8(1),
                value: ConstantIndex8(0),
            },
        ]
    );
    assert_eq!(compiler.functions.top.constants, vec![Value::Integer(1), Value::Integer(2)]);
}

#[test]
fn parameters_are_bound_to_the_first_registers() {
    let f = CompilerFunction::with_parameters(&vec![b"x".to_vec(), b"y".to_vec()]).unwrap();
    assert_eq!(f.fixed_params, 2);
    assert_eq!(f.locals, vec![(b"x".to_vec(), r(0)), (b"y".to_vec(), r(1))]);
    assert_eq!(f.register_allocator.stack_top, 2);
    assert_eq!(f.register_allocator.first_free, 2);
    let none = CompilerFunction::with_parameters(&vec![]).unwrap();
    assert_eq!(none.fixed_params, 0);
    assert_eq!(none.register_allocator.stack_top, 0);
    assert!(none.locals.is_empty());
}

#[test]
fn prototype_keeps_the_parts_of_the_function() {
    let mut f = CompilerFunction::with_parameters(&vec![b"x".to_vec()]).unwrap();
    f.upvalues.push((b"a".to_vec(), UpValueDescriptor::ParentLocal(r(3))));
    f.upvalues.push((b"b".to_vec(), UpValueDescriptor::Outer(UpValueIndex(1))));
    f.get_constant(Value::Integer(1)).unwrap();
    f.emit(OpCode::Return { start: r(0), count: VarCount::make_zero() });
    let temporary = f.allocate().unwrap();
    f.free(temporary);
    let proto = f.to_proto();
    assert_eq!(proto.fixed_params, 1);
    assert!(!proto.has_varargs);
    assert_eq!(proto.stack_size, 2);
    assert_eq!(proto.constants, vec![Value::Integer(1)]);
    assert_eq!(proto.opcodes, vec![OpCode::Return { start: r(0), count: VarCount::make_zero() }]);
    assert_eq!(
        proto.upvalues,
        vec![UpValueDescriptor::ParentLocal(r(3)), UpValueDescriptor::Outer(UpValueIndex(1))]
    );
    assert!(proto.prototypes.is_empty());
}
