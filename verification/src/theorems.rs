//! What the description of the code generator gives for some programs.

use vstd::prelude::*;
use crate::ast::{
    AssignmentTarget, Chunk, Expression, FieldSuffix, HeadExpression, PrimaryExpression,
    SimpleExpression, Statement,
};
use crate::descriptor::RegisterOrConstant;
use crate::descriptor::ExprDestination;
use crate::error::CompileError;
use crate::lowering::{
    any_register_or_constant, assigned, primary_expression, released, set_table,
    suffixed_expression, suffixes_from, write_field, any_register, discharge_short_circuit,
    binary_operator, block, block_from, compiled, discharge, emitted, expression, function_body,
    head_expression, local_statement, nils_from, simple_binary_operation, simple_expression,
    statement, tail_from,
};
use crate::model::{
    binding_frame, find_variable, local_in, VariableView, constant_index, empty_frame, next_free,
    with_top, FrameView, Lowered, OperandView,
};
use crate::opcode::{ConstantIndex16, ConstantIndex8, OpCode, RegisterIndex, VarCount};
use crate::operators::{
    binop_category, simple_binop_folded, simple_binop_in_table, BinOpCategory, ShortCircuitBinOp,
    SimpleBinOp,
};
use crate::value::ValueView;
use crate::state::{fuses_nil, nil_stored};

verus! {

/// Whether a statement declares one local without a value.
pub open spec fn declares_nil(statement: Statement) -> bool {
    statement matches Statement::LocalStatement(local) && local.names@.len() == 1
        && local.values@.len() == 0
}

/// Whether the registers below `top` are in use and those from `top`
/// upwards are free, and the frame has had no more than them.
pub open spec fn filled_to(frame: FrameView, top: int) -> bool {
    &&& frame.registers.len() == 256
    &&& frame.first_free == top
    &&& frame.stack_top == top
    &&& frame.stack_size == top
    &&& frame.locals.len() == top
    &&& forall|i: int| 0 <= i < 256 ==> frame.registers[i] == (i < top)
}

/// The declaration of one local without a value, in a frame whose registers
/// are in use up to its top, takes the register at the top and stores nil
/// there.
pub proof fn lemma_nil_declared(fuel: nat, frame: FrameView, declaration: Statement, top: int)
    requires
        declares_nil(declaration),
        filled_to(frame, top),
        0 <= top < 256,
    ensures
        statement(fuel, seq![frame], declaration) matches Lowered::Done(after, _) && after.len() == 1
            && filled_to(after[0], top + 1) && after[0].opcodes == nil_stored(
            frame.opcodes,
            RegisterIndex(top as u8),
        ) && after[0].constants == frame.constants && after[0].upvalues == frame.upvalues
            && after[0].prototypes == frame.prototypes && after[0].fixed_params
            == frame.fixed_params,
{
    let nest = seq![frame];
    let local = declaration->LocalStatement_0;
    reveal_with_fuel(nils_from, 3);
    assert(nest.last() == frame);
    let taken = frame.allocate();
    assert(next_free(taken.registers, top + 1) == top + 1) by {
        reveal_with_fuel(next_free, 2);
    }
    let register = RegisterIndex(top as u8);
    let bound = taken.store_nil(register).bind_local(local.names@[0]@, register);
    assert(local_statement(fuel, nest, local, 0) == nils_from(nest, local.names@, 0));
    assert(nils_from(nest, local.names@, 0) == nils_from(with_top(nest, bound), local.names@, 1));
    assert(with_top(nest, bound) =~= seq![bound]);
}

/// Three locals declared without values, each by its own statement, come
/// to one `LoadNil` of three registers, in a frame of three registers.
pub proof fn lemma_three_nils(fuel: nat, chunk: Chunk)
    requires
        chunk.block.return_statement.is_none(),
        chunk.block.statements@.len() == 3,
        forall|i: int| 0 <= i < 3 ==> declares_nil(#[trigger] chunk.block.statements@[i]),
    ensures
        compiled(fuel, chunk) matches Lowered::Done(_, proto) && proto.opcodes == seq![
            OpCode::LoadNil { dest: RegisterIndex(0), count: 3 },
            OpCode::Return { start: RegisterIndex(0), count: VarCount(1) },
        ] && proto.stack_size == 3 && proto.constants.len() == 0 && proto.upvalues.len() == 0
            && proto.prototypes.len() == 0 && proto.fixed_params == 0,
{
    let statements = chunk.block.statements@;
    let start = empty_frame();
    assert(filled_to(start, 0));
    lemma_nil_declared(fuel, start, statements[0], 0);
    let first = statement(fuel, seq![start], statements[0])->Done_0;
    assert(first =~= seq![first[0]]);
    lemma_nil_declared(fuel, first[0], statements[1], 1);
    let second = statement(fuel, first, statements[1])->Done_0;
    assert(second =~= seq![second[0]]);
    lemma_nil_declared(fuel, second[0], statements[2], 2);
    let third = statement(fuel, second, statements[2])->Done_0;
    assert(third =~= seq![third[0]]);
    reveal_with_fuel(block_from, 5);
    let one = seq![OpCode::LoadNil { dest: RegisterIndex(0), count: 1 }];
    assert(!fuses_nil(start.opcodes, RegisterIndex(0)));
    assert(first[0].opcodes =~= one);
    assert(fuses_nil(first[0].opcodes, RegisterIndex(1)));
    let two = seq![OpCode::LoadNil { dest: RegisterIndex(0), count: 2 }];
    assert(second[0].opcodes =~= two);
    assert(fuses_nil(second[0].opcodes, RegisterIndex(2)));
    let three = seq![OpCode::LoadNil { dest: RegisterIndex(0), count: 3 }];
    assert(third[0].opcodes =~= three);
    let done = emitted(third, OpCode::Return { start: RegisterIndex(0), count: VarCount(1) });
    assert(block(fuel, seq![start], chunk.block) == Lowered::Done(done, ()));
    assert(done.last().opcodes =~= seq![
        OpCode::LoadNil { dest: RegisterIndex(0), count: 3 },
        OpCode::Return { start: RegisterIndex(0), count: VarCount(1) },
    ]);
    assert(function_body(fuel, seq![start], chunk.block) == Lowered::Done(done, ()));
    assert(done.last().to_proto().upvalues =~= Seq::empty());
}

/// Whether an expression is the integer literal `value` and nothing else.
pub open spec fn is_integer(expression: Expression, value: i64) -> bool {
    expression.tail@.len() == 0 && *expression.head == HeadExpression::Simple(
        SimpleExpression::Integer(value),
    )
}

/// Whether a chunk declares one local with the value of a simple binary
/// operator of the table on two integer literals, and does nothing else.
pub open spec fn declares_sum(chunk: Chunk, op: SimpleBinOp, a: i64, b: i64) -> bool {
    &&& chunk.block.return_statement.is_none()
    &&& chunk.block.statements@.len() == 1
    &&& chunk.block.statements@[0] matches Statement::LocalStatement(local)
    &&& local.names@.len() == 1
    &&& local.values@.len() == 1
    &&& *local.values@[0].head == HeadExpression::Simple(SimpleExpression::Integer(a))
    &&& local.values@[0].tail@.len() == 1
    &&& binop_category(local.values@[0].tail@[0].0) == BinOpCategory::Simple(op)
    &&& simple_binop_in_table(op)
    &&& is_integer(local.values@[0].tail@[0].1, b)
}

/// An integer literal is a value that is known: nothing is emitted for it.
pub proof fn lemma_integer_known(fuel: nat, nest: Seq<FrameView>, literal: Expression, value: i64)
    requires
        is_integer(literal, value),
    ensures
        expression(fuel, nest, literal) == Lowered::Done(
            nest,
            OperandView::Value(ValueView::Integer(value)),
        ),
{
    let known = OperandView::Value(ValueView::Integer(value));
    assert(simple_expression(fuel, nest, SimpleExpression::Integer(value)) == Lowered::Done(
        nest,
        known,
    ));
    assert(head_expression(fuel, nest, *literal.head) == Lowered::Done(nest, known));
    assert(tail_from(fuel, nest, known, literal.tail@, 0) == Lowered::Done(nest, known));
}

/// An operator of the table on two integer literals is computed when it is
/// compiled: nothing is emitted for it.
pub proof fn lemma_sum_computed(
    fuel: nat,
    nest: Seq<FrameView>,
    sum: Expression,
    op: SimpleBinOp,
    a: i64,
    b: i64,
)
    requires
        fuel >= 1,
        *sum.head == HeadExpression::Simple(SimpleExpression::Integer(a)),
        sum.tail@.len() == 1,
        binop_category(sum.tail@[0].0) == BinOpCategory::Simple(op),
        simple_binop_in_table(op),
        is_integer(sum.tail@[0].1, b),
    ensures
        expression(fuel, nest, sum) == Lowered::Done(
            nest,
            OperandView::Value(
                simple_binop_folded(op, ValueView::Integer(a), ValueView::Integer(b)).unwrap(),
            ),
        ),
{
    let right = sum.tail@[0].1;
    let below = (fuel - 1) as nat;
    let left = OperandView::Value(ValueView::Integer(a));
    let folded = OperandView::Value(
        simple_binop_folded(op, ValueView::Integer(a), ValueView::Integer(b)).unwrap(),
    );
    lemma_integer_known(below, nest, right, b);
    assert(simple_expression(fuel, nest, SimpleExpression::Integer(a)) == Lowered::Done(
        nest,
        left,
    ));
    assert(head_expression(fuel, nest, *sum.head) == Lowered::Done(nest, left));
    assert(simple_binary_operation(
        fuel,
        nest,
        op,
        left,
        OperandView::Value(ValueView::Integer(b)),
    ) == Lowered::Done(nest, folded));
    assert(binary_operator(fuel, nest, left, sum.tail@[0].0, right) == Lowered::Done(
        nest,
        folded,
    ));
    assert(tail_from(fuel, nest, folded, sum.tail@, 1) == Lowered::Done(nest, folded));
    assert(tail_from(fuel, nest, left, sum.tail@, 0) == Lowered::Done(nest, folded));
}

/// A local declared with a value that is known gets the lowest free
/// register, and the value is loaded there from the constant table.
pub proof fn lemma_constant_declared(fuel: nat, chunk: Chunk, value: ValueView)
    requires
        chunk.block.return_statement.is_none(),
        chunk.block.statements@.len() == 1,
        chunk.block.statements@[0] matches Statement::LocalStatement(local) && local.names@.len()
            == 1 && local.values@.len() == 1 && expression(
            fuel,
            seq![empty_frame()],
            local.values@[0],
        ) == Lowered::Done(seq![empty_frame()], OperandView::Value(value)),
        value is Integer,
    ensures
        compiled(fuel, chunk) matches Lowered::Done(_, proto) && proto.constants == seq![value]
            && proto.opcodes == seq![
            OpCode::LoadConstant { dest: RegisterIndex(0), constant: ConstantIndex16(0) },
            OpCode::Return { start: RegisterIndex(0), count: VarCount(1) },
        ] && proto.stack_size == 1 && proto.upvalues.len() == 0 && proto.prototypes.len() == 0
            && proto.fixed_params == 0,
{
    let start = empty_frame();
    let nest = seq![start];
    let local = chunk.block.statements@[0]->LocalStatement_0;
    reveal_with_fuel(local_statement, 3);
    reveal_with_fuel(block_from, 3);
    reveal_with_fuel(nils_from, 2);
    assert(nest.last() == start);
    let taken = start.allocate();
    assert(next_free(taken.registers, 1) == 1) by {
        reveal_with_fuel(next_free, 2);
    }
    assert(constant_index(start.constants, value, 0) == 0);
    let loaded = taken.intern(value).emit(
        OpCode::LoadConstant { dest: RegisterIndex(0), constant: ConstantIndex16(0) },
    );
    assert(start.discharge_value(value, ExprDestination::AllocateNew) == Ok::<_, CompileError>(
        (loaded, Some(RegisterIndex(0))),
    ));
    let placed = with_top(nest, loaded);
    assert(discharge(fuel, nest, OperandView::Value(value), ExprDestination::AllocateNew)
        == Lowered::Done(placed, Some(RegisterIndex(0))));
    let bound = loaded.bind_local(local.names@[0]@, RegisterIndex(0));
    let declared = with_top(placed, bound);
    assert(local_statement(fuel, nest, local, 0) == Lowered::Done(declared, ()));
    assert(statement(fuel, nest, chunk.block.statements@[0]) == Lowered::Done(declared, ()));
    let done = emitted(declared, OpCode::Return { start: RegisterIndex(0), count: VarCount(1) });
    assert(block(fuel, nest, chunk.block) == Lowered::Done(done, ()));
    assert(done.last().opcodes =~= seq![
        OpCode::LoadConstant { dest: RegisterIndex(0), constant: ConstantIndex16(0) },
        OpCode::Return { start: RegisterIndex(0), count: VarCount(1) },
    ]);
    assert(done.last().constants =~= seq![value]);
    assert(function_body(fuel, nest, chunk.block) == Lowered::Done(done, ()));
    assert(done.last().to_proto().upvalues =~= Seq::empty());
}

/// A local declared with the value of an operator on two integer literals
/// gets the value that the operator has on them: it is the one constant of
/// the prototype, and no instruction of the operator is emitted.
pub proof fn lemma_folded_sum(fuel: nat, chunk: Chunk, op: SimpleBinOp, a: i64, b: i64)
    requires
        fuel >= 1,
        declares_sum(chunk, op, a, b),
    ensures
        compiled(fuel, chunk) matches Lowered::Done(_, proto) && proto.constants == seq![
            simple_binop_folded(op, ValueView::Integer(a), ValueView::Integer(b)).unwrap(),
        ] && proto.opcodes == seq![
            OpCode::LoadConstant { dest: RegisterIndex(0), constant: ConstantIndex16(0) },
            OpCode::Return { start: RegisterIndex(0), count: VarCount(1) },
        ] && proto.stack_size == 1 && proto.upvalues.len() == 0 && proto.prototypes.len() == 0
            && proto.fixed_params == 0,
{
    let local = chunk.block.statements@[0]->LocalStatement_0;
    lemma_sum_computed(fuel, seq![empty_frame()], local.values@[0], op, a, b);
    lemma_constant_declared(
        fuel,
        chunk,
        simple_binop_folded(op, ValueView::Integer(a), ValueView::Integer(b)).unwrap(),
    );
}

/// `and` or `or` of two different integer literals, evaluated into a new
/// register of an empty frame: the left operand is loaded and tested where
/// it is, the jump after the test leads past the load of the right
/// operand, and both are constants.
pub proof fn lemma_short_circuit_loaded(
    fuel: nat,
    op: ShortCircuitBinOp,
    a: i64,
    right: Expression,
    b: i64,
)
    requires
        fuel >= 1,
        is_integer(right, b),
        a != b,
    ensures
        discharge(
            fuel,
            seq![empty_frame()],
            OperandView::ShortCircuit {
                left: Box::new(OperandView::Value(ValueView::Integer(a))),
                op,
                right,
            },
            ExprDestination::AllocateNew,
        ) matches Lowered::Done(after, placed) && placed == Some(RegisterIndex(0)) && after.len()
            == 1 && after[0].opcodes == seq![
            OpCode::LoadConstant { dest: RegisterIndex(0), constant: ConstantIndex16(0) },
            OpCode::Test { value: RegisterIndex(0), is_true: op == ShortCircuitBinOp::And },
            OpCode::Jump { offset: 1 },
            OpCode::LoadConstant { dest: RegisterIndex(0), constant: ConstantIndex16(1) },
        ] && after[0].constants == seq![ValueView::Integer(a), ValueView::Integer(b)]
            && after[0].stack_size == 1 && after[0].stack_top == 1 && after[0].locals.len() == 0
            && after[0].upvalues.len() == 0 && after[0].prototypes.len() == 0,
{
    let start = empty_frame();
    let nest = seq![start];
    let below = (fuel - 1) as nat;
    let left = OperandView::Value(ValueView::Integer(a));
    let first = OpCode::LoadConstant { dest: RegisterIndex(0), constant: ConstantIndex16(0) };
    let test = OpCode::Test { value: RegisterIndex(0), is_true: op == ShortCircuitBinOp::And };
    let second = OpCode::LoadConstant { dest: RegisterIndex(0), constant: ConstantIndex16(1) };
    assert(nest.last() == start);
    let taken = start.allocate();
    assert(next_free(taken.registers, 1) == 1) by {
        reveal_with_fuel(next_free, 2);
    }
    assert(constant_index(start.constants, ValueView::Integer(a), 0) == 0);
    let loaded = taken.intern(ValueView::Integer(a)).emit(first);
    assert(start.discharge_value(ValueView::Integer(a), ExprDestination::AllocateNew) == Ok::<
        _,
        CompileError,
    >((loaded, Some(RegisterIndex(0)))));
    let held = with_top(nest, loaded);
    assert(held =~= seq![loaded]);
    let register = OperandView::Register { register: RegisterIndex(0), is_temporary: true };
    assert(any_register(below, nest, left) == Lowered::Done(held, (register, RegisterIndex(0))));
    let freed = loaded.free(RegisterIndex(0));
    assert(loaded.discharge_register(RegisterIndex(0), true, ExprDestination::Nowhere) == Ok::<
        _,
        CompileError,
    >((freed, None::<RegisterIndex>)));
    let released = with_top(held, freed);
    assert(released =~= seq![freed]);
    assert(discharge(below, held, register, ExprDestination::Nowhere) == Lowered::Done(
        released,
        None::<RegisterIndex>,
    ));
    let again = freed.allocate();
    assert(next_free(again.registers, 1) == 1) by {
        reveal_with_fuel(next_free, 2);
    }
    assert(freed.new_destination(ExprDestination::AllocateNew) == Ok::<_, CompileError>(
        (again, Some(RegisterIndex(0))),
    ));
    let tested = emitted(emitted(with_top(released, again), test), OpCode::Jump { offset: 0 });
    assert(tested =~= seq![again.emit(test).emit(OpCode::Jump { offset: 0 })]);
    lemma_integer_known(below, tested, right, b);
    let jumped = tested[0];
    assert(jumped.constants =~= seq![ValueView::Integer(a)]);
    assert(constant_index(jumped.constants, ValueView::Integer(b), 0) == 1) by {
        reveal_with_fuel(constant_index, 3);
    }
    let filled = jumped.intern(ValueView::Integer(b)).emit(second);
    assert(jumped.discharge_value(
        ValueView::Integer(b),
        ExprDestination::Register(RegisterIndex(0)),
    ) == Ok::<_, CompileError>((filled, Some(RegisterIndex(0)))));
    let placed = with_top(tested, filled);
    assert(placed =~= seq![filled]);
    assert(discharge(
        below,
        tested,
        OperandView::Value(ValueView::Integer(b)),
        ExprDestination::Register(RegisterIndex(0)),
    ) == Lowered::Done(placed, Some(RegisterIndex(0))));
    assert(filled.opcodes =~= seq![first, test, OpCode::Jump { offset: 0 }, second]);
    let patched = filled.patch_jump(2)->Ok_0.0;
    assert(patched.opcodes =~= seq![first, test, OpCode::Jump { offset: 1 }, second]);
    assert(with_top(placed, patched) =~= seq![patched]);
    assert(patched.constants =~= seq![ValueView::Integer(a), ValueView::Integer(b)]);
    assert(discharge_short_circuit(
        fuel,
        nest,
        left,
        op,
        right,
        ExprDestination::AllocateNew,
    ) == Lowered::Done(seq![patched], Some(RegisterIndex(0))));
}

/// Whether a chunk declares one local with the value of `and` or `or` on
/// two integer literals, and does nothing else.
pub open spec fn declares_choice(chunk: Chunk, op: ShortCircuitBinOp, a: i64, b: i64) -> bool {
    &&& chunk.block.return_statement.is_none()
    &&& chunk.block.statements@.len() == 1
    &&& chunk.block.statements@[0] matches Statement::LocalStatement(local)
    &&& local.names@.len() == 1
    &&& local.values@.len() == 1
    &&& *local.values@[0].head == HeadExpression::Simple(SimpleExpression::Integer(a))
    &&& local.values@[0].tail@.len() == 1
    &&& binop_category(local.values@[0].tail@[0].0) == BinOpCategory::ShortCircuit(op)
    &&& is_integer(local.values@[0].tail@[0].1, b)
}

/// A chunk that declares one local with one value and does nothing else:
/// where the value comes to `operand` without a change of the frame, and
/// `operand`, which is no call, placed in a new register of the empty frame
/// gives `frame`, the prototype has the code of `frame` and a `Return`
/// after it.
pub proof fn lemma_one_declared(fuel: nat, chunk: Chunk, operand: OperandView, frame: FrameView)
    requires
        chunk.block.return_statement.is_none(),
        chunk.block.statements@.len() == 1,
        chunk.block.statements@[0] matches Statement::LocalStatement(local) && local.names@.len()
            == 1 && local.values@.len() == 1 && expression(
            fuel,
            seq![empty_frame()],
            local.values@[0],
        ) == Lowered::Done(seq![empty_frame()], operand),
        discharge(fuel, seq![empty_frame()], operand, ExprDestination::AllocateNew)
            == Lowered::Done(seq![frame], Some(RegisterIndex(0))),
        !(operand is FunctionCall),
        frame.stack_top == 1,
        frame.locals.len() == 0,
        frame.upvalues.len() == 0,
    ensures
        compiled(fuel, chunk) matches Lowered::Done(_, proto) && proto.constants
            == frame.constants && proto.opcodes == frame.opcodes.push(
            OpCode::Return { start: RegisterIndex(0), count: VarCount(1) },
        ) && proto.stack_size == frame.stack_size && proto.upvalues.len() == 0
            && proto.prototypes == frame.prototypes,
{
    let nest = seq![empty_frame()];
    let local = chunk.block.statements@[0]->LocalStatement_0;
    reveal_with_fuel(local_statement, 3);
    reveal_with_fuel(block_from, 3);
    reveal_with_fuel(nils_from, 2);
    let placed = seq![frame];
    let bound = frame.bind_local(local.names@[0]@, RegisterIndex(0));
    let declared = with_top(placed, bound);
    assert(local_statement(fuel, nest, local, 0) == Lowered::Done(declared, ()));
    assert(statement(fuel, nest, chunk.block.statements@[0]) == Lowered::Done(declared, ()));
    let done = emitted(declared, OpCode::Return { start: RegisterIndex(0), count: VarCount(1) });
    assert(block(fuel, nest, chunk.block) == Lowered::Done(done, ()));
    assert(function_body(fuel, nest, chunk.block) == Lowered::Done(done, ()));
    assert(done.last().to_proto().upvalues =~= Seq::empty());
}

/// `and` or `or` on two integer literals is put off when it is compiled.
pub proof fn lemma_choice_deferred(
    fuel: nat,
    nest: Seq<FrameView>,
    choice: Expression,
    op: ShortCircuitBinOp,
    a: i64,
)
    requires
        *choice.head == HeadExpression::Simple(SimpleExpression::Integer(a)),
        choice.tail@.len() == 1,
        binop_category(choice.tail@[0].0) == BinOpCategory::ShortCircuit(op),
    ensures
        expression(fuel, nest, choice) == Lowered::Done(
            nest,
            OperandView::ShortCircuit {
                left: Box::new(OperandView::Value(ValueView::Integer(a))),
                op,
                right: choice.tail@[0].1,
            },
        ),
{
    let left = OperandView::Value(ValueView::Integer(a));
    let deferred = OperandView::ShortCircuit { left: Box::new(left), op, right: choice.tail@[0].1 };
    assert(simple_expression(fuel, nest, SimpleExpression::Integer(a)) == Lowered::Done(
        nest,
        left,
    ));
    assert(head_expression(fuel, nest, *choice.head) == Lowered::Done(nest, left));
    assert(binary_operator(fuel, nest, left, choice.tail@[0].0, choice.tail@[0].1)
        == Lowered::Done(nest, deferred));
    assert(tail_from(fuel, nest, deferred, choice.tail@, 1) == Lowered::Done(nest, deferred));
    assert(tail_from(fuel, nest, left, choice.tail@, 0) == Lowered::Done(nest, deferred));
}

/// A local declared with the value of `and` or `or` on two different
/// integer literals: the left one is loaded into the register of the local
/// and tested there, and the jump after the test leads past the load of the
/// right one.
pub proof fn lemma_choice_declared(fuel: nat, chunk: Chunk, op: ShortCircuitBinOp, a: i64, b: i64)
    requires
        fuel >= 1,
        declares_choice(chunk, op, a, b),
        a != b,
    ensures
        compiled(fuel, chunk) matches Lowered::Done(_, proto) && proto.constants == seq![
            ValueView::Integer(a),
            ValueView::Integer(b),
        ] && proto.opcodes == seq![
            OpCode::LoadConstant { dest: RegisterIndex(0), constant: ConstantIndex16(0) },
            OpCode::Test { value: RegisterIndex(0), is_true: op == ShortCircuitBinOp::And },
            OpCode::Jump { offset: 1 },
            OpCode::LoadConstant { dest: RegisterIndex(0), constant: ConstantIndex16(1) },
            OpCode::Return { start: RegisterIndex(0), count: VarCount(1) },
        ] && proto.stack_size == 1 && proto.upvalues.len() == 0 && proto.prototypes.len() == 0,
{
    let nest = seq![empty_frame()];
    let local = chunk.block.statements@[0]->LocalStatement_0;
    let choice = local.values@[0];
    let right = choice.tail@[0].1;
    let deferred = OperandView::ShortCircuit {
        left: Box::new(OperandView::Value(ValueView::Integer(a))),
        op,
        right,
    };
    lemma_choice_deferred(fuel, nest, choice, op, a);
    lemma_short_circuit_loaded(fuel, op, a, right, b);
    let placed = discharge(fuel, nest, deferred, ExprDestination::AllocateNew)->Done_0;
    assert(placed =~= seq![placed[0]]);
    lemma_one_declared(fuel, chunk, deferred, placed[0]);
    assert(placed[0].opcodes.push(
        OpCode::Return { start: RegisterIndex(0), count: VarCount(1) },
    ) =~= seq![
        OpCode::LoadConstant { dest: RegisterIndex(0), constant: ConstantIndex16(0) },
        OpCode::Test { value: RegisterIndex(0), is_true: op == ShortCircuitBinOp::And },
        OpCode::Jump { offset: 1 },
        OpCode::LoadConstant { dest: RegisterIndex(0), constant: ConstantIndex16(1) },
        OpCode::Return { start: RegisterIndex(0), count: VarCount(1) },
    ]);
}

/// Whether a statement declares one local with the value of the integer
/// literal `value`.
pub open spec fn declares_integer(statement: Statement, value: i64) -> bool {
    statement matches Statement::LocalStatement(local) && local.names@.len() == 1
        && local.values@.len() == 1 && is_integer(local.values@[0], value)
}

/// The declaration of one local with the value of an integer literal, in a
/// frame whose registers are in use up to its top, takes the register at
/// the top and loads the literal there from the constant table, where the
/// literal is entered if it is not there yet.
pub proof fn lemma_integer_declared(
    fuel: nat,
    frame: FrameView,
    declaration: Statement,
    top: int,
    value: i64,
)
    requires
        declares_integer(declaration, value),
        filled_to(frame, top),
        0 <= top < 256,
        frame.constants.len() < 65536,
    ensures
        statement(fuel, seq![frame], declaration) matches Lowered::Done(after, _) && after.len() == 1
            && filled_to(after[0], top + 1) && after[0].opcodes == frame.opcodes.push(
            OpCode::LoadConstant {
                dest: RegisterIndex(top as u8),
                constant: ConstantIndex16(frame.index_of(ValueView::Integer(value)) as u16),
            },
        ) && after[0].constants == frame.intern(ValueView::Integer(value)).constants
            && after[0].upvalues == frame.upvalues && after[0].prototypes == frame.prototypes
            && after[0].fixed_params == frame.fixed_params,
{
    let nest = seq![frame];
    let local = declaration->LocalStatement_0;
    let known = ValueView::Integer(value);
    reveal_with_fuel(local_statement, 3);
    reveal_with_fuel(nils_from, 2);
    lemma_integer_known(fuel, nest, local.values@[0], value);
    assert(nest.last() == frame);
    let taken = frame.allocate();
    assert(next_free(taken.registers, top + 1) == top + 1) by {
        reveal_with_fuel(next_free, 2);
    }
    let register = RegisterIndex(top as u8);
    let loaded = taken.intern(known).emit(
        OpCode::LoadConstant {
            dest: register,
            constant: ConstantIndex16(frame.index_of(known) as u16),
        },
    );
    assert(frame.discharge_value(known, ExprDestination::AllocateNew) == Ok::<_, CompileError>(
        (loaded, Some(register)),
    ));
    let placed = with_top(nest, loaded);
    assert(discharge(fuel, nest, OperandView::Value(known), ExprDestination::AllocateNew)
        == Lowered::Done(placed, Some(register)));
    let bound = loaded.bind_local(local.names@[0]@, register);
    assert(with_top(placed, bound) =~= seq![bound]);
    assert(local_statement(fuel, nest, local, 0) == Lowered::Done(with_top(placed, bound), ()));
}

/// Two locals declared with the same integer literal share one constant:
/// the constant table holds the literal once, and both loads name it.
pub proof fn lemma_literal_shared(fuel: nat, chunk: Chunk, value: i64)
    requires
        chunk.block.return_statement.is_none(),
        chunk.block.statements@.len() == 2,
        declares_integer(chunk.block.statements@[0], value),
        declares_integer(chunk.block.statements@[1], value),
    ensures
        compiled(fuel, chunk) matches Lowered::Done(_, proto) && proto.constants == seq![
            ValueView::Integer(value),
        ] && proto.opcodes == seq![
            OpCode::LoadConstant { dest: RegisterIndex(0), constant: ConstantIndex16(0) },
            OpCode::LoadConstant { dest: RegisterIndex(1), constant: ConstantIndex16(0) },
            OpCode::Return { start: RegisterIndex(0), count: VarCount(1) },
        ] && proto.stack_size == 2 && proto.upvalues.len() == 0 && proto.prototypes.len() == 0,
{
    let statements = chunk.block.statements@;
    let known = ValueView::Integer(value);
    let start = empty_frame();
    assert(filled_to(start, 0));
    lemma_integer_declared(fuel, start, statements[0], 0, value);
    let first = statement(fuel, seq![start], statements[0])->Done_0;
    assert(first =~= seq![first[0]]);
    assert(constant_index(start.constants, known, 0) == 0);
    assert(first[0].constants =~= seq![known]);
    lemma_integer_declared(fuel, first[0], statements[1], 1, value);
    let second = statement(fuel, first, statements[1])->Done_0;
    assert(second =~= seq![second[0]]);
    assert(constant_index(first[0].constants, known, 0) == 0);
    reveal_with_fuel(block_from, 4);
    let done = emitted(second, OpCode::Return { start: RegisterIndex(0), count: VarCount(1) });
    assert(block(fuel, seq![start], chunk.block) == Lowered::Done(done, ()));
    assert(done.last().opcodes =~= seq![
        OpCode::LoadConstant { dest: RegisterIndex(0), constant: ConstantIndex16(0) },
        OpCode::LoadConstant { dest: RegisterIndex(1), constant: ConstantIndex16(0) },
        OpCode::Return { start: RegisterIndex(0), count: VarCount(1) },
    ]);
    assert(function_body(fuel, seq![start], chunk.block) == Lowered::Done(done, ()));
    assert(done.last().to_proto().upvalues =~= Seq::empty());
}

/// Whether a statement declares one local with the value of an empty
/// table constructor.
pub open spec fn declares_table(statement: Statement) -> bool {
    &&& statement matches Statement::LocalStatement(local)
    &&& local.names@.len() == 1
    &&& local.values@.len() == 1
    &&& local.values@[0].tail@.len() == 0
    &&& *local.values@[0].head matches HeadExpression::Simple(
        SimpleExpression::TableConstructor(constructor),
    )
    &&& constructor.fields@.len() == 0
}

/// Whether a statement assigns the integer literal `value` to the field
/// named `key` of the variable named `table`.
pub open spec fn assigns_field(statement: Statement, table: Seq<u8>, key: Seq<u8>, value: i64) -> bool {
    &&& statement matches Statement::Assignment(assignment)
    &&& assignment.targets@.len() == 1
    &&& assignment.values@.len() == 1
    &&& is_integer(assignment.values@[0], value)
    &&& assignment.targets@[0] matches AssignmentTarget::Field(target, FieldSuffix::Named(name))
    &&& name@ == key
    &&& target.suffixes@.len() == 0
    &&& target.primary matches PrimaryExpression::Name(variable)
    &&& variable@ == table
}

/// A local declared with an empty table in an empty frame: the table is
/// made in register 0, which becomes the local.
pub proof fn lemma_table_declared(fuel: nat, declaration: Statement)
    requires
        declares_table(declaration),
    ensures
        statement(fuel, seq![empty_frame()], declaration) matches Lowered::Done(after, _)
            && after.len() == 1 && filled_to(after[0], 1) && after[0].opcodes == seq![
            OpCode::NewTable { dest: RegisterIndex(0) },
        ] && after[0].constants.len() == 0 && after[0].upvalues.len() == 0
            && after[0].prototypes.len() == 0 && after[0].fixed_params == 0 && after[0].locals
            == seq![(declaration->LocalStatement_0.names@[0]@, RegisterIndex(0))],
{
    let start = empty_frame();
    let nest = seq![start];
    let local = declaration->LocalStatement_0;
    let made = local.values@[0];
    reveal_with_fuel(local_statement, 3);
    reveal_with_fuel(nils_from, 2);
    assert(nest.last() == start);
    let taken = start.allocate();
    assert(next_free(taken.registers, 1) == 1) by {
        reveal_with_fuel(next_free, 2);
    }
    let built = emitted(with_top(nest, taken), OpCode::NewTable { dest: RegisterIndex(0) });
    let table = OperandView::Register { register: RegisterIndex(0), is_temporary: true };
    assert(built =~= seq![taken.emit(OpCode::NewTable { dest: RegisterIndex(0) })]);
    assert(simple_expression(fuel, nest, (*made.head)->Simple_0) == Lowered::Done(built, table));
    assert(head_expression(fuel, nest, *made.head) == Lowered::Done(built, table));
    assert(tail_from(fuel, built, table, made.tail@, 0) == Lowered::Done(built, table));
    assert(expression(fuel, nest, made) == Lowered::Done(built, table));
    assert(built[0].discharge_register(RegisterIndex(0), true, ExprDestination::AllocateNew)
        == Ok::<_, CompileError>((built[0], Some(RegisterIndex(0)))));
    assert(with_top(built, built[0]) =~= built);
    assert(discharge(fuel, built, table, ExprDestination::AllocateNew) == Lowered::Done(
        built,
        Some(RegisterIndex(0)),
    ));
    let bound = built[0].bind_local(local.names@[0]@, RegisterIndex(0));
    assert(with_top(built, bound) =~= seq![bound]);
    assert(bound.locals =~= seq![(local.names@[0]@, RegisterIndex(0))]);
    assert(bound.opcodes =~= seq![OpCode::NewTable { dest: RegisterIndex(0) }]);
    assert(local_statement(fuel, nest, local, 0) == Lowered::Done(seq![bound], ()));
}

/// A field of a local table assigned an integer literal, where the
/// constant table is empty: the name of the field and the literal become
/// its two constants, and one instruction writes the one under the other.
pub proof fn lemma_field_assigned(
    fuel: nat,
    frame: FrameView,
    assigning: Statement,
    table: Seq<u8>,
    key: Seq<u8>,
    value: i64,
)
    requires
        assigns_field(assigning, table, key, value),
        frame.locals == seq![(table, RegisterIndex(0))],
        frame.constants.len() == 0,
        frame.upvalues.len() == 0,
    ensures
        statement(fuel, seq![frame], assigning) == Lowered::Done(
            seq![
                FrameView {
                    constants: seq![ValueView::String(key), ValueView::Integer(value)],
                    opcodes: frame.opcodes.push(
                        OpCode::SetTableCC {
                            table: RegisterIndex(0),
                            key: ConstantIndex8(0),
                            value: ConstantIndex8(1),
                        },
                    ),
                    ..frame
                },
            ],
            (),
        ),
{
    let nest = seq![frame];
    let assignment = assigning->Assignment_0;
    let target = assignment.targets@[0];
    let local = OperandView::Register { register: RegisterIndex(0), is_temporary: false };
    let name = OperandView::Value(ValueView::String(key));
    let literal = OperandView::Value(ValueView::Integer(value));
    reveal_with_fuel(crate::lowering::assignment, 3);
    reveal_with_fuel(suffixes_from, 2);
    lemma_integer_known(fuel, nest, assignment.values@[0], value);
    assert(nest.last() == frame);
    assert(find_variable(nest, table) == Lowered::Done(
        nest,
        VariableView::Local(RegisterIndex(0)),
    )) by {
        reveal_with_fuel(local_in, 3);
        reveal_with_fuel(binding_frame, 3);
    }
    assert(primary_expression(fuel, nest, target->Field_0.primary) == Lowered::Done(nest, local));
    assert(suffixed_expression(fuel, nest, target->Field_0) == Lowered::Done(nest, local));
    let keyed = FrameView { constants: seq![ValueView::String(key)], ..frame };
    assert(constant_index(frame.constants, ValueView::String(key), 0) == 0);
    assert(frame.intern(ValueView::String(key)).constants =~= keyed.constants);
    assert(with_top(nest, keyed) =~= seq![keyed]);
    assert(any_register_or_constant(fuel, nest, name) == Lowered::Done(
        seq![keyed],
        (name, RegisterOrConstant::Constant(ConstantIndex8(0))),
    ));
    let valued = FrameView {
        constants: seq![ValueView::String(key), ValueView::Integer(value)],
        ..frame
    };
    assert(constant_index(keyed.constants, ValueView::Integer(value), 0) == 1) by {
        reveal_with_fuel(constant_index, 3);
    }
    assert(keyed.intern(ValueView::Integer(value)).constants =~= valued.constants);
    assert(with_top(seq![keyed], valued) =~= seq![valued]);
    assert(any_register_or_constant(fuel, seq![keyed], literal) == Lowered::Done(
        seq![valued],
        (literal, RegisterOrConstant::Constant(ConstantIndex8(1))),
    ));
    let write = OpCode::SetTableCC {
        table: RegisterIndex(0),
        key: ConstantIndex8(0),
        value: ConstantIndex8(1),
    };
    let written = seq![valued.emit(write)];
    assert(emitted(seq![valued], write) =~= written);
    assert(set_table(fuel, nest, local, name, literal) == Lowered::Done(
        written,
        (local, name, literal),
    ));
    assert(with_top(written, written[0]) =~= written);
    assert(released(fuel, written, name, literal, ()) == Lowered::Done(written, ()));
    assert(write_field(fuel, nest, local, name, literal) == Lowered::Done(written, ()));
    assert(assigned(fuel, nest, target, literal) == Lowered::Done(written, ()));
}

/// A local declared with an empty table, and a field of it assigned an
/// integer literal: the table is made in register 0, the name of the field
/// and the literal are the constants, and one instruction writes the field.
#[verifier::rlimit(30)]
pub proof fn lemma_field_of_new_table(fuel: nat, chunk: Chunk, key: Seq<u8>, value: i64)
    requires
        chunk.block.return_statement.is_none(),
        chunk.block.statements@.len() == 2,
        declares_table(chunk.block.statements@[0]),
        assigns_field(
            chunk.block.statements@[1],
            chunk.block.statements@[0]->LocalStatement_0.names@[0]@,
            key,
            value,
        ),
    ensures
        compiled(fuel, chunk) matches Lowered::Done(_, proto) && proto.constants == seq![
            ValueView::String(key),
            ValueView::Integer(value),
        ] && proto.opcodes == seq![
            OpCode::NewTable { dest: RegisterIndex(0) },
            OpCode::SetTableCC {
                table: RegisterIndex(0),
                key: ConstantIndex8(0),
                value: ConstantIndex8(1),
            },
            OpCode::Return { start: RegisterIndex(0), count: VarCount(1) },
        ] && proto.stack_size == 1 && proto.upvalues.len() == 0 && proto.prototypes.len() == 0,
{
    let statements = chunk.block.statements@;
    let start = empty_frame();
    lemma_table_declared(fuel, statements[0]);
    let first = statement(fuel, seq![start], statements[0])->Done_0;
    assert(first =~= seq![first[0]]);
    lemma_field_assigned(
        fuel,
        first[0],
        statements[1],
        statements[0]->LocalStatement_0.names@[0]@,
        key,
        value,
    );
    let write = OpCode::SetTableCC {
        table: RegisterIndex(0),
        key: ConstantIndex8(0),
        value: ConstantIndex8(1),
    };
    let wrote = FrameView {
        constants: seq![ValueView::String(key), ValueView::Integer(value)],
        opcodes: first[0].opcodes.push(write),
        ..first[0]
    };
    let second = seq![wrote];
    assert(statement(fuel, first, statements[1]) == Lowered::Done(second, ()));
    let last = OpCode::Return { start: RegisterIndex(0), count: VarCount(1) };
    let done = emitted(second, last);
    assert(done =~= seq![wrote.emit(last)]);
    assert(block_from(fuel, second, chunk.block, 2) == Lowered::Done(done, ()));
    assert(block_from(fuel, first, chunk.block, 1) == Lowered::Done(done, ()));
    assert(block_from(fuel, seq![start], chunk.block, 0) == Lowered::Done(done, ()));
    assert(block(fuel, seq![start], chunk.block) == Lowered::Done(done, ()));
    assert(done.last().stack_top == 1);
    assert(done.last().locals.len() == 1);
    assert(done.last().opcodes =~= seq![
        OpCode::NewTable { dest: RegisterIndex(0) },
        OpCode::SetTableCC {
            table: RegisterIndex(0),
            key: ConstantIndex8(0),
            value: ConstantIndex8(1),
        },
        OpCode::Return { start: RegisterIndex(0), count: VarCount(1) },
    ]);
    assert(function_body(fuel, seq![start], chunk.block) == Lowered::Done(done, ()));
    assert(done.last().to_proto().upvalues =~= Seq::empty());
}

} // verus!
