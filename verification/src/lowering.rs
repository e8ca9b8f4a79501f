//! What the code generator does, as functions from the nest of functions
//! and a piece of the program to the nest after it.
//!
//! The functions call each other as the parts of a program contain each
//! other. Each takes a depth, which is lowered where a function calls one
//! that may call it in turn, and gives `Unknown` at depth 0; a program is
//! described at every depth that its nesting does not exceed.

use vstd::prelude::*;
use crate::ast::{
    AssignmentStatement, AssignmentTarget, BinaryOperator, Block, CallSuffix, Chunk, Expression,
    FieldSuffix, FunctionCallStatement, FunctionDefinition, FunctionStatement, HeadExpression,
    LocalStatement, PrimaryExpression, ReturnStatement, SimpleExpression, Statement, SuffixPart,
    SuffixedExpression, TableConstructor, UnaryOperator,
};
use crate::descriptor::{ExprDestination, RegisterOrConstant};
use crate::error::{CompileError, CompilerLimit, RegisterFault, Unsupported};
use crate::model::{
    empty_frame, find_variable, frame_for, get_environment, with_top, FrameView, Lowered,
    OperandView, ProtoView, VariableView,
};
use crate::opcode::{BinOpArgs, ConstantIndex8, OpCode, PrototypeIndex, RegisterIndex, VarCount};
use crate::operators::{
    binop_category, comparison_binop_folded, comparison_instructions, simple_binop_folded,
    simple_binop_in_table, simple_binop_instruction, unop_folded, unop_in_table, unop_instruction,
    BinOpCategory, ComparisonBinOp, ShortCircuitBinOp, SimpleBinOp,
};
use crate::value::ValueView;

verus! {

/// The nest with `op` at the end of the code of its innermost function.
pub open spec fn emitted(nest: Seq<FrameView>, op: OpCode) -> Seq<FrameView> {
    with_top(nest, nest.last().emit(op))
}

/// The outcome of a step on the innermost function, as one on the nest.
pub open spec fn on_top<T>(nest: Seq<FrameView>, r: Result<(FrameView, T), CompileError>) -> Lowered<
    T,
> {
    match r {
        Ok((frame, value)) => Lowered::Done(with_top(nest, frame), value),
        Err(e) => Lowered::Failed(e),
    }
}

/// The lowest free register, allocated, with `op` applied to it emitted:
/// the result is in that register, which is a temporary.
pub open spec fn into_new(nest: Seq<FrameView>, op: spec_fn(RegisterIndex) -> OpCode) -> Lowered<
    OperandView,
> {
    match nest.last().take_register() {
        Err(e) => Lowered::Failed(e),
        Ok((frame, dest)) => Lowered::Done(
            emitted(with_top(nest, frame), op(dest)),
            OperandView::Register { register: dest, is_temporary: true },
        ),
    }
}

/// The value of a descriptor placed in the destination.
pub open spec fn discharge(
    fuel: nat,
    nest: Seq<FrameView>,
    operand: OperandView,
    dest: ExprDestination,
) -> Lowered<Option<RegisterIndex>>
    decreases fuel, 30nat, 0nat,
{
    match operand {
        OperandView::Register { register, is_temporary } => on_top(
            nest,
            nest.last().discharge_register(register, is_temporary, dest),
        ),
        OperandView::UpValue(source) => on_top(nest, nest.last().discharge_upvalue(source, dest)),
        OperandView::Value(value) => on_top(nest, nest.last().discharge_value(value, dest)),
        OperandView::FunctionCall { func, args } => discharge_function_call(
            fuel,
            nest,
            *func,
            args,
            dest,
        ),
        OperandView::ShortCircuit { left, op, right } => discharge_short_circuit(
            fuel,
            nest,
            *left,
            op,
            right,
            dest,
        ),
    }
}

/// A call made for its first result, which is placed in the destination.
/// The result is in the register in which the function was, at the top of
/// the stack: it is moved to a destination that is a register, and claimed
/// where it is for a new one.
pub open spec fn discharge_function_call(
    fuel: nat,
    nest: Seq<FrameView>,
    func: OperandView,
    args: Seq<OperandView>,
    dest: ExprDestination,
) -> Lowered<Option<RegisterIndex>>
    decreases fuel, 20nat, 0nat,
{
    match function_call(fuel, nest, func, args, VarCount(2)) {
        Lowered::Done(called, source) => match dest {
            ExprDestination::Register(register) => Lowered::Done(
                emitted(called, OpCode::Move { dest: register, source }),
                Some(register),
            ),
            ExprDestination::Nowhere => Lowered::Done(called, None),
            _ => match called.last().take_top(1) {
                Err(e) => Lowered::Failed(e),
                Ok((frame, claimed)) => if dest == ExprDestination::PushNew && claimed.0 > 0
                    && !frame.registers[claimed.0 - 1] {
                    Lowered::Failed(CompileError::Register(RegisterFault::PushBelowGap))
                } else {
                    Lowered::Done(with_top(called, frame), Some(source))
                },
            },
        },
        Lowered::Failed(e) => Lowered::Failed(e),
        Lowered::Unknown => Lowered::Unknown,
    }
}

/// The nest once a call has been emitted and its registers given back.
pub open spec fn call_made(
    nest: Seq<FrameView>,
    top: RegisterIndex,
    args: VarCount,
    results: VarCount,
) -> Seq<FrameView> {
    let called = emitted(nest, OpCode::Call { func: top, args, returns: results });
    with_top(called, called.last().pop_to(top.0 as int))
}

/// A call of the function in `top`, from the argument `i` on. The
/// arguments are pushed on the stack, in order; where the last one is
/// itself a call, all its results are passed on. After the call the
/// registers from `top` upwards are free again.
pub open spec fn arguments_from(
    fuel: nat,
    nest: Seq<FrameView>,
    top: RegisterIndex,
    args: Seq<OperandView>,
    i: int,
    results: VarCount,
) -> Lowered<RegisterIndex>
    decreases fuel, 45nat, args.len() - i,
{
    if 0 <= i < args.len() - 1 {
        match discharge(fuel, nest, args[i], ExprDestination::PushNew) {
            Lowered::Done(after, _) => arguments_from(fuel, after, top, args, i + 1, results),
            Lowered::Failed(e) => Lowered::Failed(e),
            Lowered::Unknown => Lowered::Unknown,
        }
    } else if args.len() > 0 && args.last() is FunctionCall {
        match function_call(
            fuel,
            nest,
            *args.last()->FunctionCall_func,
            args.last()->FunctionCall_args,
            VarCount(0),
        ) {
            Lowered::Done(inner, _) => Lowered::Done(
                call_made(inner, top, VarCount(0), results),
                top,
            ),
            Lowered::Failed(e) => Lowered::Failed(e),
            Lowered::Unknown => Lowered::Unknown,
        }
    } else {
        let last = if args.len() > 0 {
            discharge(fuel, nest, args.last(), ExprDestination::PushNew)
        } else {
            Lowered::Done(nest, None)
        };
        match last {
            Lowered::Done(all, _) => if args.len() >= 255 {
                Lowered::Failed(CompileError::Limit(CompilerLimit::FixedParameters))
            } else {
                Lowered::Done(
                    call_made(all, top, VarCount((args.len() + 1) as u8), results),
                    top,
                )
            },
            Lowered::Failed(e) => Lowered::Failed(e),
            Lowered::Unknown => Lowered::Unknown,
        }
    }
}

/// A call. The function is pushed on the stack and the arguments above it;
/// the register of the function is returned.
pub open spec fn function_call(
    fuel: nat,
    nest: Seq<FrameView>,
    func: OperandView,
    args: Seq<OperandView>,
    results: VarCount,
) -> Lowered<RegisterIndex>
    decreases fuel, 10nat, 0nat,
{
    if fuel == 0 {
        Lowered::Unknown
    } else {
        match discharge((fuel - 1) as nat, nest, func, ExprDestination::PushNew) {
            Lowered::Done(placed, top) => if args.len() > 255 {
                Lowered::Failed(CompileError::Limit(CompilerLimit::FixedParameters))
            } else {
                arguments_from((fuel - 1) as nat, placed, top.unwrap(), args, 0, results)
            },
            Lowered::Failed(e) => Lowered::Failed(e),
            Lowered::Unknown => Lowered::Unknown,
        }
    }
}

/// The instruction that tests the left operand of `and` or `or`, and copies
/// it to the destination if it decides.
pub open spec fn short_circuit_test(
    op: ShortCircuitBinOp,
    left: RegisterIndex,
    dest: Option<RegisterIndex>,
) -> OpCode {
    let is_true = op == ShortCircuitBinOp::And;
    match dest {
        Some(register) => if left == register {
            OpCode::Test { value: left, is_true }
        } else {
            OpCode::TestSet { dest: register, value: left, is_true }
        },
        None => OpCode::Test { value: left, is_true },
    }
}

/// `and` or `or` evaluated into the destination. The left operand is put in
/// a register and released; the destination is allocated; the test and a
/// jump are emitted; the right operand is compiled and placed in the
/// destination; and the jump is made to lead past that code.
pub open spec fn discharge_short_circuit(
    fuel: nat,
    nest: Seq<FrameView>,
    left: OperandView,
    op: ShortCircuitBinOp,
    right: Expression,
    dest: ExprDestination,
) -> Lowered<Option<RegisterIndex>>
    decreases fuel, 20nat, 0nat,
{
    if fuel == 0 {
        Lowered::Unknown
    } else {
        let below = (fuel - 1) as nat;
        match any_register(below, nest, left) {
            Lowered::Done(held, (operand, left_register)) => match discharge(
                below,
                held,
                operand,
                ExprDestination::Nowhere,
            ) {
                Lowered::Done(released, _) => match released.last().new_destination(dest) {
                    Err(e) => Lowered::Failed(e),
                    Ok((frame, placed_in)) => {
                        let tested = emitted(
                            emitted(
                                with_top(released, frame),
                                short_circuit_test(op, left_register, placed_in),
                            ),
                            OpCode::Jump { offset: 0 },
                        );
                        let jump = frame.opcodes.len() + 1;
                        match expression(below, tested, right) {
                            Lowered::Done(compiled, value) => match discharge(
                                below,
                                compiled,
                                value,
                                match placed_in {
                                    Some(register) => ExprDestination::Register(register),
                                    None => ExprDestination::Nowhere,
                                },
                            ) {
                                Lowered::Done(placed, _) => match placed.last().patch_jump(
                                    jump as int,
                                ) {
                                    Err(e) => Lowered::Failed(e),
                                    Ok((patched, _)) => Lowered::Done(
                                        with_top(placed, patched),
                                        placed_in,
                                    ),
                                },
                                Lowered::Failed(e) => Lowered::Failed(e),
                                Lowered::Unknown => Lowered::Unknown,
                            },
                            Lowered::Failed(e) => Lowered::Failed(e),
                            Lowered::Unknown => Lowered::Unknown,
                        }
                    },
                },
                Lowered::Failed(e) => Lowered::Failed(e),
                Lowered::Unknown => Lowered::Unknown,
            },
            Lowered::Failed(e) => Lowered::Failed(e),
            Lowered::Unknown => Lowered::Unknown,
        }
    }
}

/// A descriptor with its value in a register, and that register. A
/// descriptor that is a register stays as it is; any other is placed in a
/// new temporary register.
pub open spec fn any_register(fuel: nat, nest: Seq<FrameView>, operand: OperandView) -> Lowered<
    (OperandView, RegisterIndex),
>
    decreases fuel, 40nat, 0nat,
{
    match operand {
        OperandView::Register { register, .. } => Lowered::Done(nest, (operand, register)),
        _ => match discharge(fuel, nest, operand, ExprDestination::AllocateNew) {
            Lowered::Done(after, placed) => Lowered::Done(
                after,
                (
                    OperandView::Register { register: placed.unwrap(), is_temporary: true },
                    placed.unwrap(),
                ),
            ),
            Lowered::Failed(e) => Lowered::Failed(e),
            Lowered::Unknown => Lowered::Unknown,
        },
    }
}

/// A descriptor as the operand of an instruction: a known value by its
/// index in the constant table, where that fits eight bits, and anything
/// else in a register.
pub open spec fn any_register_or_constant(
    fuel: nat,
    nest: Seq<FrameView>,
    operand: OperandView,
) -> Lowered<(OperandView, RegisterOrConstant)>
    decreases fuel, 50nat, 0nat,
{
    let interned = match operand {
        OperandView::Value(value) => Some(nest.last().interned(value)),
        _ => None,
    };
    match interned {
        Some(Err(e)) => Lowered::Failed(e),
        Some(Ok((frame, index))) if index.0 <= 255 => Lowered::Done(
            with_top(nest, frame),
            (operand, RegisterOrConstant::Constant(ConstantIndex8(index.0 as u8))),
        ),
        _ => match any_register(
            fuel,
            match interned {
                Some(Ok((frame, _))) => with_top(nest, frame),
                _ => nest,
            },
            operand,
        ) {
            Lowered::Done(after, (held, register)) => Lowered::Done(
                after,
                (held, RegisterOrConstant::Register(register)),
            ),
            Lowered::Failed(e) => Lowered::Failed(e),
            Lowered::Unknown => Lowered::Unknown,
        },
    }
}

/// Two descriptors released, one after the other.
pub open spec fn released<T>(
    fuel: nat,
    nest: Seq<FrameView>,
    first: OperandView,
    second: OperandView,
    value: T,
) -> Lowered<T>
    decreases fuel, 60nat, 0nat,
{
    match discharge(fuel, nest, first, ExprDestination::Nowhere) {
        Lowered::Done(after, _) => match discharge(fuel, after, second, ExprDestination::Nowhere) {
            Lowered::Done(last, _) => Lowered::Done(last, value),
            Lowered::Failed(e) => Lowered::Failed(e),
            Lowered::Unknown => Lowered::Unknown,
        },
        Lowered::Failed(e) => Lowered::Failed(e),
        Lowered::Unknown => Lowered::Unknown,
    }
}

/// The operands of a binary instruction. Of two constants the left one is
/// put in a register. The descriptors are released.
pub open spec fn make_binop_args(
    fuel: nat,
    nest: Seq<FrameView>,
    left: OperandView,
    right: OperandView,
) -> Lowered<BinOpArgs>
    decreases fuel, 70nat, 0nat,
{
    match any_register_or_constant(fuel, nest, left) {
        Lowered::Done(first, (left_held, left_operand)) => match any_register_or_constant(
            fuel,
            first,
            right,
        ) {
            Lowered::Done(second, (right_held, right_operand)) => match (
                left_operand,
                right_operand,
            ) {
                (RegisterOrConstant::Constant(l), RegisterOrConstant::Register(r)) => released(
                    fuel,
                    second,
                    left_held,
                    right_held,
                    BinOpArgs::CR(l, r),
                ),
                (RegisterOrConstant::Register(l), RegisterOrConstant::Constant(r)) => released(
                    fuel,
                    second,
                    left_held,
                    right_held,
                    BinOpArgs::RC(l, r),
                ),
                (RegisterOrConstant::Register(l), RegisterOrConstant::Register(r)) => released(
                    fuel,
                    second,
                    left_held,
                    right_held,
                    BinOpArgs::RR(l, r),
                ),
                (RegisterOrConstant::Constant(_), RegisterOrConstant::Constant(r)) => match any_register(
                    fuel,
                    second,
                    left_held,
                ) {
                    Lowered::Done(third, (left_loaded, l)) => released(
                        fuel,
                        third,
                        left_loaded,
                        right_held,
                        BinOpArgs::RC(l, r),
                    ),
                    Lowered::Failed(e) => Lowered::Failed(e),
                    Lowered::Unknown => Lowered::Unknown,
                },
            },
            Lowered::Failed(e) => Lowered::Failed(e),
            Lowered::Unknown => Lowered::Unknown,
        },
        Lowered::Failed(e) => Lowered::Failed(e),
        Lowered::Unknown => Lowered::Unknown,
    }
}

/// A unary operator applied. On a constant of a type that admits it the
/// result is computed; otherwise the operand is put in a register and
/// released, and the instruction leaves the result in a new register.
pub open spec fn unary_operator(
    fuel: nat,
    nest: Seq<FrameView>,
    unop: UnaryOperator,
    operand: OperandView,
) -> Lowered<OperandView>
    decreases fuel, 80nat, 0nat,
{
    if !unop_in_table(unop) {
        Lowered::Failed(CompileError::Unsupported(Unsupported::UnaryOperator))
    } else if operand is Value && unop_folded(unop, operand->Value_0).is_some() {
        Lowered::Done(nest, OperandView::Value(unop_folded(unop, operand->Value_0).unwrap()))
    } else {
        match any_register(fuel, nest, operand) {
            Lowered::Done(held, (source, register)) => match discharge(
                fuel,
                held,
                source,
                ExprDestination::Nowhere,
            ) {
                Lowered::Done(after, _) => into_new(
                    after,
                    |dest: RegisterIndex| unop_instruction(unop, dest, register),
                ),
                Lowered::Failed(e) => Lowered::Failed(e),
                Lowered::Unknown => Lowered::Unknown,
            },
            Lowered::Failed(e) => Lowered::Failed(e),
            Lowered::Unknown => Lowered::Unknown,
        }
    }
}

/// The value that an operator on two descriptors has, where both are known
/// and the operator can be computed on them.
pub open spec fn both_known(left: OperandView, right: OperandView) -> Option<(ValueView, ValueView)> {
    match (left, right) {
        (OperandView::Value(a), OperandView::Value(b)) => Some((a, b)),
        _ => None,
    }
}

/// A simple binary operator applied to two descriptors.
pub open spec fn simple_binary_operation(
    fuel: nat,
    nest: Seq<FrameView>,
    op: SimpleBinOp,
    left: OperandView,
    right: OperandView,
) -> Lowered<OperandView>
    decreases fuel, 80nat, 0nat,
{
    let folded = match both_known(left, right) {
        Some((a, b)) => simple_binop_folded(op, a, b),
        None => None,
    };
    match folded {
        Some(value) => Lowered::Done(nest, OperandView::Value(value)),
        None => match make_binop_args(fuel, nest, left, right) {
            Lowered::Done(after, args) => into_new(
                after,
                |dest: RegisterIndex| simple_binop_instruction(op, dest, args),
            ),
            Lowered::Failed(e) => Lowered::Failed(e),
            Lowered::Unknown => Lowered::Unknown,
        },
    }
}

/// A comparison applied to two descriptors.
pub open spec fn comparison_binary_operation(
    fuel: nat,
    nest: Seq<FrameView>,
    op: ComparisonBinOp,
    left: OperandView,
    right: OperandView,
) -> Lowered<OperandView>
    decreases fuel, 80nat, 0nat,
{
    let folded = match both_known(left, right) {
        Some((a, b)) => comparison_binop_folded(op, a, b),
        None => None,
    };
    match folded {
        Some(value) => Lowered::Done(nest, OperandView::Value(value)),
        None => match make_binop_args(fuel, nest, left, right) {
            Lowered::Done(after, args) => match after.last().take_register() {
                Err(e) => Lowered::Failed(e),
                Ok((frame, dest)) => Lowered::Done(
                    with_top(
                        with_top(after, frame),
                        FrameView {
                            opcodes: frame.opcodes + comparison_instructions(op, dest, args),
                            ..frame
                        },
                    ),
                    OperandView::Register { register: dest, is_temporary: true },
                ),
            },
            Lowered::Failed(e) => Lowered::Failed(e),
            Lowered::Unknown => Lowered::Unknown,
        },
    }
}

/// The instruction that reads a field.
pub open spec fn table_read(
    dest: RegisterIndex,
    table: OperandView,
    table_register: RegisterIndex,
    key: RegisterOrConstant,
) -> OpCode {
    match (table, key) {
        (OperandView::UpValue(index), RegisterOrConstant::Constant(key)) => OpCode::GetUpTableC {
            dest,
            table: index,
            key,
        },
        (OperandView::UpValue(index), RegisterOrConstant::Register(key)) => OpCode::GetUpTableR {
            dest,
            table: index,
            key,
        },
        (_, RegisterOrConstant::Constant(key)) => OpCode::GetTableC {
            dest,
            table: table_register,
            key,
        },
        (_, RegisterOrConstant::Register(key)) => OpCode::GetTableR {
            dest,
            table: table_register,
            key,
        },
    }
}

/// The instruction that writes a field.
pub open spec fn table_write(
    table: OperandView,
    table_register: RegisterIndex,
    key: RegisterOrConstant,
    value: RegisterOrConstant,
) -> OpCode {
    match (table, key, value) {
        (
            OperandView::UpValue(index),
            RegisterOrConstant::Register(key),
            RegisterOrConstant::Register(value),
        ) => OpCode::SetUpTableRR { table: index, key, value },
        (
            OperandView::UpValue(index),
            RegisterOrConstant::Register(key),
            RegisterOrConstant::Constant(value),
        ) => OpCode::SetUpTableRC { table: index, key, value },
        (
            OperandView::UpValue(index),
            RegisterOrConstant::Constant(key),
            RegisterOrConstant::Register(value),
        ) => OpCode::SetUpTableCR { table: index, key, value },
        (
            OperandView::UpValue(index),
            RegisterOrConstant::Constant(key),
            RegisterOrConstant::Constant(value),
        ) => OpCode::SetUpTableCC { table: index, key, value },
        (_, RegisterOrConstant::Register(key), RegisterOrConstant::Register(value)) => OpCode::SetTableRR {
            table: table_register,
            key,
            value,
        },
        (_, RegisterOrConstant::Register(key), RegisterOrConstant::Constant(value)) => OpCode::SetTableRC {
            table: table_register,
            key,
            value,
        },
        (_, RegisterOrConstant::Constant(key), RegisterOrConstant::Register(value)) => OpCode::SetTableCR {
            table: table_register,
            key,
            value,
        },
        (_, RegisterOrConstant::Constant(key), RegisterOrConstant::Constant(value)) => OpCode::SetTableCC {
            table: table_register,
            key,
            value,
        },
    }
}

/// The table of an access as the operand of its instruction: an upvalue as
/// it is, and anything else in a register.
pub open spec fn table_operand(fuel: nat, nest: Seq<FrameView>, table: OperandView) -> Lowered<
    (OperandView, RegisterIndex),
>
    decreases fuel, 50nat, 0nat,
{
    match table {
        OperandView::UpValue(_) => Lowered::Done(nest, (table, RegisterIndex(0))),
        _ => any_register(fuel, nest, table),
    }
}

/// A field read into a new temporary register. The descriptors of the
/// table and the key are returned as they are after, with that of the
/// result.
pub open spec fn get_table(
    fuel: nat,
    nest: Seq<FrameView>,
    table: OperandView,
    key: OperandView,
) -> Lowered<(OperandView, OperandView, OperandView)>
    decreases fuel, 80nat, 0nat,
{
    match nest.last().take_register() {
        Err(e) => Lowered::Failed(e),
        Ok((frame, dest)) => match table_operand(fuel, with_top(nest, frame), table) {
            Lowered::Done(first, (table_held, table_register)) => match any_register_or_constant(
                fuel,
                first,
                key,
            ) {
                Lowered::Done(second, (key_held, key_operand)) => Lowered::Done(
                    emitted(second, table_read(dest, table, table_register, key_operand)),
                    (
                        table_held,
                        key_held,
                        OperandView::Register { register: dest, is_temporary: true },
                    ),
                ),
                Lowered::Failed(e) => Lowered::Failed(e),
                Lowered::Unknown => Lowered::Unknown,
            },
            Lowered::Failed(e) => Lowered::Failed(e),
            Lowered::Unknown => Lowered::Unknown,
        },
    }
}

/// A field written. The descriptors of the table, the key and the value are
/// returned as they are after.
pub open spec fn set_table(
    fuel: nat,
    nest: Seq<FrameView>,
    table: OperandView,
    key: OperandView,
    value: OperandView,
) -> Lowered<(OperandView, OperandView, OperandView)>
    decreases fuel, 80nat, 0nat,
{
    match table_operand(fuel, nest, table) {
        Lowered::Done(first, (table_held, table_register)) => match any_register_or_constant(
            fuel,
            first,
            key,
        ) {
            Lowered::Done(second, (key_held, key_operand)) => match any_register_or_constant(
                fuel,
                second,
                value,
            ) {
                Lowered::Done(third, (value_held, value_operand)) => Lowered::Done(
                    emitted(
                        third,
                        table_write(table, table_register, key_operand, value_operand),
                    ),
                    (table_held, key_held, value_held),
                ),
                Lowered::Failed(e) => Lowered::Failed(e),
                Lowered::Unknown => Lowered::Unknown,
            },
            Lowered::Failed(e) => Lowered::Failed(e),
            Lowered::Unknown => Lowered::Unknown,
        },
        Lowered::Failed(e) => Lowered::Failed(e),
        Lowered::Unknown => Lowered::Unknown,
    }
}

/// A field read, with the table and the key released after.
pub open spec fn read_field(
    fuel: nat,
    nest: Seq<FrameView>,
    table: OperandView,
    key: OperandView,
) -> Lowered<OperandView>
    decreases fuel, 90nat, 0nat,
{
    match get_table(fuel, nest, table, key) {
        Lowered::Done(read, (table_held, key_held, result)) => released(
            fuel,
            read,
            table_held,
            key_held,
            result,
        ),
        Lowered::Failed(e) => Lowered::Failed(e),
        Lowered::Unknown => Lowered::Unknown,
    }
}

/// A field written, with the table, the key and the value released after.
pub open spec fn write_field(
    fuel: nat,
    nest: Seq<FrameView>,
    table: OperandView,
    key: OperandView,
    value: OperandView,
) -> Lowered<()>
    decreases fuel, 90nat, 0nat,
{
    match set_table(fuel, nest, table, key, value) {
        Lowered::Done(written, (table_held, key_held, value_held)) => match discharge(
            fuel,
            written,
            table_held,
            ExprDestination::Nowhere,
        ) {
            Lowered::Done(after, _) => released(fuel, after, key_held, value_held, ()),
            Lowered::Failed(e) => Lowered::Failed(e),
            Lowered::Unknown => Lowered::Unknown,
        },
        Lowered::Failed(e) => Lowered::Failed(e),
        Lowered::Unknown => Lowered::Unknown,
    }
}

/// A binary operator applied to a left operand that has been compiled and a
/// right operand that has not. `and` and `or` are put off; for every other
/// operator the right operand is compiled first.
pub open spec fn binary_operator(
    fuel: nat,
    nest: Seq<FrameView>,
    left: OperandView,
    binop: BinaryOperator,
    right: Expression,
) -> Lowered<OperandView>
    decreases fuel, 100nat, 0nat,
{
    match binop_category(binop) {
        BinOpCategory::Simple(op) => if !simple_binop_in_table(op) {
            Lowered::Failed(CompileError::Unsupported(Unsupported::BinaryOperator))
        } else if fuel == 0 {
            Lowered::Unknown
        } else {
            match expression((fuel - 1) as nat, nest, right) {
                Lowered::Done(after, value) => simple_binary_operation(
                    fuel,
                    after,
                    op,
                    left,
                    value,
                ),
                Lowered::Failed(e) => Lowered::Failed(e),
                Lowered::Unknown => Lowered::Unknown,
            }
        },
        BinOpCategory::Comparison(op) => if fuel == 0 {
            Lowered::Unknown
        } else {
            match expression((fuel - 1) as nat, nest, right) {
                Lowered::Done(after, value) => comparison_binary_operation(
                    fuel,
                    after,
                    op,
                    left,
                    value,
                ),
                Lowered::Failed(e) => Lowered::Failed(e),
                Lowered::Unknown => Lowered::Unknown,
            }
        },
        BinOpCategory::ShortCircuit(op) => Lowered::Done(
            nest,
            OperandView::ShortCircuit { left: Box::new(left), op, right },
        ),
        BinOpCategory::Concat => Lowered::Failed(
            CompileError::Unsupported(Unsupported::ConcatOperator),
        ),
    }
}

/// A name, or an expression in parentheses. A local is its register, an
/// upvalue is itself, and a global is read from the table of the
/// environment under its name.
pub open spec fn primary_expression(
    fuel: nat,
    nest: Seq<FrameView>,
    primary: PrimaryExpression,
) -> Lowered<OperandView>
    decreases fuel, 110nat, 0nat,
{
    match primary {
        PrimaryExpression::Name(name) => match find_variable(nest, name@) {
            Lowered::Done(found, VariableView::Local(register)) => Lowered::Done(
                found,
                OperandView::Register { register, is_temporary: false },
            ),
            Lowered::Done(found, VariableView::UpValue(index)) => Lowered::Done(
                found,
                OperandView::UpValue(index),
            ),
            Lowered::Done(found, VariableView::Global(global)) => match get_environment(found) {
                Lowered::Done(after, env) => read_field(
                    fuel,
                    after,
                    env,
                    OperandView::Value(ValueView::String(global)),
                ),
                Lowered::Failed(e) => Lowered::Failed(e),
                Lowered::Unknown => Lowered::Unknown,
            },
            Lowered::Failed(e) => Lowered::Failed(e),
            Lowered::Unknown => Lowered::Unknown,
        },
        PrimaryExpression::GroupedExpression(grouped) => if fuel == 0 {
            Lowered::Unknown
        } else {
            expression((fuel - 1) as nat, nest, grouped)
        },
    }
}

/// The suffixes from `i` on applied to what precedes them. A field access
/// is made at once; a call is put off until its results are asked for.
pub open spec fn suffixes_from(
    fuel: nat,
    nest: Seq<FrameView>,
    operand: OperandView,
    suffixes: Seq<SuffixPart>,
    i: int,
) -> Lowered<OperandView>
    decreases fuel, 120nat, suffixes.len() - i,
{
    if i >= suffixes.len() || i < 0 {
        Lowered::Done(nest, operand)
    } else {
        let step = match suffixes[i] {
            SuffixPart::Field(FieldSuffix::Named(name)) => read_field(
                fuel,
                nest,
                operand,
                OperandView::Value(ValueView::String(name@)),
            ),
            SuffixPart::Field(FieldSuffix::Indexed(index)) => if fuel == 0 {
                Lowered::Unknown
            } else {
                match expression((fuel - 1) as nat, nest, index) {
                    Lowered::Done(after, key) => read_field(fuel, after, operand, key),
                    Lowered::Failed(e) => Lowered::Failed(e),
                    Lowered::Unknown => Lowered::Unknown,
                }
            },
            SuffixPart::Call(CallSuffix::Function(args)) => if fuel == 0 {
                Lowered::Unknown
            } else {
                match expressions_from((fuel - 1) as nat, nest, args@, 0, Seq::empty()) {
                    Lowered::Done(after, values) => Lowered::Done(
                        after,
                        OperandView::FunctionCall { func: Box::new(operand), args: values },
                    ),
                    Lowered::Failed(e) => Lowered::Failed(e),
                    Lowered::Unknown => Lowered::Unknown,
                }
            },
            SuffixPart::Call(CallSuffix::Method(_, _)) => Lowered::Failed(
                CompileError::Unsupported(Unsupported::MethodCall),
            ),
        };
        match step {
            Lowered::Done(after, result) => suffixes_from(fuel, after, result, suffixes, i + 1),
            Lowered::Failed(e) => Lowered::Failed(e),
            Lowered::Unknown => Lowered::Unknown,
        }
    }
}

/// A primary expression followed by field accesses and calls.
pub open spec fn suffixed_expression(
    fuel: nat,
    nest: Seq<FrameView>,
    suffixed: SuffixedExpression,
) -> Lowered<OperandView>
    decreases fuel, 130nat, 0nat,
{
    match primary_expression(fuel, nest, suffixed.primary) {
        Lowered::Done(after, operand) => suffixes_from(fuel, after, operand, suffixed.suffixes@, 0),
        Lowered::Failed(e) => Lowered::Failed(e),
        Lowered::Unknown => Lowered::Unknown,
    }
}

/// The expressions from `i` on compiled in order, their descriptors added
/// to `values`.
pub open spec fn expressions_from(
    fuel: nat,
    nest: Seq<FrameView>,
    expressions: Seq<Expression>,
    i: int,
    values: Seq<OperandView>,
) -> Lowered<Seq<OperandView>>
    decreases fuel, 200nat, expressions.len() - i,
{
    if i >= expressions.len() || i < 0 {
        Lowered::Done(nest, values)
    } else {
        match expression(fuel, nest, expressions[i]) {
            Lowered::Done(after, value) => expressions_from(
                fuel,
                after,
                expressions,
                i + 1,
                values.push(value),
            ),
            Lowered::Failed(e) => Lowered::Failed(e),
            Lowered::Unknown => Lowered::Unknown,
        }
    }
}

/// A table made in a new temporary register. Only the empty constructor is
/// lowered.
pub open spec fn table_constructor(nest: Seq<FrameView>, constructor: TableConstructor) -> Lowered<
    OperandView,
> {
    if constructor.fields@.len() > 0 {
        Lowered::Failed(CompileError::Unsupported(Unsupported::TableFields))
    } else {
        into_new(nest, |dest: RegisterIndex| OpCode::NewTable { dest })
    }
}

/// A closure made of a function in a new temporary register.
pub open spec fn function_expression(
    fuel: nat,
    nest: Seq<FrameView>,
    function: FunctionDefinition,
) -> Lowered<OperandView>
    decreases fuel, 140nat, 0nat,
{
    if fuel == 0 {
        Lowered::Unknown
    } else {
        match new_prototype((fuel - 1) as nat, nest, function) {
            Lowered::Done(after, proto) => into_new(
                after,
                |dest: RegisterIndex| OpCode::Closure { proto, dest },
            ),
            Lowered::Failed(e) => Lowered::Failed(e),
            Lowered::Unknown => Lowered::Unknown,
        }
    }
}

/// A literal, a table constructor, a function or a suffixed expression.
pub open spec fn simple_expression(fuel: nat, nest: Seq<FrameView>, simple: SimpleExpression) -> Lowered<
    OperandView,
>
    decreases fuel, 150nat, 0nat,
{
    match simple {
        SimpleExpression::Float(bits) => Lowered::Done(
            nest,
            OperandView::Value(ValueView::Number(bits)),
        ),
        SimpleExpression::Integer(i) => Lowered::Done(
            nest,
            OperandView::Value(ValueView::Integer(i)),
        ),
        SimpleExpression::String(s) => Lowered::Done(
            nest,
            OperandView::Value(ValueView::String(s@)),
        ),
        SimpleExpression::Nil => Lowered::Done(nest, OperandView::Value(ValueView::Nil)),
        SimpleExpression::True => Lowered::Done(
            nest,
            OperandView::Value(ValueView::Boolean(true)),
        ),
        SimpleExpression::False => Lowered::Done(
            nest,
            OperandView::Value(ValueView::Boolean(false)),
        ),
        SimpleExpression::VarArgs => Lowered::Failed(
            CompileError::Unsupported(Unsupported::VarArgsExpression),
        ),
        SimpleExpression::TableConstructor(constructor) => table_constructor(nest, constructor),
        SimpleExpression::Function(function) => function_expression(fuel, nest, function),
        SimpleExpression::Suffixed(suffixed) => suffixed_expression(fuel, nest, suffixed),
    }
}

/// A simple expression, or a unary operator applied to an expression.
pub open spec fn head_expression(fuel: nat, nest: Seq<FrameView>, head: HeadExpression) -> Lowered<
    OperandView,
>
    decreases fuel, 160nat, 0nat,
{
    match head {
        HeadExpression::Simple(simple) => simple_expression(fuel, nest, simple),
        HeadExpression::UnaryOperator(unop, operand) => if fuel == 0 {
            Lowered::Unknown
        } else {
            match expression((fuel - 1) as nat, nest, operand) {
                Lowered::Done(after, value) => unary_operator(fuel, after, unop, value),
                Lowered::Failed(e) => Lowered::Failed(e),
                Lowered::Unknown => Lowered::Unknown,
            }
        },
    }
}

/// The binary operators from `i` on applied, each to what precedes it.
pub open spec fn tail_from(
    fuel: nat,
    nest: Seq<FrameView>,
    operand: OperandView,
    tail: Seq<(BinaryOperator, Expression)>,
    i: int,
) -> Lowered<OperandView>
    decreases fuel, 170nat, tail.len() - i,
{
    if i >= tail.len() || i < 0 {
        Lowered::Done(nest, operand)
    } else {
        match binary_operator(fuel, nest, operand, tail[i].0, tail[i].1) {
            Lowered::Done(after, result) => tail_from(fuel, after, result, tail, i + 1),
            Lowered::Failed(e) => Lowered::Failed(e),
            Lowered::Unknown => Lowered::Unknown,
        }
    }
}

/// An expression: its head, and then each binary operator of its tail.
pub open spec fn expression(fuel: nat, nest: Seq<FrameView>, expression: Expression) -> Lowered<
    OperandView,
>
    decreases fuel, 180nat, 0nat,
{
    match head_expression(fuel, nest, *expression.head) {
        Lowered::Done(after, operand) => tail_from(fuel, after, operand, expression.tail@, 0),
        Lowered::Failed(e) => Lowered::Failed(e),
        Lowered::Unknown => Lowered::Unknown,
    }
}

/// A function compiled into a prototype, which is added to the prototypes
/// of the function around it; its index there is returned.
pub open spec fn new_prototype(fuel: nat, nest: Seq<FrameView>, function: FunctionDefinition) -> Lowered<
    PrototypeIndex,
>
    decreases fuel, 400nat, 0nat,
{
    if function.has_varargs {
        Lowered::Failed(CompileError::Unsupported(Unsupported::VarArgsFunction))
    } else if function.parameters@.len() > 255 {
        Lowered::Failed(CompileError::Limit(CompilerLimit::FixedParameters))
    } else {
        match function_body(fuel, nest.push(frame_for(function.parameters@)), function.body) {
            Lowered::Done(compiled, _) => {
                let outer = compiled.drop_last();
                let around = outer.last();
                if around.prototypes.len() >= 65536 {
                    Lowered::Failed(CompileError::Limit(CompilerLimit::Functions))
                } else {
                    Lowered::Done(
                        with_top(
                            outer,
                            FrameView {
                                prototypes: around.prototypes.push(compiled.last().to_proto()),
                                ..around
                            },
                        ),
                        PrototypeIndex(around.prototypes.len() as u16),
                    )
                }
            },
            Lowered::Failed(e) => Lowered::Failed(e),
            Lowered::Unknown => Lowered::Unknown,
        }
    }
}

/// The body of the innermost function. A body at whose end the top of the
/// register stack is not the number of locals has leaked a register.
pub open spec fn function_body(fuel: nat, nest: Seq<FrameView>, body: Block) -> Lowered<()>
    decreases fuel, 390nat, 0nat,
{
    match block(fuel, nest, body) {
        Lowered::Done(after, _) => if after.last().stack_top != after.last().locals.len() {
            Lowered::Failed(CompileError::Register(RegisterFault::Leak))
        } else {
            Lowered::Done(after, ())
        },
        Lowered::Failed(e) => Lowered::Failed(e),
        Lowered::Unknown => Lowered::Unknown,
    }
}

/// A block from the statement `i` on: the statements in order, and then
/// the return statement. A block without one returns nothing.
pub open spec fn block_from(fuel: nat, nest: Seq<FrameView>, block: Block, i: int) -> Lowered<()>
    decreases fuel, 380nat, block.statements@.len() - i,
{
    if 0 <= i < block.statements@.len() {
        match statement(fuel, nest, block.statements@[i]) {
            Lowered::Done(after, _) => block_from(fuel, after, block, i + 1),
            Lowered::Failed(e) => Lowered::Failed(e),
            Lowered::Unknown => Lowered::Unknown,
        }
    } else {
        match block.return_statement {
            Some(return_statement) => crate::lowering::return_statement(
                fuel,
                nest,
                return_statement,
            ),
            None => Lowered::Done(
                emitted(nest, OpCode::Return { start: RegisterIndex(0), count: VarCount(1) }),
                (),
            ),
        }
    }
}

/// The statements of a block in order, and then its return statement.
pub open spec fn block(fuel: nat, nest: Seq<FrameView>, block: Block) -> Lowered<()>
    decreases fuel, 385nat, 0nat,
{
    block_from(fuel, nest, block, 0)
}

/// One statement. Control structures, labels and jumps are not lowered.
pub open spec fn statement(fuel: nat, nest: Seq<FrameView>, statement: Statement) -> Lowered<()>
    decreases fuel, 360nat, 0nat,
{
    match statement {
        Statement::If(_) => Lowered::Failed(CompileError::Unsupported(Unsupported::IfStatement)),
        Statement::While(_) => Lowered::Failed(
            CompileError::Unsupported(Unsupported::WhileStatement),
        ),
        Statement::Do(_) => Lowered::Failed(CompileError::Unsupported(Unsupported::DoStatement)),
        Statement::For(_) => Lowered::Failed(CompileError::Unsupported(Unsupported::ForStatement)),
        Statement::Repeat(_) => Lowered::Failed(
            CompileError::Unsupported(Unsupported::RepeatStatement),
        ),
        Statement::Function(function) => function_statement(fuel, nest, function),
        Statement::LocalFunction(function) => local_function(fuel, nest, function),
        Statement::LocalStatement(local) => local_statement(fuel, nest, local, 0),
        Statement::Label(_) => Lowered::Failed(
            CompileError::Unsupported(Unsupported::LabelStatement),
        ),
        Statement::Break => Lowered::Failed(
            CompileError::Unsupported(Unsupported::BreakStatement),
        ),
        Statement::Goto(_) => Lowered::Failed(
            CompileError::Unsupported(Unsupported::GotoStatement),
        ),
        Statement::FunctionCall(call) => call_statement(fuel, nest, call),
        Statement::Assignment(assignment) => crate::lowering::assignment(
            fuel,
            nest,
            assignment,
            0,
        ),
    }
}

/// The nest once a closure of the prototype `proto` has been made in the
/// lowest free register, with that register.
pub open spec fn closure_in_new(nest: Seq<FrameView>, proto: PrototypeIndex) -> Lowered<RegisterIndex> {
    match nest.last().take_register() {
        Err(e) => Lowered::Failed(e),
        Ok((frame, dest)) => Lowered::Done(
            emitted(with_top(nest, frame), OpCode::Closure { proto, dest }),
            dest,
        ),
    }
}

/// The declaration of a global function: a closure is made of the function
/// and stored in the environment under the function's name.
pub open spec fn function_statement(fuel: nat, nest: Seq<FrameView>, function: FunctionStatement) -> Lowered<
    (),
>
    decreases fuel, 350nat, 0nat,
{
    if function.name.fields@.len() > 0 {
        Lowered::Failed(CompileError::Unsupported(Unsupported::FunctionNameFields))
    } else if function.name.method.is_some() {
        Lowered::Failed(CompileError::Unsupported(Unsupported::MethodDefinition))
    } else if fuel == 0 {
        Lowered::Unknown
    } else {
        match new_prototype((fuel - 1) as nat, nest, function.definition) {
            Lowered::Done(made, proto) => match get_environment(made) {
                Lowered::Done(found, env) => match closure_in_new(found, proto) {
                    Lowered::Done(closed, dest) => write_field(
                        fuel,
                        closed,
                        env,
                        OperandView::Value(ValueView::String(function.name.name@)),
                        OperandView::Register { register: dest, is_temporary: true },
                    ),
                    Lowered::Failed(e) => Lowered::Failed(e),
                    Lowered::Unknown => Lowered::Unknown,
                },
                Lowered::Failed(e) => Lowered::Failed(e),
                Lowered::Unknown => Lowered::Unknown,
            },
            Lowered::Failed(e) => Lowered::Failed(e),
            Lowered::Unknown => Lowered::Unknown,
        }
    }
}

/// The declaration of a local function: a closure is made of the function
/// in a new register, which becomes the local of the function's name.
pub open spec fn local_function(fuel: nat, nest: Seq<FrameView>, function: FunctionStatement) -> Lowered<
    (),
>
    decreases fuel, 350nat, 0nat,
{
    if function.name.fields@.len() > 0 {
        Lowered::Failed(CompileError::Unsupported(Unsupported::FunctionNameFields))
    } else if function.name.method.is_some() {
        Lowered::Failed(CompileError::Unsupported(Unsupported::MethodDefinition))
    } else if fuel == 0 {
        Lowered::Unknown
    } else {
        match new_prototype((fuel - 1) as nat, nest, function.definition) {
            Lowered::Done(made, proto) => match closure_in_new(made, proto) {
                Lowered::Done(closed, dest) => Lowered::Done(
                    with_top(closed, closed.last().bind_local(function.name.name@, dest)),
                    (),
                ),
                Lowered::Failed(e) => Lowered::Failed(e),
                Lowered::Unknown => Lowered::Unknown,
            },
            Lowered::Failed(e) => Lowered::Failed(e),
            Lowered::Unknown => Lowered::Unknown,
        }
    }
}

/// The nest once the values from `start` upwards have been returned.
pub open spec fn values_returned(nest: Seq<FrameView>, start: RegisterIndex, count: VarCount) -> Seq<
    FrameView,
> {
    let returned = emitted(nest, OpCode::Return { start, count });
    with_top(returned, returned.last().pop_to(start.0 as int))
}

/// The last of `count` returned values pushed on the stack, with the count
/// to return: where the value is a call, all its results are returned.
pub open spec fn last_pushed(fuel: nat, nest: Seq<FrameView>, value: OperandView, count: int) -> Lowered<
    VarCount,
>
    decreases fuel, 343nat, 0nat,
{
    if value is FunctionCall {
        match function_call(
            fuel,
            nest,
            *value->FunctionCall_func,
            value->FunctionCall_args,
            VarCount(0),
        ) {
            Lowered::Done(called, _) => Lowered::Done(called, VarCount(0)),
            Lowered::Failed(e) => Lowered::Failed(e),
            Lowered::Unknown => Lowered::Unknown,
        }
    } else {
        match discharge(fuel, nest, value, ExprDestination::PushNew) {
            Lowered::Done(all, _) => if count >= 255 {
                Lowered::Failed(CompileError::Limit(CompilerLimit::Returns))
            } else {
                Lowered::Done(all, VarCount((count + 1) as u8))
            },
            Lowered::Failed(e) => Lowered::Failed(e),
            Lowered::Unknown => Lowered::Unknown,
        }
    }
}

/// The last of `count` returned values compiled and pushed on the stack,
/// and the values from `start` upwards returned.
pub open spec fn last_returned(
    fuel: nat,
    nest: Seq<FrameView>,
    last: Expression,
    count: int,
    start: RegisterIndex,
) -> Lowered<()>
    decreases fuel, 344nat, 0nat,
{
    match expression(fuel, nest, last) {
        Lowered::Done(compiled, value) => match last_pushed(fuel, compiled, value, count) {
            Lowered::Done(all, counted) => Lowered::Done(values_returned(all, start, counted), ()),
            Lowered::Failed(e) => Lowered::Failed(e),
            Lowered::Unknown => Lowered::Unknown,
        },
        Lowered::Failed(e) => Lowered::Failed(e),
        Lowered::Unknown => Lowered::Unknown,
    }
}

/// A return statement from the value `i` on. The values are pushed on the
/// stack, in order; where the last one is a call, all its results are
/// returned. The registers from `start` upwards are free again after.
pub open spec fn returned_from(
    fuel: nat,
    nest: Seq<FrameView>,
    statement: ReturnStatement,
    start: RegisterIndex,
    i: int,
) -> Lowered<()>
    decreases fuel, 345nat, statement.returns@.len() - i,
{
    let values = statement.returns@;
    let count = values.len();
    if i < 0 || i >= count {
        Lowered::Unknown
    } else if i < count - 1 {
        match expression(fuel, nest, values[i]) {
            Lowered::Done(compiled, value) => match discharge(
                fuel,
                compiled,
                value,
                ExprDestination::PushNew,
            ) {
                Lowered::Done(after, _) => returned_from(fuel, after, statement, start, i + 1),
                Lowered::Failed(e) => Lowered::Failed(e),
                Lowered::Unknown => Lowered::Unknown,
            },
            Lowered::Failed(e) => Lowered::Failed(e),
            Lowered::Unknown => Lowered::Unknown,
        }
    } else {
        last_returned(fuel, nest, values[i], count as int, start)
    }
}

/// A return statement. Without values it returns nothing.
pub open spec fn return_statement(fuel: nat, nest: Seq<FrameView>, statement: ReturnStatement) -> Lowered<
    (),
>
    decreases fuel, 350nat, 0nat,
{
    if statement.returns@.len() == 0 {
        Lowered::Done(
            emitted(nest, OpCode::Return { start: RegisterIndex(0), count: VarCount(1) }),
            (),
        )
    } else if nest.last().stack_top > 255 {
        Lowered::Failed(CompileError::Limit(CompilerLimit::Registers))
    } else {
        returned_from(fuel, nest, statement, RegisterIndex(nest.last().stack_top as u8), 0)
    }
}

/// The locals from `i` on declared as nil, each in the lowest free
/// register.
pub open spec fn nils_from(nest: Seq<FrameView>, names: Seq<Vec<u8>>, i: int) -> Lowered<()>
    decreases names.len() - i,
{
    if i >= names.len() || i < 0 {
        Lowered::Done(nest, ())
    } else {
        match nest.last().take_register() {
            Err(e) => Lowered::Failed(e),
            Ok((frame, register)) => nils_from(
                with_top(nest, frame.store_nil(register).bind_local(names[i]@, register)),
                names,
                i + 1,
            ),
        }
    }
}

/// The `count` names from `i` on as locals in the registers from `first`
/// upwards.
pub open spec fn results_bound(
    frame: FrameView,
    names: Seq<Vec<u8>>,
    i: int,
    first: RegisterIndex,
    count: int,
) -> FrameView {
    FrameView {
        locals: frame.locals + Seq::new(
            count as nat,
            |j: int| (names[i + j]@, RegisterIndex((first.0 + j) as u8)),
        ),
        ..frame
    }
}

/// The declaration of locals, from the value `i` on. Each value goes to a
/// new register that becomes the local of the same position; where the last
/// value is a call, its results fill the locals from its position on.
/// Values without a local are evaluated and dropped; locals without a value
/// are nil.
pub open spec fn local_statement(fuel: nat, nest: Seq<FrameView>, statement: LocalStatement, i: int) -> Lowered<
    (),
>
    decreases fuel, 350nat, statement.values@.len() - i,
{
    let names = statement.names@;
    let values = statement.values@;
    if i >= values.len() || i < 0 {
        nils_from(nest, names, i)
    } else {
        match expression(fuel, nest, values[i]) {
            Lowered::Done(compiled, value) => if i >= names.len() {
                match discharge(fuel, compiled, value, ExprDestination::Nowhere) {
                    Lowered::Done(after, _) => local_statement(fuel, after, statement, i + 1),
                    Lowered::Failed(e) => Lowered::Failed(e),
                    Lowered::Unknown => Lowered::Unknown,
                }
            } else if i == values.len() - 1 && value is FunctionCall {
                let count = names.len() - values.len() + 1;
                if count > 255 {
                    Lowered::Failed(CompileError::Limit(CompilerLimit::Registers))
                } else if count == 255 {
                    Lowered::Failed(CompileError::Limit(CompilerLimit::Returns))
                } else {
                    match function_call(
                        fuel,
                        compiled,
                        *value->FunctionCall_func,
                        value->FunctionCall_args,
                        VarCount((count + 1) as u8),
                    ) {
                        Lowered::Done(called, _) => match called.last().take_top(count) {
                            Err(e) => Lowered::Failed(e),
                            Ok((frame, first)) => Lowered::Done(
                                with_top(called, results_bound(frame, names, i, first, count)),
                                (),
                            ),
                        },
                        Lowered::Failed(e) => Lowered::Failed(e),
                        Lowered::Unknown => Lowered::Unknown,
                    }
                }
            } else {
                match discharge(fuel, compiled, value, ExprDestination::AllocateNew) {
                    Lowered::Done(placed, register) => local_statement(
                        fuel,
                        with_top(placed, placed.last().bind_local(names[i]@, register.unwrap())),
                        statement,
                        i + 1,
                    ),
                    Lowered::Failed(e) => Lowered::Failed(e),
                    Lowered::Unknown => Lowered::Unknown,
                }
            },
            Lowered::Failed(e) => Lowered::Failed(e),
            Lowered::Unknown => Lowered::Unknown,
        }
    }
}

/// A call that stands as a statement: its results are dropped.
pub open spec fn call_statement(fuel: nat, nest: Seq<FrameView>, call: FunctionCallStatement) -> Lowered<
    (),
>
    decreases fuel, 350nat, 0nat,
{
    match suffixed_expression(fuel, nest, call.head) {
        Lowered::Done(after, func) => match call.call {
            CallSuffix::Function(args) => match expressions_from(
                fuel,
                after,
                args@,
                0,
                Seq::empty(),
            ) {
                Lowered::Done(compiled, values) => match function_call(
                    fuel,
                    compiled,
                    func,
                    values,
                    VarCount(1),
                ) {
                    Lowered::Done(called, _) => Lowered::Done(called, ()),
                    Lowered::Failed(e) => Lowered::Failed(e),
                    Lowered::Unknown => Lowered::Unknown,
                },
                Lowered::Failed(e) => Lowered::Failed(e),
                Lowered::Unknown => Lowered::Unknown,
            },
            CallSuffix::Method(_, _) => Lowered::Failed(
                CompileError::Unsupported(Unsupported::MethodCall),
            ),
        },
        Lowered::Failed(e) => Lowered::Failed(e),
        Lowered::Unknown => Lowered::Unknown,
    }
}

/// A value given to one target: a local by placing it in the local's
/// register, an upvalue by `SetUpValue`, a global and a field by a write to
/// the table.
pub open spec fn assigned(
    fuel: nat,
    nest: Seq<FrameView>,
    target: AssignmentTarget,
    value: OperandView,
) -> Lowered<()>
    decreases fuel, 340nat, 0nat,
{
    match target {
        AssignmentTarget::Name(name) => match find_variable(nest, name@) {
            Lowered::Done(found, VariableView::Local(dest)) => match discharge(
                fuel,
                found,
                value,
                ExprDestination::Register(dest),
            ) {
                Lowered::Done(after, _) => Lowered::Done(after, ()),
                Lowered::Failed(e) => Lowered::Failed(e),
                Lowered::Unknown => Lowered::Unknown,
            },
            Lowered::Done(found, VariableView::UpValue(dest)) => match any_register(
                fuel,
                found,
                value,
            ) {
                Lowered::Done(held, (operand, source)) => match discharge(
                    fuel,
                    emitted(held, OpCode::SetUpValue { source, dest }),
                    operand,
                    ExprDestination::Nowhere,
                ) {
                    Lowered::Done(after, _) => Lowered::Done(after, ()),
                    Lowered::Failed(e) => Lowered::Failed(e),
                    Lowered::Unknown => Lowered::Unknown,
                },
                Lowered::Failed(e) => Lowered::Failed(e),
                Lowered::Unknown => Lowered::Unknown,
            },
            Lowered::Done(found, VariableView::Global(global)) => match get_environment(found) {
                Lowered::Done(after, env) => write_field(
                    fuel,
                    after,
                    env,
                    OperandView::Value(ValueView::String(global)),
                    value,
                ),
                Lowered::Failed(e) => Lowered::Failed(e),
                Lowered::Unknown => Lowered::Unknown,
            },
            Lowered::Failed(e) => Lowered::Failed(e),
            Lowered::Unknown => Lowered::Unknown,
        },
        AssignmentTarget::Field(table, field) => match suffixed_expression(fuel, nest, table) {
            Lowered::Done(after, table_operand) => match field {
                FieldSuffix::Named(name) => write_field(
                    fuel,
                    after,
                    table_operand,
                    OperandView::Value(ValueView::String(name@)),
                    value,
                ),
                FieldSuffix::Indexed(index) => match expression(fuel, after, index) {
                    Lowered::Done(keyed, key) => write_field(fuel, keyed, table_operand, key, value),
                    Lowered::Failed(e) => Lowered::Failed(e),
                    Lowered::Unknown => Lowered::Unknown,
                },
            },
            Lowered::Failed(e) => Lowered::Failed(e),
            Lowered::Unknown => Lowered::Unknown,
        },
    }
}

/// An assignment, from the target `i` on. Each target gets the value of its
/// position, or nil where there is none.
pub open spec fn assignment(fuel: nat, nest: Seq<FrameView>, statement: AssignmentStatement, i: int) -> Lowered<
    (),
>
    decreases fuel, 350nat, statement.targets@.len() - i,
{
    if i >= statement.targets@.len() || i < 0 {
        Lowered::Done(nest, ())
    } else {
        let value = if i < statement.values@.len() {
            expression(fuel, nest, statement.values@[i])
        } else {
            Lowered::Done(nest, OperandView::Value(ValueView::Nil))
        };
        match value {
            Lowered::Done(compiled, operand) => match assigned(
                fuel,
                compiled,
                statement.targets@[i],
                operand,
            ) {
                Lowered::Done(after, _) => assignment(fuel, after, statement, i + 1),
                Lowered::Failed(e) => Lowered::Failed(e),
                Lowered::Unknown => Lowered::Unknown,
            },
            Lowered::Failed(e) => Lowered::Failed(e),
            Lowered::Unknown => Lowered::Unknown,
        }
    }
}

/// A chunk compiled into the prototype of its outermost function.
pub open spec fn compiled(fuel: nat, chunk: Chunk) -> Lowered<ProtoView> {
    match function_body(fuel, seq![empty_frame()], chunk.block) {
        Lowered::Done(after, _) => Lowered::Done(after, after.last().to_proto()),
        Lowered::Failed(e) => Lowered::Failed(e),
        Lowered::Unknown => Lowered::Unknown,
    }
}

} // verus!
