//! The operator tables: which operators the code generator lowers, how each
//! is evaluated on constant operands, and which instructions it becomes.

use vstd::prelude::*;
use crate::ast::{BinaryOperator, UnaryOperator};
use crate::opcode::{BinOpArgs, OpCode, RegisterIndex};
use crate::value::{Value, ValueView};

verus! {

#[derive(Clone, Copy, Debug, PartialEq, Eq, Structural, Hash)]
pub enum SimpleBinOp {
    Add,
    Sub,
    Mul,
    Mod,
    Pow,
    Div,
    IDiv,
    BitAnd,
    BitOr,
    BitXor,
    ShiftLeft,
    ShiftRight,
}

#[derive(Clone, Copy, Debug, PartialEq, Eq, Structural, Hash)]
pub enum ComparisonBinOp {
    NotEqual,
    Equal,
    LessThan,
    LessEqual,
    GreaterThan,
    GreaterEqual,
}

#[derive(Clone, Copy, Debug, PartialEq, Eq, Structural, Hash)]
pub enum ShortCircuitBinOp {
    And,
    Or,
}

#[derive(Clone, Copy, Debug, PartialEq, Eq, Structural, Hash)]
pub enum BinOpCategory {
    Simple(SimpleBinOp),
    Comparison(ComparisonBinOp),
    ShortCircuit(ShortCircuitBinOp),
    Concat,
}

pub open spec fn binop_category(binop: BinaryOperator) -> BinOpCategory {
    match binop {
        BinaryOperator::Add => BinOpCategory::Simple(SimpleBinOp::Add),
        BinaryOperator::Sub => BinOpCategory::Simple(SimpleBinOp::Sub),
        BinaryOperator::Mul => BinOpCategory::Simple(SimpleBinOp::Mul),
        BinaryOperator::Mod => BinOpCategory::Simple(SimpleBinOp::Mod),
        BinaryOperator::Pow => BinOpCategory::Simple(SimpleBinOp::Pow),
        BinaryOperator::Div => BinOpCategory::Simple(SimpleBinOp::Div),
        BinaryOperator::IDiv => BinOpCategory::Simple(SimpleBinOp::IDiv),
        BinaryOperator::BitAnd => BinOpCategory::Simple(SimpleBinOp::BitAnd),
        BinaryOperator::BitOr => BinOpCategory::Simple(SimpleBinOp::BitOr),
        BinaryOperator::BitXor => BinOpCategory::Simple(SimpleBinOp::BitXor),
        BinaryOperator::ShiftLeft => BinOpCategory::Simple(SimpleBinOp::ShiftLeft),
        BinaryOperator::ShiftRight => BinOpCategory::Simple(SimpleBinOp::ShiftRight),
        BinaryOperator::Concat => BinOpCategory::Concat,
        BinaryOperator::NotEqual => BinOpCategory::Comparison(ComparisonBinOp::NotEqual),
        BinaryOperator::Equal => BinOpCategory::Comparison(ComparisonBinOp::Equal),
        BinaryOperator::LessThan => BinOpCategory::Comparison(ComparisonBinOp::LessThan),
        BinaryOperator::LessEqual => BinOpCategory::Comparison(ComparisonBinOp::LessEqual),
        BinaryOperator::GreaterThan => BinOpCategory::Comparison(ComparisonBinOp::GreaterThan),
        BinaryOperator::GreaterEqual => BinOpCategory::Comparison(ComparisonBinOp::GreaterEqual),
        BinaryOperator::And => BinOpCategory::ShortCircuit(ShortCircuitBinOp::And),
        BinaryOperator::Or => BinOpCategory::ShortCircuit(ShortCircuitBinOp::Or),
    }
}

pub fn categorize_binop(binop: BinaryOperator) -> (r: BinOpCategory)
    ensures
        r == binop_category(binop),
{
    match binop {
        BinaryOperator::Add => BinOpCategory::Simple(SimpleBinOp::Add),
        BinaryOperator::Sub => BinOpCategory::Simple(SimpleBinOp::Sub),
        BinaryOperator::Mul => BinOpCategory::Simple(SimpleBinOp::Mul),
        BinaryOperator::Mod => BinOpCategory::Simple(SimpleBinOp::Mod),
        BinaryOperator::Pow => BinOpCategory::Simple(SimpleBinOp::Pow),
        BinaryOperator::Div => BinOpCategory::Simple(SimpleBinOp::Div),
        BinaryOperator::IDiv => BinOpCategory::Simple(SimpleBinOp::IDiv),
        BinaryOperator::BitAnd => BinOpCategory::Simple(SimpleBinOp::BitAnd),
        BinaryOperator::BitOr => BinOpCategory::Simple(SimpleBinOp::BitOr),
        BinaryOperator::BitXor => BinOpCategory::Simple(SimpleBinOp::BitXor),
        BinaryOperator::ShiftLeft => BinOpCategory::Simple(SimpleBinOp::ShiftLeft),
        BinaryOperator::ShiftRight => BinOpCategory::Simple(SimpleBinOp::ShiftRight),
        BinaryOperator::Concat => BinOpCategory::Concat,
        BinaryOperator::NotEqual => BinOpCategory::Comparison(ComparisonBinOp::NotEqual),
        BinaryOperator::Equal => BinOpCategory::Comparison(ComparisonBinOp::Equal),
        BinaryOperator::LessThan => BinOpCategory::Comparison(ComparisonBinOp::LessThan),
        BinaryOperator::LessEqual => BinOpCategory::Comparison(ComparisonBinOp::LessEqual),
        BinaryOperator::GreaterThan => BinOpCategory::Comparison(ComparisonBinOp::GreaterThan),
        BinaryOperator::GreaterEqual => BinOpCategory::Comparison(ComparisonBinOp::GreaterEqual),
        BinaryOperator::And => BinOpCategory::ShortCircuit(ShortCircuitBinOp::And),
        BinaryOperator::Or => BinOpCategory::ShortCircuit(ShortCircuitBinOp::Or),
    }
}

/// The view of an optional value.
pub open spec fn option_view(v: Option<Value>) -> Option<ValueView> {
    match v {
        Some(v) => Some(v@),
        None => None,
    }
}

/// Whether the table of unary operators has an entry for `op`.
pub open spec fn unop_in_table(op: UnaryOperator) -> bool {
    op == UnaryOperator::Not || op == UnaryOperator::Minus
}

/// Whether the table of simple binary operators has an entry for `op`.
pub open spec fn simple_binop_in_table(op: SimpleBinOp) -> bool {
    op == SimpleBinOp::Add || op == SimpleBinOp::Sub || op == SimpleBinOp::Mul
}

/// Whether a constant counts as true in a test: every value but nil and
/// false does.
pub open spec fn truthy(v: ValueView) -> bool {
    v != ValueView::Nil && v != ValueView::Boolean(false)
}

/// The sign bit of a 64-bit float.
pub const SIGN_BIT: u64 = 0x8000_0000_0000_0000;

/// What a unary operator yields on a constant operand, where that is known
/// without running the program: `not` on any constant, the negation of an
/// integer (which wraps round) and of a float (whose sign bit flips).
pub open spec fn unop_folded(op: UnaryOperator, v: ValueView) -> Option<ValueView> {
    match (op, v) {
        (UnaryOperator::Not, v) => Some(ValueView::Boolean(!truthy(v))),
        (UnaryOperator::Minus, ValueView::Integer(i)) => Some(
            ValueView::Integer(0i64.wrapping_sub(i)),
        ),
        (UnaryOperator::Minus, ValueView::Number(n)) => Some(ValueView::Number(n ^ SIGN_BIT)),
        _ => None,
    }
}

/// What a simple binary operator yields on two constant operands, where that
/// is known without running the program: the sum, difference and product of
/// two integers, each wrapping round.
pub open spec fn simple_binop_folded(op: SimpleBinOp, a: ValueView, b: ValueView) -> Option<
    ValueView,
> {
    match (op, a, b) {
        (SimpleBinOp::Add, ValueView::Integer(a), ValueView::Integer(b)) => Some(
            ValueView::Integer(a.wrapping_add(b)),
        ),
        (SimpleBinOp::Sub, ValueView::Integer(a), ValueView::Integer(b)) => Some(
            ValueView::Integer(a.wrapping_sub(b)),
        ),
        (SimpleBinOp::Mul, ValueView::Integer(a), ValueView::Integer(b)) => Some(
            ValueView::Integer(a.wrapping_mul(b)),
        ),
        _ => None,
    }
}

/// What a comparison yields on two constant operands, where that is known
/// without running the program: the order of two integers.
pub open spec fn comparison_binop_folded(op: ComparisonBinOp, a: ValueView, b: ValueView) -> Option<
    ValueView,
> {
    match (a, b) {
        (ValueView::Integer(a), ValueView::Integer(b)) => Some(
            ValueView::Boolean(
                match op {
                    ComparisonBinOp::NotEqual => a != b,
                    ComparisonBinOp::Equal => a == b,
                    ComparisonBinOp::LessThan => a < b,
                    ComparisonBinOp::LessEqual => a <= b,
                    ComparisonBinOp::GreaterThan => a > b,
                    ComparisonBinOp::GreaterEqual => a >= b,
                },
            ),
        ),
        _ => None,
    }
}

/// Evaluates a unary operator on a constant operand, if the table has the
/// operator and the operand's type admits it.
pub fn fold_unop(op: UnaryOperator, v: &Value) -> (r: Option<Value>)
    ensures
        option_view(r) == unop_folded(op, v@),
{
    match op {
        UnaryOperator::Not => match v {
            Value::Nil => Some(Value::Boolean(true)),
            Value::Boolean(b) => Some(Value::Boolean(!*b)),
            _ => Some(Value::Boolean(false)),
        },
        UnaryOperator::Minus => match v {
            Value::Integer(i) => Some(Value::Integer(0i64.wrapping_sub(*i))),
            Value::Number(n) => Some(Value::Number(*n ^ SIGN_BIT)),
            _ => None,
        },
        _ => None,
    }
}

/// Evaluates a simple binary operator on two constant operands, if the table
/// has the operator and the operands' types admit it.
pub fn fold_simple_binop(op: SimpleBinOp, a: &Value, b: &Value) -> (r: Option<Value>)
    ensures
        option_view(r) == simple_binop_folded(op, a@, b@),
{
    match (a, b) {
        (Value::Integer(a), Value::Integer(b)) => match op {
            SimpleBinOp::Add => Some(Value::Integer(a.wrapping_add(*b))),
            SimpleBinOp::Sub => Some(Value::Integer(a.wrapping_sub(*b))),
            SimpleBinOp::Mul => Some(Value::Integer(a.wrapping_mul(*b))),
            _ => None,
        },
        _ => None,
    }
}

/// Evaluates a comparison on two constant operands, if the operands' types
/// admit it.
pub fn fold_comparison_binop(op: ComparisonBinOp, a: &Value, b: &Value) -> (r: Option<Value>)
    ensures
        option_view(r) == comparison_binop_folded(op, a@, b@),
{
    match (a, b) {
        (Value::Integer(a), Value::Integer(b)) => Some(
            Value::Boolean(
                match op {
                    ComparisonBinOp::NotEqual => *a != *b,
                    ComparisonBinOp::Equal => *a == *b,
                    ComparisonBinOp::LessThan => *a < *b,
                    ComparisonBinOp::LessEqual => *a <= *b,
                    ComparisonBinOp::GreaterThan => *a > *b,
                    ComparisonBinOp::GreaterEqual => *a >= *b,
                },
            ),
        ),
        _ => None,
    }
}

/// The instruction that applies a unary operator of the table.
pub open spec fn unop_instruction(
    op: UnaryOperator,
    dest: RegisterIndex,
    source: RegisterIndex,
) -> OpCode {
    if op == UnaryOperator::Not {
        OpCode::Not { dest, source }
    } else {
        OpCode::Minus { dest, source }
    }
}

pub fn unop_opcode(op: UnaryOperator, dest: RegisterIndex, source: RegisterIndex) -> (r: Option<
    OpCode,
>)
    ensures
        r == if unop_in_table(op) {
            Some(unop_instruction(op, dest, source))
        } else {
            None
        },
{
    match op {
        UnaryOperator::Not => Some(OpCode::Not { dest, source }),
        UnaryOperator::Minus => Some(OpCode::Minus { dest, source }),
        _ => None,
    }
}

/// The instruction that applies a simple binary operator of the table.
pub open spec fn simple_binop_instruction(
    op: SimpleBinOp,
    dest: RegisterIndex,
    args: BinOpArgs,
) -> OpCode {
    if op == SimpleBinOp::Add {
        OpCode::Add { dest, args }
    } else if op == SimpleBinOp::Sub {
        OpCode::Sub { dest, args }
    } else {
        OpCode::Mul { dest, args }
    }
}

pub fn simple_binop_opcode(op: SimpleBinOp, dest: RegisterIndex, args: BinOpArgs) -> (r: Option<
    OpCode,
>)
    ensures
        r == if simple_binop_in_table(op) {
            Some(simple_binop_instruction(op, dest, args))
        } else {
            None
        },
{
    match op {
        SimpleBinOp::Add => Some(OpCode::Add { dest, args }),
        SimpleBinOp::Sub => Some(OpCode::Sub { dest, args }),
        SimpleBinOp::Mul => Some(OpCode::Mul { dest, args }),
        _ => None,
    }
}

/// The instruction that compares for `op`. "Greater" is "less" with the
/// operands swapped; "not equal" is "equal" with the outcome inverted.
pub open spec fn comparison_test(op: ComparisonBinOp, args: BinOpArgs) -> OpCode {
    match op {
        ComparisonBinOp::Equal => OpCode::Eq { skip_if: true, args },
        ComparisonBinOp::NotEqual => OpCode::Eq { skip_if: false, args },
        ComparisonBinOp::LessThan => OpCode::Less { skip_if: true, args },
        ComparisonBinOp::LessEqual => OpCode::LessEqual { skip_if: true, args },
        ComparisonBinOp::GreaterThan => OpCode::Less { skip_if: true, args: args.swapped() },
        ComparisonBinOp::GreaterEqual => OpCode::LessEqual { skip_if: true, args: args.swapped() },
    }
}

/// The four instructions that leave the outcome of a comparison in `dest`:
/// the test, which skips the jump when the comparison holds; the jump to the
/// load of `false`; the load of `true`, which skips the next; the load of
/// `false`.
pub open spec fn comparison_instructions(
    op: ComparisonBinOp,
    dest: RegisterIndex,
    args: BinOpArgs,
) -> Seq<
    OpCode,
> {
    seq![
        comparison_test(op, args),
        OpCode::Jump { offset: 1 },
        OpCode::LoadBool { dest, value: true, skip_next: true },
        OpCode::LoadBool { dest, value: false, skip_next: false },
    ]
}

pub fn comparison_binop_opcodes(
    op: ComparisonBinOp,
    dest: RegisterIndex,
    args: BinOpArgs,
) -> (r: [OpCode; 4])
    ensures
        r@ == comparison_instructions(op, dest, args),
{
    let test = match op {
        ComparisonBinOp::Equal => OpCode::Eq { skip_if: true, args },
        ComparisonBinOp::NotEqual => OpCode::Eq { skip_if: false, args },
        ComparisonBinOp::LessThan => OpCode::Less { skip_if: true, args },
        ComparisonBinOp::LessEqual => OpCode::LessEqual { skip_if: true, args },
        ComparisonBinOp::GreaterThan => OpCode::Less { skip_if: true, args: args.swap() },
        ComparisonBinOp::GreaterEqual => OpCode::LessEqual { skip_if: true, args: args.swap() },
    };
    let r = [
        test,
        OpCode::Jump { offset: 1 },
        OpCode::LoadBool { dest, value: true, skip_next: true },
        OpCode::LoadBool { dest, value: false, skip_next: false },
    ];
    assert(r@ =~= comparison_instructions(op, dest, args));
    r
}

} // verus!
