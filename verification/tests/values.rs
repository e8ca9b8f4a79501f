use lua_codegen::ast::{BinaryOperator, UnaryOperator};
use lua_codegen::opcode::{BinOpArgs, ConstantIndex8, OpCode, RegisterIndex, VarCount};
use lua_codegen::operators::{
    categorize_binop, comparison_binop_opcodes, fold_comparison_binop, fold_simple_binop,
    fold_unop, simple_binop_opcode, unop_opcode, BinOpCategory, ComparisonBinOp,
    ShortCircuitBinOp, SimpleBinOp,
};
use lua_codegen::value::{bytes_equal, copy_bytes, ConstantValue, Value};

#[test]
fn constant_values_compare_bit_for_bit() {
    let nan = f64::NAN.to_bits();
    let other_nan = nan ^ 1;
    assert!(ConstantValue(Value::Number(nan)).eq(&ConstantValue(Value::Number(nan))));
    assert!(!ConstantValue(Value::Number(nan)).eq(&ConstantValue(Value::Number(other_nan))));
    let zero = 0.0f64.to_bits();
    let negative_zero = (-0.0f64).to_bits();
    assert!(!ConstantValue(Value::Number(zero)).eq(&ConstantValue(Value::Number(negative_zero))));
    assert!(ConstantValue(Value::Number(zero)).eq(&ConstantValue(Value::Number(zero))));
}

#[test]
fn constant_values_of_different_kinds_differ() {
    let values = vec![
        Value::Nil,
        Value::Boolean(false),
        Value::Boolean(true),
        Value::Integer(0),
        Value::Number(0),
        Value::String(vec![]),
        Value::String(vec![0]),
        Value::Table(0),
        Value::Closure(0),
    ];
    for (i, a) in values.iter().enumerate() {
        for (j, b) in values.iter().enumerate() {
            assert_eq!(
                ConstantValue(a.clone()).eq(&ConstantValue(b.clone())),
                i == j,
                "{:?} against {:?}",
                a,
                b
            );
        }
    }
}

#[test]
fn strings_compare_by_their_bytes() {
    let a = ConstantValue(Value::String(b"print".to_vec()));
    let b = ConstantValue(Value::String(b"print".to_vec()));
    let c = ConstantValue(Value::String(b"prins".to_vec()));
    let d = ConstantValue(Value::String(b"prin".to_vec()));
    assert!(a.eq(&b));
    assert!(!a.eq(&c));
    assert!(!a.eq(&d));
}

#[test]
fn bytes_are_copied_and_compared() {
    let a = vec![1u8, 2, 3];
    let b = copy_bytes(&a);
    assert_eq!(a, b);
    assert!(bytes_equal(&a, &b));
    assert!(!bytes_equal(&a, &vec![1, 2]));
    assert!(!bytes_equal(&a, &vec![1, 2, 4]));
    assert!(bytes_equal(&vec![], &vec![]));
}

#[test]
fn duplicate_is_equal_to_the_value() {
    for v in vec![
        Value::Nil,
        Value::Boolean(true),
        Value::Integer(-5),
        Value::Number(1.5f64.to_bits()),
        Value::String(b"abc".to_vec()),
        Value::Table(9),
        Value::Closure(3),
    ] {
        assert_eq!(v.duplicate(), v);
    }
}

#[test]
fn var_count_encodes_counts() {
    assert!(VarCount::make_variable().is_variable());
    assert_eq!(VarCount::make_variable().get_constant(), None);
    assert_eq!(VarCount::make_zero().get_constant(), Some(0));
    assert_eq!(VarCount::make_one().get_constant(), Some(1));
    assert_eq!(VarCount::make_constant(0), Some(VarCount::make_zero()));
    assert_eq!(VarCount::make_constant(1), Some(VarCount::make_one()));
    assert_eq!(VarCount::make_constant(254).unwrap().get_constant(), Some(254));
    assert_eq!(VarCount::make_constant(255), None);
    assert!(!VarCount::make_zero().is_variable());
    assert_eq!(VarCount::make_variable().0, 0);
    assert_eq!(VarCount::make_constant(7).unwrap().0, 8);
}

#[test]
fn binary_operators_fall_in_four_categories() {
    assert_eq!(categorize_binop(BinaryOperator::Add), BinOpCategory::Simple(SimpleBinOp::Add));
    assert_eq!(categorize_binop(BinaryOperator::Sub), BinOpCategory::Simple(SimpleBinOp::Sub));
    assert_eq!(categorize_binop(BinaryOperator::Mul), BinOpCategory::Simple(SimpleBinOp::Mul));
    assert_eq!(categorize_binop(BinaryOperator::Mod), BinOpCategory::Simple(SimpleBinOp::Mod));
    assert_eq!(categorize_binop(BinaryOperator::Pow), BinOpCategory::Simple(SimpleBinOp::Pow));
    assert_eq!(categorize_binop(BinaryOperator::Div), BinOpCategory::Simple(SimpleBinOp::Div));
    assert_eq!(categorize_binop(BinaryOperator::IDiv), BinOpCategory::Simple(SimpleBinOp::IDiv));
    assert_eq!(
        categorize_binop(BinaryOperator::BitAnd),
        BinOpCategory::Simple(SimpleBinOp::BitAnd)
    );
    assert_eq!(categorize_binop(BinaryOperator::BitOr), BinOpCategory::Simple(SimpleBinOp::BitOr));
    assert_eq!(
        categorize_binop(BinaryOperator::BitXor),
        BinOpCategory::Simple(SimpleBinOp::BitXor)
    );
    assert_eq!(
        categorize_binop(BinaryOperator::ShiftLeft),
        BinOpCategory::Simple(SimpleBinOp::ShiftLeft)
    );
    assert_eq!(
        categorize_binop(BinaryOperator::ShiftRight),
        BinOpCategory::Simple(SimpleBinOp::ShiftRight)
    );
    assert_eq!(categorize_binop(BinaryOperator::Concat), BinOpCategory::Concat);
    assert_eq!(
        categorize_binop(BinaryOperator::Equal),
        BinOpCategory::Comparison(ComparisonBinOp::Equal)
    );
    assert_eq!(
        categorize_binop(BinaryOperator::NotEqual),
        BinOpCategory::Comparison(ComparisonBinOp::NotEqual)
    );
    assert_eq!(
        categorize_binop(BinaryOperator::LessThan),
        BinOpCategory::Comparison(ComparisonBinOp::LessThan)
    );
    assert_eq!(
        categorize_binop(BinaryOperator::LessEqual),
        BinOpCategory::Comparison(ComparisonBinOp::LessEqual)
    );
    assert_eq!(
        categorize_binop(BinaryOperator::GreaterThan),
        BinOpCategory::Comparison(ComparisonBinOp::GreaterThan)
    );
    assert_eq!(
        categorize_binop(BinaryOperator::GreaterEqual),
        BinOpCategory::Comparison(ComparisonBinOp::GreaterEqual)
    );
    assert_eq!(
        categorize_binop(BinaryOperator::And),
        BinOpCategory::ShortCircuit(ShortCircuitBinOp::And)
    );
    assert_eq!(
        categorize_binop(BinaryOperator::Or),
        BinOpCategory::ShortCircuit(ShortCircuitBinOp::Or)
    );
}

#[test]
fn integer_arithmetic_folds_and_wraps() {
    let a = Value::Integer(i64::MAX);
    let b = Value::Integer(1);
    assert_eq!(fold_simple_binop(SimpleBinOp::Add, &a, &b), Some(Value::Integer(i64::MIN)));
    assert_eq!(
        fold_simple_binop(SimpleBinOp::Sub, &Value::Integer(i64::MIN), &b),
        Some(Value::Integer(i64::MAX))
    );
    assert_eq!(
        fold_simple_binop(SimpleBinOp::Mul, &Value::Integer(6), &Value::Integer(-7)),
        Some(Value::Integer(-42))
    );
    assert_eq!(
        fold_simple_binop(SimpleBinOp::Mul, &a, &Value::Integer(2)),
        Some(Value::Integer(-2))
    );
    assert_eq!(
        fold_simple_binop(SimpleBinOp::Add, &Value::Integer(1), &Value::Integer(2)),
        Some(Value::Integer(3))
    );
}

#[test]
fn arithmetic_does_not_fold_other_operands() {
    let one = Value::Integer(1);
    assert_eq!(fold_simple_binop(SimpleBinOp::Add, &one, &Value::Nil), None);
    assert_eq!(fold_simple_binop(SimpleBinOp::Add, &Value::String(vec![b'1']), &one), None);
    assert_eq!(
        fold_simple_binop(
            SimpleBinOp::Add,
            &Value::Number(1.0f64.to_bits()),
            &Value::Number(2.0f64.to_bits())
        ),
        None
    );
    assert_eq!(fold_simple_binop(SimpleBinOp::Div, &one, &one), None);
    assert_eq!(fold_simple_binop(SimpleBinOp::BitXor, &one, &one), None);
}

#[test]
fn comparisons_fold_on_integers() {
    let two = Value::Integer(2);
    let three = Value::Integer(3);
    let t = Some(Value::Boolean(true));
    let f = Some(Value::Boolean(false));
    assert_eq!(fold_comparison_binop(ComparisonBinOp::Equal, &two, &three), f);
    assert_eq!(fold_comparison_binop(ComparisonBinOp::Equal, &two, &two), t);
    assert_eq!(fold_comparison_binop(ComparisonBinOp::NotEqual, &two, &three), t);
    assert_eq!(fold_comparison_binop(ComparisonBinOp::LessThan, &two, &three), t);
    assert_eq!(fold_comparison_binop(ComparisonBinOp::LessThan, &three, &three), f);
    assert_eq!(fold_comparison_binop(ComparisonBinOp::LessEqual, &three, &three), t);
    assert_eq!(fold_comparison_binop(ComparisonBinOp::GreaterThan, &two, &three), f);
    assert_eq!(fold_comparison_binop(ComparisonBinOp::GreaterEqual, &three, &two), t);
    assert_eq!(fold_comparison_binop(ComparisonBinOp::Equal, &two, &Value::Nil), None);
    assert_eq!(
        fold_comparison_binop(ComparisonBinOp::LessThan, &Value::Number(0), &Value::Number(0)),
        None
    );
}

#[test]
fn unary_operators_fold() {
    assert_eq!(fold_unop(UnaryOperator::Not, &Value::Nil), Some(Value::Boolean(true)));
    assert_eq!(fold_unop(UnaryOperator::Not, &Value::Boolean(false)), Some(Value::Boolean(true)));
    assert_eq!(fold_unop(UnaryOperator::Not, &Value::Boolean(true)), Some(Value::Boolean(false)));
    assert_eq!(fold_unop(UnaryOperator::Not, &Value::Integer(0)), Some(Value::Boolean(false)));
    assert_eq!(
        fold_unop(UnaryOperator::Not, &Value::String(vec![])),
        Some(Value::Boolean(false))
    );
    assert_eq!(fold_unop(UnaryOperator::Minus, &Value::Integer(5)), Some(Value::Integer(-5)));
    assert_eq!(
        fold_unop(UnaryOperator::Minus, &Value::Integer(i64::MIN)),
        Some(Value::Integer(i64::MIN))
    );
    assert_eq!(
        fold_unop(UnaryOperator::Minus, &Value::Number(1.5f64.to_bits())),
        Some(Value::Number((-1.5f64).to_bits()))
    );
    assert_eq!(
        fold_unop(UnaryOperator::Minus, &Value::Number(0.0f64.to_bits())),
        Some(Value::Number((-0.0f64).to_bits()))
    );
    assert_eq!(fold_unop(UnaryOperator::Minus, &Value::Nil), None);
    assert_eq!(fold_unop(UnaryOperator::BitNot, &Value::Integer(1)), None);
    assert_eq!(fold_unop(UnaryOperator::Len, &Value::String(vec![1])), None);
}

#[test]
fn operator_tables_give_instructions() {
    let d = RegisterIndex(4);
    let s = RegisterIndex(2);
    assert_eq!(unop_opcode(UnaryOperator::Not, d, s), Some(OpCode::Not { dest: d, source: s }));
    assert_eq!(
        unop_opcode(UnaryOperator::Minus, d, s),
        Some(OpCode::Minus { dest: d, source: s })
    );
    assert_eq!(unop_opcode(UnaryOperator::BitNot, d, s), None);
    assert_eq!(unop_opcode(UnaryOperator::Len, d, s), None);
    let args = BinOpArgs::RC(s, ConstantIndex8(1));
    assert_eq!(simple_binop_opcode(SimpleBinOp::Add, d, args), Some(OpCode::Add { dest: d, args }));
    assert_eq!(simple_binop_opcode(SimpleBinOp::Sub, d, args), Some(OpCode::Sub { dest: d, args }));
    assert_eq!(simple_binop_opcode(SimpleBinOp::Mul, d, args), Some(OpCode::Mul { dest: d, args }));
    for op in [
        SimpleBinOp::Mod,
        SimpleBinOp::Pow,
        SimpleBinOp::Div,
        SimpleBinOp::IDiv,
        SimpleBinOp::BitAnd,
        SimpleBinOp::BitOr,
        SimpleBinOp::BitXor,
        SimpleBinOp::ShiftLeft,
        SimpleBinOp::ShiftRight,
    ] {
        assert_eq!(simple_binop_opcode(op, d, args), None);
    }
}

#[test]
fn comparison_is_four_instructions() {
    let d = RegisterIndex(3);
    let args = BinOpArgs::RC(RegisterIndex(1), ConstantIndex8(0));
    let tail = [
        OpCode::Jump { offset: 1 },
        OpCode::LoadBool { dest: d, value: true, skip_next: true },
        OpCode::LoadBool { dest: d, value: false, skip_next: false },
    ];
    let check = |op: ComparisonBinOp, test: OpCode| {
        let got = comparison_binop_opcodes(op, d, args);
        assert_eq!(got[0], test);
        assert_eq!(&got[1..], &tail[..]);
    };
    check(ComparisonBinOp::Equal, OpCode::Eq { skip_if: true, args });
    check(ComparisonBinOp::NotEqual, OpCode::Eq { skip_if: false, args });
    check(ComparisonBinOp::LessThan, OpCode::Less { skip_if: true, args });
    check(ComparisonBinOp::LessEqual, OpCode::LessEqual { skip_if: true, args });
    let swapped = BinOpArgs::CR(ConstantIndex8(0), RegisterIndex(1));
    check(ComparisonBinOp::GreaterThan, OpCode::Less { skip_if: true, args: swapped });
    check(ComparisonBinOp::GreaterEqual, OpCode::LessEqual { skip_if: true, args: swapped });
    assert_eq!(
        BinOpArgs::RR(RegisterIndex(1), RegisterIndex(2)).swap(),
        BinOpArgs::RR(RegisterIndex(2), RegisterIndex(1))
    );
    assert_eq!(swapped.swap(), args);
}
