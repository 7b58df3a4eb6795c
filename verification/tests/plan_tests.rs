use beer::ast::{BinOp, Type};
use beer::check::Kind;
use beer::plan::{binop_instr, bool_word, print_format, print_plan, return_shape, Instr, Pred, PrintPlan, RetShape};

#[test]
fn integer_operators() {
    assert_eq!(binop_instr(BinOp::Add, Kind::I64, Kind::I64), Some(Instr::IntAdd));
    assert_eq!(binop_instr(BinOp::Div, Kind::I64, Kind::I64), Some(Instr::IntSignedDiv));
    assert_eq!(binop_instr(BinOp::Lt, Kind::I64, Kind::I64), Some(Instr::IntCompare(Pred::Lt)));
    assert_eq!(binop_instr(BinOp::Eq, Kind::I1, Kind::I1), Some(Instr::IntCompare(Pred::Eq)));
    assert_eq!(binop_instr(BinOp::Sub, Kind::I64, Kind::I1), Some(Instr::IntSub));
}

#[test]
fn float_operators() {
    assert_eq!(binop_instr(BinOp::Mul, Kind::F64, Kind::F64), Some(Instr::FloatMul));
    assert_eq!(binop_instr(BinOp::Ge, Kind::F64, Kind::F64), Some(Instr::FloatCompare(Pred::Ge)));
    assert_eq!(binop_instr(BinOp::Ne, Kind::F64, Kind::F64), Some(Instr::FloatCompare(Pred::Ne)));
}

#[test]
fn no_instruction_for_mixed_or_logical() {
    assert_eq!(binop_instr(BinOp::Add, Kind::I64, Kind::F64), None);
    assert_eq!(binop_instr(BinOp::Add, Kind::Ptr, Kind::Ptr), None);
    assert_eq!(binop_instr(BinOp::And, Kind::I1, Kind::I1), None);
    assert_eq!(binop_instr(BinOp::Or, Kind::I1, Kind::I1), None);
}

#[test]
fn print_dispatches_on_the_type() {
    assert_eq!(print_plan(Type::Int), Some(PrintPlan::Int));
    assert_eq!(print_plan(Type::Bool), Some(PrintPlan::Bool));
    assert_eq!(print_plan(Type::Void), None);
    assert_eq!(print_format(PrintPlan::Int), "%lld\n");
    assert_eq!(print_format(PrintPlan::Float), "%g\n");
    assert_eq!(print_format(PrintPlan::Str), "%s\n");
    assert_eq!(print_format(PrintPlan::Bool), "%s\n");
    assert_eq!(bool_word(true), "true");
    assert_eq!(bool_word(false), "false");
}

#[test]
fn main_without_return_type_returns_a_32_bit_zero() {
    assert_eq!(return_shape("main", Type::Void), RetShape::I32Zero);
    assert_eq!(return_shape("helper", Type::Void), RetShape::Void);
    assert_eq!(return_shape("main", Type::Int), RetShape::Value(Type::Int));
    assert_eq!(return_shape("f", Type::Bool), RetShape::Value(Type::Bool));
}
