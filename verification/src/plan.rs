use vstd::prelude::*;

use crate::ast::{BinOp, StmtKindV, StmtV, Type};
use crate::check::{is_compare, is_int_kind, is_logic, stmt_step, Kind, Outcome, Sigs, Vars};
use crate::lsp::str_is;

verus! {

// ---------------------------------------------------------------------------
// What code generation emits: the instruction for an operator, how `print`
// shows a value, and how a function returns. The IR builder only carries
// these choices out.

/// The test a comparison makes: signed for integers, ordered for floats.
#[derive(Debug, Clone, Copy, PartialEq, Eq, Structural)]
pub enum Pred {
    Eq,
    Ne,
    Lt,
    Le,
    Gt,
    Ge,
}

/// The instruction for a binary operator (the logical operators branch
/// instead and have none).
#[derive(Debug, Clone, Copy, PartialEq, Eq, Structural)]
pub enum Instr {
    IntAdd,
    IntSub,
    IntMul,
    IntSignedDiv,
    IntCompare(Pred),
    FloatAdd,
    FloatSub,
    FloatMul,
    FloatDiv,
    FloatCompare(Pred),
}

pub open spec fn pred_of(op: BinOp) -> Pred {
    match op {
        BinOp::Eq => Pred::Eq,
        BinOp::Ne => Pred::Ne,
        BinOp::Lt => Pred::Lt,
        BinOp::Le => Pred::Le,
        BinOp::Gt => Pred::Gt,
        _ => Pred::Ge,
    }
}

/// The instruction for `op` on operands of kinds `l` and `r`: integer
/// arithmetic and signed comparisons on two integers, float arithmetic and
/// ordered comparisons on two floats, and none otherwise.
pub open spec fn binop_instr_spec(op: BinOp, l: Kind, r: Kind) -> Option<Instr> {
    if is_logic(op) {
        None
    } else if is_int_kind(l) && is_int_kind(r) {
        Some(
            match op {
                BinOp::Add => Instr::IntAdd,
                BinOp::Sub => Instr::IntSub,
                BinOp::Mul => Instr::IntMul,
                BinOp::Div => Instr::IntSignedDiv,
                _ => Instr::IntCompare(pred_of(op)),
            },
        )
    } else if l == Kind::F64 && r == Kind::F64 {
        Some(
            match op {
                BinOp::Add => Instr::FloatAdd,
                BinOp::Sub => Instr::FloatSub,
                BinOp::Mul => Instr::FloatMul,
                BinOp::Div => Instr::FloatDiv,
                _ => Instr::FloatCompare(pred_of(op)),
            },
        )
    } else {
        None
    }
}

fn pred_of_x(op: BinOp) -> (p: Pred)
    ensures
        p == pred_of(op),
{
    match op {
        BinOp::Eq => Pred::Eq,
        BinOp::Ne => Pred::Ne,
        BinOp::Lt => Pred::Lt,
        BinOp::Le => Pred::Le,
        BinOp::Gt => Pred::Gt,
        _ => Pred::Ge,
    }
}

/// The instruction for `op` on operands of kinds `l` and `r`.
pub fn binop_instr(op: BinOp, l: Kind, r: Kind) -> (res: Option<Instr>)
    ensures
        res == binop_instr_spec(op, l, r),
{
    if op == BinOp::And || op == BinOp::Or {
        None
    } else if (l == Kind::I64 || l == Kind::I1) && (r == Kind::I64 || r == Kind::I1) {
        Some(
            match op {
                BinOp::Add => Instr::IntAdd,
                BinOp::Sub => Instr::IntSub,
                BinOp::Mul => Instr::IntMul,
                BinOp::Div => Instr::IntSignedDiv,
                _ => Instr::IntCompare(pred_of_x(op)),
            },
        )
    } else if l == Kind::F64 && r == Kind::F64 {
        Some(
            match op {
                BinOp::Add => Instr::FloatAdd,
                BinOp::Sub => Instr::FloatSub,
                BinOp::Mul => Instr::FloatMul,
                BinOp::Div => Instr::FloatDiv,
                _ => Instr::FloatCompare(pred_of_x(op)),
            },
        )
    } else {
        None
    }
}

/// A comparison operator gets a comparison instruction, which yields a
/// 1-bit value; an arithmetic operator keeps its operands' kind.
pub proof fn law_compare_instr(op: BinOp, l: Kind, r: Kind)
    ensures
        binop_instr_spec(op, l, r) matches Some(i) ==> (is_compare(op) <==> (i is IntCompare || i is FloatCompare)),
{
}

/// How `print` shows a value of each type: an integer, a float, a string,
/// or one of the words `true` and `false`.
#[derive(Debug, Clone, Copy, PartialEq, Eq, Structural)]
pub enum PrintPlan {
    Int,
    Float,
    Str,
    Bool,
}

pub open spec fn print_plan_spec(t: Type) -> Option<PrintPlan> {
    match t {
        Type::Int => Some(PrintPlan::Int),
        Type::Float => Some(PrintPlan::Float),
        Type::Str => Some(PrintPlan::Str),
        Type::Bool => Some(PrintPlan::Bool),
        Type::Void => None,
    }
}

/// How `print` shows a value of type `t` (nothing can show `void`).
pub fn print_plan(t: Type) -> (r: Option<PrintPlan>)
    ensures
        r == print_plan_spec(t),
{
    match t {
        Type::Int => Some(PrintPlan::Int),
        Type::Float => Some(PrintPlan::Float),
        Type::Str => Some(PrintPlan::Str),
        Type::Bool => Some(PrintPlan::Bool),
        Type::Void => None,
    }
}

/// The `printf` format of each plan; a `bool` is printed as a string.
pub open spec fn print_format_spec(p: PrintPlan) -> Seq<char> {
    match p {
        PrintPlan::Int => "%lld\n"@,
        PrintPlan::Float => "%g\n"@,
        PrintPlan::Str => "%s\n"@,
        PrintPlan::Bool => "%s\n"@,
    }
}

pub fn print_format(p: PrintPlan) -> (s: &'static str)
    ensures
        s@ == print_format_spec(p),
{
    match p {
        PrintPlan::Int => "%lld\n",
        PrintPlan::Float => "%g\n",
        PrintPlan::Str => "%s\n",
        PrintPlan::Bool => "%s\n",
    }
}

/// The word that `print` shows for a `bool`.
pub fn bool_word(b: bool) -> (s: &'static str)
    ensures
        s@ == (if b { "true"@ } else { "false"@ }),
{
    if b {
        "true"
    } else {
        "false"
    }
}

/// How a function returns: `main` without a return type returns a 32-bit
/// zero (its machine signature returns `i32`), another function without a
/// return type returns nothing, and the rest return a value of their type.
#[derive(Debug, Clone, Copy, PartialEq, Eq, Structural)]
pub enum RetShape {
    I32Zero,
    Void,
    Value(Type),
}

pub open spec fn return_shape_spec(name: Seq<char>, ret: Type) -> RetShape {
    if name == "main"@ && ret == Type::Void {
        RetShape::I32Zero
    } else if ret == Type::Void {
        RetShape::Void
    } else {
        RetShape::Value(ret)
    }
}

/// How the function `name` with return type `ret` returns: the machine
/// signature it gets, what a bare `return` and the end of its body emit.
pub fn return_shape(name: &str, ret: Type) -> (r: RetShape)
    ensures
        r == return_shape_spec(name@, ret),
{
    if ret == Type::Void {
        if str_is(name, "main") {
            RetShape::I32Zero
        } else {
            RetShape::Void
        }
    } else {
        RetShape::Value(ret)
    }
}

/// A bare `return` is accepted exactly in a function that returns no
/// value (where it emits a 32-bit zero for `main` and nothing otherwise),
/// and it ends the block.
pub proof fn law_bare_return(s: StmtV, vars: Vars, sigs: Sigs, name: Seq<char>, ret: Type)
    requires
        s.kind == StmtKindV::Return(None),
    ensures
        stmt_step(s, vars, sigs, ret, name == "main"@ && ret == Type::Void) is Fail
            <==> return_shape_spec(name, ret) is Value,
        stmt_step(s, vars, sigs, ret, name == "main"@ && ret == Type::Void) matches Outcome::Go((_, ended, _)) ==> ended,
{
}


/// The operator a comparison test stands for.
pub open spec fn pred_op(p: Pred) -> BinOp {
    match p {
        Pred::Eq => BinOp::Eq,
        Pred::Ne => BinOp::Ne,
        Pred::Lt => BinOp::Lt,
        Pred::Le => BinOp::Le,
        Pred::Gt => BinOp::Gt,
        Pred::Ge => BinOp::Ge,
    }
}

/// The operator an instruction computes.
pub open spec fn instr_op(i: Instr) -> BinOp {
    match i {
        Instr::IntAdd => BinOp::Add,
        Instr::IntSub => BinOp::Sub,
        Instr::IntMul => BinOp::Mul,
        Instr::IntSignedDiv => BinOp::Div,
        Instr::IntCompare(p) => pred_op(p),
        Instr::FloatAdd => BinOp::Add,
        Instr::FloatSub => BinOp::Sub,
        Instr::FloatMul => BinOp::Mul,
        Instr::FloatDiv => BinOp::Div,
        Instr::FloatCompare(p) => pred_op(p),
    }
}

/// Whether an instruction works on integers.
pub open spec fn is_int_instr(i: Instr) -> bool {
    i is IntAdd || i is IntSub || i is IntMul || i is IntSignedDiv || i is IntCompare
}

/// The instruction chosen for an operator computes that operator, on
/// integers when both operands are integers and on floats when both are
/// floats; every operator but the logical ones has one on such operands.
pub proof fn law_instr_computes_op(op: BinOp, l: Kind, r: Kind)
    ensures
        binop_instr_spec(op, l, r) matches Some(i) ==> instr_op(i) == op
            && (is_int_kind(l) && is_int_kind(r) ==> is_int_instr(i))
            && (l == Kind::F64 && r == Kind::F64 ==> !is_int_instr(i)),
        !is_logic(op) && ((is_int_kind(l) && is_int_kind(r)) || (l == Kind::F64 && r == Kind::F64))
            ==> binop_instr_spec(op, l, r) is Some,
        is_logic(op) ==> binop_instr_spec(op, l, r) is None,
{
}


/// The conversion a `printf` format ends with, before its newline.
pub open spec fn conversion(f: Seq<char>) -> char {
    f[f.len() - 2]
}

/// `print` dispatches on the static type of its argument: every type but
/// `void` can be printed, each in its own way; each format ends the line,
/// converts an integer with `d`, a float with `g` and a string with `s`;
/// and two ways share a format exactly when both print text (a `bool` is
/// printed as a word).
pub proof fn law_print_dispatch(a: Type, b: Type, p: PrintPlan, q: PrintPlan)
    ensures
        print_plan_spec(a) is Some <==> a != Type::Void,
        print_plan_spec(a) is Some && print_plan_spec(a) == print_plan_spec(b) ==> a == b,
        print_format_spec(p).len() >= 2 && print_format_spec(p).last() == '\n',
        conversion(print_format_spec(p)) == (match p {
            PrintPlan::Int => 'd',
            PrintPlan::Float => 'g',
            _ => 's',
        }),
        print_format_spec(p) == print_format_spec(q) <==> (p == q || ((p is Str || p is Bool) && (q is Str
            || q is Bool))),
{
    reveal_strlit("%lld\n");
    reveal_strlit("%g\n");
    reveal_strlit("%s\n");
    if print_format_spec(p) == print_format_spec(q) {
        assert(conversion(print_format_spec(p)) == conversion(print_format_spec(q)));
    }
}

} // verus!
