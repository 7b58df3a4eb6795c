use beer::ast::{BinOp, Program, Type, UnOp};
use beer::check::{check_binop, check_cast, check_program, check_unop, Verdict};
use beer::cli::run_check;
use beer::lexer::tokenize;
use beer::parser::parse;
use beer::span::Span;

const README_PROGRAM: &str = "fn add(a: int, b: int) -> int {
    return a + b
}

fn main() {
    let x = 10
    let y = add(x, 32)
    print(y)

    let i = 0
    while i < 3 {
        print(i)
        i = i + 1
    }

    if y == 42 {
        print(true)
    } else {
        print(false)
    }
}
";

fn sp() -> Span {
    Span::new(0, 4, 9)
}

fn verdict(src: &str) -> Verdict {
    run_check(src).expect("no error")
}

fn check_error(src: &str) -> (u32, u32, String) {
    let e = run_check(src).expect_err("an error");
    let s = e.span.expect("has a position");
    (s.line, s.col, e.msg)
}

#[test]
fn readme_program_lowers() {
    assert_eq!(verdict(README_PROGRAM), Verdict::Lowered);
}

#[test]
fn check_program_on_parsed_readme() {
    let pf = parse(tokenize(README_PROGRAM, 0).unwrap()).unwrap();
    let program = Program { funcs: pf.funcs };
    assert_eq!(check_program(&program).unwrap(), Verdict::Lowered);
}

#[test]
fn empty_program_lowers() {
    assert_eq!(verdict(""), Verdict::Lowered);
}

#[test]
fn arithmetic_types() {
    assert_eq!(check_binop(BinOp::Add, Type::Int, Type::Int, sp()).unwrap(), Type::Int);
    assert_eq!(check_binop(BinOp::Div, Type::Float, Type::Float, sp()).unwrap(), Type::Float);
    let e = check_binop(BinOp::Add, Type::Int, Type::Float, sp()).unwrap_err();
    assert_eq!(e.msg, "operator Add requires matching int or float operands, got Int and Float");
    assert_eq!(e.span, Some(sp()));
}

#[test]
fn comparison_types() {
    assert_eq!(check_binop(BinOp::Lt, Type::Int, Type::Int, sp()).unwrap(), Type::Bool);
    assert_eq!(check_binop(BinOp::Ge, Type::Float, Type::Float, sp()).unwrap(), Type::Bool);
    let e = check_binop(BinOp::Le, Type::Bool, Type::Bool, sp()).unwrap_err();
    assert_eq!(e.msg, "operator Le requires matching int or float operands, got Bool and Bool");
}

#[test]
fn equality_types() {
    assert_eq!(check_binop(BinOp::Eq, Type::Bool, Type::Bool, sp()).unwrap(), Type::Bool);
    assert_eq!(check_binop(BinOp::Ne, Type::Float, Type::Float, sp()).unwrap(), Type::Bool);
    assert_eq!(
        check_binop(BinOp::Eq, Type::Int, Type::Bool, sp()).unwrap_err().msg,
        "operator Eq requires matching operand types, got Int and Bool"
    );
    assert_eq!(
        check_binop(BinOp::Eq, Type::Str, Type::Str, sp()).unwrap_err().msg,
        "string equality is not supported yet"
    );
    assert_eq!(
        check_binop(BinOp::Ne, Type::Void, Type::Void, sp()).unwrap_err().msg,
        "cannot compare void values"
    );
}

#[test]
fn logical_types() {
    assert_eq!(check_binop(BinOp::And, Type::Bool, Type::Bool, sp()).unwrap(), Type::Bool);
    assert_eq!(
        check_binop(BinOp::Or, Type::Int, Type::Bool, sp()).unwrap_err().msg,
        "operator Or requires bool operands, got Int and Bool"
    );
}

#[test]
fn unary_types() {
    assert_eq!(check_unop(UnOp::Neg, Type::Float, sp()).unwrap(), Type::Float);
    assert_eq!(check_unop(UnOp::Not, Type::Bool, sp()).unwrap(), Type::Bool);
    assert_eq!(check_unop(UnOp::Neg, Type::Bool, sp()).unwrap_err().msg, "unary `-` requires int or float, got Bool");
    assert_eq!(check_unop(UnOp::Not, Type::Int, sp()).unwrap_err().msg, "unary `!` requires bool, got Int");
}

#[test]
fn cast_types() {
    assert_eq!(check_cast(Type::Int, Type::Float, sp()).unwrap(), Type::Float);
    assert_eq!(check_cast(Type::Float, Type::Int, sp()).unwrap(), Type::Int);
    assert_eq!(check_cast(Type::Str, Type::Str, sp()).unwrap(), Type::Str);
    assert_eq!(check_cast(Type::Bool, Type::Int, sp()).unwrap_err().msg, "cannot cast Bool to Int");
}

#[test]
fn mismatched_operands_in_let() {
    assert_eq!(
        check_error("fn main() {\n    let x = 1 + true\n}"),
        (2, 13, "operator Add requires matching int or float operands, got Int and Bool".to_string())
    );
}

#[test]
fn duplicate_function_in_one_file() {
    assert_eq!(check_error("fn f() {}\nfn f() {}"), (2, 1, "duplicate function: f".to_string()));
}

#[test]
fn unknown_variable() {
    assert_eq!(check_error("fn main() { print(y) }"), (1, 19, "unknown variable: y".to_string()));
}

#[test]
fn unknown_function() {
    assert_eq!(check_error("fn main() { g() }"), (1, 13, "unknown function: g".to_string()));
}

#[test]
fn wrong_argument_count() {
    assert_eq!(
        check_error("fn g(a: int) {}\nfn main() { g() }"),
        (2, 13, "`g` expects 1 args, got 0".to_string())
    );
}

#[test]
fn wrong_argument_type() {
    assert_eq!(
        check_error("fn g(a: int) {}\nfn main() { g(true) }"),
        (2, 15, "arg type mismatch calling `g`: expected Int, got Bool".to_string())
    );
}

#[test]
fn print_takes_one_argument() {
    assert_eq!(check_error("fn main() { print(1, 2) }"), (1, 13, "print expects 1 arg, got 2".to_string()));
}

#[test]
fn cannot_print_void() {
    assert_eq!(check_error("fn g() {}\nfn main() { print(g()) }"), (2, 19, "cannot print void".to_string()));
}

#[test]
fn cannot_bind_void() {
    assert_eq!(
        check_error("fn g() {}\nfn main() { let x = g() }"),
        (2, 21, "cannot bind void expression to `x`".to_string())
    );
}

#[test]
fn assignment_to_unknown_variable() {
    assert_eq!(check_error("fn main() { x = 1 }"), (1, 13, "unknown variable: x".to_string()));
}

#[test]
fn assignment_type_mismatch() {
    assert_eq!(
        check_error("fn main() { let x = 1\n x = true }"),
        (2, 6, "type mismatch assigning to `x`: expected Int, got Bool".to_string())
    );
}

#[test]
fn condition_must_be_boolean() {
    assert_eq!(check_error("fn main() { if 1 { } }"), (1, 16, "expected boolean condition".to_string()));
    assert_eq!(check_error("fn main() { while 2.5 { } }"), (1, 19, "expected boolean condition".to_string()));
}

#[test]
fn missing_return_value() {
    assert_eq!(check_error("fn f() -> int { return }"), (1, 17, "missing return value".to_string()));
}

#[test]
fn return_value_in_void_function() {
    assert_eq!(
        check_error("fn f() { return 1 }"),
        (1, 17, "unexpected return value in void function".to_string())
    );
}

#[test]
fn return_type_mismatch() {
    assert_eq!(
        check_error("fn f() -> int { return true }"),
        (1, 24, "return type mismatch: expected Int, got Bool".to_string())
    );
}

#[test]
fn bare_return_in_main_is_fine() {
    assert_eq!(verdict("fn main() { return }"), Verdict::Lowered);
}

#[test]
fn casts_and_floats_lower() {
    assert_eq!(verdict("fn main() { let x = 1 as float\n print(x * 2.0)\n print(-x as int) }"), Verdict::Lowered);
}

#[test]
fn logical_operators_in_conditions() {
    assert_eq!(verdict("fn main() { if true && !false || false { print(\"yes\") } }"), Verdict::Lowered);
}

#[test]
fn unchecked_logical_statement_on_ints_mixes_widths() {
    assert_eq!(verdict("fn main() { 1 && 2 }"), Verdict::MixedWidths);
}

#[test]
fn variable_from_inner_block_is_still_known_after_it() {
    assert_eq!(verdict("fn main() { if true { let x = 1 } print(x) }"), Verdict::Lowered);
}

#[test]
fn mixed_operands_in_statement_cannot_be_lowered() {
    assert_eq!(verdict("fn main() { 1.0 + 2 }"), Verdict::Unlowerable);
}

#[test]
fn string_arithmetic_statement_cannot_be_lowered() {
    assert_eq!(verdict("fn main() { \"a\" + \"b\" }"), Verdict::Unlowerable);
}

#[test]
fn lexer_error_comes_first() {
    let e = run_check("fn main() { @ }").unwrap_err();
    assert_eq!(e.msg, "unexpected character: '@'");
}

#[test]
fn parser_error_comes_before_type_errors() {
    let e = run_check("fn main() { let = }").unwrap_err();
    assert_eq!(e.msg, "expected identifier, got `=`");
}

#[test]
fn functions_may_be_called_before_their_definition() {
    assert_eq!(verdict("fn main() { print(later(2)) }\nfn later(n: int) -> int { return n * 2 }"), Verdict::Lowered);
}

#[test]
fn recursion_lowers() {
    assert_eq!(
        verdict("fn fact(n: int) -> int { if n <= 1 { return 1 } return n * fact(n - 1) }\nfn main() { print(fact(5)) }"),
        Verdict::Lowered
    );
}

#[test]
fn print_accepts_every_value_type() {
    assert_eq!(verdict("fn main() { print(1)\n print(2.5)\n print(\"s\")\n print(1 < 2) }"), Verdict::Lowered);
}

#[test]
fn void_call_as_a_statement_lowers() {
    assert_eq!(verdict("fn g() {}\nfn main() { g() }"), Verdict::Lowered);
}
