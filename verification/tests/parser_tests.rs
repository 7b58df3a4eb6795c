use beer::ast::{BinOp, ExprKind, ParsedFile, StmtKind, Type, UnOp};
use beer::lexer::tokenize;
use beer::parser::parse;

fn parse_src(src: &str) -> ParsedFile {
    parse(tokenize(src, 0).expect("lexes")).expect("parses")
}

fn parse_error(src: &str) -> (u32, u32, String) {
    let e = parse(tokenize(src, 0).expect("lexes")).expect_err("fails");
    let s = e.span.expect("has a position");
    (s.line, s.col, e.msg)
}

#[test]
fn function_with_params_and_return_type() {
    let pf = parse_src("fn add(a: int, b: int) -> int { return a + b }");
    assert!(pf.uses.is_empty());
    assert_eq!(pf.funcs.len(), 1);
    let f = &pf.funcs[0];
    assert_eq!(f.name, "add");
    assert_eq!(f.params, vec![("a".to_string(), Type::Int), ("b".to_string(), Type::Int)]);
    assert_eq!(f.ret, Type::Int);
    assert_eq!((f.span.line, f.span.col), (1, 1));
    assert_eq!(f.body.len(), 1);
    match &f.body[0].kind {
        StmtKind::Return(Some(e)) => match &e.kind {
            ExprKind::Binary { op, lhs, rhs } => {
                assert_eq!(*op, BinOp::Add);
                assert!(matches!(&lhs.kind, ExprKind::Ident(n) if n == "a"));
                assert!(matches!(&rhs.kind, ExprKind::Ident(n) if n == "b"));
                assert_eq!((e.span.line, e.span.col), (1, 40));
            }
            other => panic!("not a binary expression: {:?}", other),
        },
        other => panic!("not a return: {:?}", other),
    }
}

#[test]
fn omitted_return_type_is_void() {
    let pf = parse_src("fn main() {}");
    assert_eq!(pf.funcs[0].ret, Type::Void);
    assert!(pf.funcs[0].params.is_empty());
    assert!(pf.funcs[0].body.is_empty());
}

#[test]
fn use_declarations_come_first() {
    let pf = parse_src("use \"lib.beer\"\nuse \"b.beer\"\nfn main() {}");
    assert_eq!(pf.uses.len(), 2);
    assert_eq!(pf.uses[0].path, "lib.beer");
    assert_eq!((pf.uses[0].span.line, pf.uses[0].span.col), (1, 1));
    assert_eq!(pf.uses[1].path, "b.beer");
    assert_eq!(pf.funcs.len(), 1);
}

#[test]
fn use_after_fn_is_rejected() {
    assert_eq!(
        parse_error("fn main() {}\nuse \"x.beer\""),
        (2, 1, "`use` declarations must appear before any `fn`".to_string())
    );
}

#[test]
fn use_needs_a_string() {
    assert_eq!(parse_error("use 5"), (1, 5, "`use` requires a string path, got integer literal".to_string()));
}

#[test]
fn empty_token_list_is_an_empty_file() {
    let pf = parse(Vec::new()).unwrap();
    assert!(pf.uses.is_empty() && pf.funcs.is_empty());
}

#[test]
fn missing_colon_in_parameter() {
    assert_eq!(parse_error("fn f(a) {}"), (1, 7, "expected `:`, got `)`".to_string()));
}

#[test]
fn unknown_type_name() {
    assert_eq!(parse_error("fn f(a: num) {}"), (1, 9, "unknown type: num".to_string()));
}

#[test]
fn expected_type_got_token() {
    assert_eq!(parse_error("fn f() -> 5 {}"), (1, 11, "expected type, got integer literal".to_string()));
}

#[test]
fn unclosed_block() {
    assert_eq!(parse_error("fn f() { let x = 1"), (1, 8, "unclosed `{` — missing matching `}`".to_string()));
}

#[test]
fn unexpected_token_in_expression() {
    assert_eq!(parse_error("fn f() { let x = }"), (1, 18, "unexpected `}` in expression".to_string()));
}

#[test]
fn fn_at_end_of_file() {
    assert_eq!(parse_error("fn"), (1, 1, "expected identifier, got end of file".to_string()));
}

#[test]
fn top_level_expression_is_rejected() {
    assert_eq!(parse_error("let x = 1"), (1, 1, "expected `fn`, got `let`".to_string()));
}

#[test]
fn multiplication_binds_tighter_than_addition() {
    let pf = parse_src("fn f() { 1 + 2 * 3 }");
    match &pf.funcs[0].body[0].kind {
        StmtKind::Expr(e) => match &e.kind {
            ExprKind::Binary { op: BinOp::Add, lhs, rhs } => {
                assert!(matches!(lhs.kind, ExprKind::Int(1)));
                assert!(matches!(&rhs.kind, ExprKind::Binary { op: BinOp::Mul, .. }));
            }
            other => panic!("unexpected tree: {:?}", other),
        },
        other => panic!("not an expression statement: {:?}", other),
    }
}

#[test]
fn and_binds_tighter_than_or() {
    let pf = parse_src("fn f() { a || b && c }");
    match &pf.funcs[0].body[0].kind {
        StmtKind::Expr(e) => match &e.kind {
            ExprKind::Binary { op: BinOp::Or, rhs, .. } => {
                assert!(matches!(&rhs.kind, ExprKind::Binary { op: BinOp::And, .. }));
            }
            other => panic!("unexpected tree: {:?}", other),
        },
        other => panic!("not an expression statement: {:?}", other),
    }
}

#[test]
fn subtraction_is_left_associative() {
    let pf = parse_src("fn f() { 5 - 2 - 1 }");
    match &pf.funcs[0].body[0].kind {
        StmtKind::Expr(e) => match &e.kind {
            ExprKind::Binary { op: BinOp::Sub, lhs, rhs } => {
                assert!(matches!(&lhs.kind, ExprKind::Binary { op: BinOp::Sub, .. }));
                assert!(matches!(rhs.kind, ExprKind::Int(1)));
            }
            other => panic!("unexpected tree: {:?}", other),
        },
        other => panic!("not an expression statement: {:?}", other),
    }
}

#[test]
fn cast_applies_to_the_unary_operand() {
    let pf = parse_src("fn f() { -a as float }");
    match &pf.funcs[0].body[0].kind {
        StmtKind::Expr(e) => match &e.kind {
            ExprKind::Cast { expr, target } => {
                assert_eq!(*target, Type::Float);
                assert!(matches!(&expr.kind, ExprKind::Unary { op: UnOp::Neg, .. }));
            }
            other => panic!("unexpected tree: {:?}", other),
        },
        other => panic!("not an expression statement: {:?}", other),
    }
}

#[test]
fn statements_of_every_kind() {
    let pf = parse_src(
        "fn f(n: int) -> int {\n let i = 0\n i = i + 1\n if i < n { print(i) } else { return 1 }\n while false {}\n return i\n}",
    );
    let body = &pf.funcs[0].body;
    assert_eq!(body.len(), 5);
    assert!(matches!(&body[0].kind, StmtKind::Let { name, .. } if name == "i"));
    assert!(matches!(&body[1].kind, StmtKind::Assign { name, .. } if name == "i"));
    assert!(matches!(&body[2].kind, StmtKind::If { else_block: Some(_), .. }));
    assert!(matches!(&body[3].kind, StmtKind::While { .. }));
    assert!(matches!(&body[4].kind, StmtKind::Return(Some(_))));
    assert_eq!((body[2].span.line, body[2].span.col), (4, 2));
}

#[test]
fn bare_return_before_closing_brace() {
    let pf = parse_src("fn f() { return }");
    assert!(matches!(pf.funcs[0].body[0].kind, StmtKind::Return(None)));
}

#[test]
fn call_with_arguments() {
    let pf = parse_src("fn f() { g(1, x, \"s\") }");
    match &pf.funcs[0].body[0].kind {
        StmtKind::Expr(e) => match &e.kind {
            ExprKind::Call { name, args } => {
                assert_eq!(name, "g");
                assert_eq!(args.len(), 3);
                assert!(matches!(&args[2].kind, ExprKind::Str(s) if s == "s"));
            }
            other => panic!("unexpected tree: {:?}", other),
        },
        other => panic!("not an expression statement: {:?}", other),
    }
}

#[test]
fn float_literal_in_expression() {
    let pf = parse_src("fn f() { 2.5 }");
    assert!(matches!(&pf.funcs[0].body[0].kind, StmtKind::Expr(e) if matches!(&e.kind, ExprKind::Float(t) if t == "2.5")));
}

#[test]
fn parenthesised_expression_keeps_inner_span() {
    let pf = parse_src("fn f() { (1 + 2) * 3 }");
    match &pf.funcs[0].body[0].kind {
        StmtKind::Expr(e) => match &e.kind {
            ExprKind::Binary { op: BinOp::Mul, lhs, .. } => {
                assert!(matches!(&lhs.kind, ExprKind::Binary { op: BinOp::Add, .. }));
                assert_eq!((lhs.span.line, lhs.span.col), (1, 11));
                assert_eq!((e.span.line, e.span.col), (1, 11));
            }
            other => panic!("unexpected tree: {:?}", other),
        },
        other => panic!("not an expression statement: {:?}", other),
    }
}
