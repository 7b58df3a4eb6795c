use vstd::prelude::*;

use crate::ast::{
    exprs_v, lemma_exprs_v_push, lemma_stmts_v_push, params_v, stmts_v, uses_v, funcs_v, BinOp, Expr, ExprKind,
    ExprKindV, ExprV, Func, FuncV, ParsedFile, ParsedFileV, Stmt, StmtKind, StmtKindV, StmtV, Type, UnOp,
    UseDecl, UseDeclV, op_symbol,
};
use crate::error::{err_at, CompileError, ErrorV};
use crate::lexer::{all_in_file, lex, lex_from, span_at, tok_v, toks_v, Token, TokenV};
use crate::span::Span;
use crate::text::{concat2, concat3};

verus! {

pub type Toks = Seq<(TokenV, Span)>;

// ---------------------------------------------------------------------------
// What the parser computes: a recursive-descent grammar with operator
// precedence, over token values.

pub open spec fn peek(t: Toks, pos: int) -> Option<TokenV> {
    if 0 <= pos < t.len() {
        Some(t[pos].0)
    } else {
        None
    }
}

/// The position reported for an error at `pos`: that token's, else the last
/// token's, else line 1 column 1 of file 0.
pub open spec fn span_here(t: Toks, pos: int) -> Span {
    if 0 <= pos < t.len() {
        t[pos].1
    } else if t.len() > 0 {
        t[t.len() - 1].1
    } else {
        Span { file: 0, line: 1, col: 1 }
    }
}

/// How a token is named in messages.
pub open spec fn tok_text(k: TokenV) -> Seq<char> {
    match k {
        TokenV::Let => "`let`"@,
        TokenV::Fn => "`fn`"@,
        TokenV::If => "`if`"@,
        TokenV::Else => "`else`"@,
        TokenV::While => "`while`"@,
        TokenV::Return => "`return`"@,
        TokenV::True => "`true`"@,
        TokenV::False => "`false`"@,
        TokenV::As => "`as`"@,
        TokenV::Use => "`use`"@,
        TokenV::Int(_) => "integer literal"@,
        TokenV::Float(_) => "float literal"@,
        TokenV::Str(_) => "string literal"@,
        TokenV::Ident(s) => "`"@ + s + "`"@,
        TokenV::LParen => "`(`"@,
        TokenV::RParen => "`)`"@,
        TokenV::LBrace => "`{`"@,
        TokenV::RBrace => "`}`"@,
        TokenV::Comma => "`,`"@,
        TokenV::Colon => "`:`"@,
        TokenV::Arrow => "`->`"@,
        TokenV::Eq => "`=`"@,
        TokenV::EqEq => "`==`"@,
        TokenV::BangEq => "`!=`"@,
        TokenV::Bang => "`!`"@,
        TokenV::Lt => "`<`"@,
        TokenV::LtEq => "`<=`"@,
        TokenV::Gt => "`>`"@,
        TokenV::GtEq => "`>=`"@,
        TokenV::AndAnd => "`&&`"@,
        TokenV::OrOr => "`||`"@,
        TokenV::Plus => "`+`"@,
        TokenV::Minus => "`-`"@,
        TokenV::Star => "`*`"@,
        TokenV::Slash => "`/`"@,
    }
}

pub open spec fn tok_text_opt(k: Option<TokenV>) -> Seq<char> {
    match k {
        Some(t) => tok_text(t),
        None => "end of file"@,
    }
}

/// Binary operators with their binding power (higher binds tighter).
pub open spec fn binop_info(k: Option<TokenV>) -> Option<(BinOp, u8)> {
    match k {
        Some(TokenV::OrOr) => Some((BinOp::Or, 1)),
        Some(TokenV::AndAnd) => Some((BinOp::And, 2)),
        Some(TokenV::EqEq) => Some((BinOp::Eq, 3)),
        Some(TokenV::BangEq) => Some((BinOp::Ne, 3)),
        Some(TokenV::Lt) => Some((BinOp::Lt, 3)),
        Some(TokenV::LtEq) => Some((BinOp::Le, 3)),
        Some(TokenV::Gt) => Some((BinOp::Gt, 3)),
        Some(TokenV::GtEq) => Some((BinOp::Ge, 3)),
        Some(TokenV::Plus) => Some((BinOp::Add, 4)),
        Some(TokenV::Minus) => Some((BinOp::Sub, 4)),
        Some(TokenV::Star) => Some((BinOp::Mul, 5)),
        Some(TokenV::Slash) => Some((BinOp::Div, 5)),
        _ => None,
    }
}

/// The binding power of `as`.
pub open spec fn cast_bp() -> u8 {
    6
}

/// A parse that moved forward without running past the end.
pub open spec fn moved(t: Toks, from: int, to: int) -> bool {
    from < to <= t.len()
}

/// The error for a parse step that did not move forward; no step of the
/// grammar produces it.
pub open spec fn stalled(t: Toks, pos: int) -> ErrorV {
    err_at(span_here(t, pos), Seq::empty())
}

pub open spec fn expect(t: Toks, pos: int, k: TokenV) -> Result<(Span, int), ErrorV> {
    if peek(t, pos) == Some(k) {
        Ok((span_here(t, pos), pos + 1))
    } else {
        Err(err_at(span_here(t, pos), "expected "@ + tok_text(k) + ", got "@ + tok_text_opt(peek(t, pos))))
    }
}

pub open spec fn consume_ident(t: Toks, pos: int) -> Result<(Seq<char>, int), ErrorV> {
    match peek(t, pos) {
        Some(TokenV::Ident(s)) => Ok((s, pos + 1)),
        other => Err(err_at(span_here(t, pos), "expected identifier, got "@ + tok_text_opt(other))),
    }
}

pub open spec fn type_named(s: Seq<char>) -> Option<Type> {
    if s == "int"@ {
        Some(Type::Int)
    } else if s == "float"@ {
        Some(Type::Float)
    } else if s == "bool"@ {
        Some(Type::Bool)
    } else if s == "str"@ {
        Some(Type::Str)
    } else {
        None
    }
}

pub open spec fn parse_type(t: Toks, pos: int) -> Result<(Type, int), ErrorV> {
    match peek(t, pos) {
        Some(TokenV::Ident(s)) => match type_named(s) {
            Some(ty) => Ok((ty, pos + 1)),
            None => Err(err_at(span_here(t, pos), "unknown type: "@ + s)),
        },
        other => Err(err_at(span_here(t, pos), "expected type, got "@ + tok_text_opt(other))),
    }
}

pub open spec fn parse_use(t: Toks, pos: int) -> Result<(UseDeclV, int), ErrorV> {
    match expect(t, pos, TokenV::Use) {
        Err(e) => Err(e),
        Ok((span, p1)) => match peek(t, p1) {
            Some(TokenV::Str(s)) => Ok((UseDeclV { path: s, span }, p1 + 1)),
            other => Err(
                err_at(span_here(t, p1), "`use` requires a string path, got "@ + tok_text_opt(other)),
            ),
        },
    }
}

/// `{ stmt* }`
pub open spec fn parse_block(t: Toks, pos: int) -> Result<(Seq<StmtV>, int), ErrorV>
    decreases t.len() - pos, 6int,
{
    match expect(t, pos, TokenV::LBrace) {
        Err(e) => Err(e),
        Ok((open, p1)) => block_rest(t, p1, open, Seq::empty()),
    }
}

/// Statements of a block opened at `open`, `acc` read so far.
pub open spec fn block_rest(t: Toks, pos: int, open: Span, acc: Seq<StmtV>) -> Result<(Seq<StmtV>, int), ErrorV>
    decreases t.len() - pos, 6int,
{
    if pos < 0 || pos > t.len() {
        Err(stalled(t, pos))
    } else if peek(t, pos) != Some(TokenV::RBrace) && pos < t.len() {
        match parse_stmt(t, pos) {
            Err(e) => Err(e),
            Ok((st, p2)) => if moved(t, pos, p2) {
                block_rest(t, p2, open, acc.push(st))
            } else {
                Err(stalled(t, pos))
            },
        }
    } else if pos >= t.len() {
        Err(err_at(open, "unclosed `{` — missing matching `}`"@))
    } else {
        match expect(t, pos, TokenV::RBrace) {
            Err(e) => Err(e),
            Ok((_, p3)) => Ok((acc, p3)),
        }
    }
}

pub open spec fn parse_stmt(t: Toks, pos: int) -> Result<(StmtV, int), ErrorV>
    decreases t.len() - pos, 5int,
{
    let start = span_here(t, pos);
    if pos < 0 || pos > t.len() {
        Err(stalled(t, pos))
    } else {
        match peek(t, pos) {
            Some(TokenV::Let) => match consume_ident(t, pos + 1) {
                Err(e) => Err(e),
                Ok((name, p1)) => match expect(t, p1, TokenV::Eq) {
                    Err(e) => Err(e),
                    Ok((_, p2)) => if moved(t, pos, p2) {
                        match parse_expr_bp(t, p2, 0) {
                            Err(e) => Err(e),
                            Ok((value, p3)) => Ok(
                                (StmtV { kind: StmtKindV::Let { name, value }, span: start }, p3),
                            ),
                        }
                    } else {
                        Err(stalled(t, pos))
                    },
                },
            },
            Some(TokenV::If) => match parse_expr_bp(t, pos + 1, 0) {
                Err(e) => Err(e),
                Ok((cond, p1)) => if moved(t, pos, p1) {
                    match parse_block(t, p1) {
                        Err(e) => Err(e),
                        Ok((then_block, p2)) => if moved(t, pos, p2) {
                            if peek(t, p2) == Some(TokenV::Else) {
                                match parse_block(t, p2 + 1) {
                                    Err(e) => Err(e),
                                    Ok((eb, p3)) => Ok(
                                        (
                                            StmtV {
                                                kind: StmtKindV::If {
                                                    cond,
                                                    then_block,
                                                    else_block: Some(eb),
                                                },
                                                span: start,
                                            },
                                            p3,
                                        ),
                                    ),
                                }
                            } else {
                                Ok(
                                    (
                                        StmtV {
                                            kind: StmtKindV::If { cond, then_block, else_block: None },
                                            span: start,
                                        },
                                        p2,
                                    ),
                                )
                            }
                        } else {
                            Err(stalled(t, pos))
                        },
                    }
                } else {
                    Err(stalled(t, pos))
                },
            },
            Some(TokenV::While) => match parse_expr_bp(t, pos + 1, 0) {
                Err(e) => Err(e),
                Ok((cond, p1)) => if moved(t, pos, p1) {
                    match parse_block(t, p1) {
                        Err(e) => Err(e),
                        Ok((body, p2)) => Ok(
                            (StmtV { kind: StmtKindV::While { cond, body }, span: start }, p2),
                        ),
                    }
                } else {
                    Err(stalled(t, pos))
                },
            },
            Some(TokenV::Return) => {
                if peek(t, pos + 1) == Some(TokenV::RBrace) || peek(t, pos + 1) is None {
                    Ok((StmtV { kind: StmtKindV::Return(None), span: start }, pos + 1))
                } else {
                    match parse_expr_bp(t, pos + 1, 0) {
                        Err(e) => Err(e),
                        Ok((v, p1)) => Ok(
                            (StmtV { kind: StmtKindV::Return(Some(v)), span: start }, p1),
                        ),
                    }
                }
            },
            Some(TokenV::Ident(name)) if peek(t, pos + 1) == Some(TokenV::Eq) => {
                if pos + 2 <= t.len() {
                    match parse_expr_bp(t, pos + 2, 0) {
                        Err(e) => Err(e),
                        Ok((value, p3)) => Ok(
                            (StmtV { kind: StmtKindV::Assign { name, value }, span: start }, p3),
                        ),
                    }
                } else {
                    Err(stalled(t, pos))
                }
            },
            _ => match parse_expr_bp(t, pos, 0) {
                Err(e) => Err(e),
                Ok((e, p1)) => Ok((StmtV { kind: StmtKindV::Expr(e), span: start }, p1)),
            },
        }
    }
}

/// An expression whose operators all bind at least as tightly as `min_bp`.
pub open spec fn parse_expr_bp(t: Toks, pos: int, min_bp: u8) -> Result<(ExprV, int), ErrorV>
    decreases t.len() - pos, 4int,
{
    if pos < 0 || pos > t.len() {
        Err(stalled(t, pos))
    } else {
        match parse_unary(t, pos) {
            Err(e) => Err(e),
            Ok((lhs, p1)) => if moved(t, pos, p1) {
                expr_rest(t, p1, min_bp, lhs)
            } else {
                Err(stalled(t, pos))
            },
        }
    }
}

/// The operators and casts that follow `lhs` at `pos`.
pub open spec fn expr_rest(t: Toks, pos: int, min_bp: u8, lhs: ExprV) -> Result<(ExprV, int), ErrorV>
    decreases t.len() - pos, 4int,
{
    if pos < 0 || pos > t.len() {
        Err(stalled(t, pos))
    } else if peek(t, pos) == Some(TokenV::As) {
        if cast_bp() < min_bp {
            Ok((lhs, pos))
        } else {
            match parse_type(t, pos + 1) {
                Err(e) => Err(e),
                Ok((target, p2)) => if moved(t, pos, p2) {
                    expr_rest(
                        t,
                        p2,
                        min_bp,
                        ExprV { kind: ExprKindV::Cast { expr: Box::new(lhs), target }, span: lhs.span },
                    )
                } else {
                    Err(stalled(t, pos))
                },
            }
        }
    } else if binop_info(peek(t, pos)) is Some {
        let (op, bp) = binop_info(peek(t, pos)).unwrap();
        if bp < min_bp {
            Ok((lhs, pos))
        } else {
            match parse_expr_bp(t, pos + 1, (bp + 1) as u8) {
                Err(e) => Err(e),
                Ok((rhs, p2)) => if moved(t, pos, p2) {
                    expr_rest(
                        t,
                        p2,
                        min_bp,
                        ExprV {
                            kind: ExprKindV::Binary { op, lhs: Box::new(lhs), rhs: Box::new(rhs) },
                            span: lhs.span,
                        },
                    )
                } else {
                    Err(stalled(t, pos))
                },
            }
        }
    } else {
        Ok((lhs, pos))
    }
}

pub open spec fn parse_unary(t: Toks, pos: int) -> Result<(ExprV, int), ErrorV>
    decreases t.len() - pos, 3int,
{
    let span = span_here(t, pos);
    if pos < 0 || pos > t.len() {
        Err(stalled(t, pos))
    } else if peek(t, pos) == Some(TokenV::Minus) || peek(t, pos) == Some(TokenV::Bang) {
        let op = if peek(t, pos) == Some(TokenV::Minus) { UnOp::Neg } else { UnOp::Not };
        match parse_unary(t, pos + 1) {
            Err(e) => Err(e),
            Ok((e, p1)) => Ok((ExprV { kind: ExprKindV::Unary { op, expr: Box::new(e) }, span }, p1)),
        }
    } else {
        parse_primary(t, pos)
    }
}

pub open spec fn parse_primary(t: Toks, pos: int) -> Result<(ExprV, int), ErrorV>
    decreases t.len() - pos, 2int,
{
    let span = span_here(t, pos);
    if pos < 0 || pos > t.len() {
        Err(stalled(t, pos))
    } else {
        match peek(t, pos) {
            Some(TokenV::Int(n)) => Ok((ExprV { kind: ExprKindV::Int(n), span }, pos + 1)),
            Some(TokenV::Float(f)) => Ok((ExprV { kind: ExprKindV::Float(f), span }, pos + 1)),
            Some(TokenV::True) => Ok((ExprV { kind: ExprKindV::Bool(true), span }, pos + 1)),
            Some(TokenV::False) => Ok((ExprV { kind: ExprKindV::Bool(false), span }, pos + 1)),
            Some(TokenV::Str(s)) => Ok((ExprV { kind: ExprKindV::Str(s), span }, pos + 1)),
            Some(TokenV::LParen) => match parse_expr_bp(t, pos + 1, 0) {
                Err(e) => Err(e),
                Ok((e, p1)) => match expect(t, p1, TokenV::RParen) {
                    Err(err) => Err(err),
                    Ok((_, p2)) => Ok((e, p2)),
                },
            },
            Some(TokenV::Ident(name)) => if peek(t, pos + 1) == Some(TokenV::LParen) {
                let args = if peek(t, pos + 2) != Some(TokenV::RParen) {
                    args_rest(t, pos + 2, Seq::empty())
                } else {
                    Ok((Seq::empty(), pos + 2))
                };
                call_after_args(t, span, name, args)
            } else {
                Ok((ExprV { kind: ExprKindV::Ident(name), span }, pos + 1))
            },
            other => Err(err_at(span, "unexpected "@ + tok_text_opt(other) + " in expression"@)),
        }
    }
}

/// A call once its arguments are read: the closing parenthesis.
pub open spec fn call_after_args(
    t: Toks,
    span: Span,
    name: Seq<char>,
    args: Result<(Seq<ExprV>, int), ErrorV>,
) -> Result<(ExprV, int), ErrorV> {
    match args {
        Err(e) => Err(e),
        Ok((args, p3)) => match expect(t, p3, TokenV::RParen) {
            Err(e) => Err(e),
            Ok((_, p4)) => Ok((ExprV { kind: ExprKindV::Call { name, args }, span }, p4)),
        },
    }
}

/// Call arguments from `pos`, `acc` read so far.
pub open spec fn args_rest(t: Toks, pos: int, acc: Seq<ExprV>) -> Result<(Seq<ExprV>, int), ErrorV>
    decreases t.len() - pos, 5int,
{
    if pos < 0 || pos > t.len() {
        Err(stalled(t, pos))
    } else {
        match parse_expr_bp(t, pos, 0) {
            Err(e) => Err(e),
            Ok((a, p1)) => if moved(t, pos, p1) {
                if peek(t, p1) == Some(TokenV::Comma) {
                    args_rest(t, p1 + 1, acc.push(a))
                } else {
                    Ok((acc.push(a), p1))
                }
            } else {
                Err(stalled(t, pos))
            },
        }
    }
}

/// Function parameters `name: type, ...` from `pos`, `acc` read so far.
pub open spec fn params_rest(t: Toks, pos: int, acc: Seq<(Seq<char>, Type)>) -> Result<(Seq<(Seq<char>, Type)>, int), ErrorV>
    decreases t.len() - pos,
{
    if pos < 0 || pos > t.len() {
        Err(stalled(t, pos))
    } else {
        match consume_ident(t, pos) {
            Err(e) => Err(e),
            Ok((pname, p1)) => match expect(t, p1, TokenV::Colon) {
                Err(e) => Err(e),
                Ok((_, p2)) => match parse_type(t, p2) {
                    Err(e) => Err(e),
                    Ok((pty, p3)) => if peek(t, p3) == Some(TokenV::Comma) && p3 + 1 > pos {
                        params_rest(t, p3 + 1, acc.push((pname, pty)))
                    } else {
                        Ok((acc.push((pname, pty)), p3))
                    },
                },
            },
        }
    }
}

/// A function once its parameters are read: `) [-> type] { body }`.
pub open spec fn func_after_params(
    t: Toks,
    span: Span,
    name: Seq<char>,
    params: Result<(Seq<(Seq<char>, Type)>, int), ErrorV>,
) -> Result<(FuncV, int), ErrorV> {
    match params {
        Err(e) => Err(e),
        Ok((params, p4)) => match expect(t, p4, TokenV::RParen) {
            Err(e) => Err(e),
            Ok((_, p5)) => {
                let ret = if peek(t, p5) == Some(TokenV::Arrow) {
                    parse_type(t, p5 + 1)
                } else {
                    Ok((Type::Void, p5))
                };
                match ret {
                    Err(e) => Err(e),
                    Ok((ret, p6)) => match parse_block(t, p6) {
                        Err(e) => Err(e),
                        Ok((body, p7)) => Ok((FuncV { name, params, ret, body, span }, p7)),
                    },
                }
            },
        },
    }
}

/// `fn name(params) [-> type] { body }`
pub open spec fn parse_func(t: Toks, pos: int) -> Result<(FuncV, int), ErrorV> {
    match expect(t, pos, TokenV::Fn) {
        Err(e) => Err(e),
        Ok((span, p1)) => match consume_ident(t, p1) {
            Err(e) => Err(e),
            Ok((name, p2)) => match expect(t, p2, TokenV::LParen) {
                Err(e) => Err(e),
                Ok((_, p3)) => {
                    let params = if peek(t, p3) != Some(TokenV::RParen) {
                        params_rest(t, p3, Seq::empty())
                    } else {
                        Ok((Seq::empty(), p3))
                    };
                    func_after_params(t, span, name, params)
                },
            },
        },
    }
}

/// The leading `use` declarations from `pos`.
pub open spec fn uses_rest(t: Toks, pos: int, acc: Seq<UseDeclV>) -> (Seq<UseDeclV>, int, Option<ErrorV>)
    decreases t.len() - pos,
{
    if pos < 0 || pos >= t.len() || peek(t, pos) != Some(TokenV::Use) {
        (acc, pos, None)
    } else {
        match parse_use(t, pos) {
            Err(e) => (acc, pos, Some(e)),
            Ok((u, p1)) => uses_rest(t, p1, acc.push(u)),
        }
    }
}

/// The functions from `pos` to the end of the tokens.
pub open spec fn funcs_rest(t: Toks, pos: int, acc: Seq<FuncV>) -> Result<Seq<FuncV>, ErrorV>
    decreases t.len() - pos,
{
    if pos < 0 || pos >= t.len() {
        Ok(acc)
    } else if peek(t, pos) == Some(TokenV::Use) {
        Err(err_at(span_here(t, pos), "`use` declarations must appear before any `fn`"@))
    } else {
        match parse_func(t, pos) {
            Err(e) => Err(e),
            Ok((f, p1)) => if moved(t, pos, p1) {
                funcs_rest(t, p1, acc.push(f))
            } else {
                Err(stalled(t, pos))
            },
        }
    }
}

/// A whole file: its `use` declarations, then its functions.
pub open spec fn parse_file(t: Toks) -> Result<ParsedFileV, ErrorV> {
    file_after_uses(t, uses_rest(t, 0, Seq::empty()))
}

/// A file once its `use` declarations are read.
pub open spec fn file_after_uses(t: Toks, u: (Seq<UseDeclV>, int, Option<ErrorV>)) -> Result<ParsedFileV, ErrorV> {
    let (uses, p, err) = u;
    match err {
        Some(e) => Err(e),
        None => match funcs_rest(t, p, Seq::empty()) {
            Err(e) => Err(e),
            Ok(funcs) => Ok(ParsedFileV { uses, funcs }),
        },
    }
}

// ---------------------------------------------------------------------------
// The parser.

type TokVec = Vec<(Token, Span)>;

pub open spec fn tv(toks: &Vec<(Token, Span)>) -> Toks {
    toks_v(toks@)
}

fn peek_is(toks: &TokVec, pos: usize, k: &Token) -> (b: bool)
    ensures
        b == (peek(tv(toks), pos as int) == Some(k@)),
        b ==> pos < toks@.len(),
{
    pos < toks.len() && toks[pos].0.same(k)
}

fn span_here_x(toks: &TokVec, pos: usize) -> (s: Span)
    ensures
        s == span_here(tv(toks), pos as int),
{
    if pos < toks.len() {
        toks[pos].1
    } else if toks.len() > 0 {
        toks[toks.len() - 1].1
    } else {
        Span::new(0, 1, 1)
    }
}

fn tok_text_x(t: &Token) -> (s: String)
    ensures
        s@ == tok_text(t@),
{
    match t {
        Token::Let => String::from_str("`let`"),
        Token::Fn => String::from_str("`fn`"),
        Token::If => String::from_str("`if`"),
        Token::Else => String::from_str("`else`"),
        Token::While => String::from_str("`while`"),
        Token::Return => String::from_str("`return`"),
        Token::True => String::from_str("`true`"),
        Token::False => String::from_str("`false`"),
        Token::As => String::from_str("`as`"),
        Token::Use => String::from_str("`use`"),
        Token::Int(_) => String::from_str("integer literal"),
        Token::Float(_) => String::from_str("float literal"),
        Token::Str(_) => String::from_str("string literal"),
        Token::Ident(s) => concat3("`", s.as_str(), "`"),
        Token::LParen => String::from_str("`(`"),
        Token::RParen => String::from_str("`)`"),
        Token::LBrace => String::from_str("`{`"),
        Token::RBrace => String::from_str("`}`"),
        Token::Comma => String::from_str("`,`"),
        Token::Colon => String::from_str("`:`"),
        Token::Arrow => String::from_str("`->`"),
        Token::Eq => String::from_str("`=`"),
        Token::EqEq => String::from_str("`==`"),
        Token::BangEq => String::from_str("`!=`"),
        Token::Bang => String::from_str("`!`"),
        Token::Lt => String::from_str("`<`"),
        Token::LtEq => String::from_str("`<=`"),
        Token::Gt => String::from_str("`>`"),
        Token::GtEq => String::from_str("`>=`"),
        Token::AndAnd => String::from_str("`&&`"),
        Token::OrOr => String::from_str("`||`"),
        Token::Plus => String::from_str("`+`"),
        Token::Minus => String::from_str("`-`"),
        Token::Star => String::from_str("`*`"),
        Token::Slash => String::from_str("`/`"),
    }
}

/// The name of the token at `pos`, or "end of file".
fn here_text(toks: &TokVec, pos: usize) -> (s: String)
    ensures
        s@ == tok_text_opt(peek(tv(toks), pos as int)),
{
    if pos < toks.len() {
        tok_text_x(&toks[pos].0)
    } else {
        String::from_str("end of file")
    }
}

fn binop_of(toks: &TokVec, pos: usize) -> (r: Option<(BinOp, u8)>)
    ensures
        r == binop_info(peek(tv(toks), pos as int)),
        r is Some ==> pos < toks@.len() && r.unwrap().1 <= 5,
{
    if pos >= toks.len() {
        return None;
    }
    match &toks[pos].0 {
        Token::OrOr => Some((BinOp::Or, 1)),
        Token::AndAnd => Some((BinOp::And, 2)),
        Token::EqEq => Some((BinOp::Eq, 3)),
        Token::BangEq => Some((BinOp::Ne, 3)),
        Token::Lt => Some((BinOp::Lt, 3)),
        Token::LtEq => Some((BinOp::Le, 3)),
        Token::Gt => Some((BinOp::Gt, 3)),
        Token::GtEq => Some((BinOp::Ge, 3)),
        Token::Plus => Some((BinOp::Add, 4)),
        Token::Minus => Some((BinOp::Sub, 4)),
        Token::Star => Some((BinOp::Mul, 5)),
        Token::Slash => Some((BinOp::Div, 5)),
        _ => None,
    }
}

fn expect_x(toks: &TokVec, pos: usize, k: Token) -> (r: Result<(Span, usize), CompileError>)
    requires
        toks@.len() <= usize::MAX,
        pos <= toks@.len(),
    ensures
        match r {
            Ok((sp, p)) => expect(tv(toks), pos as int, k@) == Ok::<(Span, int), ErrorV>((sp, p as int))
                && p == pos + 1 && p <= toks@.len(),
            Err(e) => expect(tv(toks), pos as int, k@) == Err::<(Span, int), ErrorV>(e@),
        },
{
    let sp = span_here_x(toks, pos);
    if peek_is(toks, pos, &k) {
        Ok((sp, pos + 1))
    } else {
        let want = tok_text_x(&k);
        let got = here_text(toks, pos);
        let mut msg = concat2("expected ", want.as_str());
        msg.append(", got ");
        msg.append(got.as_str());
        Err(CompileError::at(sp, msg))
    }
}

fn consume_ident_x(toks: &TokVec, pos: usize) -> (r: Result<(String, Span), CompileError>)
    requires
        toks@.len() <= usize::MAX,
        pos <= toks@.len(),
    ensures
        match r {
            Ok((name, _)) => consume_ident(tv(toks), pos as int) == Ok::<(Seq<char>, int), ErrorV>((name@, pos + 1))
                && pos < toks@.len(),
            Err(e) => consume_ident(tv(toks), pos as int) == Err::<(Seq<char>, int), ErrorV>(e@),
        },
{
    let sp = span_here_x(toks, pos);
    if pos < toks.len() {
        if let Token::Ident(s) = &toks[pos].0 {
            return Ok((s.clone(), sp));
        }
    }
    let got = here_text(toks, pos);
    Err(CompileError::at(sp, concat2("expected identifier, got ", got.as_str())))
}

fn type_of_name(s: &String) -> (r: Option<Type>)
    ensures
        r == type_named(s@),
{
    if *s == String::from_str("int") {
        Some(Type::Int)
    } else if *s == String::from_str("float") {
        Some(Type::Float)
    } else if *s == String::from_str("bool") {
        Some(Type::Bool)
    } else if *s == String::from_str("str") {
        Some(Type::Str)
    } else {
        None
    }
}

fn parse_type_x(toks: &TokVec, pos: usize) -> (r: Result<(Type, usize), CompileError>)
    requires
        toks@.len() <= usize::MAX,
        pos <= toks@.len(),
    ensures
        match r {
            Ok((ty, p)) => parse_type(tv(toks), pos as int) == Ok::<(Type, int), ErrorV>((ty, p as int))
                && p == pos + 1 && p <= toks@.len(),
            Err(e) => parse_type(tv(toks), pos as int) == Err::<(Type, int), ErrorV>(e@),
        },
{
    let sp = span_here_x(toks, pos);
    if pos < toks.len() {
        if let Token::Ident(s) = &toks[pos].0 {
            return match type_of_name(s) {
                Some(ty) => Ok((ty, pos + 1)),
                None => Err(CompileError::at(sp, concat2("unknown type: ", s.as_str()))),
            };
        }
    }
    let got = here_text(toks, pos);
    Err(CompileError::at(sp, concat2("expected type, got ", got.as_str())))
}

fn parse_use_x(toks: &TokVec, pos: usize) -> (r: Result<(UseDecl, usize), CompileError>)
    requires
        toks@.len() <= usize::MAX,
        pos <= toks@.len(),
    ensures
        match r {
            Ok((u, p)) => parse_use(tv(toks), pos as int) == Ok::<(UseDeclV, int), ErrorV>(
                (UseDeclV { path: u.path@, span: u.span }, p as int),
            ) && p == pos + 2 && p <= toks@.len(),
            Err(e) => parse_use(tv(toks), pos as int) == Err::<(UseDeclV, int), ErrorV>(e@),
        },
{
    let (span, p1) = expect_x(toks, pos, Token::Use)?;
    let path_span = span_here_x(toks, p1);
    if p1 < toks.len() {
        if let Token::Str(s) = &toks[p1].0 {
            return Ok((UseDecl { path: s.clone(), span }, p1 + 1));
        }
    }
    let got = here_text(toks, p1);
    Err(CompileError::at(path_span, concat2("`use` requires a string path, got ", got.as_str())))
}

fn parse_block_x(toks: &TokVec, pos: usize) -> (r: Result<(Vec<Stmt>, usize), CompileError>)
    requires
        toks@.len() <= usize::MAX,
        pos <= toks@.len(),
    ensures
        match r {
            Ok((b, p)) => parse_block(tv(toks), pos as int) == Ok::<(Seq<StmtV>, int), ErrorV>(
                (stmts_v(b@), p as int),
            ) && pos < p <= toks@.len(),
            Err(e) => parse_block(tv(toks), pos as int) == Err::<(Seq<StmtV>, int), ErrorV>(e@),
        },
    decreases toks@.len() - pos, 6int,
{
    let (open, p1) = expect_x(toks, pos, Token::LBrace)?;
    let mut stmts: Vec<Stmt> = Vec::new();
    let mut p = p1;
    assert(stmts_v(stmts@) =~= Seq::<StmtV>::empty());
    while !peek_is(toks, p, &Token::RBrace) && p < toks.len()
        invariant
            pos < p <= toks@.len(),
            toks@.len() <= usize::MAX,
            parse_block(tv(toks), pos as int) == block_rest(tv(toks), p as int, open, stmts_v(stmts@)),
        decreases toks@.len() - p,
    {
        let (st, p2) = parse_stmt_x(toks, p)?;
        proof {
            lemma_stmts_v_push(stmts@, st);
        }
        stmts.push(st);
        p = p2;
    }
    if p >= toks.len() {
        return Err(CompileError::at(open, String::from_str("unclosed `{` — missing matching `}`")));
    }
    let (_, p3) = expect_x(toks, p, Token::RBrace)?;
    Ok((stmts, p3))
}

fn parse_stmt_x(toks: &TokVec, pos: usize) -> (r: Result<(Stmt, usize), CompileError>)
    requires
        toks@.len() <= usize::MAX,
        pos < toks@.len(),
    ensures
        match r {
            Ok((st, p)) => parse_stmt(tv(toks), pos as int) == Ok::<(StmtV, int), ErrorV>((st@, p as int))
                && pos < p <= toks@.len(),
            Err(e) => parse_stmt(tv(toks), pos as int) == Err::<(StmtV, int), ErrorV>(e@),
        },
    decreases toks@.len() - pos, 5int,
{
    let start = span_here_x(toks, pos);
    match &toks[pos].0 {
        Token::Let => {
            let (name, _) = consume_ident_x(toks, pos + 1)?;
            let (_, p2) = expect_x(toks, pos + 2, Token::Eq)?;
            let (value, p3) = parse_expr_bp_x(toks, p2, 0)?;
            Ok((Stmt { kind: StmtKind::Let { name, value }, span: start }, p3))
        },
        Token::If => {
            let (cond, p1) = parse_expr_bp_x(toks, pos + 1, 0)?;
            let (then_block, p2) = parse_block_x(toks, p1)?;
            if peek_is(toks, p2, &Token::Else) {
                let (eb, p3) = parse_block_x(toks, p2 + 1)?;
                Ok(
                    (
                        Stmt {
                            kind: StmtKind::If { cond, then_block, else_block: Some(eb) },
                            span: start,
                        },
                        p3,
                    ),
                )
            } else {
                Ok(
                    (
                        Stmt { kind: StmtKind::If { cond, then_block, else_block: None }, span: start },
                        p2,
                    ),
                )
            }
        },
        Token::While => {
            let (cond, p1) = parse_expr_bp_x(toks, pos + 1, 0)?;
            let (body, p2) = parse_block_x(toks, p1)?;
            Ok((Stmt { kind: StmtKind::While { cond, body }, span: start }, p2))
        },
        Token::Return => {
            if pos + 1 >= toks.len() || peek_is(toks, pos + 1, &Token::RBrace) {
                Ok((Stmt { kind: StmtKind::Return(None), span: start }, pos + 1))
            } else {
                let (v, p1) = parse_expr_bp_x(toks, pos + 1, 0)?;
                Ok((Stmt { kind: StmtKind::Return(Some(v)), span: start }, p1))
            }
        },
        Token::Ident(name) if peek_is(toks, pos + 1, &Token::Eq) => {
            let name = name.clone();
            let (value, p3) = parse_expr_bp_x(toks, pos + 2, 0)?;
            Ok((Stmt { kind: StmtKind::Assign { name, value }, span: start }, p3))
        },
        _ => {
            let (e, p1) = parse_expr_bp_x(toks, pos, 0)?;
            Ok((Stmt { kind: StmtKind::Expr(e), span: start }, p1))
        },
    }
}

fn parse_expr_bp_x(toks: &TokVec, pos: usize, min_bp: u8) -> (r: Result<(Expr, usize), CompileError>)
    requires
        pos <= toks@.len(),
        toks@.len() <= usize::MAX,
        min_bp <= 6,
    ensures
        match r {
            Ok((e, p)) => parse_expr_bp(tv(toks), pos as int, min_bp) == Ok::<(ExprV, int), ErrorV>(
                (e@, p as int),
            ) && pos < p <= toks@.len(),
            Err(e) => parse_expr_bp(tv(toks), pos as int, min_bp) == Err::<(ExprV, int), ErrorV>(e@),
        },
    decreases toks@.len() - pos, 4int,
{
    let (first, p1) = parse_unary_x(toks, pos)?;
    let mut lhs = first;
    let mut p = p1;
    loop
        invariant
            pos < p <= toks@.len(),
            toks@.len() <= usize::MAX,
            min_bp <= 6,
            parse_expr_bp(tv(toks), pos as int, min_bp) == expr_rest(tv(toks), p as int, min_bp, lhs@),
        decreases toks@.len() - p,
    {
        if peek_is(toks, p, &Token::As) {
            if 6 < min_bp {
                return Ok((lhs, p));
            }
            let (target, p2) = parse_type_x(toks, p + 1)?;
            let span = lhs.span;
            lhs = Expr { kind: ExprKind::Cast { expr: Box::new(lhs), target }, span };
            p = p2;
        } else if let Some((op, bp)) = binop_of(toks, p) {
            if bp < min_bp {
                return Ok((lhs, p));
            }
            let (rhs, p2) = parse_expr_bp_x(toks, p + 1, bp + 1)?;
            let span = lhs.span;
            lhs = Expr { kind: ExprKind::Binary { op, lhs: Box::new(lhs), rhs: Box::new(rhs) }, span };
            p = p2;
        } else {
            return Ok((lhs, p));
        }
    }
}

fn parse_unary_x(toks: &TokVec, pos: usize) -> (r: Result<(Expr, usize), CompileError>)
    requires
        toks@.len() <= usize::MAX,
        pos <= toks@.len(),
    ensures
        match r {
            Ok((e, p)) => parse_unary(tv(toks), pos as int) == Ok::<(ExprV, int), ErrorV>((e@, p as int))
                && pos < p <= toks@.len(),
            Err(e) => parse_unary(tv(toks), pos as int) == Err::<(ExprV, int), ErrorV>(e@),
        },
    decreases toks@.len() - pos, 3int,
{
    let span = span_here_x(toks, pos);
    let is_neg = peek_is(toks, pos, &Token::Minus);
    if is_neg || peek_is(toks, pos, &Token::Bang) {
        let op = if is_neg { UnOp::Neg } else { UnOp::Not };
        let (e, p1) = parse_unary_x(toks, pos + 1)?;
        Ok((Expr { kind: ExprKind::Unary { op, expr: Box::new(e) }, span }, p1))
    } else {
        parse_primary_x(toks, pos)
    }
}

fn parse_primary_x(toks: &TokVec, pos: usize) -> (r: Result<(Expr, usize), CompileError>)
    requires
        toks@.len() <= usize::MAX,
        pos <= toks@.len(),
    ensures
        match r {
            Ok((e, p)) => parse_primary(tv(toks), pos as int) == Ok::<(ExprV, int), ErrorV>((e@, p as int))
                && pos < p <= toks@.len(),
            Err(e) => parse_primary(tv(toks), pos as int) == Err::<(ExprV, int), ErrorV>(e@),
        },
    decreases toks@.len() - pos, 2int,
{
    let span = span_here_x(toks, pos);
    if pos < toks.len() {
        match &toks[pos].0 {
            Token::Int(n) => {
                return Ok((Expr { kind: ExprKind::Int(*n), span }, pos + 1));
            },
            Token::Float(f) => {
                return Ok((Expr { kind: ExprKind::Float(f.clone()), span }, pos + 1));
            },
            Token::True => {
                return Ok((Expr { kind: ExprKind::Bool(true), span }, pos + 1));
            },
            Token::False => {
                return Ok((Expr { kind: ExprKind::Bool(false), span }, pos + 1));
            },
            Token::Str(s) => {
                return Ok((Expr { kind: ExprKind::Str(s.clone()), span }, pos + 1));
            },
            Token::LParen => {
                let (e, p1) = parse_expr_bp_x(toks, pos + 1, 0)?;
                let (_, p2) = expect_x(toks, p1, Token::RParen)?;
                return Ok((e, p2));
            },
            Token::Ident(name) => {
                let name = name.clone();
                if peek_is(toks, pos + 1, &Token::LParen) {
                    let mut args: Vec<Expr> = Vec::new();
                    let mut p = pos + 2;
                    assert(exprs_v(args@) =~= Seq::<ExprV>::empty());
                    let mut more = !peek_is(toks, pos + 2, &Token::RParen);
                    while more
                        invariant
                            pos + 2 <= p <= toks@.len(),
                            toks@.len() <= usize::MAX,
                            more ==> parse_primary(tv(toks), pos as int) == call_after_args(
                                tv(toks),
                                span,
                                name@,
                                args_rest(tv(toks), p as int, exprs_v(args@)),
                            ),
                            !more ==> parse_primary(tv(toks), pos as int) == call_after_args(
                                tv(toks),
                                span,
                                name@,
                                Ok((exprs_v(args@), p as int)),
                            ),
                        decreases toks@.len() - p, if more { 1int } else { 0int },
                    {
                        let (a, p1) = parse_expr_bp_x(toks, p, 0)?;
                        proof {
                            lemma_exprs_v_push(args@, a);
                        }
                        args.push(a);
                        if peek_is(toks, p1, &Token::Comma) {
                            p = p1 + 1;
                        } else {
                            p = p1;
                            more = false;
                        }
                    }
                    let (_, p4) = expect_x(toks, p, Token::RParen)?;
                    return Ok((Expr { kind: ExprKind::Call { name, args }, span }, p4));
                } else {
                    return Ok((Expr { kind: ExprKind::Ident(name), span }, pos + 1));
                }
            },
            _ => {},
        }
    }
    let got = here_text(toks, pos);
    Err(CompileError::at(span, concat3("unexpected ", got.as_str(), " in expression")))
}

fn parse_func_x(toks: &TokVec, pos: usize) -> (r: Result<(Func, usize), CompileError>)
    requires
        toks@.len() <= usize::MAX,
        pos <= toks@.len(),
    ensures
        match r {
            Ok((f, p)) => parse_func(tv(toks), pos as int) == Ok::<(FuncV, int), ErrorV>((f@, p as int))
                && pos < p <= toks@.len(),
            Err(e) => parse_func(tv(toks), pos as int) == Err::<(FuncV, int), ErrorV>(e@),
        },
{
    let (span, p1) = expect_x(toks, pos, Token::Fn)?;
    let (name, _) = consume_ident_x(toks, p1)?;
    let (_, p3) = expect_x(toks, p1 + 1, Token::LParen)?;
    let mut params: Vec<(String, Type)> = Vec::new();
    let mut p = p3;
    assert(params_v(params@) =~= Seq::<(Seq<char>, Type)>::empty());
    let mut more = !peek_is(toks, p3, &Token::RParen);
    while more
        invariant
            p3 <= p <= toks@.len(),
            toks@.len() <= usize::MAX,
            more ==> parse_func(tv(toks), pos as int) == func_after_params(
                tv(toks),
                span,
                name@,
                params_rest(tv(toks), p as int, params_v(params@)),
            ),
            !more ==> parse_func(tv(toks), pos as int) == func_after_params(
                tv(toks),
                span,
                name@,
                Ok((params_v(params@), p as int)),
            ),
        decreases toks@.len() - p, if more { 1int } else { 0int },
    {
        let (pname, _) = consume_ident_x(toks, p)?;
        let (_, p2) = expect_x(toks, p + 1, Token::Colon)?;
        let (pty, q) = parse_type_x(toks, p2)?;
        let ghost old_params = params@;
        params.push((pname, pty));
        assert(params_v(params@) =~= params_v(old_params).push((pname@, pty)));
        if peek_is(toks, q, &Token::Comma) {
            p = q + 1;
        } else {
            p = q;
            more = false;
        }
    }
    let (_, p5) = expect_x(toks, p, Token::RParen)?;
    let (ret, p6) = if peek_is(toks, p5, &Token::Arrow) {
        parse_type_x(toks, p5 + 1)?
    } else {
        (Type::Void, p5)
    };
    let (body, p7) = parse_block_x(toks, p6)?;
    Ok((Func { name, params, ret, body, span }, p7))
}

/// Parses the tokens of one file. The result is exactly [`parse_file`] of
/// the tokens' values: the `use` declarations and functions, or the first
/// syntax error.
pub fn parse(tokens: Vec<(Token, Span)>) -> (r: Result<ParsedFile, CompileError>)
    ensures
        match r {
            Ok(f) => parse_file(toks_v(tokens@)) == Ok::<ParsedFileV, ErrorV>(f@),
            Err(e) => parse_file(toks_v(tokens@)) == Err::<ParsedFileV, ErrorV>(e@),
        },
{
    let toks = &tokens;
    let mut uses: Vec<UseDecl> = Vec::new();
    let mut funcs: Vec<Func> = Vec::new();
    let mut p: usize = 0;
    assert(uses_v(uses@) =~= Seq::<UseDeclV>::empty());
    while peek_is(toks, p, &Token::Use)
        invariant
            p <= toks@.len(),
            toks@.len() <= usize::MAX,
            toks@ == tokens@,
            parse_file(tv(toks)) == file_after_uses(tv(toks), uses_rest(tv(toks), p as int, uses_v(uses@))),
        decreases toks@.len() - p,
    {
        let (u, p1) = match parse_use_x(toks, p) {
            Ok(x) => x,
            Err(e) => {
                return Err(e);
            },
        };
        let ghost old_uses = uses@;
        uses.push(u);
        assert(uses_v(uses@) =~= uses_v(old_uses).push(UseDeclV { path: u.path@, span: u.span }));
        p = p1;
    }
    assert(funcs_v(funcs@) =~= Seq::<FuncV>::empty());
    while p < toks.len()
        invariant
            p <= toks@.len(),
            toks@.len() <= usize::MAX,
            toks@ == tokens@,
            parse_file(tv(toks)) == (match funcs_rest(tv(toks), p as int, funcs_v(funcs@)) {
                Err(e) => Err(e),
                Ok(fs) => Ok(ParsedFileV { uses: uses_v(uses@), funcs: fs }),
            }),
        decreases toks@.len() - p,
    {
        if peek_is(toks, p, &Token::Use) {
            let sp = span_here_x(toks, p);
            return Err(CompileError::at(sp, String::from_str("`use` declarations must appear before any `fn`")));
        }
        let (f, p1) = match parse_func_x(toks, p) {
            Ok(x) => x,
            Err(e) => {
                return Err(e);
            },
        };
        let ghost old_funcs = funcs@;
        funcs.push(f);
        assert(funcs_v(funcs@) =~= funcs_v(old_funcs).push(f@));
        p = p1;
    }
    Ok(ParsedFile { uses, funcs })
}

// ---------------------------------------------------------------------------
// A function's position is that of its `fn` token.

pub open spec fn funcs_in_file(fs: Seq<FuncV>, file: u32) -> bool {
    forall|j: int| 0 <= j < fs.len() ==> #[trigger] fs[j].span.file == file
}

proof fn lemma_funcs_rest_file(t: Toks, pos: int, acc: Seq<FuncV>, file: u32)
    requires
        all_in_file(t, file),
        funcs_in_file(acc, file),
    ensures
        funcs_rest(t, pos, acc) matches Ok(fs) ==> funcs_in_file(fs, file),
    decreases t.len() - pos,
{
    if 0 <= pos < t.len() && peek(t, pos) != Some(TokenV::Use) {
        if let Ok((f, p1)) = parse_func(t, pos) {
            if moved(t, pos, p1) {
                assert(f.span == t[pos].1);
                let acc2 = acc.push(f);
                assert(funcs_in_file(acc2, file)) by {
                    assert forall|j: int| 0 <= j < acc2.len() implies #[trigger] acc2[j].span.file == file by {
                        if j < acc.len() {
                            assert(acc2[j] == acc[j]);
                        }
                    }
                }
                lemma_funcs_rest_file(t, p1, acc2, file);
            }
        }
    }
}

/// Every function parsed from tokens of one file has a position in that file.
pub proof fn lemma_parse_file_in_file(t: Toks, file: u32)
    requires
        all_in_file(t, file),
    ensures
        parse_file(t) matches Ok(pf) ==> funcs_in_file(pf.funcs, file),
{
    let (uses, p, err) = uses_rest(t, 0, Seq::empty());
    lemma_funcs_rest_file(t, p, Seq::empty(), file);
}


// ---------------------------------------------------------------------------
// Every position the parser reports is one of the tokens'.

/// A position taken from the tokens `t` of `file` (when there are any).
pub open spec fn here_ok(t: Toks, file: u32, sp: Span) -> bool {
    t.len() == 0 || sp.file == file
}

/// An error reported at a position taken from the tokens.
pub open spec fn err_ok(t: Toks, file: u32, e: ErrorV) -> bool {
    e.span matches Some(sp) && here_ok(t, file, sp)
}

/// Every position the parser can report lies in `file`.
pub open spec fn heres_ok(t: Toks, file: u32) -> bool {
    forall|p: int| here_ok(t, file, #[trigger] span_here(t, p))
}

proof fn lemma_heres_ok(t: Toks, file: u32)
    requires
        all_in_file(t, file),
    ensures
        heres_ok(t, file),
{
    assert forall|p: int| here_ok(t, file, #[trigger] span_here(t, p)) by {
        if 0 <= p < t.len() {
            assert(t[p].1.file == file);
        } else if t.len() > 0 {
            assert(t[t.len() - 1].1.file == file);
        }
    }
}

proof fn lemma_block_err(t: Toks, pos: int, file: u32)
    requires
        heres_ok(t, file),
    ensures
        parse_block(t, pos) matches Err(e) ==> err_ok(t, file, e),
    decreases t.len() - pos, 6int,
{
    if let Ok((open, p1)) = expect(t, pos, TokenV::LBrace) {
        lemma_block_rest_err(t, p1, open, Seq::empty(), file);
    }
}

proof fn lemma_block_rest_err(t: Toks, pos: int, open: Span, acc: Seq<StmtV>, file: u32)
    requires
        heres_ok(t, file),
        here_ok(t, file, open),
    ensures
        block_rest(t, pos, open, acc) matches Err(e) ==> err_ok(t, file, e),
    decreases t.len() - pos, 6int,
{
    if 0 <= pos <= t.len() && peek(t, pos) != Some(TokenV::RBrace) && pos < t.len() {
        lemma_stmt_err(t, pos, file);
        if let Ok((st, p2)) = parse_stmt(t, pos) {
            if moved(t, pos, p2) {
                lemma_block_rest_err(t, p2, open, acc.push(st), file);
            }
        }
    }
}

proof fn lemma_stmt_err(t: Toks, pos: int, file: u32)
    requires
        heres_ok(t, file),
    ensures
        parse_stmt(t, pos) matches Err(e) ==> err_ok(t, file, e),
    decreases t.len() - pos, 5int,
{
    if 0 <= pos <= t.len() {
        match peek(t, pos) {
            Some(TokenV::Let) => {
                if let Ok((name, p1)) = consume_ident(t, pos + 1) {
                    if let Ok((_, p2)) = expect(t, p1, TokenV::Eq) {
                        if moved(t, pos, p2) {
                            lemma_expr_err(t, p2, 0, file);
                        }
                    }
                }
            },
            Some(TokenV::If) => {
                lemma_expr_err(t, pos + 1, 0, file);
                if let Ok((cond, p1)) = parse_expr_bp(t, pos + 1, 0) {
                    if moved(t, pos, p1) {
                        lemma_block_err(t, p1, file);
                        if let Ok((tb, p2)) = parse_block(t, p1) {
                            if moved(t, pos, p2) && peek(t, p2) == Some(TokenV::Else) {
                                lemma_block_err(t, p2 + 1, file);
                            }
                        }
                    }
                }
            },
            Some(TokenV::While) => {
                lemma_expr_err(t, pos + 1, 0, file);
                if let Ok((cond, p1)) = parse_expr_bp(t, pos + 1, 0) {
                    if moved(t, pos, p1) {
                        lemma_block_err(t, p1, file);
                    }
                }
            },
            Some(TokenV::Return) => {
                lemma_expr_err(t, pos + 1, 0, file);
            },
            Some(TokenV::Ident(name)) => {
                if peek(t, pos + 1) == Some(TokenV::Eq) {
                    if pos + 2 <= t.len() {
                        lemma_expr_err(t, pos + 2, 0, file);
                    }
                } else {
                    lemma_expr_err(t, pos, 0, file);
                }
            },
            _ => {
                lemma_expr_err(t, pos, 0, file);
            },
        }
    }
}

proof fn lemma_expr_err(t: Toks, pos: int, min_bp: u8, file: u32)
    requires
        heres_ok(t, file),
    ensures
        parse_expr_bp(t, pos, min_bp) matches Err(e) ==> err_ok(t, file, e),
    decreases t.len() - pos, 4int,
{
    if 0 <= pos <= t.len() {
        lemma_unary_err(t, pos, file);
        if let Ok((lhs, p1)) = parse_unary(t, pos) {
            if moved(t, pos, p1) {
                lemma_rest_err(t, p1, min_bp, lhs, file);
            }
        }
    }
}

proof fn lemma_rest_err(t: Toks, pos: int, min_bp: u8, lhs: ExprV, file: u32)
    requires
        heres_ok(t, file),
    ensures
        expr_rest(t, pos, min_bp, lhs) matches Err(e) ==> err_ok(t, file, e),
    decreases t.len() - pos, 4int,
{
    if 0 <= pos <= t.len() {
        if peek(t, pos) == Some(TokenV::As) {
            if cast_bp() >= min_bp {
                if let Ok((target, p2)) = parse_type(t, pos + 1) {
                    if moved(t, pos, p2) {
                        lemma_rest_err(
                            t,
                            p2,
                            min_bp,
                            ExprV { kind: ExprKindV::Cast { expr: Box::new(lhs), target }, span: lhs.span },
                            file,
                        );
                    }
                }
            }
        } else if binop_info(peek(t, pos)) is Some {
            let (op, bp) = binop_info(peek(t, pos)).unwrap();
            if bp >= min_bp {
                lemma_expr_err(t, pos + 1, (bp + 1) as u8, file);
                if let Ok((rhs, p2)) = parse_expr_bp(t, pos + 1, (bp + 1) as u8) {
                    if moved(t, pos, p2) {
                        lemma_rest_err(
                            t,
                            p2,
                            min_bp,
                            ExprV {
                                kind: ExprKindV::Binary { op, lhs: Box::new(lhs), rhs: Box::new(rhs) },
                                span: lhs.span,
                            },
                            file,
                        );
                    }
                }
            }
        }
    }
}

proof fn lemma_unary_err(t: Toks, pos: int, file: u32)
    requires
        heres_ok(t, file),
    ensures
        parse_unary(t, pos) matches Err(e) ==> err_ok(t, file, e),
    decreases t.len() - pos, 3int,
{
    if 0 <= pos <= t.len() {
        if peek(t, pos) == Some(TokenV::Minus) || peek(t, pos) == Some(TokenV::Bang) {
            lemma_unary_err(t, pos + 1, file);
        } else {
            lemma_primary_err(t, pos, file);
        }
    }
}

proof fn lemma_primary_err(t: Toks, pos: int, file: u32)
    requires
        heres_ok(t, file),
    ensures
        parse_primary(t, pos) matches Err(e) ==> err_ok(t, file, e),
    decreases t.len() - pos, 2int,
{
    if 0 <= pos <= t.len() {
        match peek(t, pos) {
            Some(TokenV::LParen) => {
                lemma_expr_err(t, pos + 1, 0, file);
            },
            Some(TokenV::Ident(name)) => {
                if peek(t, pos + 1) == Some(TokenV::LParen) && peek(t, pos + 2) != Some(TokenV::RParen) {
                    lemma_args_err(t, pos + 2, Seq::empty(), file);
                }
            },
            _ => {},
        }
    }
}

proof fn lemma_args_err(t: Toks, pos: int, acc: Seq<ExprV>, file: u32)
    requires
        heres_ok(t, file),
    ensures
        args_rest(t, pos, acc) matches Err(e) ==> err_ok(t, file, e),
    decreases t.len() - pos, 5int,
{
    if 0 <= pos <= t.len() {
        lemma_expr_err(t, pos, 0, file);
        if let Ok((a, p1)) = parse_expr_bp(t, pos, 0) {
            if moved(t, pos, p1) && peek(t, p1) == Some(TokenV::Comma) {
                lemma_args_err(t, p1 + 1, acc.push(a), file);
            }
        }
    }
}

proof fn lemma_params_err(t: Toks, pos: int, acc: Seq<(Seq<char>, Type)>, file: u32)
    requires
        heres_ok(t, file),
    ensures
        params_rest(t, pos, acc) matches Err(e) ==> err_ok(t, file, e),
    decreases t.len() - pos,
{
    if 0 <= pos <= t.len() {
        if let Ok((pname, p1)) = consume_ident(t, pos) {
            if let Ok((_, p2)) = expect(t, p1, TokenV::Colon) {
                if let Ok((pty, p3)) = parse_type(t, p2) {
                    if peek(t, p3) == Some(TokenV::Comma) && p3 + 1 > pos {
                        lemma_params_err(t, p3 + 1, acc.push((pname, pty)), file);
                    }
                }
            }
        }
    }
}

proof fn lemma_func_err(t: Toks, pos: int, file: u32)
    requires
        heres_ok(t, file),
    ensures
        parse_func(t, pos) matches Err(e) ==> err_ok(t, file, e),
{
    if let Ok((span, p1)) = expect(t, pos, TokenV::Fn) {
        if let Ok((name, p2)) = consume_ident(t, p1) {
            if let Ok((_, p3)) = expect(t, p2, TokenV::LParen) {
                if peek(t, p3) != Some(TokenV::RParen) {
                    lemma_params_err(t, p3, Seq::empty(), file);
                }
                let params = if peek(t, p3) != Some(TokenV::RParen) {
                    params_rest(t, p3, Seq::empty())
                } else {
                    Ok((Seq::empty(), p3))
                };
                if let Ok((ps, p4)) = params {
                    if let Ok((_, p5)) = expect(t, p4, TokenV::RParen) {
                        let ret = if peek(t, p5) == Some(TokenV::Arrow) {
                            parse_type(t, p5 + 1)
                        } else {
                            Ok((Type::Void, p5))
                        };
                        if let Ok((r, p6)) = ret {
                            lemma_block_err(t, p6, file);
                        }
                    }
                }
            }
        }
    }
}

proof fn lemma_funcs_err(t: Toks, pos: int, acc: Seq<FuncV>, file: u32)
    requires
        heres_ok(t, file),
    ensures
        funcs_rest(t, pos, acc) matches Err(e) ==> err_ok(t, file, e),
    decreases t.len() - pos,
{
    if 0 <= pos < t.len() && peek(t, pos) != Some(TokenV::Use) {
        lemma_func_err(t, pos, file);
        if let Ok((f, p1)) = parse_func(t, pos) {
            if moved(t, pos, p1) {
                lemma_funcs_err(t, p1, acc.push(f), file);
            }
        }
    }
}

proof fn lemma_uses_err(t: Toks, pos: int, acc: Seq<UseDeclV>, file: u32)
    requires
        heres_ok(t, file),
        forall|k: int| 0 <= k < acc.len() ==> here_ok(t, file, #[trigger] acc[k].span),
    ensures
        uses_rest(t, pos, acc).2 matches Some(e) ==> err_ok(t, file, e),
        forall|k: int| 0 <= k < uses_rest(t, pos, acc).0.len() ==> here_ok(t, file, #[trigger] uses_rest(t, pos, acc).0[k].span),
    decreases t.len() - pos,
{
    if 0 <= pos < t.len() && peek(t, pos) == Some(TokenV::Use) {
        if let Ok((u, p1)) = parse_use(t, pos) {
            let acc2 = acc.push(u);
            assert forall|k: int| 0 <= k < acc2.len() implies here_ok(t, file, #[trigger] acc2[k].span) by {
                if k < acc.len() {
                    assert(acc2[k] == acc[k]);
                }
            }
            lemma_uses_err(t, p1, acc2, file);
        }
    }
}

/// Every position the parser reports lies in the file its tokens come from:
/// the position of an error, and those of the `use` declarations.
pub proof fn lemma_parse_file_spans(t: Toks, file: u32)
    requires
        all_in_file(t, file),
    ensures
        parse_file(t) matches Err(e) ==> e.span matches Some(sp) && sp.file == file,
        parse_file(t) matches Ok(pf) ==> forall|k: int| 0 <= k < pf.uses.len() ==> (#[trigger] pf.uses[k]).span.file == file,
{
    lemma_heres_ok(t, file);
    lemma_uses_err(t, 0, Seq::empty(), file);
    let (uses, p, err) = uses_rest(t, 0, Seq::empty());
    lemma_funcs_err(t, p, Seq::empty(), file);
    if t.len() == 0 {
        assert(uses_rest(t, 0, Seq::empty()) == (Seq::<UseDeclV>::empty(), 0int, None::<ErrorV>));
    }
}


/// Each operator token parses to the operator it spells: the operator that
/// the parser reads from a token is written exactly as the token is shown.
pub proof fn law_operator_tokens(k: TokenV)
    ensures
        binop_info(Some(k)) matches Some((op, _)) ==> tok_text(k) == seq!['`'] + op_symbol(op) + seq!['`'],
{
    reveal_strlit("`||`");
    reveal_strlit("`&&`");
    reveal_strlit("`==`");
    reveal_strlit("`!=`");
    reveal_strlit("`<`");
    reveal_strlit("`<=`");
    reveal_strlit("`>`");
    reveal_strlit("`>=`");
    reveal_strlit("`+`");
    reveal_strlit("`-`");
    reveal_strlit("`*`");
    reveal_strlit("`/`");
    if let Some((op, _)) = binop_info(Some(k)) {
        assert(tok_text(k) =~= seq!['`'] + op_symbol(op) + seq!['`']);
    }
}


/// Every binary operator round-trips through the lexer and the parser: its
/// written form lexes to a single token, which the parser reads as that
/// operator.
pub proof fn law_operator_round_trip(op: BinOp, file: u32)
    ensures
        lex(op_symbol(op), file) matches Ok(v) && v.len() == 1 && (binop_info(Some(v[0].0)) matches Some((o, _)) && o == op),
{
    let s = op_symbol(op);
    assert(lex_from(s, s.len() as int, file) == Ok::<Seq<(TokenV, Span)>, ErrorV>(Seq::empty()));
    assert(seq![(TokenV::Plus, span_at(s, 0, file))] + Seq::<(TokenV, Span)>::empty() =~= seq![(TokenV::Plus, span_at(s, 0, file))]);
    let r = lex(s, file);
    if let Ok(v) = r {
        assert(v.len() == 1);
    }
}

/// How tightly operators bind, from loosest: `||`, `&&`, the comparisons,
/// `+` and `-`, then `*` and `/`; each binds looser than a cast.
pub proof fn law_precedence(k1: TokenV, k2: TokenV)
    ensures
        binop_info(Some(k1)) matches Some((o1, b1)) ==> (binop_info(Some(k2)) matches Some((o2, b2)) ==> (
            (o1 == BinOp::Or && o2 != BinOp::Or ==> b1 < b2)
            && (o1 == BinOp::And && o2 != BinOp::Or && o2 != BinOp::And ==> b1 < b2)
            && ((o1 == BinOp::Add || o1 == BinOp::Sub) && (o2 == BinOp::Mul || o2 == BinOp::Div) ==> b1 < b2)
            && ((o1 == BinOp::Add || o1 == BinOp::Sub) && (o2 == BinOp::Add || o2 == BinOp::Sub) ==> b1 == b2)
            && ((o1 == BinOp::Mul || o1 == BinOp::Div) && (o2 == BinOp::Mul || o2 == BinOp::Div) ==> b1 == b2)
            && (is_comparison_op(o1) && is_comparison_op(o2) ==> b1 == b2)
            && (is_comparison_op(o1) && !is_comparison_op(o2) && o2 != BinOp::And && o2 != BinOp::Or ==> b1 < b2)
            && b1 < cast_bp()
        )),
{
}

/// The comparison operators.
pub open spec fn is_comparison_op(o: BinOp) -> bool {
    o == BinOp::Eq || o == BinOp::Ne || o == BinOp::Lt || o == BinOp::Le || o == BinOp::Gt || o == BinOp::Ge
}


/// `l op r`, placed where `l` starts.
pub open spec fn binary(op: BinOp, l: ExprV, r: ExprV) -> ExprV {
    ExprV { kind: ExprKindV::Binary { op, lhs: Box::new(l), rhs: Box::new(r) }, span: l.span }
}

/// The number literal of token `k` of `t`, at its place.
pub open spec fn number_at(t: Toks, k: int, n: i64) -> ExprV {
    ExprV { kind: ExprKindV::Int(n), span: t[k].1 }
}

/// How `a o1 b o2 c` groups: operators of equal binding power group to
/// the left, and otherwise the one that binds tighter takes its operands
/// first; the expression reads to its end.
pub proof fn law_grouping(t: Toks, a: i64, b: i64, c: i64)
    requires
        t.len() == 5,
        t[0].0 == TokenV::Int(a),
        t[2].0 == TokenV::Int(b),
        t[4].0 == TokenV::Int(c),
        binop_info(Some(t[1].0)) is Some,
        binop_info(Some(t[3].0)) is Some,
    ensures
        ({
            let (o1, b1) = binop_info(Some(t[1].0)).unwrap();
            let (o2, b2) = binop_info(Some(t[3].0)).unwrap();
            let (x, y, z) = (number_at(t, 0, a), number_at(t, 2, b), number_at(t, 4, c));
            parse_expr_bp(t, 0, 0) == Ok::<(ExprV, int), ErrorV>((
                if b2 <= b1 { binary(o2, binary(o1, x, y), z) } else { binary(o1, x, binary(o2, y, z)) },
                5,
            ))
        }),
{
    let (o1, b1) = binop_info(Some(t[1].0)).unwrap();
    let (o2, b2) = binop_info(Some(t[3].0)).unwrap();
    let x = number_at(t, 0, a);
    let y = number_at(t, 2, b);
    let z = number_at(t, 4, c);
    assert(peek(t, 0) == Some(TokenV::Int(a)));
    assert(parse_primary(t, 0) == Ok::<(ExprV, int), ErrorV>((x, 1)));
    assert(parse_unary(t, 0) == Ok::<(ExprV, int), ErrorV>((x, 1)));
    assert(peek(t, 2) == Some(TokenV::Int(b)));
    assert(parse_primary(t, 2) == Ok::<(ExprV, int), ErrorV>((y, 3)));
    assert(parse_unary(t, 2) == Ok::<(ExprV, int), ErrorV>((y, 3)));
    assert(peek(t, 4) == Some(TokenV::Int(c)));
    assert(parse_primary(t, 4) == Ok::<(ExprV, int), ErrorV>((z, 5)));
    assert(parse_unary(t, 4) == Ok::<(ExprV, int), ErrorV>((z, 5)));
    assert(expr_rest(t, 5, (b2 + 1) as u8, z) == Ok::<(ExprV, int), ErrorV>((z, 5)));
    assert(parse_expr_bp(t, 4, (b2 + 1) as u8) == Ok::<(ExprV, int), ErrorV>((z, 5)));
    if b2 <= b1 {
        assert(expr_rest(t, 3, (b1 + 1) as u8, y) == Ok::<(ExprV, int), ErrorV>((y, 3)));
        assert(parse_expr_bp(t, 2, (b1 + 1) as u8) == Ok::<(ExprV, int), ErrorV>((y, 3)));
        let xy = binary(o1, x, y);
        assert(expr_rest(t, 5, 0, binary(o2, xy, z)) == Ok::<(ExprV, int), ErrorV>((binary(o2, xy, z), 5)));
        assert(expr_rest(t, 3, 0, xy) == Ok::<(ExprV, int), ErrorV>((binary(o2, xy, z), 5)));
        assert(expr_rest(t, 1, 0, x) == Ok::<(ExprV, int), ErrorV>((binary(o2, xy, z), 5)));
    } else {
        let yz = binary(o2, y, z);
        assert(expr_rest(t, 5, (b1 + 1) as u8, yz) == Ok::<(ExprV, int), ErrorV>((yz, 5)));
        assert(expr_rest(t, 3, (b1 + 1) as u8, y) == Ok::<(ExprV, int), ErrorV>((yz, 5)));
        assert(parse_expr_bp(t, 2, (b1 + 1) as u8) == Ok::<(ExprV, int), ErrorV>((yz, 5)));
        assert(expr_rest(t, 5, 0, binary(o1, x, yz)) == Ok::<(ExprV, int), ErrorV>((binary(o1, x, yz), 5)));
        assert(expr_rest(t, 1, 0, x) == Ok::<(ExprV, int), ErrorV>((binary(o1, x, yz), 5)));
    }
}

} // verus!
