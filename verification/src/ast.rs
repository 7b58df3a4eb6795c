use vstd::prelude::*;

use crate::span::Span;

verus! {

/// The types of the language. `Void` is the type of functions that return nothing.
#[derive(Debug, Clone, Copy, PartialEq, Eq, Structural)]
pub enum Type {
    Int,
    Float,
    Bool,
    Str,
    Void,
}

#[derive(Debug, Clone, Copy, PartialEq, Eq, Structural)]
pub enum BinOp {
    Add,
    Sub,
    Mul,
    Div,
    Eq,
    Ne,
    Lt,
    Le,
    Gt,
    Ge,
    And,
    Or,
}

#[derive(Debug, Clone, Copy, PartialEq, Eq, Structural)]
pub enum UnOp {
    Neg,
    Not,
}

#[derive(Debug)]
pub struct Expr {
    pub kind: ExprKind,
    pub span: Span,
}

/// Expression forms. A float literal keeps its source text (`DIGITS.DIGITS`).
#[derive(Debug)]
pub enum ExprKind {
    Int(i64),
    Float(String),
    Bool(bool),
    Str(String),
    Ident(String),
    Unary { op: UnOp, expr: Box<Expr> },
    Binary { op: BinOp, lhs: Box<Expr>, rhs: Box<Expr> },
    Call { name: String, args: Vec<Expr> },
    Cast { expr: Box<Expr>, target: Type },
}

#[derive(Debug)]
pub struct Stmt {
    pub kind: StmtKind,
    pub span: Span,
}

#[derive(Debug)]
pub enum StmtKind {
    Let { name: String, value: Expr },
    Assign { name: String, value: Expr },
    If { cond: Expr, then_block: Vec<Stmt>, else_block: Option<Vec<Stmt>> },
    While { cond: Expr, body: Vec<Stmt> },
    Return(Option<Expr>),
    Expr(Expr),
}

#[derive(Debug)]
pub struct Func {
    pub name: String,
    pub params: Vec<(String, Type)>,
    pub ret: Type,
    pub body: Vec<Stmt>,
    pub span: Span,
}

#[derive(Debug)]
pub struct UseDecl {
    pub path: String,
    pub span: Span,
}

/// One source file: its `use` declarations and its functions.
#[derive(Debug)]
pub struct ParsedFile {
    pub uses: Vec<UseDecl>,
    pub funcs: Vec<Func>,
}

/// A whole program: the functions of every file it is made of.
#[derive(Debug)]
pub struct Program {
    pub funcs: Vec<Func>,
}

// ---------------------------------------------------------------------------
// Mathematical values of the tree.

pub struct ExprV {
    pub kind: ExprKindV,
    pub span: Span,
}

pub enum ExprKindV {
    Int(i64),
    Float(Seq<char>),
    Bool(bool),
    Str(Seq<char>),
    Ident(Seq<char>),
    Unary { op: UnOp, expr: Box<ExprV> },
    Binary { op: BinOp, lhs: Box<ExprV>, rhs: Box<ExprV> },
    Call { name: Seq<char>, args: Seq<ExprV> },
    Cast { expr: Box<ExprV>, target: Type },
}

pub struct StmtV {
    pub kind: StmtKindV,
    pub span: Span,
}

pub enum StmtKindV {
    Let { name: Seq<char>, value: ExprV },
    Assign { name: Seq<char>, value: ExprV },
    If { cond: ExprV, then_block: Seq<StmtV>, else_block: Option<Seq<StmtV>> },
    While { cond: ExprV, body: Seq<StmtV> },
    Return(Option<ExprV>),
    Expr(ExprV),
}

pub struct FuncV {
    pub name: Seq<char>,
    pub params: Seq<(Seq<char>, Type)>,
    pub ret: Type,
    pub body: Seq<StmtV>,
    pub span: Span,
}

pub struct UseDeclV {
    pub path: Seq<char>,
    pub span: Span,
}

pub struct ParsedFileV {
    pub uses: Seq<UseDeclV>,
    pub funcs: Seq<FuncV>,
}

/// No two functions share a name.
pub open spec fn distinct_names(fs: Seq<FuncV>) -> bool {
    forall|i: int, j: int| 0 <= i < j < fs.len() ==> (#[trigger] fs[i]).name != (#[trigger] fs[j]).name
}

pub open spec fn expr_v(e: Expr) -> ExprV
    decreases e,
{
    ExprV {
        kind: match e.kind {
            ExprKind::Int(n) => ExprKindV::Int(n),
            ExprKind::Float(t) => ExprKindV::Float(t@),
            ExprKind::Bool(b) => ExprKindV::Bool(b),
            ExprKind::Str(s) => ExprKindV::Str(s@),
            ExprKind::Ident(n) => ExprKindV::Ident(n@),
            ExprKind::Unary { op, expr } => ExprKindV::Unary { op, expr: Box::new(expr_v(*expr)) },
            ExprKind::Binary { op, lhs, rhs } => ExprKindV::Binary {
                op,
                lhs: Box::new(expr_v(*lhs)),
                rhs: Box::new(expr_v(*rhs)),
            },
            ExprKind::Call { name, args } => ExprKindV::Call { name: name@, args: exprs_v(args@) },
            ExprKind::Cast { expr, target } => ExprKindV::Cast {
                expr: Box::new(expr_v(*expr)),
                target,
            },
        },
        span: e.span,
    }
}

pub open spec fn exprs_v(s: Seq<Expr>) -> Seq<ExprV>
    decreases s,
{
    if s.len() == 0 {
        Seq::empty()
    } else {
        exprs_v(s.drop_last()).push(expr_v(s.last()))
    }
}

pub open spec fn stmt_v(s: Stmt) -> StmtV
    decreases s,
{
    StmtV {
        kind: match s.kind {
            StmtKind::Let { name, value } => StmtKindV::Let { name: name@, value: expr_v(value) },
            StmtKind::Assign { name, value } => StmtKindV::Assign {
                name: name@,
                value: expr_v(value),
            },
            StmtKind::If { cond, then_block, else_block } => StmtKindV::If {
                cond: expr_v(cond),
                then_block: stmts_v(then_block@),
                else_block: match else_block {
                    Some(b) => Some(stmts_v(b@)),
                    None => None,
                },
            },
            StmtKind::While { cond, body } => StmtKindV::While {
                cond: expr_v(cond),
                body: stmts_v(body@),
            },
            StmtKind::Return(v) => StmtKindV::Return(
                match v {
                    Some(e) => Some(expr_v(e)),
                    None => None,
                },
            ),
            StmtKind::Expr(e) => StmtKindV::Expr(expr_v(e)),
        },
        span: s.span,
    }
}

pub open spec fn stmts_v(s: Seq<Stmt>) -> Seq<StmtV>
    decreases s,
{
    if s.len() == 0 {
        Seq::empty()
    } else {
        stmts_v(s.drop_last()).push(stmt_v(s.last()))
    }
}

pub open spec fn params_v(s: Seq<(String, Type)>) -> Seq<(Seq<char>, Type)> {
    s.map_values(|p: (String, Type)| (p.0@, p.1))
}

pub open spec fn func_v(f: Func) -> FuncV {
    FuncV {
        name: f.name@,
        params: params_v(f.params@),
        ret: f.ret,
        body: stmts_v(f.body@),
        span: f.span,
    }
}

pub open spec fn funcs_v(s: Seq<Func>) -> Seq<FuncV> {
    s.map_values(|f: Func| func_v(f))
}

pub open spec fn uses_v(s: Seq<UseDecl>) -> Seq<UseDeclV> {
    s.map_values(|u: UseDecl| UseDeclV { path: u.path@, span: u.span })
}

impl View for Expr {
    type V = ExprV;

    open spec fn view(&self) -> ExprV {
        expr_v(*self)
    }
}

impl View for Stmt {
    type V = StmtV;

    open spec fn view(&self) -> StmtV {
        stmt_v(*self)
    }
}

impl View for Func {
    type V = FuncV;

    open spec fn view(&self) -> FuncV {
        func_v(*self)
    }
}

impl View for ParsedFile {
    type V = ParsedFileV;

    open spec fn view(&self) -> ParsedFileV {
        ParsedFileV { uses: uses_v(self.uses@), funcs: funcs_v(self.funcs@) }
    }
}

pub proof fn lemma_exprs_v_push(s: Seq<Expr>, e: Expr)
    ensures
        exprs_v(s.push(e)) == exprs_v(s).push(expr_v(e)),
{
    assert(s.push(e).drop_last() =~= s);
}

pub proof fn lemma_exprs_v_index(s: Seq<Expr>)
    ensures
        exprs_v(s).len() == s.len(),
        forall|i: int| 0 <= i < s.len() ==> #[trigger] exprs_v(s)[i] == expr_v(s[i]),
    decreases s.len(),
{
    if s.len() > 0 {
        lemma_exprs_v_index(s.drop_last());
    }
}

pub proof fn lemma_stmts_v_push(s: Seq<Stmt>, x: Stmt)
    ensures
        stmts_v(s.push(x)) == stmts_v(s).push(stmt_v(x)),
{
    assert(s.push(x).drop_last() =~= s);
}

pub proof fn lemma_stmts_v_index(s: Seq<Stmt>)
    ensures
        stmts_v(s).len() == s.len(),
        forall|i: int| 0 <= i < s.len() ==> #[trigger] stmts_v(s)[i] == stmt_v(s[i]),
    decreases s.len(),
{
    if s.len() > 0 {
        lemma_stmts_v_index(s.drop_last());
    }
}


/// How a binary operator is written in source.
pub open spec fn op_symbol(op: BinOp) -> Seq<char> {
    match op {
        BinOp::Add => seq!['+'],
        BinOp::Sub => seq!['-'],
        BinOp::Mul => seq!['*'],
        BinOp::Div => seq!['/'],
        BinOp::Eq => seq!['=', '='],
        BinOp::Ne => seq!['!', '='],
        BinOp::Lt => seq!['<'],
        BinOp::Le => seq!['<', '='],
        BinOp::Gt => seq!['>'],
        BinOp::Ge => seq!['>', '='],
        BinOp::And => seq!['&', '&'],
        BinOp::Or => seq!['|', '|'],
    }
}

} // verus!
