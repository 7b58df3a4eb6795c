use vstd::prelude::*;

use crate::ast::{
    exprs_v, lemma_exprs_v_index, lemma_stmts_v_index, params_v, stmts_v, BinOp, Expr, ExprKind,
    ExprKindV, ExprV, Func, FuncV, Program, Stmt, StmtKind, StmtKindV, StmtV, Type, UnOp,
    distinct_names, funcs_v,
};
use crate::error::{err_at, CompileError, ErrorV};
use crate::span::Span;
use crate::text::{concat2, concat3, decimal_string, decimal_text};

verus! {

// ---------------------------------------------------------------------------
// Names used in messages.

/// How a type is written in messages (its `Debug` name).
pub open spec fn ty_text(t: Type) -> Seq<char> {
    match t {
        Type::Int => "Int"@,
        Type::Float => "Float"@,
        Type::Bool => "Bool"@,
        Type::Str => "Str"@,
        Type::Void => "Void"@,
    }
}

/// How an operator is written in messages (its `Debug` name).
pub open spec fn op_name(op: BinOp) -> Seq<char> {
    match op {
        BinOp::Add => "Add"@,
        BinOp::Sub => "Sub"@,
        BinOp::Mul => "Mul"@,
        BinOp::Div => "Div"@,
        BinOp::Eq => "Eq"@,
        BinOp::Ne => "Ne"@,
        BinOp::Lt => "Lt"@,
        BinOp::Le => "Le"@,
        BinOp::Gt => "Gt"@,
        BinOp::Ge => "Ge"@,
        BinOp::And => "And"@,
        BinOp::Or => "Or"@,
    }
}

fn ty_text_x(t: Type) -> (s: String)
    ensures
        s@ == ty_text(t),
{
    match t {
        Type::Int => String::from_str("Int"),
        Type::Float => String::from_str("Float"),
        Type::Bool => String::from_str("Bool"),
        Type::Str => String::from_str("Str"),
        Type::Void => String::from_str("Void"),
    }
}

fn op_name_x(op: BinOp) -> (s: String)
    ensures
        s@ == op_name(op),
{
    match op {
        BinOp::Add => String::from_str("Add"),
        BinOp::Sub => String::from_str("Sub"),
        BinOp::Mul => String::from_str("Mul"),
        BinOp::Div => String::from_str("Div"),
        BinOp::Eq => String::from_str("Eq"),
        BinOp::Ne => String::from_str("Ne"),
        BinOp::Lt => String::from_str("Lt"),
        BinOp::Le => String::from_str("Le"),
        BinOp::Gt => String::from_str("Gt"),
        BinOp::Ge => String::from_str("Ge"),
        BinOp::And => String::from_str("And"),
        BinOp::Or => String::from_str("Or"),
    }
}

// ---------------------------------------------------------------------------
// Typing rules of the operators.

pub open spec fn cast_result(from: Type, to: Type, span: Span) -> Result<Type, ErrorV> {
    if from == to {
        Ok(to)
    } else if (from == Type::Int && to == Type::Float) || (from == Type::Float && to == Type::Int) {
        Ok(to)
    } else {
        Err(err_at(span, "cannot cast "@ + ty_text(from) + " to "@ + ty_text(to)))
    }
}

pub open spec fn is_arith(op: BinOp) -> bool {
    op == BinOp::Add || op == BinOp::Sub || op == BinOp::Mul || op == BinOp::Div
}

pub open spec fn is_order(op: BinOp) -> bool {
    op == BinOp::Lt || op == BinOp::Le || op == BinOp::Gt || op == BinOp::Ge
}

pub open spec fn is_logic(op: BinOp) -> bool {
    op == BinOp::And || op == BinOp::Or
}

pub open spec fn both_numeric_same(l: Type, r: Type) -> bool {
    (l == Type::Int && r == Type::Int) || (l == Type::Float && r == Type::Float)
}

pub open spec fn binop_result(op: BinOp, l: Type, r: Type, span: Span) -> Result<Type, ErrorV> {
    let got = ty_text(l) + " and "@ + ty_text(r);
    if is_arith(op) {
        if both_numeric_same(l, r) {
            Ok(l)
        } else {
            Err(err_at(span, "operator "@ + op_name(op) + " requires matching int or float operands, got "@ + got))
        }
    } else if is_order(op) {
        if both_numeric_same(l, r) {
            Ok(Type::Bool)
        } else {
            Err(err_at(span, "operator "@ + op_name(op) + " requires matching int or float operands, got "@ + got))
        }
    } else if is_logic(op) {
        if l == Type::Bool && r == Type::Bool {
            Ok(Type::Bool)
        } else {
            Err(err_at(span, "operator "@ + op_name(op) + " requires bool operands, got "@ + got))
        }
    } else {
        if l != r {
            Err(err_at(span, "operator "@ + op_name(op) + " requires matching operand types, got "@ + got))
        } else if l == Type::Str {
            Err(err_at(span, "string equality is not supported yet"@))
        } else if l == Type::Void {
            Err(err_at(span, "cannot compare void values"@))
        } else {
            Ok(Type::Bool)
        }
    }
}

pub open spec fn unop_result(op: UnOp, t: Type, span: Span) -> Result<Type, ErrorV> {
    match op {
        UnOp::Neg => if t == Type::Int || t == Type::Float {
            Ok(t)
        } else {
            Err(err_at(span, "unary `-` requires int or float, got "@ + ty_text(t)))
        },
        UnOp::Not => if t == Type::Bool {
            Ok(Type::Bool)
        } else {
            Err(err_at(span, "unary `!` requires bool, got "@ + ty_text(t)))
        },
    }
}

/// Whether a cast from `from` to `to` is allowed, with the resulting type.
pub fn check_cast(from: Type, to: Type, span: Span) -> (r: Result<Type, CompileError>)
    ensures
        match r {
            Ok(t) => cast_result(from, to, span) == Ok::<Type, ErrorV>(t),
            Err(e) => cast_result(from, to, span) == Err::<Type, ErrorV>(e@),
        },
{
    if from == to {
        Ok(to)
    } else if (from == Type::Int && to == Type::Float) || (from == Type::Float && to == Type::Int) {
        Ok(to)
    } else {
        let a = ty_text_x(from);
        let b = ty_text_x(to);
        let mut msg = concat3("cannot cast ", a.as_str(), " to ");
        msg.append(b.as_str());
        Err(CompileError::at(span, msg))
    }
}

/// The type of `l op r` for operand types `l` and `r`.
pub fn check_binop(op: BinOp, l: Type, r: Type, span: Span) -> (res: Result<Type, CompileError>)
    ensures
        match res {
            Ok(t) => binop_result(op, l, r, span) == Ok::<Type, ErrorV>(t),
            Err(e) => binop_result(op, l, r, span) == Err::<Type, ErrorV>(e@),
        },
{
    let ln = ty_text_x(l);
    let rn = ty_text_x(r);
    let got = concat3(ln.as_str(), " and ", rn.as_str());
    let on = op_name_x(op);
    let numeric_same = (l == Type::Int && r == Type::Int) || (l == Type::Float && r == Type::Float);
    match op {
        BinOp::Add | BinOp::Sub | BinOp::Mul | BinOp::Div => {
            if numeric_same {
                Ok(l)
            } else {
                let mut msg = concat3("operator ", on.as_str(), " requires matching int or float operands, got ");
                msg.append(got.as_str());
                Err(CompileError::at(span, msg))
            }
        },
        BinOp::Lt | BinOp::Le | BinOp::Gt | BinOp::Ge => {
            if numeric_same {
                Ok(Type::Bool)
            } else {
                let mut msg = concat3("operator ", on.as_str(), " requires matching int or float operands, got ");
                msg.append(got.as_str());
                Err(CompileError::at(span, msg))
            }
        },
        BinOp::Eq | BinOp::Ne => {
            if l != r {
                let mut msg = concat3("operator ", on.as_str(), " requires matching operand types, got ");
                msg.append(got.as_str());
                Err(CompileError::at(span, msg))
            } else {
                match l {
                    Type::Int | Type::Float | Type::Bool => Ok(Type::Bool),
                    Type::Str => Err(CompileError::at(span, String::from_str("string equality is not supported yet"))),
                    Type::Void => Err(CompileError::at(span, String::from_str("cannot compare void values"))),
                }
            }
        },
        BinOp::And | BinOp::Or => {
            if l == Type::Bool && r == Type::Bool {
                Ok(Type::Bool)
            } else {
                let mut msg = concat3("operator ", on.as_str(), " requires bool operands, got ");
                msg.append(got.as_str());
                Err(CompileError::at(span, msg))
            }
        },
    }
}

/// The type of `op t` for an operand of type `t`.
pub fn check_unop(op: UnOp, t: Type, span: Span) -> (r: Result<Type, CompileError>)
    ensures
        match r {
            Ok(u) => unop_result(op, t, span) == Ok::<Type, ErrorV>(u),
            Err(e) => unop_result(op, t, span) == Err::<Type, ErrorV>(e@),
        },
{
    match op {
        UnOp::Neg => {
            if t == Type::Int || t == Type::Float {
                Ok(t)
            } else {
                let n = ty_text_x(t);
                Err(CompileError::at(span, concat2("unary `-` requires int or float, got ", n.as_str())))
            }
        },
        UnOp::Not => {
            if t == Type::Bool {
                Ok(Type::Bool)
            } else {
                let n = ty_text_x(t);
                Err(CompileError::at(span, concat2("unary `!` requires bool, got ", n.as_str())))
            }
        },
    }
}

// ---------------------------------------------------------------------------
// Environments: name-to-value tables where a later entry hides an earlier
// one with the same name.

/// The table that the entries of `s` make, in order.
pub open spec fn assoc<V>(s: Seq<(Seq<char>, V)>) -> Map<Seq<char>, V>
    decreases s.len(),
{
    if s.len() == 0 {
        Map::empty()
    } else {
        assoc(s.drop_last()).insert(s.last().0, s.last().1)
    }
}

pub proof fn lemma_assoc_skip<V>(s: Seq<(Seq<char>, V)>, i: int, k: Seq<char>)
    requires
        0 <= i <= s.len(),
        forall|j: int| i <= j < s.len() ==> s[j].0 != k,
    ensures
        assoc(s).contains_key(k) == assoc(s.take(i)).contains_key(k),
        assoc(s).contains_key(k) ==> assoc(s)[k] == assoc(s.take(i))[k],
    decreases s.len() - i,
{
    if i < s.len() {
        assert(s.drop_last().take(i) =~= s.take(i));
        lemma_assoc_skip(s.drop_last(), i, k);
    } else {
        assert(s.take(i) =~= s);
    }
}

pub proof fn lemma_assoc_hit<V>(s: Seq<(Seq<char>, V)>, i: int, k: Seq<char>)
    requires
        0 <= i < s.len(),
        s[i].0 == k,
        forall|j: int| i < j < s.len() ==> s[j].0 != k,
    ensures
        assoc(s).contains_key(k),
        assoc(s)[k] == s[i].1,
{
    lemma_assoc_skip(s, i + 1, k);
    assert(s.take(i + 1).drop_last() =~= s.take(i));
}

/// A value in the table comes from some entry.
pub proof fn lemma_assoc_from_entry<V>(s: Seq<(Seq<char>, V)>, k: Seq<char>)
    requires
        assoc(s).contains_key(k),
    ensures
        exists|i: int| 0 <= i < s.len() && s[i].0 == k && s[i].1 == assoc(s)[k],
    decreases s.len(),
{
    if s.last().0 == k {
        assert(s[s.len() - 1].0 == k);
    } else {
        lemma_assoc_from_entry(s.drop_last(), k);
        let i = choose|i: int| 0 <= i < s.drop_last().len() && s.drop_last()[i].0 == k && s.drop_last()[i].1 == assoc(s.drop_last())[k];
        assert(s[i] == s.drop_last()[i]);
    }
}

pub proof fn lemma_assoc_push<V>(s: Seq<(Seq<char>, V)>, k: Seq<char>, v: V)
    ensures
        assoc(s.push((k, v))) == assoc(s).insert(k, v),
{
    assert(s.push((k, v)).drop_last() =~= s);
}

/// A function's signature: parameter types and return type.
pub struct Sig {
    pub name: String,
    pub params: Vec<Type>,
    pub ret: Type,
}

pub type Vars = Map<Seq<char>, Type>;

pub type Sigs = Map<Seq<char>, (Seq<Type>, Type)>;

pub open spec fn vars_seq(v: Seq<(String, Type)>) -> Seq<(Seq<char>, Type)> {
    v.map_values(|p: (String, Type)| (p.0@, p.1))
}

pub open spec fn sigs_seq(v: Seq<Sig>) -> Seq<(Seq<char>, (Seq<Type>, Type))> {
    v.map_values(|g: Sig| (g.name@, (g.params@, g.ret)))
}

pub open spec fn vmap(v: &Vec<(String, Type)>) -> Vars {
    assoc(vars_seq(v@))
}

pub open spec fn smap(v: &Vec<Sig>) -> Sigs {
    assoc(sigs_seq(v@))
}

fn find_var(vars: &Vec<(String, Type)>, name: &String) -> (r: Option<Type>)
    ensures
        r is Some == vmap(vars).contains_key(name@),
        r is Some ==> r.unwrap() == vmap(vars)[name@],
{
    let mut i = vars.len();
    while i > 0
        invariant
            i <= vars@.len(),
            forall|j: int| i <= j < vars@.len() ==> vars_seq(vars@)[j].0 != name@,
        decreases i,
    {
        if vars[i - 1].0.eq(name) {
            proof {
                lemma_assoc_hit(vars_seq(vars@), i - 1, name@);
            }
            return Some(vars[i - 1].1);
        }
        i = i - 1;
    }
    proof {
        lemma_assoc_skip(vars_seq(vars@), 0, name@);
    }
    None
}

fn find_sig(sigs: &Vec<Sig>, name: &String) -> (r: Option<usize>)
    ensures
        r is Some == smap(sigs).contains_key(name@),
        r is Some ==> r.unwrap() < sigs@.len() && smap(sigs)[name@] == (
            sigs@[r.unwrap() as int].params@,
            sigs@[r.unwrap() as int].ret,
        ),
{
    let mut i = sigs.len();
    while i > 0
        invariant
            i <= sigs@.len(),
            forall|j: int| i <= j < sigs@.len() ==> sigs_seq(sigs@)[j].0 != name@,
        decreases i,
    {
        if sigs[i - 1].name.eq(name) {
            proof {
                lemma_assoc_hit(sigs_seq(sigs@), i - 1, name@);
            }
            return Some(i - 1);
        }
        i = i - 1;
    }
    proof {
        lemma_assoc_skip(sigs_seq(sigs@), 0, name@);
    }
    None
}

fn push_var(vars: &mut Vec<(String, Type)>, name: String, t: Type)
    ensures
        vmap(final(vars)) == vmap(old(vars)).insert(name@, t),
{
    let ghost n = name@;
    vars.push((name, t));
    assert(vars_seq(vars@) =~= vars_seq(old(vars)@).push((n, t)));
    proof {
        lemma_assoc_push(vars_seq(old(vars)@), n, t);
    }
}

pub open spec fn vars_seq_u32(v: Seq<(String, u32)>) -> Seq<(Seq<char>, u32)> {
    v.map_values(|p: (String, u32)| (p.0@, p.1))
}

/// The number recorded for `name` in a name table, if any.
pub(crate) fn find_u32(v: &Vec<(String, u32)>, name: &String) -> (r: Option<u32>)
    ensures
        r is Some == assoc(vars_seq_u32(v@)).contains_key(name@),
        r is Some ==> r.unwrap() == assoc(vars_seq_u32(v@))[name@],
{
    let mut i = v.len();
    while i > 0
        invariant
            i <= v@.len(),
            forall|j: int| i <= j < v@.len() ==> vars_seq_u32(v@)[j].0 != name@,
        decreases i,
    {
        if v[i - 1].0.eq(name) {
            proof {
                lemma_assoc_hit(vars_seq_u32(v@), i - 1, name@);
            }
            return Some(v[i - 1].1);
        }
        i = i - 1;
    }
    proof {
        lemma_assoc_skip(vars_seq_u32(v@), 0, name@);
    }
    None
}

/// Records `n` for `name` in a name table.
pub(crate) fn push_u32(v: &mut Vec<(String, u32)>, name: String, n: u32)
    ensures
        assoc(vars_seq_u32(final(v)@)) == assoc(vars_seq_u32(old(v)@)).insert(name@, n),
        final(v)@ == old(v)@.push((name, n)),
{
    let ghost k = name@;
    v.push((name, n));
    assert(vars_seq_u32(v@) =~= vars_seq_u32(old(v)@).push((k, n)));
    proof {
        lemma_assoc_push(vars_seq_u32(old(v)@), k, n);
    }
}

// ---------------------------------------------------------------------------
// Expression types.

/// The type of an expression, or why it has none.
pub open spec fn expr_ty(e: ExprV, vars: Vars, sigs: Sigs) -> Result<Type, ErrorV>
    decreases e,
{
    match e.kind {
        ExprKindV::Int(_) => Ok(Type::Int),
        ExprKindV::Float(_) => Ok(Type::Float),
        ExprKindV::Bool(_) => Ok(Type::Bool),
        ExprKindV::Str(_) => Ok(Type::Str),
        ExprKindV::Ident(n) => if vars.contains_key(n) {
            Ok(vars[n])
        } else {
            Err(err_at(e.span, "unknown variable: "@ + n))
        },
        ExprKindV::Binary { op, lhs, rhs } => match expr_ty(*lhs, vars, sigs) {
            Err(x) => Err(x),
            Ok(lt) => match expr_ty(*rhs, vars, sigs) {
                Err(x) => Err(x),
                Ok(rt) => binop_result(op, lt, rt, e.span),
            },
        },
        ExprKindV::Unary { op, expr } => match expr_ty(*expr, vars, sigs) {
            Err(x) => Err(x),
            Ok(t) => unop_result(op, t, e.span),
        },
        ExprKindV::Call { name, args } => if name == "print"@ {
            Ok(Type::Void)
        } else if sigs.contains_key(name) {
            Ok(sigs[name].1)
        } else {
            Err(err_at(e.span, "unknown function: "@ + name))
        },
        ExprKindV::Cast { expr, target } => match expr_ty(*expr, vars, sigs) {
            Err(x) => Err(x),
            Ok(src) => cast_result(src, target, e.span),
        },
    }
}

fn is_print(name: &String) -> (b: bool)
    ensures
        b == (name@ == "print"@),
{
    name.eq(&String::from_str("print"))
}

/// The type of `e` under the variables `vars` and the functions `sigs`.
pub fn expr_type(e: &Expr, vars: &Vec<(String, Type)>, sigs: &Vec<Sig>) -> (r: Result<Type, CompileError>)
    ensures
        match r {
            Ok(t) => expr_ty(e@, vmap(vars), smap(sigs)) == Ok::<Type, ErrorV>(t),
            Err(x) => expr_ty(e@, vmap(vars), smap(sigs)) == Err::<Type, ErrorV>(x@),
        },
    decreases e,
{
    match &e.kind {
        ExprKind::Int(_) => Ok(Type::Int),
        ExprKind::Float(_) => Ok(Type::Float),
        ExprKind::Bool(_) => Ok(Type::Bool),
        ExprKind::Str(_) => Ok(Type::Str),
        ExprKind::Ident(n) => match find_var(vars, n) {
            Some(t) => Ok(t),
            None => Err(CompileError::at(e.span, concat2("unknown variable: ", n.as_str()))),
        },
        ExprKind::Binary { op, lhs, rhs } => {
            let lt = expr_type(lhs, vars, sigs)?;
            let rt = expr_type(rhs, vars, sigs)?;
            check_binop(*op, lt, rt, e.span)
        },
        ExprKind::Unary { op, expr } => {
            let t = expr_type(expr, vars, sigs)?;
            check_unop(*op, t, e.span)
        },
        ExprKind::Call { name, args: _ } => {
            if is_print(name) {
                return Ok(Type::Void);
            }
            match find_sig(sigs, name) {
                Some(i) => Ok(sigs[i].ret),
                None => Err(CompileError::at(e.span, concat2("unknown function: ", name.as_str()))),
            }
        },
        ExprKind::Cast { expr, target } => {
            let src = expr_type(expr, vars, sigs)?;
            check_cast(src, *target, e.span)
        },
    }
}

// ---------------------------------------------------------------------------
// Lowering: what code generation decides for each expression, statement and
// function before it emits instructions.

/// The machine representation of a value: 64-bit integer, 1-bit integer,
/// 64-bit float, or pointer.
#[derive(Debug, Clone, Copy, PartialEq, Eq, Structural)]
pub enum Kind {
    I64,
    I1,
    F64,
    Ptr,
}

pub open spec fn kind_of(t: Type) -> Kind {
    match t {
        Type::Int => Kind::I64,
        Type::Float => Kind::F64,
        Type::Bool => Kind::I1,
        Type::Str => Kind::Ptr,
        Type::Void => Kind::I64,
    }
}

fn kind_of_x(t: Type) -> (k: Kind)
    ensures
        k == kind_of(t),
{
    match t {
        Type::Int => Kind::I64,
        Type::Float => Kind::F64,
        Type::Bool => Kind::I1,
        Type::Str => Kind::Ptr,
        Type::Void => Kind::I64,
    }
}

pub open spec fn is_int_kind(k: Kind) -> bool {
    k == Kind::I64 || k == Kind::I1
}

pub open spec fn is_compare(op: BinOp) -> bool {
    is_order(op) || op == BinOp::Eq || op == BinOp::Ne
}

/// The outcome of a lowering step: it goes on with a value, it reports a
/// compile error, or it aborts (code generation has no instruction for the
/// operands it met and stops the process).
pub enum Outcome<T> {
    Go(T),
    Fail(ErrorV),
    Abort,
}

/// The executable form of [`Outcome`].
pub enum Flow<T> {
    Go(T),
    Fail(CompileError),
    Abort,
}

pub open spec fn flow_v<T>(f: Flow<T>) -> Outcome<T> {
    match f {
        Flow::Go(x) => Outcome::Go(x),
        Flow::Fail(e) => Outcome::Fail(e@),
        Flow::Abort => Outcome::Abort,
    }
}

/// Lowering an expression: the kind of value it yields and whether the
/// instructions emitted so far break the IR's typing rules (operands of
/// different widths, a branch on a 64-bit value).
pub open spec fn lower(e: ExprV, vars: Vars, sigs: Sigs) -> Outcome<(Kind, bool)>
    decreases e, 0int,
{
    match e.kind {
        ExprKindV::Int(_) => Outcome::Go((Kind::I64, false)),
        ExprKindV::Float(_) => Outcome::Go((Kind::F64, false)),
        ExprKindV::Bool(_) => Outcome::Go((Kind::I1, false)),
        ExprKindV::Str(_) => Outcome::Go((Kind::Ptr, false)),
        ExprKindV::Ident(n) => if vars.contains_key(n) {
            Outcome::Go((kind_of(vars[n]), false))
        } else {
            Outcome::Fail(err_at(e.span, "unknown variable: "@ + n))
        },
        ExprKindV::Unary { op, expr } => match lower(*expr, vars, sigs) {
            Outcome::Go((k, b)) => match op {
                UnOp::Neg => if k == Kind::Ptr {
                    Outcome::Abort
                } else {
                    Outcome::Go((k, b))
                },
                UnOp::Not => if is_int_kind(k) {
                    Outcome::Go((k, b))
                } else {
                    Outcome::Abort
                },
            },
            Outcome::Fail(x) => Outcome::Fail(x),
            Outcome::Abort => Outcome::Abort,
        },
        ExprKindV::Binary { op, lhs, rhs } => if is_logic(op) {
            match lower(*lhs, vars, sigs) {
                Outcome::Go((kl, bl)) => if !is_int_kind(kl) {
                    Outcome::Abort
                } else {
                    match lower(*rhs, vars, sigs) {
                        Outcome::Go((kr, br)) => if !is_int_kind(kr) {
                            Outcome::Abort
                        } else {
                            Outcome::Go((Kind::I1, bl || br || kl != Kind::I1 || kr != Kind::I1))
                        },
                        Outcome::Fail(x) => Outcome::Fail(x),
                        Outcome::Abort => Outcome::Abort,
                    }
                },
                Outcome::Fail(x) => Outcome::Fail(x),
                Outcome::Abort => Outcome::Abort,
            }
        } else {
            match lower(*lhs, vars, sigs) {
                Outcome::Go((kl, bl)) => match lower(*rhs, vars, sigs) {
                    Outcome::Go((kr, br)) => if is_int_kind(kl) && is_int_kind(kr) {
                        Outcome::Go((if is_compare(op) { Kind::I1 } else { kl }, bl || br || kl != kr))
                    } else if kl == Kind::F64 && kr == Kind::F64 {
                        Outcome::Go((if is_compare(op) { Kind::I1 } else { Kind::F64 }, bl || br))
                    } else {
                        Outcome::Abort
                    },
                    Outcome::Fail(x) => Outcome::Fail(x),
                    Outcome::Abort => Outcome::Abort,
                },
                Outcome::Fail(x) => Outcome::Fail(x),
                Outcome::Abort => Outcome::Abort,
            }
        },
        ExprKindV::Call { name, args } => if name == "print"@ {
            if args.len() != 1 {
                Outcome::Fail(err_at(e.span, "print expects 1 arg, got "@ + decimal_text(args.len())))
            } else {
                match expr_ty(args[0], vars, sigs) {
                    Err(x) => Outcome::Fail(x),
                    Ok(t) => if t == Type::Void {
                        Outcome::Fail(err_at(args[0].span, "cannot print void"@))
                    } else {
                        match lower(args[0], vars, sigs) {
                            Outcome::Go((k, b)) => if t == Type::Bool && !is_int_kind(k) {
                                Outcome::Abort
                            } else {
                                Outcome::Go((Kind::I64, b))
                            },
                            Outcome::Fail(x) => Outcome::Fail(x),
                            Outcome::Abort => Outcome::Abort,
                        }
                    },
                }
            }
        } else if !sigs.contains_key(name) {
            Outcome::Fail(err_at(e.span, "unknown function: "@ + name))
        } else if args.len() != sigs[name].0.len() {
            Outcome::Fail(
                err_at(
                    e.span,
                    "`"@ + name + "` expects "@ + decimal_text(sigs[name].0.len()) + " args, got "@
                        + decimal_text(args.len()),
                ),
            )
        } else {
            lower_args(name, args, 0, sigs[name].0, sigs[name].1, vars, sigs, false)
        },
        ExprKindV::Cast { expr, target } => match expr_ty(*expr, vars, sigs) {
            Err(x) => Outcome::Fail(x),
            Ok(src) => match lower(*expr, vars, sigs) {
                Outcome::Go((k, b)) => match cast_result(src, target, e.span) {
                    Err(x) => Outcome::Fail(x),
                    Ok(_) => if src == target {
                        Outcome::Go((k, b))
                    } else if target == Type::Float {
                        Outcome::Go((Kind::F64, b))
                    } else {
                        Outcome::Go((Kind::I64, b))
                    },
                },
                Outcome::Fail(x) => Outcome::Fail(x),
                Outcome::Abort => Outcome::Abort,
            },
        },
    }
}

/// The arguments of a call to `name`, from the `i`-th on: each must have
/// its parameter's type; then the call yields a value of the return type.
pub open spec fn lower_args(
    name: Seq<char>,
    args: Seq<ExprV>,
    i: int,
    ptys: Seq<Type>,
    ret: Type,
    vars: Vars,
    sigs: Sigs,
    bad: bool,
) -> Outcome<(Kind, bool)>
    decreases args, args.len() - i,
{
    if i < 0 || i >= args.len() || i >= ptys.len() {
        Outcome::Go((if ret == Type::Void { Kind::I64 } else { kind_of(ret) }, bad))
    } else {
        match expr_ty(args[i], vars, sigs) {
            Err(x) => Outcome::Fail(x),
            Ok(at) => if at != ptys[i] {
                Outcome::Fail(
                    err_at(
                        args[i].span,
                        "arg type mismatch calling `"@ + name + "`: expected "@ + ty_text(ptys[i])
                            + ", got "@ + ty_text(at),
                    ),
                )
            } else {
                match lower(args[i], vars, sigs) {
                    Outcome::Go((_, b)) => lower_args(name, args, i + 1, ptys, ret, vars, sigs, bad || b),
                    Outcome::Fail(x) => Outcome::Fail(x),
                    Outcome::Abort => Outcome::Abort,
                }
            },
        }
    }
}

proof fn lemma_lower_typed(e: ExprV, vars: Vars, sigs: Sigs)
    ensures
        expr_ty(e, vars, sigs) matches Ok(t) ==> (lower(e, vars, sigs) matches Outcome::Go((k, b)) ==> !b
            && (t != Type::Void ==> k == kind_of(t))),
    decreases e, 0int,
{
    match e.kind {
        ExprKindV::Unary { op, expr } => {
            lemma_lower_typed(*expr, vars, sigs);
        },
        ExprKindV::Binary { op, lhs, rhs } => {
            lemma_lower_typed(*lhs, vars, sigs);
            lemma_lower_typed(*rhs, vars, sigs);
        },
        ExprKindV::Call { name, args } => {
            if name == "print"@ {
                if args.len() == 1 {
                    assert(decreases_to!(e => args[0]));
                    lemma_lower_typed(args[0], vars, sigs);
                }
            } else if sigs.contains_key(name) && args.len() == sigs[name].0.len() {
                lemma_args_typed(name, args, 0, sigs[name].0, sigs[name].1, vars, sigs, false);
            }
        },
        ExprKindV::Cast { expr, target } => {
            lemma_lower_typed(*expr, vars, sigs);
        },
        _ => {},
    }
}

proof fn lemma_args_typed(
    name: Seq<char>,
    args: Seq<ExprV>,
    i: int,
    ptys: Seq<Type>,
    ret: Type,
    vars: Vars,
    sigs: Sigs,
    bad: bool,
)
    ensures
        lower_args(name, args, i, ptys, ret, vars, sigs, bad) matches Outcome::Go((k, b))
            ==> b == bad && k == (if ret == Type::Void { Kind::I64 } else { kind_of(ret) }),
    decreases args, args.len() - i,
{
    if 0 <= i < args.len() && i < ptys.len() {
        assert(decreases_to!(args => args[i]));
        lemma_lower_typed(args[i], vars, sigs);
        if let Ok(at) = expr_ty(args[i], vars, sigs) {
            if at == ptys[i] {
                if let Outcome::Go((_, b)) = lower(args[i], vars, sigs) {
                    lemma_args_typed(name, args, i + 1, ptys, ret, vars, sigs, bad || b);
                }
            }
        }
    }
}

/// A well-typed expression lowers to a value of its type's machine kind
/// (`i64` for `int`, `f64` for `float`, `i1` for `bool`, a pointer for
/// `str`), and no instruction on the way mixes operand widths.
pub proof fn law_lowered_kind(e: ExprV, vars: Vars, sigs: Sigs)
    ensures
        expr_ty(e, vars, sigs) matches Ok(t) ==> (lower(e, vars, sigs) matches Outcome::Go((k, b)) ==> !b
            && (t != Type::Void ==> k == kind_of(t))),
{
    lemma_lower_typed(e, vars, sigs);
}

fn is_int_kind_x(k: Kind) -> (b: bool)
    ensures
        b == is_int_kind(k),
{
    k == Kind::I64 || k == Kind::I1
}

/// Lowers a call: see the `Call` case of [`lower`].
fn lower_call(e: &Expr, vars: &Vec<(String, Type)>, sigs: &Vec<Sig>) -> (r: Flow<(Kind, bool)>)
    requires
        e.kind is Call,
    ensures
        flow_v(r) == lower(e@, vmap(vars), smap(sigs)),
    decreases e, 0int,
{
    match &e.kind {
        ExprKind::Call { name, args } => {
            proof {
                lemma_exprs_v_index(args@);
            }
            if is_print(name) {
                if args.len() != 1 {
                    let n = decimal_string(args.len() as u64);
                    return Flow::Fail(CompileError::at(e.span, concat2("print expects 1 arg, got ", n.as_str())));
                }
                let t = match expr_type(&args[0], vars, sigs) {
                    Ok(t) => t,
                    Err(x) => {
                        return Flow::Fail(x);
                    },
                };
                if t == Type::Void {
                    return Flow::Fail(CompileError::at(args[0].span, String::from_str("cannot print void")));
                }
                match lower_expr(&args[0], vars, sigs) {
                    Flow::Go((k, b)) => if t == Type::Bool && !is_int_kind_x(k) {
                        Flow::Abort
                    } else {
                        Flow::Go((Kind::I64, b))
                    },
                    Flow::Fail(x) => Flow::Fail(x),
                    Flow::Abort => Flow::Abort,
                }
            } else {
                let gi = match find_sig(sigs, name) {
                    Some(gi) => gi,
                    None => {
                        return Flow::Fail(CompileError::at(e.span, concat2("unknown function: ", name.as_str())));
                    },
                };
                let ptys = &sigs[gi].params;
                let ret = sigs[gi].ret;
                if args.len() != ptys.len() {
                    let np = decimal_string(ptys.len() as u64);
                    let na = decimal_string(args.len() as u64);
                    let mut msg = concat3("`", name.as_str(), "` expects ");
                    msg.append(np.as_str());
                    msg.append(" args, got ");
                    msg.append(na.as_str());
                    return Flow::Fail(CompileError::at(e.span, msg));
                }
                let mut bad = false;
                let mut i: usize = 0;
                proof {
                    assert(decreases_to!(*e => e.kind));
                    assert(decreases_to!(e.kind => e.kind->Call_args));
                    assert(e.kind->Call_args == *args);
                    assert(decreases_to!(*args => args@));
                }
                while i < args.len()
                    invariant
                        decreases_to!(*e => args@),
                        i <= args@.len(),
                        args@.len() == ptys@.len(),
                        smap(sigs).contains_key(name@),
                        smap(sigs)[name@] == (ptys@, ret),
                        exprs_v(args@).len() == args@.len(),
                        forall|j: int| 0 <= j < args@.len() ==> #[trigger] exprs_v(args@)[j] == args@[j]@,
                        e@.kind == (ExprKindV::Call { name: name@, args: exprs_v(args@) }),
                        !(name@ == "print"@),
                        lower(e@, vmap(vars), smap(sigs)) == lower_args(
                            name@,
                            exprs_v(args@),
                            i as int,
                            ptys@,
                            ret,
                            vmap(vars),
                            smap(sigs),
                            bad,
                        ),
                    decreases args@.len() - i,
                {
                    let a = &args[i];
                    let at = match expr_type(a, vars, sigs) {
                        Ok(t) => t,
                        Err(x) => {
                            return Flow::Fail(x);
                        },
                    };
                    if at != ptys[i] {
                        let want = ty_text_x(ptys[i]);
                        let got = ty_text_x(at);
                        let mut msg = concat3("arg type mismatch calling `", name.as_str(), "`: expected ");
                        msg.append(want.as_str());
                        msg.append(", got ");
                        msg.append(got.as_str());
                        return Flow::Fail(CompileError::at(a.span, msg));
                    }
                    proof {
                        assert(decreases_to!(args@ => args@[i as int]));
                        assert(*a == args@[i as int]);
                        assert(decreases_to!(*e => *a));
                    }
                    match lower_expr(a, vars, sigs) {
                        Flow::Go((_, b)) => {
                            bad = bad || b;
                        },
                        Flow::Fail(x) => {
                            return Flow::Fail(x);
                        },
                        Flow::Abort => {
                            return Flow::Abort;
                        },
                    }
                    i = i + 1;
                }
                Flow::Go((if ret == Type::Void { Kind::I64 } else { kind_of_x(ret) }, bad))
            }
        },
        _ => Flow::Abort,
    }
}

/// Lowers an expression: see [`lower`].
fn lower_expr(e: &Expr, vars: &Vec<(String, Type)>, sigs: &Vec<Sig>) -> (r: Flow<(Kind, bool)>)
    ensures
        flow_v(r) == lower(e@, vmap(vars), smap(sigs)),
    decreases e, 1int,
{
    match &e.kind {
        ExprKind::Int(_) => Flow::Go((Kind::I64, false)),
        ExprKind::Float(_) => Flow::Go((Kind::F64, false)),
        ExprKind::Bool(_) => Flow::Go((Kind::I1, false)),
        ExprKind::Str(_) => Flow::Go((Kind::Ptr, false)),
        ExprKind::Ident(n) => match find_var(vars, n) {
            Some(t) => Flow::Go((kind_of_x(t), false)),
            None => Flow::Fail(CompileError::at(e.span, concat2("unknown variable: ", n.as_str()))),
        },
        ExprKind::Unary { op, expr } => match lower_expr(expr, vars, sigs) {
            Flow::Go((k, b)) => match op {
                UnOp::Neg => if k == Kind::Ptr {
                    Flow::Abort
                } else {
                    Flow::Go((k, b))
                },
                UnOp::Not => if is_int_kind_x(k) {
                    Flow::Go((k, b))
                } else {
                    Flow::Abort
                },
            },
            Flow::Fail(x) => Flow::Fail(x),
            Flow::Abort => Flow::Abort,
        },
        ExprKind::Binary { op, lhs, rhs } => {
            let logic = *op == BinOp::And || *op == BinOp::Or;
            match lower_expr(lhs, vars, sigs) {
                Flow::Go((kl, bl)) => {
                    if logic && !is_int_kind_x(kl) {
                        return Flow::Abort;
                    }
                    match lower_expr(rhs, vars, sigs) {
                        Flow::Go((kr, br)) => {
                            if logic {
                                if !is_int_kind_x(kr) {
                                    Flow::Abort
                                } else {
                                    Flow::Go((Kind::I1, bl || br || kl != Kind::I1 || kr != Kind::I1))
                                }
                            } else {
                                let compares = match op {
                                    BinOp::Eq | BinOp::Ne | BinOp::Lt | BinOp::Le | BinOp::Gt | BinOp::Ge => true,
                                    _ => false,
                                };
                                if is_int_kind_x(kl) && is_int_kind_x(kr) {
                                    Flow::Go((if compares { Kind::I1 } else { kl }, bl || br || kl != kr))
                                } else if kl == Kind::F64 && kr == Kind::F64 {
                                    Flow::Go((if compares { Kind::I1 } else { Kind::F64 }, bl || br))
                                } else {
                                    Flow::Abort
                                }
                            }
                        },
                        Flow::Fail(x) => Flow::Fail(x),
                        Flow::Abort => Flow::Abort,
                    }
                },
                Flow::Fail(x) => Flow::Fail(x),
                Flow::Abort => Flow::Abort,
            }
        },
        ExprKind::Call { .. } => lower_call(e, vars, sigs),
        ExprKind::Cast { expr, target } => {
            let src = match expr_type(expr, vars, sigs) {
                Ok(t) => t,
                Err(x) => {
                    return Flow::Fail(x);
                },
            };
            match lower_expr(expr, vars, sigs) {
                Flow::Go((k, b)) => match check_cast(src, *target, e.span) {
                    Err(x) => Flow::Fail(x),
                    Ok(_) => if src == *target {
                        Flow::Go((k, b))
                    } else if *target == Type::Float {
                        Flow::Go((Kind::F64, b))
                    } else {
                        Flow::Go((Kind::I64, b))
                    },
                },
                Flow::Fail(x) => Flow::Fail(x),
                Flow::Abort => Flow::Abort,
            }
        },
    }
}

// ---------------------------------------------------------------------------
// Statements, blocks and whole programs.

/// A condition must be a boolean; the result is whether its code breaks
/// the IR's typing rules.
pub open spec fn cond_check(c: ExprV, vars: Vars, sigs: Sigs) -> Outcome<bool> {
    match expr_ty(c, vars, sigs) {
        Err(x) => Outcome::Fail(x),
        Ok(t) => if t != Type::Bool {
            Outcome::Fail(err_at(c.span, "expected boolean condition"@))
        } else {
            match lower(c, vars, sigs) {
                Outcome::Go((_, b)) => Outcome::Go(b),
                Outcome::Fail(x) => Outcome::Fail(x),
                Outcome::Abort => Outcome::Abort,
            }
        },
    }
}

/// One statement in a function returning `ret` (`main_void`: the function
/// is `main` without a declared return type, which returns 0). The result:
/// the variables afterwards, whether control cannot fall through, and
/// whether its code breaks the IR's typing rules.
pub open spec fn stmt_step(s: StmtV, vars: Vars, sigs: Sigs, ret: Type, main_void: bool) -> Outcome<(Vars, bool, bool)>
    decreases s, 0int,
{
    match s.kind {
        StmtKindV::Let { name, value } => match expr_ty(value, vars, sigs) {
            Err(x) => Outcome::Fail(x),
            Ok(ty) => if ty == Type::Void {
                Outcome::Fail(err_at(value.span, "cannot bind void expression to `"@ + name + "`"@))
            } else {
                match lower(value, vars, sigs) {
                    Outcome::Go((_, b)) => Outcome::Go((vars.insert(name, ty), false, b)),
                    Outcome::Fail(x) => Outcome::Fail(x),
                    Outcome::Abort => Outcome::Abort,
                }
            },
        },
        StmtKindV::Assign { name, value } => if !vars.contains_key(name) {
            Outcome::Fail(err_at(s.span, "unknown variable: "@ + name))
        } else {
            match expr_ty(value, vars, sigs) {
                Err(x) => Outcome::Fail(x),
                Ok(vt) => if vt != vars[name] {
                    Outcome::Fail(
                        err_at(
                            value.span,
                            "type mismatch assigning to `"@ + name + "`: expected "@ + ty_text(vars[name])
                                + ", got "@ + ty_text(vt),
                        ),
                    )
                } else {
                    match lower(value, vars, sigs) {
                        Outcome::Go((_, b)) => Outcome::Go((vars, false, b)),
                        Outcome::Fail(x) => Outcome::Fail(x),
                        Outcome::Abort => Outcome::Abort,
                    }
                },
            }
        },
        StmtKindV::If { cond, then_block, else_block } => match cond_check(cond, vars, sigs) {
            Outcome::Fail(x) => Outcome::Fail(x),
            Outcome::Abort => Outcome::Abort,
            Outcome::Go(bc) => match block_from(then_block, 0, vars, sigs, ret, main_void, false) {
                Outcome::Fail(x) => Outcome::Fail(x),
                Outcome::Abort => Outcome::Abort,
                Outcome::Go((v1, tt, b1)) => match else_block {
                    None => Outcome::Go((v1, false, bc || b1)),
                    Some(eb) => match block_from(eb, 0, v1, sigs, ret, main_void, false) {
                        Outcome::Fail(x) => Outcome::Fail(x),
                        Outcome::Abort => Outcome::Abort,
                        Outcome::Go((v2, et, b2)) => Outcome::Go((v2, tt && et, bc || b1 || b2)),
                    },
                },
            },
        },
        StmtKindV::While { cond, body } => match cond_check(cond, vars, sigs) {
            Outcome::Fail(x) => Outcome::Fail(x),
            Outcome::Abort => Outcome::Abort,
            Outcome::Go(bc) => match block_from(body, 0, vars, sigs, ret, main_void, false) {
                Outcome::Fail(x) => Outcome::Fail(x),
                Outcome::Abort => Outcome::Abort,
                Outcome::Go((v1, _, b1)) => Outcome::Go((v1, false, bc || b1)),
            },
        },
        StmtKindV::Return(None) => if main_void || ret == Type::Void {
            Outcome::Go((vars, true, false))
        } else {
            Outcome::Fail(err_at(s.span, "missing return value"@))
        },
        StmtKindV::Return(Some(e)) => if ret == Type::Void {
            Outcome::Fail(err_at(e.span, "unexpected return value in void function"@))
        } else {
            match expr_ty(e, vars, sigs) {
                Err(x) => Outcome::Fail(x),
                Ok(et) => if et != ret {
                    Outcome::Fail(
                        err_at(e.span, "return type mismatch: expected "@ + ty_text(ret) + ", got "@ + ty_text(et)),
                    )
                } else {
                    match lower(e, vars, sigs) {
                        Outcome::Go((_, b)) => Outcome::Go((vars, true, b)),
                        Outcome::Fail(x) => Outcome::Fail(x),
                        Outcome::Abort => Outcome::Abort,
                    }
                },
            }
        },
        StmtKindV::Expr(e) => match lower(e, vars, sigs) {
            Outcome::Go((_, b)) => Outcome::Go((vars, false, b)),
            Outcome::Fail(x) => Outcome::Fail(x),
            Outcome::Abort => Outcome::Abort,
        },
    }
}

/// The statements of a block from the `i`-th on; statements after one that
/// cannot fall through are not looked at.
pub open spec fn block_from(
    stmts: Seq<StmtV>,
    i: int,
    vars: Vars,
    sigs: Sigs,
    ret: Type,
    main_void: bool,
    bad: bool,
) -> Outcome<(Vars, bool, bool)>
    decreases stmts, stmts.len() - i,
{
    if i < 0 || i >= stmts.len() {
        Outcome::Go((vars, false, bad))
    } else {
        match stmt_step(stmts[i], vars, sigs, ret, main_void) {
            Outcome::Fail(x) => Outcome::Fail(x),
            Outcome::Abort => Outcome::Abort,
            Outcome::Go((v, t, b)) => if t {
                Outcome::Go((v, true, bad || b))
            } else {
                block_from(stmts, i + 1, v, sigs, ret, main_void, bad || b)
            },
        }
    }
}

pub open spec fn has_void_param(ps: Seq<(Seq<char>, Type)>) -> bool {
    exists|j: int| 0 <= j < ps.len() && ps[j].1 == Type::Void
}

pub open spec fn param_types(ps: Seq<(Seq<char>, Type)>) -> Seq<Type> {
    ps.map_values(|p: (Seq<char>, Type)| p.1)
}

/// Declaring the functions from the `i`-th on: names must be unique, and
/// a parameter of type `Void` has no machine type (code generation aborts).
pub open spec fn declare_from(funcs: Seq<FuncV>, i: int, sigs: Sigs) -> Outcome<Sigs>
    decreases funcs.len() - i,
{
    if i < 0 || i >= funcs.len() {
        Outcome::Go(sigs)
    } else if sigs.contains_key(funcs[i].name) {
        Outcome::Fail(err_at(funcs[i].span, "duplicate function: "@ + funcs[i].name))
    } else if has_void_param(funcs[i].params) {
        Outcome::Abort
    } else {
        declare_from(
            funcs,
            i + 1,
            sigs.insert(funcs[i].name, (param_types(funcs[i].params), funcs[i].ret)),
        )
    }
}

pub open spec fn is_main_void(f: FuncV) -> bool {
    f.name == "main"@ && f.ret == Type::Void
}

/// Defining the functions from the `i`-th on, each body checked with its
/// parameters as the only variables.
pub open spec fn define_from(funcs: Seq<FuncV>, i: int, sigs: Sigs, bad: bool) -> Outcome<bool>
    decreases funcs.len() - i,
{
    if i < 0 || i >= funcs.len() {
        Outcome::Go(bad)
    } else {
        match block_from(
            funcs[i].body,
            0,
            assoc(funcs[i].params),
            sigs,
            funcs[i].ret,
            is_main_void(funcs[i]),
            false,
        ) {
            Outcome::Fail(x) => Outcome::Fail(x),
            Outcome::Abort => Outcome::Abort,
            Outcome::Go((_, _, b)) => define_from(funcs, i + 1, sigs, bad || b),
        }
    }
}

/// What code generation makes of a program: every function declared, then
/// every body lowered. `Go(bad)`: it succeeds, and `bad` tells whether some
/// emitted instruction mixes operand widths or branches on a 64-bit value.
pub open spec fn program_outcome(funcs: Seq<FuncV>) -> Outcome<bool> {
    match declare_from(funcs, 0, Map::empty()) {
        Outcome::Fail(x) => Outcome::Fail(x),
        Outcome::Abort => Outcome::Abort,
        Outcome::Go(sigs) => define_from(funcs, 0, sigs, false),
    }
}

proof fn lemma_declare_distinct(funcs: Seq<FuncV>, i: int, sigs: Sigs)
    requires
        0 <= i <= funcs.len(),
        distinct_names(funcs.take(i)),
        forall|k: int| 0 <= k < i ==> #[trigger] sigs.contains_key(funcs[k].name),
    ensures
        declare_from(funcs, i, sigs) is Go ==> distinct_names(funcs),
    decreases funcs.len() - i,
{
    if i >= funcs.len() {
        assert(funcs.take(i) =~= funcs);
    } else if !sigs.contains_key(funcs[i].name) && !has_void_param(funcs[i].params) {
        let sigs2 = sigs.insert(funcs[i].name, (param_types(funcs[i].params), funcs[i].ret));
        assert forall|a: int, b: int| 0 <= a < b < funcs.take(i + 1).len() implies
            (#[trigger] funcs.take(i + 1)[a]).name != (#[trigger] funcs.take(i + 1)[b]).name by {
            if b < i {
                assert(funcs.take(i)[a] == funcs[a] && funcs.take(i)[b] == funcs[b]);
            } else {
                assert(sigs.contains_key(funcs[a].name));
            }
        }
        assert forall|k: int| 0 <= k < i + 1 implies #[trigger] sigs2.contains_key(funcs[k].name) by {
            if k < i {
                assert(sigs.contains_key(funcs[k].name));
            }
        }
        lemma_declare_distinct(funcs, i + 1, sigs2);
    }
}

/// A program that code generation accepts has no two functions of one name.
pub proof fn law_accepted_names_distinct(funcs: Seq<FuncV>)
    ensures
        program_outcome(funcs) is Go ==> distinct_names(funcs),
{
    assert(funcs.take(0) =~= Seq::<FuncV>::empty());
    lemma_declare_distinct(funcs, 0, Map::empty());
}

fn cond_check_x(c: &Expr, vars: &Vec<(String, Type)>, sigs: &Vec<Sig>) -> (r: Flow<bool>)
    ensures
        flow_v(r) == cond_check(c@, vmap(vars), smap(sigs)),
{
    let t = match expr_type(c, vars, sigs) {
        Ok(t) => t,
        Err(x) => {
            return Flow::Fail(x);
        },
    };
    if t != Type::Bool {
        return Flow::Fail(CompileError::at(c.span, String::from_str("expected boolean condition")));
    }
    match lower_expr(c, vars, sigs) {
        Flow::Go((_, b)) => Flow::Go(b),
        Flow::Fail(x) => Flow::Fail(x),
        Flow::Abort => Flow::Abort,
    }
}

/// The relation between a statement or block step and its specification,
/// given the variables before and after.
pub open spec fn step_matches(r: Flow<(bool, bool)>, after: Vars, spec: Outcome<(Vars, bool, bool)>) -> bool {
    match r {
        Flow::Go((t, b)) => spec == Outcome::Go((after, t, b)),
        Flow::Fail(x) => spec == Outcome::<(Vars, bool, bool)>::Fail(x@),
        Flow::Abort => spec == Outcome::<(Vars, bool, bool)>::Abort,
    }
}

fn check_let(s: &Stmt, vars: &mut Vec<(String, Type)>, sigs: &Vec<Sig>, ret: Type, main_void: bool) -> (r: Flow<(bool, bool)>)
    requires
        s.kind is Let,
    ensures
        step_matches(r, vmap(final(vars)), stmt_step(s@, vmap(old(vars)), smap(sigs), ret, main_void)),
{
    match &s.kind {
        StmtKind::Let { name, value } => {
            let ty = match expr_type(value, vars, sigs) {
                Ok(t) => t,
                Err(x) => {
                    return Flow::Fail(x);
                },
            };
            if ty == Type::Void {
                let msg = concat3("cannot bind void expression to `", name.as_str(), "`");
                return Flow::Fail(CompileError::at(value.span, msg));
            }
            match lower_expr(value, vars, sigs) {
                Flow::Go((_, b)) => {
                    push_var(vars, name.clone(), ty);
                    Flow::Go((false, b))
                },
                Flow::Fail(x) => Flow::Fail(x),
                Flow::Abort => Flow::Abort,
            }
        },
        _ => Flow::Abort,
    }
}

fn check_assign(s: &Stmt, vars: &mut Vec<(String, Type)>, sigs: &Vec<Sig>, ret: Type, main_void: bool) -> (r: Flow<(bool, bool)>)
    requires
        s.kind is Assign,
    ensures
        step_matches(r, vmap(final(vars)), stmt_step(s@, vmap(old(vars)), smap(sigs), ret, main_void)),
{
    match &s.kind {
        StmtKind::Assign { name, value } => {
            let ty = match find_var(vars, name) {
                Some(t) => t,
                None => {
                    return Flow::Fail(CompileError::at(s.span, concat2("unknown variable: ", name.as_str())));
                },
            };
            let vt = match expr_type(value, vars, sigs) {
                Ok(t) => t,
                Err(x) => {
                    return Flow::Fail(x);
                },
            };
            if vt != ty {
                let want = ty_text_x(ty);
                let got = ty_text_x(vt);
                let mut msg = concat3("type mismatch assigning to `", name.as_str(), "`: expected ");
                msg.append(want.as_str());
                msg.append(", got ");
                msg.append(got.as_str());
                return Flow::Fail(CompileError::at(value.span, msg));
            }
            match lower_expr(value, vars, sigs) {
                Flow::Go((_, b)) => Flow::Go((false, b)),
                Flow::Fail(x) => Flow::Fail(x),
                Flow::Abort => Flow::Abort,
            }
        },
        _ => Flow::Abort,
    }
}

fn check_if(s: &Stmt, vars: &mut Vec<(String, Type)>, sigs: &Vec<Sig>, ret: Type, main_void: bool) -> (r: Flow<(bool, bool)>)
    requires
        s.kind is If,
    ensures
        step_matches(r, vmap(final(vars)), stmt_step(s@, vmap(old(vars)), smap(sigs), ret, main_void)),
    decreases s, 0int,
{
    match &s.kind {
        StmtKind::If { cond, then_block, else_block } => {
            let bc = match cond_check_x(cond, vars, sigs) {
                Flow::Go(b) => b,
                Flow::Fail(x) => {
                    return Flow::Fail(x);
                },
                Flow::Abort => {
                    return Flow::Abort;
                },
            };
            proof {
                assert(decreases_to!(*s => s.kind));
                assert(decreases_to!(s.kind => s.kind->If_then_block));
            }
            let (tt, b1) = match check_block(then_block, vars, sigs, ret, main_void) {
                Flow::Go(x) => x,
                Flow::Fail(x) => {
                    return Flow::Fail(x);
                },
                Flow::Abort => {
                    return Flow::Abort;
                },
            };
            match else_block {
                None => Flow::Go((false, bc || b1)),
                Some(eb) => {
                    proof {
                        assert(decreases_to!(s.kind => s.kind->If_else_block));
                        assert(decreases_to!(s.kind->If_else_block => s.kind->If_else_block->0));
                    }
                    match check_block(eb, vars, sigs, ret, main_void) {
                        Flow::Go((et, b2)) => Flow::Go((tt && et, bc || b1 || b2)),
                        Flow::Fail(x) => Flow::Fail(x),
                        Flow::Abort => Flow::Abort,
                    }
                },
            }
        },
        _ => Flow::Abort,
    }
}

fn check_while(s: &Stmt, vars: &mut Vec<(String, Type)>, sigs: &Vec<Sig>, ret: Type, main_void: bool) -> (r: Flow<(bool, bool)>)
    requires
        s.kind is While,
    ensures
        step_matches(r, vmap(final(vars)), stmt_step(s@, vmap(old(vars)), smap(sigs), ret, main_void)),
    decreases s, 0int,
{
    match &s.kind {
        StmtKind::While { cond, body } => {
            let bc = match cond_check_x(cond, vars, sigs) {
                Flow::Go(b) => b,
                Flow::Fail(x) => {
                    return Flow::Fail(x);
                },
                Flow::Abort => {
                    return Flow::Abort;
                },
            };
            proof {
                assert(decreases_to!(*s => s.kind));
                assert(decreases_to!(s.kind => s.kind->While_body));
            }
            match check_block(body, vars, sigs, ret, main_void) {
                Flow::Go((_, b1)) => Flow::Go((false, bc || b1)),
                Flow::Fail(x) => Flow::Fail(x),
                Flow::Abort => Flow::Abort,
            }
        },
        _ => Flow::Abort,
    }
}

fn check_return(s: &Stmt, vars: &mut Vec<(String, Type)>, sigs: &Vec<Sig>, ret: Type, main_void: bool) -> (r: Flow<(bool, bool)>)
    requires
        s.kind is Return,
    ensures
        step_matches(r, vmap(final(vars)), stmt_step(s@, vmap(old(vars)), smap(sigs), ret, main_void)),
{
    match &s.kind {
        StmtKind::Return(None) => {
            if main_void || ret == Type::Void {
                Flow::Go((true, false))
            } else {
                Flow::Fail(CompileError::at(s.span, String::from_str("missing return value")))
            }
        },
        StmtKind::Return(Some(e)) => {
            if ret == Type::Void {
                return Flow::Fail(
                    CompileError::at(e.span, String::from_str("unexpected return value in void function")),
                );
            }
            let et = match expr_type(e, vars, sigs) {
                Ok(t) => t,
                Err(x) => {
                    return Flow::Fail(x);
                },
            };
            if et != ret {
                let want = ty_text_x(ret);
                let got = ty_text_x(et);
                let mut msg = concat2("return type mismatch: expected ", want.as_str());
                msg.append(", got ");
                msg.append(got.as_str());
                return Flow::Fail(CompileError::at(e.span, msg));
            }
            match lower_expr(e, vars, sigs) {
                Flow::Go((_, b)) => Flow::Go((true, b)),
                Flow::Fail(x) => Flow::Fail(x),
                Flow::Abort => Flow::Abort,
            }
        },
        _ => Flow::Abort,
    }
}

fn check_stmt(s: &Stmt, vars: &mut Vec<(String, Type)>, sigs: &Vec<Sig>, ret: Type, main_void: bool) -> (r: Flow<(bool, bool)>)
    ensures
        step_matches(r, vmap(final(vars)), stmt_step(s@, vmap(old(vars)), smap(sigs), ret, main_void)),
    decreases s, 1int,
{
    match &s.kind {
        StmtKind::Let { .. } => check_let(s, vars, sigs, ret, main_void),
        StmtKind::Assign { .. } => check_assign(s, vars, sigs, ret, main_void),
        StmtKind::If { .. } => check_if(s, vars, sigs, ret, main_void),
        StmtKind::While { .. } => check_while(s, vars, sigs, ret, main_void),
        StmtKind::Return(_) => check_return(s, vars, sigs, ret, main_void),
        StmtKind::Expr(e) => match lower_expr(e, vars, sigs) {
            Flow::Go((_, b)) => Flow::Go((false, b)),
            Flow::Fail(x) => Flow::Fail(x),
            Flow::Abort => Flow::Abort,
        },
    }
}

/// Checks the statements of a block in order, stopping after one that
/// cannot fall through.
fn check_block(stmts: &Vec<Stmt>, vars: &mut Vec<(String, Type)>, sigs: &Vec<Sig>, ret: Type, main_void: bool) -> (r: Flow<(bool, bool)>)
    ensures
        step_matches(
            r,
            vmap(final(vars)),
            block_from(stmts_v(stmts@), 0, vmap(old(vars)), smap(sigs), ret, main_void, false),
        ),
    decreases stmts, 2int,
{
    proof {
        lemma_stmts_v_index(stmts@);
        assert(decreases_to!(*stmts => stmts@));
    }
    let mut bad = false;
    let mut i: usize = 0;
    while i < stmts.len()
        invariant
            i <= stmts@.len(),
            decreases_to!(*stmts => stmts@),
            stmts_v(stmts@).len() == stmts@.len(),
            forall|j: int| 0 <= j < stmts@.len() ==> #[trigger] stmts_v(stmts@)[j] == stmts@[j]@,
            block_from(stmts_v(stmts@), 0, vmap(old(vars)), smap(sigs), ret, main_void, false)
                == block_from(stmts_v(stmts@), i as int, vmap(vars), smap(sigs), ret, main_void, bad),
        decreases stmts@.len() - i,
    {
        proof {
            assert(decreases_to!(stmts@ => stmts@[i as int]));
        }
        match check_stmt(&stmts[i], vars, sigs, ret, main_void) {
            Flow::Go((t, b)) => {
                bad = bad || b;
                if t {
                    return Flow::Go((true, bad));
                }
            },
            Flow::Fail(x) => {
                return Flow::Fail(x);
            },
            Flow::Abort => {
                return Flow::Abort;
            },
        }
        i = i + 1;
    }
    Flow::Go((false, bad))
}

/// What code generation makes of a program that it does not reject with
/// a compile error.
#[derive(Debug, Clone, Copy, PartialEq, Eq, Structural)]
pub enum Verdict {
    /// Every function lowers, each instruction on operands of one width and
    /// each branch on a 1-bit value. (Whether LLVM then accepts the module
    /// is LLVM's to say.)
    Lowered,
    /// Every function lowers, but some instruction mixes operand widths or
    /// some branch tests a 64-bit value; this happens only in an expression
    /// statement, which is lowered without a type check.
    MixedWidths,
    /// Lowering meets operands it has no instruction for and aborts.
    Unlowerable,
}

fn has_void_param_x(params: &Vec<(String, Type)>) -> (b: bool)
    ensures
        b == has_void_param(params_v(params@)),
{
    let mut i: usize = 0;
    while i < params.len()
        invariant
            i <= params@.len(),
            forall|j: int| 0 <= j < i ==> params_v(params@)[j].1 != Type::Void,
        decreases params@.len() - i,
    {
        if params[i].1 == Type::Void {
            assert(params_v(params@)[i as int].1 == Type::Void);
            return true;
        }
        i = i + 1;
    }
    false
}

fn param_types_x(params: &Vec<(String, Type)>) -> (v: Vec<Type>)
    ensures
        v@ == param_types(params_v(params@)),
{
    let mut v: Vec<Type> = Vec::new();
    let mut i: usize = 0;
    while i < params.len()
        invariant
            i <= params@.len(),
            v@ == param_types(params_v(params@)).take(i as int),
        decreases params@.len() - i,
    {
        v.push(params[i].1);
        i = i + 1;
        assert(v@ =~= param_types(params_v(params@)).take(i as int));
    }
    assert(param_types(params_v(params@)).take(i as int) =~= param_types(params_v(params@)));
    v
}

fn param_vars(params: &Vec<(String, Type)>) -> (v: Vec<(String, Type)>)
    ensures
        vmap(&v) == assoc(params_v(params@)),
{
    let mut v: Vec<(String, Type)> = Vec::new();
    let mut i: usize = 0;
    while i < params.len()
        invariant
            i <= params@.len(),
            vars_seq(v@) == params_v(params@).take(i as int),
        decreases params@.len() - i,
    {
        let ghost old_v = v@;
        let nm = params[i].0.clone();
        v.push((nm, params[i].1));
        assert(vars_seq(v@) =~= vars_seq(old_v).push((params@[i as int].0@, params@[i as int].1)));
        assert(params_v(params@).take(i + 1) =~= params_v(params@).take(i as int).push(params_v(params@)[i as int]));
        i = i + 1;
    }
    assert(params_v(params@).take(i as int) =~= params_v(params@));
    v
}

fn is_main_void_x(f: &Func) -> (b: bool)
    ensures
        b == is_main_void(f@),
{
    f.name.eq(&String::from_str("main")) && f.ret == Type::Void
}

/// Runs the decisions of code generation over a program: the first compile
/// error it reports, or whether it emits valid IR or aborts.
pub fn check_program(p: &Program) -> (r: Result<Verdict, CompileError>)
    ensures
        match r {
            Ok(Verdict::Lowered) => program_outcome(funcs_v(p.funcs@)) == Outcome::Go(false),
            Ok(Verdict::MixedWidths) => program_outcome(funcs_v(p.funcs@)) == Outcome::Go(true),
            Ok(Verdict::Unlowerable) => program_outcome(funcs_v(p.funcs@)) == Outcome::<bool>::Abort,
            Err(e) => program_outcome(funcs_v(p.funcs@)) == Outcome::<bool>::Fail(e@),
        },
{
    let funcs = &p.funcs;
    let ghost fv = funcs_v(funcs@);
    let mut sigs: Vec<Sig> = Vec::new();
    let mut i: usize = 0;
    assert(smap(&sigs) =~= Map::<Seq<char>, (Seq<Type>, Type)>::empty());
    while i < funcs.len()
        invariant
            i <= funcs@.len(),
            funcs@ == p.funcs@,
            fv == funcs_v(funcs@),
            fv.len() == funcs@.len(),
            declare_from(fv, 0, Map::empty()) == declare_from(fv, i as int, smap(&sigs)),
        decreases funcs@.len() - i,
    {
        let f = &funcs[i];
        if find_sig(&sigs, &f.name).is_some() {
            let msg = concat2("duplicate function: ", f.name.as_str());
            return Err(CompileError::at(f.span, msg));
        }
        if has_void_param_x(&f.params) {
            return Ok(Verdict::Unlowerable);
        }
        let g = Sig { name: f.name.clone(), params: param_types_x(&f.params), ret: f.ret };
        let ghost old_sigs = sigs@;
        sigs.push(g);
        assert(sigs_seq(sigs@) =~= sigs_seq(old_sigs).push((f.name@, (param_types(params_v(f.params@)), f.ret))));
        proof {
            lemma_assoc_push(sigs_seq(old_sigs), f.name@, (param_types(params_v(f.params@)), f.ret));
        }
        i = i + 1;
    }
    let mut bad = false;
    let mut i: usize = 0;
    while i < funcs.len()
        invariant
            i <= funcs@.len(),
            funcs@ == p.funcs@,
            fv == funcs_v(funcs@),
            fv.len() == funcs@.len(),
            program_outcome(fv) == define_from(fv, i as int, smap(&sigs), bad),
        decreases funcs@.len() - i,
    {
        let f = &funcs[i];
        let mut vars = param_vars(&f.params);
        let mv = is_main_void_x(f);
        match check_block(&f.body, &mut vars, &sigs, f.ret, mv) {
            Flow::Go((_, b)) => {
                bad = bad || b;
            },
            Flow::Fail(x) => {
                return Err(x);
            },
            Flow::Abort => {
                return Ok(Verdict::Unlowerable);
            },
        }
        i = i + 1;
    }
    if bad {
        Ok(Verdict::MixedWidths)
    } else {
        Ok(Verdict::Lowered)
    }
}


/// Negation is typed like subtracting a value of the same type: `-e` is
/// accepted exactly where `e - e` is, with the same type, which is `e`'s
/// own; and `!e` is accepted exactly where `e && e` is, with the same type.
pub proof fn law_unary_like_binary(t: Type, span: Span)
    ensures
        unop_result(UnOp::Neg, t, span) is Ok <==> binop_result(BinOp::Sub, t, t, span) is Ok,
        unop_result(UnOp::Neg, t, span) matches Ok(u) ==> binop_result(BinOp::Sub, t, t, span) == Ok::<Type, ErrorV>(u) && u == t,
        unop_result(UnOp::Not, t, span) is Ok <==> binop_result(BinOp::And, t, t, span) is Ok,
        unop_result(UnOp::Not, t, span) matches Ok(u) ==> binop_result(BinOp::And, t, t, span) == Ok::<Type, ErrorV>(u),
{
}


/// Binary operators are symmetric in their operand types: `l op r` is
/// accepted exactly when `r op l` is, with the same type. Only operands of
/// one type are accepted, never strings or void values. Arithmetic on two
/// ints gives an int and on two floats a float; a comparison of two ints or
/// two floats gives a bool; `==` and `!=` also compare two bools; `&&` and
/// `||` take exactly two bools and give a bool.
pub proof fn law_operator_types(op: BinOp, l: Type, r: Type, span: Span)
    ensures
        binop_result(op, l, r, span) is Ok <==> binop_result(op, r, l, span) is Ok,
        binop_result(op, l, r, span) matches Ok(t) ==> binop_result(op, r, l, span) == Ok::<Type, ErrorV>(t),
        binop_result(op, l, r, span) is Ok ==> l == r && l != Type::Str && l != Type::Void,
        (op == BinOp::Add || op == BinOp::Sub || op == BinOp::Mul || op == BinOp::Div)
            && (l == Type::Int || l == Type::Float) && r == l
            ==> binop_result(op, l, r, span) == Ok::<Type, ErrorV>(l),
        (op == BinOp::Lt || op == BinOp::Le || op == BinOp::Gt || op == BinOp::Ge || op == BinOp::Eq
            || op == BinOp::Ne) && (l == Type::Int || l == Type::Float) && r == l
            ==> binop_result(op, l, r, span) == Ok::<Type, ErrorV>(Type::Bool),
        (op == BinOp::Eq || op == BinOp::Ne) && l == Type::Bool && r == Type::Bool
            ==> binop_result(op, l, r, span) == Ok::<Type, ErrorV>(Type::Bool),
        (op == BinOp::And || op == BinOp::Or) ==> (binop_result(op, l, r, span) is Ok
            <==> l == Type::Bool && r == Type::Bool),
        (op == BinOp::And || op == BinOp::Or) && l == Type::Bool && r == Type::Bool
            ==> binop_result(op, l, r, span) == Ok::<Type, ErrorV>(Type::Bool),
        binop_result(op, l, r, span) matches Ok(t) ==> (t == l <==> (op == BinOp::Add || op == BinOp::Sub
            || op == BinOp::Mul || op == BinOp::Div || l == Type::Bool)),
{
}

/// A cast is allowed between a type and itself and between `int` and
/// `float` in either direction, and nowhere else; an allowed cast gives the
/// target type, and a cast that is allowed one way is allowed back.
pub proof fn law_casts(from: Type, to: Type, span: Span)
    ensures
        cast_result(from, to, span) is Ok <==> (from == to || (from == Type::Int && to == Type::Float)
            || (from == Type::Float && to == Type::Int)),
        cast_result(from, to, span) matches Ok(t) ==> t == to,
        cast_result(from, to, span) is Ok <==> cast_result(to, from, span) is Ok,
{
}

} // verus!
