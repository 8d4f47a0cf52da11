//! AST for the robolang DSL, and its mathematical view (names as character
//! sequences), which the parser's and the compiler's contracts speak of.
use vstd::prelude::*;
use crate::lexer::MAX_STRING_LEN;
use crate::text::utf8_len;
use crate::parser::{lemma_exprs_view_push, lemma_stmts_view_push};

verus! {

#[derive(Clone, Debug)]
pub struct Program {
    pub funcs: Vec<FuncDecl>,
}

#[derive(Clone, Debug)]
pub struct FuncDecl {
    pub name: String,
    pub params: Vec<String>,
    pub body: Vec<Stmt>,
    pub line: u32,
}

#[derive(Debug)]
pub enum Stmt {
    Var { name: String, init: Option<Expr>, line: u32 },
    /// `var name[size];`: a number array (sized by a literal).
    ArrayDecl { name: String, size: String, line: u32 },
    Assign { name: String, op: AssignOp, value: Expr, line: u32 },
    /// `name[index] op= value;`
    ElemAssign { name: String, index: Expr, op: AssignOp, value: Expr, line: u32 },
    Expr { expr: Expr, line: u32 },
    If { cond: Expr, then: Vec<Stmt>, els: Option<Vec<Stmt>>, line: u32 },
    While { cond: Expr, body: Vec<Stmt>, line: u32 },
    For {
        init: Option<Box<Stmt>>,
        cond: Option<Expr>,
        step: Vec<Stmt>,
        body: Vec<Stmt>,
        line: u32,
    },
    Return { value: Option<Expr>, line: u32 },
    Break { line: u32 },
    Continue { line: u32 },
}

#[derive(Clone, Copy, Debug, PartialEq, Eq, Structural)]
pub enum AssignOp {
    Plain,
    Add,
    Sub,
    Mul,
    Div,
}

#[derive(Debug)]
pub enum Expr {
    /// A number literal, in its canonical decimal spelling (see
    /// `lexer::canon_number`).
    Num(String),
    Bool(bool),
    Str(String),
    Ident { name: String, line: u32 },
    /// `name[index]`: an array element.
    Index { name: String, index: Box<Expr>, line: u32 },
    Unary { op: UnOp, expr: Box<Expr>, line: u32 },
    Binary { op: BinOp, lhs: Box<Expr>, rhs: Box<Expr>, line: u32 },
    Logical { op: LogOp, lhs: Box<Expr>, rhs: Box<Expr> },
    Call { name: String, args: Vec<Expr>, line: u32 },
}

#[derive(Clone, Copy, Debug, PartialEq, Eq, Structural)]
pub enum UnOp {
    Neg,
    Not,
}

#[derive(Clone, Copy, Debug, PartialEq, Eq, Structural)]
pub enum BinOp {
    Add,
    Sub,
    Mul,
    Div,
    Mod,
    Eq,
    Ne,
    Lt,
    Le,
    Gt,
    Ge,
}

#[derive(Clone, Copy, Debug, PartialEq, Eq, Structural)]
pub enum LogOp {
    And,
    Or,
}

// ---------------------------------------------------------------------------
// Views

pub enum ExprV {
    Num(Seq<char>),
    Bool(bool),
    Str(Seq<char>),
    Ident { name: Seq<char>, line: int },
    Index { name: Seq<char>, index: Box<ExprV>, line: int },
    Unary { op: UnOp, expr: Box<ExprV>, line: int },
    Binary { op: BinOp, lhs: Box<ExprV>, rhs: Box<ExprV>, line: int },
    Logical { op: LogOp, lhs: Box<ExprV>, rhs: Box<ExprV> },
    Call { name: Seq<char>, args: Seq<ExprV>, line: int },
}

pub enum StmtV {
    Var { name: Seq<char>, init: Option<ExprV>, line: int },
    ArrayDecl { name: Seq<char>, size: Seq<char>, line: int },
    Assign { name: Seq<char>, op: AssignOp, value: ExprV, line: int },
    ElemAssign { name: Seq<char>, index: ExprV, op: AssignOp, value: ExprV, line: int },
    Expr { expr: ExprV, line: int },
    If { cond: ExprV, then: Seq<StmtV>, els: Option<Seq<StmtV>>, line: int },
    While { cond: ExprV, body: Seq<StmtV>, line: int },
    For { init: Option<Box<StmtV>>, cond: Option<ExprV>, step: Seq<StmtV>, body: Seq<StmtV>, line: int },
    Return { value: Option<ExprV>, line: int },
    Break { line: int },
    Continue { line: int },
}

pub struct FuncV {
    pub name: Seq<char>,
    pub params: Seq<Seq<char>>,
    pub body: Seq<StmtV>,
    pub line: int,
}

pub open spec fn expr_view(e: Expr) -> ExprV
    decreases e,
{
    match e {
        Expr::Num(s) => ExprV::Num(s@),
        Expr::Bool(b) => ExprV::Bool(b),
        Expr::Str(s) => ExprV::Str(s@),
        Expr::Ident { name, line } => ExprV::Ident { name: name@, line: line as int },
        Expr::Index { name, index, line } => ExprV::Index {
            name: name@,
            index: Box::new(expr_view(*index)),
            line: line as int,
        },
        Expr::Unary { op, expr, line } => ExprV::Unary { op, expr: Box::new(expr_view(*expr)), line: line as int },
        Expr::Binary { op, lhs, rhs, line } => ExprV::Binary {
            op,
            lhs: Box::new(expr_view(*lhs)),
            rhs: Box::new(expr_view(*rhs)),
            line: line as int,
        },
        Expr::Logical { op, lhs, rhs } => ExprV::Logical {
            op,
            lhs: Box::new(expr_view(*lhs)),
            rhs: Box::new(expr_view(*rhs)),
        },
        Expr::Call { name, args, line } => ExprV::Call {
            name: name@,
            args: exprs_view(args@),
            line: line as int,
        },
    }
}

pub open spec fn exprs_view(es: Seq<Expr>) -> Seq<ExprV>
    decreases es,
{
    if es.len() == 0 {
        Seq::empty()
    } else {
        proof {
            assert(decreases_to!(es => es[es.len() - 1]));
            assert(decreases_to!(es => es.subrange(0, es.len() - 1)));
        }
        exprs_view(es.subrange(0, es.len() - 1)).push(expr_view(es[es.len() - 1]))
    }
}

pub open spec fn opt_expr_view(e: Option<Expr>) -> Option<ExprV> {
    match e {
        Some(x) => Some(expr_view(x)),
        None => None,
    }
}

pub open spec fn stmt_view(s: Stmt) -> StmtV
    decreases s,
{
    match s {
        Stmt::Var { name, init, line } => StmtV::Var {
            name: name@,
            init: match init {
                Some(x) => Some(expr_view(x)),
                None => None,
            },
            line: line as int,
        },
        Stmt::ArrayDecl { name, size, line } => StmtV::ArrayDecl { name: name@, size: size@, line: line as int },
        Stmt::Assign { name, op, value, line } => StmtV::Assign {
            name: name@,
            op,
            value: expr_view(value),
            line: line as int,
        },
        Stmt::ElemAssign { name, index, op, value, line } => StmtV::ElemAssign {
            name: name@,
            index: expr_view(index),
            op,
            value: expr_view(value),
            line: line as int,
        },
        Stmt::Expr { expr, line } => StmtV::Expr { expr: expr_view(expr), line: line as int },
        Stmt::If { cond, then, els, line } => StmtV::If {
            cond: expr_view(cond),
            then: stmts_view(then@),
            els: match els {
                Some(b) => Some(stmts_view(b@)),
                None => None,
            },
            line: line as int,
        },
        Stmt::While { cond, body, line } => StmtV::While {
            cond: expr_view(cond),
            body: stmts_view(body@),
            line: line as int,
        },
        Stmt::For { init, cond, step, body, line } => StmtV::For {
            init: match init {
                Some(b) => Some(Box::new(stmt_view(*b))),
                None => None,
            },
            cond: match cond {
                Some(x) => Some(expr_view(x)),
                None => None,
            },
            step: stmts_view(step@),
            body: stmts_view(body@),
            line: line as int,
        },
        Stmt::Return { value, line } => StmtV::Return {
            value: match value {
                Some(x) => Some(expr_view(x)),
                None => None,
            },
            line: line as int,
        },
        Stmt::Break { line } => StmtV::Break { line: line as int },
        Stmt::Continue { line } => StmtV::Continue { line: line as int },
    }
}

pub open spec fn stmts_view(ss: Seq<Stmt>) -> Seq<StmtV>
    decreases ss,
{
    if ss.len() == 0 {
        Seq::empty()
    } else {
        proof {
            assert(decreases_to!(ss => ss[ss.len() - 1]));
            assert(decreases_to!(ss => ss.subrange(0, ss.len() - 1)));
        }
        stmts_view(ss.subrange(0, ss.len() - 1)).push(stmt_view(ss[ss.len() - 1]))
    }
}

pub open spec fn names_view(ns: Seq<String>) -> Seq<Seq<char>> {
    Seq::new(ns.len(), |i: int| ns[i]@)
}

pub open spec fn func_view(f: FuncDecl) -> FuncV {
    FuncV { name: f.name@, params: names_view(f.params@), body: stmts_view(f.body@), line: f.line as int }
}

pub open spec fn program_view(p: Program) -> Seq<FuncV> {
    Seq::new(p.funcs@.len(), |i: int| func_view(p.funcs@[i]))
}

// ---------------------------------------------------------------------------
// String literals

/// Every string literal in the expression has at most `MAX_STRING_LEN`
/// bytes.
pub open spec fn expr_strs_fit(e: ExprV) -> bool
    decreases e,
{
    match e {
        ExprV::Str(x) => utf8_len(x) <= MAX_STRING_LEN,
        ExprV::Index { index, .. } => expr_strs_fit(*index),
        ExprV::Unary { expr, .. } => expr_strs_fit(*expr),
        ExprV::Binary { lhs, rhs, .. } => expr_strs_fit(*lhs) && expr_strs_fit(*rhs),
        ExprV::Logical { lhs, rhs, .. } => expr_strs_fit(*lhs) && expr_strs_fit(*rhs),
        ExprV::Call { args, .. } => exprs_strs_fit(args),
        _ => true,
    }
}

pub open spec fn exprs_strs_fit(es: Seq<ExprV>) -> bool
    decreases es,
{
    if es.len() == 0 {
        true
    } else {
        proof {
            assert(decreases_to!(es => es[es.len() - 1]));
            assert(decreases_to!(es => es.subrange(0, es.len() - 1)));
        }
        exprs_strs_fit(es.subrange(0, es.len() - 1)) && expr_strs_fit(es[es.len() - 1])
    }
}

pub open spec fn opt_strs_fit(e: Option<ExprV>) -> bool {
    match e {
        Some(x) => expr_strs_fit(x),
        None => true,
    }
}

/// Every string literal in the statement has at most `MAX_STRING_LEN`
/// bytes.
pub open spec fn stmt_strs_fit(s: StmtV) -> bool
    decreases s, 0int,
{
    match s {
        StmtV::Var { init, .. } => match init {
            Some(x) => expr_strs_fit(x),
            None => true,
        },
        StmtV::Assign { value, .. } => expr_strs_fit(value),
        StmtV::ElemAssign { index, value, .. } => expr_strs_fit(index) && expr_strs_fit(value),
        StmtV::Expr { expr, .. } => expr_strs_fit(expr),
        StmtV::If { cond, then, els, .. } => {
            let e = match els {
                Some(b) => stmts_strs_fit(b),
                None => true,
            };
            expr_strs_fit(cond) && stmts_strs_fit(then) && e
        },
        StmtV::While { cond, body, .. } => expr_strs_fit(cond) && stmts_strs_fit(body),
        StmtV::For { init, cond, step, body, .. } => {
            let i = match init {
                Some(b) => stmt_strs_fit(*b),
                None => true,
            };
            let c = match cond {
                Some(x) => expr_strs_fit(x),
                None => true,
            };
            i && c && stmts_strs_fit(step) && stmts_strs_fit(body)
        },
        StmtV::Return { value, .. } => match value {
            Some(x) => expr_strs_fit(x),
            None => true,
        },
        _ => true,
    }
}

pub open spec fn stmts_strs_fit(ss: Seq<StmtV>) -> bool
    decreases ss, 0int,
{
    if ss.len() == 0 {
        true
    } else {
        proof {
            assert(decreases_to!(ss => ss[ss.len() - 1]));
            assert(decreases_to!(ss => ss.subrange(0, ss.len() - 1)));
        }
        stmts_strs_fit(ss.subrange(0, ss.len() - 1)) && stmt_strs_fit(ss[ss.len() - 1])
    }
}

pub proof fn lemma_exprs_strs_fit_push(es: Seq<ExprV>, e: ExprV)
    ensures
        exprs_strs_fit(es.push(e)) == (exprs_strs_fit(es) && expr_strs_fit(e)),
{
    assert(es.push(e).subrange(0, es.len() as int) =~= es);
}

pub proof fn lemma_stmts_strs_fit_push(ss: Seq<StmtV>, st: StmtV)
    ensures
        stmts_strs_fit(ss.push(st)) == (stmts_strs_fit(ss) && stmt_strs_fit(st)),
{
    assert(ss.push(st).subrange(0, ss.len() as int) =~= ss);
}

/// The larger of two depths.
pub open spec fn deeper(a: nat, b: nat) -> nat {
    if a >= b {
        a
    } else {
        b
    }
}

/// How deeply blocks nest inside a statement: none for a simple statement;
/// for an `if`, `while` or `for`, one level for its blocks plus the deepest
/// nesting inside them.
pub open spec fn stmt_depth(s: StmtV) -> nat
    decreases s, 0int,
{
    match s {
        StmtV::If { then, els, .. } => {
            let e = match els {
                Some(b) => stmts_depth(b),
                None => 0,
            };
            1 + deeper(stmts_depth(then), e)
        },
        StmtV::While { body, .. } => 1 + stmts_depth(body),
        StmtV::For { init, step, body, .. } => {
            let i = match init {
                Some(b) => stmt_depth(*b),
                None => 0,
            };
            deeper(deeper(i, stmts_depth(step)), 1 + stmts_depth(body))
        },
        _ => 0,
    }
}

/// The deepest block nesting among statements.
pub open spec fn stmts_depth(ss: Seq<StmtV>) -> nat
    decreases ss, 0int,
{
    if ss.len() == 0 {
        0
    } else {
        proof {
            assert(decreases_to!(ss => ss[ss.len() - 1]));
            assert(decreases_to!(ss => ss.subrange(0, ss.len() - 1)));
        }
        deeper(stmts_depth(ss.subrange(0, ss.len() - 1)), stmt_depth(ss[ss.len() - 1]))
    }
}

pub proof fn lemma_stmts_depth_push(ss: Seq<StmtV>, st: StmtV)
    ensures
        stmts_depth(ss.push(st)) == deeper(stmts_depth(ss), stmt_depth(st)),
{
    assert(ss.push(st).subrange(0, ss.len() as int) =~= ss);
}

// ---------------------------------------------------------------------------
// Copies of syntax trees

fn clone_exprs(v: &Vec<Expr>) -> (r: Vec<Expr>)
    ensures
        exprs_view(r@) == exprs_view(v@),
    decreases v@, 1int,
{
    let mut r: Vec<Expr> = Vec::new();
    let mut i: usize = 0;
    while i < v.len()
        invariant
            i <= v.len(),
            exprs_view(r@) == exprs_view(v@.take(i as int)),
        decreases v.len() - i,
    {
        proof {
            assert(decreases_to!(v@ => v@[i as int]));
        }
        let c = clone_expr(&v[i]);
        proof {
            lemma_exprs_view_push(r@, c);
            lemma_exprs_view_push(v@.take(i as int), v@[i as int]);
            assert(v@.take(i + 1) =~= v@.take(i as int).push(v@[i as int]));
        }
        r.push(c);
        i = i + 1;
    }
    proof {
        assert(v@.take(i as int) =~= v@);
    }
    r
}

fn clone_opt_expr(e: &Option<Expr>) -> (r: Option<Expr>)
    ensures
        opt_expr_view(r) == opt_expr_view(*e),
    decreases *e, 1int,
{
    match e {
        Some(x) => Some(clone_expr(x)),
        None => None,
    }
}

fn clone_expr(e: &Expr) -> (r: Expr)
    ensures
        expr_view(r) == expr_view(*e),
    decreases *e, 0int,
{
    match e {
        Expr::Num(s) => Expr::Num(s.clone()),
        Expr::Bool(b) => Expr::Bool(*b),
        Expr::Str(s) => Expr::Str(s.clone()),
        Expr::Ident { name, line } => Expr::Ident { name: name.clone(), line: *line },
        Expr::Index { name, index, line } => Expr::Index {
            name: name.clone(),
            index: Box::new(clone_expr(index)),
            line: *line,
        },
        Expr::Unary { op, expr, line } => Expr::Unary { op: *op, expr: Box::new(clone_expr(expr)), line: *line },
        Expr::Binary { op, lhs, rhs, line } => Expr::Binary {
            op: *op,
            lhs: Box::new(clone_expr(lhs)),
            rhs: Box::new(clone_expr(rhs)),
            line: *line,
        },
        Expr::Logical { op, lhs, rhs } => Expr::Logical {
            op: *op,
            lhs: Box::new(clone_expr(lhs)),
            rhs: Box::new(clone_expr(rhs)),
        },
        Expr::Call { name, args, line } => Expr::Call { name: name.clone(), args: clone_exprs(args), line: *line },
    }
}

fn clone_stmts(v: &Vec<Stmt>) -> (r: Vec<Stmt>)
    ensures
        stmts_view(r@) == stmts_view(v@),
    decreases v@, 1int,
{
    let mut r: Vec<Stmt> = Vec::new();
    let mut i: usize = 0;
    while i < v.len()
        invariant
            i <= v.len(),
            stmts_view(r@) == stmts_view(v@.take(i as int)),
        decreases v.len() - i,
    {
        proof {
            assert(decreases_to!(v@ => v@[i as int]));
        }
        let c = clone_stmt(&v[i]);
        proof {
            lemma_stmts_view_push(r@, c);
            lemma_stmts_view_push(v@.take(i as int), v@[i as int]);
            assert(v@.take(i + 1) =~= v@.take(i as int).push(v@[i as int]));
        }
        r.push(c);
        i = i + 1;
    }
    proof {
        assert(v@.take(i as int) =~= v@);
    }
    r
}

fn clone_stmt(st: &Stmt) -> (r: Stmt)
    ensures
        stmt_view(r) == stmt_view(*st),
    decreases *st, 0int,
{
    match st {
        Stmt::Var { name, init, line } => Stmt::Var { name: name.clone(), init: clone_opt_expr(init), line: *line },
        Stmt::ArrayDecl { name, size, line } => Stmt::ArrayDecl { name: name.clone(), size: size.clone(), line: *line },
        Stmt::Assign { name, op, value, line } => Stmt::Assign {
            name: name.clone(),
            op: *op,
            value: clone_expr(value),
            line: *line,
        },
        Stmt::ElemAssign { name, index, op, value, line } => Stmt::ElemAssign {
            name: name.clone(),
            index: clone_expr(index),
            op: *op,
            value: clone_expr(value),
            line: *line,
        },
        Stmt::Expr { expr, line } => Stmt::Expr { expr: clone_expr(expr), line: *line },
        Stmt::If { cond, then, els, line } => {
            let e = match els {
                Some(b) => Some(clone_stmts(b)),
                None => None,
            };
            Stmt::If { cond: clone_expr(cond), then: clone_stmts(then), els: e, line: *line }
        },
        Stmt::While { cond, body, line } => Stmt::While {
            cond: clone_expr(cond),
            body: clone_stmts(body),
            line: *line,
        },
        Stmt::For { init, cond, step, body, line } => {
            let i = match init {
                Some(b) => Some(Box::new(clone_stmt(b))),
                None => None,
            };
            Stmt::For {
                init: i,
                cond: clone_opt_expr(cond),
                step: clone_stmts(step),
                body: clone_stmts(body),
                line: *line,
            }
        },
        Stmt::Return { value, line } => Stmt::Return { value: clone_opt_expr(value), line: *line },
        Stmt::Break { line } => Stmt::Break { line: *line },
        Stmt::Continue { line } => Stmt::Continue { line: *line },
    }
}

impl Clone for Expr {
    /// A copy with the same view.
    fn clone(&self) -> (r: Self)
        ensures
            expr_view(r) == expr_view(*self),
    {
        clone_expr(self)
    }
}

impl Clone for Stmt {
    /// A copy with the same view.
    fn clone(&self) -> (r: Self)
        ensures
            stmt_view(r) == stmt_view(*self),
    {
        clone_stmt(self)
    }
}

} // verus!
