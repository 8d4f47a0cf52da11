//! Bytecode compiler: AST -> flat stack bytecode.
//!
//! Scoping rules:
//! - Every `var` declared anywhere in `main` is hoisted to a *global* and is
//!   visible from all functions (and persists across ticks). Declaring the
//!   same name twice in `main` refers to the same global.
//! - `var x;` without an initializer sets `x` to null each time it runs.
//! - `var` declared inside any other function (and `for` loop variables there)
//!   are function-locals. Parameters are locals.
//! - Names resolve innermost-scope-first, then globals, else compile error.
//! - Arrays are declared at the top level of `main` with a literal size; they
//!   are global and hold numbers only.
//!
//! Whatever the source, a compiled program is well formed (`program_wf`):
//! every operand of every instruction is in range for the tables it indexes,
//! every jump lands inside its function, every function ends with `Return`,
//! and every call passes the callee's own number of arguments. The VM relies
//! on this to run robot code without bounds failures.
use vstd::prelude::*;
use crate::ast::{
    AssignOp, BinOp, Expr, ExprV, FuncDecl, FuncV, LogOp, Stmt, StmtV, UnOp, expr_view, exprs_view, func_view,
    names_view, opt_expr_view, program_view, stmt_view, stmts_view, expr_strs_fit, exprs_strs_fit, opt_strs_fit,
    stmt_strs_fit, stmts_strs_fit,
};
use crate::host::{host_arity, host_fn_at, host_index, host_lookup, host_name, HostFn};
use std::rc::Rc;
use crate::text::{chars_eq_str, chars_of, decimal, digits_value, is_digit, push_decimal, push_str, string_from_chars, utf8_len};
use crate::lexer::MAX_STRING_LEN;

verus! {

#[derive(Clone, Copy, Debug, PartialEq, Eq, Structural)]
pub enum Op {
    Const(u16),
    Pop,
    Dup,
    GetGlobal(u16),
    SetGlobal(u16),
    GetLocal(u16),
    SetLocal(u16),
    GetElem(u16),
    SetElem(u16),
    Add,
    Sub,
    Mul,
    Div,
    Mod,
    Neg,
    Not,
    Eq,
    Ne,
    Lt,
    Le,
    Gt,
    Ge,
    Jump(u16),
    JumpIfFalse(u16),
    JumpIfTrue(u16),
    Call(u16, u8),
    HostCall(u16, u8),
    Return,
}

/// A constant of the program. A number keeps the literal's digits; its
/// value is taken when the program is loaded.
#[derive(Clone, Debug, PartialEq)]
pub enum Const {
    Null,
    /// The canonical decimal spelling of a number literal (see
    /// `lexer::canon_number`). Constants are shared by exact decimal value:
    /// `1`, `01` and `1.0` share one constant, but two literals that differ
    /// only in digits beyond what an `f64` holds (more than about 17
    /// significant digits) keep two constants, although they load as the
    /// same `f64`.
    Num(String),
    Bool(bool),
    Str(String),
}

#[derive(Clone, Debug)]
pub struct FuncCode {
    pub name: String,
    pub nparams: usize,
    pub nlocals: usize,
    pub code: Vec<Op>,
}

/// A number array: its name and its number of elements.
#[derive(Clone, Debug)]
pub struct ArrayInfo {
    pub name: String,
    pub len: usize,
}

/// A compiled robot program.
#[derive(Clone, Debug)]
pub struct Program {
    /// Function 0 is always `main`.
    pub funcs: Vec<FuncCode>,
    pub consts: Vec<Const>,
    pub n_globals: usize,
    pub arrays: Vec<ArrayInfo>,
}

#[derive(Clone, Debug)]
pub struct CompileError {
    pub msg: String,
    pub line: u32,
}

pub const MAX_GLOBALS: usize = 256;
pub const MAX_LOCALS: usize = 256;
pub const MAX_FUNCS: usize = 64;
pub const MAX_CONSTS: usize = 4096;
pub const MAX_CODE_LEN: usize = 65535;
/// Elements of all arrays together.
pub const MAX_ARRAY_ELEMS: usize = 16384;

// ---------------------------------------------------------------------------
// Well-formed bytecode

/// The tables an instruction may index.
pub struct Bounds {
    pub nconsts: nat,
    pub nglobals: nat,
    pub nlocals: nat,
    pub narrays: nat,
    /// Number of parameters of each function, by index.
    pub params: Seq<nat>,
}

/// `op` only refers to existing constants, globals, locals, arrays,
/// functions and host functions, passes each callee its own number of
/// arguments, and jumps to a position at most `jmax`.
pub open spec fn op_wf(op: Op, b: Bounds, jmax: nat) -> bool {
    match op {
        Op::Const(i) => i < b.nconsts,
        Op::GetGlobal(i) => i < b.nglobals,
        Op::SetGlobal(i) => i < b.nglobals,
        Op::GetLocal(i) => i < b.nlocals,
        Op::SetLocal(i) => i < b.nlocals,
        Op::GetElem(a) => a < b.narrays,
        Op::SetElem(a) => a < b.narrays,
        Op::Jump(t) => t <= jmax,
        Op::JumpIfFalse(t) => t <= jmax,
        Op::JumpIfTrue(t) => t <= jmax,
        Op::Call(f, n) => f < b.params.len() && n == (b.params[f as int] as u8),
        Op::HostCall(h, n) => (host_fn_at(h as int) matches Some(hf) && n == host_arity(hf)),
        _ => true,
    }
}

pub open spec fn code_wf(code: Seq<Op>, b: Bounds, jmax: nat) -> bool {
    forall|i: int| 0 <= i < code.len() ==> #[trigger] op_wf(code[i], b, jmax)
}

pub open spec fn program_bounds(p: Program, nlocals: nat) -> Bounds {
    Bounds {
        nconsts: p.consts.len() as nat,
        nglobals: p.n_globals as nat,
        nlocals,
        narrays: p.arrays.len() as nat,
        params: Seq::new(p.funcs.len() as nat, |i: int| p.funcs@[i].nparams as nat),
    }
}

pub open spec fn total_elems(a: Seq<ArrayInfo>) -> nat
    decreases a.len(),
{
    if a.len() == 0 {
        0
    } else {
        total_elems(a.drop_last()) + a.last().len as nat
    }
}

/// A well-formed function: it ends with `Return`, all its instructions
/// (jumps included) stay inside it, and it has room for its parameters.
pub open spec fn func_wf(p: Program, f: FuncCode) -> bool {
    &&& 1 <= f.code.len() <= MAX_CODE_LEN
    &&& f.code@.last() == Op::Return
    &&& f.nparams <= f.nlocals <= MAX_LOCALS
    &&& code_wf(f.code@, program_bounds(p, f.nlocals as nat), (f.code.len() - 1) as nat)
}

/// A well-formed program: `main` comes first and takes no parameters,
/// every function is well formed, and the sandbox caps hold.
pub open spec fn program_wf(p: Program) -> bool {
    &&& 1 <= p.funcs.len() <= MAX_FUNCS
    &&& p.funcs@[0].name@ == "main"@
    &&& p.funcs@[0].nparams == 0
    &&& p.consts.len() <= MAX_CONSTS
    &&& p.n_globals <= MAX_GLOBALS
    &&& total_elems(p.arrays@) <= MAX_ARRAY_ELEMS
    &&& forall|i: int| 0 <= i < p.arrays.len() ==> #[trigger] p.arrays@[i].len >= 1
    &&& forall|i: int| 0 <= i < p.funcs.len() ==> #[trigger] func_wf(p, p.funcs@[i])
}

pub proof fn lemma_op_wf_mono(op: Op, b1: Bounds, b2: Bounds, j1: nat, j2: nat)
    requires
        op_wf(op, b1, j1),
        b1.nconsts <= b2.nconsts,
        b1.nglobals <= b2.nglobals,
        b1.nlocals <= b2.nlocals,
        b1.narrays <= b2.narrays,
        b1.params == b2.params,
        j1 <= j2,
    ensures
        op_wf(op, b2, j2),
{
}

} // verus!


verus! {

// ---------------------------------------------------------------------------
// What the compiler computes
//
// The functions below state the compiler as a function of the program's
// view: the code of each function, instruction by instruction, the constant
// table, the globals and arrays, and the first error met, in the order the
// compiler meets it.

/// A compile error: message and line (0 where no line applies).
pub type CErr = (Seq<char>, int);

pub enum ConstV {
    Null,
    Num(Seq<char>),
    Bool(bool),
    Str(Seq<char>),
}

pub open spec fn const_view(c: Const) -> ConstV {
    match c {
        Const::Null => ConstV::Null,
        Const::Num(s) => ConstV::Num(s@),
        Const::Bool(b) => ConstV::Bool(b),
        Const::Str(s) => ConstV::Str(s@),
    }
}

pub open spec fn consts_view(cs: Seq<Const>) -> Seq<ConstV> {
    Seq::new(cs.len(), |i: int| const_view(cs[i]))
}

pub open spec fn arrays_view(a: Seq<ArrayInfo>) -> Seq<(Seq<char>, nat)> {
    Seq::new(a.len(), |i: int| (a[i].name@, a[i].len as nat))
}

/// The program-wide tables the code of a function refers to: function
/// names and parameter counts by index, global names, and arrays.
pub struct TabV {
    pub funcs: Seq<Seq<char>>,
    pub params: Seq<nat>,
    pub globals: Seq<Seq<char>>,
    pub arrays: Seq<(Seq<char>, nat)>,
}

/// The compiler's state while it compiles one function.
pub struct CSt {
    pub consts: Seq<ConstV>,
    pub code: Seq<Op>,
    pub nlocals: nat,
    /// Visible locals, innermost last: name and slot.
    pub locals: Seq<(Seq<char>, u16)>,
    /// Where each open scope starts in `locals`.
    pub marks: Seq<nat>,
    /// Pending jumps of the enclosing loops: breaks and continues.
    pub loops: Seq<(Seq<u16>, Seq<u16>)>,
}

/// How a name resolves: a global or a local slot.
#[derive(Clone, Copy)]
pub enum VarRef {
    Global(u16),
    Local(u16),
}

/// Index of the last occurrence of `x` in `s`, or -1.
pub open spec fn last_pos<T>(s: Seq<T>, x: T) -> int
    decreases s.len(),
{
    if s.len() == 0 {
        -1
    } else if s.last() == x {
        s.len() - 1
    } else {
        last_pos(s.drop_last(), x)
    }
}

/// Index of the last entry keyed by `name` in `s`, or -1.
pub open spec fn key_pos<V>(s: Seq<(Seq<char>, V)>, name: Seq<char>) -> int
    decreases s.len(),
{
    if s.len() == 0 {
        -1
    } else if s.last().0 == name {
        s.len() - 1
    } else {
        key_pos(s.drop_last(), name)
    }
}

/// The host function named `name`, if any (host names are distinct).
pub open spec fn host_by_name(name: Seq<char>) -> Option<HostFn> {
    if exists|f: HostFn| host_name(f) == name {
        Some(choose|f: HostFn| host_name(f) == name)
    } else {
        None
    }
}

pub open spec fn undefined_msg(name: Seq<char>) -> Seq<char> {
    "undefined variable '"@ + name + "'"@
}

pub open spec fn array_value_msg(name: Seq<char>) -> Seq<char> {
    "array '"@ + name + "' can only be used through its elements"@
}

pub open spec fn not_array_msg(name: Seq<char>) -> Seq<char> {
    "'"@ + name + "' is not an array"@
}

pub open spec fn func_arity_msg(name: Seq<char>, want: nat, got: nat) -> Seq<char> {
    "function '"@ + name + "' expects "@ + decimal(want) + " argument(s), got "@ + decimal(got)
}

pub open spec fn host_arity_msg(name: Seq<char>, want: nat, got: nat) -> Seq<char> {
    "'"@ + name + "' expects "@ + decimal(want) + " argument(s), got "@ + decimal(got)
}

pub open spec fn unknown_fn_msg(name: Seq<char>) -> Seq<char> {
    "unknown function '"@ + name + "'"@
}

pub open spec fn not_hoisted_msg(name: Seq<char>) -> Seq<char> {
    "internal error: global '"@ + name + "' not hoisted"@
}

pub open spec fn s_emit(st: CSt, op: Op) -> Result<CSt, CErr> {
    if st.code.len() >= MAX_CODE_LEN {
        Err(("function body too large"@, 0))
    } else {
        Ok(CSt { code: st.code.push(op), ..st })
    }
}

/// The index of constant `c`, added to the table when it is new.
pub open spec fn s_const(st: CSt, c: ConstV) -> Result<(CSt, int), CErr> {
    let k = last_pos(st.consts, c);
    if k >= 0 {
        Ok((st, k))
    } else if st.consts.len() >= MAX_CONSTS {
        Err(("too many constants"@, 0))
    } else {
        Ok((CSt { consts: st.consts.push(c), ..st }, st.consts.len() as int))
    }
}

/// Push constant `c`.
pub open spec fn s_push_const(st: CSt, c: ConstV) -> Result<CSt, CErr> {
    match s_const(st, c) {
        Err(e) => Err(e),
        Ok((st1, k)) => s_emit(st1, Op::Const(k as u16)),
    }
}

pub open spec fn retargeted(op: Op, t: u16) -> Op {
    match op {
        Op::Jump(_) => Op::Jump(t),
        Op::JumpIfFalse(_) => Op::JumpIfFalse(t),
        Op::JumpIfTrue(_) => Op::JumpIfTrue(t),
        other => other,
    }
}

/// Point the jump at `at` to `t`.
pub open spec fn s_patch(st: CSt, at: int, t: int) -> CSt {
    CSt { code: st.code.update(at, retargeted(st.code[at], t as u16)), ..st }
}

pub open spec fn s_patch_all(st: CSt, ats: Seq<u16>, t: int) -> CSt
    decreases ats.len(),
{
    if ats.len() == 0 {
        st
    } else {
        s_patch(s_patch_all(st, ats.drop_last(), t), ats.last() as int, t)
    }
}

pub open spec fn s_resolve(tb: TabV, st: CSt, name: Seq<char>) -> Option<VarRef> {
    let l = key_pos(st.locals, name);
    if l >= 0 {
        Some(VarRef::Local(st.locals[l].1))
    } else {
        let g = last_pos(tb.globals, name);
        if g >= 0 {
            Some(VarRef::Global(g as u16))
        } else {
            None
        }
    }
}

/// The error for a name that is neither a variable nor a function.
pub open spec fn unresolved(tb: TabV, name: Seq<char>, line: int) -> CErr {
    if key_pos(tb.arrays, name) >= 0 {
        (array_value_msg(name), line)
    } else {
        (undefined_msg(name), line)
    }
}

pub open spec fn get_op(r: VarRef) -> Op {
    match r {
        VarRef::Global(g) => Op::GetGlobal(g),
        VarRef::Local(l) => Op::GetLocal(l),
    }
}

pub open spec fn set_op(r: VarRef) -> Op {
    match r {
        VarRef::Global(g) => Op::SetGlobal(g),
        VarRef::Local(l) => Op::SetLocal(l),
    }
}

pub open spec fn un_code(op: UnOp) -> Op {
    match op {
        UnOp::Neg => Op::Neg,
        UnOp::Not => Op::Not,
    }
}

pub open spec fn bin_code(op: BinOp) -> Op {
    match op {
        BinOp::Add => Op::Add,
        BinOp::Sub => Op::Sub,
        BinOp::Mul => Op::Mul,
        BinOp::Div => Op::Div,
        BinOp::Mod => Op::Mod,
        BinOp::Eq => Op::Eq,
        BinOp::Ne => Op::Ne,
        BinOp::Lt => Op::Lt,
        BinOp::Le => Op::Le,
        BinOp::Gt => Op::Gt,
        BinOp::Ge => Op::Ge,
    }
}

/// The operation of a compound assignment (`+=` ...), none for `=`.
pub open spec fn assign_code(op: AssignOp) -> Option<Op> {
    match op {
        AssignOp::Plain => None,
        AssignOp::Add => Some(Op::Add),
        AssignOp::Sub => Some(Op::Sub),
        AssignOp::Mul => Some(Op::Mul),
        AssignOp::Div => Some(Op::Div),
    }
}

pub open spec fn s_emit_opt(st: CSt, op: Option<Op>) -> Result<CSt, CErr> {
    match op {
        None => Ok(st),
        Some(o) => s_emit(st, o),
    }
}

/// `len(name)`: the declared size of array `name`, as a constant.
pub open spec fn s_len_call(tb: TabV, st: CSt, args: Seq<ExprV>, line: int) -> Result<CSt, CErr> {
    if args.len() == 1 && args[0] is Ident && key_pos(tb.arrays, args[0]->Ident_name) >= 0 {
        s_push_const(st, ConstV::Num(decimal(tb.arrays[key_pos(tb.arrays, args[0]->Ident_name)].1)))
    } else {
        Err(("len() takes the name of an array"@, line))
    }
}

pub open spec fn s_expr(tb: TabV, st: CSt, e: ExprV) -> Result<CSt, CErr>
    decreases e,
{
    match e {
        ExprV::Num(n) => s_push_const(st, ConstV::Num(n)),
        ExprV::Bool(b) => s_push_const(st, ConstV::Bool(b)),
        ExprV::Str(s) => s_push_const(st, ConstV::Str(s)),
        ExprV::Ident { name, line } => match s_resolve(tb, st, name) {
            Some(r) => s_emit(st, get_op(r)),
            None => Err(unresolved(tb, name, line)),
        },
        ExprV::Index { name, index, line } => {
            let a = key_pos(tb.arrays, name);
            if a < 0 {
                Err((not_array_msg(name), line))
            } else {
                match s_expr(tb, st, *index) {
                    Err(e) => Err(e),
                    Ok(st1) => s_emit(st1, Op::GetElem(a as u16)),
                }
            }
        },
        ExprV::Unary { op, expr, .. } => match s_expr(tb, st, *expr) {
            Err(e) => Err(e),
            Ok(st1) => s_emit(st1, un_code(op)),
        },
        ExprV::Binary { op, lhs, rhs, .. } => match s_expr(tb, st, *lhs) {
            Err(e) => Err(e),
            Ok(st1) => match s_expr(tb, st1, *rhs) {
                Err(e) => Err(e),
                Ok(st2) => s_emit(st2, bin_code(op)),
            },
        },
        ExprV::Logical { op, lhs, rhs } => match s_expr(tb, st, *lhs) {
            Err(e) => Err(e),
            Ok(st1) => {
                let jf = st1.code.len() as int;
                let skip = if op == LogOp::And { Op::JumpIfFalse(0) } else { Op::JumpIfTrue(0) };
                match s_emit(st1, skip) {
                    Err(e) => Err(e),
                    Ok(st2) => match s_expr(tb, st2, *rhs) {
                        Err(e) => Err(e),
                        Ok(st3) => {
                            let jend = st3.code.len() as int;
                            match s_emit(st3, Op::Jump(0)) {
                                Err(e) => Err(e),
                                Ok(st4) => {
                                    let st5 = s_patch(st4, jf, st4.code.len() as int);
                                    match s_push_const(st5, ConstV::Bool(op == LogOp::Or)) {
                                        Err(e) => Err(e),
                                        Ok(st6) => Ok(s_patch(st6, jend, st6.code.len() as int)),
                                    }
                                },
                            }
                        },
                    },
                }
            },
        },
        ExprV::Call { name, args, line } => {
            let f = last_pos(tb.funcs, name);
            if f >= 0 {
                let np = tb.params[f];
                if args.len() != np {
                    Err((func_arity_msg(name, np, args.len()), line))
                } else {
                    match s_args(tb, st, args) {
                        Err(e) => Err(e),
                        Ok(st1) => s_emit(st1, Op::Call(f as u16, np as u8)),
                    }
                }
            } else if name == "len"@ {
                s_len_call(tb, st, args, line)
            } else {
                match host_by_name(name) {
                    None => Err((unknown_fn_msg(name), line)),
                    Some(hf) => if args.len() != host_arity(hf) {
                        Err((host_arity_msg(name, host_arity(hf) as nat, args.len()), line))
                    } else {
                        match s_args(tb, st, args) {
                            Err(e) => Err(e),
                            Ok(st1) => s_emit(st1, Op::HostCall(host_index(hf) as u16, host_arity(hf))),
                        }
                    },
                }
            }
        },
    }
}

/// The arguments, left to right.
pub open spec fn s_args(tb: TabV, st: CSt, args: Seq<ExprV>) -> Result<CSt, CErr>
    decreases args,
{
    if args.len() == 0 {
        Ok(st)
    } else {
        proof {
            assert(decreases_to!(args => args[args.len() - 1]));
            assert(decreases_to!(args => args.subrange(0, args.len() - 1)));
        }
        match s_args(tb, st, args.subrange(0, args.len() - 1)) {
            Err(e) => Err(e),
            Ok(st1) => s_expr(tb, st1, args[args.len() - 1]),
        }
    }
}

} // verus!

verus! {

pub open spec fn too_many_locals_msg() -> Seq<char> {
    "too many local variables (max 256)"@
}

pub open spec fn array_place_msg() -> Seq<char> {
    "arrays are declared at the top level of 'main'"@
}

/// A new local `name` in the innermost scope, and its slot.
pub open spec fn s_declare(st: CSt, name: Seq<char>, line: int) -> Result<(CSt, u16), CErr> {
    if st.nlocals >= MAX_LOCALS {
        Err((too_many_locals_msg(), line))
    } else {
        Ok((
            CSt { nlocals: st.nlocals + 1, locals: st.locals.push((name, st.nlocals as u16)), ..st },
            st.nlocals as u16,
        ))
    }
}

/// A `var` initializer, or null.
pub open spec fn s_var_init(tb: TabV, st: CSt, init: Option<ExprV>) -> Result<CSt, CErr> {
    match init {
        Some(e) => s_expr(tb, st, e),
        None => s_push_const(st, ConstV::Null),
    }
}

pub open spec fn s_open(st: CSt) -> CSt {
    CSt { marks: st.marks.push(st.locals.len()), ..st }
}

pub open spec fn s_close(st: CSt) -> CSt {
    CSt { locals: st.locals.subrange(0, st.marks.last() as int), marks: st.marks.drop_last(), ..st }
}

pub open spec fn s_enter_loop(st: CSt) -> CSt {
    CSt { loops: st.loops.push((Seq::empty(), Seq::empty())), ..st }
}

pub open spec fn s_leave_loop(st: CSt) -> CSt {
    CSt { loops: st.loops.drop_last(), ..st }
}

/// Record a pending `break` (`brk`) or `continue` jump at `j`.
pub open spec fn s_add_jump(st: CSt, j: int, brk: bool) -> CSt {
    let ctx = st.loops.last();
    let ctx2 = if brk { (ctx.0.push(j as u16), ctx.1) } else { (ctx.0, ctx.1.push(j as u16)) };
    CSt { loops: st.loops.update(st.loops.len() - 1, ctx2), ..st }
}

/// `main`'s `var`s are globals; in other functions they are new locals,
/// declared after their initializer is compiled.
pub open spec fn s_var(tb: TabV, m: bool, st: CSt, name: Seq<char>, init: Option<ExprV>, line: int) -> Result<CSt, CErr> {
    if m {
        let g = last_pos(tb.globals, name);
        if g < 0 {
            Err((not_hoisted_msg(name), line))
        } else {
            match s_var_init(tb, st, init) {
                Err(e) => Err(e),
                Ok(st1) => s_emit(st1, Op::SetGlobal(g as u16)),
            }
        }
    } else {
        match s_var_init(tb, st, init) {
            Err(e) => Err(e),
            Ok(st1) => match s_declare(st1, name, line) {
                Err(e) => Err(e),
                Ok((st2, slot)) => s_emit(st2, Op::SetLocal(slot)),
            },
        }
    }
}

pub open spec fn s_assign(tb: TabV, st: CSt, name: Seq<char>, op: AssignOp, value: ExprV, line: int) -> Result<CSt, CErr> {
    match s_resolve(tb, st, name) {
        None => Err(unresolved(tb, name, line)),
        Some(r) => {
            let load = if op == AssignOp::Plain { None } else { Some(get_op(r)) };
            match s_emit_opt(st, load) {
                Err(e) => Err(e),
                Ok(st1) => match s_expr(tb, st1, value) {
                    Err(e) => Err(e),
                    Ok(st2) => match s_emit_opt(st2, assign_code(op)) {
                        Err(e) => Err(e),
                        Ok(st3) => s_emit(st3, set_op(r)),
                    },
                },
            }
        },
    }
}

/// `name[index] op= value`: the index is evaluated once; a compound
/// assignment keeps a copy of it to read the element.
pub open spec fn s_elem_assign(tb: TabV, st: CSt, name: Seq<char>, index: ExprV, op: AssignOp, value: ExprV, line: int) -> Result<CSt, CErr> {
    let a = key_pos(tb.arrays, name);
    if a < 0 {
        Err((not_array_msg(name), line))
    } else {
        match s_expr(tb, st, index) {
            Err(e) => Err(e),
            Ok(st1) => match (if op == AssignOp::Plain {
                Ok(st1)
            } else {
                match s_emit(st1, Op::Dup) {
                    Err(e) => Err(e),
                    Ok(x) => s_emit(x, Op::GetElem(a as u16)),
                }
            }) {
                Err(e) => Err(e),
                Ok(st2) => match s_expr(tb, st2, value) {
                    Err(e) => Err(e),
                    Ok(st3) => match s_emit_opt(st3, assign_code(op)) {
                        Err(e) => Err(e),
                        Ok(st4) => s_emit(st4, Op::SetElem(a as u16)),
                    },
                },
            },
        }
    }
}

/// A `return` value, or null.
pub open spec fn s_return(tb: TabV, st: CSt, value: Option<ExprV>) -> Result<CSt, CErr> {
    match s_var_init(tb, st, value) {
        Err(e) => Err(e),
        Ok(st1) => s_emit(st1, Op::Return),
    }
}

pub open spec fn s_jump_out(st: CSt, brk: bool, line: int) -> Result<CSt, CErr> {
    if st.loops.len() == 0 {
        Err((if brk { "'break' outside of a loop"@ } else { "'continue' outside of a loop"@ }, line))
    } else {
        match s_emit(st, Op::Jump(0)) {
            Err(e) => Err(e),
            Ok(st1) => Ok(s_add_jump(st1, st.code.len() as int, brk)),
        }
    }
}

/// The loop epilogue of `while`: continues go back to `start`, the loop
/// jumps back to `start`, and the exit jump at `jend` and the breaks land
/// after it.
pub open spec fn s_while_end(st3: CSt, start: int, jend: int) -> Result<CSt, CErr> {
    let ctx = st3.loops.last();
    let st5 = s_patch_all(s_leave_loop(st3), ctx.1, start);
    match s_emit(st5, Op::Jump(start as u16)) {
        Err(e) => Err(e),
        Ok(st6) => {
            let st7 = s_patch(st6, jend, st6.code.len() as int);
            Ok(s_patch_all(st7, ctx.0, st7.code.len() as int))
        },
    }
}

pub open spec fn s_stmt(tb: TabV, m: bool, st: CSt, s: StmtV) -> Result<CSt, CErr>
    decreases s, 0int,
{
    match s {
        StmtV::Var { name, init, line } => s_var(tb, m, st, name, init, line),
        StmtV::ArrayDecl { line, .. } => if m && st.marks.len() == 2 {
            Ok(st)
        } else {
            Err((array_place_msg(), line))
        },
        StmtV::Assign { name, op, value, line } => s_assign(tb, st, name, op, value, line),
        StmtV::ElemAssign { name, index, op, value, line } => s_elem_assign(tb, st, name, index, op, value, line),
        StmtV::Expr { expr, .. } => match s_expr(tb, st, expr) {
            Err(e) => Err(e),
            Ok(st1) => s_emit(st1, Op::Pop),
        },
        StmtV::If { cond, then, els, .. } => match s_expr(tb, st, cond) {
            Err(e) => Err(e),
            Ok(st1) => {
                let jf = st1.code.len() as int;
                match s_emit(st1, Op::JumpIfFalse(0)) {
                    Err(e) => Err(e),
                    Ok(st2) => match s_block(tb, m, st2, then) {
                        Err(e) => Err(e),
                        Ok(st3) => match els {
                            None => Ok(s_patch(st3, jf, st3.code.len() as int)),
                            Some(b) => {
                                let jend = st3.code.len() as int;
                                match s_emit(st3, Op::Jump(0)) {
                                    Err(e) => Err(e),
                                    Ok(st4) => match s_block(tb, m, s_patch(st4, jf, st4.code.len() as int), b) {
                                        Err(e) => Err(e),
                                        Ok(st6) => Ok(s_patch(st6, jend, st6.code.len() as int)),
                                    },
                                }
                            },
                        },
                    },
                }
            },
        },
        StmtV::While { cond, body, .. } => {
            let start = st.code.len() as int;
            match s_expr(tb, st, cond) {
                Err(e) => Err(e),
                Ok(st1) => {
                    let jend = st1.code.len() as int;
                    match s_emit(st1, Op::JumpIfFalse(0)) {
                        Err(e) => Err(e),
                        Ok(st2) => match s_block(tb, m, s_enter_loop(st2), body) {
                            Err(e) => Err(e),
                            Ok(st3) => s_while_end(st3, start, jend),
                        },
                    }
                },
            }
        },
        StmtV::For { init, cond, step, body, .. } => {
            let st0 = s_open(st);
            match (match init {
                None => Ok(st0),
                Some(b) => s_stmt(tb, m, st0, *b),
            }) {
                Err(e) => Err(e),
                Ok(st1) => {
                    let start = st1.code.len() as int;
                    match (match cond {
                        None => Ok(st1),
                        Some(c) => match s_expr(tb, st1, c) {
                            Err(e) => Err(e),
                            Ok(x) => s_emit(x, Op::JumpIfFalse(0)),
                        },
                    }) {
                        Err(e) => Err(e),
                        Ok(st2) => match s_block(tb, m, s_enter_loop(st2), body) {
                            Err(e) => Err(e),
                            Ok(st3) => {
                                let ctx = st3.loops.last();
                                let st4 = s_leave_loop(st3);
                                let step_target = st4.code.len() as int;
                                match s_stmts(tb, m, st4, step) {
                                    Err(e) => Err(e),
                                    Ok(st5) => match s_emit(st5, Op::Jump(start as u16)) {
                                        Err(e) => Err(e),
                                        Ok(st6) => {
                                            let st7 = if cond is Some {
                                                s_patch(st6, st2.code.len() - 1, st6.code.len() as int)
                                            } else {
                                                st6
                                            };
                                            let st8 = s_patch_all(st7, ctx.0, st7.code.len() as int);
                                            Ok(s_close(s_patch_all(st8, ctx.1, step_target)))
                                        },
                                    },
                                }
                            },
                        },
                    }
                },
            }
        },
        StmtV::Return { value, .. } => s_return(tb, st, value),
        StmtV::Break { line } => s_jump_out(st, true, line),
        StmtV::Continue { line } => s_jump_out(st, false, line),
    }
}

/// Statements in order.
pub open spec fn s_stmts(tb: TabV, m: bool, st: CSt, ss: Seq<StmtV>) -> Result<CSt, CErr>
    decreases ss, 0int,
{
    if ss.len() == 0 {
        Ok(st)
    } else {
        proof {
            assert(decreases_to!(ss => ss[ss.len() - 1]));
            assert(decreases_to!(ss => ss.subrange(0, ss.len() - 1)));
        }
        match s_stmts(tb, m, st, ss.subrange(0, ss.len() - 1)) {
            Err(e) => Err(e),
            Ok(st1) => s_stmt(tb, m, st1, ss[ss.len() - 1]),
        }
    }
}

/// Statements in a scope of their own.
pub open spec fn s_block(tb: TabV, m: bool, st: CSt, ss: Seq<StmtV>) -> Result<CSt, CErr>
    decreases ss, 1int,
{
    match s_stmts(tb, m, s_open(st), ss) {
        Err(e) => Err(e),
        Ok(st1) => Ok(s_close(st1)),
    }
}

} // verus!

verus! {

/// A compiled function, as values.
pub struct FuncCodeV {
    pub name: Seq<char>,
    pub nparams: nat,
    pub nlocals: nat,
    pub code: Seq<Op>,
}

/// A compiled program, as values.
pub struct ProgV {
    pub funcs: Seq<FuncCodeV>,
    pub consts: Seq<ConstV>,
    pub n_globals: nat,
    pub arrays: Seq<(Seq<char>, nat)>,
}

pub open spec fn func_code_view(f: FuncCode) -> FuncCodeV {
    FuncCodeV { name: f.name@, nparams: f.nparams as nat, nlocals: f.nlocals as nat, code: f.code@ }
}

pub open spec fn prog_view(p: Program) -> ProgV {
    ProgV {
        funcs: Seq::new(p.funcs.len() as nat, |i: int| func_code_view(p.funcs@[i])),
        consts: consts_view(p.consts@),
        n_globals: p.n_globals as nat,
        arrays: arrays_view(p.arrays@),
    }
}

pub open spec fn err_view(e: CompileError) -> CErr {
    (e.msg@, e.line as int)
}

/// The parameters, declared as the first locals.
pub open spec fn s_params(st: CSt, ps: Seq<Seq<char>>, line: int) -> Result<CSt, CErr>
    decreases ps.len(),
{
    if ps.len() == 0 {
        Ok(st)
    } else {
        match s_params(st, ps.drop_last(), line) {
            Err(e) => Err(e),
            Ok(st1) => match s_declare(st1, ps.last(), line) {
                Err(e) => Err(e),
                Ok((st2, _)) => Ok(st2),
            },
        }
    }
}

/// State at the start of a function: one scope (for the parameters).
pub open spec fn s_start(consts: Seq<ConstV>) -> CSt {
    CSt {
        consts,
        code: Seq::empty(),
        nlocals: 0,
        locals: Seq::empty(),
        marks: seq![0nat],
        loops: Seq::empty(),
    }
}

/// One function; every function ends with an implicit `return null;`.
#[verifier::opaque]
pub open spec fn s_func(tb: TabV, consts: Seq<ConstV>, f: FuncV) -> Result<(FuncCodeV, Seq<ConstV>), CErr> {
    let m = f.name == "main"@;
    if m && f.params.len() > 0 {
        Err(("'main' must not take parameters"@, f.line))
    } else {
        match s_params(s_start(consts), f.params, f.line) {
            Err(e) => Err(e),
            Ok(st1) => match s_block(tb, m, st1, f.body) {
                Err(e) => Err(e),
                Ok(st2) => match s_push_const(st2, ConstV::Null) {
                    Err(e) => Err(e),
                    Ok(st3) => match s_emit(st3, Op::Return) {
                        Err(e) => Err(e),
                        Ok(st4) => Ok((
                            FuncCodeV { name: f.name, nparams: f.params.len(), nlocals: st4.nlocals, code: st4.code },
                            st4.consts,
                        )),
                    },
                },
            },
        }
    }
}

/// The functions in order, sharing one constant table.
pub open spec fn s_funcs(tb: TabV, fs: Seq<FuncV>) -> Result<(Seq<FuncCodeV>, Seq<ConstV>), CErr>
    decreases fs.len(),
{
    if fs.len() == 0 {
        Ok((Seq::empty(), Seq::empty()))
    } else {
        match s_funcs(tb, fs.drop_last()) {
            Err(e) => Err(e),
            Ok((cs, consts)) => match s_func(tb, consts, fs.last()) {
                Err(e) => Err(e),
                Ok((fc, consts2)) => Ok((cs.push(fc), consts2)),
            },
        }
    }
}

/// Index of the first function named `main`, or -1.
pub open spec fn main_pos(fs: Seq<FuncV>) -> int
    decreases fs.len(),
{
    if fs.len() == 0 {
        -1
    } else {
        let k = main_pos(fs.drop_last());
        if k >= 0 {
            k
        } else if fs.last().name == "main"@ {
            fs.len() - 1
        } else {
            -1
        }
    }
}

/// The functions not named `main`, in source order.
pub open spec fn others(fs: Seq<FuncV>) -> Seq<FuncV>
    decreases fs.len(),
{
    if fs.len() == 0 {
        Seq::empty()
    } else if fs.last().name == "main"@ {
        others(fs.drop_last())
    } else {
        others(fs.drop_last()).push(fs.last())
    }
}

/// Compile order: `main` first, then the others in source order.
pub open spec fn ordered(fs: Seq<FuncV>) -> Seq<FuncV> {
    seq![fs[main_pos(fs)]] + others(fs)
}

pub open spec fn func_names(fs: Seq<FuncV>) -> Seq<Seq<char>> {
    Seq::new(fs.len(), |i: int| fs[i].name)
}

pub open spec fn func_params(fs: Seq<FuncV>) -> Seq<nat> {
    Seq::new(fs.len(), |i: int| fs[i].params.len())
}

/// Index of the first name that repeats an earlier one, or -1.
pub open spec fn dup_pos(names: Seq<Seq<char>>) -> int
    decreases names.len(),
{
    if names.len() == 0 {
        -1
    } else {
        let k = dup_pos(names.drop_last());
        if k >= 0 {
            k
        } else if last_pos(names.drop_last(), names.last()) >= 0 {
            names.len() - 1
        } else {
            -1
        }
    }
}

/// Hoisting: the `var` names of `main`, in order of first declaration,
/// nested blocks and `for` headers included.
pub open spec fn s_hoist_stmt(s: StmtV, gs: Seq<Seq<char>>) -> Result<Seq<Seq<char>>, CErr>
    decreases s, 0int,
{
    match s {
        StmtV::Var { name, line, .. } => if last_pos(gs, name) >= 0 {
            Ok(gs)
        } else if gs.len() >= MAX_GLOBALS {
            Err(("too many global variables (max 256)"@, line))
        } else {
            Ok(gs.push(name))
        },
        StmtV::If { then, els, .. } => match s_hoist(then, gs) {
            Err(e) => Err(e),
            Ok(g1) => match els {
                None => Ok(g1),
                Some(b) => s_hoist(b, g1),
            },
        },
        StmtV::While { body, .. } => s_hoist(body, gs),
        StmtV::For { init, step, body, .. } => match (match init {
            None => Ok(gs),
            Some(b) => s_hoist_stmt(*b, gs),
        }) {
            Err(e) => Err(e),
            Ok(g1) => match s_hoist(step, g1) {
                Err(e) => Err(e),
                Ok(g2) => s_hoist(body, g2),
            },
        },
        _ => Ok(gs),
    }
}

pub open spec fn s_hoist(ss: Seq<StmtV>, gs: Seq<Seq<char>>) -> Result<Seq<Seq<char>>, CErr>
    decreases ss, 0int,
{
    if ss.len() == 0 {
        Ok(gs)
    } else {
        proof {
            assert(decreases_to!(ss => ss[ss.len() - 1]));
            assert(decreases_to!(ss => ss.subrange(0, ss.len() - 1)));
        }
        match s_hoist(ss.subrange(0, ss.len() - 1), gs) {
            Err(e) => Err(e),
            Ok(g1) => s_hoist_stmt(ss[ss.len() - 1], g1),
        }
    }
}

/// A valid array size: whole, from 1 to the element cap.
pub open spec fn array_size(s: Seq<char>) -> Option<nat> {
    if s.len() > 0 && (forall|i: int| 0 <= i < s.len() ==> is_digit(#[trigger] s[i]))
        && 1 <= digits_value(s) <= MAX_ARRAY_ELEMS {
        Some(digits_value(s))
    } else {
        None
    }
}

pub open spec fn elems(a: Seq<(Seq<char>, nat)>) -> nat
    decreases a.len(),
{
    if a.len() == 0 {
        0
    } else {
        elems(a.drop_last()) + a.last().1
    }
}

pub open spec fn bad_size_msg() -> Seq<char> {
    "array size must be a whole number from 1 to 16384"@
}

pub open spec fn dup_array_msg(name: Seq<char>) -> Seq<char> {
    "duplicate array '"@ + name + "'"@
}

pub open spec fn array_clash_msg(name: Seq<char>) -> Seq<char> {
    "'"@ + name + "' is both a variable and an array"@
}

pub open spec fn too_many_elems_msg() -> Seq<char> {
    "arrays too large (max 16384 elements in all)"@
}

pub open spec fn s_array(gs: Seq<Seq<char>>, arrs: Seq<(Seq<char>, nat)>, name: Seq<char>, size: Seq<char>, line: int) -> Result<Seq<(Seq<char>, nat)>, CErr> {
    match array_size(size) {
        None => Err((bad_size_msg(), line)),
        Some(n) => if key_pos(arrs, name) >= 0 {
            Err((dup_array_msg(name), line))
        } else if last_pos(gs, name) >= 0 {
            Err((array_clash_msg(name), line))
        } else if elems(arrs) + n > MAX_ARRAY_ELEMS {
            Err((too_many_elems_msg(), line))
        } else {
            Ok(arrs.push((name, n)))
        },
    }
}

/// The arrays declared at the top level of `main`, in order.
pub open spec fn s_arrays(ss: Seq<StmtV>, gs: Seq<Seq<char>>) -> Result<Seq<(Seq<char>, nat)>, CErr>
    decreases ss.len(),
{
    if ss.len() == 0 {
        Ok(Seq::empty())
    } else {
        match s_arrays(ss.drop_last(), gs) {
            Err(e) => Err(e),
            Ok(a1) => match ss.last() {
                StmtV::ArrayDecl { name, size, line } => s_array(gs, a1, name, size, line),
                _ => Ok(a1),
            },
        }
    }
}

pub open spec fn dup_fn_msg(name: Seq<char>) -> Seq<char> {
    "duplicate function '"@ + name + "'"@
}

/// The whole compiler: checks on the function list, hoisting of globals
/// and arrays, then each function in compile order.
pub open spec fn s_compile(fs: Seq<FuncV>) -> Result<ProgV, CErr> {
    if fs.len() > MAX_FUNCS {
        Err(("too many functions (max 64)"@, 0))
    } else if main_pos(fs) < 0 {
        Err(("program must define 'func main()'"@, 0))
    } else {
        let ord = ordered(fs);
        let d = dup_pos(func_names(ord));
        if d >= 0 {
            Err((dup_fn_msg(ord[d].name), ord[d].line))
        } else {
            let body = fs[main_pos(fs)].body;
            match s_hoist(body, Seq::empty()) {
                Err(e) => Err(e),
                Ok(gs) => match s_arrays(body, gs) {
                    Err(e) => Err(e),
                    Ok(arrs) => {
                        let tb = TabV { funcs: func_names(ord), params: func_params(ord), globals: gs, arrays: arrs };
                        match s_funcs(tb, ord) {
                            Err(e) => Err(e),
                            Ok((cs, consts)) => Ok(ProgV { funcs: cs, consts, n_globals: gs.len(), arrays: arrs }),
                        }
                    },
                }
            }
        }
    }
}

} // verus!

verus! {

// ---------------------------------------------------------------------------
// Lemmas on lookups

pub proof fn lemma_last_pos<T>(s: Seq<T>, x: T)
    ensures
        -1 <= last_pos(s, x) < s.len(),
        last_pos(s, x) >= 0 ==> s[last_pos(s, x)] == x,
        last_pos(s, x) < 0 ==> forall|i: int| 0 <= i < s.len() ==> s[i] != x,
    decreases s.len(),
{
    if s.len() > 0 {
        lemma_last_pos(s.drop_last(), x);
        if s.last() != x {
            assert forall|i: int| 0 <= i < s.len() && last_pos(s, x) < 0 implies s[i] != x by {
                if i < s.len() - 1 {
                    assert(s.drop_last()[i] == s[i]);
                }
            }
        }
    }
}

pub proof fn lemma_key_pos<V>(s: Seq<(Seq<char>, V)>, name: Seq<char>)
    ensures
        -1 <= key_pos(s, name) < s.len(),
        key_pos(s, name) >= 0 ==> s[key_pos(s, name)].0 == name,
    decreases s.len(),
{
    if s.len() > 0 {
        lemma_key_pos(s.drop_last(), name);
    }
}

/// Searching backwards: past a suffix without `x`, the answer is the
/// prefix's.
pub proof fn lemma_last_pos_step<T>(s: Seq<T>, x: T, i: int)
    requires
        0 < i <= s.len(),
    ensures
        s[i - 1] == x ==> last_pos(s.take(i), x) == i - 1,
        s[i - 1] != x ==> last_pos(s.take(i), x) == last_pos(s.take(i - 1), x),
{
    assert(s.take(i).drop_last() =~= s.take(i - 1));
}

pub proof fn lemma_key_pos_step<V>(s: Seq<(Seq<char>, V)>, name: Seq<char>, i: int)
    requires
        0 < i <= s.len(),
    ensures
        s[i - 1].0 == name ==> key_pos(s.take(i), name) == i - 1,
        s[i - 1].0 != name ==> key_pos(s.take(i), name) == key_pos(s.take(i - 1), name),
{
    assert(s.take(i).drop_last() =~= s.take(i - 1));
}

/// Host names are distinct, so the named host function is the one found.
pub proof fn lemma_host_by_name(f: HostFn)
    ensures
        host_by_name(host_name(f)) == Some(f),
{
    let g = choose|g: HostFn| host_name(g) == host_name(f);
    if g != f {
        crate::host::lemma_names_distinct(f, g);
    }
}

} // verus!

verus! {

/// Program-wide tables, fixed while the functions are compiled.
struct Tables {
    func_names: Vec<String>,
    func_params: Vec<usize>,
    globals: Vec<String>,
    arrays: Vec<ArrayInfo>,
}

struct LoopCtx {
    breaks: Vec<u16>,
    continues: Vec<u16>,
}

struct FuncCompiler {
    t: Tables,
    consts: Vec<Const>,
    is_main: bool,
    /// Visible locals, innermost last.
    locals: Vec<(String, u16)>,
    /// Where each open scope starts in `locals`.
    marks: Vec<usize>,
    nlocals: usize,
    code: Vec<Op>,
    loops: Vec<LoopCtx>,
}

pub open spec fn params_view(ps: Seq<usize>) -> Seq<nat> {
    Seq::new(ps.len(), |i: int| ps[i] as nat)
}

pub open spec fn locals_view(ls: Seq<(String, u16)>) -> Seq<(Seq<char>, u16)> {
    Seq::new(ls.len(), |i: int| (ls[i].0@, ls[i].1))
}

spec fn marks_view(ms: Seq<usize>) -> Seq<nat> {
    Seq::new(ms.len(), |i: int| ms[i] as nat)
}

spec fn loops_view(ls: Seq<LoopCtx>) -> Seq<(Seq<u16>, Seq<u16>)> {
    Seq::new(ls.len(), |i: int| (ls[i].breaks@, ls[i].continues@))
}

/// The outcome of a compile step, against its specification.
pub open spec fn res_ok(r: Result<(), CompileError>, st: CSt, s: Result<CSt, CErr>) -> bool {
    match s {
        Ok(st2) => r is Ok && st == st2,
        Err(e) => r matches Err(x) && err_view(x) == e,
    }
}

impl Tables {
    spec fn tv(&self) -> TabV {
        TabV {
            funcs: names_view(self.func_names@),
            params: params_view(self.func_params@),
            globals: names_view(self.globals@),
            arrays: arrays_view(self.arrays@),
        }
    }

    spec fn wf(&self) -> bool {
        &&& self.func_names.len() == self.func_params.len()
        &&& self.func_names.len() <= MAX_FUNCS
        &&& self.globals.len() <= MAX_GLOBALS
        &&& self.arrays.len() <= MAX_ARRAY_ELEMS
    }
}

fn find_name(v: &Vec<String>, name: &String) -> (r: Option<usize>)
    ensures
        match r {
            Some(i) => last_pos(names_view(v@), name@) == i,
            None => last_pos(names_view(v@), name@) == -1,
        },
{
    let ghost s = names_view(v@);
    let mut i = v.len();
    assert(s.take(i as int) =~= s);
    while i > 0
        invariant
            i <= v.len(),
            s == names_view(v@),
            last_pos(s, name@) == last_pos(s.take(i as int), name@),
        decreases i,
    {
        proof {
            lemma_last_pos_step(s, name@, i as int);
        }
        if v[i - 1] == *name {
            return Some(i - 1);
        }
        i = i - 1;
    }
    None
}

fn find_array(v: &Vec<ArrayInfo>, name: &String) -> (r: Option<usize>)
    ensures
        match r {
            Some(i) => key_pos(arrays_view(v@), name@) == i,
            None => key_pos(arrays_view(v@), name@) == -1,
        },
{
    let ghost s = arrays_view(v@);
    let mut i = v.len();
    assert(s.take(i as int) =~= s);
    while i > 0
        invariant
            i <= v.len(),
            s == arrays_view(v@),
            key_pos(s, name@) == key_pos(s.take(i as int), name@),
        decreases i,
    {
        proof {
            lemma_key_pos_step(s, name@, i as int);
        }
        if v[i - 1].name == *name {
            return Some(i - 1);
        }
        i = i - 1;
    }
    None
}

fn find_local(v: &Vec<(String, u16)>, name: &String) -> (r: Option<usize>)
    ensures
        match r {
            Some(i) => key_pos(locals_view(v@), name@) == i,
            None => key_pos(locals_view(v@), name@) == -1,
        },
{
    let ghost s = locals_view(v@);
    let mut i = v.len();
    assert(s.take(i as int) =~= s);
    while i > 0
        invariant
            i <= v.len(),
            s == locals_view(v@),
            key_pos(s, name@) == key_pos(s.take(i as int), name@),
        decreases i,
    {
        proof {
            lemma_key_pos_step(s, name@, i as int);
        }
        if v[i - 1].0 == *name {
            return Some(i - 1);
        }
        i = i - 1;
    }
    None
}

fn const_eq(a: &Const, b: &Const) -> (r: bool)
    ensures
        r == (const_view(*a) == const_view(*b)),
{
    match (a, b) {
        (Const::Null, Const::Null) => true,
        (Const::Num(x), Const::Num(y)) => *x == *y,
        (Const::Bool(x), Const::Bool(y)) => *x == *y,
        (Const::Str(x), Const::Str(y)) => *x == *y,
        _ => false,
    }
}

fn find_const(v: &Vec<Const>, c: &Const) -> (r: Option<usize>)
    ensures
        match r {
            Some(i) => last_pos(consts_view(v@), const_view(*c)) == i,
            None => last_pos(consts_view(v@), const_view(*c)) == -1,
        },
{
    let ghost s = consts_view(v@);
    let mut i = v.len();
    assert(s.take(i as int) =~= s);
    while i > 0
        invariant
            i <= v.len(),
            s == consts_view(v@),
            last_pos(s, const_view(*c)) == last_pos(s.take(i as int), const_view(*c)),
        decreases i,
    {
        proof {
            lemma_last_pos_step(s, const_view(*c), i as int);
        }
        if const_eq(&v[i - 1], c) {
            return Some(i - 1);
        }
        i = i - 1;
    }
    None
}

} // verus!

verus! {

impl FuncCompiler {
    spec fn st(&self) -> CSt {
        CSt {
            consts: consts_view(self.consts@),
            code: self.code@,
            nlocals: self.nlocals as nat,
            locals: locals_view(self.locals@),
            marks: marks_view(self.marks@),
            loops: loops_view(self.loops@),
        }
    }

    spec fn tv(&self) -> TabV {
        self.t.tv()
    }

    spec fn bounds(&self) -> Bounds {
        Bounds {
            nconsts: self.consts.len() as nat,
            nglobals: self.t.globals.len() as nat,
            nlocals: self.nlocals as nat,
            narrays: self.t.arrays.len() as nat,
            params: params_view(self.t.func_params@),
        }
    }

    spec fn inv(&self) -> bool {
        &&& self.t.wf()
        &&& self.code.len() <= MAX_CODE_LEN
        &&& code_wf(self.code@, self.bounds(), self.code.len() as nat)
        &&& self.consts.len() <= MAX_CONSTS
        &&& consts_view(self.consts@).no_duplicates()
        &&& self.nlocals <= MAX_LOCALS
        &&& self.marks.len() >= 1
        &&& forall|i: int| 0 <= i < self.marks.len() ==> #[trigger] self.marks@[i] <= self.locals.len()
        &&& forall|i: int, j: int|
            0 <= i <= j < self.marks.len() ==> #[trigger] self.marks@[i] <= #[trigger] self.marks@[j]
        &&& forall|i: int| 0 <= i < self.locals.len() ==> (#[trigger] self.locals@[i]).1 < self.nlocals
        &&& forall|i: int, j: int|
            0 <= i < self.loops.len() && 0 <= j < self.loops@[i].breaks.len() ==> #[trigger] self.loops@[i].breaks@[j]
                < self.code.len()
        &&& forall|i: int, j: int|
            0 <= i < self.loops.len() && 0 <= j < self.loops@[i].continues.len()
                ==> #[trigger] self.loops@[i].continues@[j] < self.code.len()
    }

    /// What every step keeps: the tables, the kind of function, the scope
    /// and loop depth, and the invariant.
    spec fn keeps(&self, old: &Self) -> bool {
        &&& self.inv()
        &&& self.t == old.t
        &&& self.is_main == old.is_main
        &&& self.marks.len() == old.marks.len()
        &&& self.loops.len() == old.loops.len()
        &&& self.code.len() >= old.code.len()
        &&& self.nlocals >= old.nlocals
        &&& self.consts.len() >= old.consts.len()
    }

    fn error(msg: &Vec<char>, line: u32) -> (e: CompileError)
        ensures
            e.msg@ == msg@,
            e.line == line,
    {
        CompileError { msg: string_from_chars(msg), line }
    }

    fn error_str(msg: &str, line: u32) -> (e: CompileError)
        ensures
            e.msg@ == msg@,
            e.line == line,
    {
        let v = chars_of(msg);
        CompileError { msg: string_from_chars(&v), line }
    }

    /// `prefix name suffix` as an error.
    fn error_name(prefix: &str, name: &String, suffix: &str, line: u32) -> (e: CompileError)
        ensures
            e.msg@ == prefix@ + name@ + suffix@,
            e.line == line,
    {
        let mut v = chars_of(prefix);
        push_str(&mut v, name.as_str());
        push_str(&mut v, suffix);
        Self::error(&v, line)
    }

    proof fn lemma_grow(code: Seq<Op>, b1: Bounds, j1: nat, b2: Bounds, j2: nat)
        requires
            code_wf(code, b1, j1),
            b1.nconsts <= b2.nconsts,
            b1.nglobals <= b2.nglobals,
            b1.nlocals <= b2.nlocals,
            b1.narrays <= b2.narrays,
            b1.params == b2.params,
            j1 <= j2,
        ensures
            code_wf(code, b2, j2),
    {
        assert forall|i: int| 0 <= i < code.len() implies #[trigger] op_wf(code[i], b2, j2) by {
            lemma_op_wf_mono(code[i], b1, b2, j1, j2);
        }
    }

    fn emit(&mut self, op: Op) -> (r: Result<(), CompileError>)
        requires
            old(self).inv(),
            op_wf(op, old(self).bounds(), (old(self).code.len() + 1) as nat),
        ensures
            res_ok(r, final(self).st(), s_emit(old(self).st(), op)),
            r is Ok ==> final(self).keeps(old(self)),
            final(self).t == old(self).t,
            final(self).consts == old(self).consts,
            final(self).nlocals == old(self).nlocals,
            final(self).locals == old(self).locals,
            final(self).marks == old(self).marks,
            final(self).loops == old(self).loops,
            final(self).is_main == old(self).is_main,
    {
        if self.code.len() >= MAX_CODE_LEN {
            return Err(Self::error_str("function body too large", 0));
        }
        proof {
            Self::lemma_grow(self.code@, self.bounds(), self.code.len() as nat, self.bounds(), (self.code.len() + 1) as nat);
        }
        let ghost old_code = self.code@;
        self.code.push(op);
        proof {
            assert forall|i: int| 0 <= i < self.code@.len() implies #[trigger] op_wf(self.code@[i], self.bounds(), self.code.len() as nat) by {
                if i < old_code.len() {
                    assert(self.code@[i] == old_code[i]);
                }
            }
        }
        Ok(())
    }

    fn here(&self) -> (h: u16)
        requires
            self.inv(),
        ensures
            h == self.code.len(),
    {
        self.code.len() as u16
    }

    /// Point the jump at `at` to `target`.
    fn retarget(&mut self, at: u16, target: u16)
        requires
            old(self).inv(),
            at < old(self).code.len(),
            target <= old(self).code.len(),
        ensures
            final(self).keeps(old(self)),
            final(self).st() == s_patch(old(self).st(), at as int, target as int),
            final(self).consts == old(self).consts,
            final(self).nlocals == old(self).nlocals,
            final(self).locals == old(self).locals,
            final(self).marks == old(self).marks,
            final(self).loops == old(self).loops,
            final(self).code.len() == old(self).code.len(),
    {
        let ghost old_code = self.code@;
        let op = self.code[at as usize];
        let new_op = match op {
            Op::Jump(_) => Op::Jump(target),
            Op::JumpIfFalse(_) => Op::JumpIfFalse(target),
            Op::JumpIfTrue(_) => Op::JumpIfTrue(target),
            other => other,
        };
        self.code.set(at as usize, new_op);
        proof {
            assert forall|i: int| 0 <= i < self.code@.len() implies #[trigger] op_wf(self.code@[i], self.bounds(), self.code.len() as nat) by {
                if i != at {
                    assert(self.code@[i] == old_code[i]);
                }
            }
            assert(self.code@ =~= old_code.update(at as int, retargeted(old_code[at as int], target)));
        }
    }

    /// Point the jump at `at` to the current end of the code.
    fn patch(&mut self, at: u16)
        requires
            old(self).inv(),
            at < old(self).code.len(),
        ensures
            final(self).keeps(old(self)),
            final(self).st() == s_patch(old(self).st(), at as int, old(self).code.len() as int),
            final(self).consts == old(self).consts,
            final(self).nlocals == old(self).nlocals,
            final(self).locals == old(self).locals,
            final(self).marks == old(self).marks,
            final(self).loops == old(self).loops,
            final(self).code.len() == old(self).code.len(),
    {
        let target = self.here();
        self.retarget(at, target);
    }

    /// Point each jump in `ats` to `target`.
    fn retarget_all(&mut self, ats: &Vec<u16>, target: u16)
        requires
            old(self).inv(),
            forall|j: int| 0 <= j < ats.len() ==> #[trigger] ats@[j] < old(self).code.len(),
            target <= old(self).code.len(),
        ensures
            final(self).keeps(old(self)),
            final(self).st() == s_patch_all(old(self).st(), ats@, target as int),
            final(self).consts == old(self).consts,
            final(self).nlocals == old(self).nlocals,
            final(self).locals == old(self).locals,
            final(self).marks == old(self).marks,
            final(self).loops == old(self).loops,
            final(self).code.len() == old(self).code.len(),
    {
        let ghost st0 = self.st();
        let mut i: usize = 0;
        while i < ats.len()
            invariant
                i <= ats.len(),
                self.keeps(old(self)),
                forall|j: int| 0 <= j < ats.len() ==> #[trigger] ats@[j] < old(self).code.len(),
                target <= old(self).code.len(),
                st0 == old(self).st(),
                self.st() == s_patch_all(st0, ats@.take(i as int), target as int),
                self.consts == old(self).consts,
                self.nlocals == old(self).nlocals,
                self.locals == old(self).locals,
                self.marks == old(self).marks,
                self.loops == old(self).loops,
                self.code.len() == old(self).code.len(),
            decreases ats.len() - i,
        {
            self.retarget(ats[i], target);
            proof {
                assert(ats@.take(i + 1).drop_last() =~= ats@.take(i as int));
            }
            i = i + 1;
        }
        proof {
            assert(ats@.take(i as int) =~= ats@);
        }
    }
}

} // verus!

verus! {

impl FuncCompiler {
    fn const_idx(&mut self, c: Const) -> (r: Result<u16, CompileError>)
        requires
            old(self).inv(),
        ensures
            match s_const(old(self).st(), const_view(c)) {
                Ok((st2, k)) => r == Ok::<u16, CompileError>(k as u16) && final(self).st() == st2 && k
                    < final(self).consts.len(),
                Err(e) => r matches Err(x) && err_view(x) == e,
            },
            r is Ok ==> final(self).keeps(old(self)),
            final(self).code == old(self).code,
            final(self).nlocals == old(self).nlocals,
            final(self).locals == old(self).locals,
            final(self).marks == old(self).marks,
            final(self).loops == old(self).loops,
            final(self).consts.len() >= old(self).consts.len(),
    {
        proof {
            lemma_last_pos(consts_view(self.consts@), const_view(c));
        }
        match find_const(&self.consts, &c) {
            Some(i) => Ok(i as u16),
            None => {
                if self.consts.len() >= MAX_CONSTS {
                    return Err(Self::error_str("too many constants", 0));
                }
                let ghost old_consts = self.consts@;
                let ghost old_self = *self;
                self.consts.push(c);
                proof {
                    assert(consts_view(self.consts@) =~= consts_view(old_consts).push(const_view(c)));
                    assert(consts_view(self.consts@).no_duplicates()) by {
                        let v = consts_view(self.consts@);
                        assert forall|i: int, j: int| 0 <= i < v.len() && 0 <= j < v.len() && i != j implies v[i] != v[j] by {
                            if i < old_consts.len() && j < old_consts.len() {
                                assert(v[i] == consts_view(old_consts)[i]);
                                assert(v[j] == consts_view(old_consts)[j]);
                            } else if i < old_consts.len() {
                                assert(v[i] == consts_view(old_consts)[i]);
                            } else {
                                assert(v[j] == consts_view(old_consts)[j]);
                            }
                        }
                    }
                    Self::lemma_grow(self.code@, old_self.bounds(), self.code.len() as nat, self.bounds(), self.code.len() as nat);
                }
                Ok((self.consts.len() - 1) as u16)
            },
        }
    }

    fn push_const(&mut self, c: Const) -> (r: Result<(), CompileError>)
        requires
            old(self).inv(),
        ensures
            res_ok(r, final(self).st(), s_push_const(old(self).st(), const_view(c))),
            r is Ok ==> final(self).keeps(old(self)),
    {
        let k = self.const_idx(c)?;
        self.emit(Op::Const(k))
    }

    /// A new local in the innermost scope (not for `main`).
    fn declare_local(&mut self, name: &String, line: u32) -> (r: Result<u16, CompileError>)
        requires
            old(self).inv(),
        ensures
            match s_declare(old(self).st(), name@, line as int) {
                Ok((st2, slot)) => r == Ok::<u16, CompileError>(slot) && final(self).st() == st2,
                Err(e) => r matches Err(x) && err_view(x) == e,
            },
            r is Ok ==> final(self).keeps(old(self)),
            r matches Ok(slot) ==> slot < final(self).nlocals,
            final(self).code == old(self).code,
            final(self).consts == old(self).consts,
    {
        if self.nlocals >= MAX_LOCALS {
            let e = Self::error_str("too many local variables (max 256)", line);
            return Err(e);
        }
        let slot = self.nlocals as u16;
        let ghost old_self = *self;
        self.nlocals = self.nlocals + 1;
        self.locals.push((name.clone(), slot));
        proof {
            assert(locals_view(self.locals@) =~= locals_view(old_self.locals@).push((name@, slot)));
            Self::lemma_grow(self.code@, old_self.bounds(), self.code.len() as nat, self.bounds(), self.code.len() as nat);
            assert forall|i: int| 0 <= i < self.marks.len() implies #[trigger] self.marks@[i] <= self.locals.len() by {
                assert(old_self.marks@[i] <= old_self.locals.len());
            }
            assert forall|i: int| 0 <= i < self.locals.len() implies (#[trigger] self.locals@[i]).1 < self.nlocals by {
                if i < old_self.locals.len() {
                    assert(self.locals@[i] == old_self.locals@[i]);
                }
            }
        }
        Ok(slot)
    }

    fn resolve(&self, name: &String) -> (r: Option<VarRef>)
        requires
            self.inv(),
        ensures
            r == s_resolve(self.tv(), self.st(), name@),
            match r {
                Some(VarRef::Local(l)) => l < self.nlocals,
                Some(VarRef::Global(g)) => g < self.t.globals.len(),
                None => true,
            },
    {
        proof {
            lemma_key_pos(locals_view(self.locals@), name@);
            lemma_last_pos(names_view(self.t.globals@), name@);
        }
        match find_local(&self.locals, name) {
            Some(i) => {
                assert(locals_view(self.locals@)[i as int].1 == self.locals@[i as int].1);
                Some(VarRef::Local(self.locals[i].1))
            },
            None => match find_name(&self.t.globals, name) {
                Some(g) => Some(VarRef::Global(g as u16)),
                None => None,
            },
        }
    }

    /// The error for a name that is neither a variable nor a function.
    fn unresolved_err(&self, name: &String, line: u32) -> (e: CompileError)
        ensures
            err_view(e) == unresolved(self.tv(), name@, line as int),
    {
        match find_array(&self.t.arrays, name) {
            Some(_) => Self::error_name("array '", name, "' can only be used through its elements", line),
            None => Self::error_name("undefined variable '", name, "'", line),
        }
    }

    fn open_scope(&mut self)
        requires
            old(self).inv(),
        ensures
            final(self).inv(),
            final(self).st() == s_open(old(self).st()),
            final(self).consts == old(self).consts,
            final(self).code == old(self).code,
            final(self).nlocals == old(self).nlocals,
            final(self).t == old(self).t,
            final(self).is_main == old(self).is_main,
            final(self).marks.len() == old(self).marks.len() + 1,
            final(self).loops.len() == old(self).loops.len(),
    {
        let ghost old_marks = self.marks@;
        let n = self.locals.len();
        self.marks.push(n);
        proof {
            assert(marks_view(self.marks@) =~= marks_view(old_marks).push(n as nat));
            assert forall|i: int| 0 <= i < self.marks.len() implies #[trigger] self.marks@[i] <= self.locals.len() by {
                if i < old_marks.len() {
                    assert(self.marks@[i] == old_marks[i]);
                }
            }
            assert forall|i: int, j: int| 0 <= i <= j < self.marks.len() implies #[trigger] self.marks@[i] <= #[trigger] self.marks@[j] by {
                if j < old_marks.len() {
                    assert(self.marks@[i] == old_marks[i]);
                    assert(self.marks@[j] == old_marks[j]);
                } else if i < old_marks.len() {
                    assert(self.marks@[i] == old_marks[i]);
                }
            }
        }
    }

    fn close_scope(&mut self)
        requires
            old(self).inv(),
            old(self).marks.len() >= 2,
        ensures
            final(self).inv(),
            final(self).st() == s_close(old(self).st()),
            final(self).consts == old(self).consts,
            final(self).code == old(self).code,
            final(self).nlocals == old(self).nlocals,
            final(self).t == old(self).t,
            final(self).is_main == old(self).is_main,
            final(self).marks.len() == old(self).marks.len() - 1,
            final(self).loops.len() == old(self).loops.len(),
    {
        let ghost old_self = *self;
        let m = self.marks.pop().unwrap();
        self.locals.truncate(m);
        proof {
            assert(self.locals@ =~= old_self.locals@.subrange(0, m as int));
            assert(locals_view(self.locals@) =~= locals_view(old_self.locals@).subrange(0, m as int));
            assert(marks_view(self.marks@) =~= marks_view(old_self.marks@).drop_last());
            assert forall|i: int| 0 <= i < self.marks.len() implies #[trigger] self.marks@[i] <= self.locals.len() by {
                assert(self.marks@[i] == old_self.marks@[i]);
                assert(old_self.marks@[i] <= old_self.marks@[old_self.marks.len() - 1]);
            }
            assert forall|i: int, j: int| 0 <= i <= j < self.marks.len() implies #[trigger] self.marks@[i] <= #[trigger] self.marks@[j] by {
                assert(self.marks@[i] == old_self.marks@[i]);
                assert(self.marks@[j] == old_self.marks@[j]);
            }
            assert forall|i: int| 0 <= i < self.locals.len() implies (#[trigger] self.locals@[i]).1 < self.nlocals by {
                assert(self.locals@[i] == old_self.locals@[i]);
            }
        }
    }
}

} // verus!

verus! {

pub proof fn lemma_exprs_view_index(v: Seq<Expr>)
    ensures
        exprs_view(v).len() == v.len(),
        forall|i: int| 0 <= i < v.len() ==> #[trigger] exprs_view(v)[i] == expr_view(v[i]),
    decreases v.len(),
{
    if v.len() > 0 {
        let w = v.subrange(0, v.len() - 1);
        lemma_exprs_view_index(w);
        assert forall|i: int| 0 <= i < v.len() implies #[trigger] exprs_view(v)[i] == expr_view(v[i]) by {
            if i < v.len() - 1 {
                assert(w[i] == v[i]);
            }
        }
    }
}

pub proof fn lemma_stmts_view_index(v: Seq<Stmt>)
    ensures
        stmts_view(v).len() == v.len(),
        forall|i: int| 0 <= i < v.len() ==> #[trigger] stmts_view(v)[i] == stmt_view(v[i]),
    decreases v.len(),
{
    if v.len() > 0 {
        let w = v.subrange(0, v.len() - 1);
        lemma_stmts_view_index(w);
        assert forall|i: int| 0 <= i < v.len() implies #[trigger] stmts_view(v)[i] == stmt_view(v[i]) by {
            if i < v.len() - 1 {
                assert(w[i] == v[i]);
            }
        }
    }
}

/// An error in the first `k` arguments is the error of all of them.
pub proof fn lemma_args_prefix_err(tb: TabV, st: CSt, a: Seq<ExprV>, k: int)
    requires
        0 <= k <= a.len(),
        s_args(tb, st, a.take(k)) is Err,
    ensures
        s_args(tb, st, a) == s_args(tb, st, a.take(k)),
    decreases a.len(),
{
    if k < a.len() {
        let b = a.subrange(0, a.len() - 1);
        assert(b.take(k) =~= a.take(k));
        lemma_args_prefix_err(tb, st, b, k);
    } else {
        assert(a.take(k) =~= a);
    }
}

/// An error in the first `k` statements is the error of all of them.
pub proof fn lemma_stmts_prefix_err(tb: TabV, m: bool, st: CSt, a: Seq<StmtV>, k: int)
    requires
        0 <= k <= a.len(),
        s_stmts(tb, m, st, a.take(k)) is Err,
    ensures
        s_stmts(tb, m, st, a) == s_stmts(tb, m, st, a.take(k)),
    decreases a.len(),
{
    if k < a.len() {
        let b = a.subrange(0, a.len() - 1);
        assert(b.take(k) =~= a.take(k));
        lemma_stmts_prefix_err(tb, m, st, b, k);
    } else {
        assert(a.take(k) =~= a);
    }
}

fn get_op_exec(r: VarRef) -> (op: Op)
    ensures
        op == get_op(r),
{
    match r {
        VarRef::Global(g) => Op::GetGlobal(g),
        VarRef::Local(l) => Op::GetLocal(l),
    }
}

fn set_op_exec(r: VarRef) -> (op: Op)
    ensures
        op == set_op(r),
{
    match r {
        VarRef::Global(g) => Op::SetGlobal(g),
        VarRef::Local(l) => Op::SetLocal(l),
    }
}

fn bin_code_exec(op: BinOp) -> (o: Op)
    ensures
        o == bin_code(op),
{
    match op {
        BinOp::Add => Op::Add,
        BinOp::Sub => Op::Sub,
        BinOp::Mul => Op::Mul,
        BinOp::Div => Op::Div,
        BinOp::Mod => Op::Mod,
        BinOp::Eq => Op::Eq,
        BinOp::Ne => Op::Ne,
        BinOp::Lt => Op::Lt,
        BinOp::Le => Op::Le,
        BinOp::Gt => Op::Gt,
        BinOp::Ge => Op::Ge,
    }
}

fn assign_code_exec(op: AssignOp) -> (o: Option<Op>)
    ensures
        o == assign_code(op),
{
    match op {
        AssignOp::Plain => None,
        AssignOp::Add => Some(Op::Add),
        AssignOp::Sub => Some(Op::Sub),
        AssignOp::Mul => Some(Op::Mul),
        AssignOp::Div => Some(Op::Div),
    }
}

impl FuncCompiler {
    /// `prefix name' expects want argument(s), got got` as an error.
    fn arity_error(prefix: &str, name: &String, want: usize, got: usize, line: u32) -> (e: CompileError)
        ensures
            e.msg@ == prefix@ + name@ + "' expects "@ + decimal(want as nat) + " argument(s), got "@ + decimal(got as nat),
            e.line == line,
    {
        let mut v = chars_of(prefix);
        push_str(&mut v, name.as_str());
        push_str(&mut v, "' expects ");
        push_decimal(&mut v, want as u64);
        push_str(&mut v, " argument(s), got ");
        push_decimal(&mut v, got as u64);
        Self::error(&v, line)
    }

    fn emit_opt(&mut self, op: Option<Op>) -> (r: Result<(), CompileError>)
        requires
            old(self).inv(),
            op matches Some(o) ==> op_wf(o, old(self).bounds(), (old(self).code.len() + 1) as nat),
        ensures
            res_ok(r, final(self).st(), s_emit_opt(old(self).st(), op)),
            r is Ok ==> final(self).keeps(old(self)),
    {
        match op {
            None => Ok(()),
            Some(o) => self.emit(o),
        }
    }

    fn len_call(&mut self, args: &Vec<Expr>, line: u32) -> (r: Result<(), CompileError>)
        requires
            old(self).inv(),
        ensures
            res_ok(r, final(self).st(), s_len_call(old(self).tv(), old(self).st(), exprs_view(args@), line as int)),
            r is Ok ==> final(self).keeps(old(self)),
    {
        proof {
            lemma_exprs_view_index(args@);
        }
        if args.len() == 1 {
            match &args[0] {
                Expr::Ident { name: an, .. } => {
                    proof {
                        lemma_key_pos(arrays_view(self.t.arrays@), an@);
                    }
                    match find_array(&self.t.arrays, an) {
                        Some(a) => {
                            let n = self.t.arrays[a].len;
                            let mut v: Vec<char> = Vec::new();
                            push_decimal(&mut v, n as u64);
                            proof {
                                assert(v@ =~= decimal(n as nat));
                            }
                            let text = string_from_chars(&v);
                            return self.push_const(Const::Num(text));
                        },
                        None => {},
                    }
                },
                _ => {},
            }
        }
        Err(Self::error_str("len() takes the name of an array", line))
    }

    fn expr(&mut self, e: &Expr) -> (r: Result<(), CompileError>)
        requires
            old(self).inv(),
        ensures
            res_ok(r, final(self).st(), s_expr(old(self).tv(), old(self).st(), expr_view(*e))),
            r is Ok ==> final(self).keeps(old(self)),
        decreases e,
    {
        match e {
            Expr::Num(n) => self.push_const(Const::Num(n.clone())),
            Expr::Bool(b) => self.push_const(Const::Bool(*b)),
            Expr::Str(s) => self.push_const(Const::Str(s.clone())),
            Expr::Ident { name, line } => match self.resolve(name) {
                Some(r) => {
                    let op = get_op_exec(r);
                    self.emit(op)
                },
                None => Err(self.unresolved_err(name, *line)),
            },
            Expr::Index { name, index, line } => {
                proof {
                    lemma_key_pos(arrays_view(self.t.arrays@), name@);
                }
                match find_array(&self.t.arrays, name) {
                    None => Err(Self::error_name("'", name, "' is not an array", *line)),
                    Some(a) => {
                        self.expr(index)?;
                        self.emit(Op::GetElem(a as u16))
                    },
                }
            },
            Expr::Unary { op, expr, .. } => {
                self.expr(expr)?;
                match op {
                    UnOp::Neg => self.emit(Op::Neg),
                    UnOp::Not => self.emit(Op::Not),
                }
            },
            Expr::Binary { op, lhs, rhs, .. } => {
                self.expr(lhs)?;
                self.expr(rhs)?;
                let o = bin_code_exec(*op);
                self.emit(o)
            },
            Expr::Logical { op, lhs, rhs } => {
                self.expr(lhs)?;
                let jf = self.here();
                let skip = if *op == LogOp::And { Op::JumpIfFalse(0) } else { Op::JumpIfTrue(0) };
                self.emit(skip)?;
                self.expr(rhs)?;
                let jend = self.here();
                self.emit(Op::Jump(0))?;
                self.patch(jf);
                self.push_const(Const::Bool(*op == LogOp::Or))?;
                self.patch(jend);
                Ok(())
            },
            Expr::Call { name, args, line } => self.call(name, args, *line),
        }
    }
}

} // verus!

verus! {

impl FuncCompiler {
    fn call(&mut self, name: &String, args: &Vec<Expr>, line: u32) -> (r: Result<(), CompileError>)
        requires
            old(self).inv(),
        ensures
            res_ok(
                r,
                final(self).st(),
                s_expr(old(self).tv(), old(self).st(), ExprV::Call { name: name@, args: exprs_view(args@), line: line as int }),
            ),
            r is Ok ==> final(self).keeps(old(self)),
        decreases args, 1int,
    {
        proof {
            lemma_exprs_view_index(args@);
            lemma_last_pos(names_view(self.t.func_names@), name@);
        }
        match find_name(&self.t.func_names, name) {
            Some(f) => {
                let np = self.t.func_params[f];
                if args.len() != np {
                    return Err(Self::arity_error("function '", name, np, args.len(), line));
                }
                self.args(args)?;
                self.emit(Op::Call(f as u16, np as u8))
            },
            None => {
                let nv = chars_of(name.as_str());
                if chars_eq_str(&nv, "len") {
                    return self.len_call(args, line);
                }
                match host_lookup(name.as_str()) {
                    None => Err(Self::error_name("unknown function '", name, "'", line)),
                    Some((hf, arity)) => {
                        proof {
                            lemma_host_by_name(hf);
                            crate::host::lemma_index_roundtrip(hf);
                        }
                        if args.len() != arity as usize {
                            return Err(Self::arity_error("'", name, arity as usize, args.len(), line));
                        }
                        self.args(args)?;
                        self.emit(Op::HostCall(hf.index(), arity))
                    },
                }
            },
        }
    }

    /// The arguments, left to right.
    fn args(&mut self, args: &Vec<Expr>) -> (r: Result<(), CompileError>)
        requires
            old(self).inv(),
        ensures
            res_ok(r, final(self).st(), s_args(old(self).tv(), old(self).st(), exprs_view(args@))),
            r is Ok ==> final(self).keeps(old(self)),
        decreases args, 0int,
    {
        let ghost a = exprs_view(args@);
        let ghost st0 = self.st();
        let ghost tb = self.tv();
        proof {
            lemma_exprs_view_index(args@);
            assert(a.take(0) =~= Seq::<ExprV>::empty());
        }
        let mut i: usize = 0;
        while i < args.len()
            invariant
                i <= args.len(),
                a == exprs_view(args@),
                a.len() == args.len(),
                forall|j: int| 0 <= j < args.len() ==> #[trigger] a[j] == expr_view(args@[j]),
                tb == old(self).tv(),
                st0 == old(self).st(),
                self.keeps(old(self)),
                s_args(tb, st0, a.take(i as int)) == Ok::<CSt, CErr>(self.st()),
            decreases args.len() - i,
        {
            proof {
                assert(a.take(i + 1).subrange(0, i as int) =~= a.take(i as int));
                assert(a.take(i + 1)[i as int] == a[i as int]);
                assert(decreases_to!(args => args@[i as int]));
            }
            let ghost before = *self;
            match self.expr(&args[i]) {
                Ok(()) => {},
                Err(x) => {
                    proof {
                        lemma_args_prefix_err(tb, st0, a, i + 1);
                    }
                    return Err(x);
                },
            }
            i = i + 1;
        }
        proof {
            assert(a.take(i as int) =~= a);
        }
        Ok(())
    }
}

} // verus!

verus! {

impl FuncCompiler {
    fn var_init(&mut self, init: &Option<Expr>) -> (r: Result<(), CompileError>)
        requires
            old(self).inv(),
        ensures
            res_ok(r, final(self).st(), s_var_init(old(self).tv(), old(self).st(), opt_expr_view(*init))),
            r is Ok ==> final(self).keeps(old(self)),
    {
        match init {
            Some(e) => self.expr(e),
            None => self.push_const(Const::Null),
        }
    }

    fn var_stmt(&mut self, name: &String, init: &Option<Expr>, line: u32) -> (r: Result<(), CompileError>)
        requires
            old(self).inv(),
        ensures
            res_ok(r, final(self).st(), s_var(old(self).tv(), old(self).is_main, old(self).st(), name@, opt_expr_view(*init), line as int)),
            r is Ok ==> final(self).keeps(old(self)),
    {
        if self.is_main {
            proof {
                lemma_last_pos(names_view(self.t.globals@), name@);
            }
            match find_name(&self.t.globals, name) {
                None => Err(Self::error_name("internal error: global '", name, "' not hoisted", line)),
                Some(g) => {
                    self.var_init(init)?;
                    self.emit(Op::SetGlobal(g as u16))
                },
            }
        } else {
            self.var_init(init)?;
            let slot = self.declare_local(name, line)?;
            self.emit(Op::SetLocal(slot))
        }
    }

    fn assign_stmt(&mut self, name: &String, op: AssignOp, value: &Expr, line: u32) -> (r: Result<(), CompileError>)
        requires
            old(self).inv(),
        ensures
            res_ok(r, final(self).st(), s_assign(old(self).tv(), old(self).st(), name@, op, expr_view(*value), line as int)),
            r is Ok ==> final(self).keeps(old(self)),
    {
        match self.resolve(name) {
            None => Err(self.unresolved_err(name, line)),
            Some(vr) => {
                let load = if op == AssignOp::Plain { None } else { Some(get_op_exec(vr)) };
                self.emit_opt(load)?;
                self.expr(value)?;
                self.emit_opt(assign_code_exec(op))?;
                self.emit(set_op_exec(vr))
            },
        }
    }

    fn elem_assign_stmt(&mut self, name: &String, index: &Expr, op: AssignOp, value: &Expr, line: u32) -> (r: Result<(), CompileError>)
        requires
            old(self).inv(),
        ensures
            res_ok(
                r,
                final(self).st(),
                s_elem_assign(old(self).tv(), old(self).st(), name@, expr_view(*index), op, expr_view(*value), line as int),
            ),
            r is Ok ==> final(self).keeps(old(self)),
    {
        proof {
            lemma_key_pos(arrays_view(self.t.arrays@), name@);
        }
        match find_array(&self.t.arrays, name) {
            None => Err(Self::error_name("'", name, "' is not an array", line)),
            Some(a) => {
                self.expr(index)?;
                if op != AssignOp::Plain {
                    self.emit(Op::Dup)?;
                    self.emit(Op::GetElem(a as u16))?;
                }
                self.expr(value)?;
                self.emit_opt(assign_code_exec(op))?;
                self.emit(Op::SetElem(a as u16))
            },
        }
    }

    fn jump_out(&mut self, brk: bool, line: u32) -> (r: Result<(), CompileError>)
        requires
            old(self).inv(),
        ensures
            res_ok(r, final(self).st(), s_jump_out(old(self).st(), brk, line as int)),
            r is Ok ==> final(self).keeps(old(self)),
    {
        if self.loops.len() == 0 {
            return Err(Self::error_str(if brk { "'break' outside of a loop" } else { "'continue' outside of a loop" }, line));
        }
        let j = self.here();
        self.emit(Op::Jump(0))?;
        let ghost mid = *self;
        let mut ctx = self.loops.pop().unwrap();
        if brk {
            ctx.breaks.push(j);
        } else {
            ctx.continues.push(j);
        }
        self.loops.push(ctx);
        proof {
            let n = mid.loops.len() - 1;
            assert(self.loops@ == mid.loops@.update(n, ctx));
            assert(loops_view(self.loops@) =~= s_add_jump(mid.st(), j as int, brk).loops);
            assert forall|i: int, k: int|
                0 <= i < self.loops.len() && 0 <= k < self.loops@[i].breaks.len() implies #[trigger] self.loops@[i].breaks@[k]
                < self.code.len() by {
                if i < n {
                    assert(self.loops@[i] == mid.loops@[i]);
                } else if k < mid.loops@[n].breaks.len() {
                    assert(self.loops@[i].breaks@[k] == mid.loops@[n].breaks@[k]);
                }
            }
            assert forall|i: int, k: int|
                0 <= i < self.loops.len() && 0 <= k < self.loops@[i].continues.len() implies #[trigger] self.loops@[i].continues@[k]
                < self.code.len() by {
                if i < n {
                    assert(self.loops@[i] == mid.loops@[i]);
                } else if k < mid.loops@[n].continues.len() {
                    assert(self.loops@[i].continues@[k] == mid.loops@[n].continues@[k]);
                }
            }
        }
        Ok(())
    }

    fn enter_loop(&mut self)
        requires
            old(self).inv(),
        ensures
            final(self).inv(),
            final(self).st() == s_enter_loop(old(self).st()),
            final(self).consts == old(self).consts,
            final(self).t == old(self).t,
            final(self).is_main == old(self).is_main,
            final(self).marks.len() == old(self).marks.len(),
            final(self).loops.len() == old(self).loops.len() + 1,
            final(self).code.len() == old(self).code.len(),
            final(self).nlocals == old(self).nlocals,
    {
        let ghost old_loops = self.loops@;
        self.loops.push(LoopCtx { breaks: Vec::new(), continues: Vec::new() });
        proof {
            assert(loops_view(self.loops@) =~= loops_view(old_loops).push((Seq::<u16>::empty(), Seq::<u16>::empty())));
            assert forall|i: int, k: int|
                0 <= i < self.loops.len() && 0 <= k < self.loops@[i].breaks.len() implies #[trigger] self.loops@[i].breaks@[k]
                < self.code.len() by {
                assert(self.loops@[i] == old_loops[i]);
            }
            assert forall|i: int, k: int|
                0 <= i < self.loops.len() && 0 <= k < self.loops@[i].continues.len() implies #[trigger] self.loops@[i].continues@[k]
                < self.code.len() by {
                assert(self.loops@[i] == old_loops[i]);
            }
        }
    }

    fn leave_loop(&mut self) -> (ctx: LoopCtx)
        requires
            old(self).inv(),
            old(self).loops.len() >= 1,
        ensures
            final(self).inv(),
            final(self).st() == s_leave_loop(old(self).st()),
            (ctx.breaks@, ctx.continues@) == old(self).st().loops.last(),
            forall|j: int| 0 <= j < ctx.breaks.len() ==> #[trigger] ctx.breaks@[j] < old(self).code.len(),
            forall|j: int| 0 <= j < ctx.continues.len() ==> #[trigger] ctx.continues@[j] < old(self).code.len(),
            final(self).consts == old(self).consts,
            final(self).t == old(self).t,
            final(self).is_main == old(self).is_main,
            final(self).marks.len() == old(self).marks.len(),
            final(self).loops.len() == old(self).loops.len() - 1,
            final(self).code.len() == old(self).code.len(),
            final(self).nlocals == old(self).nlocals,
    {
        let ghost old_loops = self.loops@;
        let ctx = self.loops.pop().unwrap();
        proof {
            assert(loops_view(self.loops@) =~= loops_view(old_loops).drop_last());
            let n = old_loops.len() - 1;
            assert(ctx == old_loops[n]);
            assert forall|j: int| 0 <= j < ctx.breaks.len() implies #[trigger] ctx.breaks@[j] < old(self).code.len() by {
                assert(old_loops[n].breaks@[j] < old(self).code.len());
            }
            assert forall|j: int| 0 <= j < ctx.continues.len() implies #[trigger] ctx.continues@[j] < old(self).code.len() by {
                assert(old_loops[n].continues@[j] < old(self).code.len());
            }
            assert forall|i: int, k: int|
                0 <= i < self.loops.len() && 0 <= k < self.loops@[i].breaks.len() implies #[trigger] self.loops@[i].breaks@[k]
                < self.code.len() by {
                assert(self.loops@[i] == old_loops[i]);
            }
            assert forall|i: int, k: int|
                0 <= i < self.loops.len() && 0 <= k < self.loops@[i].continues.len() implies #[trigger] self.loops@[i].continues@[k]
                < self.code.len() by {
                assert(self.loops@[i] == old_loops[i]);
            }
        }
        ctx
    }
}

} // verus!

verus! {

impl FuncCompiler {
    fn stmt(&mut self, s: &Stmt) -> (r: Result<(), CompileError>)
        requires
            old(self).inv(),
        ensures
            res_ok(r, final(self).st(), s_stmt(old(self).tv(), old(self).is_main, old(self).st(), stmt_view(*s))),
            r is Ok ==> final(self).keeps(old(self)),
        decreases s, 3int,
    {
        match s {
            Stmt::Var { name, init, line } => self.var_stmt(name, init, *line),
            Stmt::ArrayDecl { line, .. } => {
                if self.is_main && self.marks.len() == 2 {
                    Ok(())
                } else {
                    Err(Self::error_str("arrays are declared at the top level of 'main'", *line))
                }
            },
            Stmt::Assign { name, op, value, line } => self.assign_stmt(name, *op, value, *line),
            Stmt::ElemAssign { name, index, op, value, line } => self.elem_assign_stmt(name, index, *op, value, *line),
            Stmt::Expr { expr, .. } => {
                self.expr(expr)?;
                self.emit(Op::Pop)
            },
            Stmt::If { .. } => self.if_stmt(s),
            Stmt::While { .. } => self.while_stmt(s),
            Stmt::For { .. } => self.for_stmt(s),
            Stmt::Return { value, .. } => {
                self.var_init(value)?;
                self.emit(Op::Return)
            },
            Stmt::Break { line } => self.jump_out(true, *line),
            Stmt::Continue { line } => self.jump_out(false, *line),
        }
    }

    #[verifier::spinoff_prover]
    #[verifier::rlimit(40)]
    fn if_stmt(&mut self, s: &Stmt) -> (r: Result<(), CompileError>)
        requires
            old(self).inv(),
            s is If,
        ensures
            res_ok(r, final(self).st(), s_stmt(old(self).tv(), old(self).is_main, old(self).st(), stmt_view(*s))),
            r is Ok ==> final(self).keeps(old(self)),
        decreases s, 2int,
    {
        match s {
            Stmt::If { cond, then, els, .. } => {
                self.expr(cond)?;
                let jf = self.here();
                self.emit(Op::JumpIfFalse(0))?;
                self.block(then)?;
                match els {
                    None => {
                        self.patch(jf);
                        Ok(())
                    },
                    Some(b) => {
                        let jend = self.here();
                        self.emit(Op::Jump(0))?;
                        self.patch(jf);
                        self.block(b)?;
                        self.patch(jend);
                        Ok(())
                    },
                }
            },
            _ => Ok(()),
        }
    }

    #[verifier::spinoff_prover]
    #[verifier::rlimit(40)]
    fn while_stmt(&mut self, s: &Stmt) -> (r: Result<(), CompileError>)
        requires
            old(self).inv(),
            s is While,
        ensures
            res_ok(r, final(self).st(), s_stmt(old(self).tv(), old(self).is_main, old(self).st(), stmt_view(*s))),
            r is Ok ==> final(self).keeps(old(self)),
        decreases s, 2int,
    {
        match s {
            Stmt::While { cond, body, .. } => {
                let start = self.here();
                self.expr(cond)?;
                let jend = self.here();
                self.emit(Op::JumpIfFalse(0))?;
                self.enter_loop();
                self.block(body)?;
                let ctx = self.leave_loop();
                self.retarget_all(&ctx.continues, start);
                self.emit(Op::Jump(start))?;
                self.patch(jend);
                let end = self.here();
                self.retarget_all(&ctx.breaks, end);
                Ok(())
            },
            _ => Ok(()),
        }
    }

    #[verifier::spinoff_prover]
    #[verifier::rlimit(40)]
    fn for_stmt(&mut self, s: &Stmt) -> (r: Result<(), CompileError>)
        requires
            old(self).inv(),
            s is For,
        ensures
            res_ok(r, final(self).st(), s_stmt(old(self).tv(), old(self).is_main, old(self).st(), stmt_view(*s))),
            r is Ok ==> final(self).keeps(old(self)),
        decreases s, 2int,
    {
        match s {
            Stmt::For { init, cond, step, body, .. } => {
                self.open_scope();
                match init {
                    Some(b) => {
                        self.stmt(b)?;
                    },
                    None => {},
                }
                let start = self.here();
                let mut jend: u16 = 0;
                match cond {
                    Some(c) => {
                        self.expr(c)?;
                        jend = self.here();
                        self.emit(Op::JumpIfFalse(0))?;
                    },
                    None => {},
                }
                self.enter_loop();
                self.block(body)?;
                let ctx = self.leave_loop();
                let step_target = self.here();
                self.stmts(step)?;
                self.emit(Op::Jump(start))?;
                if cond.is_some() {
                    self.patch(jend);
                }
                let end = self.here();
                self.retarget_all(&ctx.breaks, end);
                self.retarget_all(&ctx.continues, step_target);
                self.close_scope();
                Ok(())
            },
            _ => Ok(()),
        }
    }

    /// Statements in order.
    fn stmts(&mut self, ss: &Vec<Stmt>) -> (r: Result<(), CompileError>)
        requires
            old(self).inv(),
        ensures
            res_ok(r, final(self).st(), s_stmts(old(self).tv(), old(self).is_main, old(self).st(), stmts_view(ss@))),
            r is Ok ==> final(self).keeps(old(self)),
        decreases ss, 0int,
    {
        let ghost a = stmts_view(ss@);
        let ghost st0 = self.st();
        let ghost tb = self.tv();
        let ghost m = self.is_main;
        proof {
            lemma_stmts_view_index(ss@);
            assert(a.take(0) =~= Seq::<StmtV>::empty());
        }
        let mut i: usize = 0;
        while i < ss.len()
            invariant
                i <= ss.len(),
                a == stmts_view(ss@),
                a.len() == ss.len(),
                forall|j: int| 0 <= j < ss.len() ==> #[trigger] a[j] == stmt_view(ss@[j]),
                tb == old(self).tv(),
                m == old(self).is_main,
                st0 == old(self).st(),
                self.keeps(old(self)),
                s_stmts(tb, m, st0, a.take(i as int)) == Ok::<CSt, CErr>(self.st()),
            decreases ss.len() - i,
        {
            proof {
                assert(a.take(i + 1).subrange(0, i as int) =~= a.take(i as int));
                assert(a.take(i + 1)[i as int] == a[i as int]);
                assert(decreases_to!(ss => ss@[i as int]));
            }
            match self.stmt(&ss[i]) {
                Ok(()) => {},
                Err(x) => {
                    proof {
                        lemma_stmts_prefix_err(tb, m, st0, a, i + 1);
                    }
                    return Err(x);
                },
            }
            i = i + 1;
        }
        proof {
            assert(a.take(i as int) =~= a);
        }
        Ok(())
    }

    /// Statements in a scope of their own.
    fn block(&mut self, ss: &Vec<Stmt>) -> (r: Result<(), CompileError>)
        requires
            old(self).inv(),
        ensures
            res_ok(r, final(self).st(), s_block(old(self).tv(), old(self).is_main, old(self).st(), stmts_view(ss@))),
            r is Ok ==> final(self).keeps(old(self)),
        decreases ss, 1int,
    {
        self.open_scope();
        self.stmts(ss)?;
        self.close_scope();
        Ok(())
    }
}

} // verus!

verus! {

/// An error in the first `k` parameters is the error of all of them.
pub proof fn lemma_params_prefix_err(st: CSt, ps: Seq<Seq<char>>, line: int, k: int)
    requires
        0 <= k <= ps.len(),
        s_params(st, ps.take(k), line) is Err,
    ensures
        s_params(st, ps, line) == s_params(st, ps.take(k), line),
    decreases ps.len(),
{
    if k < ps.len() {
        assert(ps.drop_last().take(k) =~= ps.take(k));
        lemma_params_prefix_err(st, ps.drop_last(), line, k);
    } else {
        assert(ps.take(k) =~= ps);
    }
}

impl FuncCompiler {
    /// The parameters, as the first locals.
    fn declare_params(&mut self, params: &Vec<String>, line: u32) -> (r: Result<(), CompileError>)
        requires
            old(self).inv(),
            old(self).nlocals == 0,
        ensures
            res_ok(r, final(self).st(), s_params(old(self).st(), names_view(params@), line as int)),
            r is Ok ==> final(self).keeps(old(self)),
            r is Ok ==> final(self).nlocals == params.len(),
            r is Ok ==> final(self).code == old(self).code,
    {
        let ghost ps = names_view(params@);
        let ghost st0 = self.st();
        proof {
            assert(ps.take(0) =~= Seq::<Seq<char>>::empty());
        }
        let mut i: usize = 0;
        while i < params.len()
            invariant
                i <= params.len(),
                ps == names_view(params@),
                st0 == old(self).st(),
                self.keeps(old(self)),
                self.nlocals == i,
                self.code == old(self).code,
                s_params(st0, ps.take(i as int), line as int) == Ok::<CSt, CErr>(self.st()),
            decreases params.len() - i,
        {
            proof {
                assert(ps.take(i + 1).drop_last() =~= ps.take(i as int));
                assert(ps.take(i + 1).last() == params@[i as int]@);
            }
            let ghost before = self.st();
            match self.declare_local(&params[i], line) {
                Ok(_) => {},
                Err(x) => {
                    proof {
                        lemma_params_step_err(st0, ps, line as int, i as int, before, err_view(x));
                    }
                    return Err(x);
                },
            }
            i = i + 1;
        }
        proof {
            assert(ps.take(i as int) =~= ps);
        }
        Ok(())
    }
}

pub proof fn lemma_params_step_err(st: CSt, ps: Seq<Seq<char>>, line: int, i: int, sti: CSt, e: CErr)
    requires
        0 <= i < ps.len(),
        s_params(st, ps.take(i), line) == Ok::<CSt, CErr>(sti),
        s_declare(sti, ps[i], line) == Err::<(CSt, u16), CErr>(e),
    ensures
        s_params(st, ps, line) == Err::<CSt, CErr>(e),
{
    assert(ps.take(i + 1).drop_last() =~= ps.take(i));
    assert(ps.take(i + 1).last() == ps[i]);
    lemma_params_prefix_err(st, ps, line, i + 1);
}

/// A compiled function is well formed against the tables and a constant
/// table of `nconsts` entries.
pub open spec fn func_fits(f: FuncCode, nconsts: nat, nglobals: nat, narrays: nat, params: Seq<nat>) -> bool {
    &&& 1 <= f.code.len() <= MAX_CODE_LEN
    &&& f.code@.last() == Op::Return
    &&& f.nparams <= f.nlocals <= MAX_LOCALS
    &&& code_wf(
        f.code@,
        Bounds { nconsts, nglobals, nlocals: f.nlocals as nat, narrays, params },
        (f.code.len() - 1) as nat,
    )
}

fn is_main_name(name: &String) -> (r: bool)
    ensures
        r == (name@ == "main"@),
{
    let v = chars_of(name.as_str());
    chars_eq_str(&v, "main")
}

/// Compile one function against the tables, extending the constant table.
#[verifier::spinoff_prover]
#[verifier::rlimit(60)]
fn compile_func(t: Tables, consts: Vec<Const>, decl: &FuncDecl) -> (r: Result<(FuncCode, Tables, Vec<Const>), CompileError>)
    requires
        t.wf(),
        consts.len() <= MAX_CONSTS,
        consts_view(consts@).no_duplicates(),
    ensures
        match s_func(t.tv(), consts_view(consts@), func_view(*decl)) {
            Ok((fcv, cs2)) => r matches Ok((fc, t2, consts2)) && func_code_view(fc) == fcv && consts_view(consts2@) == cs2
                && t2 == t && consts2.len() <= MAX_CONSTS && consts2.len() >= consts.len() && cs2.no_duplicates()
                && func_fits(fc, consts2.len() as nat, t.globals.len() as nat, t.arrays.len() as nat, params_view(t.func_params@)),
            Err(e) => r matches Err(x) && err_view(x) == e,
        },
{
    reveal(s_func);
    let is_main = is_main_name(&decl.name);
    if is_main && decl.params.len() > 0 {
        return Err(FuncCompiler::error_str("'main' must not take parameters", decl.line));
    }
    let ghost cs0 = consts_view(consts@);
    let ghost n0 = consts.len();
    let mut fc = FuncCompiler {
        t,
        consts,
        is_main,
        locals: Vec::new(),
        marks: vec![0],
        nlocals: 0,
        code: Vec::new(),
        loops: Vec::new(),
    };
    proof {
        assert(fc.st() == s_start(cs0)) by {
            assert(marks_view(fc.marks@) =~= seq![0nat]);
            assert(locals_view(fc.locals@) =~= Seq::<(Seq<char>, u16)>::empty());
            assert(loops_view(fc.loops@) =~= Seq::<(Seq<u16>, Seq<u16>)>::empty());
        }
    }
    fc.declare_params(&decl.params, decl.line)?;
    fc.block(&decl.body)?;
    fc.push_const(Const::Null)?;
    let ghost pre = fc;
    fc.emit(Op::Return)?;
    let ghost b = fc.bounds();
    proof {
        let n = fc.code.len();
        assert forall|k: int| 0 <= k < n implies #[trigger] op_wf(fc.code@[k], b, (n - 1) as nat) by {
            if k < n - 1 {
                assert(fc.code@[k] == pre.code@[k]);
                assert(op_wf(pre.code@[k], pre.bounds(), pre.code.len() as nat));
                lemma_op_wf_mono(pre.code@[k], pre.bounds(), b, pre.code.len() as nat, (n - 1) as nat);
            }
        }
    }
    let FuncCompiler { t, consts, nlocals, code, .. } = fc;
    let f = FuncCode { name: decl.name.clone(), nparams: decl.params.len(), nlocals, code };
    Ok((f, t, consts))
}

} // verus!

verus! {

// ---------------------------------------------------------------------------
// Globals and arrays

pub proof fn lemma_hoist_prefix_err(a: Seq<StmtV>, gs: Seq<Seq<char>>, k: int)
    requires
        0 <= k <= a.len(),
        s_hoist(a.take(k), gs) is Err,
    ensures
        s_hoist(a, gs) == s_hoist(a.take(k), gs),
    decreases a.len(),
{
    if k < a.len() {
        let b = a.subrange(0, a.len() - 1);
        assert(b.take(k) =~= a.take(k));
        lemma_hoist_prefix_err(b, gs, k);
    } else {
        assert(a.take(k) =~= a);
    }
}

fn hoist_stmt(s: &Stmt, gs: &mut Vec<String>) -> (r: Result<(), CompileError>)
    requires
        old(gs).len() <= MAX_GLOBALS,
    ensures
        match s_hoist_stmt(stmt_view(*s), names_view(old(gs)@)) {
            Ok(g) => r is Ok && names_view(final(gs)@) == g,
            Err(e) => r matches Err(x) && err_view(x) == e,
        },
        r is Ok ==> final(gs).len() <= MAX_GLOBALS,
    decreases s,
{
    match s {
        Stmt::Var { name, line, .. } => {
            match find_name(gs, name) {
                Some(_) => Ok(()),
                None => {
                    if gs.len() >= MAX_GLOBALS {
                        return Err(FuncCompiler::error_str("too many global variables (max 256)", *line));
                    }
                    proof {
                        crate::parser::lemma_names_view_push(gs@, *name);
                    }
                    gs.push(name.clone());
                    Ok(())
                },
            }
        },
        Stmt::If { then, els, .. } => {
            hoist_stmts(then, gs)?;
            match els {
                Some(b) => hoist_stmts(b, gs),
                None => Ok(()),
            }
        },
        Stmt::While { body, .. } => hoist_stmts(body, gs),
        Stmt::For { init, step, body, .. } => {
            match init {
                Some(b) => {
                    hoist_stmt(b, gs)?;
                },
                None => {},
            }
            hoist_stmts(step, gs)?;
            hoist_stmts(body, gs)
        },
        _ => Ok(()),
    }
}

fn hoist_stmts(ss: &Vec<Stmt>, gs: &mut Vec<String>) -> (r: Result<(), CompileError>)
    requires
        old(gs).len() <= MAX_GLOBALS,
    ensures
        match s_hoist(stmts_view(ss@), names_view(old(gs)@)) {
            Ok(g) => r is Ok && names_view(final(gs)@) == g,
            Err(e) => r matches Err(x) && err_view(x) == e,
        },
        r is Ok ==> final(gs).len() <= MAX_GLOBALS,
    decreases ss,
{
    let ghost a = stmts_view(ss@);
    let ghost g0 = names_view(gs@);
    proof {
        lemma_stmts_view_index(ss@);
        assert(a.take(0) =~= Seq::<StmtV>::empty());
    }
    let mut i: usize = 0;
    while i < ss.len()
        invariant
            i <= ss.len(),
            a == stmts_view(ss@),
            a.len() == ss.len(),
            forall|j: int| 0 <= j < ss.len() ==> #[trigger] a[j] == stmt_view(ss@[j]),
            g0 == names_view(old(gs)@),
            gs.len() <= MAX_GLOBALS,
            s_hoist(a.take(i as int), g0) == Ok::<Seq<Seq<char>>, CErr>(names_view(gs@)),
        decreases ss.len() - i,
    {
        proof {
            assert(a.take(i + 1).subrange(0, i as int) =~= a.take(i as int));
            assert(a.take(i + 1)[i as int] == a[i as int]);
            assert(decreases_to!(ss => ss@[i as int]));
        }
        match hoist_stmt(&ss[i], gs) {
            Ok(()) => {},
            Err(x) => {
                proof {
                    lemma_hoist_prefix_err(a, g0, i + 1);
                }
                return Err(x);
            },
        }
        i = i + 1;
    }
    proof {
        assert(a.take(i as int) =~= a);
    }
    Ok(())
}

pub proof fn lemma_arrays_prefix_err(a: Seq<StmtV>, gs: Seq<Seq<char>>, k: int)
    requires
        0 <= k <= a.len(),
        s_arrays(a.take(k), gs) is Err,
    ensures
        s_arrays(a, gs) == s_arrays(a.take(k), gs),
    decreases a.len(),
{
    if k < a.len() {
        assert(a.drop_last().take(k) =~= a.take(k));
        lemma_arrays_prefix_err(a.drop_last(), gs, k);
    } else {
        assert(a.take(k) =~= a);
    }
}

/// The size of `var name[size];`, when it is valid.
fn parse_size(size: &String) -> (r: Option<usize>)
    ensures
        match array_size(size@) {
            Some(n) => r == Some(n as usize),
            None => r is None,
        },
{
    let v = chars_of(size.as_str());
    if v.len() == 0 {
        return None;
    }
    let mut val: usize = 0;
    let mut i: usize = 0;
    while i < v.len()
        invariant
            i <= v.len(),
            v@ == size@,
            forall|j: int| 0 <= j < i ==> is_digit(#[trigger] v@[j]),
            val == (if digits_value(v@.take(i as int)) <= 16385 { digits_value(v@.take(i as int)) } else { 16385 }),
        decreases v.len() - i,
    {
        let c = v[i];
        if !(c >= '0' && c <= '9') {
            return None;
        }
        let d = (c as u32 - '0' as u32) as usize;
        proof {
            assert(v@.take(i + 1).drop_last() =~= v@.take(i as int));
            assert(v@.take(i + 1).last() == c);
        }
        let next = val * 10 + d;
        val = if next > 16385 { 16385 } else { next };
        i = i + 1;
    }
    proof {
        assert(v@.take(i as int) =~= v@);
    }
    if 1 <= val && val <= MAX_ARRAY_ELEMS {
        Some(val)
    } else {
        None
    }
}

pub proof fn lemma_total_elems(a: Seq<ArrayInfo>)
    ensures
        total_elems(a) == elems(arrays_view(a)),
    decreases a.len(),
{
    if a.len() > 0 {
        lemma_total_elems(a.drop_last());
        assert(arrays_view(a).drop_last() =~= arrays_view(a.drop_last()));
    }
}

/// The arrays declared at the top level of `main`.
fn hoist_arrays(body: &Vec<Stmt>, gs: &Vec<String>) -> (r: Result<Vec<ArrayInfo>, CompileError>)
    ensures
        match s_arrays(stmts_view(body@), names_view(gs@)) {
            Ok(a) => r matches Ok(v) && arrays_view(v@) == a && total_elems(v@) <= MAX_ARRAY_ELEMS
                && v.len() <= MAX_ARRAY_ELEMS && forall|i: int| 0 <= i < v.len() ==> #[trigger] v@[i].len >= 1,
            Err(e) => r matches Err(x) && err_view(x) == e,
        },
{
    let ghost a = stmts_view(body@);
    let ghost g = names_view(gs@);
    proof {
        lemma_stmts_view_index(body@);
        assert(a.take(0) =~= Seq::<StmtV>::empty());
        assert(arrays_view(Seq::<ArrayInfo>::empty()) =~= Seq::<(Seq<char>, nat)>::empty());
    }
    let mut arrs: Vec<ArrayInfo> = Vec::new();
    let mut total: usize = 0;
    let mut i: usize = 0;
    while i < body.len()
        invariant
            i <= body.len(),
            a == stmts_view(body@),
            a.len() == body.len(),
            forall|j: int| 0 <= j < body.len() ==> #[trigger] a[j] == stmt_view(body@[j]),
            g == names_view(gs@),
            s_arrays(a.take(i as int), g) == Ok::<Seq<(Seq<char>, nat)>, CErr>(arrays_view(arrs@)),
            total == total_elems(arrs@),
            total <= MAX_ARRAY_ELEMS,
            arrs.len() <= total,
            forall|j: int| 0 <= j < arrs.len() ==> #[trigger] arrs@[j].len >= 1,
        decreases body.len() - i,
    {
        proof {
            assert(a.take(i + 1).drop_last() =~= a.take(i as int));
            assert(a.take(i + 1).last() == a[i as int]);
            lemma_total_elems(arrs@);
        }
        match &body[i] {
            Stmt::ArrayDecl { name, size, line } => {
                let n = match parse_size(size) {
                    None => {
                        proof {
                            lemma_arrays_prefix_err(a, g, i + 1);
                        }
                        return Err(FuncCompiler::error_str("array size must be a whole number from 1 to 16384", *line));
                    },
                    Some(n) => n,
                };
                proof {
                    lemma_key_pos(arrays_view(arrs@), name@);
                    lemma_last_pos(g, name@);
                }
                if find_array(&arrs, name).is_some() {
                    proof {
                        lemma_arrays_prefix_err(a, g, i + 1);
                    }
                    return Err(FuncCompiler::error_name("duplicate array '", name, "'", *line));
                }
                if find_name(gs, name).is_some() {
                    proof {
                        lemma_arrays_prefix_err(a, g, i + 1);
                    }
                    return Err(FuncCompiler::error_name("'", name, "' is both a variable and an array", *line));
                }
                if total + n > MAX_ARRAY_ELEMS {
                    proof {
                        lemma_arrays_prefix_err(a, g, i + 1);
                    }
                    return Err(FuncCompiler::error_str("arrays too large (max 16384 elements in all)", *line));
                }
                let ghost old_arrs = arrs@;
                arrs.push(ArrayInfo { name: name.clone(), len: n });
                total = total + n;
                proof {
                    assert(arrays_view(arrs@) =~= arrays_view(old_arrs).push((name@, n as nat)));
                    assert(arrs@.drop_last() =~= old_arrs);
                    assert forall|j: int| 0 <= j < arrs.len() implies #[trigger] arrs@[j].len >= 1 by {
                        if j < old_arrs.len() {
                            assert(arrs@[j] == old_arrs[j]);
                        }
                    }
                }
            },
            _ => {},
        }
        i = i + 1;
    }
    proof {
        assert(a.take(i as int) =~= a);
    }
    Ok(arrs)
}

} // verus!

verus! {

// ---------------------------------------------------------------------------
// The function list

pub proof fn lemma_main_pos(s: Seq<FuncV>)
    ensures
        -1 <= main_pos(s) < s.len(),
        main_pos(s) >= 0 ==> s[main_pos(s)].name == "main"@,
    decreases s.len(),
{
    if s.len() > 0 {
        lemma_main_pos(s.drop_last());
    }
}

/// Once found in a prefix, the first `main` stays the first.
pub proof fn lemma_main_pos_prefix(s: Seq<FuncV>, k: int)
    requires
        0 <= k <= s.len(),
        main_pos(s.take(k)) >= 0,
    ensures
        main_pos(s) == main_pos(s.take(k)),
    decreases s.len(),
{
    if k < s.len() {
        assert(s.drop_last().take(k) =~= s.take(k));
        lemma_main_pos_prefix(s.drop_last(), k);
    } else {
        assert(s.take(k) =~= s);
    }
}

pub proof fn lemma_dup_pos_prefix(s: Seq<Seq<char>>, k: int)
    requires
        0 <= k <= s.len(),
        dup_pos(s.take(k)) >= 0,
    ensures
        dup_pos(s) == dup_pos(s.take(k)),
    decreases s.len(),
{
    if k < s.len() {
        assert(s.drop_last().take(k) =~= s.take(k));
        lemma_dup_pos_prefix(s.drop_last(), k);
    } else {
        assert(s.take(k) =~= s);
    }
}

pub proof fn lemma_dup_pos(s: Seq<Seq<char>>)
    ensures
        -1 <= dup_pos(s) < s.len(),
    decreases s.len(),
{
    if s.len() > 0 {
        lemma_dup_pos(s.drop_last());
    }
}

pub proof fn lemma_funcs_prefix_err(tb: TabV, a: Seq<FuncV>, k: int)
    requires
        0 <= k <= a.len(),
        s_funcs(tb, a.take(k)) is Err,
    ensures
        s_funcs(tb, a) == s_funcs(tb, a.take(k)),
    decreases a.len(),
{
    if k < a.len() {
        assert(a.drop_last().take(k) =~= a.take(k));
        lemma_funcs_prefix_err(tb, a.drop_last(), k);
    } else {
        assert(a.take(k) =~= a);
    }
}

fn find_main(funcs: &Vec<FuncDecl>) -> (r: Option<usize>)
    ensures
        match r {
            Some(i) => main_pos(program_view(crate::ast::Program { funcs: *funcs })) == i,
            None => main_pos(program_view(crate::ast::Program { funcs: *funcs })) == -1,
        },
{
    let ghost s = program_view(crate::ast::Program { funcs: *funcs });
    proof {
        assert(s.take(0) =~= Seq::<FuncV>::empty());
    }
    let mut i: usize = 0;
    while i < funcs.len()
        invariant
            i <= funcs.len(),
            s == program_view(crate::ast::Program { funcs: *funcs }),
            s.len() == funcs.len(),
            main_pos(s.take(i as int)) == -1,
        decreases funcs.len() - i,
    {
        proof {
            assert(s.take(i + 1).drop_last() =~= s.take(i as int));
            assert(s.take(i + 1).last() == s[i as int]);
            assert(s[i as int].name == funcs@[i as int].name@);
        }
        if is_main_name(&funcs[i].name) {
            proof {
                lemma_main_pos_prefix(s, i + 1);
            }
            return Some(i);
        }
        i = i + 1;
    }
    proof {
        assert(s.take(i as int) =~= s);
    }
    None
}

/// Index of the last `name` among the first `end` names, if any.
fn find_name_before(v: &Vec<String>, end: usize, name: &String) -> (r: Option<usize>)
    requires
        end <= v.len(),
    ensures
        match r {
            Some(i) => last_pos(names_view(v@).take(end as int), name@) == i,
            None => last_pos(names_view(v@).take(end as int), name@) == -1,
        },
{
    let ghost s = names_view(v@).take(end as int);
    let mut i = end;
    assert(s.take(i as int) =~= s);
    while i > 0
        invariant
            i <= end <= v.len(),
            s == names_view(v@).take(end as int),
            last_pos(s, name@) == last_pos(s.take(i as int), name@),
        decreases i,
    {
        proof {
            lemma_last_pos_step(s, name@, i as int);
        }
        if v[i - 1] == *name {
            return Some(i - 1);
        }
        i = i - 1;
    }
    None
}

/// The first function name that repeats an earlier one.
fn find_dup(names: &Vec<String>) -> (r: Option<usize>)
    ensures
        match r {
            Some(i) => dup_pos(names_view(names@)) == i,
            None => dup_pos(names_view(names@)) == -1,
        },
{
    let ghost s = names_view(names@);
    proof {
        assert(s.take(0) =~= Seq::<Seq<char>>::empty());
    }
    let mut j: usize = 0;
    while j < names.len()
        invariant
            j <= names.len(),
            s == names_view(names@),
            dup_pos(s.take(j as int)) == -1,
        decreases names.len() - j,
    {
        proof {
            assert(s.take(j + 1).drop_last() =~= s.take(j as int));
            assert(s.take(j + 1).last() == s[j as int]);
            assert(names_view(names@).take(j as int) == s.take(j as int));
        }
        if find_name_before(names, j, &names[j]).is_some() {
            proof {
                lemma_dup_pos_prefix(s, j + 1);
            }
            return Some(j);
        }
        j = j + 1;
    }
    proof {
        assert(s.take(j as int) =~= s);
    }
    None
}

} // verus!

verus! {

pub proof fn lemma_func_names_push(s: Seq<FuncV>, f: FuncV)
    ensures
        func_names(s.push(f)) == func_names(s).push(f.name),
        func_params(s.push(f)) == func_params(s).push(f.params.len()),
{
    assert(func_names(s.push(f)) =~= func_names(s).push(f.name));
    assert(func_params(s.push(f)) =~= func_params(s).push(f.params.len()));
}

/// Compile order (`main` first, then the others in source order), with
/// the names and parameter counts in that order.
fn order_funcs(funcs: &Vec<FuncDecl>, m: usize) -> (res: (Vec<usize>, Vec<String>, Vec<usize>))
    requires
        main_pos(program_view(crate::ast::Program { funcs: *funcs })) == m,
        funcs.len() <= MAX_FUNCS,
    ensures
        ({
            let fs = program_view(crate::ast::Program { funcs: *funcs });
            let ord = ordered(fs);
            &&& res.0.len() == ord.len()
            &&& res.0.len() <= funcs.len()
            &&& forall|j: int| 0 <= j < res.0.len() ==> #[trigger] res.0@[j] < funcs.len() && fs[res.0@[j] as int] == ord[j]
            &&& names_view(res.1@) == func_names(ord)
            &&& params_view(res.2@) == func_params(ord)
        }),
{
    let ghost fs = program_view(crate::ast::Program { funcs: *funcs });
    proof {
        lemma_main_pos(fs);
        assert(fs.take(0) =~= Seq::<FuncV>::empty());
    }
    let mut order: Vec<usize> = Vec::new();
    let mut names: Vec<String> = Vec::new();
    let mut params: Vec<usize> = Vec::new();
    order.push(m);
    names.push(funcs[m].name.clone());
    params.push(funcs[m].params.len());
    proof {
        assert(seq![fs[m as int]] + others(fs.take(0)) =~= seq![fs[m as int]]);
        assert(names_view(names@) =~= func_names(seq![fs[m as int]]));
        assert(params_view(params@) =~= func_params(seq![fs[m as int]]));
    }
    let mut i: usize = 0;
    while i < funcs.len()
        invariant
            i <= funcs.len(),
            funcs.len() <= MAX_FUNCS,
            fs == program_view(crate::ast::Program { funcs: *funcs }),
            fs.len() == funcs.len(),
            0 <= m < funcs.len(),
            fs[m as int].name == "main"@,
            order.len() == (seq![fs[m as int]] + others(fs.take(i as int))).len(),
            order.len() <= 1 + i - (if m < i { 1int } else { 0int }),
            forall|j: int| 0 <= j < order.len() ==> #[trigger] order@[j] < funcs.len() && fs[order@[j] as int]
                == (seq![fs[m as int]] + others(fs.take(i as int)))[j],
            names_view(names@) == func_names(seq![fs[m as int]] + others(fs.take(i as int))),
            params_view(params@) == func_params(seq![fs[m as int]] + others(fs.take(i as int))),
        decreases funcs.len() - i,
    {
        let ghost prev = seq![fs[m as int]] + others(fs.take(i as int));
        proof {
            assert(fs.take(i + 1).drop_last() =~= fs.take(i as int));
            assert(fs.take(i + 1).last() == fs[i as int]);
            assert(fs[i as int].name == funcs@[i as int].name@);
            assert(fs[i as int].params.len() == funcs@[i as int].params.len());
        }
        if !is_main_name(&funcs[i].name) {
            let ghost old_order = order@;
            order.push(i);
            names.push(funcs[i].name.clone());
            params.push(funcs[i].params.len());
            proof {
                assert(seq![fs[m as int]] + others(fs.take(i + 1)) =~= prev.push(fs[i as int]));
                lemma_func_names_push(prev, fs[i as int]);
                crate::parser::lemma_names_view_push(names@.drop_last(), funcs@[i as int].name);
                assert(names@.drop_last().push(funcs@[i as int].name) =~= names@);
                assert(params_view(params@) =~= params_view(params@.drop_last()).push(funcs@[i as int].params.len() as nat));
                assert forall|j: int| 0 <= j < order.len() implies #[trigger] order@[j] < funcs.len() && fs[order@[j] as int]
                    == prev.push(fs[i as int])[j] by {
                    if j < old_order.len() {
                        assert(order@[j] == old_order[j]);
                    }
                }
            }
        } else {
            proof {
                assert(seq![fs[m as int]] + others(fs.take(i + 1)) =~= prev);
            }
        }
        i = i + 1;
    }
    proof {
        assert(fs.take(i as int) =~= fs);
    }
    (order, names, params)
}

/// A function that fits a constant table fits a larger one.
pub proof fn lemma_fits_grow(f: FuncCode, n1: nat, n2: nat, ng: nat, na: nat, ps: Seq<nat>)
    requires
        func_fits(f, n1, ng, na, ps),
        n1 <= n2,
    ensures
        func_fits(f, n2, ng, na, ps),
{
    let b1 = Bounds { nconsts: n1, nglobals: ng, nlocals: f.nlocals as nat, narrays: na, params: ps };
    let b2 = Bounds { nconsts: n2, nglobals: ng, nlocals: f.nlocals as nat, narrays: na, params: ps };
    FuncCompiler::lemma_grow(f.code@, b1, (f.code.len() - 1) as nat, b2, (f.code.len() - 1) as nat);
}

/// The functions in compile order, sharing one constant table.
#[verifier::spinoff_prover]
#[verifier::rlimit(60)]
fn compile_funcs(t: Tables, order: &Vec<usize>, funcs: &Vec<FuncDecl>) -> (r: Result<(Vec<FuncCode>, Tables, Vec<Const>), CompileError>)
    requires
        t.wf(),
        ({
            let fs = program_view(crate::ast::Program { funcs: *funcs });
            let ord = ordered(fs);
            &&& order.len() == ord.len()
            &&& forall|j: int| 0 <= j < order.len() ==> #[trigger] order@[j] < funcs.len() && fs[order@[j] as int] == ord[j]
        }),
    ensures
        ({
            let ord = ordered(program_view(crate::ast::Program { funcs: *funcs }));
            match s_funcs(t.tv(), ord) {
                Ok((cs, consts)) => r matches Ok((fv, t2, cv)) && Seq::new(fv.len() as nat, |k: int| func_code_view(fv@[k])) == cs
                    && consts_view(cv@) == consts && t2 == t && cv.len() <= MAX_CONSTS && fv.len() == ord.len()
                    && consts.no_duplicates()
                    && forall|k: int| 0 <= k < fv.len() ==> #[trigger] func_fits(fv@[k], cv.len() as nat, t.globals.len() as nat, t.arrays.len() as nat, params_view(t.func_params@)),
                Err(e) => r matches Err(x) && err_view(x) == e,
            }
        }),
{
    let ghost fs = program_view(crate::ast::Program { funcs: *funcs });
    let ghost ord = ordered(fs);
    let ghost tb = t.tv();
    let ghost t0 = t;
    let mut tables = t;
    let mut consts: Vec<Const> = Vec::new();
    let mut out: Vec<FuncCode> = Vec::new();
    proof {
        assert(ord.take(0) =~= Seq::<FuncV>::empty());
        assert(consts_view(consts@) =~= Seq::<ConstV>::empty());
        assert(Seq::new(out.len() as nat, |k: int| func_code_view(out@[k])) =~= Seq::<FuncCodeV>::empty());
    }
    let mut j: usize = 0;
    while j < order.len()
        invariant
            j <= order.len(),
            fs == program_view(crate::ast::Program { funcs: *funcs }),
            ord == ordered(fs),
            order.len() == ord.len(),
            forall|k: int| 0 <= k < order.len() ==> #[trigger] order@[k] < funcs.len() && fs[order@[k] as int] == ord[k],
            tables == t0,
            t0 == t,
            tb == t0.tv(),
            tables.wf(),
            consts.len() <= MAX_CONSTS,
            consts_view(consts@).no_duplicates(),
            out.len() == j,
            s_funcs(tb, ord.take(j as int)) == Ok::<(Seq<FuncCodeV>, Seq<ConstV>), CErr>(
                (Seq::new(out.len() as nat, |k: int| func_code_view(out@[k])), consts_view(consts@)),
            ),
            forall|k: int| 0 <= k < out.len() ==> #[trigger] func_fits(out@[k], consts.len() as nat, tables.globals.len() as nat, tables.arrays.len() as nat, params_view(tables.func_params@)),
        decreases order.len() - j,
    {
        let ghost prev_out = out@;
        let ghost prev_consts = consts@;
        proof {
            assert(ord.take(j + 1).drop_last() =~= ord.take(j as int));
            assert(ord.take(j + 1).last() == ord[j as int]);
            assert(fs[order@[j as int] as int] == func_view(funcs@[order@[j as int] as int]));
        }
        let idx = order[j];
        match compile_func(tables, consts, &funcs[idx]) {
            Ok((f, t2, c2)) => {
                tables = t2;
                consts = c2;
                out.push(f);
                proof {
                    assert(Seq::new(out.len() as nat, |k: int| func_code_view(out@[k]))
                        =~= Seq::new(prev_out.len() as nat, |k: int| func_code_view(prev_out[k])).push(func_code_view(f)));
                    assert forall|k: int| 0 <= k < out.len() implies #[trigger] func_fits(out@[k], consts.len() as nat, tables.globals.len() as nat, tables.arrays.len() as nat, params_view(tables.func_params@)) by {
                        if k < prev_out.len() {
                            assert(out@[k] == prev_out[k]);
                            lemma_fits_grow(prev_out[k], prev_consts.len() as nat, consts.len() as nat, tables.globals.len() as nat, tables.arrays.len() as nat, params_view(tables.func_params@));
                        }
                    }
                }
            },
            Err(x) => {
                proof {
                    lemma_funcs_prefix_err(tb, ord, j + 1);
                }
                return Err(x);
            },
        }
        j = j + 1;
    }
    proof {
        assert(ord.take(j as int) =~= ord);
    }
    Ok((out, tables, consts))
}

} // verus!

verus! {

/// What compiling the functions in order gives, function by function:
/// each keeps its name and parameter count, and `main` takes none.
pub proof fn lemma_s_funcs_shape(tb: TabV, fs: Seq<FuncV>)
    requires
        s_funcs(tb, fs) is Ok,
    ensures
        ({
            let cs = s_funcs(tb, fs)->Ok_0.0;
            &&& cs.len() == fs.len()
            &&& forall|k: int| 0 <= k < fs.len() ==> (#[trigger] cs[k]).name == fs[k].name && cs[k].nparams == fs[k].params.len()
                && (fs[k].name == "main"@ ==> fs[k].params.len() == 0)
        }),
    decreases fs.len(),
{
    reveal(s_func);
    if fs.len() > 0 {
        lemma_s_funcs_shape(tb, fs.drop_last());
        let cs = s_funcs(tb, fs)->Ok_0.0;
        let prev = s_funcs(tb, fs.drop_last())->Ok_0.0;
        assert forall|k: int| 0 <= k < fs.len() implies (#[trigger] cs[k]).name == fs[k].name && cs[k].nparams == fs[k].params.len()
            && (fs[k].name == "main"@ ==> fs[k].params.len() == 0) by {
            if k < fs.len() - 1 {
                assert(cs[k] == prev[k]);
                assert(fs.drop_last()[k] == fs[k]);
            }
        }
    }
}

/// Compile a parsed program. `main` becomes function 0. The result is the
/// program `s_compile` states; it is well formed, and each constant is in
/// its table once.
pub fn compile_program(ast: &crate::ast::Program) -> (r: Result<Rc<Program>, CompileError>)
    ensures
        match s_compile(program_view(*ast)) {
            Ok(pv) => r matches Ok(p) && prog_view(*p) == pv && program_wf(*p) && pv.consts.no_duplicates(),
            Err(e) => r matches Err(x) && err_view(x) == e,
        },
{
    let ghost fs = program_view(*ast);
    proof {
        assert(*ast == crate::ast::Program { funcs: ast.funcs });
    }
    if ast.funcs.len() > MAX_FUNCS {
        return Err(FuncCompiler::error_str("too many functions (max 64)", 0));
    }
    let m = match find_main(&ast.funcs) {
        None => {
            return Err(FuncCompiler::error_str("program must define 'func main()'", 0));
        },
        Some(m) => m,
    };
    proof {
        lemma_main_pos(fs);
    }
    let (order, names, params) = order_funcs(&ast.funcs, m);
    let ghost ord = ordered(fs);
    proof {
        lemma_dup_pos(names_view(names@));
    }
    match find_dup(&names) {
        Some(d) => {
            let line = ast.funcs[order[d]].line;
            proof {
                assert(names_view(names@)[d as int] == ord[d as int].name);
            }
            return Err(FuncCompiler::error_name("duplicate function '", &names[d], "'", line));
        },
        None => {},
    }
    let mut globals: Vec<String> = Vec::new();
    proof {
        assert(names_view(globals@) =~= Seq::<Seq<char>>::empty());
    }
    hoist_stmts(&ast.funcs[m].body, &mut globals)?;
    let arrays = hoist_arrays(&ast.funcs[m].body, &globals)?;
    let n_globals = globals.len();
    let t = Tables { func_names: names, func_params: params, globals, arrays };
    let ghost tb = t.tv();
    let ghost t0 = t;
    proof {
        assert(names_view(t.func_names@).len() == t.func_names.len());
        assert(params_view(t.func_params@).len() == t.func_params.len());
    }
    let (funcs, t, consts) = compile_funcs(t, &order, &ast.funcs)?;
    let Tables { arrays, .. } = t;
    let p = Program { funcs, consts, n_globals, arrays };
    proof {
        lemma_s_funcs_shape(tb, ord);
        let cs = s_funcs(tb, ord)->Ok_0.0;
        assert(Seq::new(p.funcs.len() as nat, |k: int| func_code_view(p.funcs@[k])) == cs);
        assert forall|k: int| 0 <= k < p.funcs.len() implies #[trigger] p.funcs@[k].nparams as nat == func_params(ord)[k] by {
            assert(func_code_view(p.funcs@[k]) == cs[k]);
        }
        let ps = Seq::new(p.funcs.len() as nat, |i: int| p.funcs@[i].nparams as nat);
        assert(ps =~= params_view(t0.func_params@));
        assert(p.n_globals == t0.globals.len());
        assert(p.arrays.len() == t0.arrays.len());
        assert(program_bounds(p, 0).params == ps);
        assert forall|i: int| 0 <= i < p.funcs.len() implies #[trigger] func_wf(p, p.funcs@[i]) by {
            let n = p.funcs@[i].nlocals as nat;
            assert(func_fits(p.funcs@[i], p.consts.len() as nat, t0.globals.len() as nat, t0.arrays.len() as nat, params_view(t0.func_params@)));
            assert(program_bounds(p, n).params == ps);
            assert(program_bounds(p, n).params == params_view(t0.func_params@));
            assert(program_bounds(p, n) == Bounds {
                nconsts: p.consts.len() as nat,
                nglobals: t0.globals.len() as nat,
                nlocals: p.funcs@[i].nlocals as nat,
                narrays: t0.arrays.len() as nat,
                params: params_view(t0.func_params@),
            });
        }
        assert(func_code_view(p.funcs@[0]) == cs[0]);
        assert(ord[0] == fs[m as int]);
    }
    Ok(Rc::new(p))
}

} // verus!

verus! {

// ---------------------------------------------------------------------------
// Hoisting

/// The names a statement declares with `var`, nested blocks and `for`
/// headers included.
pub open spec fn declared_stmt(s: StmtV) -> Set<Seq<char>>
    decreases s, 0int,
{
    match s {
        StmtV::Var { name, .. } => set![name],
        StmtV::If { then, els, .. } => {
            let de = match els {
                None => Set::empty(),
                Some(b) => declared(b),
            };
            declared(then) + de
        },
        StmtV::While { body, .. } => declared(body),
        StmtV::For { init, step, body, .. } => {
            let di = match init {
                None => Set::empty(),
                Some(b) => declared_stmt(*b),
            };
            di + declared(step) + declared(body)
        },
        _ => Set::empty(),
    }
}

pub open spec fn declared(ss: Seq<StmtV>) -> Set<Seq<char>>
    decreases ss, 0int,
{
    if ss.len() == 0 {
        Set::empty()
    } else {
        proof {
            assert(decreases_to!(ss => ss[ss.len() - 1]));
            assert(decreases_to!(ss => ss.subrange(0, ss.len() - 1)));
        }
        declared(ss.subrange(0, ss.len() - 1)) + declared_stmt(ss[ss.len() - 1])
    }
}

/// What hoisting adds to the globals `gs`: exactly the names declared,
/// each once, after the ones already there.
pub open spec fn hoisted(gs: Seq<Seq<char>>, g2: Seq<Seq<char>>, names: Set<Seq<char>>) -> bool {
    &&& g2.no_duplicates()
    &&& g2.len() >= gs.len()
    &&& g2.subrange(0, gs.len() as int) == gs
    &&& forall|n: Seq<char>| #[trigger] g2.contains(n) <==> (gs.contains(n) || names.contains(n))
}

pub proof fn lemma_hoisted_trans(g0: Seq<Seq<char>>, g1: Seq<Seq<char>>, g2: Seq<Seq<char>>, a: Set<Seq<char>>, b: Set<Seq<char>>)
    requires
        hoisted(g0, g1, a),
        hoisted(g1, g2, b),
    ensures
        hoisted(g0, g2, a + b),
{
    assert(g2.subrange(0, g0.len() as int) =~= g1.subrange(0, g0.len() as int));
}

/// Hoisting a statement adds exactly the names it declares.
pub proof fn lemma_hoist_stmt_collects(s: StmtV, gs: Seq<Seq<char>>)
    requires
        gs.no_duplicates(),
        s_hoist_stmt(s, gs) is Ok,
    ensures
        hoisted(gs, s_hoist_stmt(s, gs)->Ok_0, declared_stmt(s)),
    decreases s, 0int,
{
    match s {
        StmtV::Var { name, .. } => {
            let g2 = s_hoist_stmt(s, gs)->Ok_0;
            lemma_last_pos(gs, name);
            if last_pos(gs, name) >= 0 {
                assert(gs.contains(name));
                assert(g2.subrange(0, gs.len() as int) =~= gs);
            } else {
                assert(g2.subrange(0, gs.len() as int) =~= gs);
                assert forall|n: Seq<char>| #[trigger] g2.contains(n) <==> (gs.contains(n) || declared_stmt(s).contains(n)) by {
                    if g2.contains(n) {
                        let i = choose|i: int| 0 <= i < g2.len() && g2[i] == n;
                        if i < gs.len() {
                            assert(gs[i] == n);
                        }
                    }
                    if gs.contains(n) {
                        let i = choose|i: int| 0 <= i < gs.len() && gs[i] == n;
                        assert(g2[i] == n);
                    }
                    if n == name {
                        assert(g2[gs.len() as int] == n);
                    }
                }
            }
        },
        StmtV::If { then, els, .. } => {
            lemma_hoist_collects(then, gs);
            let g1 = s_hoist(then, gs)->Ok_0;
            match els {
                None => {
                    assert(g1.subrange(0, g1.len() as int) =~= g1);
                    assert(declared(then) + Set::<Seq<char>>::empty() =~= declared(then));
                },
                Some(b) => {
                    lemma_hoist_collects(b, g1);
                    lemma_hoisted_trans(gs, g1, s_hoist(b, g1)->Ok_0, declared(then), declared(b));
                },
            }
        },
        StmtV::While { body, .. } => {
            lemma_hoist_collects(body, gs);
        },
        StmtV::For { init, step, body, .. } => {
            let g1 = match init {
                None => gs,
                Some(b) => s_hoist_stmt(*b, gs)->Ok_0,
            };
            let di = match init {
                None => Set::<Seq<char>>::empty(),
                Some(b) => declared_stmt(*b),
            };
            match init {
                None => {
                    assert(gs.subrange(0, gs.len() as int) =~= gs);
                },
                Some(b) => {
                    lemma_hoist_stmt_collects(*b, gs);
                },
            }
            assert(hoisted(gs, g1, di));
            lemma_hoist_collects(step, g1);
            let g2 = s_hoist(step, g1)->Ok_0;
            lemma_hoisted_trans(gs, g1, g2, di, declared(step));
            lemma_hoist_collects(body, g2);
            lemma_hoisted_trans(gs, g2, s_hoist(body, g2)->Ok_0, di + declared(step), declared(body));
        },
        _ => {
            let g2 = s_hoist_stmt(s, gs)->Ok_0;
            assert(g2.subrange(0, gs.len() as int) =~= gs);
        },
    }
}

/// Hoisting statements adds exactly the names they declare.
pub proof fn lemma_hoist_collects(ss: Seq<StmtV>, gs: Seq<Seq<char>>)
    requires
        gs.no_duplicates(),
        s_hoist(ss, gs) is Ok,
    ensures
        hoisted(gs, s_hoist(ss, gs)->Ok_0, declared(ss)),
    decreases ss, 0int,
{
    if ss.len() == 0 {
        assert(gs.subrange(0, gs.len() as int) =~= gs);
    } else {
        let pre = ss.subrange(0, ss.len() - 1);
        assert(decreases_to!(ss => ss[ss.len() - 1]));
        assert(decreases_to!(ss => pre));
        lemma_hoist_collects(pre, gs);
        let g1 = s_hoist(pre, gs)->Ok_0;
        lemma_hoist_stmt_collects(ss[ss.len() - 1], g1);
        lemma_hoisted_trans(gs, g1, s_hoist_stmt(ss[ss.len() - 1], g1)->Ok_0, declared(pre), declared_stmt(ss[ss.len() - 1]));
    }
}

/// Every `var` declared anywhere in `main` is one global: the program has
/// exactly as many globals as `main` declares distinct names, and each of
/// those names is a global.
pub proof fn lemma_globals_are_main_vars(fs: Seq<FuncV>)
    requires
        s_compile(fs) is Ok,
    ensures
        ({
            let body = fs[main_pos(fs)].body;
            let gs = s_hoist(body, Seq::empty())->Ok_0;
            &&& forall|n: Seq<char>| #[trigger] gs.contains(n) <==> declared(body).contains(n)
            &&& gs.no_duplicates()
            &&& s_compile(fs)->Ok_0.n_globals == declared(body).len()
        }),
{
    let body = fs[main_pos(fs)].body;
    let gs = s_hoist(body, Seq::empty())->Ok_0;
    lemma_hoist_collects(body, Seq::empty());
    assert(gs.to_set() =~= declared(body));
    gs.unique_seq_to_set();
}

} // verus!

verus! {

// ---------------------------------------------------------------------------
// String constants

pub open spec fn const_fits(c: ConstV) -> bool {
    match c {
        ConstV::Str(x) => utf8_len(x) <= MAX_STRING_LEN,
        _ => true,
    }
}

/// Every string constant has at most `MAX_STRING_LEN` bytes.
pub open spec fn consts_fit(cs: Seq<ConstV>) -> bool {
    forall|i: int| 0 <= i < cs.len() ==> #[trigger] const_fits(cs[i])
}

proof fn lemma_push_const_fit(st: CSt, c: ConstV)
    requires
        consts_fit(st.consts),
        const_fits(c),
        s_push_const(st, c) is Ok,
    ensures
        consts_fit(s_push_const(st, c)->Ok_0.consts),
{
    let k = last_pos(st.consts, c);
    if k < 0 && st.consts.len() < MAX_CONSTS {
        let cs2 = st.consts.push(c);
        assert forall|i: int| 0 <= i < cs2.len() implies #[trigger] const_fits(cs2[i]) by {
            if i < st.consts.len() {
                assert(cs2[i] == st.consts[i]);
            }
        }
    }
}

proof fn lemma_patch_all_consts(st: CSt, ats: Seq<u16>, t: int)
    ensures
        s_patch_all(st, ats, t).consts == st.consts,
    decreases ats.len(),
{
    if ats.len() > 0 {
        lemma_patch_all_consts(st, ats.drop_last(), t);
    }
}

proof fn lemma_expr_fit(tb: TabV, st: CSt, e: ExprV)
    requires
        consts_fit(st.consts),
        expr_strs_fit(e),
        s_expr(tb, st, e) is Ok,
    ensures
        consts_fit(s_expr(tb, st, e)->Ok_0.consts),
    decreases e,
{
    match e {
        ExprV::Num(n) => lemma_push_const_fit(st, ConstV::Num(n)),
        ExprV::Bool(b) => lemma_push_const_fit(st, ConstV::Bool(b)),
        ExprV::Str(x) => lemma_push_const_fit(st, ConstV::Str(x)),
        ExprV::Ident { .. } => {},
        ExprV::Index { index, .. } => {
            lemma_expr_fit(tb, st, *index);
        },
        ExprV::Unary { expr, .. } => {
            lemma_expr_fit(tb, st, *expr);
        },
        ExprV::Binary { lhs, rhs, .. } => {
            lemma_expr_fit(tb, st, *lhs);
            lemma_expr_fit(tb, s_expr(tb, st, *lhs)->Ok_0, *rhs);
        },
        ExprV::Logical { op, lhs, rhs } => {
            lemma_expr_fit(tb, st, *lhs);
            let st1 = s_expr(tb, st, *lhs)->Ok_0;
            let skip = if op == LogOp::And { Op::JumpIfFalse(0) } else { Op::JumpIfTrue(0) };
            let st2 = s_emit(st1, skip)->Ok_0;
            lemma_expr_fit(tb, st2, *rhs);
            let st3 = s_expr(tb, st2, *rhs)->Ok_0;
            let st4 = s_emit(st3, Op::Jump(0))->Ok_0;
            let st5 = s_patch(st4, st1.code.len() as int, st4.code.len() as int);
            lemma_push_const_fit(st5, ConstV::Bool(op == LogOp::Or));
        },
        ExprV::Call { name, args, line } => {
            let f = last_pos(tb.funcs, name);
            if f >= 0 {
                lemma_args_fit(tb, st, args);
            } else if name == "len"@ {
                if args.len() == 1 && args[0] is Ident && key_pos(tb.arrays, args[0]->Ident_name) >= 0 {
                    lemma_push_const_fit(
                        st,
                        ConstV::Num(decimal(tb.arrays[key_pos(tb.arrays, args[0]->Ident_name)].1)),
                    );
                }
            } else {
                lemma_args_fit(tb, st, args);
            }
        },
    }
}

proof fn lemma_args_fit(tb: TabV, st: CSt, args: Seq<ExprV>)
    requires
        consts_fit(st.consts),
        exprs_strs_fit(args),
        s_args(tb, st, args) is Ok,
    ensures
        consts_fit(s_args(tb, st, args)->Ok_0.consts),
    decreases args,
{
    if args.len() > 0 {
        let pre = args.subrange(0, args.len() - 1);
        assert(decreases_to!(args => args[args.len() - 1]));
        assert(decreases_to!(args => pre));
        lemma_args_fit(tb, st, pre);
        lemma_expr_fit(tb, s_args(tb, st, pre)->Ok_0, args[args.len() - 1]);
    }
}

proof fn lemma_var_init_fit(tb: TabV, st: CSt, init: Option<ExprV>)
    requires
        consts_fit(st.consts),
        opt_strs_fit(init),
        s_var_init(tb, st, init) is Ok,
    ensures
        consts_fit(s_var_init(tb, st, init)->Ok_0.consts),
{
    match init {
        Some(e) => lemma_expr_fit(tb, st, e),
        None => lemma_push_const_fit(st, ConstV::Null),
    }
}

proof fn lemma_simple_stmt_fit(tb: TabV, m: bool, st: CSt, s: StmtV)
    requires
        consts_fit(st.consts),
        stmt_strs_fit(s),
        s_stmt(tb, m, st, s) is Ok,
        !(s is If || s is While || s is For),
    ensures
        consts_fit(s_stmt(tb, m, st, s)->Ok_0.consts),
{
    match s {
        StmtV::Var { name, init, line } => {
            lemma_var_init_fit(tb, st, init);
        },
        StmtV::Assign { name, op, value, line } => {
            let r = s_resolve(tb, st, name)->Some_0;
            let load = if op == AssignOp::Plain { None } else { Some(get_op(r)) };
            lemma_expr_fit(tb, s_emit_opt(st, load)->Ok_0, value);
        },
        StmtV::ElemAssign { name, index, op, value, line } => {
            lemma_expr_fit(tb, st, index);
            let st1 = s_expr(tb, st, index)->Ok_0;
            let a = key_pos(tb.arrays, name);
            let st2 = if op == AssignOp::Plain {
                st1
            } else {
                s_emit(s_emit(st1, Op::Dup)->Ok_0, Op::GetElem(a as u16))->Ok_0
            };
            lemma_expr_fit(tb, st2, value);
        },
        StmtV::Expr { expr, .. } => {
            lemma_expr_fit(tb, st, expr);
        },
        StmtV::Return { value, .. } => {
            lemma_var_init_fit(tb, st, value);
        },
        _ => {},
    }
}

proof fn lemma_stmt_fit(tb: TabV, m: bool, st: CSt, s: StmtV)
    requires
        consts_fit(st.consts),
        stmt_strs_fit(s),
        s_stmt(tb, m, st, s) is Ok,
    ensures
        consts_fit(s_stmt(tb, m, st, s)->Ok_0.consts),
    decreases s, 3int,
{
    if s is If {
        lemma_if_fit(tb, m, st, s);
    } else if s is While {
        lemma_while_fit(tb, m, st, s);
    } else if s is For {
        lemma_for_fit(tb, m, st, s);
    } else {
        lemma_simple_stmt_fit(tb, m, st, s);
    }
}

proof fn lemma_if_fit(tb: TabV, m: bool, st: CSt, s: StmtV)
    requires
        consts_fit(st.consts),
        stmt_strs_fit(s),
        s_stmt(tb, m, st, s) is Ok,
        s is If,
    ensures
        consts_fit(s_stmt(tb, m, st, s)->Ok_0.consts),
    decreases s, 2int,
{
    match s {
        StmtV::If { cond, then, els, .. } => {
            lemma_expr_fit(tb, st, cond);
            let st1 = s_expr(tb, st, cond)->Ok_0;
            let st2 = s_emit(st1, Op::JumpIfFalse(0))->Ok_0;
            lemma_block_fit(tb, m, st2, then);
            let st3 = s_block(tb, m, st2, then)->Ok_0;
            match els {
                None => {},
                Some(b) => {
                    let st4 = s_emit(st3, Op::Jump(0))->Ok_0;
                    lemma_block_fit(tb, m, s_patch(st4, st1.code.len() as int, st4.code.len() as int), b);
                },
            }
        },
        _ => {},
    }
}

proof fn lemma_while_fit(tb: TabV, m: bool, st: CSt, s: StmtV)
    requires
        consts_fit(st.consts),
        stmt_strs_fit(s),
        s_stmt(tb, m, st, s) is Ok,
        s is While,
    ensures
        consts_fit(s_stmt(tb, m, st, s)->Ok_0.consts),
    decreases s, 2int,
{
    match s {
        StmtV::While { cond, body, .. } => {
            lemma_expr_fit(tb, st, cond);
            let st1 = s_expr(tb, st, cond)->Ok_0;
            let st2 = s_emit(st1, Op::JumpIfFalse(0))->Ok_0;
            lemma_block_fit(tb, m, s_enter_loop(st2), body);
            let st3 = s_block(tb, m, s_enter_loop(st2), body)->Ok_0;
            let ctx = st3.loops.last();
            lemma_patch_all_consts(s_leave_loop(st3), ctx.1, st.code.len() as int);
            let st5 = s_patch_all(s_leave_loop(st3), ctx.1, st.code.len() as int);
            let st6 = s_emit(st5, Op::Jump(st.code.len() as u16))->Ok_0;
            let st7 = s_patch(st6, st1.code.len() as int, st6.code.len() as int);
            lemma_patch_all_consts(st7, ctx.0, st7.code.len() as int);
        },
        _ => {},
    }
}

proof fn lemma_for_fit(tb: TabV, m: bool, st: CSt, s: StmtV)
    requires
        consts_fit(st.consts),
        stmt_strs_fit(s),
        s_stmt(tb, m, st, s) is Ok,
        s is For,
    ensures
        consts_fit(s_stmt(tb, m, st, s)->Ok_0.consts),
    decreases s, 2int,
{
    match s {
        StmtV::For { init, cond, step, body, .. } => {
            let st0 = s_open(st);
            match init {
                None => {},
                Some(b) => {
                    lemma_stmt_fit(tb, m, st0, *b);
                },
            }
            let st1 = match init {
                None => st0,
                Some(b) => s_stmt(tb, m, st0, *b)->Ok_0,
            };
            match cond {
                None => {},
                Some(c) => {
                    lemma_expr_fit(tb, st1, c);
                },
            }
            let st2 = match cond {
                None => st1,
                Some(c) => s_emit(s_expr(tb, st1, c)->Ok_0, Op::JumpIfFalse(0))->Ok_0,
            };
            lemma_block_fit(tb, m, s_enter_loop(st2), body);
            let st3 = s_block(tb, m, s_enter_loop(st2), body)->Ok_0;
            let ctx = st3.loops.last();
            let st4 = s_leave_loop(st3);
            lemma_stmts_fit(tb, m, st4, step);
            let st5 = s_stmts(tb, m, st4, step)->Ok_0;
            let st6 = s_emit(st5, Op::Jump(st1.code.len() as u16))->Ok_0;
            let st7 = if cond is Some {
                s_patch(st6, st2.code.len() - 1, st6.code.len() as int)
            } else {
                st6
            };
            lemma_patch_all_consts(st7, ctx.0, st7.code.len() as int);
            let st8 = s_patch_all(st7, ctx.0, st7.code.len() as int);
            lemma_patch_all_consts(st8, ctx.1, st4.code.len() as int);
        },
        _ => {},
    }
}

proof fn lemma_stmts_fit(tb: TabV, m: bool, st: CSt, ss: Seq<StmtV>)
    requires
        consts_fit(st.consts),
        stmts_strs_fit(ss),
        s_stmts(tb, m, st, ss) is Ok,
    ensures
        consts_fit(s_stmts(tb, m, st, ss)->Ok_0.consts),
    decreases ss, 0int,
{
    if ss.len() > 0 {
        let pre = ss.subrange(0, ss.len() - 1);
        assert(decreases_to!(ss => ss[ss.len() - 1]));
        assert(decreases_to!(ss => pre));
        lemma_stmts_fit(tb, m, st, pre);
        lemma_stmt_fit(tb, m, s_stmts(tb, m, st, pre)->Ok_0, ss[ss.len() - 1]);
    }
}

proof fn lemma_block_fit(tb: TabV, m: bool, st: CSt, ss: Seq<StmtV>)
    requires
        consts_fit(st.consts),
        stmts_strs_fit(ss),
        s_block(tb, m, st, ss) is Ok,
    ensures
        consts_fit(s_block(tb, m, st, ss)->Ok_0.consts),
    decreases ss, 1int,
{
    lemma_stmts_fit(tb, m, s_open(st), ss);
}

} // verus!

verus! {

proof fn lemma_params_consts(st: CSt, ps: Seq<Seq<char>>, line: int)
    requires
        s_params(st, ps, line) is Ok,
    ensures
        s_params(st, ps, line)->Ok_0.consts == st.consts,
    decreases ps.len(),
{
    if ps.len() > 0 {
        lemma_params_consts(st, ps.drop_last(), line);
    }
}

proof fn lemma_func_fit(tb: TabV, consts: Seq<ConstV>, f: FuncV)
    requires
        consts_fit(consts),
        stmts_strs_fit(f.body),
        s_func(tb, consts, f) is Ok,
    ensures
        consts_fit(s_func(tb, consts, f)->Ok_0.1),
{
    reveal(s_func);
    let m = f.name == "main"@;
    lemma_params_consts(s_start(consts), f.params, f.line);
    let st1 = s_params(s_start(consts), f.params, f.line)->Ok_0;
    lemma_block_fit(tb, m, st1, f.body);
    let st2 = s_block(tb, m, st1, f.body)->Ok_0;
    lemma_push_const_fit(st2, ConstV::Null);
}

proof fn lemma_funcs_fit(tb: TabV, fs: Seq<FuncV>)
    requires
        forall|i: int| 0 <= i < fs.len() ==> stmts_strs_fit(#[trigger] fs[i].body),
        s_funcs(tb, fs) is Ok,
    ensures
        consts_fit(s_funcs(tb, fs)->Ok_0.1),
    decreases fs.len(),
{
    if fs.len() > 0 {
        lemma_funcs_fit(tb, fs.drop_last());
        let consts = s_funcs(tb, fs.drop_last())->Ok_0.1;
        assert(stmts_strs_fit(fs[fs.len() - 1].body));
        lemma_func_fit(tb, consts, fs.last());
    }
}

proof fn lemma_others_from(fs: Seq<FuncV>)
    ensures
        forall|k: int| 0 <= k < others(fs).len() ==> exists|j: int| 0 <= j < fs.len() && #[trigger] others(fs)[k] == fs[j],
    decreases fs.len(),
{
    if fs.len() > 0 {
        lemma_others_from(fs.drop_last());
        let o = others(fs.drop_last());
        assert forall|k: int| 0 <= k < others(fs).len() implies exists|j: int| 0 <= j < fs.len() && #[trigger] others(fs)[k] == fs[j] by {
            if k < o.len() {
                assert(others(fs)[k] == o[k]);
                let j = choose|j: int| 0 <= j < fs.drop_last().len() && o[k] == fs.drop_last()[j];
                assert(fs.drop_last()[j] == fs[j]);
            } else {
                assert(others(fs)[k] == fs[fs.len() - 1]);
            }
        }
    }
}

/// Compiling keeps string literals within the string limit: when every
/// string literal of the program fits `MAX_STRING_LEN` bytes, so does every
/// string constant of the compiled program.
pub proof fn lemma_compile_strings_fit(fs: Seq<FuncV>)
    requires
        forall|i: int| 0 <= i < fs.len() ==> stmts_strs_fit(#[trigger] fs[i].body),
        s_compile(fs) is Ok,
    ensures
        consts_fit(s_compile(fs)->Ok_0.consts),
{
    let ord = ordered(fs);
    lemma_main_pos(fs);
    lemma_others_from(fs);
    assert forall|i: int| 0 <= i < ord.len() implies stmts_strs_fit(#[trigger] ord[i].body) by {
        if i == 0 {
            assert(ord[0] == fs[main_pos(fs)]);
        } else {
            assert(ord[i] == others(fs)[i - 1]);
            let j = choose|j: int| 0 <= j < fs.len() && others(fs)[i - 1] == fs[j];
            assert(stmts_strs_fit(fs[j].body));
        }
    }
    let body = fs[main_pos(fs)].body;
    let gs = s_hoist(body, Seq::empty())->Ok_0;
    let arrs = s_arrays(body, gs)->Ok_0;
    let tb = TabV { funcs: func_names(ord), params: func_params(ord), globals: gs, arrays: arrs };
    lemma_funcs_fit(tb, ord);
}

// ---------------------------------------------------------------------------
// Operators compile to themselves

/// The instruction that carries out binary operator `op`, as the language
/// defines it: `+` adds, `-` subtracts, and so on.
pub open spec fn carries_out(op: BinOp, o: Op) -> bool {
    ||| op == BinOp::Add && o == Op::Add
    ||| op == BinOp::Sub && o == Op::Sub
    ||| op == BinOp::Mul && o == Op::Mul
    ||| op == BinOp::Div && o == Op::Div
    ||| op == BinOp::Mod && o == Op::Mod
    ||| op == BinOp::Eq && o == Op::Eq
    ||| op == BinOp::Ne && o == Op::Ne
    ||| op == BinOp::Lt && o == Op::Lt
    ||| op == BinOp::Le && o == Op::Le
    ||| op == BinOp::Gt && o == Op::Gt
    ||| op == BinOp::Ge && o == Op::Ge
}

/// A binary expression `lhs op rhs` compiles to the code of `lhs`, then
/// the code of `rhs`, then the one instruction of the same operator: the
/// code of `a - b` ends with `Sub`, that of `a + b` with `Add`, and so on.
pub proof fn lemma_binary_code(tb: TabV, st: CSt, op: BinOp, lhs: ExprV, rhs: ExprV, line: int)
    requires
        s_expr(tb, st, ExprV::Binary { op, lhs: Box::new(lhs), rhs: Box::new(rhs), line }) is Ok,
    ensures
        s_expr(tb, st, lhs) matches Ok(st1) && s_expr(tb, st1, rhs) matches Ok(st2) && {
            let r = s_expr(tb, st, ExprV::Binary { op, lhs: Box::new(lhs), rhs: Box::new(rhs), line })->Ok_0;
            &&& r.code.len() == st2.code.len() + 1
            &&& r.code.take(st2.code.len() as int) == st2.code
            &&& carries_out(op, r.code.last())
        },
{
    let st1 = s_expr(tb, st, lhs)->Ok_0;
    let st2 = s_expr(tb, st1, rhs)->Ok_0;
    let r = s_expr(tb, st, ExprV::Binary { op, lhs: Box::new(lhs), rhs: Box::new(rhs), line })->Ok_0;
    assert(r.code =~= st2.code.push(bin_code(op)));
    assert(r.code.take(st2.code.len() as int) =~= st2.code);
}

/// A unary expression compiles to the code of its operand, then the
/// instruction of the same operator: `-x` ends with `Neg`, `!x` with `Not`.
pub proof fn lemma_unary_code(tb: TabV, st: CSt, op: UnOp, x: ExprV, line: int)
    requires
        s_expr(tb, st, ExprV::Unary { op, expr: Box::new(x), line }) is Ok,
    ensures
        s_expr(tb, st, x) matches Ok(st1) && {
            let r = s_expr(tb, st, ExprV::Unary { op, expr: Box::new(x), line })->Ok_0;
            &&& r.code == st1.code.push(if op == UnOp::Neg { Op::Neg } else { Op::Not })
        },
{
}

/// A compound assignment `name op= value` computes with the operator it
/// names: the instruction just before the store is `Add` for `+=`, `Sub`
/// for `-=`, `Mul` for `*=` and `Div` for `/=`.
pub proof fn lemma_compound_assign_code(tb: TabV, st: CSt, name: Seq<char>, op: AssignOp, value: ExprV, line: int)
    requires
        op != AssignOp::Plain,
        s_assign(tb, st, name, op, value, line) is Ok,
    ensures
        ({
            let c = s_assign(tb, st, name, op, value, line)->Ok_0.code;
            &&& c.len() >= 2
            &&& op == AssignOp::Add ==> c[c.len() - 2] == Op::Add
            &&& op == AssignOp::Sub ==> c[c.len() - 2] == Op::Sub
            &&& op == AssignOp::Mul ==> c[c.len() - 2] == Op::Mul
            &&& op == AssignOp::Div ==> c[c.len() - 2] == Op::Div
        }),
{
}

} // verus!
