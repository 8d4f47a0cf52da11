//! Recursive-descent parser for the robolang DSL.
//!
//! `spec_parse` states the grammar as a recursive descent over the token
//! view, including the nesting budget: every block, parenthesis, unary
//! operator and binary-operator chain link spends one level, and parsing
//! fails past `MAX_NESTING` levels instead of recursing without bound.
use vstd::prelude::*;
use crate::ast::{
    AssignOp, BinOp, Expr, ExprV, FuncDecl, FuncV, LogOp, Program, Stmt, StmtV, UnOp, expr_view,
    exprs_view, func_view, names_view, opt_expr_view, program_view, stmt_view, stmts_view, expr_strs_fit,
    exprs_strs_fit, opt_strs_fit, stmt_strs_fit, stmts_strs_fit, lemma_exprs_strs_fit_push, lemma_stmts_strs_fit_push,
    deeper, stmt_depth, stmts_depth, lemma_stmts_depth_push,
};
use crate::lexer::{lex, spec_lex, tokens_view, error_view, MAX_STRING_LEN, SyntaxError, Tok, TokV, Token};
use crate::text::{push_chars, push_str, string_from_chars, chars_of, utf8_len};

verus! {

/// Maximum syntactic nesting (blocks, parentheses, unary operators, and
/// operator chains).
pub const MAX_NESTING: usize = 100;

/// A parse error: message and line.
pub type PErr = (Seq<char>, int);

/// Token stream as the parser reads it.
pub type Toks = Seq<(TokV, int)>;

// ---------------------------------------------------------------------------
// Specification

/// Token at `p`; past the end the stream reads as `Eof`.
pub open spec fn peek(s: Toks, p: int) -> TokV {
    if 0 <= p < s.len() {
        s[p].0
    } else {
        TokV::Sym(Tok::Eof)
    }
}

pub open spec fn line_of(s: Toks, p: int) -> int {
    if 0 <= p < s.len() {
        s[p].1
    } else {
        0
    }
}

pub open spec fn at(s: Toks, p: int, k: Tok) -> bool {
    peek(s, p) == TokV::Sym(k)
}

/// `{:?}` rendering of a keyword or punctuation token.
pub open spec fn tok_debug(t: Tok) -> Seq<char> {
    match t {
        Tok::Func => "Func"@,
        Tok::Var => "Var"@,
        Tok::If => "If"@,
        Tok::Else => "Else"@,
        Tok::While => "While"@,
        Tok::For => "For"@,
        Tok::Return => "Return"@,
        Tok::Break => "Break"@,
        Tok::Continue => "Continue"@,
        Tok::True => "True"@,
        Tok::False => "False"@,
        Tok::Plus => "Plus"@,
        Tok::Minus => "Minus"@,
        Tok::Star => "Star"@,
        Tok::Slash => "Slash"@,
        Tok::Percent => "Percent"@,
        Tok::Assign => "Assign"@,
        Tok::PlusAssign => "PlusAssign"@,
        Tok::MinusAssign => "MinusAssign"@,
        Tok::StarAssign => "StarAssign"@,
        Tok::SlashAssign => "SlashAssign"@,
        Tok::Eq => "Eq"@,
        Tok::Ne => "Ne"@,
        Tok::Lt => "Lt"@,
        Tok::Le => "Le"@,
        Tok::Gt => "Gt"@,
        Tok::Ge => "Ge"@,
        Tok::AndAnd => "AndAnd"@,
        Tok::OrOr => "OrOr"@,
        Tok::Not => "Not"@,
        Tok::LParen => "LParen"@,
        Tok::RParen => "RParen"@,
        Tok::LBrace => "LBrace"@,
        Tok::RBrace => "RBrace"@,
        Tok::LBracket => "LBracket"@,
        Tok::RBracket => "RBracket"@,
        Tok::Comma => "Comma"@,
        Tok::Semi => "Semi"@,
        Tok::Eof => "Eof"@,
        _ => ""@,
    }
}

/// How an error message names the token at hand.
#[verifier::opaque]
pub open spec fn describe(t: TokV) -> Seq<char> {
    match t {
        TokV::Num(n) => "number "@ + n,
        TokV::Str(x) => "string \""@ + x + "\""@,
        TokV::Ident(x) => "identifier '"@ + x + "'"@,
        TokV::Sym(k) => if k == Tok::Eof {
            "end of file"@
        } else {
            tok_debug(k)
        },
    }
}

#[verifier::opaque]
pub open spec fn expected_err(s: Toks, p: int, what: Seq<char>) -> PErr {
    ("expected "@ + what + ", found "@ + describe(peek(s, p)), line_of(s, p))
}

pub open spec fn nested_msg() -> Seq<char> {
    "code is nested too deeply (max 100 levels)"@
}

/// One more nesting level at `p`, starting from depth `d`.
pub open spec fn enter(s: Toks, p: int, d: int) -> Result<int, PErr> {
    if d + 1 > MAX_NESTING {
        Err((nested_msg(), line_of(s, p)))
    } else {
        Ok(d + 1)
    }
}

pub open spec fn expect(s: Toks, p: int, k: Tok, what: Seq<char>) -> Result<int, PErr> {
    if at(s, p, k) {
        Ok(p + 1)
    } else {
        Err(expected_err(s, p, what))
    }
}

pub open spec fn expect_ident(s: Toks, p: int, what: Seq<char>) -> Result<(Seq<char>, int), PErr> {
    match peek(s, p) {
        TokV::Ident(x) => Ok((x, p + 1)),
        _ => Err(expected_err(s, p, what)),
    }
}

/// Binary operator of the equality level at `p`, if any.
pub open spec fn equality_op(t: TokV) -> Option<BinOp> {
    if t == TokV::Sym(Tok::Eq) {
        Some(BinOp::Eq)
    } else if t == TokV::Sym(Tok::Ne) {
        Some(BinOp::Ne)
    } else {
        None
    }
}

pub open spec fn comparison_op(t: TokV) -> Option<BinOp> {
    if t == TokV::Sym(Tok::Lt) {
        Some(BinOp::Lt)
    } else if t == TokV::Sym(Tok::Le) {
        Some(BinOp::Le)
    } else if t == TokV::Sym(Tok::Gt) {
        Some(BinOp::Gt)
    } else if t == TokV::Sym(Tok::Ge) {
        Some(BinOp::Ge)
    } else {
        None
    }
}

pub open spec fn term_op(t: TokV) -> Option<BinOp> {
    if t == TokV::Sym(Tok::Plus) {
        Some(BinOp::Add)
    } else if t == TokV::Sym(Tok::Minus) {
        Some(BinOp::Sub)
    } else {
        None
    }
}

pub open spec fn factor_op(t: TokV) -> Option<BinOp> {
    if t == TokV::Sym(Tok::Star) {
        Some(BinOp::Mul)
    } else if t == TokV::Sym(Tok::Slash) {
        Some(BinOp::Div)
    } else if t == TokV::Sym(Tok::Percent) {
        Some(BinOp::Mod)
    } else {
        None
    }
}

/// Operator levels of binary expressions, loosest first.
pub open spec fn level_op(level: int, t: TokV) -> Option<BinOp> {
    if level == 2 {
        equality_op(t)
    } else if level == 3 {
        comparison_op(t)
    } else if level == 4 {
        term_op(t)
    } else {
        factor_op(t)
    }
}

pub open spec fn assign_op(t: TokV) -> Option<AssignOp> {
    if t == TokV::Sym(Tok::Assign) {
        Some(AssignOp::Plain)
    } else if t == TokV::Sym(Tok::PlusAssign) {
        Some(AssignOp::Add)
    } else if t == TokV::Sym(Tok::MinusAssign) {
        Some(AssignOp::Sub)
    } else if t == TokV::Sym(Tok::StarAssign) {
        Some(AssignOp::Mul)
    } else if t == TokV::Sym(Tok::SlashAssign) {
        Some(AssignOp::Div)
    } else {
        None
    }
}

/// `expression := logical_or`, one nesting level deeper.
pub open spec fn p_expression(s: Toks, p: int, d: int) -> Result<(ExprV, int), PErr>
    decreases s.len() - p, 40int,
{
    match enter(s, p, d) {
        Err(e) => Err(e),
        Ok(d1) => p_logical(s, p, d1, 0),
    }
}

/// A chain of operators of level `level` (0: `||`, 1: `&&`, 2: `== !=`,
/// 3: `< <= > >=`, 4: `+ -`, 5: `* / %`), left-associative.
pub open spec fn p_logical(s: Toks, p: int, d: int, level: int) -> Result<(ExprV, int), PErr>
    decreases s.len() - p, 30 - 2 * level,
{
    if !(0 <= level <= 5) {
        Err((Seq::empty(), 0))
    } else {
        match p_operand(s, p, d, level) {
            Err(e) => Err(e),
            Ok((lhs, p1)) => if p <= p1 <= s.len() {
                p_chain(s, p1, d, level, lhs)
            } else {
                Err((Seq::empty(), 0))
            },
        }
    }
}

/// An operand of a level-`level` chain: a chain of the next level, or a
/// unary expression below the tightest level.
pub open spec fn p_operand(s: Toks, p: int, d: int, level: int) -> Result<(ExprV, int), PErr>
    decreases s.len() - p, 29 - 2 * level,
{
    if !(0 <= level <= 5) {
        Err((Seq::empty(), 0))
    } else if level < 5 {
        p_logical(s, p, d, level + 1)
    } else {
        p_unary(s, p, d)
    }
}

/// The rest of a level-`level` chain whose left operand `lhs` ends at `p`;
/// `d` is the depth after the links read so far.
pub open spec fn p_chain(s: Toks, p: int, d: int, level: int, lhs: ExprV) -> Result<(ExprV, int), PErr>
    decreases s.len() - p, 29 - 2 * level,
{
    if !(0 <= level <= 5) {
        Err((Seq::empty(), 0))
    } else if level == 0 || level == 1 {
        let k = if level == 0 { Tok::OrOr } else { Tok::AndAnd };
        if at(s, p, k) && p < s.len() {
            match enter(s, p + 1, d) {
                Err(e) => Err(e),
                Ok(d1) => match p_operand(s, p + 1, d1, level) {
                    Err(e) => Err(e),
                    Ok((rhs, p2)) => if p < p2 <= s.len() {
                        p_chain(
                            s,
                            p2,
                            d1,
                            level,
                            ExprV::Logical {
                                op: if level == 0 { LogOp::Or } else { LogOp::And },
                                lhs: Box::new(lhs),
                                rhs: Box::new(rhs),
                            },
                        )
                    } else {
                        Err((Seq::empty(), 0))
                    },
                },
            }
        } else {
            Ok((lhs, p))
        }
    } else {
        match level_op(level, peek(s, p)) {
            None => Ok((lhs, p)),
            Some(op) => if p < s.len() {
                match enter(s, p + 1, d) {
                    Err(e) => Err(e),
                    Ok(d1) => match p_operand(s, p + 1, d1, level) {
                        Err(e) => Err(e),
                        Ok((rhs, p2)) => if p < p2 <= s.len() {
                            p_chain(
                                s,
                                p2,
                                d1,
                                level,
                                ExprV::Binary { op, lhs: Box::new(lhs), rhs: Box::new(rhs), line: line_of(s, p) },
                            )
                        } else {
                            Err((Seq::empty(), 0))
                        },
                    },
                }
            } else {
                Ok((lhs, p))
            },
        }
    }
}

/// `unary := ("-" | "!") unary | primary`
pub open spec fn p_unary(s: Toks, p: int, d: int) -> Result<(ExprV, int), PErr>
    decreases s.len() - p, 10int,
{
    if (at(s, p, Tok::Minus) || at(s, p, Tok::Not)) && p < s.len() {
        let op = if at(s, p, Tok::Minus) { UnOp::Neg } else { UnOp::Not };
        match enter(s, p + 1, d) {
            Err(e) => Err(e),
            Ok(d1) => match p_unary(s, p + 1, d1) {
                Err(e) => Err(e),
                Ok((x, p2)) => Ok((ExprV::Unary { op, expr: Box::new(x), line: line_of(s, p) }, p2)),
            },
        }
    } else {
        p_primary(s, p, d)
    }
}

/// Literals, parenthesized expressions, variables, array elements and
/// calls.
pub open spec fn p_primary(s: Toks, p: int, d: int) -> Result<(ExprV, int), PErr>
    decreases s.len() - p, 9int,
{
    if !(0 <= p < s.len()) {
        Err(expected_err(s, p, "expression"@))
    } else {
        match peek(s, p) {
            TokV::Num(n) => Ok((ExprV::Num(n), p + 1)),
            TokV::Str(x) => Ok((ExprV::Str(x), p + 1)),
            TokV::Ident(name) => {
                let line = line_of(s, p);
                if at(s, p + 1, Tok::LParen) {
                    if at(s, p + 2, Tok::RParen) {
                        Ok((ExprV::Call { name, args: Seq::empty(), line }, p + 3))
                    } else {
                        match p_args(s, p + 2, d, Seq::empty()) {
                            Err(e) => Err(e),
                            Ok((args, p2)) => match expect(s, p2, Tok::RParen, "')'"@) {
                                Err(e) => Err(e),
                                Ok(p3) => Ok((ExprV::Call { name, args, line }, p3)),
                            },
                        }
                    }
                } else if at(s, p + 1, Tok::LBracket) {
                    match p_expression(s, p + 2, d) {
                        Err(e) => Err(e),
                        Ok((index, p2)) => match expect(s, p2, Tok::RBracket, "']'"@) {
                            Err(e) => Err(e),
                            Ok(p3) => Ok((ExprV::Index { name, index: Box::new(index), line }, p3)),
                        },
                    }
                } else {
                    Ok((ExprV::Ident { name, line }, p + 1))
                }
            },
            TokV::Sym(k) => if k == Tok::True {
                Ok((ExprV::Bool(true), p + 1))
            } else if k == Tok::False {
                Ok((ExprV::Bool(false), p + 1))
            } else if k == Tok::LParen {
                match p_expression(s, p + 1, d) {
                    Err(e) => Err(e),
                    Ok((x, p2)) => match expect(s, p2, Tok::RParen, "')'"@) {
                        Err(e) => Err(e),
                        Ok(p3) => Ok((x, p3)),
                    },
                }
            } else {
                Err(expected_err(s, p, "expression"@))
            },
        }
    }
}

/// Comma-separated call arguments from `p`, after `acc`.
pub open spec fn p_args(s: Toks, p: int, d: int, acc: Seq<ExprV>) -> Result<(Seq<ExprV>, int), PErr>
    decreases s.len() - p, 41int,
{
    match p_expression(s, p, d) {
        Err(e) => Err(e),
        Ok((x, p1)) => if at(s, p1, Tok::Comma) && p <= p1 < s.len() {
            p_args(s, p1 + 1, d, acc.push(x))
        } else {
            Ok((acc.push(x), p1))
        },
    }
}

/// `var` initializer at `p`: `= expression`, or nothing.
pub open spec fn p_var_init(s: Toks, p: int, d: int) -> Result<(Option<ExprV>, int), PErr>
    decreases s.len() - p, 45int,
{
    if at(s, p, Tok::Assign) && p < s.len() {
        match p_expression(s, p + 1, d) {
            Err(e) => Err(e),
            Ok((x, p1)) => Ok((Some(x), p1)),
        }
    } else {
        Ok((None, p))
    }
}

/// Assignment, `var` declaration or expression statement, without the
/// trailing semicolon (also the clauses of `for`).
pub open spec fn p_simple(s: Toks, p: int, d: int) -> Result<(StmtV, int), PErr>
    decreases s.len() - p, 50int,
{
    let line = line_of(s, p);
    if at(s, p, Tok::Var) && p < s.len() {
        match expect_ident(s, p + 1, "variable name"@) {
            Err(e) => Err(e),
            Ok((name, p1)) => match p_var_init(s, p1, d) {
                Err(e) => Err(e),
                Ok((init, p2)) => Ok((StmtV::Var { name, init, line }, p2)),
            },
        }
    } else if peek(s, p) is Ident && assign_op(peek(s, p + 1)) is Some && p + 1 < s.len() {
        let name = peek(s, p)->Ident_0;
        let op = assign_op(peek(s, p + 1))->Some_0;
        match p_expression(s, p + 2, d) {
            Err(e) => Err(e),
            Ok((value, p3)) => Ok((StmtV::Assign { name, op, value, line }, p3)),
        }
    } else {
        match p_expression(s, p, d) {
            Err(e) => Err(e),
            Ok((x, p1)) => if x is Index && assign_op(peek(s, p1)) is Some && 0 <= p1 < s.len() {
                let op = assign_op(peek(s, p1))->Some_0;
                match p_expression(s, p1 + 1, d) {
                    Err(e) => Err(e),
                    Ok((value, p2)) => Ok((
                        StmtV::ElemAssign { name: x->Index_name, index: *x->Index_index, op, value, line },
                        p2,
                    )),
                }
            } else {
                Ok((StmtV::Expr { expr: x, line }, p1))
            },
        }
    }
}

/// The comma-separated step clauses of a `for`, from `p`, after `acc`.
pub open spec fn p_steps(s: Toks, p: int, d: int, acc: Seq<StmtV>) -> Result<(Seq<StmtV>, int), PErr>
    decreases s.len() - p, 51int,
{
    match p_simple(s, p, d) {
        Err(e) => Err(e),
        Ok((st, p1)) => if at(s, p1, Tok::Comma) && p <= p1 < s.len() {
            p_steps(s, p1 + 1, d, acc.push(st))
        } else {
            Ok((acc.push(st), p1))
        },
    }
}

/// `block := "{" statement* "}"`, one nesting level deeper.
pub open spec fn p_block(s: Toks, p: int, d: int) -> Result<(Seq<StmtV>, int), PErr>
    decreases s.len() - p, 62int,
{
    match expect(s, p, Tok::LBrace, "'{'"@) {
        Err(e) => Err(e),
        Ok(p1) => match enter(s, p1, d) {
            Err(e) => Err(e),
            Ok(d1) => match p_block_rest(s, p1, d1, Seq::empty()) {
                Err(e) => Err(e),
                Ok((body, p2)) => Ok((body, p2 + 1)),
            },
        },
    }
}

/// Statements of a block from `p` up to its closing brace (not consumed),
/// after `acc`.
pub open spec fn p_block_rest(s: Toks, p: int, d: int, acc: Seq<StmtV>) -> Result<(Seq<StmtV>, int), PErr>
    decreases s.len() - p, 61int,
{
    if at(s, p, Tok::RBrace) {
        Ok((acc, p))
    } else if at(s, p, Tok::Eof) {
        Err(("unterminated block, expected '}'"@, line_of(s, p)))
    } else {
        match p_statement(s, p, d) {
            Err(e) => Err(e),
            Ok((st, p1)) => if p < p1 <= s.len() {
                p_block_rest(s, p1, d, acc.push(st))
            } else {
                Err((Seq::empty(), 0))
            },
        }
    }
}

/// One statement, with its trailing semicolon where it has one.
#[verifier::opaque]
pub open spec fn p_statement(s: Toks, p: int, d: int) -> Result<(StmtV, int), PErr>
    decreases s.len() - p, 60int,
{
    if !(0 <= p < s.len()) {
        Err(expected_err(s, p, "expression"@))
    } else if at(s, p, Tok::Var) {
        p_var_stmt(s, p, d)
    } else if at(s, p, Tok::If) || at(s, p, Tok::While) {
        p_cond_stmt(s, p, d)
    } else if at(s, p, Tok::For) {
        p_for_stmt(s, p, d)
    } else if at(s, p, Tok::Return) {
        p_return_stmt(s, p, d)
    } else if at(s, p, Tok::Break) || at(s, p, Tok::Continue) {
        match expect(s, p + 1, Tok::Semi, "';'"@) {
            Err(e) => Err(e),
            Ok(p1) => if at(s, p, Tok::Break) {
                Ok((StmtV::Break { line: line_of(s, p) }, p1))
            } else {
                Ok((StmtV::Continue { line: line_of(s, p) }, p1))
            },
        }
    } else {
        match p_simple(s, p, d) {
            Err(e) => Err(e),
            Ok((st, p1)) => match expect(s, p1, Tok::Semi, "';'"@) {
                Err(e) => Err(e),
                Ok(p2) => Ok((st, p2)),
            },
        }
    }
}

/// `var name [= expression];` or `var name[size];` at `p`.
pub open spec fn p_var_stmt(s: Toks, p: int, d: int) -> Result<(StmtV, int), PErr>
    decreases s.len() - p, 59int,
{
    let line = line_of(s, p);
    match expect_ident(s, p + 1, "variable name"@) {
        Err(e) => Err(e),
        Ok((name, p1)) => if at(s, p1, Tok::LBracket) {
            match peek(s, p1 + 1) {
                TokV::Num(size) => match expect(s, p1 + 2, Tok::RBracket, "']'"@) {
                    Err(e) => Err(e),
                    Ok(p3) => match expect(s, p3, Tok::Semi, "';'"@) {
                        Err(e) => Err(e),
                        Ok(p4) => Ok((StmtV::ArrayDecl { name, size, line }, p4)),
                    },
                },
                _ => Err(expected_err(s, p1 + 1, "array size"@)),
            }
        } else {
            match p_var_init(s, p1, d) {
                Err(e) => Err(e),
                Ok((init, p2)) => match expect(s, p2, Tok::Semi, "';'"@) {
                    Err(e) => Err(e),
                    Ok(p3) => Ok((StmtV::Var { name, init, line }, p3)),
                },
            }
        },
    }
}

/// `if (cond) block [else block]` or `while (cond) block` at `p`.
pub open spec fn p_cond_stmt(s: Toks, p: int, d: int) -> Result<(StmtV, int), PErr>
    decreases s.len() - p, 59int,
{
    let line = line_of(s, p);
    match expect(s, p + 1, Tok::LParen, "'('"@) {
        Err(e) => Err(e),
        Ok(p1) => match p_expression(s, p1, d) {
            Err(e) => Err(e),
            Ok((cond, p2)) => match expect(s, p2, Tok::RParen, "')'"@) {
                Err(e) => Err(e),
                Ok(p3) => match (if p < p3 <= s.len() {
                    p_block(s, p3, d)
                } else {
                    Err((Seq::empty(), 0))
                }) {
                    Err(e) => Err(e),
                    Ok((body, p4)) => if at(s, p, Tok::While) {
                        Ok((StmtV::While { cond, body, line }, p4))
                    } else if at(s, p4, Tok::Else) && p < p4 < s.len() {
                        match p_block(s, p4 + 1, d) {
                            Err(e) => Err(e),
                            Ok((els, p5)) => Ok((StmtV::If { cond, then: body, els: Some(els), line }, p5)),
                        }
                    } else {
                        Ok((StmtV::If { cond, then: body, els: None, line }, p4))
                    },
                },
            },
        },
    }
}

/// The initializer clause of a `for` at `p` (possibly empty).
pub open spec fn p_for_init(s: Toks, p: int, d: int) -> Result<(Option<Box<StmtV>>, int), PErr> {
    if at(s, p, Tok::Semi) {
        Ok((None, p))
    } else {
        match p_simple(s, p, d) {
            Err(e) => Err(e),
            Ok((st, q)) => Ok((Some(Box::new(st)), q)),
        }
    }
}

/// The condition clause of a `for` at `p` (possibly empty).
pub open spec fn p_for_cond(s: Toks, p: int, d: int) -> Result<(Option<ExprV>, int), PErr> {
    if at(s, p, Tok::Semi) {
        Ok((None, p))
    } else {
        match p_expression(s, p, d) {
            Err(e) => Err(e),
            Ok((c, q)) => Ok((Some(c), q)),
        }
    }
}

/// The step clauses of a `for` at `p` (possibly none).
pub open spec fn p_for_steps(s: Toks, p: int, d: int) -> Result<(Seq<StmtV>, int), PErr> {
    if at(s, p, Tok::RParen) {
        Ok((Seq::empty(), p))
    } else {
        p_steps(s, p, d, Seq::empty())
    }
}

/// `for (init; cond; steps) block` at `p`.
pub open spec fn p_for_stmt(s: Toks, p: int, d: int) -> Result<(StmtV, int), PErr>
    decreases s.len() - p, 59int,
{
    let line = line_of(s, p);
    match expect(s, p + 1, Tok::LParen, "'('"@) {
        Err(e) => Err(e),
        Ok(p1) => match p_for_init(s, p1, d) {
            Err(e) => Err(e),
            Ok((init, p2)) => match expect(s, p2, Tok::Semi, "';'"@) {
                Err(e) => Err(e),
                Ok(p3) => match p_for_cond(s, p3, d) {
                    Err(e) => Err(e),
                    Ok((cond, p4)) => match expect(s, p4, Tok::Semi, "';'"@) {
                        Err(e) => Err(e),
                        Ok(p5) => match p_for_steps(s, p5, d) {
                            Err(e) => Err(e),
                            Ok((step, p6)) => match expect(s, p6, Tok::RParen, "')'"@) {
                                Err(e) => Err(e),
                                Ok(p7) => match (if p < p7 <= s.len() {
                                    p_block(s, p7, d)
                                } else {
                                    Err((Seq::empty(), 0))
                                }) {
                                    Err(e) => Err(e),
                                    Ok((body, p8)) => Ok((StmtV::For { init, cond, step, body, line }, p8)),
                                },
                            },
                        },
                    },
                },
            },
        },
    }
}

/// `return [expression];` at `p`.
pub open spec fn p_return_stmt(s: Toks, p: int, d: int) -> Result<(StmtV, int), PErr> {
    match p_for_cond(s, p + 1, d) {
        Err(e) => Err(e),
        Ok((value, p1)) => match expect(s, p1, Tok::Semi, "';'"@) {
            Err(e) => Err(e),
            Ok(p2) => Ok((StmtV::Return { value, line: line_of(s, p) }, p2)),
        },
    }
}

/// Parameter names from `p`, after `acc`.
pub open spec fn p_params(s: Toks, p: int, acc: Seq<Seq<char>>) -> Result<(Seq<Seq<char>>, int), PErr>
    decreases s.len() - p,
{
    match expect_ident(s, p, "parameter name"@) {
        Err(e) => Err(e),
        Ok((x, p1)) => if at(s, p1, Tok::Comma) && p <= p1 < s.len() {
            p_params(s, p1 + 1, acc.push(x))
        } else {
            Ok((acc.push(x), p1))
        },
    }
}

/// `func name(params) block`
pub open spec fn p_func(s: Toks, p: int) -> Result<(FuncV, int), PErr> {
    let line = line_of(s, p);
    match expect(s, p, Tok::Func, "'func'"@) {
        Err(e) => Err(e),
        Ok(p1) => match expect_ident(s, p1, "function name"@) {
            Err(e) => Err(e),
            Ok((name, p2)) => match expect(s, p2, Tok::LParen, "'('"@) {
                Err(e) => Err(e),
                Ok(p3) => match (if at(s, p3, Tok::RParen) {
                    Ok((Seq::<Seq<char>>::empty(), p3))
                } else {
                    p_params(s, p3, Seq::empty())
                }) {
                    Err(e) => Err(e),
                    Ok((params, p4)) => match expect(s, p4, Tok::RParen, "')'"@) {
                        Err(e) => Err(e),
                        Ok(p5) => match p_block(s, p5, 0) {
                            Err(e) => Err(e),
                            Ok((body, p6)) => Ok((FuncV { name, params, body, line }, p6)),
                        },
                    },
                },
            },
        },
    }
}

/// Function declarations from `p` up to `Eof`, after `acc`.
pub open spec fn p_program(s: Toks, p: int, acc: Seq<FuncV>) -> Result<Seq<FuncV>, PErr>
    decreases s.len() - p,
{
    if at(s, p, Tok::Eof) {
        Ok(acc)
    } else {
        match p_func(s, p) {
            Err(e) => Err(e),
            Ok((f, p1)) => if p < p1 <= s.len() {
                p_program(s, p1, acc.push(f))
            } else {
                Err((Seq::empty(), 0))
            },
        }
    }
}

/// The program a token stream spells, or its first syntax error.
pub open spec fn spec_parse(s: Toks) -> Result<Seq<FuncV>, PErr> {
    p_program(s, 0, Seq::empty())
}

} // verus!

verus! {

// ---------------------------------------------------------------------------
// Lemmas

pub proof fn lemma_exprs_view_push(v: Seq<Expr>, e: Expr)
    ensures
        exprs_view(v.push(e)) == exprs_view(v).push(expr_view(e)),
{
    assert(v.push(e).subrange(0, v.len() as int) =~= v);
}

pub proof fn lemma_stmts_view_push(v: Seq<Stmt>, st: Stmt)
    ensures
        stmts_view(v.push(st)) == stmts_view(v).push(stmt_view(st)),
{
    assert(v.push(st).subrange(0, v.len() as int) =~= v);
}

pub proof fn lemma_names_view_push(v: Seq<String>, n: String)
    ensures
        names_view(v.push(n)) == names_view(v).push(n@),
{
    assert(names_view(v.push(n)) =~= names_view(v).push(n@));
}

pub proof fn lemma_program_view_push(v: Seq<FuncDecl>, f: FuncDecl)
    ensures
        Seq::new(v.push(f).len(), |i: int| func_view(v.push(f)[i]))
            == Seq::new(v.len(), |i: int| func_view(v[i])).push(func_view(f)),
{
    assert(Seq::new(v.push(f).len(), |i: int| func_view(v.push(f)[i]))
        =~= Seq::new(v.len(), |i: int| func_view(v[i])).push(func_view(f)));
}

/// The lexer's token streams end with `Eof`.
pub proof fn lemma_lex_ends_with_eof(s: Seq<char>, p: int)
    ensures
        crate::lexer::lex_from(s, p) matches Ok(t) ==> t.len() >= 1 && t.last().0 == TokV::Sym(Tok::Eof),
    decreases s.len() - p,
{
    match crate::lexer::trivia_end(s, p) {
        None => {},
        Some(q) => if q < s.len() {
            match crate::lexer::token_at(s, q) {
                Err(_) => {},
                Ok((t, r)) => if p < r <= s.len() {
                    lemma_lex_ends_with_eof(s, r);
                    match crate::lexer::lex_from(s, r) {
                        Ok(rest) => {
                            assert((seq![(t, crate::lexer::line_at(s, q))] + rest).last() == rest.last());
                        },
                        Err(_) => {},
                    }
                },
            }
        },
    }
}

/// A keyword or punctuation token.
pub open spec fn is_symbol(k: Tok) -> bool {
    !(k is Num || k is Str || k is Ident)
}

/// `t` is the keyword or punctuation token `k`.
fn same_symbol(t: &Tok, k: &Tok) -> (r: bool)
    requires
        is_symbol(*k),
    ensures
        r == (t@ == TokV::Sym(*k)),
{
    match (t, k) {
        (Tok::Func, Tok::Func) => true,
        (Tok::Var, Tok::Var) => true,
        (Tok::If, Tok::If) => true,
        (Tok::Else, Tok::Else) => true,
        (Tok::While, Tok::While) => true,
        (Tok::For, Tok::For) => true,
        (Tok::Return, Tok::Return) => true,
        (Tok::Break, Tok::Break) => true,
        (Tok::Continue, Tok::Continue) => true,
        (Tok::True, Tok::True) => true,
        (Tok::False, Tok::False) => true,
        (Tok::Plus, Tok::Plus) => true,
        (Tok::Minus, Tok::Minus) => true,
        (Tok::Star, Tok::Star) => true,
        (Tok::Slash, Tok::Slash) => true,
        (Tok::Percent, Tok::Percent) => true,
        (Tok::Assign, Tok::Assign) => true,
        (Tok::PlusAssign, Tok::PlusAssign) => true,
        (Tok::MinusAssign, Tok::MinusAssign) => true,
        (Tok::StarAssign, Tok::StarAssign) => true,
        (Tok::SlashAssign, Tok::SlashAssign) => true,
        (Tok::Eq, Tok::Eq) => true,
        (Tok::Ne, Tok::Ne) => true,
        (Tok::Lt, Tok::Lt) => true,
        (Tok::Le, Tok::Le) => true,
        (Tok::Gt, Tok::Gt) => true,
        (Tok::Ge, Tok::Ge) => true,
        (Tok::AndAnd, Tok::AndAnd) => true,
        (Tok::OrOr, Tok::OrOr) => true,
        (Tok::Not, Tok::Not) => true,
        (Tok::LParen, Tok::LParen) => true,
        (Tok::RParen, Tok::RParen) => true,
        (Tok::LBrace, Tok::LBrace) => true,
        (Tok::RBrace, Tok::RBrace) => true,
        (Tok::LBracket, Tok::LBracket) => true,
        (Tok::RBracket, Tok::RBracket) => true,
        (Tok::Comma, Tok::Comma) => true,
        (Tok::Semi, Tok::Semi) => true,
        (Tok::Eof, Tok::Eof) => true,
        _ => false,
    }
}

/// `{:?}` rendering of a keyword or punctuation token.
fn tok_debug_str(t: &Tok) -> (r: &'static str)
    ensures
        r@ == tok_debug(*t),
{
    match *t {
        Tok::Func => "Func",
        Tok::Var => "Var",
        Tok::If => "If",
        Tok::Else => "Else",
        Tok::While => "While",
        Tok::For => "For",
        Tok::Return => "Return",
        Tok::Break => "Break",
        Tok::Continue => "Continue",
        Tok::True => "True",
        Tok::False => "False",
        Tok::Plus => "Plus",
        Tok::Minus => "Minus",
        Tok::Star => "Star",
        Tok::Slash => "Slash",
        Tok::Percent => "Percent",
        Tok::Assign => "Assign",
        Tok::PlusAssign => "PlusAssign",
        Tok::MinusAssign => "MinusAssign",
        Tok::StarAssign => "StarAssign",
        Tok::SlashAssign => "SlashAssign",
        Tok::Eq => "Eq",
        Tok::Ne => "Ne",
        Tok::Lt => "Lt",
        Tok::Le => "Le",
        Tok::Gt => "Gt",
        Tok::Ge => "Ge",
        Tok::AndAnd => "AndAnd",
        Tok::OrOr => "OrOr",
        Tok::Not => "Not",
        Tok::LParen => "LParen",
        Tok::RParen => "RParen",
        Tok::LBrace => "LBrace",
        Tok::RBrace => "RBrace",
        Tok::LBracket => "LBracket",
        Tok::RBracket => "RBracket",
        Tok::Comma => "Comma",
        Tok::Semi => "Semi",
        Tok::Eof => "Eof",
        _ => "",
    }
}

fn level_op_exec(level: usize, t: &Tok) -> (r: Option<BinOp>)
    requires
        2 <= level <= 5,
    ensures
        r == level_op(level as int, t@),
{
    if level == 2 {
        if same_symbol(t, &Tok::Eq) {
            Some(BinOp::Eq)
        } else if same_symbol(t, &Tok::Ne) {
            Some(BinOp::Ne)
        } else {
            None
        }
    } else if level == 3 {
        if same_symbol(t, &Tok::Lt) {
            Some(BinOp::Lt)
        } else if same_symbol(t, &Tok::Le) {
            Some(BinOp::Le)
        } else if same_symbol(t, &Tok::Gt) {
            Some(BinOp::Gt)
        } else if same_symbol(t, &Tok::Ge) {
            Some(BinOp::Ge)
        } else {
            None
        }
    } else if level == 4 {
        if same_symbol(t, &Tok::Plus) {
            Some(BinOp::Add)
        } else if same_symbol(t, &Tok::Minus) {
            Some(BinOp::Sub)
        } else {
            None
        }
    } else {
        if same_symbol(t, &Tok::Star) {
            Some(BinOp::Mul)
        } else if same_symbol(t, &Tok::Slash) {
            Some(BinOp::Div)
        } else if same_symbol(t, &Tok::Percent) {
            Some(BinOp::Mod)
        } else {
            None
        }
    }
}

fn assign_op_exec(t: &Tok) -> (r: Option<AssignOp>)
    ensures
        r == assign_op(t@),
{
    if same_symbol(t, &Tok::Assign) {
        Some(AssignOp::Plain)
    } else if same_symbol(t, &Tok::PlusAssign) {
        Some(AssignOp::Add)
    } else if same_symbol(t, &Tok::MinusAssign) {
        Some(AssignOp::Sub)
    } else if same_symbol(t, &Tok::StarAssign) {
        Some(AssignOp::Mul)
    } else if same_symbol(t, &Tok::SlashAssign) {
        Some(AssignOp::Div)
    } else {
        None
    }
}

struct Parser {
    tokens: Vec<Token>,
    pos: usize,
    /// Current nesting depth; an upper bound on the depth of the AST being
    /// built.
    depth: usize,
}

impl Parser {
    spec fn toks(&self) -> Toks {
        tokens_view(self.tokens@)
    }

    spec fn wf(&self) -> bool {
        &&& self.tokens.len() >= 1
        &&& self.pos < self.tokens.len()
        &&& at(self.toks(), self.tokens.len() - 1, Tok::Eof)
        &&& self.depth <= MAX_NESTING
    }

    fn peek(&self) -> (t: &Tok)
        requires
            self.wf(),
        ensures
            t@ == peek(self.toks(), self.pos as int),
    {
        &self.tokens[self.pos].tok
    }

    fn at_sym(&self, k: &Tok) -> (b: bool)
        requires
            self.wf(),
            is_symbol(*k),
        ensures
            b == at(self.toks(), self.pos as int, *k),
    {
        same_symbol(&self.tokens[self.pos].tok, k)
    }

    /// The token after the current one is `k`.
    fn next_is(&self, k: &Tok) -> (b: bool)
        requires
            self.wf(),
            is_symbol(*k),
            *k != Tok::Eof,
        ensures
            b == at(self.toks(), self.pos + 1, *k),
    {
        self.pos + 1 < self.tokens.len() && same_symbol(&self.tokens[self.pos + 1].tok, k)
    }

    fn line(&self) -> (l: u32)
        requires
            self.wf(),
        ensures
            l == line_of(self.toks(), self.pos as int),
    {
        self.tokens[self.pos].line
    }

    fn bump(&mut self)
        requires
            old(self).wf(),
            !at(old(self).toks(), old(self).pos as int, Tok::Eof),
        ensures
            final(self).wf(),
            final(self).tokens == old(self).tokens,
            final(self).depth == old(self).depth,
            final(self).pos == old(self).pos + 1,
    {
        if self.pos < self.tokens.len() - 1 {
            self.pos += 1;
        }
    }

    fn describe(&self) -> (r: Vec<char>)
        requires
            self.wf(),
        ensures
            r@ == describe(peek(self.toks(), self.pos as int)),
    {
        proof {
            reveal(describe);
        }
        let mut v: Vec<char> = Vec::new();
        match &self.tokens[self.pos].tok {
            Tok::Num(n) => {
                push_str(&mut v, "number ");
                push_str(&mut v, n.as_str());
            },
            Tok::Str(x) => {
                push_str(&mut v, "string \"");
                push_str(&mut v, x.as_str());
                push_str(&mut v, "\"");
            },
            Tok::Ident(x) => {
                push_str(&mut v, "identifier '");
                push_str(&mut v, x.as_str());
                push_str(&mut v, "'");
            },
            Tok::Eof => {
                push_str(&mut v, "end of file");
            },
            other => {
                push_str(&mut v, tok_debug_str(other));
            },
        }
        v
    }

    fn err_expected(&self, what: &str) -> (e: SyntaxError)
        requires
            self.wf(),
        ensures
            error_view(e) == expected_err(self.toks(), self.pos as int, what@),
    {
        proof {
            reveal(expected_err);
        }
        let mut msg: Vec<char> = Vec::new();
        push_str(&mut msg, "expected ");
        push_str(&mut msg, what);
        push_str(&mut msg, ", found ");
        let d = self.describe();
        push_chars(&mut msg, &d);
        SyntaxError::new(string_from_chars(&msg), self.line())
    }

    fn err_here(&self, msg: &str) -> (e: SyntaxError)
        requires
            self.wf(),
        ensures
            error_view(e) == (msg@, line_of(self.toks(), self.pos as int)),
    {
        let v = chars_of(msg);
        SyntaxError::new(string_from_chars(&v), self.line())
    }

    fn expect(&mut self, k: Tok, what: &str) -> (r: Result<(), SyntaxError>)
        requires
            old(self).wf(),
            is_symbol(k),
            k != Tok::Eof,
        ensures
            final(self).wf(),
            final(self).tokens == old(self).tokens,
            final(self).depth == old(self).depth,
            match expect(old(self).toks(), old(self).pos as int, k, what@) {
                Ok(q) => r is Ok && final(self).pos == q,
                Err(err) => (r matches Err(e) && error_view(e) == err),
            },
    {
        if self.at_sym(&k) {
            self.bump();
            Ok(())
        } else {
            Err(self.err_expected(what))
        }
    }

    fn expect_ident(&mut self, what: &str) -> (r: Result<String, SyntaxError>)
        requires
            old(self).wf(),
        ensures
            final(self).wf(),
            final(self).tokens == old(self).tokens,
            final(self).depth == old(self).depth,
            match expect_ident(old(self).toks(), old(self).pos as int, what@) {
                Ok((x, q)) => (r matches Ok(n) && n@ == x && final(self).pos == q),
                Err(err) => (r matches Err(e) && error_view(e) == err),
            },
    {
        match &self.tokens[self.pos].tok {
            Tok::Ident(x) => {
                let name = x.clone();
                self.bump();
                Ok(name)
            },
            _ => Err(self.err_expected(what)),
        }
    }

    fn enter(&mut self) -> (r: Result<(), SyntaxError>)
        requires
            old(self).wf(),
        ensures
            final(self).wf(),
            final(self).tokens == old(self).tokens,
            final(self).pos == old(self).pos,
            match enter(old(self).toks(), old(self).pos as int, old(self).depth as int) {
                Ok(d1) => r is Ok && final(self).depth == d1,
                Err(err) => (r matches Err(e) && error_view(e) == err),
            },
    {
        if self.depth + 1 > MAX_NESTING {
            let mut msg: Vec<char> = Vec::new();
            push_str(&mut msg, "code is nested too deeply (max 100 levels)");
            return Err(SyntaxError::new(string_from_chars(&msg), self.line()));
        }
        self.depth += 1;
        Ok(())
    }
}

} // verus!

verus! {

impl Parser {
    fn expression(&mut self) -> (r: Result<Expr, SyntaxError>)
        requires
            old(self).wf(),
        ensures
            final(self).wf(),
            final(self).tokens == old(self).tokens,
            match p_expression(old(self).toks(), old(self).pos as int, old(self).depth as int) {
                Ok((x, q)) => (r matches Ok(v) && expr_view(v) == x && final(self).pos == q
                    && final(self).depth == old(self).depth),
                Err(err) => (r matches Err(e) && error_view(e) == err),
            },
            r is Ok ==> final(self).pos > old(self).pos,
        decreases old(self).tokens.len() - old(self).pos, 40int,
    {
        self.enter()?;
        let e = self.logical(0)?;
        self.depth -= 1;
        Ok(e)
    }

    /// A left-associative chain of level-`level` operators.
    fn logical(&mut self, level: usize) -> (r: Result<Expr, SyntaxError>)
        requires
            old(self).wf(),
            level <= 5,
        ensures
            final(self).wf(),
            final(self).tokens == old(self).tokens,
            match p_logical(old(self).toks(), old(self).pos as int, old(self).depth as int, level as int) {
                Ok((x, q)) => (r matches Ok(v) && expr_view(v) == x && final(self).pos == q
                    && final(self).depth == old(self).depth),
                Err(err) => (r matches Err(e) && error_view(e) == err),
            },
            r is Ok ==> final(self).pos > old(self).pos,
        decreases old(self).tokens.len() - old(self).pos, 30 - 2 * level,
    {
        let ghost s = self.toks();
        let ghost p0 = self.pos as int;
        let first = self.operand(level)?;
        let base = self.depth;
        let ghost p1 = self.pos as int;
        let ghost target = p_chain(s, p1, base as int, level as int, expr_view(first));
        let mut lhs = first;
        loop
            invariant_except_break
                p_chain(s, self.pos as int, self.depth as int, level as int, expr_view(lhs)) == target,
            invariant
                self.wf(),
                self.tokens == old(self).tokens,
                self.toks() == s,
                level <= 5,
                p0 < p1 <= self.pos,
                p0 == old(self).pos,
                base == old(self).depth,
                s == old(self).toks(),
                base <= self.depth,
                target == p_chain(s, p1, base as int, level as int, expr_view(first)),
                target == p_logical(s, p0, base as int, level as int),
            ensures
                target == Ok::<(ExprV, int), PErr>((expr_view(lhs), self.pos as int)),
            decreases self.tokens.len() - self.pos,
        {
            let ghost pc = self.pos as int;
            let ghost dc = self.depth as int;
            let ghost lc = expr_view(lhs);
            if level <= 1 {
                let k = if level == 0 { Tok::OrOr } else { Tok::AndAnd };
                if !self.at_sym(&k) {
                    break;
                }
                self.bump();
                self.enter()?;
                let rhs = self.operand(level)?;
                let op = if level == 0 { LogOp::Or } else { LogOp::And };
                lhs = Expr::Logical { op, lhs: Box::new(lhs), rhs: Box::new(rhs) };
            } else {
                let op = match level_op_exec(level, self.peek()) {
                    Some(op) => op,
                    None => {
                        break;
                    },
                };
                let line = self.line();
                self.bump();
                self.enter()?;
                let rhs = self.operand(level)?;
                lhs = Expr::Binary { op, lhs: Box::new(lhs), rhs: Box::new(rhs), line };
            }
        }
        self.depth = base;
        Ok(lhs)
    }

    fn operand(&mut self, level: usize) -> (r: Result<Expr, SyntaxError>)
        requires
            old(self).wf(),
            level <= 5,
        ensures
            final(self).wf(),
            final(self).tokens == old(self).tokens,
            match p_operand(old(self).toks(), old(self).pos as int, old(self).depth as int, level as int) {
                Ok((x, q)) => (r matches Ok(v) && expr_view(v) == x && final(self).pos == q
                    && final(self).depth == old(self).depth),
                Err(err) => (r matches Err(e) && error_view(e) == err),
            },
            r is Ok ==> final(self).pos > old(self).pos,
        decreases old(self).tokens.len() - old(self).pos, 29 - 2 * level,
    {
        if level < 5 {
            self.logical(level + 1)
        } else {
            self.unary()
        }
    }

    fn unary(&mut self) -> (r: Result<Expr, SyntaxError>)
        requires
            old(self).wf(),
        ensures
            final(self).wf(),
            final(self).tokens == old(self).tokens,
            match p_unary(old(self).toks(), old(self).pos as int, old(self).depth as int) {
                Ok((x, q)) => (r matches Ok(v) && expr_view(v) == x && final(self).pos == q
                    && final(self).depth == old(self).depth),
                Err(err) => (r matches Err(e) && error_view(e) == err),
            },
            r is Ok ==> final(self).pos > old(self).pos,
        decreases old(self).tokens.len() - old(self).pos, 10int,
    {
        let line = self.line();
        let minus = self.at_sym(&Tok::Minus);
        if minus || self.at_sym(&Tok::Not) {
            let op = if minus { UnOp::Neg } else { UnOp::Not };
            self.bump();
            self.enter()?;
            let e = self.unary()?;
            self.depth -= 1;
            Ok(Expr::Unary { op, expr: Box::new(e), line })
        } else {
            self.primary()
        }
    }

    fn primary(&mut self) -> (r: Result<Expr, SyntaxError>)
        requires
            old(self).wf(),
        ensures
            final(self).wf(),
            final(self).tokens == old(self).tokens,
            match p_primary(old(self).toks(), old(self).pos as int, old(self).depth as int) {
                Ok((x, q)) => (r matches Ok(v) && expr_view(v) == x && final(self).pos == q
                    && final(self).depth == old(self).depth),
                Err(err) => (r matches Err(e) && error_view(e) == err),
            },
            r is Ok ==> final(self).pos > old(self).pos,
        decreases old(self).tokens.len() - old(self).pos, 9int,
    {
        let line = self.line();
        match &self.tokens[self.pos].tok {
            Tok::Num(n) => {
                let n = n.clone();
                self.bump();
                Ok(Expr::Num(n))
            },
            Tok::Str(x) => {
                let x = x.clone();
                self.bump();
                Ok(Expr::Str(x))
            },
            Tok::True => {
                self.bump();
                Ok(Expr::Bool(true))
            },
            Tok::False => {
                self.bump();
                Ok(Expr::Bool(false))
            },
            Tok::LParen => {
                self.bump();
                let e = self.expression()?;
                self.expect(Tok::RParen, "')'")?;
                Ok(e)
            },
            Tok::Ident(x) => {
                let name = x.clone();
                self.bump();
                if self.at_sym(&Tok::LParen) {
                    self.bump();
                    let args = if self.at_sym(&Tok::RParen) {
                        Vec::new()
                    } else {
                        self.args()?
                    };
                    self.expect(Tok::RParen, "')'")?;
                    proof {
                        assert(exprs_view(Seq::<Expr>::empty()) =~= Seq::<ExprV>::empty());
                    }
                    Ok(Expr::Call { name, args, line })
                } else if self.at_sym(&Tok::LBracket) {
                    self.bump();
                    let index = self.expression()?;
                    self.expect(Tok::RBracket, "']'")?;
                    Ok(Expr::Index { name, index: Box::new(index), line })
                } else {
                    Ok(Expr::Ident { name, line })
                }
            },
            _ => Err(self.err_expected("expression")),
        }
    }

    /// Call arguments: one or more comma-separated expressions.
    fn args(&mut self) -> (r: Result<Vec<Expr>, SyntaxError>)
        requires
            old(self).wf(),
        ensures
            final(self).wf(),
            final(self).tokens == old(self).tokens,
            match p_args(old(self).toks(), old(self).pos as int, old(self).depth as int, Seq::empty()) {
                Ok((x, q)) => (r matches Ok(v) && exprs_view(v@) == x && final(self).pos == q
                    && final(self).depth == old(self).depth),
                Err(err) => (r matches Err(e) && error_view(e) == err),
            },
            r is Ok ==> final(self).pos > old(self).pos,
        decreases old(self).tokens.len() - old(self).pos, 41int,
    {
        let ghost s = self.toks();
        let ghost p0 = self.pos as int;
        let ghost d = self.depth as int;
        let ghost target = p_args(s, p0, d, Seq::empty());
        let mut out: Vec<Expr> = Vec::new();
        proof {
            assert(exprs_view(out@) =~= Seq::<ExprV>::empty());
        }
        loop
            invariant
                self.wf(),
                self.tokens == old(self).tokens,
                self.toks() == s,
                self.depth == d,
                p0 <= self.pos,
                p0 == old(self).pos,
                d == old(self).depth,
                s == old(self).toks(),
                target == p_args(s, p0, d, Seq::empty()),
                p_args(s, self.pos as int, d, exprs_view(out@)) == target,
                out.len() > 0 ==> p0 < self.pos,
            decreases self.tokens.len() - self.pos,
        {
            let ghost pc = self.pos as int;
            let ghost acc = exprs_view(out@);
            let e = self.expression()?;
            proof {
                lemma_exprs_view_push(out@, e);
            }
            out.push(e);
            if !self.at_sym(&Tok::Comma) {
                proof {
                    assert(p_args(s, pc, d, acc) == Ok::<(Seq<ExprV>, int), PErr>((exprs_view(out@), self.pos as int)));
                }
                return Ok(out);
            }
            self.bump();
        }
    }
}

} // verus!

verus! {

impl Parser {
    fn var_init(&mut self) -> (r: Result<Option<Expr>, SyntaxError>)
        requires
            old(self).wf(),
        ensures
            final(self).wf(),
            final(self).tokens == old(self).tokens,
            match p_var_init(old(self).toks(), old(self).pos as int, old(self).depth as int) {
                Ok((x, q)) => (r matches Ok(v) && opt_expr_view(v) == x && final(self).pos == q
                    && final(self).depth == old(self).depth),
                Err(err) => (r matches Err(e) && error_view(e) == err),
            },
            r is Ok ==> final(self).pos >= old(self).pos,
    {
        if self.at_sym(&Tok::Assign) {
            self.bump();
            let e = self.expression()?;
            Ok(Some(e))
        } else {
            Ok(None)
        }
    }

    fn simple_statement(&mut self) -> (r: Result<Stmt, SyntaxError>)
        requires
            old(self).wf(),
        ensures
            final(self).wf(),
            final(self).tokens == old(self).tokens,
            match p_simple(old(self).toks(), old(self).pos as int, old(self).depth as int) {
                Ok((x, q)) => (r matches Ok(v) && stmt_view(v) == x && final(self).pos == q
                    && final(self).depth == old(self).depth),
                Err(err) => (r matches Err(e) && error_view(e) == err),
            },
            r is Ok ==> final(self).pos > old(self).pos,
    {
        let ghost s = self.toks();
        let line = self.line();
        if self.at_sym(&Tok::Var) {
            self.bump();
            let name = self.expect_ident("variable name")?;
            let init = self.var_init()?;
            return Ok(Stmt::Var { name, init, line });
        }
        let is_ident = match self.peek() {
            Tok::Ident(_) => true,
            _ => false,
        };
        if is_ident && self.pos + 1 < self.tokens.len() {
            let next_op = assign_op_exec(&self.tokens[self.pos + 1].tok);
            if let Some(op) = next_op {
                let name = self.expect_ident("variable name")?;
                self.bump();
                let value = self.expression()?;
                return Ok(Stmt::Assign { name, op, value, line });
            }
        }
        proof {
            assert(!(peek(s, self.pos as int) is Ident && assign_op(peek(s, self.pos + 1)) is Some
                && self.pos + 1 < s.len()));
        }
        let ghost pe = self.pos as int;
        let expr = self.expression()?;
        let elem_op = assign_op_exec(self.peek());
        match expr {
            Expr::Index { name, index, line: iline } => {
                match elem_op {
                    Some(op) => {
                        self.bump();
                        let value = self.expression()?;
                        Ok(Stmt::ElemAssign { name, index: *index, op, value, line })
                    },
                    None => Ok(Stmt::Expr { expr: Expr::Index { name, index, line: iline }, line }),
                }
            },
            other => Ok(Stmt::Expr { expr: other, line }),
        }
    }
}

} // verus!

verus! {

impl Parser {
    #[verifier::spinoff_prover]
    fn block(&mut self) -> (r: Result<Vec<Stmt>, SyntaxError>)
        requires
            old(self).wf(),
        ensures
            final(self).wf(),
            final(self).tokens == old(self).tokens,
            match p_block(old(self).toks(), old(self).pos as int, old(self).depth as int) {
                Ok((x, q)) => (r matches Ok(v) && stmts_view(v@) == x && final(self).pos == q
                    && final(self).depth == old(self).depth),
                Err(err) => (r matches Err(e) && error_view(e) == err),
            },
            r is Ok ==> final(self).pos > old(self).pos,
        decreases old(self).tokens.len() - old(self).pos, 62int,
    {
        let ghost s = self.toks();
        let ghost d0 = self.depth as int;
        self.expect(Tok::LBrace, "'{'")?;
        self.enter()?;
        let ghost p1 = self.pos as int;
        let ghost d1 = self.depth as int;
        let ghost target = p_block_rest(s, p1, d1, Seq::empty());
        let mut stmts: Vec<Stmt> = Vec::new();
        proof {
            assert(stmts_view(stmts@) =~= Seq::<StmtV>::empty());
            assert(expect(s, old(self).pos as int, Tok::LBrace, "'{'"@) == Ok::<int, PErr>(p1));
            assert(enter(s, p1, d0) == Ok::<int, PErr>(d1));
            reveal_with_fuel(p_block, 2);
            match target {
                Ok((b, q)) => {
                    assert(p_block(s, old(self).pos as int, d0) == Ok::<(Seq<StmtV>, int), PErr>((b, q + 1)));
                },
                Err(e) => {
                    assert(p_block(s, old(self).pos as int, d0) == Err::<(Seq<StmtV>, int), PErr>(e));
                },
            }
        }
        loop
            invariant
                self.wf(),
                self.tokens == old(self).tokens,
                self.toks() == s,
                s == old(self).toks(),
                self.depth == d1,
                old(self).pos < p1 <= self.pos,
                d1 == old(self).depth + 1,
                p_block(s, old(self).pos as int, old(self).depth as int) == match target {
                    Ok((b, q)) => Ok::<(Seq<StmtV>, int), PErr>((b, q + 1)),
                    Err(e) => Err(e),
                },
                target == p_block_rest(s, p1, d1, Seq::empty()),
                p_block_rest(s, self.pos as int, d1, stmts_view(stmts@)) == target,
            decreases self.tokens.len() - self.pos,
        {
            let ghost pc = self.pos as int;
            let ghost acc = stmts_view(stmts@);
            if self.at_sym(&Tok::RBrace) {
                self.bump();
                self.depth -= 1;
                proof {
                    reveal(p_block_rest);
                    assert(p_block_rest(s, pc, d1, acc) == Ok::<(Seq<StmtV>, int), PErr>((acc, pc)));
                }
                return Ok(stmts);
            }
            if self.at_sym(&Tok::Eof) {
                proof {
                    reveal(p_block_rest);
                    assert(p_block_rest(s, pc, d1, acc) == Err::<(Seq<StmtV>, int), PErr>(
                        ("unterminated block, expected '}'"@, line_of(s, pc))));
                }
                return Err(self.err_here("unterminated block, expected '}'"));
            }
            let st = match self.statement() {
                Ok(st) => st,
                Err(e) => {
                    proof {
                        reveal(p_block_rest);
                        assert(p_block_rest(s, pc, d1, acc) == Err::<(Seq<StmtV>, int), PErr>(p_statement(s, pc, d1)->Err_0));
                    }
                    return Err(e);
                },
            };
            proof {
                lemma_stmts_view_push(stmts@, st);
                reveal(p_block_rest);
                assert(p_block_rest(s, pc, d1, acc) == p_block_rest(s, self.pos as int, d1, acc.push(stmt_view(st))));
            }
            stmts.push(st);
        }
    }

    #[verifier::spinoff_prover]
    #[verifier::rlimit(40)]
    fn statement(&mut self) -> (r: Result<Stmt, SyntaxError>)
        requires
            old(self).wf(),
        ensures
            final(self).wf(),
            final(self).tokens == old(self).tokens,
            match p_statement(old(self).toks(), old(self).pos as int, old(self).depth as int) {
                Ok((x, q)) => (r matches Ok(v) && stmt_view(v) == x && final(self).pos == q
                    && final(self).depth == old(self).depth),
                Err(err) => (r matches Err(e) && error_view(e) == err),
            },
            r is Ok ==> final(self).pos > old(self).pos,
        decreases old(self).tokens.len() - old(self).pos, 60int,
    {
        let ghost s = self.toks();
        proof {
            reveal(p_statement);
        }
        let line = self.line();
        if self.at_sym(&Tok::Var) {
            self.bump();
            let name = self.expect_ident("variable name")?;
            if self.at_sym(&Tok::LBracket) {
                self.bump();
                let size = match &self.tokens[self.pos].tok {
                    Tok::Num(n) => n.clone(),
                    _ => {
                        return Err(self.err_expected("array size"));
                    },
                };
                self.bump();
                self.expect(Tok::RBracket, "']'")?;
                self.expect(Tok::Semi, "';'")?;
                return Ok(Stmt::ArrayDecl { name, size, line });
            }
            let init = self.var_init()?;
            self.expect(Tok::Semi, "';'")?;
            Ok(Stmt::Var { name, init, line })
        } else if self.at_sym(&Tok::If) || self.at_sym(&Tok::While) {
            let is_while = self.at_sym(&Tok::While);
            self.bump();
            self.expect(Tok::LParen, "'('")?;
            let cond = self.expression()?;
            self.expect(Tok::RParen, "')'")?;
            let body = self.block()?;
            if is_while {
                return Ok(Stmt::While { cond, body, line });
            }
            if self.at_sym(&Tok::Else) {
                self.bump();
                let els = self.block()?;
                Ok(Stmt::If { cond, then: body, els: Some(els), line })
            } else {
                Ok(Stmt::If { cond, then: body, els: None, line })
            }
        } else if self.at_sym(&Tok::For) {
            self.bump();
            self.expect(Tok::LParen, "'('")?;
            let init = if self.at_sym(&Tok::Semi) {
                None
            } else {
                Some(Box::new(self.simple_statement()?))
            };
            self.expect(Tok::Semi, "';'")?;
            let cond = if self.at_sym(&Tok::Semi) {
                None
            } else {
                Some(self.expression()?)
            };
            self.expect(Tok::Semi, "';'")?;
            let step = if self.at_sym(&Tok::RParen) {
                Vec::new()
            } else {
                self.steps()?
            };
            self.expect(Tok::RParen, "')'")?;
            let body = self.block()?;
            proof {
                assert(stmts_view(Seq::<Stmt>::empty()) =~= Seq::<StmtV>::empty());
            }
            Ok(Stmt::For { init, cond, step, body, line })
        } else if self.at_sym(&Tok::Return) {
            self.bump();
            let value = if self.at_sym(&Tok::Semi) {
                None
            } else {
                Some(self.expression()?)
            };
            self.expect(Tok::Semi, "';'")?;
            Ok(Stmt::Return { value, line })
        } else if self.at_sym(&Tok::Break) || self.at_sym(&Tok::Continue) {
            let is_break = self.at_sym(&Tok::Break);
            self.bump();
            self.expect(Tok::Semi, "';'")?;
            if is_break {
                Ok(Stmt::Break { line })
            } else {
                Ok(Stmt::Continue { line })
            }
        } else {
            let st = self.simple_statement()?;
            self.expect(Tok::Semi, "';'")?;
            Ok(st)
        }
    }

    /// The comma-separated step clauses of a `for`.
    fn steps(&mut self) -> (r: Result<Vec<Stmt>, SyntaxError>)
        requires
            old(self).wf(),
        ensures
            final(self).wf(),
            final(self).tokens == old(self).tokens,
            match p_steps(old(self).toks(), old(self).pos as int, old(self).depth as int, Seq::empty()) {
                Ok((x, q)) => (r matches Ok(v) && stmts_view(v@) == x && final(self).pos == q
                    && final(self).depth == old(self).depth),
                Err(err) => (r matches Err(e) && error_view(e) == err),
            },
            r is Ok ==> final(self).pos > old(self).pos,
    {
        let ghost s = self.toks();
        let ghost p0 = self.pos as int;
        let ghost d = self.depth as int;
        let ghost target = p_steps(s, p0, d, Seq::empty());
        let mut out: Vec<Stmt> = Vec::new();
        proof {
            assert(stmts_view(out@) =~= Seq::<StmtV>::empty());
        }
        loop
            invariant
                self.wf(),
                self.tokens == old(self).tokens,
                self.toks() == s,
                self.depth == d,
                p0 <= self.pos,
                p0 == old(self).pos,
                d == old(self).depth,
                s == old(self).toks(),
                target == p_steps(s, p0, d, Seq::empty()),
                p_steps(s, self.pos as int, d, stmts_view(out@)) == target,
                out.len() > 0 ==> p0 < self.pos,
            decreases self.tokens.len() - self.pos,
        {
            let ghost pc = self.pos as int;
            let ghost acc = stmts_view(out@);
            let st = self.simple_statement()?;
            proof {
                lemma_stmts_view_push(out@, st);
            }
            out.push(st);
            if !self.at_sym(&Tok::Comma) {
                proof {
                    assert(p_steps(s, pc, d, acc) == Ok::<(Seq<StmtV>, int), PErr>((stmts_view(out@), self.pos as int)));
                }
                return Ok(out);
            }
            self.bump();
        }
    }
}

} // verus!

verus! {

impl Parser {
    fn params(&mut self) -> (r: Result<Vec<String>, SyntaxError>)
        requires
            old(self).wf(),
        ensures
            final(self).wf(),
            final(self).tokens == old(self).tokens,
            final(self).depth == old(self).depth,
            match p_params(old(self).toks(), old(self).pos as int, Seq::empty()) {
                Ok((x, q)) => (r matches Ok(v) && names_view(v@) == x && final(self).pos == q),
                Err(err) => (r matches Err(e) && error_view(e) == err),
            },
            r is Ok ==> final(self).pos > old(self).pos,
    {
        let ghost s = self.toks();
        let ghost p0 = self.pos as int;
        let ghost target = p_params(s, p0, Seq::empty());
        let mut out: Vec<String> = Vec::new();
        proof {
            assert(names_view(out@) =~= Seq::<Seq<char>>::empty());
        }
        loop
            invariant
                self.wf(),
                self.tokens == old(self).tokens,
                self.toks() == s,
                self.depth == old(self).depth,
                p0 <= self.pos,
                p0 == old(self).pos,
                s == old(self).toks(),
                target == p_params(s, p0, Seq::empty()),
                p_params(s, self.pos as int, names_view(out@)) == target,
                out.len() > 0 ==> p0 < self.pos,
            decreases self.tokens.len() - self.pos,
        {
            let ghost pc = self.pos as int;
            let ghost acc = names_view(out@);
            let n = self.expect_ident("parameter name")?;
            proof {
                lemma_names_view_push(out@, n);
            }
            out.push(n);
            if !self.at_sym(&Tok::Comma) {
                proof {
                    assert(p_params(s, pc, acc) == Ok::<(Seq<Seq<char>>, int), PErr>((names_view(out@), self.pos as int)));
                }
                return Ok(out);
            }
            self.bump();
        }
    }

    #[verifier::spinoff_prover]
    fn func_decl(&mut self) -> (r: Result<FuncDecl, SyntaxError>)
        requires
            old(self).wf(),
            old(self).depth == 0,
        ensures
            final(self).wf(),
            final(self).tokens == old(self).tokens,
            r is Ok ==> final(self).depth == old(self).depth,
            match p_func(old(self).toks(), old(self).pos as int) {
                Ok((x, q)) => (r matches Ok(v) && func_view(v) == x && final(self).pos == q),
                Err(err) => (r matches Err(e) && error_view(e) == err),
            },
            r is Ok ==> final(self).pos > old(self).pos,
    {
        let line = self.line();
        self.expect(Tok::Func, "'func'")?;
        let name = self.expect_ident("function name")?;
        self.expect(Tok::LParen, "'('")?;
        let params = if self.at_sym(&Tok::RParen) {
            Vec::new()
        } else {
            self.params()?
        };
        self.expect(Tok::RParen, "')'")?;
        let body = self.block()?;
        proof {
            assert(names_view(Seq::<String>::empty()) =~= Seq::<Seq<char>>::empty());
        }
        Ok(FuncDecl { name, params, body, line })
    }

    #[verifier::spinoff_prover]
    fn program(&mut self) -> (r: Result<Program, SyntaxError>)
        requires
            old(self).wf(),
            old(self).depth == 0,
        ensures
            match p_program(old(self).toks(), old(self).pos as int, Seq::empty()) {
                Ok(x) => (r matches Ok(v) && program_view(v) == x),
                Err(err) => (r matches Err(e) && error_view(e) == err),
            },
    {
        let ghost s = self.toks();
        let ghost p0 = self.pos as int;
        let ghost target = p_program(s, p0, Seq::empty());
        let mut funcs: Vec<FuncDecl> = Vec::new();
        proof {
            assert(program_view(Program { funcs }) =~= Seq::<FuncV>::empty());
        }
        loop
            invariant
                self.wf(),
                self.toks() == s,
                self.depth == 0,
                s == old(self).toks(),
                p0 == old(self).pos,
                target == p_program(s, p0, Seq::empty()),
                p_program(s, self.pos as int, Seq::new(funcs@.len(), |i: int| func_view(funcs@[i]))) == target,
            decreases self.tokens.len() - self.pos,
        {
            let ghost pc = self.pos as int;
            let ghost acc = Seq::new(funcs@.len(), |i: int| func_view(funcs@[i]));
            if self.at_sym(&Tok::Eof) {
                proof {
                    assert(program_view(Program { funcs }) == acc);
                }
                return Ok(Program { funcs });
            }
            let f = match self.func_decl() {
                Ok(f) => f,
                Err(e) => {
                    proof {
                        assert(p_program(s, pc, acc) == Err::<Seq<FuncV>, PErr>(p_func(s, pc)->Err_0));
                    }
                    return Err(e);
                },
            };
            proof {
                lemma_program_view_push(funcs@, f);
                assert(p_program(s, pc, acc) == p_program(s, self.pos as int, acc.push(func_view(f))));
            }
            funcs.push(f);
        }
    }
}

/// Parse a whole source text: its tokens as `spec_lex` reads them, then
/// the program as `spec_parse` reads those.
pub fn parse(source: &str) -> (r: Result<Program, SyntaxError>)
    requires
        source@.len() < u32::MAX,
    ensures
        match spec_lex(source@) {
            Err(e) => (r matches Err(err) && error_view(err) == e),
            Ok(toks) => match spec_parse(toks) {
                Ok(funcs) => (r matches Ok(p) && program_view(p) == funcs),
                Err(e) => (r matches Err(err) && error_view(err) == e),
            },
        },
{
    let tokens = lex(source)?;
    proof {
        lemma_lex_ends_with_eof(source@, 0);
    }
    let mut p = Parser { tokens, pos: 0, depth: 0 };
    p.program()
}

} // verus!

verus! {

// ---------------------------------------------------------------------------
// String literals pass through the parser unchanged

/// Every string token has at most `MAX_STRING_LEN` bytes.
pub open spec fn toks_strs_fit(s: Toks) -> bool {
    forall|i: int| 0 <= i < s.len() ==> ((#[trigger] s[i]).0 matches TokV::Str(x) ==> utf8_len(x) <= MAX_STRING_LEN)
}

proof fn lemma_pe_expression(s: Toks, p: int, d: int)
    requires
        toks_strs_fit(s),
        p_expression(s, p, d) is Ok,
    ensures
        expr_strs_fit(p_expression(s, p, d)->Ok_0.0),
    decreases s.len() - p, 40int,
{
    if let Ok(d1) = enter(s, p, d) {
        lemma_pe_logical(s, p, d1, 0);
    }
}

proof fn lemma_pe_logical(s: Toks, p: int, d: int, level: int)
    requires
        toks_strs_fit(s),
        p_logical(s, p, d, level) is Ok,
    ensures
        expr_strs_fit(p_logical(s, p, d, level)->Ok_0.0),
    decreases s.len() - p, 30 - 2 * level,
{
    if 0 <= level <= 5 {
        lemma_pe_operand(s, p, d, level);
        let (lhs, p1) = p_operand(s, p, d, level)->Ok_0;
        if p <= p1 <= s.len() {
            lemma_pe_chain(s, p1, d, level, lhs);
        }
    }
}

proof fn lemma_pe_operand(s: Toks, p: int, d: int, level: int)
    requires
        toks_strs_fit(s),
        p_operand(s, p, d, level) is Ok,
    ensures
        expr_strs_fit(p_operand(s, p, d, level)->Ok_0.0),
    decreases s.len() - p, 29 - 2 * level,
{
    if 0 <= level <= 5 {
        if level < 5 {
            lemma_pe_logical(s, p, d, level + 1);
        } else {
            lemma_pe_unary(s, p, d);
        }
    }
}

proof fn lemma_pe_chain(s: Toks, p: int, d: int, level: int, lhs: ExprV)
    requires
        toks_strs_fit(s),
        expr_strs_fit(lhs),
        p_chain(s, p, d, level, lhs) is Ok,
    ensures
        expr_strs_fit(p_chain(s, p, d, level, lhs)->Ok_0.0),
    decreases s.len() - p, 29 - 2 * level,
{
    if 0 <= level <= 5 {
        if level == 0 || level == 1 {
            let k = if level == 0 { Tok::OrOr } else { Tok::AndAnd };
            if at(s, p, k) && p < s.len() {
                if let Ok(d1) = enter(s, p + 1, d) {
                    lemma_pe_operand(s, p + 1, d1, level);
                    let (rhs, p2) = p_operand(s, p + 1, d1, level)->Ok_0;
                    if p < p2 <= s.len() {
                        lemma_pe_chain(
                            s,
                            p2,
                            d1,
                            level,
                            ExprV::Logical {
                                op: if level == 0 { LogOp::Or } else { LogOp::And },
                                lhs: Box::new(lhs),
                                rhs: Box::new(rhs),
                            },
                        );
                    }
                }
            }
        } else {
            if let Some(op) = level_op(level, peek(s, p)) {
                if p < s.len() {
                    if let Ok(d1) = enter(s, p + 1, d) {
                        lemma_pe_operand(s, p + 1, d1, level);
                        let (rhs, p2) = p_operand(s, p + 1, d1, level)->Ok_0;
                        if p < p2 <= s.len() {
                            lemma_pe_chain(
                                s,
                                p2,
                                d1,
                                level,
                                ExprV::Binary { op, lhs: Box::new(lhs), rhs: Box::new(rhs), line: line_of(s, p) },
                            );
                        }
                    }
                }
            }
        }
    }
}

proof fn lemma_pe_unary(s: Toks, p: int, d: int)
    requires
        toks_strs_fit(s),
        p_unary(s, p, d) is Ok,
    ensures
        expr_strs_fit(p_unary(s, p, d)->Ok_0.0),
    decreases s.len() - p, 10int,
{
    if (at(s, p, Tok::Minus) || at(s, p, Tok::Not)) && p < s.len() {
        if let Ok(d1) = enter(s, p + 1, d) {
            lemma_pe_unary(s, p + 1, d1);
        }
    } else {
        lemma_pe_primary(s, p, d);
    }
}

proof fn lemma_pe_primary(s: Toks, p: int, d: int)
    requires
        toks_strs_fit(s),
        p_primary(s, p, d) is Ok,
    ensures
        expr_strs_fit(p_primary(s, p, d)->Ok_0.0),
    decreases s.len() - p, 9int,
{
    if 0 <= p < s.len() {
        match peek(s, p) {
            TokV::Str(x) => {
                assert(s[p].0 == TokV::Str(x));
            },
            TokV::Ident(name) => {
                if at(s, p + 1, Tok::LParen) {
                    assert(exprs_strs_fit(Seq::<ExprV>::empty()));
                    if !at(s, p + 2, Tok::RParen) {
                        lemma_pe_args(s, p + 2, d, Seq::empty());
                    }
                } else if at(s, p + 1, Tok::LBracket) {
                    lemma_pe_expression(s, p + 2, d);
                }
            },
            TokV::Sym(k) => {
                if k == Tok::LParen {
                    lemma_pe_expression(s, p + 1, d);
                }
            },
            _ => {},
        }
    }
}

proof fn lemma_pe_args(s: Toks, p: int, d: int, acc: Seq<ExprV>)
    requires
        toks_strs_fit(s),
        exprs_strs_fit(acc),
        p_args(s, p, d, acc) is Ok,
    ensures
        exprs_strs_fit(p_args(s, p, d, acc)->Ok_0.0),
    decreases s.len() - p, 41int,
{
    lemma_pe_expression(s, p, d);
    let (x, p1) = p_expression(s, p, d)->Ok_0;
    lemma_exprs_strs_fit_push(acc, x);
    if at(s, p1, Tok::Comma) && p <= p1 < s.len() {
        lemma_pe_args(s, p1 + 1, d, acc.push(x));
    }
}

proof fn lemma_ps_var_init(s: Toks, p: int, d: int)
    requires
        toks_strs_fit(s),
        p_var_init(s, p, d) is Ok,
    ensures
        opt_strs_fit(p_var_init(s, p, d)->Ok_0.0),
{
    if at(s, p, Tok::Assign) && p < s.len() {
        lemma_pe_expression(s, p + 1, d);
    }
}

proof fn lemma_ps_simple(s: Toks, p: int, d: int)
    requires
        toks_strs_fit(s),
        p_simple(s, p, d) is Ok,
    ensures
        stmt_strs_fit(p_simple(s, p, d)->Ok_0.0),
{
    if at(s, p, Tok::Var) && p < s.len() {
        if let Ok((name, p1)) = expect_ident(s, p + 1, "variable name"@) {
            lemma_ps_var_init(s, p1, d);
        }
    } else if peek(s, p) is Ident && assign_op(peek(s, p + 1)) is Some && p + 1 < s.len() {
        lemma_pe_expression(s, p + 2, d);
    } else {
        lemma_pe_expression(s, p, d);
        let (x, p1) = p_expression(s, p, d)->Ok_0;
        if x is Index && assign_op(peek(s, p1)) is Some && 0 <= p1 < s.len() {
            lemma_pe_expression(s, p1 + 1, d);
        }
    }
}

proof fn lemma_ps_steps(s: Toks, p: int, d: int, acc: Seq<StmtV>)
    requires
        toks_strs_fit(s),
        stmts_strs_fit(acc),
        p_steps(s, p, d, acc) is Ok,
    ensures
        stmts_strs_fit(p_steps(s, p, d, acc)->Ok_0.0),
    decreases s.len() - p,
{
    lemma_ps_simple(s, p, d);
    let (st, p1) = p_simple(s, p, d)->Ok_0;
    lemma_stmts_strs_fit_push(acc, st);
    if at(s, p1, Tok::Comma) && p <= p1 < s.len() {
        lemma_ps_steps(s, p1 + 1, d, acc.push(st));
    }
}

proof fn lemma_ps_var_stmt(s: Toks, p: int, d: int)
    requires
        toks_strs_fit(s),
        p_var_stmt(s, p, d) is Ok,
    ensures
        stmt_strs_fit(p_var_stmt(s, p, d)->Ok_0.0),
{
    if let Ok((name, p1)) = expect_ident(s, p + 1, "variable name"@) {
        if !at(s, p1, Tok::LBracket) {
            lemma_ps_var_init(s, p1, d);
        }
    }
}

proof fn lemma_ps_for_cond(s: Toks, p: int, d: int)
    requires
        toks_strs_fit(s),
        p_for_cond(s, p, d) is Ok,
    ensures
        opt_strs_fit(p_for_cond(s, p, d)->Ok_0.0),
{
    if !at(s, p, Tok::Semi) {
        lemma_pe_expression(s, p, d);
    }
}

proof fn lemma_ps_statement(s: Toks, p: int, d: int)
    requires
        toks_strs_fit(s),
        p_statement(s, p, d) is Ok,
    ensures
        stmt_strs_fit(p_statement(s, p, d)->Ok_0.0),
    decreases s.len() - p, 60int,
{
    reveal(p_statement);
    if 0 <= p < s.len() {
        if at(s, p, Tok::Var) {
            lemma_ps_var_stmt(s, p, d);
        } else if at(s, p, Tok::If) || at(s, p, Tok::While) {
            lemma_ps_cond_stmt(s, p, d);
        } else if at(s, p, Tok::For) {
            lemma_ps_for_stmt(s, p, d);
        } else if at(s, p, Tok::Return) {
            lemma_ps_for_cond(s, p + 1, d);
        } else if at(s, p, Tok::Break) || at(s, p, Tok::Continue) {
        } else {
            lemma_ps_simple(s, p, d);
        }
    }
}

proof fn lemma_ps_cond_stmt(s: Toks, p: int, d: int)
    requires
        toks_strs_fit(s),
        p_cond_stmt(s, p, d) is Ok,
    ensures
        stmt_strs_fit(p_cond_stmt(s, p, d)->Ok_0.0),
    decreases s.len() - p, 59int,
{
    if let Ok(p1) = expect(s, p + 1, Tok::LParen, "'('"@) {
        lemma_pe_expression(s, p1, d);
        let (cond, p2) = p_expression(s, p1, d)->Ok_0;
        if let Ok(p3) = expect(s, p2, Tok::RParen, "')'"@) {
            if p < p3 <= s.len() {
                lemma_ps_block(s, p3, d);
                let (body, p4) = p_block(s, p3, d)->Ok_0;
                if !at(s, p, Tok::While) && at(s, p4, Tok::Else) && p < p4 < s.len() {
                    lemma_ps_block(s, p4 + 1, d);
                }
            }
        }
    }
}

#[verifier::spinoff_prover]
#[verifier::rlimit(50)]
proof fn lemma_ps_for_stmt(s: Toks, p: int, d: int)
    requires
        toks_strs_fit(s),
        p_for_stmt(s, p, d) is Ok,
    ensures
        stmt_strs_fit(p_for_stmt(s, p, d)->Ok_0.0),
    decreases s.len() - p, 59int,
{
    assert(stmts_strs_fit(Seq::<StmtV>::empty()));
    if let Ok(p1) = expect(s, p + 1, Tok::LParen, "'('"@) {
        if !at(s, p1, Tok::Semi) {
            lemma_ps_simple(s, p1, d);
        }
        let (init, p2) = p_for_init(s, p1, d)->Ok_0;
        let init_ok = match init {
            Some(b) => stmt_strs_fit(*b),
            None => true,
        };
        assert(init_ok);
        if let Ok(p3) = expect(s, p2, Tok::Semi, "';'"@) {
            lemma_ps_for_cond(s, p3, d);
            let (cond, p4) = p_for_cond(s, p3, d)->Ok_0;
            if let Ok(p5) = expect(s, p4, Tok::Semi, "';'"@) {
                if !at(s, p5, Tok::RParen) {
                    lemma_ps_steps(s, p5, d, Seq::empty());
                }
                let (step, p6) = p_for_steps(s, p5, d)->Ok_0;
                assert(stmts_strs_fit(step));
                if let Ok(p7) = expect(s, p6, Tok::RParen, "')'"@) {
                    if p < p7 <= s.len() {
                        lemma_ps_block(s, p7, d);
                        let (body, p8) = p_block(s, p7, d)->Ok_0;
                        assert(stmt_strs_fit(StmtV::For { init, cond, step, body, line: line_of(s, p) }));
                    }
                }
            }
        }
    }
}

proof fn lemma_ps_block(s: Toks, p: int, d: int)
    requires
        toks_strs_fit(s),
        p_block(s, p, d) is Ok,
    ensures
        stmts_strs_fit(p_block(s, p, d)->Ok_0.0),
    decreases s.len() - p, 62int,
{
    if let Ok(p1) = expect(s, p, Tok::LBrace, "'{'"@) {
        if let Ok(d1) = enter(s, p1, d) {
            lemma_ps_block_rest(s, p1, d1, Seq::empty());
        }
    }
}

proof fn lemma_ps_block_rest(s: Toks, p: int, d: int, acc: Seq<StmtV>)
    requires
        toks_strs_fit(s),
        stmts_strs_fit(acc),
        p_block_rest(s, p, d, acc) is Ok,
    ensures
        stmts_strs_fit(p_block_rest(s, p, d, acc)->Ok_0.0),
    decreases s.len() - p, 61int,
{
    reveal(p_statement);
    if !at(s, p, Tok::RBrace) && !at(s, p, Tok::Eof) {
        lemma_ps_statement(s, p, d);
        let (st, p1) = p_statement(s, p, d)->Ok_0;
        lemma_stmts_strs_fit_push(acc, st);
        if p < p1 <= s.len() {
            lemma_ps_block_rest(s, p1, d, acc.push(st));
        }
    }
}

proof fn lemma_pp_program(s: Toks, p: int, acc: Seq<FuncV>)
    requires
        toks_strs_fit(s),
        forall|i: int| 0 <= i < acc.len() ==> stmts_strs_fit(#[trigger] acc[i].body),
        p_program(s, p, acc) is Ok,
    ensures
        forall|i: int| 0 <= i < p_program(s, p, acc)->Ok_0.len() ==> stmts_strs_fit(#[trigger] p_program(s, p, acc)->Ok_0[i].body),
    decreases s.len() - p,
{
    if !at(s, p, Tok::Eof) {
        let (f, p1) = p_func(s, p)->Ok_0;
        // The body of `f` comes from `p_block`.
        if let Ok(q1) = expect(s, p, Tok::Func, "'func'"@) {
            if let Ok((name, q2)) = expect_ident(s, q1, "function name"@) {
                if let Ok(q3) = expect(s, q2, Tok::LParen, "'('"@) {
                    let ps = if at(s, q3, Tok::RParen) {
                        Ok::<(Seq<Seq<char>>, int), PErr>((Seq::<Seq<char>>::empty(), q3))
                    } else {
                        p_params(s, q3, Seq::empty())
                    };
                    if let Ok((params, q4)) = ps {
                        if let Ok(q5) = expect(s, q4, Tok::RParen, "')'"@) {
                            lemma_ps_block(s, q5, 0);
                        }
                    }
                }
            }
        }
        if p < p1 <= s.len() {
            let acc2 = acc.push(f);
            assert forall|i: int| 0 <= i < acc2.len() implies stmts_strs_fit(#[trigger] acc2[i].body) by {
                if i < acc.len() {
                    assert(acc2[i] == acc[i]);
                }
            }
            lemma_pp_program(s, p1, acc2);
        }
    }
}

/// The parser keeps string literals as the lexer read them: when every
/// string token fits `MAX_STRING_LEN` bytes, so does every string literal
/// of every function of the parsed program.
pub proof fn lemma_parse_strings_fit(s: Toks)
    requires
        toks_strs_fit(s),
        spec_parse(s) is Ok,
    ensures
        forall|i: int| 0 <= i < spec_parse(s)->Ok_0.len() ==> stmts_strs_fit(#[trigger] spec_parse(s)->Ok_0[i].body),
{
    lemma_pp_program(s, 0, Seq::empty());
}

} // verus!

verus! {

// ---------------------------------------------------------------------------
// Blocks nest at most `MAX_NESTING` deep

proof fn lemma_pn_simple(s: Toks, p: int, d: int)
    requires
        p_simple(s, p, d) is Ok,
    ensures
        stmt_depth(p_simple(s, p, d)->Ok_0.0) == 0,
{
}

proof fn lemma_pn_steps(s: Toks, p: int, d: int, acc: Seq<StmtV>)
    requires
        stmts_depth(acc) == 0,
        p_steps(s, p, d, acc) is Ok,
    ensures
        stmts_depth(p_steps(s, p, d, acc)->Ok_0.0) == 0,
    decreases s.len() - p,
{
    lemma_pn_simple(s, p, d);
    let (st, p1) = p_simple(s, p, d)->Ok_0;
    lemma_stmts_depth_push(acc, st);
    if at(s, p1, Tok::Comma) && p <= p1 < s.len() {
        lemma_pn_steps(s, p1 + 1, d, acc.push(st));
    }
}

proof fn lemma_pn_flat_stmt(s: Toks, p: int, d: int)
    ensures
        p_var_stmt(s, p, d) is Ok ==> stmt_depth(p_var_stmt(s, p, d)->Ok_0.0) == 0,
        p_return_stmt(s, p, d) is Ok ==> stmt_depth(p_return_stmt(s, p, d)->Ok_0.0) == 0,
{
}

#[verifier::spinoff_prover]
proof fn lemma_pn_statement(s: Toks, p: int, d: int)
    requires
        d <= MAX_NESTING,
        p_statement(s, p, d) is Ok,
    ensures
        d + stmt_depth(p_statement(s, p, d)->Ok_0.0) <= MAX_NESTING,
    decreases s.len() - p, 60int,
{
    let r = p_statement(s, p, d);
    assert(0 <= p < s.len()) by {
        reveal(p_statement);
    }
    if at(s, p, Tok::Var) {
        assert(r == p_var_stmt(s, p, d)) by {
            reveal(p_statement);
        }
        lemma_pn_flat_stmt(s, p, d);
    } else if at(s, p, Tok::If) || at(s, p, Tok::While) {
        assert(r == p_cond_stmt(s, p, d)) by {
            reveal(p_statement);
        }
        lemma_pn_cond_stmt(s, p, d);
    } else if at(s, p, Tok::For) {
        assert(r == p_for_stmt(s, p, d)) by {
            reveal(p_statement);
        }
        lemma_pn_for_stmt(s, p, d);
    } else if at(s, p, Tok::Return) {
        assert(r == p_return_stmt(s, p, d)) by {
            reveal(p_statement);
        }
        lemma_pn_flat_stmt(s, p, d);
    } else if at(s, p, Tok::Break) || at(s, p, Tok::Continue) {
        assert(r->Ok_0.0 is Break || r->Ok_0.0 is Continue) by {
            reveal(p_statement);
        }
    } else {
        assert(p_simple(s, p, d) is Ok && r->Ok_0.0 == p_simple(s, p, d)->Ok_0.0) by {
            reveal(p_statement);
        }
        lemma_pn_simple(s, p, d);
    }
}

proof fn lemma_pn_cond_stmt(s: Toks, p: int, d: int)
    requires
        p_cond_stmt(s, p, d) is Ok,
    ensures
        d + stmt_depth(p_cond_stmt(s, p, d)->Ok_0.0) <= MAX_NESTING,
    decreases s.len() - p, 59int,
{
    if let Ok(p1) = expect(s, p + 1, Tok::LParen, "'('"@) {
        let (cond, p2) = p_expression(s, p1, d)->Ok_0;
        if let Ok(p3) = expect(s, p2, Tok::RParen, "')'"@) {
            if p < p3 <= s.len() {
                lemma_pn_block(s, p3, d);
                let (body, p4) = p_block(s, p3, d)->Ok_0;
                if !at(s, p, Tok::While) && at(s, p4, Tok::Else) && p < p4 < s.len() {
                    lemma_pn_block(s, p4 + 1, d);
                }
            }
        }
    }
}

#[verifier::spinoff_prover]
#[verifier::rlimit(50)]
proof fn lemma_pn_for_stmt(s: Toks, p: int, d: int)
    requires
        p_for_stmt(s, p, d) is Ok,
    ensures
        d + stmt_depth(p_for_stmt(s, p, d)->Ok_0.0) <= MAX_NESTING,
    decreases s.len() - p, 59int,
{
    assert(stmts_depth(Seq::<StmtV>::empty()) == 0);
    if let Ok(p1) = expect(s, p + 1, Tok::LParen, "'('"@) {
        if !at(s, p1, Tok::Semi) {
            lemma_pn_simple(s, p1, d);
        }
        let (init, p2) = p_for_init(s, p1, d)->Ok_0;
        let i = match init {
            Some(b) => stmt_depth(*b),
            None => 0,
        };
        assert(i == 0);
        if let Ok(p3) = expect(s, p2, Tok::Semi, "';'"@) {
            let (cond, p4) = p_for_cond(s, p3, d)->Ok_0;
            if let Ok(p5) = expect(s, p4, Tok::Semi, "';'"@) {
                if !at(s, p5, Tok::RParen) {
                    lemma_pn_steps(s, p5, d, Seq::empty());
                }
                let (step, p6) = p_for_steps(s, p5, d)->Ok_0;
                assert(stmts_depth(step) == 0);
                if let Ok(p7) = expect(s, p6, Tok::RParen, "')'"@) {
                    if p < p7 <= s.len() {
                        lemma_pn_block(s, p7, d);
                        let (body, p8) = p_block(s, p7, d)->Ok_0;
                        assert(stmt_depth(StmtV::For { init, cond, step, body, line: line_of(s, p) }) == 1 + stmts_depth(body));
                    }
                }
            }
        }
    }
}

proof fn lemma_pn_block(s: Toks, p: int, d: int)
    requires
        p_block(s, p, d) is Ok,
    ensures
        d + 1 + stmts_depth(p_block(s, p, d)->Ok_0.0) <= MAX_NESTING,
    decreases s.len() - p, 62int,
{
    if let Ok(p1) = expect(s, p, Tok::LBrace, "'{'"@) {
        if let Ok(d1) = enter(s, p1, d) {
            assert(stmts_depth(Seq::<StmtV>::empty()) == 0);
            lemma_pn_block_rest(s, p1, d1, Seq::empty());
        }
    }
}

proof fn lemma_pn_block_rest(s: Toks, p: int, d: int, acc: Seq<StmtV>)
    requires
        d + stmts_depth(acc) <= MAX_NESTING,
        p_block_rest(s, p, d, acc) is Ok,
    ensures
        d + stmts_depth(p_block_rest(s, p, d, acc)->Ok_0.0) <= MAX_NESTING,
    decreases s.len() - p, 61int,
{
    reveal(p_statement);
    if !at(s, p, Tok::RBrace) && !at(s, p, Tok::Eof) {
        lemma_pn_statement(s, p, d);
        let (st, p1) = p_statement(s, p, d)->Ok_0;
        lemma_stmts_depth_push(acc, st);
        if p < p1 <= s.len() {
            lemma_pn_block_rest(s, p1, d, acc.push(st));
        }
    }
}

proof fn lemma_pn_program(s: Toks, p: int, acc: Seq<FuncV>)
    requires
        forall|i: int| 0 <= i < acc.len() ==> 1 + stmts_depth(#[trigger] acc[i].body) <= MAX_NESTING,
        p_program(s, p, acc) is Ok,
    ensures
        forall|i: int| 0 <= i < p_program(s, p, acc)->Ok_0.len() ==> 1 + stmts_depth(
            #[trigger] p_program(s, p, acc)->Ok_0[i].body,
        ) <= MAX_NESTING,
    decreases s.len() - p,
{
    if !at(s, p, Tok::Eof) {
        let (f, p1) = p_func(s, p)->Ok_0;
        if let Ok(q1) = expect(s, p, Tok::Func, "'func'"@) {
            if let Ok((name, q2)) = expect_ident(s, q1, "function name"@) {
                if let Ok(q3) = expect(s, q2, Tok::LParen, "'('"@) {
                    let ps = if at(s, q3, Tok::RParen) {
                        Ok::<(Seq<Seq<char>>, int), PErr>((Seq::<Seq<char>>::empty(), q3))
                    } else {
                        p_params(s, q3, Seq::empty())
                    };
                    if let Ok((params, q4)) = ps {
                        if let Ok(q5) = expect(s, q4, Tok::RParen, "')'"@) {
                            lemma_pn_block(s, q5, 0);
                        }
                    }
                }
            }
        }
        if p < p1 <= s.len() {
            let acc2 = acc.push(f);
            assert forall|i: int| 0 <= i < acc2.len() implies 1 + stmts_depth(#[trigger] acc2[i].body)
                <= MAX_NESTING by {
                if i < acc.len() {
                    assert(acc2[i] == acc[i]);
                }
            }
            lemma_pn_program(s, p1, acc2);
        }
    }
}

/// Blocks nest at most `MAX_NESTING` (100) deep: counting a function's body
/// as the first level, no statement of a parsed program sits inside more
/// than 100 nested blocks.
pub proof fn lemma_parse_nesting(s: Toks)
    requires
        spec_parse(s) is Ok,
    ensures
        forall|i: int| 0 <= i < spec_parse(s)->Ok_0.len() ==> 1 + stmts_depth(#[trigger] spec_parse(s)->Ok_0[i].body)
            <= MAX_NESTING,
{
    lemma_pn_program(s, 0, Seq::empty());
}

} // verus!

verus! {

// ---------------------------------------------------------------------------
// Operator precedence

/// How tightly a binary operator binds, as the language defines it:
/// `* / %` tightest, then `+ -`, then `< <= > >=`, then `== !=`.
pub open spec fn bin_prec(op: BinOp) -> nat {
    match op {
        BinOp::Mul | BinOp::Div | BinOp::Mod => 5,
        BinOp::Add | BinOp::Sub => 4,
        BinOp::Lt | BinOp::Le | BinOp::Gt | BinOp::Ge => 3,
        BinOp::Eq | BinOp::Ne => 2,
    }
}

/// How tightly an expression's top operator binds: `&&` above `||`, and
/// both below every binary operator; anything else is an operand (6).
pub open spec fn expr_prec(e: ExprV) -> nat {
    match e {
        ExprV::Binary { op, .. } => bin_prec(op),
        ExprV::Logical { op, .. } => if op == LogOp::And { 1 } else { 0 },
        _ => 6,
    }
}

/// Every operator node has operands that bind at least as tightly (left)
/// or more tightly (right, as operators group to the left) than it does:
/// the tree that precedence and left-to-right grouping give.
pub open spec fn prec_ordered(e: ExprV) -> bool
    decreases e,
{
    match e {
        ExprV::Binary { op, lhs, rhs, .. } => expr_prec(*lhs) >= bin_prec(op) && expr_prec(*rhs) > bin_prec(op)
            && prec_ordered(*lhs) && prec_ordered(*rhs),
        ExprV::Logical { op, lhs, rhs } => expr_prec(*lhs) >= expr_prec(e) && expr_prec(*rhs) > expr_prec(e)
            && prec_ordered(*lhs) && prec_ordered(*rhs),
        ExprV::Unary { expr, .. } => expr_prec(*expr) == 6 && prec_ordered(*expr),
        _ => true,
    }
}

/// No token groups a subexpression: no `(` and no `[`.
pub open spec fn no_groups(s: Toks) -> bool {
    forall|i: int| 0 <= i < s.len() ==> (#[trigger] s[i]).0 != TokV::Sym(Tok::LParen) && s[i].0 != TokV::Sym(
        Tok::LBracket,
    )
}

proof fn lemma_level_prec(level: int, t: TokV)
    requires
        2 <= level <= 5,
        level_op(level, t) is Some,
    ensures
        bin_prec(level_op(level, t)->Some_0) == level,
{
}

proof fn lemma_prec_primary(s: Toks, p: int, d: int)
    requires
        no_groups(s),
        p_primary(s, p, d) is Ok,
    ensures
        prec_ordered(p_primary(s, p, d)->Ok_0.0),
        expr_prec(p_primary(s, p, d)->Ok_0.0) == 6,
{
    if 0 <= p < s.len() {
        if peek(s, p) is Ident {
            if at(s, p + 1, Tok::LParen) || at(s, p + 1, Tok::LBracket) {
                assert(s[p + 1].0 != TokV::Sym(Tok::LParen) && s[p + 1].0 != TokV::Sym(Tok::LBracket));
            }
        }
        if at(s, p, Tok::LParen) {
            assert(s[p].0 != TokV::Sym(Tok::LParen));
        }
    }
}

proof fn lemma_prec_unary(s: Toks, p: int, d: int)
    requires
        no_groups(s),
        p_unary(s, p, d) is Ok,
    ensures
        prec_ordered(p_unary(s, p, d)->Ok_0.0),
        expr_prec(p_unary(s, p, d)->Ok_0.0) == 6,
    decreases s.len() - p, 10int,
{
    if (at(s, p, Tok::Minus) || at(s, p, Tok::Not)) && p < s.len() {
        let d1 = enter(s, p + 1, d)->Ok_0;
        lemma_prec_unary(s, p + 1, d1);
    } else {
        lemma_prec_primary(s, p, d);
    }
}

proof fn lemma_prec_logical(s: Toks, p: int, d: int, level: int)
    requires
        no_groups(s),
        p_logical(s, p, d, level) is Ok,
    ensures
        prec_ordered(p_logical(s, p, d, level)->Ok_0.0),
        expr_prec(p_logical(s, p, d, level)->Ok_0.0) >= level,
    decreases s.len() - p, 30 - 2 * level,
{
    lemma_prec_operand(s, p, d, level);
    let (lhs, p1) = p_operand(s, p, d, level)->Ok_0;
    lemma_prec_chain(s, p1, d, level, lhs);
}

proof fn lemma_prec_operand(s: Toks, p: int, d: int, level: int)
    requires
        no_groups(s),
        p_operand(s, p, d, level) is Ok,
    ensures
        prec_ordered(p_operand(s, p, d, level)->Ok_0.0),
        expr_prec(p_operand(s, p, d, level)->Ok_0.0) >= level + 1,
    decreases s.len() - p, 29 - 2 * level,
{
    if level < 5 {
        lemma_prec_logical(s, p, d, level + 1);
    } else {
        lemma_prec_unary(s, p, d);
    }
}

proof fn lemma_prec_chain(s: Toks, p: int, d: int, level: int, lhs: ExprV)
    requires
        no_groups(s),
        0 <= level <= 5,
        prec_ordered(lhs),
        expr_prec(lhs) >= level,
        p <= s.len(),
        p_chain(s, p, d, level, lhs) is Ok,
    ensures
        prec_ordered(p_chain(s, p, d, level, lhs)->Ok_0.0),
        expr_prec(p_chain(s, p, d, level, lhs)->Ok_0.0) >= level,
    decreases s.len() - p, 29 - 2 * level,
{
    if level == 0 || level == 1 {
        let k = if level == 0 { Tok::OrOr } else { Tok::AndAnd };
        if at(s, p, k) && p < s.len() {
            let d1 = enter(s, p + 1, d)->Ok_0;
            lemma_prec_operand(s, p + 1, d1, level);
            let (rhs, p2) = p_operand(s, p + 1, d1, level)->Ok_0;
            let node = ExprV::Logical {
                op: if level == 0 { LogOp::Or } else { LogOp::And },
                lhs: Box::new(lhs),
                rhs: Box::new(rhs),
            };
            assert(expr_prec(node) == level);
            assert(prec_ordered(node));
            lemma_prec_chain(s, p2, d1, level, node);
        }
    } else {
        if level_op(level, peek(s, p)) is Some && p < s.len() {
            let op = level_op(level, peek(s, p))->Some_0;
            lemma_level_prec(level, peek(s, p));
            let d1 = enter(s, p + 1, d)->Ok_0;
            lemma_prec_operand(s, p + 1, d1, level);
            let (rhs, p2) = p_operand(s, p + 1, d1, level)->Ok_0;
            let node = ExprV::Binary { op, lhs: Box::new(lhs), rhs: Box::new(rhs), line: line_of(s, p) };
            assert(prec_ordered(node));
            lemma_prec_chain(s, p2, d1, level, node);
        }
    }
}

/// Operators bind by precedence and group to the left: in an expression
/// with no parentheses or brackets, every operand of an operator binds at
/// least as tightly as the operator (more tightly on the right). So
/// `x + y * z` is `x + (y * z)`: the operand of a `* / %` node is never a
/// `+ -` node unless parentheses make it one.
pub proof fn lemma_parse_precedence(s: Toks, p: int, d: int)
    requires
        no_groups(s),
        p_expression(s, p, d) is Ok,
    ensures
        prec_ordered(p_expression(s, p, d)->Ok_0.0),
{
    let d1 = enter(s, p, d)->Ok_0;
    lemma_prec_logical(s, p, d1, 0);
}

} // verus!
