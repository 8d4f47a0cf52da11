//! robolang, the sandboxed robot-AI language of the tank game.
//!
//! Pipeline: source -> lexer -> parser -> AST -> bytecode compiler. The
//! virtual machine that runs the bytecode relies on `compile::program_wf`,
//! which every compiled program meets.
use vstd::prelude::*;
use std::rc::Rc;
use crate::compile::{compile_program, consts_fit, err_view, lemma_compile_strings_fit, program_wf, prog_view, s_compile, CErr, CompileError, Program, ProgV};
use crate::lexer::{lemma_string_tokens_fit, spec_lex};
use crate::parser::{lemma_parse_strings_fit, parse, spec_parse, toks_strs_fit};
use crate::text::{chars_of, decimal, exec_char_utf8_len, exec_is_whitespace, is_whitespace, parse_uint, parse_uint_exec, push_decimal, push_str, string_from_chars, utf8_len};

pub mod text;
pub mod rng;
pub mod event;
pub mod host;
pub mod replay;
pub mod lexer;
pub mod ast;
pub mod parser;
pub mod compile;
pub mod battle;
pub mod cli;

verus! {

/// Current language version. A shared robot may declare the version it was
/// written for on its first non-blank line: `// robolang 1`. Programs that
/// declare a newer version are rejected, so incompatible bots fail loudly
/// instead of misbehaving.
pub const LANGUAGE_VERSION: u32 = 1;

/// Largest accepted source text, in bytes.
pub const MAX_SOURCE_BYTES: usize = 262144;

/// First index from `p` that is not whitespace (or the end).
pub open spec fn skip_ws(s: Seq<char>, p: int, e: int) -> int
    decreases e - p,
{
    if p >= e {
        e
    } else if is_whitespace(s[p]) {
        skip_ws(s, p + 1, e)
    } else {
        p
    }
}

/// First index from `p` that is whitespace (or `e`).
pub open spec fn word_end(s: Seq<char>, p: int, e: int) -> int
    decreases e - p,
{
    if p >= e {
        e
    } else if is_whitespace(s[p]) {
        p
    } else {
        word_end(s, p + 1, e)
    }
}

/// First index from `p` holding a newline (or the end).
pub open spec fn line_end(s: Seq<char>, p: int) -> int
    decreases s.len() - p,
{
    if p >= s.len() {
        s.len() as int
    } else if s[p] == '\n' {
        p
    } else {
        line_end(s, p + 1)
    }
}

/// The version a `// robolang N` pragma declares: the first non-blank
/// line, read as whitespace-separated words, is `//`, `robolang` and a
/// number.
pub open spec fn pragma_version(s: Seq<char>) -> Option<nat> {
    let n = s.len() as int;
    let p1 = skip_ws(s, 0, n);
    let e = line_end(s, p1);
    let q1 = word_end(s, p1, e);
    let p2 = skip_ws(s, q1, e);
    let q2 = word_end(s, p2, e);
    let p3 = skip_ws(s, q2, e);
    let q3 = word_end(s, p3, e);
    if p1 < n && s.subrange(p1, q1) == "//"@ && p2 < e && s.subrange(p2, q2) == "robolang"@ && p3 < e {
        parse_uint(s.subrange(p3, q3), u32::MAX as nat)
    } else {
        None
    }
}

pub open spec fn version_msg(v: nat) -> Seq<char> {
    "robot requires language version "@ + decimal(v) + ", this engine speaks version 1"@
}

/// The version check: an error on line 1 when the pragma asks for a newer
/// language.
pub open spec fn spec_check_version(s: Seq<char>) -> Result<(), CErr> {
    match pragma_version(s) {
        Some(v) => if v > LANGUAGE_VERSION {
            Err((version_msg(v), 1))
        } else {
            Ok(())
        },
        None => Ok(()),
    }
}

/// The whole pipeline on a source text: size limit, version check,
/// lexing, parsing, compiling; the first error met.
pub open spec fn spec_compile(s: Seq<char>) -> Result<ProgV, CErr> {
    if utf8_len(s) > MAX_SOURCE_BYTES {
        Err(("source too large (max 262144 bytes)"@, 0))
    } else {
        match spec_check_version(s) {
            Err(e) => Err(e),
            Ok(()) => match spec_lex(s) {
                Err(e) => Err(e),
                Ok(toks) => match spec_parse(toks) {
                    Err(e) => Err(e),
                    Ok(fs) => s_compile(fs),
                },
            },
        }
    }
}

/// String literals of a compiled program fit the string limit: every string
/// constant of a program that compiles has at most `MAX_STRING_LEN` bytes.
pub proof fn lemma_compiled_strings_fit(s: Seq<char>)
    requires
        spec_compile(s) is Ok,
    ensures
        consts_fit(spec_compile(s)->Ok_0.consts),
{
    let toks = spec_lex(s)->Ok_0;
    lemma_string_tokens_fit(s);
    assert(toks_strs_fit(toks));
    lemma_parse_strings_fit(toks);
    lemma_compile_strings_fit(spec_parse(toks)->Ok_0);
}

/// Robots written for a newer language are rejected: a source whose pragma
/// declares a version above `LANGUAGE_VERSION` never compiles, and the
/// error names the version on line 1 (or the size limit comes first).
pub proof fn lemma_newer_version_rejected(s: Seq<char>)
    requires
        pragma_version(s) matches Some(v) && v > LANGUAGE_VERSION,
    ensures
        spec_compile(s) is Err,
        utf8_len(s) <= MAX_SOURCE_BYTES ==> spec_compile(s) == Err::<ProgV, CErr>(
            (version_msg(pragma_version(s)->Some_0), 1int),
        ),
{
}

} // verus!

verus! {

fn skip_ws_exec(v: &Vec<char>, p: usize, e: usize) -> (r: usize)
    requires
        p <= e <= v.len(),
    ensures
        r == skip_ws(v@, p as int, e as int),
        p <= r <= e,
{
    let mut i = p;
    while i < e && exec_is_whitespace(v[i])
        invariant
            p <= i <= e <= v.len(),
            skip_ws(v@, i as int, e as int) == skip_ws(v@, p as int, e as int),
        decreases e - i,
    {
        i = i + 1;
    }
    i
}

fn word_end_exec(v: &Vec<char>, p: usize, e: usize) -> (r: usize)
    requires
        p <= e <= v.len(),
    ensures
        r == word_end(v@, p as int, e as int),
        p <= r <= e,
{
    let mut i = p;
    while i < e && !exec_is_whitespace(v[i])
        invariant
            p <= i <= e <= v.len(),
            word_end(v@, i as int, e as int) == word_end(v@, p as int, e as int),
        decreases e - i,
    {
        i = i + 1;
    }
    i
}

fn line_end_exec(v: &Vec<char>, p: usize) -> (r: usize)
    requires
        p <= v.len(),
    ensures
        r == line_end(v@, p as int),
        p <= r <= v.len(),
{
    let mut i = p;
    while i < v.len() && v[i] != '\n'
        invariant
            p <= i <= v.len(),
            line_end(v@, i as int) == line_end(v@, p as int),
        decreases v.len() - i,
    {
        i = i + 1;
    }
    i
}

/// The characters `a..b` of `v` spell `lit`.
fn sub_eq_str(v: &Vec<char>, a: usize, b: usize, lit: &str) -> (r: bool)
    requires
        a <= b <= v.len(),
    ensures
        r == (v@.subrange(a as int, b as int) == lit@),
{
    let w = chars_of(lit);
    if b - a != w.len() {
        return false;
    }
    let mut i: usize = 0;
    while i < w.len()
        invariant
            a <= b <= v.len(),
            b - a == w.len(),
            w@ == lit@,
            i <= w.len(),
            forall|k: int| 0 <= k < i ==> v@[a + k] == w@[k],
        decreases w.len() - i,
    {
        if v[a + i] != w[i] {
            assert(v@.subrange(a as int, b as int)[i as int] != lit@[i as int]);
            return false;
        }
        i = i + 1;
    }
    assert(v@.subrange(a as int, b as int) =~= lit@);
    true
}

/// Size of the UTF-8 encoding of `v` in bytes, or one past the source
/// limit when it is larger.
fn source_size(v: &Vec<char>) -> (r: usize)
    ensures
        r == (if utf8_len(v@) <= MAX_SOURCE_BYTES { utf8_len(v@) } else { (MAX_SOURCE_BYTES + 1) as nat }),
{
    let mut total: usize = 0;
    let mut i: usize = 0;
    proof {
        assert(v@.take(0) =~= Seq::<char>::empty());
        crate::text::lemma_utf8_len_empty();
    }
    while i < v.len()
        invariant
            i <= v.len(),
            total == utf8_len(v@.take(i as int)),
            total <= MAX_SOURCE_BYTES,
        decreases v.len() - i,
    {
        proof {
            assert(v@.take(i + 1) =~= v@.take(i as int).push(v@[i as int]));
            crate::text::lemma_utf8_len_push(v@.take(i as int), v@[i as int]);
        }
        total = total + exec_char_utf8_len(v[i]);
        if total > MAX_SOURCE_BYTES {
            proof {
                crate::text::lemma_utf8_len_prefix(v@, i + 1);
            }
            return MAX_SOURCE_BYTES + 1;
        }
        i = i + 1;
    }
    proof {
        assert(v@.take(i as int) =~= v@);
    }
    total
}

/// Reject a program whose `// robolang N` pragma asks for a newer
/// language version than `LANGUAGE_VERSION`.
pub fn check_version(source: &str) -> (r: Result<(), CompileError>)
    ensures
        match spec_check_version(source@) {
            Ok(()) => r is Ok,
            Err(e) => r matches Err(x) && err_view(x) == e,
        },
{
    let v = chars_of(source);
    let n = v.len();
    let p1 = skip_ws_exec(&v, 0, n);
    if p1 >= n {
        return Ok(());
    }
    let e = line_end_exec(&v, p1);
    let q1 = word_end_exec(&v, p1, e);
    if !sub_eq_str(&v, p1, q1, "//") {
        return Ok(());
    }
    let p2 = skip_ws_exec(&v, q1, e);
    if p2 >= e {
        return Ok(());
    }
    let q2 = word_end_exec(&v, p2, e);
    if !sub_eq_str(&v, p2, q2, "robolang") {
        return Ok(());
    }
    let p3 = skip_ws_exec(&v, q2, e);
    if p3 >= e {
        return Ok(());
    }
    let q3 = word_end_exec(&v, p3, e);
    match parse_uint_exec(&v, p3, q3, 0xFFFF_FFFF) {
        Some(ver) => {
            if ver > LANGUAGE_VERSION as u64 {
                let mut m = chars_of("robot requires language version ");
                push_decimal(&mut m, ver);
                push_str(&mut m, ", this engine speaks version 1");
                Err(CompileError { msg: string_from_chars(&m), line: 1 })
            } else {
                Ok(())
            }
        },
        None => Ok(()),
    }
}

/// Compile robot source code into a shareable program.
pub fn compile(source: &str) -> (r: Result<Rc<Program>, CompileError>)
    ensures
        match spec_compile(source@) {
            Ok(pv) => r matches Ok(p) && prog_view(*p) == pv && program_wf(*p) && pv.consts.no_duplicates(),
            Err(e) => r matches Err(x) && err_view(x) == e,
        },
{
    let chars = chars_of(source);
    if source_size(&chars) > MAX_SOURCE_BYTES {
        let v = chars_of("source too large (max 262144 bytes)");
        return Err(CompileError { msg: string_from_chars(&v), line: 0 });
    }
    proof {
        crate::text::lemma_utf8_len_ge(source@);
    }
    check_version(source)?;
    let ast = match parse(source) {
        Ok(a) => a,
        Err(e) => {
            return Err(CompileError { msg: e.msg, line: e.line });
        },
    };
    compile_program(&ast)
}

} // verus!
