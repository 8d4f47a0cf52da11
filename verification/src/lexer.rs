//! Lexer for the robolang DSL.
//!
//! The token stream of a source text is specified by `spec_lex`: a
//! maximal-munch reading of the characters, skipping white space and
//! comments. Every token and every error carries the line it starts on,
//! which is one more than the number of newlines before it.
use vstd::prelude::*;
use crate::text::{digits_value, 
    chars_eq_str, chars_of, decimal, exec_char_utf8_len, exec_is_whitespace, is_digit, is_ident_char,
    is_ident_start, is_whitespace, lemma_utf8_len_push, push_decimal, push_str, string_from_chars,
    utf8_len,
};

verus! {

/// Longest string literal (and runtime string), in UTF-8 bytes.
pub const MAX_STRING_LEN: usize = 256;

#[derive(Clone, Debug, PartialEq)]
pub struct SyntaxError {
    pub msg: String,
    pub line: u32,
}

/// A token. A number literal keeps its canonical decimal spelling (`01.50`
/// reads `1.5`, see `canon_number`), which error messages show as well; its
/// value is taken when the program is loaded.
#[derive(Clone, Debug, PartialEq)]
pub enum Tok {
    Num(String),
    Str(String),
    Ident(String),
    Func,
    Var,
    If,
    Else,
    While,
    For,
    Return,
    Break,
    Continue,
    True,
    False,
    Plus,
    Minus,
    Star,
    Slash,
    Percent,
    Assign,
    PlusAssign,
    MinusAssign,
    StarAssign,
    SlashAssign,
    Eq,
    Ne,
    Lt,
    Le,
    Gt,
    Ge,
    AndAnd,
    OrOr,
    Not,
    LParen,
    RParen,
    LBrace,
    RBrace,
    LBracket,
    RBracket,
    Comma,
    Semi,
    Eof,
}

#[derive(Clone, Debug)]
pub struct Token {
    pub tok: Tok,
    pub line: u32,
}

/// A token as a mathematical value: literal and identifier text as
/// character sequences; keywords and punctuation as the token itself.
pub enum TokV {
    Num(Seq<char>),
    Str(Seq<char>),
    Ident(Seq<char>),
    Sym(Tok),
}

impl View for Tok {
    type V = TokV;

    open spec fn view(&self) -> TokV {
        match self {
            Tok::Num(s) => TokV::Num(s@),
            Tok::Str(s) => TokV::Str(s@),
            Tok::Ident(s) => TokV::Ident(s@),
            _ => TokV::Sym(*self),
        }
    }
}

/// A token with the line it starts on.
pub open spec fn token_view(t: Token) -> (TokV, int) {
    (t.tok@, t.line as int)
}

pub open spec fn tokens_view(v: Seq<Token>) -> Seq<(TokV, int)> {
    v.map_values(|t: Token| token_view(t))
}

/// An error as a message and a line.
pub open spec fn error_view(e: SyntaxError) -> (Seq<char>, int) {
    (e.msg@, e.line as int)
}

// ---------------------------------------------------------------------------
// Specification

/// Number of newline characters in `s`.
pub open spec fn newlines(s: Seq<char>) -> nat
    decreases s.len(),
{
    if s.len() == 0 {
        0
    } else {
        newlines(s.drop_last()) + if s.last() == '\n' { 1nat } else { 0nat }
    }
}

/// Line (counting from 1) of position `p` of `s`.
pub open spec fn line_at(s: Seq<char>, p: int) -> int {
    1 + newlines(s.take(p)) as int
}

/// End of a `//` comment: the next newline at or after `p`, or the end.
pub open spec fn line_comment_end(s: Seq<char>, p: int) -> int
    decreases s.len() - p,
{
    if 0 <= p < s.len() && s[p] != '\n' {
        line_comment_end(s, p + 1)
    } else {
        p
    }
}

/// Position just past the first `*/` at or after `p`, if there is one.
pub open spec fn block_comment_end(s: Seq<char>, p: int) -> Option<int>
    decreases s.len() - p,
{
    if !(0 <= p < s.len()) {
        None
    } else if s[p] == '*' && p + 1 < s.len() && s[p + 1] == '/' {
        Some(p + 2)
    } else {
        block_comment_end(s, p + 1)
    }
}

/// Position of the first character at or after `p` that is neither white
/// space nor inside a comment; `None` when a block comment is never closed.
pub open spec fn trivia_end(s: Seq<char>, p: int) -> Option<int>
    decreases s.len() - p,
{
    if !(0 <= p <= s.len()) {
        None
    } else if p < s.len() && is_whitespace(s[p]) {
        trivia_end(s, p + 1)
    } else if p + 1 < s.len() && s[p] == '/' && s[p + 1] == '/' {
        let q = line_comment_end(s, p + 2);
        if p < q <= s.len() {
            trivia_end(s, q)
        } else {
            None
        }
    } else if p + 1 < s.len() && s[p] == '/' && s[p + 1] == '*' {
        match block_comment_end(s, p + 2) {
            Some(q) => if p < q <= s.len() {
                trivia_end(s, q)
            } else {
                None
            },
            None => None,
        }
    } else {
        Some(p)
    }
}

/// End of the run of ASCII digits starting at `p`.
pub open spec fn digits_end(s: Seq<char>, p: int) -> int
    decreases s.len() - p,
{
    if 0 <= p < s.len() && is_digit(s[p]) {
        digits_end(s, p + 1)
    } else {
        p
    }
}

/// End of a number literal starting at `p`: digits, optionally followed by
/// a `.` and at least one more digit.
pub open spec fn number_end(s: Seq<char>, p: int) -> int {
    let d = digits_end(s, p);
    if d + 1 < s.len() && s[d] == '.' && is_digit(s[d + 1]) {
        digits_end(s, d + 1)
    } else {
        d
    }
}

/// First index from `i` of `w` that is not a leading zero; the last digit
/// always stays.
pub open spec fn lead_zeros_end(w: Seq<char>, i: int) -> int
    decreases w.len() - i,
{
    if 0 <= i && i + 1 < w.len() && w[i] == '0' {
        lead_zeros_end(w, i + 1)
    } else {
        i
    }
}

/// End of `w.subrange(0, e)` once its trailing zeros are dropped.
pub open spec fn trail_zeros_start(w: Seq<char>, e: int) -> int
    decreases e,
{
    if 0 < e <= w.len() && w[e - 1] == '0' {
        trail_zeros_start(w, e - 1)
    } else {
        e
    }
}

/// Canonical spelling of the number whose whole part has the digits `whole`
/// and whose fraction has the digits `frac`: no leading zeros (but one digit
/// at least), no trailing zeros in the fraction, and no point when nothing
/// of the fraction is left. Literals that denote the same number, such as
/// `1`, `01` and `1.00`, get the same spelling.
pub open spec fn canon_number(whole: Seq<char>, frac: Seq<char>) -> Seq<char> {
    let w = whole.subrange(lead_zeros_end(whole, 0), whole.len() as int);
    let f = frac.subrange(0, trail_zeros_start(frac, frac.len() as int));
    if f.len() == 0 {
        w
    } else {
        w + seq!['.'] + f
    }
}

proof fn lemma_zeros_ranges(w: Seq<char>, i: int, f: Seq<char>, e: int)
    requires
        0 <= i < w.len(),
        0 <= e <= f.len(),
    ensures
        i <= lead_zeros_end(w, i) < w.len(),
        0 <= trail_zeros_start(f, e) <= e,
    decreases w.len() - i + e,
{
    if i + 1 < w.len() && w[i] == '0' {
        lemma_zeros_ranges(w, i + 1, f, e);
    }
    if e > 0 && f[e - 1] == '0' {
        lemma_zeros_ranges(w, i, f, e - 1);
    }
}

proof fn lemma_lead_zeros_shift(w: Seq<char>, i: int)
    requires
        0 <= i,
    ensures
        lead_zeros_end(seq!['0'] + w, i + 1) == lead_zeros_end(w, i) + 1,
    decreases w.len() - i,
{
    let z = seq!['0'] + w;
    if i + 1 < w.len() && w[i] == '0' {
        assert(z[i + 1] == w[i]);
        lemma_lead_zeros_shift(w, i + 1);
    } else if i < w.len() {
        assert(z[i + 1] == w[i]);
    }
}

proof fn lemma_trail_zeros_push(f: Seq<char>, e: int)
    requires
        0 <= e <= f.len(),
    ensures
        trail_zeros_start(f.push('0'), e) == trail_zeros_start(f, e),
    decreases e,
{
    if e > 0 {
        assert(f.push('0')[e - 1] == f[e - 1]);
        lemma_trail_zeros_push(f, e - 1);
    }
}

/// A number's spelling ignores zero padding: a leading zero before the
/// whole part, or a trailing zero after the fraction, reads as the same
/// number, so such literals share one constant.
pub proof fn lemma_number_spelling_ignores_padding(whole: Seq<char>, frac: Seq<char>)
    requires
        whole.len() >= 1,
    ensures
        canon_number(seq!['0'] + whole, frac) == canon_number(whole, frac),
        canon_number(whole, frac.push('0')) == canon_number(whole, frac),
{
    let z = seq!['0'] + whole;
    assert(z[0] == '0');
    lemma_zeros_ranges(whole, 0, frac, frac.len() as int);
    lemma_lead_zeros_shift(whole, 0);
    let k = lead_zeros_end(whole, 0);
    assert(lead_zeros_end(z, 0) == k + 1);
    assert(z.subrange(k + 1, z.len() as int) =~= whole.subrange(k, whole.len() as int));
    let fz = frac.push('0');
    lemma_trail_zeros_push(frac, frac.len() as int);
    assert(trail_zeros_start(fz, fz.len() as int) == trail_zeros_start(fz, frac.len() as int));
    let t = trail_zeros_start(frac, frac.len() as int);
    assert(fz.subrange(0, t) =~= frac.subrange(0, t));
}

// ---------------------------------------------------------------------------
// The canonical spelling keeps the value

/// Every character of `z` is `0`.
pub open spec fn all_zeros(z: Seq<char>) -> bool {
    forall|i: int| 0 <= i < z.len() ==> z[i] == '0'
}

/// Every character of `w` is a decimal digit.
pub open spec fn all_digits(w: Seq<char>) -> bool {
    forall|i: int| 0 <= i < w.len() ==> is_digit(#[trigger] w[i])
}

/// `10^n`.
pub open spec fn pow10(n: nat) -> nat
    decreases n,
{
    if n == 0 {
        1
    } else {
        10 * pow10((n - 1) as nat)
    }
}

/// How a number with whole part `w` and fraction `f` is written.
pub open spec fn spelled(w: Seq<char>, f: Seq<char>) -> Seq<char> {
    if f.len() == 0 {
        w
    } else {
        w + seq!['.'] + f
    }
}

proof fn lemma_lead_zeros_are_zeros(w: Seq<char>, i: int)
    requires
        0 <= i < w.len(),
    ensures
        i <= lead_zeros_end(w, i),
        forall|j: int| i <= j < lead_zeros_end(w, i) ==> w[j] == '0',
        lead_zeros_end(w, i) + 1 < w.len() ==> w[lead_zeros_end(w, i)] != '0',
        lead_zeros_end(w, i) < w.len(),
    decreases w.len() - i,
{
    if i + 1 < w.len() && w[i] == '0' {
        lemma_lead_zeros_are_zeros(w, i + 1);
    }
}

proof fn lemma_trail_zeros_are_zeros(f: Seq<char>, e: int)
    requires
        0 <= e <= f.len(),
    ensures
        0 <= trail_zeros_start(f, e) <= e,
        forall|j: int| trail_zeros_start(f, e) <= j < e ==> f[j] == '0',
        trail_zeros_start(f, e) > 0 ==> f[trail_zeros_start(f, e) - 1] != '0',
    decreases e,
{
    if e > 0 && f[e - 1] == '0' {
        lemma_trail_zeros_are_zeros(f, e - 1);
    }
}

proof fn lemma_value_leading_zeros(z: Seq<char>, x: Seq<char>)
    requires
        all_zeros(z),
    ensures
        digits_value(z + x) == digits_value(x),
    decreases x.len(), z.len(),
{
    if x.len() > 0 {
        assert((z + x).drop_last() =~= z + x.drop_last());
        lemma_value_leading_zeros(z, x.drop_last());
    } else if z.len() > 0 {
        assert((z + x).drop_last() =~= z.drop_last() + x);
        lemma_value_leading_zeros(z.drop_last(), x);
    } else {
        assert(z + x =~= x);
    }
}

proof fn lemma_value_trailing_zeros(x: Seq<char>, z: Seq<char>)
    requires
        all_zeros(z),
    ensures
        digits_value(x + z) == digits_value(x) * pow10(z.len()),
    decreases z.len(),
{
    if z.len() == 0 {
        assert(x + z =~= x);
        assert(pow10(z.len()) == 1);
    } else {
        assert((x + z).drop_last() =~= x + z.drop_last());
        assert(all_zeros(z.drop_last()));
        assert((x + z).last() == z[z.len() - 1]);
        assert(z[z.len() - 1] == '0');
        lemma_value_trailing_zeros(x, z.drop_last());
        let a = digits_value(x);
        let b = pow10((z.len() - 1) as nat);
        assert(((x + z).last() as nat) - ('0' as nat) == 0);
        assert(digits_value(x + z) == digits_value(x + z.drop_last()) * 10);
        assert(pow10(z.len()) == 10 * b);
        assert(z.drop_last().len() == (z.len() - 1) as nat);
        assert(digits_value(x + z.drop_last()) == a * b);
        assert((a * b) * 10 == a * (10 * b)) by (nonlinear_arith);
        assert(digits_value(x + z) == a * pow10(z.len()));
    }
}

/// The canonical spelling of a number literal is the literal without its
/// redundant zeros, and nothing else changes: for a literal with whole
/// digits `whole` and fraction digits `frac`, the spelling is `w` or
/// `w.f`, where `whole` is some zeros followed by `w`, `frac` is `f`
/// followed by some zeros, `w` has no leading zero (unless it is `0`) and
/// `f` no trailing zero. So it denotes the same value: the whole part is
/// worth the same, and the fraction `frac` is worth `f` scaled by the zeros
/// dropped, `value(frac) == value(f) * 10^(|frac| - |f|)`.
pub proof fn lemma_canon_number_value(whole: Seq<char>, frac: Seq<char>) -> (r: (Seq<char>, Seq<char>))
    requires
        whole.len() >= 1,
        all_digits(whole),
        all_digits(frac),
    ensures
        canon_number(whole, frac) == spelled(r.0, r.1),
        r.0.len() >= 1,
        r.0.len() > 1 ==> r.0[0] != '0',
        r.1.len() > 0 ==> r.1.last() != '0',
        whole.len() >= r.0.len() && all_zeros(whole.subrange(0, whole.len() - r.0.len())) && whole == whole.subrange(
            0,
            whole.len() - r.0.len(),
        ) + r.0,
        frac.len() >= r.1.len() && all_zeros(frac.subrange(r.1.len() as int, frac.len() as int)) && frac == r.1
            + frac.subrange(r.1.len() as int, frac.len() as int),
        digits_value(r.0) == digits_value(whole),
        digits_value(frac) == digits_value(r.1) * pow10((frac.len() - r.1.len()) as nat),
{
    let k = lead_zeros_end(whole, 0);
    let t = trail_zeros_start(frac, frac.len() as int);
    lemma_lead_zeros_are_zeros(whole, 0);
    lemma_trail_zeros_are_zeros(frac, frac.len() as int);
    let w = whole.subrange(k, whole.len() as int);
    let f = frac.subrange(0, t);
    let zl = whole.subrange(0, k);
    let zt = frac.subrange(t, frac.len() as int);
    assert(0 <= k < whole.len());
    assert(whole =~= zl + w);
    assert(frac =~= f + zt);
    assert forall|j: int| 0 <= j < zl.len() implies zl[j] == '0' by {
        assert(zl[j] == whole[j]);
    }
    assert forall|j: int| 0 <= j < zt.len() implies zt[j] == '0' by {
        assert(zt[j] == frac[t + j]);
    }
    assert(whole.subrange(0, whole.len() - w.len()) =~= zl);
    assert(frac.subrange(f.len() as int, frac.len() as int) =~= zt);
    assert(all_zeros(zl));
    assert(all_zeros(zt));
    lemma_value_leading_zeros(zl, w);
    lemma_value_trailing_zeros(f, zt);
    if w.len() > 1 {
        assert(w[0] == whole[k]);
    }
    if f.len() > 0 {
        assert(f.last() == frac[t - 1]);
    }
    (w, f)
}

/// The canonical spelling of the number literal starting at `p`.
pub open spec fn number_word(s: Seq<char>, p: int) -> Seq<char> {
    let d = digits_end(s, p);
    let e = number_end(s, p);
    canon_number(s.subrange(p, d), if e > d { s.subrange(d + 1, e) } else { Seq::empty() })
}

/// End of an identifier or keyword starting at `p`.
pub open spec fn ident_end(s: Seq<char>, p: int) -> int
    decreases s.len() - p,
{
    if 0 <= p < s.len() && is_ident_char(s[p]) {
        ident_end(s, p + 1)
    } else {
        p
    }
}

/// The keyword spelled by `w`, if any.
pub open spec fn keyword(w: Seq<char>) -> Option<Tok> {
    if w == "func"@ {
        Some(Tok::Func)
    } else if w == "var"@ {
        Some(Tok::Var)
    } else if w == "if"@ {
        Some(Tok::If)
    } else if w == "else"@ {
        Some(Tok::Else)
    } else if w == "while"@ {
        Some(Tok::While)
    } else if w == "for"@ {
        Some(Tok::For)
    } else if w == "return"@ {
        Some(Tok::Return)
    } else if w == "break"@ {
        Some(Tok::Break)
    } else if w == "continue"@ {
        Some(Tok::Continue)
    } else if w == "true"@ {
        Some(Tok::True)
    } else if w == "false"@ {
        Some(Tok::False)
    } else {
        None
    }
}

/// The character an escape `\c` stands for inside a string literal.
pub open spec fn escape_of(c: char) -> Option<char> {
    if c == 'n' {
        Some('\n')
    } else if c == 't' {
        Some('\t')
    } else if c == '"' {
        Some('"')
    } else if c == '\\' {
        Some('\\')
    } else {
        None
    }
}

pub open spec fn too_long_msg(n: nat) -> Seq<char> {
    "string literal too long ("@ + decimal(n) + " bytes; the limit is 256)"@
}

pub open spec fn unknown_escape_msg(c: char) -> Seq<char> {
    "unknown escape '\\"@ + seq![c] + "'"@
}

pub open spec fn unexpected_char_msg(c: char) -> Seq<char> {
    "unexpected character '"@ + seq![c] + "'"@
}

/// Reading the body of a string literal from `p` (just past the opening
/// quote) with `acc` decoded so far: the decoded text and the position past
/// the closing quote, or an error message and the position it is reported
/// at.
pub open spec fn string_body(s: Seq<char>, p: int, acc: Seq<char>) -> Result<(Seq<char>, int), (Seq<char>, int)>
    decreases s.len() - p,
{
    if !(0 <= p < s.len()) {
        Err(("unterminated string"@, p))
    } else if s[p] == '"' {
        if utf8_len(acc) > MAX_STRING_LEN {
            Err((too_long_msg(utf8_len(acc)), p + 1))
        } else {
            Ok((acc, p + 1))
        }
    } else if s[p] == '\\' {
        if p + 1 >= s.len() {
            Err(("unterminated escape"@, p + 1))
        } else {
            match escape_of(s[p + 1]) {
                Some(c) => string_body(s, p + 2, acc.push(c)),
                None => Err((unknown_escape_msg(s[p + 1]), p + 2)),
            }
        }
    } else {
        string_body(s, p + 1, acc.push(s[p]))
    }
}

/// A one-character operator, or its two-character form when followed by
/// `second`.
pub open spec fn op_pair(s: Seq<char>, p: int, second: char, one: Tok, two: Tok) -> Result<(TokV, int), (Seq<char>, int)> {
    if p + 1 < s.len() && s[p + 1] == second {
        Ok((TokV::Sym(two), p + 2))
    } else {
        Ok((TokV::Sym(one), p + 1))
    }
}

/// Operator or punctuation token at `p`.
pub open spec fn op_at(s: Seq<char>, p: int) -> Result<(TokV, int), (Seq<char>, int)> {
    let c = s[p];
    if c == '+' {
        op_pair(s, p, '=', Tok::Plus, Tok::PlusAssign)
    } else if c == '-' {
        op_pair(s, p, '=', Tok::Minus, Tok::MinusAssign)
    } else if c == '*' {
        op_pair(s, p, '=', Tok::Star, Tok::StarAssign)
    } else if c == '/' {
        op_pair(s, p, '=', Tok::Slash, Tok::SlashAssign)
    } else if c == '%' {
        Ok((TokV::Sym(Tok::Percent), p + 1))
    } else if c == '=' {
        op_pair(s, p, '=', Tok::Assign, Tok::Eq)
    } else if c == '!' {
        op_pair(s, p, '=', Tok::Not, Tok::Ne)
    } else if c == '<' {
        op_pair(s, p, '=', Tok::Lt, Tok::Le)
    } else if c == '>' {
        op_pair(s, p, '=', Tok::Gt, Tok::Ge)
    } else if c == '&' {
        if p + 1 < s.len() && s[p + 1] == '&' {
            Ok((TokV::Sym(Tok::AndAnd), p + 2))
        } else {
            Err(("unexpected '&', did you mean '&&'?"@, p + 1))
        }
    } else if c == '|' {
        if p + 1 < s.len() && s[p + 1] == '|' {
            Ok((TokV::Sym(Tok::OrOr), p + 2))
        } else {
            Err(("unexpected '|', did you mean '||'?"@, p + 1))
        }
    } else if c == '(' {
        Ok((TokV::Sym(Tok::LParen), p + 1))
    } else if c == ')' {
        Ok((TokV::Sym(Tok::RParen), p + 1))
    } else if c == '{' {
        Ok((TokV::Sym(Tok::LBrace), p + 1))
    } else if c == '}' {
        Ok((TokV::Sym(Tok::RBrace), p + 1))
    } else if c == '[' {
        Ok((TokV::Sym(Tok::LBracket), p + 1))
    } else if c == ']' {
        Ok((TokV::Sym(Tok::RBracket), p + 1))
    } else if c == ',' {
        Ok((TokV::Sym(Tok::Comma), p + 1))
    } else if c == ';' {
        Ok((TokV::Sym(Tok::Semi), p + 1))
    } else {
        Err((unexpected_char_msg(c), p + 1))
    }
}

/// The token starting at `p` (which holds no white space or comment) and
/// the position just past it, or an error message and its position.
pub open spec fn token_at(s: Seq<char>, p: int) -> Result<(TokV, int), (Seq<char>, int)> {
    let c = s[p];
    if is_digit(c) {
        Ok((TokV::Num(number_word(s, p)), number_end(s, p)))
    } else if c == '"' {
        match string_body(s, p + 1, Seq::empty()) {
            Ok((text, e)) => Ok((TokV::Str(text), e)),
            Err(err) => Err(err),
        }
    } else if is_ident_start(c) {
        let e = ident_end(s, p);
        let w = s.subrange(p, e);
        match keyword(w) {
            Some(k) => Ok((TokV::Sym(k), e)),
            None => Ok((TokV::Ident(w), e)),
        }
    } else {
        op_at(s, p)
    }
}

/// Tokens of `s` from position `p` on (ending with `Eof`), each with its
/// line, or the first error as a message and a line.
pub open spec fn lex_from(s: Seq<char>, p: int) -> Result<Seq<(TokV, int)>, (Seq<char>, int)>
    decreases s.len() - p,
{
    match trivia_end(s, p) {
        None => Err(("unterminated block comment"@, line_at(s, s.len() as int))),
        Some(q) => if q >= s.len() {
            Ok(seq![(TokV::Sym(Tok::Eof), line_at(s, q))])
        } else {
            match token_at(s, q) {
                Err((msg, at)) => Err((msg, line_at(s, at))),
                Ok((t, r)) => if p < r <= s.len() {
                    match lex_from(s, r) {
                        Ok(rest) => Ok(seq![(t, line_at(s, q))] + rest),
                        Err(e) => Err(e),
                    }
                } else {
                    Err(("internal"@, 0))
                },
            }
        },
    }
}

/// The tokens of a whole source text, or its first lexical error.
pub open spec fn spec_lex(s: Seq<char>) -> Result<Seq<(TokV, int)>, (Seq<char>, int)> {
    lex_from(s, 0)
}

} // verus!

verus! {

// ---------------------------------------------------------------------------
// Lemmas about the specification

pub proof fn lemma_newlines_bound(s: Seq<char>)
    ensures
        newlines(s) <= s.len(),
    decreases s.len(),
{
    if s.len() > 0 {
        lemma_newlines_bound(s.drop_last());
    }
}

/// Consuming one character moves to the next line exactly when it is a
/// newline.
pub proof fn lemma_line_step(s: Seq<char>, p: int)
    requires
        0 <= p < s.len(),
    ensures
        line_at(s, p + 1) == line_at(s, p) + if s[p] == '\n' { 1int } else { 0int },
        line_at(s, p + 1) <= p + 2,
{
    assert(s.take(p + 1).drop_last() =~= s.take(p));
    assert(s.take(p + 1).last() == s[p]);
    lemma_newlines_bound(s.take(p + 1));
}

pub proof fn lemma_line_comment_end(s: Seq<char>, p: int)
    requires
        0 <= p <= s.len(),
    ensures
        p <= line_comment_end(s, p) <= s.len(),
    decreases s.len() - p,
{
    if p < s.len() && s[p] != '\n' {
        lemma_line_comment_end(s, p + 1);
    }
}

pub proof fn lemma_block_comment_end(s: Seq<char>, p: int)
    requires
        0 <= p,
    ensures
        block_comment_end(s, p) matches Some(q) ==> p + 2 <= q <= s.len(),
    decreases s.len() - p,
{
    if 0 <= p < s.len() && !(s[p] == '*' && p + 1 < s.len() && s[p + 1] == '/') {
        lemma_block_comment_end(s, p + 1);
    }
}

pub proof fn lemma_digits_end(s: Seq<char>, p: int)
    requires
        0 <= p <= s.len(),
    ensures
        p <= digits_end(s, p) <= s.len(),
        p < s.len() && is_digit(s[p]) ==> p < digits_end(s, p),
    decreases s.len() - p,
{
    if p < s.len() && is_digit(s[p]) {
        lemma_digits_end(s, p + 1);
    }
}

pub proof fn lemma_ident_end(s: Seq<char>, p: int)
    requires
        0 <= p <= s.len(),
    ensures
        p <= ident_end(s, p) <= s.len(),
        p < s.len() && is_ident_char(s[p]) ==> p < ident_end(s, p),
    decreases s.len() - p,
{
    if p < s.len() && is_ident_char(s[p]) {
        lemma_ident_end(s, p + 1);
    }
}

pub proof fn lemma_trivia_end(s: Seq<char>, p: int)
    ensures
        trivia_end(s, p) matches Some(q) ==> p <= q <= s.len(),
    decreases s.len() - p,
{
    if 0 <= p <= s.len() {
        if p < s.len() && is_whitespace(s[p]) {
            lemma_trivia_end(s, p + 1);
        } else if p + 1 < s.len() && s[p] == '/' && s[p + 1] == '/' {
            let q = line_comment_end(s, p + 2);
            if p < q <= s.len() {
                lemma_trivia_end(s, q);
            }
        } else if p + 1 < s.len() && s[p] == '/' && s[p + 1] == '*' {
            match block_comment_end(s, p + 2) {
                Some(q) => if p < q <= s.len() {
                    lemma_trivia_end(s, q);
                },
                None => {},
            }
        }
    }
}

pub proof fn lemma_string_body(s: Seq<char>, p: int, acc: Seq<char>)
    requires
        0 <= p,
    ensures
        string_body(s, p, acc) matches Ok((_, e)) ==> p < e <= s.len(),
    decreases s.len() - p,
{
    if 0 <= p < s.len() && s[p] != '"' {
        if s[p] == '\\' {
            if p + 1 < s.len() {
                match escape_of(s[p + 1]) {
                    Some(c) => lemma_string_body(s, p + 2, acc.push(c)),
                    None => {},
                }
            }
        } else {
            lemma_string_body(s, p + 1, acc.push(s[p]));
        }
    }
}

pub proof fn lemma_subrange_push(s: Seq<char>, a: int, b: int)
    requires
        0 <= a <= b < s.len(),
    ensures
        s.subrange(a, b + 1) == s.subrange(a, b).push(s[b]),
{
    assert(s.subrange(a, b + 1) =~= s.subrange(a, b).push(s[b]));
}

/// `canon_number`, computed.
fn canon_number_exec(whole: &Vec<char>, frac: &Vec<char>) -> (r: Vec<char>)
    ensures
        r@ == canon_number(whole@, frac@),
{
    let mut i: usize = 0;
    while i < whole.len() && i + 1 < whole.len() && whole[i] == '0'
        invariant
            i <= whole.len(),
            lead_zeros_end(whole@, i as int) == lead_zeros_end(whole@, 0),
        decreases whole.len() - i,
    {
        i = i + 1;
    }
    let mut e: usize = frac.len();
    while e > 0 && frac[e - 1] == '0'
        invariant
            e <= frac.len(),
            trail_zeros_start(frac@, e as int) == trail_zeros_start(frac@, frac.len() as int),
        decreases e,
    {
        e = e - 1;
    }
    let ghost w = whole@.subrange(i as int, whole.len() as int);
    let ghost f = frac@.subrange(0, e as int);
    let mut r: Vec<char> = Vec::new();
    let mut k: usize = i;
    while k < whole.len()
        invariant
            i <= k <= whole.len(),
            r@ == whole@.subrange(i as int, k as int),
        decreases whole.len() - k,
    {
        r.push(whole[k]);
        k = k + 1;
        assert(r@ =~= whole@.subrange(i as int, k as int));
    }
    if e > 0 {
        r.push('.');
        let mut k: usize = 0;
        while k < e
            invariant
                k <= e <= frac.len(),
                r@ == w + seq!['.'] + frac@.subrange(0, k as int),
            decreases e - k,
        {
            r.push(frac[k]);
            k = k + 1;
            assert(r@ =~= w + seq!['.'] + frac@.subrange(0, k as int));
        }
        assert(r@ =~= w + seq!['.'] + f);
    } else {
        assert(f.len() == 0);
    }
    r
}

pub proof fn lemma_tokens_view_push(v: Seq<Token>, t: Token)
    ensures
        tokens_view(v.push(t)) == tokens_view(v).push(token_view(t)),
{
    assert(tokens_view(v.push(t)) =~= tokens_view(v).push(token_view(t)));
}

// ---------------------------------------------------------------------------
// Implementation

impl SyntaxError {
    pub fn new(msg: String, line: u32) -> (e: SyntaxError)
        ensures
            e.msg@ == msg@,
            e.line == line,
    {
        SyntaxError { msg, line }
    }
}

struct Lexer {
    chars: Vec<char>,
    pos: usize,
    line: u32,
}

impl Lexer {
    spec fn wf(&self) -> bool {
        &&& self.pos <= self.chars.len()
        &&& self.chars.len() < u32::MAX
        &&& self.line == line_at(self.chars@, self.pos as int)
    }

    fn peek(&self) -> (c: char)
        requires
            self.pos < self.chars.len(),
        ensures
            c == self.chars@[self.pos as int],
    {
        self.chars[self.pos]
    }

    fn bump(&mut self) -> (c: char)
        requires
            old(self).wf(),
            old(self).pos < old(self).chars.len(),
        ensures
            final(self).wf(),
            final(self).chars == old(self).chars,
            final(self).pos == old(self).pos + 1,
            c == old(self).chars@[old(self).pos as int],
    {
        proof {
            lemma_line_step(self.chars@, self.pos as int);
        }
        let c = self.chars[self.pos];
        self.pos += 1;
        if c == '\n' {
            self.line += 1;
        }
        c
    }

    /// Error with message `msg` on the current line.
    fn error(&self, msg: &Vec<char>) -> (e: SyntaxError)
        ensures
            error_view(e) == (msg@, self.line as int),
    {
        SyntaxError::new(string_from_chars(msg), self.line)
    }

    fn skip_ws_and_comments(&mut self) -> (r: Result<(), SyntaxError>)
        requires
            old(self).wf(),
        ensures
            final(self).wf(),
            final(self).chars@ == old(self).chars@,
            match trivia_end(old(self).chars@, old(self).pos as int) {
                Some(q) => r is Ok && final(self).pos == q,
                None => (r matches Err(e) && error_view(e) == ("unterminated block comment"@, line_at(old(self).chars@, old(self).chars.len() as int))),
            },
    {
        let ghost s = self.chars@;
        let ghost t = trivia_end(s, self.pos as int);
        loop
            invariant
                self.wf(),
                self.chars@ == s,
                s == old(self).chars@,
                t == trivia_end(old(self).chars@, old(self).pos as int),
                trivia_end(s, self.pos as int) == t,
            decreases self.chars.len() - self.pos,
        {
            let ghost start = self.pos as int;
            while self.pos < self.chars.len() && exec_is_whitespace(self.peek())
                invariant
                    self.wf(),
                    self.chars@ == s,
                    trivia_end(s, self.pos as int) == t,
                    start <= self.pos,
                decreases self.chars.len() - self.pos,
            {
                self.bump();
            }
            if self.pos + 1 < self.chars.len() && self.peek() == '/' {
                let next = self.chars[self.pos + 1];
                if next == '/' {
                    let ghost q0 = self.pos as int;
                    let ghost l = line_comment_end(s, q0 + 2);
                    proof {
                        lemma_line_comment_end(s, q0 + 2);
                        assert(line_comment_end(s, q0) == line_comment_end(s, q0 + 1));
                        assert(line_comment_end(s, q0 + 1) == l);
                    }
                    self.bump();
                    self.bump();
                    while self.pos < self.chars.len() && self.peek() != '\n'
                        invariant
                            self.wf(),
                            self.chars@ == s,
                            start <= q0,
                            q0 + 2 <= self.pos,
                            line_comment_end(s, self.pos as int) == l,
                        decreases self.chars.len() - self.pos,
                    {
                        self.bump();
                    }
                    continue;
                } else if next == '*' {
                    let ghost q0 = self.pos as int;
                    let ghost b = block_comment_end(s, q0 + 2);
                    proof {
                        lemma_block_comment_end(s, q0 + 2);
                    }
                    self.bump();
                    self.bump();
                    let mut closed = false;
                    while self.pos < self.chars.len()
                        invariant_except_break
                            !closed,
                            block_comment_end(s, self.pos as int) == b,
                        invariant
                            self.wf(),
                            self.chars@ == s,
                            start <= q0,
                            q0 + 2 <= self.pos,
                            s == old(self).chars@,
                            b == block_comment_end(s, q0 + 2),
                            trivia_end(s, q0) == t,
                            q0 + 1 < s.len() && s[q0] == '/' && s[q0 + 1] == '*',
                        ensures
                            closed ==> b == Some(self.pos as int),
                            !closed ==> self.pos >= self.chars.len() && b == block_comment_end(s, self.pos as int),
                        decreases self.chars.len() - self.pos,
                    {
                        if self.peek() == '*' && self.pos + 1 < self.chars.len()
                            && self.chars[self.pos + 1] == '/' {
                            let ghost here = self.pos as int;
                            assert(block_comment_end(s, here) == Some(here + 2));
                            self.bump();
                            self.bump();
                            closed = true;
                            break;
                        }
                        self.bump();
                    }
                    if !closed {
                        proof {
                            assert(b is None);
                            assert(!is_whitespace(s[q0]));
                            assert(t is None);
                        }
                        let mut msg = Vec::new();
                        push_str(&mut msg, "unterminated block comment");
                        proof {
                            reveal_strlit("unterminated block comment");
                        }
                        return Err(self.error(&msg));
                    }
                    proof {
                        assert(!is_whitespace(s[q0]));
                        assert(trivia_end(s, q0) == trivia_end(s, self.pos as int));
                    }
                    continue;
                }
            }
            return Ok(());
        }
    }

    fn num(&mut self) -> (tok: Tok)
        requires
            old(self).wf(),
            old(self).pos < old(self).chars.len(),
            is_digit(old(self).chars@[old(self).pos as int]),
        ensures
            final(self).wf(),
            final(self).chars@ == old(self).chars@,
            final(self).pos == number_end(old(self).chars@, old(self).pos as int),
            tok@ == TokV::Num(number_word(old(self).chars@, old(self).pos as int)),
    {
        let ghost s = self.chars@;
        let ghost p0 = self.pos as int;
        let mut whole: Vec<char> = Vec::new();
        let mut frac: Vec<char> = Vec::new();
        proof {
            lemma_digits_end(s, p0);
        }
        while self.pos < self.chars.len() && '0' <= self.peek() && self.peek() <= '9'
            invariant
                self.wf(),
                self.chars@ == s,
                0 <= p0 <= self.pos,
                digits_end(s, self.pos as int) == digits_end(s, p0),
                whole@ == s.subrange(p0, self.pos as int),
            decreases self.chars.len() - self.pos,
        {
            let c = self.bump();
            whole.push(c);
            proof {
                lemma_subrange_push(s, p0, self.pos - 1);
            }
        }
        let ghost d = self.pos as int;
        if self.pos + 1 < self.chars.len() && self.peek() == '.'
            && '0' <= self.chars[self.pos + 1] && self.chars[self.pos + 1] <= '9' {
            self.bump();
            proof {
                lemma_digits_end(s, d + 1);
            }
            while self.pos < self.chars.len() && '0' <= self.peek() && self.peek() <= '9'
                invariant
                    self.wf(),
                    self.chars@ == s,
                    0 <= d,
                    d + 1 <= self.pos,
                    digits_end(s, self.pos as int) == digits_end(s, d + 1),
                    frac@ == s.subrange(d + 1, self.pos as int),
                decreases self.chars.len() - self.pos,
            {
                let c = self.bump();
                frac.push(c);
                proof {
                    lemma_subrange_push(s, d + 1, self.pos - 1);
                }
            }
        }
        let text = canon_number_exec(&whole, &frac);
        Tok::Num(string_from_chars(&text))
    }

    fn string(&mut self) -> (r: Result<String, SyntaxError>)
        requires
            old(self).wf(),
            old(self).pos < old(self).chars.len(),
            old(self).chars@[old(self).pos as int] == '"',
        ensures
            final(self).wf(),
            final(self).chars@ == old(self).chars@,
            match string_body(old(self).chars@, old(self).pos + 1, Seq::empty()) {
                Ok((text, e)) => (r matches Ok(st) && st@ == text && final(self).pos == e),
                Err((msg, at)) => (r matches Err(err) && error_view(err) == (msg, line_at(old(self).chars@, at))),
            },
    {
        let ghost s = self.chars@;
        let ghost target = string_body(s, self.pos + 1, Seq::empty());
        self.bump();
        let mut acc: Vec<char> = Vec::new();
        let mut bytes: u64 = 0;
        loop
            invariant
                self.wf(),
                self.chars@ == s,
                string_body(s, self.pos as int, acc@) == target,
                s == old(self).chars@,
                target == string_body(old(self).chars@, old(self).pos + 1, Seq::empty()),
                bytes == utf8_len(acc@),
                bytes <= 4 * acc.len(),
                acc.len() <= self.pos,
            decreases self.chars.len() - self.pos,
        {
            if self.pos >= self.chars.len() {
                let mut msg = Vec::new();
                push_str(&mut msg, "unterminated string");
                return Err(self.error(&msg));
            }
            let c = self.bump();
            if c == '"' {
                if bytes > 256 {
                    let mut msg = Vec::new();
                    push_str(&mut msg, "string literal too long (");
                    push_decimal(&mut msg, bytes);
                    push_str(&mut msg, " bytes; the limit is 256)");
                    return Err(self.error(&msg));
                }
                return Ok(string_from_chars(&acc));
            } else if c == '\\' {
                if self.pos >= self.chars.len() {
                    let mut msg = Vec::new();
                    push_str(&mut msg, "unterminated escape");
                    return Err(self.error(&msg));
                }
                let e = self.bump();
                let decoded = if e == 'n' {
                    '\n'
                } else if e == 't' {
                    '\t'
                } else if e == '"' {
                    '"'
                } else if e == '\\' {
                    '\\'
                } else {
                    let mut msg = Vec::new();
                    push_str(&mut msg, "unknown escape '\\");
                    msg.push(e);
                    push_str(&mut msg, "'");
                    return Err(self.error(&msg));
                };
                proof {
                    lemma_utf8_len_push(acc@, decoded);
                }
                let n = exec_char_utf8_len(decoded);
                acc.push(decoded);
                bytes = bytes + n as u64;
            } else {
                proof {
                    lemma_utf8_len_push(acc@, c);
                }
                let n = exec_char_utf8_len(c);
                acc.push(c);
                bytes = bytes + n as u64;
            }
        }
    }

    fn ident(&mut self) -> (tok: Tok)
        requires
            old(self).wf(),
            old(self).pos < old(self).chars.len(),
            is_ident_start(old(self).chars@[old(self).pos as int]),
        ensures
            final(self).wf(),
            final(self).chars@ == old(self).chars@,
            final(self).pos == ident_end(old(self).chars@, old(self).pos as int),
            ({
                let w = old(self).chars@.subrange(old(self).pos as int, final(self).pos as int);
                tok@ == match keyword(w) {
                    Some(k) => TokV::Sym(k),
                    None => TokV::Ident(w),
                }
            }),
    {
        let ghost s = self.chars@;
        let ghost p0 = self.pos as int;
        let mut w: Vec<char> = Vec::new();
        proof {
            lemma_ident_end(s, p0);
        }
        while self.pos < self.chars.len() && is_ident_char_exec(self.peek())
            invariant
                self.wf(),
                self.chars@ == s,
                0 <= p0 <= self.pos,
                ident_end(s, self.pos as int) == ident_end(s, p0),
                w@ == s.subrange(p0, self.pos as int),
            decreases self.chars.len() - self.pos,
        {
            let c = self.bump();
            w.push(c);
            proof {
                lemma_subrange_push(s, p0, self.pos - 1);
            }
        }
        if chars_eq_str(&w, "func") {
            Tok::Func
        } else if chars_eq_str(&w, "var") {
            Tok::Var
        } else if chars_eq_str(&w, "if") {
            Tok::If
        } else if chars_eq_str(&w, "else") {
            Tok::Else
        } else if chars_eq_str(&w, "while") {
            Tok::While
        } else if chars_eq_str(&w, "for") {
            Tok::For
        } else if chars_eq_str(&w, "return") {
            Tok::Return
        } else if chars_eq_str(&w, "break") {
            Tok::Break
        } else if chars_eq_str(&w, "continue") {
            Tok::Continue
        } else if chars_eq_str(&w, "true") {
            Tok::True
        } else if chars_eq_str(&w, "false") {
            Tok::False
        } else {
            Tok::Ident(string_from_chars(&w))
        }
    }

    /// Consumes `expect` if it is the next character.
    fn two(&mut self, expect: char) -> (b: bool)
        requires
            old(self).wf(),
        ensures
            final(self).wf(),
            final(self).chars@ == old(self).chars@,
            b == (old(self).pos < old(self).chars.len() && old(self).chars@[old(self).pos as int] == expect),
            final(self).pos == old(self).pos + if b { 1int } else { 0int },
    {
        if self.pos < self.chars.len() && self.peek() == expect {
            self.bump();
            true
        } else {
            false
        }
    }

    fn op(&mut self) -> (r: Result<Tok, SyntaxError>)
        requires
            old(self).wf(),
            old(self).pos < old(self).chars.len(),
        ensures
            final(self).wf(),
            final(self).chars@ == old(self).chars@,
            match op_at(old(self).chars@, old(self).pos as int) {
                Ok((t, e)) => (r matches Ok(tok) && tok@ == t && final(self).pos == e),
                Err((msg, at)) => (r matches Err(err) && error_view(err) == (msg, line_at(old(self).chars@, at))),
            },
    {
        let c = self.bump();
        if c == '+' {
            Ok(if self.two('=') { Tok::PlusAssign } else { Tok::Plus })
        } else if c == '-' {
            Ok(if self.two('=') { Tok::MinusAssign } else { Tok::Minus })
        } else if c == '*' {
            Ok(if self.two('=') { Tok::StarAssign } else { Tok::Star })
        } else if c == '/' {
            Ok(if self.two('=') { Tok::SlashAssign } else { Tok::Slash })
        } else if c == '%' {
            Ok(Tok::Percent)
        } else if c == '=' {
            Ok(if self.two('=') { Tok::Eq } else { Tok::Assign })
        } else if c == '!' {
            Ok(if self.two('=') { Tok::Ne } else { Tok::Not })
        } else if c == '<' {
            Ok(if self.two('=') { Tok::Le } else { Tok::Lt })
        } else if c == '>' {
            Ok(if self.two('=') { Tok::Ge } else { Tok::Gt })
        } else if c == '&' {
            if self.two('&') {
                Ok(Tok::AndAnd)
            } else {
                let mut msg = Vec::new();
                push_str(&mut msg, "unexpected '&', did you mean '&&'?");
                Err(self.error(&msg))
            }
        } else if c == '|' {
            if self.two('|') {
                Ok(Tok::OrOr)
            } else {
                let mut msg = Vec::new();
                push_str(&mut msg, "unexpected '|', did you mean '||'?");
                Err(self.error(&msg))
            }
        } else if c == '(' {
            Ok(Tok::LParen)
        } else if c == ')' {
            Ok(Tok::RParen)
        } else if c == '{' {
            Ok(Tok::LBrace)
        } else if c == '}' {
            Ok(Tok::RBrace)
        } else if c == '[' {
            Ok(Tok::LBracket)
        } else if c == ']' {
            Ok(Tok::RBracket)
        } else if c == ',' {
            Ok(Tok::Comma)
        } else if c == ';' {
            Ok(Tok::Semi)
        } else {
            let mut msg = Vec::new();
            push_str(&mut msg, "unexpected character '");
            msg.push(c);
            push_str(&mut msg, "'");
            Err(self.error(&msg))
        }
    }
}

fn is_ident_char_exec(c: char) -> (b: bool)
    ensures
        b == is_ident_char(c),
{
    ('a' <= c && c <= 'z') || ('A' <= c && c <= 'Z') || ('0' <= c && c <= '9') || c == '_'
}

/// The tokens of `source` (ending with `Eof`), or its first lexical error;
/// exactly as `spec_lex` reads it.
pub fn lex(source: &str) -> (r: Result<Vec<Token>, SyntaxError>)
    requires
        source@.len() < u32::MAX,
    ensures
        match spec_lex(source@) {
            Ok(toks) => (r matches Ok(v) && tokens_view(v@) == toks),
            Err(e) => (r matches Err(err) && error_view(err) == e),
        },
{
    let mut lx = Lexer { chars: chars_of(source), pos: 0, line: 1 };
    let ghost s = source@;
    proof {
        assert(s.take(0) =~= Seq::<char>::empty());
    }
    let mut out: Vec<Token> = Vec::new();
    proof {
        assert(tokens_view(out@) + spec_lex(s)->Ok_0 =~= spec_lex(s)->Ok_0);
    }
    loop
        invariant
            lx.wf(),
            lx.chars@ == s,
            s == source@,
            match lex_from(s, lx.pos as int) {
                Ok(rest) => spec_lex(s) == Ok::<Seq<(TokV, int)>, (Seq<char>, int)>(tokens_view(out@) + rest),
                Err(e) => spec_lex(s) == Err::<Seq<(TokV, int)>, (Seq<char>, int)>(e),
            },
        decreases lx.chars.len() - lx.pos,
    {
        let ghost p = lx.pos as int;
        proof {
            lemma_trivia_end(s, p);
        }
        match lx.skip_ws_and_comments() {
            Ok(()) => {}
            Err(e) => {
                proof {
                    assert(lex_from(s, p) == Err::<Seq<(TokV, int)>, (Seq<char>, int)>(("unterminated block comment"@, line_at(s, s.len() as int))));
                }
                return Err(e);
            }
        }
        let line = lx.line;
        let ghost q = lx.pos as int;
        if lx.pos >= lx.chars.len() {
            let eof = Token { tok: Tok::Eof, line };
            proof {
                lemma_tokens_view_push(out@, eof);
            }
            out.push(eof);
            proof {
                assert(tokens_view(out@) =~= tokens_view(out@.drop_last()) + seq![(TokV::Sym(Tok::Eof), line_at(s, q))]);
            }
            return Ok(out);
        }
        let c = lx.peek();
        let tok = if '0' <= c && c <= '9' {
            proof {
                lemma_digits_end(s, q);
                if digits_end(s, q) + 1 <= s.len() {
                    lemma_digits_end(s, digits_end(s, q) + 1);
                }
            }
            lx.num()
        } else if c == '"' {
            proof {
                lemma_string_body(s, q + 1, Seq::empty());
            }
            match lx.string() {
                Ok(text) => Tok::Str(text),
                Err(e) => {
                    proof {
                        let e2 = token_at(s, q)->Err_0;
                        assert(lex_from(s, p) == Err::<Seq<(TokV, int)>, (Seq<char>, int)>((e2.0, line_at(s, e2.1))));
                    }
                    return Err(e);
                }
            }
        } else if ('a' <= c && c <= 'z') || ('A' <= c && c <= 'Z') || c == '_' {
            proof {
                lemma_ident_end(s, q);
            }
            lx.ident()
        } else {
            match lx.op() {
                Ok(t) => t,
                Err(e) => {
                    proof {
                        let e2 = token_at(s, q)->Err_0;
                        assert(lex_from(s, p) == Err::<Seq<(TokV, int)>, (Seq<char>, int)>((e2.0, line_at(s, e2.1))));
                    }
                    return Err(e);
                }
            }
        };
        let ghost r = lx.pos as int;
        proof {
            assert(token_at(s, q) == Ok::<(TokV, int), (Seq<char>, int)>((tok@, r)));
            assert(p < r <= s.len());
        }
        let t = Token { tok, line };
        let ghost old_out = out@;
        proof {
            lemma_tokens_view_push(out@, t);
        }
        out.push(t);
        proof {
            assert(tokens_view(out@) == tokens_view(old_out).push((tok@, line_at(s, q))));
            match lex_from(s, r) {
                Ok(rest) => {
                    assert(lex_from(s, p) == Ok::<Seq<(TokV, int)>, (Seq<char>, int)>(seq![(tok@, line_at(s, q))] + rest));
                    assert(tokens_view(out@) + rest =~= tokens_view(old_out) + (seq![(tok@, line_at(s, q))] + rest));
                }
                Err(e) => {
                    assert(lex_from(s, p) == Err::<Seq<(TokV, int)>, (Seq<char>, int)>(e));
                }
            }
        }
    }
}

/// A string literal that reads successfully fits the string limit.
pub proof fn lemma_string_body_fits(s: Seq<char>, p: int, acc: Seq<char>)
    requires
        string_body(s, p, acc) is Ok,
    ensures
        utf8_len(string_body(s, p, acc)->Ok_0.0) <= MAX_STRING_LEN,
    decreases s.len() - p,
{
    if 0 <= p < s.len() && s[p] != '"' {
        if s[p] == '\\' {
            if p + 1 < s.len() {
                if let Some(c) = escape_of(s[p + 1]) {
                    lemma_string_body_fits(s, p + 2, acc.push(c));
                }
            }
        } else {
            lemma_string_body_fits(s, p + 1, acc.push(s[p]));
        }
    }
}

pub proof fn lemma_lex_from_strings_fit(s: Seq<char>, p: int)
    requires
        lex_from(s, p) is Ok,
    ensures
        ({
            let toks = lex_from(s, p)->Ok_0;
            forall|i: int| 0 <= i < toks.len() ==> ((#[trigger] toks[i]).0 matches TokV::Str(x) ==> utf8_len(x) <= MAX_STRING_LEN)
        }),
    decreases s.len() - p,
{
    let toks = lex_from(s, p)->Ok_0;
    match trivia_end(s, p) {
        None => {},
        Some(q) => {
            if q < s.len() {
                let (t, r) = token_at(s, q)->Ok_0;
                if s[q] == '"' {
                    lemma_string_body_fits(s, q + 1, Seq::empty());
                }
                lemma_lex_from_strings_fit(s, r);
                let rest = lex_from(s, r)->Ok_0;
                assert forall|i: int| 0 <= i < toks.len() implies ((#[trigger] toks[i]).0 matches TokV::Str(x) ==> utf8_len(x) <= MAX_STRING_LEN) by {
                    if i > 0 {
                        assert(toks[i] == rest[i - 1]);
                    }
                }
            }
        },
    }
}

/// Sandbox: every string literal of a program that lexes fits the string
/// limit (`MAX_STRING_LEN` bytes), so no program starts with a string
/// longer than robot code may build.
pub proof fn lemma_string_tokens_fit(s: Seq<char>)
    requires
        spec_lex(s) is Ok,
    ensures
        forall|i: int|
            0 <= i < spec_lex(s)->Ok_0.len() ==> ((#[trigger] spec_lex(s)->Ok_0[i]).0 matches TokV::Str(x) ==> utf8_len(x)
                <= MAX_STRING_LEN),
{
    lemma_lex_from_strings_fit(s, 0);
}

// ---------------------------------------------------------------------------
// Tokens come in reading order

proof fn lemma_line_mono(s: Seq<char>, p: int, q: int)
    requires
        0 <= p <= q <= s.len(),
    ensures
        line_at(s, p) <= line_at(s, q),
    decreases q - p,
{
    if p < q {
        lemma_line_mono(s, p, q - 1);
        lemma_line_step(s, q - 1);
    }
}

proof fn lemma_token_at_shape(s: Seq<char>, q: int)
    requires
        0 <= q < s.len(),
    ensures
        token_at(s, q) matches Ok((t, r)) ==> t != TokV::Sym(Tok::Eof) && q < r,
{
    let c = s[q];
    if is_digit(c) {
        lemma_digits_end(s, q);
        let d = digits_end(s, q);
        if d + 1 < s.len() {
            lemma_digits_end(s, d + 1);
        }
        assert(q < number_end(s, q));
    } else if c == '"' {
        lemma_string_body(s, q + 1, Seq::empty());
    } else if is_ident_start(c) {
        lemma_ident_end(s, q);
        let w = s.subrange(q, ident_end(s, q));
        assert(keyword(w) != Some(Tok::Eof));
    } else {
        assert(op_at(s, q) matches Ok((t, r)) ==> t != TokV::Sym(Tok::Eof) && q < r);
    }
}

proof fn lemma_lex_from_order(s: Seq<char>, p: int)
    requires
        0 <= p <= s.len(),
    ensures
        lex_from(s, p) matches Ok(t) ==> {
            &&& forall|i: int| 0 <= i < t.len() - 1 ==> (#[trigger] t[i]).0 != TokV::Sym(Tok::Eof)
            &&& forall|i: int, j: int| 0 <= i <= j < t.len() ==> (#[trigger] t[i]).1 <= (#[trigger] t[j]).1
            &&& forall|i: int| 0 <= i < t.len() ==> line_at(s, p) <= (#[trigger] t[i]).1
        },
    decreases s.len() - p,
{
    lemma_trivia_end(s, p);
    match trivia_end(s, p) {
        None => {},
        Some(q) => {
            lemma_line_mono(s, p, q);
            if q < s.len() {
                lemma_token_at_shape(s, q);
                match token_at(s, q) {
                    Err(_) => {},
                    Ok((t, r)) => if p < r <= s.len() {
                        lemma_lex_from_order(s, r);
                        lemma_line_mono(s, q, r);
                        match lex_from(s, r) {
                            Ok(rest) => {
                                let all = seq![(t, line_at(s, q))] + rest;
                                assert forall|i: int| 0 <= i < all.len() - 1 implies (#[trigger] all[i]).0
                                    != TokV::Sym(Tok::Eof) by {
                                    if i > 0 {
                                        assert(all[i] == rest[i - 1]);
                                    }
                                }
                                assert forall|i: int, j: int| 0 <= i <= j < all.len() implies (#[trigger] all[i]).1
                                    <= (#[trigger] all[j]).1 by {
                                    if i > 0 {
                                        assert(all[i] == rest[i - 1]);
                                    }
                                    if j > 0 {
                                        assert(all[j] == rest[j - 1]);
                                        assert(line_at(s, r) <= rest[j - 1].1);
                                    }
                                }
                                assert forall|i: int| 0 <= i < all.len() implies line_at(s, p) <= (
                                #[trigger] all[i]).1 by {
                                    if i > 0 {
                                        assert(all[i] == rest[i - 1]);
                                        assert(line_at(s, r) <= rest[i - 1].1);
                                    }
                                }
                            },
                            Err(_) => {},
                        }
                    },
                }
            }
        },
    }
}

/// The tokens of a source come in reading order: only the last one is
/// `Eof`, and their line numbers never go back.
pub proof fn lemma_lex_order(s: Seq<char>)
    requires
        spec_lex(s) is Ok,
    ensures
        forall|i: int|
            0 <= i < spec_lex(s)->Ok_0.len() - 1 ==> (#[trigger] spec_lex(s)->Ok_0[i]).0 != TokV::Sym(Tok::Eof),
        forall|i: int, j: int|
            0 <= i <= j < spec_lex(s)->Ok_0.len() ==> (#[trigger] spec_lex(s)->Ok_0[i]).1 <= (
            #[trigger] spec_lex(s)->Ok_0[j]).1,
{
    lemma_lex_from_order(s, 0);
}

} // verus!
