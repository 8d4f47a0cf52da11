//! Text escaping for the JSON replay format consumed by the web viewer.
use vstd::prelude::*;
use crate::battle::EndReason;
use crate::text::{chars_of, decimal, push_decimal, push_str, string_from_chars};

verus! {

/// Lower-case hexadecimal digit for `d < 16`.
pub open spec fn hex_digit(d: nat) -> char {
    if d == 0 { '0' }
    else if d == 1 { '1' }
    else if d == 2 { '2' }
    else if d == 3 { '3' }
    else if d == 4 { '4' }
    else if d == 5 { '5' }
    else if d == 6 { '6' }
    else if d == 7 { '7' }
    else if d == 8 { '8' }
    else if d == 9 { '9' }
    else if d == 10 { 'a' }
    else if d == 11 { 'b' }
    else if d == 12 { 'c' }
    else if d == 13 { 'd' }
    else if d == 14 { 'e' }
    else { 'f' }
}

/// JSON rendering of one character inside a string literal.
pub open spec fn escape_char(c: char) -> Seq<char> {
    if c == '"' {
        seq!['\\', '"']
    } else if c == '\\' {
        seq!['\\', '\\']
    } else if c == '\n' {
        seq!['\\', 'n']
    } else if c == '\r' {
        seq!['\\', 'r']
    } else if c == '\t' {
        seq!['\\', 't']
    } else if (c as u32) < 0x20 {
        seq!['\\', 'u', '0', '0', hex_digit((c as u32 / 16) as nat), hex_digit((c as u32 % 16) as nat)]
    } else {
        seq![c]
    }
}

/// JSON rendering of a whole string (without the surrounding quotes).
pub open spec fn escaped(s: Seq<char>) -> Seq<char>
    decreases s.len(),
{
    if s.len() == 0 {
        Seq::empty()
    } else {
        escaped(s.drop_last()) + escape_char(s.last())
    }
}

fn exec_hex_digit(d: u32) -> (c: char)
    requires
        d < 16,
    ensures
        c == hex_digit(d as nat),
{
    if d == 0 { '0' }
    else if d == 1 { '1' }
    else if d == 2 { '2' }
    else if d == 3 { '3' }
    else if d == 4 { '4' }
    else if d == 5 { '5' }
    else if d == 6 { '6' }
    else if d == 7 { '7' }
    else if d == 8 { '8' }
    else if d == 9 { '9' }
    else if d == 10 { 'a' }
    else if d == 11 { 'b' }
    else if d == 12 { 'c' }
    else if d == 13 { 'd' }
    else if d == 14 { 'e' }
    else { 'f' }
}

/// Escape `s` for use inside a JSON string literal: quote, backslash and
/// control characters are escaped, everything else is kept as is.
pub fn json_escape(s: &str) -> (out: String)
    ensures
        out@ == escaped(s@),
{
    let cs = chars_of(s);
    let mut out: Vec<char> = Vec::new();
    let mut i: usize = 0;
    while i < cs.len()
        invariant
            i <= cs.len(),
            cs@ == s@,
            out@ == escaped(cs@.take(i as int)),
        decreases cs.len() - i,
    {
        let c = cs[i];
        if c == '"' {
            out.push('\\');
            out.push('"');
        } else if c == '\\' {
            out.push('\\');
            out.push('\\');
        } else if c == '\n' {
            out.push('\\');
            out.push('n');
        } else if c == '\r' {
            out.push('\\');
            out.push('r');
        } else if c == '\t' {
            out.push('\\');
            out.push('t');
        } else if (c as u32) < 0x20 {
            let u = c as u32;
            push_str(&mut out, "\\u00");
            proof {
                reveal_strlit("\\u00");
            }
            out.push(exec_hex_digit(u / 16));
            out.push(exec_hex_digit(u % 16));
        } else {
            out.push(c);
        }
        proof {
            let t = cs@.take(i + 1);
            assert(t.drop_last() =~= cs@.take(i as int));
            assert(t.last() == c);
        }
        i = i + 1;
    }
    proof {
        assert(cs@.take(i as int) =~= cs@);
    }
    string_from_chars(&out)
}

/// The escaped text holds no control character, so it can stand inside
/// a JSON string literal as it is.
pub proof fn lemma_escaped_has_no_control_chars(s: Seq<char>)
    ensures
        forall|i: int| 0 <= i < escaped(s).len() ==> (#[trigger] escaped(s)[i] as u32) >= 0x20,
    decreases s.len(),
{
    if s.len() > 0 {
        lemma_escaped_has_no_control_chars(s.drop_last());
        let a = escaped(s.drop_last());
        let c = s.last();
        let b = escape_char(c);
        assert forall|k: int| 0 <= k < b.len() implies (#[trigger] b[k] as u32) >= 0x20 by {
            if (c as u32) < 0x20 && c != '\n' && c != '\r' && c != '\t' {
                let hi = (c as u32 / 16) as nat;
                let lo = (c as u32 % 16) as nat;
                assert(hex_digit(hi) as u32 >= 0x20);
                assert(hex_digit(lo) as u32 >= 0x20);
            }
        }
        assert forall|i: int| 0 <= i < escaped(s).len() implies (#[trigger] escaped(s)[i] as u32) >= 0x20 by {
            if i < a.len() {
                assert(escaped(s)[i] == a[i]);
            } else {
                assert(escaped(s)[i] == b[i - a.len()]);
            }
        }
    }
}

/// Value of a lower-case hexadecimal digit.
pub open spec fn hex_value(c: char) -> nat {
    if '0' <= c && c <= '9' {
        ((c as nat) - ('0' as nat)) as nat
    } else {
        ((c as nat) - ('a' as nat) + 10) as nat
    }
}

/// The character a two-character escape `\e` stands for.
pub open spec fn unescape_char(e: char) -> char {
    if e == 'n' {
        '\n'
    } else if e == 'r' {
        '\r'
    } else if e == 't' {
        '\t'
    } else {
        e
    }
}

/// Reading a JSON string body back: each escape gives the character it
/// stands for, every other character stands for itself.
pub open spec fn unescaped(t: Seq<char>) -> Seq<char>
    decreases t.len(),
{
    if t.len() == 0 {
        Seq::empty()
    } else if t[0] == '\\' && t.len() >= 6 && t[1] == 'u' {
        seq![(hex_value(t[4]) * 16 + hex_value(t[5])) as char] + unescaped(t.subrange(6, t.len() as int))
    } else if t[0] == '\\' && t.len() >= 2 {
        seq![unescape_char(t[1])] + unescaped(t.subrange(2, t.len() as int))
    } else {
        seq![t[0]] + unescaped(t.subrange(1, t.len() as int))
    }
}

proof fn lemma_hex_round_trip(d: nat)
    requires
        d < 16,
    ensures
        hex_value(hex_digit(d)) == d,
{
}

/// Escaping, read from the front: the first character's escape, then the
/// rest.
proof fn lemma_escaped_front(c: char, q: Seq<char>)
    ensures
        escaped(seq![c] + q) == escape_char(c) + escaped(q),
    decreases q.len(),
{
    if q.len() == 0 {
        assert((seq![c] + q).drop_last() =~= Seq::<char>::empty());
        assert(escaped(Seq::<char>::empty()) =~= Seq::<char>::empty());
        assert(escape_char(c) + escaped(q) =~= escape_char(c));
        assert(Seq::<char>::empty() + escape_char(c) =~= escape_char(c));
    } else {
        let p = seq![c] + q;
        assert(p.drop_last() =~= seq![c] + q.drop_last());
        assert(p.last() == q.last());
        lemma_escaped_front(c, q.drop_last());
        assert(escape_char(c) + escaped(q.drop_last()) + escape_char(q.last())
            =~= escape_char(c) + (escaped(q.drop_last()) + escape_char(q.last())));
    }
}

/// Reading back one escaped character, whatever follows it.
proof fn lemma_unescape_one(c: char, rest: Seq<char>)
    ensures
        unescaped(escape_char(c) + rest) == seq![c] + unescaped(rest),
{
    let t = escape_char(c) + rest;
    let k = escape_char(c).len() as int;
    assert(t.subrange(k, t.len() as int) =~= rest);
    if (c as u32) < 0x20 && c != '\n' && c != '\r' && c != '\t' {
        let hi = (c as u32 / 16) as nat;
        let lo = (c as u32 % 16) as nat;
        lemma_hex_round_trip(hi);
        lemma_hex_round_trip(lo);
        assert(t[4] == hex_digit(hi));
        assert(t[5] == hex_digit(lo));
        assert(hi * 16 + lo == c as u32);
    }
}

proof fn lemma_unescape_escaped_prefix(p: Seq<char>, y: Seq<char>)
    ensures
        unescaped(escaped(p) + y) == p + unescaped(y),
    decreases p.len(),
{
    if p.len() == 0 {
        assert(escaped(p) =~= Seq::<char>::empty());
        assert(escaped(p) + y =~= y);
        assert(p + unescaped(y) =~= unescaped(y));
    } else {
        let c = p[0];
        let q = p.subrange(1, p.len() as int);
        assert(p =~= seq![c] + q);
        lemma_escaped_front(c, q);
        assert(escaped(p) + y =~= escape_char(c) + (escaped(q) + y));
        lemma_unescape_one(c, escaped(q) + y);
        lemma_unescape_escaped_prefix(q, y);
        assert(seq![c] + (q + unescaped(y)) =~= p + unescaped(y));
    }
}

/// Escaping loses nothing: reading the escaped text back gives the
/// text that was escaped.
pub proof fn lemma_unescape_escaped(s: Seq<char>)
    ensures
        unescaped(escaped(s)) == s,
{
    lemma_unescape_escaped_prefix(s, Seq::empty());
    assert(escaped(s) + Seq::<char>::empty() =~= escaped(s));
    assert(unescaped(Seq::<char>::empty()) =~= Seq::<char>::empty());
    assert(s + Seq::<char>::empty() =~= s);
}

/// `s` without its trailing `c`s.
pub open spec fn trim_end(s: Seq<char>, c: char) -> Seq<char>
    decreases s.len(),
{
    if s.len() > 0 && s.last() == c {
        trim_end(s.drop_last(), c)
    } else {
        s
    }
}

/// A number printed with two decimals, tidied for the replay: trailing
/// zeros and a trailing point dropped, and zero written `0` (never `-0`
/// or empty).
pub open spec fn tidy(s: Seq<char>) -> Seq<char> {
    let t = trim_end(trim_end(s, '0'), '.');
    if t.len() == 0 || t == seq!['-'] || t == seq!['-', '0'] {
        seq!['0']
    } else {
        t
    }
}

fn trim_end_exec(v: &Vec<char>, n: usize, c: char) -> (r: usize)
    requires
        n <= v.len(),
    ensures
        r <= n,
        v@.take(r as int) == trim_end(v@.take(n as int), c),
{
    let mut k = n;
    while k > 0 && v[k - 1] == c
        invariant
            k <= n <= v.len(),
            trim_end(v@.take(k as int), c) == trim_end(v@.take(n as int), c),
        decreases k,
    {
        proof {
            assert(v@.take(k as int).drop_last() =~= v@.take(k - 1));
        }
        k = k - 1;
    }
    k
}

/// Tidy a number printed with two decimals (`"500.00"` becomes `"500"`,
/// `"0.50"` becomes `"0.5"`, `"-0.00"` becomes `"0"`).
pub fn tidy_number(text: &str) -> (out: String)
    ensures
        out@ == tidy(text@),
{
    let v = chars_of(text);
    proof {
        assert(v@.take(v.len() as int) =~= v@);
    }
    let a = trim_end_exec(&v, v.len(), '0');
    let b = trim_end_exec(&v, a, '.');
    let ghost t = v@.take(b as int);
    if b == 0 || (b == 1 && v[0] == '-') || (b == 2 && v[0] == '-' && v[1] == '0') {
        proof {
            if b == 1 && v@[0] == '-' {
                assert(t =~= seq!['-']);
            }
            if b == 2 && v@[0] == '-' && v@[1] == '0' {
                assert(t =~= seq!['-', '0']);
            }
        }
        let z = chars_of("0");
        proof {
            reveal_strlit("0");
            assert(z@ =~= seq!['0']);
        }
        return string_from_chars(&z);
    }
    proof {
        if t == seq!['-'] {
            assert(t[0] == '-');
        }
        if t == seq!['-', '0'] {
            assert(t[0] == '-' && t[1] == '0');
        }
    }
    let mut w: Vec<char> = Vec::new();
    let mut i: usize = 0;
    while i < b
        invariant
            i <= b <= v.len(),
            w@ == v@.take(i as int),
        decreases b - i,
    {
        w.push(v[i]);
        proof {
            assert(v@.take(i + 1) =~= v@.take(i as int).push(v@[i as int]));
        }
        i = i + 1;
    }
    string_from_chars(&w)
}

// ---------------------------------------------------------------------------
// The replay document
//
// The engine prints its `f64` values itself; the document below takes them
// as text and lays out the JSON the viewer reads.

/// Display colour of robot `i` in the viewer: eight colours in turn.
pub open spec fn robot_color(i: nat) -> Seq<char> {
    let k = i % 8;
    if k == 0 {
        "#e74c3c"@
    } else if k == 1 {
        "#3498db"@
    } else if k == 2 {
        "#2ecc71"@
    } else if k == 3 {
        "#f39c12"@
    } else if k == 4 {
        "#9b59b6"@
    } else if k == 5 {
        "#1abc9c"@
    } else if k == 6 {
        "#e91e63"@
    } else {
        "#cddc39"@
    }
}

/// `robot_color`, computed.
pub fn robot_color_of(i: usize) -> (r: String)
    ensures
        r@ == robot_color(i as nat),
{
    let k = i % 8;
    if k == 0 {
        "#e74c3c".to_string()
    } else if k == 1 {
        "#3498db".to_string()
    } else if k == 2 {
        "#2ecc71".to_string()
    } else if k == 3 {
        "#f39c12".to_string()
    } else if k == 4 {
        "#9b59b6".to_string()
    } else if k == 5 {
        "#1abc9c".to_string()
    } else if k == 6 {
        "#e91e63".to_string()
    } else {
        "#cddc39".to_string()
    }
}

/// The replay's name for how a battle ended.
pub open spec fn reason_name(r: EndReason) -> Seq<char> {
    match r {
        EndReason::LastStanding => "last_standing"@,
        EndReason::TickLimit => "tick_limit"@,
    }
}

/// `reason_name`, computed.
pub fn end_reason_name(r: EndReason) -> (s: String)
    ensures
        s@ == reason_name(r),
{
    match r {
        EndReason::LastStanding => "last_standing".to_string(),
        EndReason::TickLimit => "tick_limit".to_string(),
    }
}

/// One robot of the replay: its name and its display colour.
pub struct ReplayRobot {
    pub name: String,
    pub color: String,
}

/// How the battle ended: winner (none for a draw), reason, and tick.
pub struct ReplayResult {
    pub winner: Option<usize>,
    pub reason: String,
    pub tick: u32,
}

/// One recorded tick: printed robot rows, printed bullet rows, and the
/// tick's event texts.
pub struct ReplayTick {
    pub t: u32,
    pub robots: Vec<Vec<String>>,
    pub bullets: Vec<Vec<String>>,
    pub events: Vec<String>,
}

/// A whole replay, its numbers already printed.
pub struct ReplayDoc {
    pub seed: u64,
    pub arena_w: String,
    pub arena_h: String,
    pub beam: String,
    pub robots: Vec<ReplayRobot>,
    pub result: Option<ReplayResult>,
    pub ticks: Vec<ReplayTick>,
}

/// `items` separated by commas.
pub open spec fn join(items: Seq<Seq<char>>) -> Seq<char>
    decreases items.len(),
{
    if items.len() == 0 {
        Seq::empty()
    } else if items.len() == 1 {
        items[0]
    } else {
        join(items.drop_last()) + ","@ + items.last()
    }
}

/// A JSON array of already-rendered items.
pub open spec fn bracket(items: Seq<Seq<char>>) -> Seq<char> {
    "["@ + join(items) + "]"@
}

pub open spec fn strings_view(v: Seq<String>) -> Seq<Seq<char>> {
    Seq::new(v.len(), |i: int| v[i]@)
}

/// Rows of printed numbers: an array of arrays.
pub open spec fn rows_text(rows: Seq<Vec<String>>) -> Seq<char> {
    bracket(Seq::new(rows.len(), |i: int| bracket(strings_view(rows[i]@))))
}

pub open spec fn events_text(es: Seq<String>) -> Seq<char> {
    bracket(Seq::new(es.len(), |i: int| "\""@ + escaped(es[i]@) + "\""@))
}

pub open spec fn tick_text(t: ReplayTick) -> Seq<char> {
    "{\"t\":"@ + decimal(t.t as nat) + ",\"r\":"@ + rows_text(t.robots@) + ",\"b\":"@ + rows_text(t.bullets@)
        + ",\"e\":"@ + events_text(t.events@) + "}"@
}

pub open spec fn robot_text(r: ReplayRobot) -> Seq<char> {
    "{\"name\":\""@ + escaped(r.name@) + "\",\"color\":\""@ + r.color@ + "\"}"@
}

pub open spec fn result_text(r: Option<ReplayResult>) -> Seq<char> {
    match r {
        None => Seq::empty(),
        Some(res) => "\"result\":{\"winner\":"@ + match res.winner {
            Some(w) => decimal(w as nat),
            None => "null"@,
        } + ",\"reason\":\""@ + res.reason@ + "\",\"tick\":"@ + decimal(res.tick as nat) + "},"@,
    }
}

/// The replay JSON: format and version, seed, arena, robots, result (once
/// the battle has one), and the ticks.
pub open spec fn replay_text(d: ReplayDoc) -> Seq<char> {
    "{\"format\":\"tank-replay\",\"version\":1,"@ + "\"seed\":"@ + decimal(d.seed as nat) + ","@
        + "\"arena\":{\"w\":"@ + d.arena_w@ + ",\"h\":"@ + d.arena_h@ + ",\"beam\":"@ + d.beam@ + "},"@
        + "\"robots\":"@ + bracket(Seq::new(d.robots@.len(), |i: int| robot_text(d.robots@[i]))) + ","@
        + result_text(d.result) + "\"ticks\":"@ + bracket(Seq::new(d.ticks@.len(), |i: int| tick_text(d.ticks@[i])))
        + "}"@
}

/// Adding one more item to a comma-separated list.
pub proof fn lemma_join_step(items: Seq<Seq<char>>, i: int)
    requires
        0 <= i < items.len(),
    ensures
        join(items.take(i + 1)) == if i == 0 { items[0] } else { join(items.take(i)) + ","@ + items[i] },
{
    assert(items.take(i + 1).drop_last() =~= items.take(i));
    assert(items.take(i + 1).last() == items[i]);
    if i == 0 {
        assert(items.take(1)[0] == items[0]);
    }
}

/// Append `[f1,f2,...]` for printed fields.
fn push_fields(out: &mut Vec<char>, fields: &Vec<String>)
    ensures
        final(out)@ == old(out)@ + bracket(strings_view(fields@)),
{
    let ghost start = out@;
    let ghost x = strings_view(fields@);
    push_str(out, "[");
    proof {
        assert(x.take(0) =~= Seq::<Seq<char>>::empty());
    }
    let mut i: usize = 0;
    while i < fields.len()
        invariant
            i <= fields.len(),
            x == strings_view(fields@),
            out@ == start + "["@ + join(x.take(i as int)),
        decreases fields.len() - i,
    {
        let ghost before = out@;
        proof {
            lemma_join_step(x, i as int);
        }
        if i > 0 {
            push_str(out, ",");
        }
        push_str(out, fields[i].as_str());
        proof {
            if i > 0 {
                assert(out@ =~= start + "["@ + (join(x.take(i as int)) + ","@ + x[i as int]));
            } else {
                assert(out@ =~= start + "["@ + x[0]);
            }
        }
        i = i + 1;
    }
    push_str(out, "]");
    proof {
        assert(x.take(i as int) =~= x);
        assert(out@ =~= start + ("["@ + join(x) + "]"@));
    }
}

/// Append rows of printed numbers: `[[...],[...]]`.
fn push_rows(out: &mut Vec<char>, rows: &Vec<Vec<String>>)
    ensures
        final(out)@ == old(out)@ + rows_text(rows@),
{
    let ghost start = out@;
    let ghost x = Seq::new(rows@.len(), |i: int| bracket(strings_view(rows@[i]@)));
    push_str(out, "[");
    proof {
        assert(x.take(0) =~= Seq::<Seq<char>>::empty());
    }
    let mut i: usize = 0;
    while i < rows.len()
        invariant
            i <= rows.len(),
            x == Seq::new(rows@.len(), |i: int| bracket(strings_view(rows@[i]@))),
            out@ == start + "["@ + join(x.take(i as int)),
        decreases rows.len() - i,
    {
        proof {
            lemma_join_step(x, i as int);
        }
        if i > 0 {
            push_str(out, ",");
        }
        push_fields(out, &rows[i]);
        proof {
            if i > 0 {
                assert(out@ =~= start + "["@ + (join(x.take(i as int)) + ","@ + x[i as int]));
            } else {
                assert(out@ =~= start + "["@ + x[0]);
            }
        }
        i = i + 1;
    }
    push_str(out, "]");
    proof {
        assert(x.take(i as int) =~= x);
        assert(out@ =~= start + ("["@ + join(x) + "]"@));
    }
}

/// Append the event texts, each escaped and quoted: `["...","..."]`.
fn push_events(out: &mut Vec<char>, es: &Vec<String>)
    ensures
        final(out)@ == old(out)@ + events_text(es@),
{
    let ghost start = out@;
    let ghost x = Seq::new(es@.len(), |i: int| "\""@ + escaped(es@[i]@) + "\""@);
    push_str(out, "[");
    proof {
        assert(x.take(0) =~= Seq::<Seq<char>>::empty());
    }
    let mut i: usize = 0;
    while i < es.len()
        invariant
            i <= es.len(),
            x == Seq::new(es@.len(), |i: int| "\""@ + escaped(es@[i]@) + "\""@),
            out@ == start + "["@ + join(x.take(i as int)),
        decreases es.len() - i,
    {
        proof {
            lemma_join_step(x, i as int);
        }
        if i > 0 {
            push_str(out, ",");
        }
        let e = json_escape(es[i].as_str());
        push_str(out, "\"");
        push_str(out, e.as_str());
        push_str(out, "\"");
        proof {
            if i > 0 {
                assert(out@ =~= start + "["@ + (join(x.take(i as int)) + ","@ + x[i as int]));
            } else {
                assert(out@ =~= start + "["@ + x[0]);
            }
        }
        i = i + 1;
    }
    push_str(out, "]");
    proof {
        assert(x.take(i as int) =~= x);
        assert(out@ =~= start + ("["@ + join(x) + "]"@));
    }
}

fn push_tick(out: &mut Vec<char>, t: &ReplayTick)
    ensures
        final(out)@ == old(out)@ + tick_text(*t),
{
    let ghost start = out@;
    push_str(out, "{\"t\":");
    push_decimal(out, t.t as u64);
    push_str(out, ",\"r\":");
    push_rows(out, &t.robots);
    push_str(out, ",\"b\":");
    push_rows(out, &t.bullets);
    push_str(out, ",\"e\":");
    push_events(out, &t.events);
    push_str(out, "}");
    proof {
        assert(out@ =~= start + tick_text(*t));
    }
}

fn push_robot(out: &mut Vec<char>, r: &ReplayRobot)
    ensures
        final(out)@ == old(out)@ + robot_text(*r),
{
    let ghost start = out@;
    push_str(out, "{\"name\":\"");
    let e = json_escape(r.name.as_str());
    push_str(out, e.as_str());
    push_str(out, "\",\"color\":\"");
    push_str(out, r.color.as_str());
    push_str(out, "\"}");
    proof {
        assert(out@ =~= start + robot_text(*r));
    }
}

fn push_result(out: &mut Vec<char>, r: &Option<ReplayResult>)
    ensures
        final(out)@ == old(out)@ + result_text(*r),
{
    let ghost start = out@;
    match r {
        None => {
            proof {
                assert(out@ =~= start + result_text(*r));
            }
        },
        Some(res) => {
            push_str(out, "\"result\":{\"winner\":");
            match res.winner {
                Some(w) => push_decimal(out, w as u64),
                None => push_str(out, "null"),
            }
            push_str(out, ",\"reason\":\"");
            push_str(out, res.reason.as_str());
            push_str(out, "\",\"tick\":");
            push_decimal(out, res.tick as u64);
            push_str(out, "},");
            proof {
                assert(out@ =~= start + result_text(*r));
            }
        },
    }
}

/// The replay document as JSON text.
pub fn replay_json(d: &ReplayDoc) -> (out: String)
    ensures
        out@ == replay_text(*d),
{
    let mut v: Vec<char> = Vec::new();
    push_str(&mut v, "{\"format\":\"tank-replay\",\"version\":1,");
    push_str(&mut v, "\"seed\":");
    push_decimal(&mut v, d.seed);
    push_str(&mut v, ",");
    push_str(&mut v, "\"arena\":{\"w\":");
    push_str(&mut v, d.arena_w.as_str());
    push_str(&mut v, ",\"h\":");
    push_str(&mut v, d.arena_h.as_str());
    push_str(&mut v, ",\"beam\":");
    push_str(&mut v, d.beam.as_str());
    push_str(&mut v, "},");
    push_str(&mut v, "\"robots\":");
    let ghost before_robots = v@;
    let ghost xr = Seq::new(d.robots@.len(), |i: int| robot_text(d.robots@[i]));
    push_str(&mut v, "[");
    proof {
        assert(xr.take(0) =~= Seq::<Seq<char>>::empty());
    }
    let mut i: usize = 0;
    while i < d.robots.len()
        invariant
            i <= d.robots.len(),
            xr == Seq::new(d.robots@.len(), |i: int| robot_text(d.robots@[i])),
            v@ == before_robots + "["@ + join(xr.take(i as int)),
        decreases d.robots.len() - i,
    {
        proof {
            lemma_join_step(xr, i as int);
        }
        if i > 0 {
            push_str(&mut v, ",");
        }
        push_robot(&mut v, &d.robots[i]);
        proof {
            if i > 0 {
                assert(v@ =~= before_robots + "["@ + (join(xr.take(i as int)) + ","@ + xr[i as int]));
            } else {
                assert(v@ =~= before_robots + "["@ + xr[0]);
            }
        }
        i = i + 1;
    }
    push_str(&mut v, "]");
    proof {
        assert(xr.take(i as int) =~= xr);
        assert(v@ =~= before_robots + bracket(xr));
    }
    push_str(&mut v, ",");
    push_result(&mut v, &d.result);
    push_str(&mut v, "\"ticks\":");
    let ghost before_ticks = v@;
    let ghost xt = Seq::new(d.ticks@.len(), |i: int| tick_text(d.ticks@[i]));
    push_str(&mut v, "[");
    proof {
        assert(xt.take(0) =~= Seq::<Seq<char>>::empty());
    }
    let mut j: usize = 0;
    while j < d.ticks.len()
        invariant
            j <= d.ticks.len(),
            xt == Seq::new(d.ticks@.len(), |i: int| tick_text(d.ticks@[i])),
            v@ == before_ticks + "["@ + join(xt.take(j as int)),
        decreases d.ticks.len() - j,
    {
        proof {
            lemma_join_step(xt, j as int);
        }
        if j > 0 {
            push_str(&mut v, ",");
        }
        push_tick(&mut v, &d.ticks[j]);
        proof {
            if j > 0 {
                assert(v@ =~= before_ticks + "["@ + (join(xt.take(j as int)) + ","@ + xt[j as int]));
            } else {
                assert(v@ =~= before_ticks + "["@ + xt[0]);
            }
        }
        j = j + 1;
    }
    push_str(&mut v, "]");
    proof {
        assert(xt.take(j as int) =~= xt);
        assert(v@ =~= before_ticks + bracket(xt));
    }
    push_str(&mut v, "}");
    proof {
        assert(v@ =~= replay_text(*d));
    }
    string_from_chars(&v)
}

// ---------------------------------------------------------------------------
// Arrays keep their items in order

/// A JSON array grows at its end: adding an item puts it last, after a
/// comma when the array had items, and keeps the items before it.
pub proof fn lemma_bracket_push(items: Seq<Seq<char>>, x: Seq<char>)
    ensures
        bracket(items.push(x)) == if items.len() == 0 {
            seq!['['] + x + seq![']']
        } else {
            bracket(items).drop_last() + seq![','] + x + seq![']']
        },
{
    reveal_strlit("[");
    reveal_strlit("]");
    reveal_strlit(",");
    let a = items.push(x);
    assert(a.drop_last() =~= items);
    if items.len() == 0 {
        assert(join(a) == x);
    } else {
        assert(join(a) == join(items) + ","@ + x);
        assert((seq!['['] + join(items) + seq![']']).drop_last() =~= seq!['['] + join(items));
    }
    assert(bracket(a) =~= seq!['['] + join(a) + seq![']']);
    assert(bracket(items) =~= seq!['['] + join(items) + seq![']']);
    if items.len() > 0 {
        assert(bracket(items).drop_last() =~= seq!['['] + join(items));
        assert(bracket(a) =~= bracket(items).drop_last() + seq![','] + x + seq![']']);
    } else {
        assert(bracket(a) =~= seq!['['] + x + seq![']']);
    }
}

/// Rows are written in input order: the text of the rows with one more row
/// is the text of the rows before, with the new row's array added last.
/// So the k-th array of a tick's `"r"` (or `"b"`) is its k-th row.
pub proof fn lemma_rows_in_order(rows: Seq<Vec<String>>, row: Vec<String>)
    ensures
        rows_text(seq![]) == seq!['[', ']'],
        rows_text(rows.push(row)) == if rows.len() == 0 {
            seq!['['] + bracket(strings_view(row@)) + seq![']']
        } else {
            rows_text(rows).drop_last() + seq![','] + bracket(strings_view(row@)) + seq![']']
        },
{
    reveal_strlit("[");
    reveal_strlit("]");
    let items = Seq::new(rows.len(), |i: int| bracket(strings_view(rows[i]@)));
    let r2 = rows.push(row);
    let items2 = Seq::new(r2.len(), |i: int| bracket(strings_view(r2[i]@)));
    assert(items2 =~= items.push(bracket(strings_view(row@))));
    lemma_bracket_push(items, bracket(strings_view(row@)));
    let e = Seq::new(0, |i: int| bracket(strings_view(Seq::<Vec<String>>::empty()[i]@)));
    assert(e =~= Seq::<Seq<char>>::empty());
    assert(rows_text(seq![]) =~= seq!['[', ']']);
}

} // verus!
