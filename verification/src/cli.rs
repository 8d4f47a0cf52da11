//! Command-line options of the `tank` program: the words after `tank run`
//! and `tank check`, read into plain values.
use vstd::prelude::*;
use crate::ast::names_view;
use crate::text::{chars_eq_str, chars_of, parse_uint, parse_uint_exec, push_str, string_from_chars};

verus! {

/// Options of `tank run`.
pub struct RunOptions {
    pub seed: Option<u64>,
    pub max_ticks: u32,
    pub out: String,
    pub verbose: bool,
    pub quiet: bool,
    /// The robot files, in order.
    pub paths: Vec<String>,
}

pub struct OptsV {
    pub seed: Option<u64>,
    pub max_ticks: u32,
    pub out: Seq<char>,
    pub verbose: bool,
    pub quiet: bool,
    pub paths: Seq<Seq<char>>,
}

pub open spec fn opts_view(o: RunOptions) -> OptsV {
    OptsV {
        seed: o.seed,
        max_ticks: o.max_ticks,
        out: o.out@,
        verbose: o.verbose,
        quiet: o.quiet,
        paths: names_view(o.paths@),
    }
}

/// No seed (one is taken from the clock), 3000 ticks, `tank_replay.json`.
pub open spec fn default_opts() -> OptsV {
    OptsV {
        seed: None,
        max_ticks: 3000,
        out: "tank_replay.json"@,
        verbose: false,
        quiet: false,
        paths: Seq::empty(),
    }
}

/// An option word: it starts with `--`.
pub open spec fn is_option(a: Seq<char>) -> bool {
    a.len() >= 2 && a[0] == '-' && a[1] == '-'
}

/// `prefix got'`: the complaint about a value that is not a number.
pub open spec fn number_expected(prefix: Seq<char>, got: Seq<char>) -> Seq<char> {
    prefix + got + "'"@
}

/// Reading the words from `i` on, with the options `o` read so far.
pub open spec fn s_run_args(args: Seq<Seq<char>>, i: int, o: OptsV) -> Result<OptsV, Seq<char>>
    decreases args.len() - i,
{
    if i < 0 || i >= args.len() {
        if o.paths.len() < 2 {
            Err("run: need at least two robot files"@)
        } else {
            Ok(o)
        }
    } else {
        let a = args[i];
        let has_next = i + 1 < args.len();
        if a == "--seed"@ {
            if !has_next {
                Err("--seed expects a number"@)
            } else {
                match parse_uint(args[i + 1], u64::MAX as nat) {
                    None => Err(number_expected("--seed expects a number, got '"@, args[i + 1])),
                    Some(n) => s_run_args(args, i + 2, OptsV { seed: Some(n as u64), ..o }),
                }
            }
        } else if a == "--max-ticks"@ {
            if !has_next {
                Err("--max-ticks expects a number"@)
            } else {
                match parse_uint(args[i + 1], u32::MAX as nat) {
                    None => Err(number_expected("--max-ticks expects a number, got '"@, args[i + 1])),
                    Some(n) => s_run_args(args, i + 2, OptsV { max_ticks: n as u32, ..o }),
                }
            }
        } else if a == "--out"@ {
            if !has_next {
                Err("--out expects a path"@)
            } else {
                s_run_args(args, i + 2, OptsV { out: args[i + 1], ..o })
            }
        } else if a == "--verbose"@ {
            s_run_args(args, i + 1, OptsV { verbose: true, ..o })
        } else if a == "--quiet"@ {
            s_run_args(args, i + 1, OptsV { quiet: true, ..o })
        } else if is_option(a) {
            Err("unknown option '"@ + a + "'"@)
        } else {
            s_run_args(args, i + 1, OptsV { paths: o.paths.push(a), ..o })
        }
    }
}

fn is_option_exec(a: &Vec<char>) -> (r: bool)
    ensures
        r == is_option(a@),
{
    a.len() >= 2 && a[0] == '-' && a[1] == '-'
}

fn message(parts: &Vec<char>) -> (s: String)
    ensures
        s@ == parts@,
{
    string_from_chars(parts)
}

/// Read the words after `tank run`: options and robot files.
pub fn parse_run_args(args: &Vec<String>) -> (r: Result<RunOptions, String>)
    ensures
        match s_run_args(names_view(args@), 0, default_opts()) {
            Ok(o) => r matches Ok(x) && opts_view(x) == o,
            Err(m) => r matches Err(x) && x@ == m,
        },
{
    let ghost s = names_view(args@);
    let mut o = RunOptions {
        seed: None,
        max_ticks: 3000,
        out: string_from_chars(&chars_of("tank_replay.json")),
        verbose: false,
        quiet: false,
        paths: Vec::new(),
    };
    proof {
        assert(names_view(o.paths@) =~= Seq::<Seq<char>>::empty());
    }
    let mut i: usize = 0;
    while i < args.len()
        invariant
            i <= args.len() + 1,
            s == names_view(args@),
            s_run_args(s, i as int, opts_view(o)) == s_run_args(s, 0, default_opts()),
        decreases args.len() + 1 - i,
    {
        let a = chars_of(args[i].as_str());
        let has_next = i + 1 < args.len();
        if chars_eq_str(&a, "--seed") {
            if !has_next {
                return Err(message(&chars_of("--seed expects a number")));
            }
            let v = chars_of(args[i + 1].as_str());
            proof {
                assert(v@.subrange(0, v.len() as int) =~= v@);
            }
            match parse_uint_exec(&v, 0, v.len(), 0xFFFF_FFFF_FFFF_FFFF) {
                None => {
                    let mut m = chars_of("--seed expects a number, got '");
                    push_str(&mut m, args[i + 1].as_str());
                    push_str(&mut m, "'");
                    return Err(message(&m));
                },
                Some(n) => {
                    o.seed = Some(n);
                    i = i + 2;
                },
            }
        } else if chars_eq_str(&a, "--max-ticks") {
            if !has_next {
                return Err(message(&chars_of("--max-ticks expects a number")));
            }
            let v = chars_of(args[i + 1].as_str());
            proof {
                assert(v@.subrange(0, v.len() as int) =~= v@);
            }
            match parse_uint_exec(&v, 0, v.len(), 0xFFFF_FFFF) {
                None => {
                    let mut m = chars_of("--max-ticks expects a number, got '");
                    push_str(&mut m, args[i + 1].as_str());
                    push_str(&mut m, "'");
                    return Err(message(&m));
                },
                Some(n) => {
                    o.max_ticks = n as u32;
                    i = i + 2;
                },
            }
        } else if chars_eq_str(&a, "--out") {
            if !has_next {
                return Err(message(&chars_of("--out expects a path")));
            }
            o.out = args[i + 1].clone();
            i = i + 2;
        } else if chars_eq_str(&a, "--verbose") {
            o.verbose = true;
            i = i + 1;
        } else if chars_eq_str(&a, "--quiet") {
            o.quiet = true;
            i = i + 1;
        } else if is_option_exec(&a) {
            let mut m = chars_of("unknown option '");
            push_str(&mut m, args[i].as_str());
            push_str(&mut m, "'");
            return Err(message(&m));
        } else {
            let ghost old_paths = o.paths@;
            o.paths.push(args[i].clone());
            proof {
                assert(names_view(o.paths@) =~= names_view(old_paths).push(args@[i as int]@));
            }
            i = i + 1;
        }
    }
    if o.paths.len() < 2 {
        return Err(message(&chars_of("run: need at least two robot files")));
    }
    Ok(o)
}

/// The words that are not options, in order.
pub open spec fn non_options(args: Seq<Seq<char>>) -> Seq<Seq<char>>
    decreases args.len(),
{
    if args.len() == 0 {
        Seq::empty()
    } else if is_option(args.last()) {
        non_options(args.drop_last())
    } else {
        non_options(args.drop_last()).push(args.last())
    }
}

/// The robot files named after `tank check`: every word that is not an
/// option.
pub fn check_paths(args: &Vec<String>) -> (r: Vec<String>)
    ensures
        names_view(r@) == non_options(names_view(args@)),
{
    let ghost s = names_view(args@);
    let mut out: Vec<String> = Vec::new();
    let mut i: usize = 0;
    proof {
        assert(s.take(0) =~= Seq::<Seq<char>>::empty());
        assert(names_view(out@) =~= Seq::<Seq<char>>::empty());
    }
    while i < args.len()
        invariant
            i <= args.len(),
            s == names_view(args@),
            names_view(out@) == non_options(s.take(i as int)),
        decreases args.len() - i,
    {
        proof {
            assert(s.take(i + 1).drop_last() =~= s.take(i as int));
            assert(s.take(i + 1).last() == args@[i as int]@);
        }
        let a = chars_of(args[i].as_str());
        if !is_option_exec(&a) {
            let ghost old_out = out@;
            out.push(args[i].clone());
            proof {
                assert(names_view(out@) =~= names_view(old_out).push(args@[i as int]@));
            }
        }
        i = i + 1;
    }
    proof {
        assert(s.take(i as int) =~= s);
    }
    out
}

// ---------------------------------------------------------------------------
// Flags

/// Appending a word to a command line that reads well: everything read
/// before it is read the same way, and the word is read last.
proof fn lemma_run_args_push(args: Seq<Seq<char>>, x: Seq<char>, i: int, o: OptsV)
    requires
        0 <= i <= args.len(),
        s_run_args(args, i, o) is Ok,
    ensures
        s_run_args(args, i, o)->Ok_0.paths.len() >= 2,
        s_run_args(args.push(x), i, o) == s_run_args(args.push(x), args.len() as int, s_run_args(args, i, o)->Ok_0),
    decreases args.len() - i,
{
    reveal_strlit("--seed");
    reveal_strlit("--max-ticks");
    reveal_strlit("--out");
    reveal_strlit("--verbose");
    reveal_strlit("--quiet");
    let a2 = args.push(x);
    if i < args.len() {
        let a = args[i];
        assert(a2[i] == a);
        if i + 1 < args.len() {
            assert(a2[i + 1] == args[i + 1]);
        }
        if a == "--seed"@ {
            let n = parse_uint(args[i + 1], u64::MAX as nat)->Some_0;
            lemma_run_args_push(args, x, i + 2, OptsV { seed: Some(n as u64), ..o });
        } else if a == "--max-ticks"@ {
            let n = parse_uint(args[i + 1], u32::MAX as nat)->Some_0;
            lemma_run_args_push(args, x, i + 2, OptsV { max_ticks: n as u32, ..o });
        } else if a == "--out"@ {
            lemma_run_args_push(args, x, i + 2, OptsV { out: args[i + 1], ..o });
        } else if a == "--verbose"@ {
            lemma_run_args_push(args, x, i + 1, OptsV { verbose: true, ..o });
        } else if a == "--quiet"@ {
            lemma_run_args_push(args, x, i + 1, OptsV { quiet: true, ..o });
        } else if !is_option(a) {
            lemma_run_args_push(args, x, i + 1, OptsV { paths: o.paths.push(a), ..o });
        }
    }
}

/// `--verbose` turns on the robot log and changes nothing else: added to
/// any command line that reads well, the options are the same but for
/// `verbose`, which is on (in particular `quiet` keeps its value).
pub proof fn lemma_verbose_flag(args: Seq<Seq<char>>)
    requires
        s_run_args(args, 0, default_opts()) is Ok,
    ensures
        s_run_args(args.push("--verbose"@), 0, default_opts()) == Ok::<OptsV, Seq<char>>(
            OptsV { verbose: true, ..s_run_args(args, 0, default_opts())->Ok_0 },
        ),
{
    reveal_strlit("--seed");
    reveal_strlit("--max-ticks");
    reveal_strlit("--out");
    reveal_strlit("--verbose");
    lemma_run_args_push(args, "--verbose"@, 0, default_opts());
    let a2 = args.push("--verbose"@);
    let n = args.len() as int;
    let oe = s_run_args(args, 0, default_opts())->Ok_0;
    assert(a2[n] == "--verbose"@);
    assert("--verbose"@[2] != "--seed"@[2]);
    assert("--verbose"@[2] != "--max-ticks"@[2]);
    assert("--verbose"@[2] != "--out"@[2]);
    assert(a2[n] != "--seed"@);
    assert(a2[n] != "--max-ticks"@);
    assert(a2[n] != "--out"@);
    assert(s_run_args(a2, n + 1, OptsV { verbose: true, ..oe }) == Ok::<OptsV, Seq<char>>(OptsV { verbose: true, ..oe }));
    assert(s_run_args(a2, n, oe) == s_run_args(a2, n + 1, OptsV { verbose: true, ..oe }));
}

/// `--quiet` hides the stats table and changes nothing else: added to any
/// command line that reads well, the options are the same but for `quiet`,
/// which is on (in particular `verbose` keeps its value).
pub proof fn lemma_quiet_flag(args: Seq<Seq<char>>)
    requires
        s_run_args(args, 0, default_opts()) is Ok,
    ensures
        s_run_args(args.push("--quiet"@), 0, default_opts()) == Ok::<OptsV, Seq<char>>(
            OptsV { quiet: true, ..s_run_args(args, 0, default_opts())->Ok_0 },
        ),
{
    reveal_strlit("--seed");
    reveal_strlit("--max-ticks");
    reveal_strlit("--out");
    reveal_strlit("--verbose");
    reveal_strlit("--quiet");
    lemma_run_args_push(args, "--quiet"@, 0, default_opts());
    let a2 = args.push("--quiet"@);
    let n = args.len() as int;
    let oe = s_run_args(args, 0, default_opts())->Ok_0;
    assert(a2[n] == "--quiet"@);
    assert("--quiet"@[2] != "--seed"@[2]);
    assert("--quiet"@[2] != "--max-ticks"@[2]);
    assert("--quiet"@[2] != "--out"@[2]);
    assert(a2[n] != "--seed"@);
    assert(a2[n] != "--max-ticks"@);
    assert(a2[n] != "--out"@);
    assert(s_run_args(a2, n + 1, OptsV { quiet: true, ..oe }) == Ok::<OptsV, Seq<char>>(OptsV { quiet: true, ..oe }));
    assert(s_run_args(a2, n, oe) == s_run_args(a2, n + 1, OptsV { quiet: true, ..oe }));
}

} // verus!
