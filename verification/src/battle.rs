//! How a battle ends: the last robot standing wins; at the tick limit the
//! highest energy wins (that comparison is on `f64` energies and is made by
//! the engine).
use vstd::prelude::*;
use std::rc::Rc;
use crate::compile::{err_view, prog_view, program_wf, CErr, Program, ProgV};
use crate::text::{decimal, push_decimal, push_str, string_from_chars};
use crate::{compile, spec_compile};

verus! {

#[derive(Clone, Copy, Debug, PartialEq, Eq, Structural)]
pub enum EndReason {
    LastStanding,
    TickLimit,
}

#[derive(Clone, Debug)]
pub struct BattleResult {
    /// Index of the winning robot, or None for a draw.
    pub winner: Option<usize>,
    pub reason: EndReason,
    pub tick: u32,
}

/// A robot spec: name + source code.
pub struct RobotSpec {
    pub name: String,
    pub source: String,
}

/// A robot spec as plain text: (name, source).
pub open spec fn spec_view(s: RobotSpec) -> (Seq<char>, Seq<char>) {
    (s.name@, s.source@)
}

pub open spec fn specs_view(v: Seq<RobotSpec>) -> Seq<(Seq<char>, Seq<char>)> {
    v.map_values(|s: RobotSpec| spec_view(s))
}

/// Why a robot cannot enter a battle: its source does not compile.
pub open spec fn compile_failure_msg(name: Seq<char>, e: CErr) -> Seq<char> {
    "robot '"@ + name + "' failed to compile: "@ + e.0 + " (line "@ + decimal(e.1 as nat) + ")"@
}

/// The programs of the robots, compiled in order; the first robot that
/// does not compile stops the roster.
pub open spec fn compile_all(specs: Seq<(Seq<char>, Seq<char>)>) -> Result<Seq<ProgV>, Seq<char>>
    decreases specs.len(),
{
    if specs.len() == 0 {
        Ok(Seq::empty())
    } else {
        match compile_all(specs.drop_last()) {
            Err(m) => Err(m),
            Ok(ps) => match spec_compile(specs.last().1) {
                Err(e) => Err(compile_failure_msg(specs.last().0, e)),
                Ok(p) => Ok(ps.push(p)),
            },
        }
    }
}

/// A battle needs at least two robots, and every robot must compile.
pub open spec fn roster(specs: Seq<(Seq<char>, Seq<char>)>) -> Result<Seq<ProgV>, Seq<char>> {
    if specs.len() < 2 {
        Err("a battle needs at least two robots"@)
    } else {
        compile_all(specs)
    }
}

/// Compiles the robots of a battle, as `roster` says: the programs in
/// robot order, each well formed, or the message of the first failure.
pub fn compile_roster(specs: &[RobotSpec]) -> (r: Result<Vec<Rc<Program>>, String>)
    ensures
        match roster(specs_view(specs@)) {
            Ok(ps) => r matches Ok(v) && v.len() == ps.len() && forall|i: int|
                0 <= i < ps.len() ==> prog_view(*#[trigger] v@[i]) == ps[i] && program_wf(*v@[i]),
            Err(m) => r matches Err(x) && x@ == m,
        },
{
    let ghost sv = specs_view(specs@);
    if specs.len() < 2 {
        return Err("a battle needs at least two robots".to_string());
    }
    let mut progs: Vec<Rc<Program>> = Vec::new();
    let mut i: usize = 0;
    while i < specs.len()
        invariant
            2 <= specs.len(),
            i <= specs.len(),
            sv == specs_view(specs@),
            compile_all(sv.take(i as int)) matches Ok(ps) && progs.len() == ps.len() && forall|k: int|
                0 <= k < ps.len() ==> prog_view(*#[trigger] progs@[k]) == ps[k] && program_wf(*progs@[k]),
        decreases specs.len() - i,
    {
        let ghost pre = sv.take(i as int);
        proof {
            assert(sv.take(i + 1).drop_last() =~= pre);
            assert(sv.take(i + 1).last() == spec_view(specs@[i as int]));
        }
        match compile(specs[i].source.as_str()) {
            Ok(p) => {
                progs.push(p);
                i = i + 1;
            },
            Err(e) => {
                let mut v: Vec<char> = Vec::new();
                push_str(&mut v, "robot '");
                push_str(&mut v, specs[i].name.as_str());
                push_str(&mut v, "' failed to compile: ");
                push_str(&mut v, e.msg.as_str());
                push_str(&mut v, " (line ");
                push_decimal(&mut v, e.line as u64);
                push_str(&mut v, ")");
                proof {
                    assert(v@ =~= compile_failure_msg(specs@[i as int].name@, err_view(e)));
                    lemma_compile_all_stops(sv, i as int + 1);
                }
                return Err(string_from_chars(&v));
            },
        }
    }
    proof {
        assert(sv.take(i as int) =~= sv);
    }
    Ok(progs)
}

/// Once a prefix of the roster fails, the whole roster fails the same way.
proof fn lemma_compile_all_stops(specs: Seq<(Seq<char>, Seq<char>)>, k: int)
    requires
        0 <= k <= specs.len(),
        compile_all(specs.take(k)) is Err,
    ensures
        compile_all(specs) == compile_all(specs.take(k)),
    decreases specs.len(),
{
    if k < specs.len() {
        assert(specs.drop_last().take(k) =~= specs.take(k));
        lemma_compile_all_stops(specs.drop_last(), k);
    } else {
        assert(specs.take(k) =~= specs);
    }
}

/// How one run of a robot's program ended, as the engine sees it.
pub enum RunEnd {
    /// `main` returned.
    Halted,
    /// A runtime fault, with its message.
    Fault(String),
    /// The instruction budget of the tick ran out.
    BudgetExceeded,
    /// A blocking call that takes time: the robot waits for it.
    Blocked,
    /// A blocking call that completed at once, such as `ahead(0)`.
    BlockedDone,
}

/// What the engine does with a robot after a run of its program.
pub enum RunAction {
    /// The program ended: drop it and log this line; the robot idles.
    Idle(String),
    /// The robot forfeits the battle for this reason.
    Forfeit(String),
    /// Stop running the robot for this tick.
    Yield,
    /// Resume the program at once, within the same tick's budget.
    Resume,
}

/// Instructions left of a tick's `budget` once `used` have run.
pub fn remaining_budget(budget: u32, used: u64) -> (r: u32)
    ensures
        r == if used >= budget { 0 } else { budget - used },
{
    if used >= budget as u64 {
        0
    } else {
        budget - (used as u32)
    }
}

/// The engine's decision after a run of robot `name`'s program, given the
/// budget strikes it has and the number that forfeits: the new strike count
/// and the action. Only an exhausted budget is a strike.
pub fn after_run(name: &str, end: RunEnd, strikes: u32, max_strikes: u32) -> (r: (u32, RunAction))
    requires
        end is BudgetExceeded ==> strikes < u32::MAX,
    ensures
        match end {
            RunEnd::Halted => r.0 == strikes && (r.1 matches RunAction::Idle(m) && m@ == name@
                + "'s program ended; it idles"@),
            RunEnd::Fault(msg) => r.0 == strikes && (r.1 matches RunAction::Forfeit(m) && m@ == "runtime fault: "@
                + msg@),
            RunEnd::BudgetExceeded => r.0 == strikes + 1 && if strikes + 1 >= max_strikes {
                r.1 matches RunAction::Forfeit(m) && m@ == "exceeded the instruction budget "@ + decimal(
                    max_strikes as nat,
                ) + " times"@
            } else {
                r.1 is Yield
            },
            RunEnd::Blocked => r.0 == strikes && r.1 is Yield,
            RunEnd::BlockedDone => r.0 == strikes && r.1 is Resume,
        },
{
    match end {
        RunEnd::Halted => {
            let mut v: Vec<char> = Vec::new();
            push_str(&mut v, name);
            push_str(&mut v, "'s program ended; it idles");
            (strikes, RunAction::Idle(string_from_chars(&v)))
        },
        RunEnd::Fault(msg) => {
            let mut v: Vec<char> = Vec::new();
            push_str(&mut v, "runtime fault: ");
            push_str(&mut v, msg.as_str());
            (strikes, RunAction::Forfeit(string_from_chars(&v)))
        },
        RunEnd::BudgetExceeded => {
            let n = strikes + 1;
            if n >= max_strikes {
                let mut v: Vec<char> = Vec::new();
                push_str(&mut v, "exceeded the instruction budget ");
                push_decimal(&mut v, max_strikes as u64);
                push_str(&mut v, " times");
                (n, RunAction::Forfeit(string_from_chars(&v)))
            } else {
                (n, RunAction::Yield)
            }
        },
        RunEnd::Blocked => (strikes, RunAction::Yield),
        RunEnd::BlockedDone => (strikes, RunAction::Resume),
    }
}

/// Number of robots still alive.
pub open spec fn alive_count(alive: Seq<bool>) -> nat
    decreases alive.len(),
{
    if alive.len() == 0 {
        0
    } else {
        alive_count(alive.drop_last()) + if alive.last() { 1nat } else { 0nat }
    }
}

/// Index of the first robot alive, if any.
pub open spec fn first_alive(alive: Seq<bool>) -> Option<nat>
    decreases alive.len(),
{
    if alive.len() == 0 {
        None
    } else {
        match first_alive(alive.drop_last()) {
            Some(i) => Some(i),
            None => if alive.last() {
                Some((alive.len() - 1) as nat)
            } else {
                None
            },
        }
    }
}

/// The battle is decided once at most one robot is alive.
pub fn is_decided(alive: &Vec<bool>) -> (r: bool)
    ensures
        r == (alive_count(alive@) <= 1),
{
    let mut n: usize = 0;
    let mut i: usize = 0;
    proof {
        assert(alive@.take(0) =~= Seq::<bool>::empty());
    }
    while i < alive.len()
        invariant
            i <= alive.len(),
            n == alive_count(alive@.take(i as int)),
            n <= i,
        decreases alive.len() - i,
    {
        proof {
            assert(alive@.take(i + 1).drop_last() =~= alive@.take(i as int));
        }
        if alive[i] {
            n = n + 1;
        }
        i = i + 1;
    }
    proof {
        assert(alive@.take(i as int) =~= alive@);
    }
    n <= 1
}

/// The winner when the battle ends with the last robot standing: the first
/// robot alive, or none when all are dead.
pub fn last_standing_winner(alive: &Vec<bool>) -> (r: Option<usize>)
    ensures
        match first_alive(alive@) {
            Some(i) => r == Some(i as usize),
            None => r is None,
        },
{
    let mut i: usize = 0;
    proof {
        assert(alive@.take(0) =~= Seq::<bool>::empty());
    }
    while i < alive.len()
        invariant
            i <= alive.len(),
            first_alive(alive@.take(i as int)) is None,
        decreases alive.len() - i,
    {
        proof {
            assert(alive@.take(i + 1).drop_last() =~= alive@.take(i as int));
        }
        if alive[i] {
            proof {
                lemma_first_alive_prefix(alive@, i + 1);
            }
            return Some(i);
        }
        i = i + 1;
    }
    proof {
        assert(alive@.take(i as int) =~= alive@);
    }
    None
}

pub proof fn lemma_first_alive_prefix(alive: Seq<bool>, k: int)
    requires
        0 <= k <= alive.len(),
        first_alive(alive.take(k)) is Some,
    ensures
        first_alive(alive) == first_alive(alive.take(k)),
    decreases alive.len(),
{
    if k < alive.len() {
        assert(alive.drop_last().take(k) =~= alive.take(k));
        lemma_first_alive_prefix(alive.drop_last(), k);
    } else {
        assert(alive.take(k) =~= alive);
    }
}

proof fn lemma_first_alive(alive: Seq<bool>)
    ensures
        match first_alive(alive) {
            Some(i) => 0 <= i < alive.len() && alive[i as int] && forall|j: int| 0 <= j < i ==> !alive[j],
            None => forall|j: int| 0 <= j < alive.len() ==> !alive[j],
        },
    decreases alive.len(),
{
    if alive.len() > 0 {
        lemma_first_alive(alive.drop_last());
        assert forall|j: int| 0 <= j < alive.len() - 1 implies alive.drop_last()[j] == alive[j] by {}
    }
}

proof fn lemma_count_zero(alive: Seq<bool>)
    requires
        forall|j: int| 0 <= j < alive.len() ==> !alive[j],
    ensures
        alive_count(alive) == 0,
    decreases alive.len(),
{
    if alive.len() > 0 {
        lemma_count_zero(alive.drop_last());
    }
}

proof fn lemma_count_positive(alive: Seq<bool>, i: int)
    requires
        0 <= i < alive.len(),
        alive[i],
    ensures
        alive_count(alive) >= 1,
    decreases alive.len(),
{
    if i < alive.len() - 1 {
        lemma_count_positive(alive.drop_last(), i);
    }
}

/// Last robot standing: when exactly one robot is alive, it is the winner,
/// and every other robot is dead; when none is, there is no winner.
pub proof fn lemma_last_standing(alive: Seq<bool>)
    requires
        alive_count(alive) <= 1,
    ensures
        alive_count(alive) == 0 ==> first_alive(alive) is None,
        alive_count(alive) == 1 ==> (first_alive(alive) matches Some(w) && alive[w as int] && forall|j: int|
            0 <= j < alive.len() && j != w ==> !alive[j]),
    decreases alive.len(),
{
    lemma_first_alive(alive);
    if alive.len() > 0 {
        let pre = alive.drop_last();
        lemma_first_alive(pre);
        if alive.last() {
            // The last is alive, so no earlier robot is.
            if alive_count(pre) > 0 {
                assert(false);
            }
            if first_alive(pre) is Some {
                let w = first_alive(pre)->Some_0;
                lemma_count_positive(pre, w as int);
            }
            assert forall|j: int| 0 <= j < alive.len() - 1 implies !alive[j] by {
                assert(pre[j] == alive[j]);
            }
        } else {
            lemma_last_standing(pre);
            assert forall|j: int| 0 <= j < alive.len() - 1 implies pre[j] == alive[j] by {}
            match first_alive(alive) {
                Some(i) => {
                    lemma_count_positive(alive, i as int);
                },
                None => {
                    lemma_count_zero(alive);
                },
            }
        }
    }
}

} // verus!
