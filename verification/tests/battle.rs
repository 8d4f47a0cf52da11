use tank::battle::{
    after_run, compile_roster, is_decided, last_standing_winner, remaining_budget, BattleResult, EndReason, RobotSpec,
    RunAction, RunEnd,
};

#[test]
fn last_robot_standing() {
    assert!(!is_decided(&vec![true, true, false]));
    assert!(is_decided(&vec![false, true, false]));
    assert!(is_decided(&vec![false, false]));
    assert_eq!(last_standing_winner(&vec![false, true, false]), Some(1));
    assert_eq!(last_standing_winner(&vec![false, false]), None);
    assert_eq!(last_standing_winner(&vec![true, true]), Some(0));
}

#[test]
fn result_values() {
    let r = BattleResult { winner: Some(2), reason: EndReason::TickLimit, tick: 3000 };
    assert_eq!(r.reason, EndReason::TickLimit);
    assert_ne!(r.reason, EndReason::LastStanding);
    let spec = RobotSpec { name: "a".into(), source: "func main() { }".into() };
    assert!(tank::compile(&spec.source).is_ok());
}

fn spec(name: &str, source: &str) -> RobotSpec {
    RobotSpec { name: name.into(), source: source.into() }
}

#[test]
fn roster_needs_two_robots() {
    let one = vec![spec("a", "func main() { }")];
    assert_eq!(compile_roster(&one).unwrap_err(), "a battle needs at least two robots");
    assert_eq!(compile_roster(&[]).unwrap_err(), "a battle needs at least two robots");
}

#[test]
fn roster_names_the_first_robot_that_fails() {
    let specs = vec![
        spec("good", "func main() { }"),
        spec("bad", "func main() {\n x = 1; }"),
        spec("worse", "func f() { }"),
    ];
    assert_eq!(
        compile_roster(&specs).unwrap_err(),
        "robot 'bad' failed to compile: undefined variable 'x' (line 2)"
    );
}

#[test]
fn roster_compiles_every_robot_in_order() {
    let specs = vec![
        spec("a", "func main() { var x = 1; }"),
        spec("b", "func main() { }"),
        spec("c", "func helper() { } func main() { helper(); }"),
    ];
    let progs = compile_roster(&specs).unwrap();
    assert_eq!(progs.len(), 3);
    assert_eq!(progs[0].n_globals, 1);
    assert_eq!(progs[1].n_globals, 0);
    assert_eq!(progs[2].funcs.len(), 2);
}

#[test]
fn budget_left_in_a_tick() {
    assert_eq!(remaining_budget(5000, 0), 5000);
    assert_eq!(remaining_budget(5000, 1200), 3800);
    assert_eq!(remaining_budget(5000, 5000), 0);
    assert_eq!(remaining_budget(5000, 9000), 0);
}

#[test]
fn decisions_after_a_run() {
    match after_run("bob", RunEnd::Halted, 3, 30) {
        (3, RunAction::Idle(line)) => assert_eq!(line, "bob's program ended; it idles"),
        _ => panic!("halted program should idle"),
    }
    match after_run("bob", RunEnd::Fault("division by zero".into()), 3, 30) {
        (3, RunAction::Forfeit(why)) => assert_eq!(why, "runtime fault: division by zero"),
        _ => panic!("a fault forfeits"),
    }
    assert!(matches!(after_run("bob", RunEnd::BudgetExceeded, 3, 30), (4, RunAction::Yield)));
    match after_run("bob", RunEnd::BudgetExceeded, 29, 30) {
        (30, RunAction::Forfeit(why)) => assert_eq!(why, "exceeded the instruction budget 30 times"),
        _ => panic!("the last strike forfeits"),
    }
    assert!(matches!(after_run("bob", RunEnd::Blocked, 7, 30), (7, RunAction::Yield)));
    assert!(matches!(after_run("bob", RunEnd::BlockedDone, 7, 30), (7, RunAction::Resume)));
}

#[test]
fn only_a_budget_overrun_counts_a_strike() {
    assert!(matches!(after_run("bob", RunEnd::Blocked, u32::MAX, 30), (u32::MAX, RunAction::Yield)));
    assert!(matches!(after_run("bob", RunEnd::Halted, u32::MAX, 30), (u32::MAX, RunAction::Idle(_))));
}
