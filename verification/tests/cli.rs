use tank::cli::{check_paths, parse_run_args};

fn words(s: &[&str]) -> Vec<String> {
    s.iter().map(|w| w.to_string()).collect()
}

#[test]
fn run_options_and_defaults() {
    let o = parse_run_args(&words(&["a.bot", "b.bot"])).unwrap();
    assert_eq!(o.seed, None);
    assert_eq!(o.max_ticks, 3000);
    assert_eq!(o.out, "tank_replay.json");
    assert!(!o.verbose && !o.quiet);
    assert_eq!(o.paths, words(&["a.bot", "b.bot"]));

    let o = parse_run_args(&words(&[
        "--seed", "42", "a.bot", "--max-ticks", "+100", "b.bot", "c.bot", "--out", "x.json", "--verbose", "--quiet",
    ]))
    .unwrap();
    assert_eq!(o.seed, Some(42));
    assert_eq!(o.max_ticks, 100);
    assert_eq!(o.out, "x.json");
    assert!(o.verbose && o.quiet);
    assert_eq!(o.paths, words(&["a.bot", "b.bot", "c.bot"]));
    let o = parse_run_args(&words(&["--seed", "18446744073709551615", "a", "b"])).unwrap();
    assert_eq!(o.seed, Some(u64::MAX));
}

#[test]
fn run_option_errors() {
    let err = |w: &[&str]| parse_run_args(&words(w)).err().unwrap();
    assert_eq!(err(&["a.bot"]), "run: need at least two robot files");
    assert_eq!(err(&["a", "b", "--seed"]), "--seed expects a number");
    assert_eq!(err(&["a", "b", "--seed", "x1"]), "--seed expects a number, got 'x1'");
    assert_eq!(err(&["a", "b", "--seed", "18446744073709551616"]), "--seed expects a number, got '18446744073709551616'");
    assert_eq!(err(&["a", "b", "--max-ticks"]), "--max-ticks expects a number");
    assert_eq!(err(&["a", "b", "--max-ticks", "4294967296"]), "--max-ticks expects a number, got '4294967296'");
    assert_eq!(err(&["a", "b", "--out"]), "--out expects a path");
    assert_eq!(err(&["a", "--fast", "b"]), "unknown option '--fast'");
}

#[test]
fn check_takes_every_non_option() {
    assert_eq!(check_paths(&words(&["a.bot", "--x", "b.bot", "-c"])), words(&["a.bot", "b.bot", "-c"]));
    assert!(check_paths(&words(&["--only"])).is_empty());
}
