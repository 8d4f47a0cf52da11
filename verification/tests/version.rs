use tank::{check_version, compile, LANGUAGE_VERSION};

#[test]
fn accepts_current_version_pragma_and_no_pragma() {
    assert!(compile("// robolang 1\nfunc main() { await_tick(); }").is_ok());
    assert!(compile("\n\nfunc main() { }").is_ok());
}

#[test]
fn rejects_newer_version_pragma() {
    let err = compile("// robolang 99\nfunc main() { }").unwrap_err();
    assert!(err.msg.contains("version 99"), "{}", err.msg);
}

#[test]
fn pragma_details() {
    assert_eq!(LANGUAGE_VERSION, 1);
    let e = check_version("\n  \t// robolang +2 extra\nfunc main() {}").unwrap_err();
    assert_eq!(e.msg, "robot requires language version 2, this engine speaks version 1");
    assert_eq!(e.line, 1);
    assert!(check_version("//robolang 2\n").is_ok());
    assert!(check_version("// robolang two\n").is_ok());
    assert!(check_version("// robolang\n// robolang 5\n").is_ok());
    assert!(check_version("func main() { }\n// robolang 5\n").is_ok());
    assert!(check_version("// robolang 99999999999\n").is_ok());
    assert!(check_version("// robolang 4294967295").is_err());
}

#[test]
fn source_size_limit() {
    let big = format!("func main() {{ }}\n{}", " ".repeat(262144));
    let e = compile(&big).unwrap_err();
    assert_eq!(e.msg, "source too large (max 262144 bytes)");
    let fits = format!("func main() {{ }}{}", " ".repeat(262144 - 16));
    assert!(compile(&fits).is_ok());
}

#[test]
fn pipeline_errors_come_from_each_stage() {
    assert_eq!(compile("func main() { var a = `; }").unwrap_err().msg, "unexpected character '`'");
    assert!(compile("func main() { var a = ; }").unwrap_err().msg.starts_with("expected"));
    assert_eq!(compile("func main() { a = 1; }").unwrap_err().msg, "undefined variable 'a'");
}
