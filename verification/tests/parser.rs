use tank::ast::{Expr, Stmt};
use tank::compile::compile_program;
use tank::parser::{parse, MAX_NESTING};

#[test]
fn parses_simple_program() {
    let prog = parse("func main() { var i = 0; while (i < 3) { i += 1; } log(i); }").unwrap();
    assert_eq!(prog.funcs.len(), 1);
    assert_eq!(prog.funcs[0].name, "main");
}

#[test]
fn parses_for_and_calls() {
    parse("func main() { for (var i = 0; i < 10; i += 1) { fire(1.5); } }").unwrap();
}

#[test]
fn rejects_missing_semi() {
    assert!(parse("func main() { var x = 1 }").is_err());
}

#[test]
fn func_decl_line_is_where_it_starts() {
    let prog = parse("\n\nfunc main() {\n\n}\n\nfunc f() { }").unwrap();
    assert_eq!(prog.funcs[0].line, 3);
    assert_eq!(prog.funcs[1].line, 7);
}

fn wrap(depth: usize, open: &str, inner: &str, close: &str) -> String {
    format!("{}{}{}", open.repeat(depth), inner, close.repeat(depth))
}

#[test]
fn deep_nesting_is_rejected_not_a_stack_overflow() {
    let n = 200_000;
    let cases = [
        format!("func main() {{ var x = {}; }}", wrap(n, "(", "1", ")")),
        format!("func main() {{ var x = {}1; }}", "-".repeat(n)),
        format!("func main() {{ var x = {}; }}", wrap(n, "!", "1", "")),
        format!("func main() {{ var x = 1{}; }}", " + 1".repeat(n)),
        format!("func main() {{ var x = 1{}; }}", " && 1".repeat(n)),
        format!("func main() {{ {} }}", wrap(n, "if (1) { ", "", "}")),
    ];
    for src in &cases {
        let err = parse(src).unwrap_err();
        assert!(err.msg.contains("nested too deeply"), "{}", err.msg);
    }
}

#[test]
fn nesting_just_under_the_limit_parses_and_compiles() {
    let src = format!(
        "func main() {{ var x = {}; }}",
        wrap(MAX_NESTING - 3, "(", "1", ")")
    );
    let prog = parse(&src).unwrap();
    compile_program(&prog).unwrap();
    let src = format!(
        "func main() {{ var x = 1{}; }}",
        " + 1".repeat(MAX_NESTING - 3)
    );
    compile_program(&parse(&src).unwrap()).unwrap();
}

#[test]
fn rejects_bad_assign_target() {
    assert!(parse("func main() { 1 = 2; }").is_err());
}

#[test]
fn parses_arrays() {
    let prog = parse("func main() { var a[4]; a[1] = 2; a[0] += a[1]; }").unwrap();
    let body = &prog.funcs[0].body;
    assert!(matches!(&body[0], Stmt::ArrayDecl { name, size, .. } if name == "a" && size == "4"));
    assert!(matches!(&body[1], Stmt::ElemAssign { name, .. } if name == "a"));
    match &body[2] {
        Stmt::ElemAssign { value: Expr::Index { name, .. }, .. } => assert_eq!(name, "a"),
        other => panic!("unexpected statement {:?}", other),
    }
}

#[test]
fn syntax_error_reports_line_and_token() {
    let err = parse("func main() {\n  var = 1;\n}").unwrap_err();
    assert_eq!(err.line, 2);
    assert!(err.msg.contains("variable name"), "{}", err.msg);
}

#[test]
fn blocks_nest_at_most_the_limit() {
    // The body of `main` is the first level.
    let ok = format!("func main() {{ {} }}", wrap(MAX_NESTING - 1, "while (1) { ", "", "}"));
    parse(&ok).unwrap();
    let deep = format!("func main() {{ {} }}", wrap(MAX_NESTING, "while (1) { ", "", "}"));
    let err = parse(&deep).unwrap_err();
    assert_eq!(err.msg, "code is nested too deeply (max 100 levels)");
}

#[test]
fn syntax_trees_can_be_copied() {
    let prog = parse("func main() { var x = 1 + 2; if (x) { log(\"a\"); } }").unwrap();
    let copy = prog.clone();
    assert_eq!(copy.funcs.len(), prog.funcs.len());
    assert_eq!(format!("{:?}", copy), format!("{:?}", prog));
    assert!(compile_program(&copy).is_ok());
}
