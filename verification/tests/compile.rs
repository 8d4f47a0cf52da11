use std::rc::Rc;
use tank::compile::{compile_program, Const, Op, Program};
use tank::host::host_lookup;
use tank::parser::parse;

fn compile(src: &str) -> Result<Rc<Program>, String> {
    compile_program(&parse(src).map_err(|e| e.msg)?).map_err(|e| e.msg)
}

fn compile_err(src: &str) -> (String, u32) {
    let e = compile_program(&parse(src).unwrap()).unwrap_err();
    (e.msg, e.line)
}

#[test]
fn compiles_simple() {
    let p = compile("func main() { var x = 1; while (x < 10) { x += 1; } }").unwrap();
    assert_eq!(p.n_globals, 1);
    assert_eq!(p.funcs[0].name, "main");
}

#[test]
fn hoists_main_vars_to_globals() {
    let p = compile("func main() { if (true) { var a = 1; } } func f() { return a; }").unwrap();
    assert_eq!(p.n_globals, 1);
}

#[test]
fn rejects_undefined_var() {
    assert!(compile("func main() { var x = y; }").is_err());
}

#[test]
fn rejects_missing_main() {
    assert!(compile("func other() { return 1; }").is_err());
}

#[test]
fn rejects_bad_arity() {
    assert!(compile("func main() { fire(); }").is_err());
    assert!(compile("func f(a) { return a; } func main() { f(1, 2); }").is_err());
}

#[test]
fn main_may_redeclare_a_global() {
    let p = compile(
        "func main() { if (true) { var a = 1; } else { var a = 2; } \
         for (var i = 0; i < 2; i += 1) { } for (var i = 0; i < 2; i += 1) { } }",
    )
    .unwrap();
    assert_eq!(p.n_globals, 2);
}

#[test]
fn var_in_for_step_in_main_is_hoisted() {
    compile("func main() { for (var i = 0; i < 2; var j = 1) { i += 1; } }").unwrap();
}

#[test]
fn rejects_break_outside_loop() {
    assert!(compile("func main() { break; }").is_err());
}

#[test]
fn main_is_first_and_others_keep_source_order() {
    let p = compile("func b() { } func main() { } func a(x, y) { }").unwrap();
    let names: Vec<&str> = p.funcs.iter().map(|f| f.name.as_str()).collect();
    assert_eq!(names, vec!["main", "b", "a"]);
    assert_eq!(p.funcs[2].nparams, 2);
    assert_eq!(p.funcs[2].nlocals, 2);
}

#[test]
fn exact_code_of_a_small_function() {
    let p = compile("func main() { var x = 2; x += 3; }").unwrap();
    assert_eq!(
        p.funcs[0].code,
        vec![
            Op::Const(0),
            Op::SetGlobal(0),
            Op::GetGlobal(0),
            Op::Const(1),
            Op::Add,
            Op::SetGlobal(0),
            Op::Const(2),
            Op::Return,
        ]
    );
    assert_eq!(p.consts, vec![Const::Num("2".into()), Const::Num("3".into()), Const::Null]);
}

#[test]
fn constants_are_shared() {
    let p = compile("func main() { var a = 7; var b = 7; var c = \"s\"; var d = \"s\"; }").unwrap();
    assert_eq!(p.consts, vec![Const::Num("7".into()), Const::Str("s".into()), Const::Null]);
}

#[test]
fn locals_shadow_globals_and_scopes_end() {
    let p = compile("func main() { var g = 1; } func f(g) { var h = g; return g; }").unwrap();
    let f = &p.funcs[1];
    assert_eq!(f.nlocals, 2);
    assert_eq!(
        f.code,
        vec![
            Op::GetLocal(0),
            Op::SetLocal(1),
            Op::GetLocal(0),
            Op::Return,
            Op::Const(1),
            Op::Return,
        ]
    );
}

#[test]
fn while_loop_jumps() {
    let p = compile("func main() { while (true) { break; continue; } }").unwrap();
    assert_eq!(
        p.funcs[0].code,
        vec![
            Op::Const(0),
            Op::JumpIfFalse(5),
            Op::Jump(5),
            Op::Jump(0),
            Op::Jump(0),
            Op::Const(1),
            Op::Return,
        ]
    );
}

#[test]
fn logical_operators_short_circuit() {
    let p = compile("func main() { var a = true && false; }").unwrap();
    assert_eq!(
        p.funcs[0].code,
        vec![
            Op::Const(0),
            Op::JumpIfFalse(4),
            Op::Const(1),
            Op::Jump(5),
            Op::Const(1),
            Op::SetGlobal(0),
            Op::Const(2),
            Op::Return,
        ]
    );
}

#[test]
fn host_calls_use_the_host_table() {
    let p = compile("func main() { fire(2); }").unwrap();
    let (hf, arity) = host_lookup("fire").unwrap();
    assert_eq!(arity, 1);
    assert_eq!(
        p.funcs[0].code,
        vec![Op::Const(0), Op::HostCall(hf.index(), 1), Op::Pop, Op::Const(1), Op::Return]
    );
}

#[test]
fn arrays_and_len() {
    let p = compile(
        "func main() { var a[3]; var b[5]; a[1] = 2; a[0] += len(b); } func f() { return b[2]; }",
    )
    .unwrap();
    assert_eq!(p.arrays.len(), 2);
    assert_eq!((p.arrays[0].name.as_str(), p.arrays[0].len), ("a", 3));
    assert_eq!((p.arrays[1].name.as_str(), p.arrays[1].len), ("b", 5));
    assert_eq!(p.n_globals, 0);
    assert_eq!(
        p.funcs[0].code,
        vec![
            Op::Const(0),
            Op::Const(1),
            Op::SetElem(0),
            Op::Const(2),
            Op::Dup,
            Op::GetElem(0),
            Op::Const(3),
            Op::Add,
            Op::SetElem(0),
            Op::Const(4),
            Op::Return,
        ]
    );
    assert_eq!(p.consts[3], Const::Num("5".into()));
    assert_eq!(p.funcs[1].code, vec![Op::Const(1), Op::GetElem(1), Op::Return, Op::Const(4), Op::Return]);
}

#[test]
fn program_level_errors() {
    let many: String = (0..65).map(|i| format!("func f{}() {{ }} ", i)).collect();
    assert_eq!(compile_err(&format!("func main() {{ }} {}", many)), ("too many functions (max 64)".to_string(), 0));
    assert_eq!(compile_err("func f() { }"), ("program must define 'func main()'".to_string(), 0));
    assert_eq!(
        compile_err("func main() { }\nfunc f() { }\nfunc f() { }"),
        ("duplicate function 'f'".to_string(), 3)
    );
    assert_eq!(compile_err("func main(a) { }"), ("'main' must not take parameters".to_string(), 1));
}

#[test]
fn name_errors() {
    assert_eq!(compile_err("func main() {\n x = 1; }"), ("undefined variable 'x'".to_string(), 2));
    assert_eq!(compile_err("func main() { nope(); }"), ("unknown function 'nope'".to_string(), 1));
    assert_eq!(
        compile_err("func f(a) { } func main() { f(); }"),
        ("function 'f' expects 1 argument(s), got 0".to_string(), 1)
    );
    assert_eq!(compile_err("func main() { fire(1, 2); }"), ("'fire' expects 1 argument(s), got 2".to_string(), 1));
    assert_eq!(compile_err("func main() { continue; }"), ("'continue' outside of a loop".to_string(), 1));
    assert_eq!(compile_err("func main() { break; }"), ("'break' outside of a loop".to_string(), 1));
}

#[test]
fn array_errors() {
    assert_eq!(
        compile_err("func main() { var a[0]; }"),
        ("array size must be a whole number from 1 to 16384".to_string(), 1)
    );
    assert_eq!(
        compile_err("func main() { var a[1.5]; }"),
        ("array size must be a whole number from 1 to 16384".to_string(), 1)
    );
    assert_eq!(compile_err("func main() { var a[2]; var a[3]; }"), ("duplicate array 'a'".to_string(), 1));
    assert_eq!(
        compile_err("func main() { var a = 1; var a[3]; }"),
        ("'a' is both a variable and an array".to_string(), 1)
    );
    assert_eq!(
        compile_err("func main() { var a[16000]; var b[385]; }"),
        ("arrays too large (max 16384 elements in all)".to_string(), 1)
    );
    assert_eq!(
        compile_err("func main() { if (true) { var a[3]; } }"),
        ("arrays are declared at the top level of 'main'".to_string(), 1)
    );
    assert_eq!(
        compile_err("func main() { var a[3]; var x = a; }"),
        ("array 'a' can only be used through its elements".to_string(), 1)
    );
    assert_eq!(compile_err("func main() { var x = 1; x[0] = 1; }"), ("'x' is not an array".to_string(), 1));
    assert_eq!(
        compile_err("func main() { var x = 1; var y = len(x); }"),
        ("len() takes the name of an array".to_string(), 1)
    );
    compile("func main() { var a[16384]; }").unwrap();
}

#[test]
fn capacity_errors() {
    let globals: String = (0..257).map(|i| format!("var g{} = 0; ", i)).collect();
    assert_eq!(
        compile_err(&format!("func main() {{ {} }}", globals)),
        ("too many global variables (max 256)".to_string(), 1)
    );
    let locals: String = (0..257).map(|i| format!("var l{} = 0; ", i)).collect();
    assert_eq!(
        compile_err(&format!("func main() {{ }} func f() {{ {} }}", locals)),
        ("too many local variables (max 256)".to_string(), 1)
    );
    let consts: String = (0..4100).map(|i| format!("{}; ", i)).collect();
    assert_eq!(compile_err(&format!("func main() {{ {} }}", consts)), ("too many constants".to_string(), 0));
    let body: String = "1; ".repeat(40000);
    assert_eq!(compile_err(&format!("func main() {{ {} }}", body)), ("function body too large".to_string(), 0));
}

#[test]
fn first_error_wins() {
    assert_eq!(compile_err("func main() { x = 1; y = 2; }"), ("undefined variable 'x'".to_string(), 1));
}

#[test]
fn compiled_programs_are_well_formed() {
    let p = compile(
        "func f(a, b) { if (a < b) { return a; } return b; } \
         func main() { var hist[8]; var i = 0; \
           while (true) { i += 1; if (i > 3) { break; } hist[i % len(hist)] = f(i, 2) && fire(1); } \
           for (var k = 0; k < 3; k += 1) { if (k == 1) { continue; } log(k); } }",
    )
    .unwrap();
    assert_eq!(p.funcs[0].name, "main");
    assert_eq!(p.funcs[0].nparams, 0);
    for f in &p.funcs {
        let n = f.code.len();
        assert_eq!(f.code[n - 1], Op::Return);
        assert!(f.nparams <= f.nlocals);
        for op in &f.code {
            match *op {
                Op::Const(i) => assert!((i as usize) < p.consts.len()),
                Op::GetGlobal(i) | Op::SetGlobal(i) => assert!((i as usize) < p.n_globals),
                Op::GetLocal(i) | Op::SetLocal(i) => assert!((i as usize) < f.nlocals),
                Op::GetElem(a) | Op::SetElem(a) => assert!((a as usize) < p.arrays.len()),
                Op::Jump(t) | Op::JumpIfFalse(t) | Op::JumpIfTrue(t) => assert!((t as usize) < n),
                Op::Call(g, k) => assert_eq!(p.funcs[g as usize].nparams, k as usize),
                Op::HostCall(h, k) => {
                    let hf = tank::host::HostFn::from_index(h).unwrap();
                    assert_eq!(hf.arity(), k);
                }
                _ => {}
            }
        }
    }
}

#[test]
fn equal_numbers_share_one_constant() {
    let p = compile("func main() { var a = 1; var b = 1.0; var c = 01.00; var d = 2.50; var e = 2.5; }").unwrap();
    assert_eq!(p.consts, vec![Const::Num("1".into()), Const::Num("2.5".into()), Const::Null]);
}

#[test]
fn array_size_is_read_as_a_number() {
    let p = compile("func main() { var a[2.0]; var b[03]; }").unwrap();
    assert_eq!(p.arrays.len(), 2);
    assert_eq!(p.arrays[0].len, 2);
    assert_eq!(p.arrays[1].len, 3);
}
