use tank::lexer::{lex, Tok, MAX_STRING_LEN};

fn toks(src: &str) -> Vec<Tok> {
    lex(src).unwrap().into_iter().map(|t| t.tok).collect()
}

#[test]
fn basic_tokens() {
    assert_eq!(
        toks("var x = 1.5; // hi"),
        vec![
            Tok::Var,
            Tok::Ident("x".into()),
            Tok::Assign,
            Tok::Num("1.5".into()),
            Tok::Semi,
            Tok::Eof
        ]
    );
}

#[test]
fn operators() {
    assert_eq!(
        toks("a <= b != c && !d || e"),
        vec![
            Tok::Ident("a".into()),
            Tok::Le,
            Tok::Ident("b".into()),
            Tok::Ne,
            Tok::Ident("c".into()),
            Tok::AndAnd,
            Tok::Not,
            Tok::Ident("d".into()),
            Tok::OrOr,
            Tok::Ident("e".into()),
            Tok::Eof
        ]
    );
}

#[test]
fn strings_and_comments() {
    assert_eq!(
        toks("/* multi\nline */ \"a\\\"b\\n\""),
        vec![Tok::Str("a\"b\n".into()), Tok::Eof]
    );
}

#[test]
fn rejects_overlong_string_literal() {
    let src = format!("\"{}\"", "a".repeat(MAX_STRING_LEN + 1));
    assert!(lex(&src).unwrap_err().msg.contains("too long"));
    let ok = format!("\"{}\"", "a".repeat(MAX_STRING_LEN));
    assert!(lex(&ok).is_ok());
}

#[test]
fn error_on_bad_char() {
    assert!(lex("var a = `;").is_err());
}

#[test]
fn token_lines_count_newlines() {
    let ts = lex("a\n\nb /* x\ny */ c").unwrap();
    let lines: Vec<u32> = ts.iter().map(|t| t.line).collect();
    assert_eq!(lines, vec![1, 3, 4, 4]);
}

#[test]
fn brackets_and_compound_assignment() {
    assert_eq!(
        toks("a[i] += 2;"),
        vec![
            Tok::Ident("a".into()),
            Tok::LBracket,
            Tok::Ident("i".into()),
            Tok::RBracket,
            Tok::PlusAssign,
            Tok::Num("2".into()),
            Tok::Semi,
            Tok::Eof
        ]
    );
}

#[test]
fn unterminated_string_and_comment_are_errors() {
    assert!(lex("\"abc").is_err());
    assert!(lex("/* never closed").is_err());
}

#[test]
fn number_literals_get_one_spelling_per_value() {
    assert_eq!(toks("007")[0], Tok::Num("7".into()));
    assert_eq!(toks("01.50")[0], Tok::Num("1.5".into()));
    assert_eq!(toks("2.000")[0], Tok::Num("2".into()));
    assert_eq!(toks("000")[0], Tok::Num("0".into()));
    assert_eq!(toks("0.0")[0], Tok::Num("0".into()));
    assert_eq!(toks("0.25")[0], Tok::Num("0.25".into()));
    assert_eq!(toks("10")[0], Tok::Num("10".into()));
}

#[test]
fn tokens_come_in_reading_order() {
    let toks = lex("func main() {\n  var x = 1; // one\n  /* two\n lines */ x += 2;\n}\n").unwrap();
    for w in toks.windows(2) {
        assert!(w[0].line <= w[1].line);
        assert_ne!(w[0].tok, Tok::Eof);
    }
    assert_eq!(toks.last().unwrap().tok, Tok::Eof);
    assert_eq!(toks.last().unwrap().line, 6);
}
