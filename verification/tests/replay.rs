use tank::battle::EndReason;
use tank::replay::{end_reason_name, json_escape, replay_json, robot_color_of, tidy_number, ReplayDoc, ReplayResult, ReplayRobot, ReplayTick};

#[test]
fn escaping() {
    assert_eq!(json_escape("a\"b\\c\n"), "a\\\"b\\\\c\\n");
}

#[test]
fn escaping_control_and_plain_characters() {
    assert_eq!(json_escape("plain text"), "plain text");
    assert_eq!(json_escape("\t\r\u{1}"), "\\t\\r\\u0001");
    assert_eq!(json_escape(""), "");
    assert_eq!(json_escape("é✓"), "é✓");
}

/// Reads an escaped text back, as a JSON reader would.
fn unescape(t: &str) -> String {
    let cs: Vec<char> = t.chars().collect();
    let mut out = String::new();
    let mut i = 0;
    while i < cs.len() {
        if cs[i] == '\\' && cs[i + 1] == 'u' {
            let code = u32::from_str_radix(&cs[i + 2..i + 6].iter().collect::<String>(), 16).unwrap();
            out.push(char::from_u32(code).unwrap());
            i += 6;
        } else if cs[i] == '\\' {
            out.push(match cs[i + 1] {
                'n' => '\n',
                'r' => '\r',
                't' => '\t',
                c => c,
            });
            i += 2;
        } else {
            out.push(cs[i]);
            i += 1;
        }
    }
    out
}

#[test]
fn escaped_text_reads_back_and_has_no_control_characters() {
    for s in ["a\"b\\c\n", "tab\there\r\u{7}\u{1f}", "quote \" and \\\" twice", "ünïcode ✓"] {
        let e = json_escape(s);
        assert!(e.chars().all(|c| (c as u32) >= 0x20), "{:?}", e);
        assert_eq!(unescape(&e), s);
    }
}

#[test]
fn tidy_numbers() {
    assert_eq!(tidy_number("500.00"), "500");
    assert_eq!(tidy_number("123.46"), "123.46");
    assert_eq!(tidy_number("-0.00"), "0");
    assert_eq!(tidy_number("0.50"), "0.5");
    assert_eq!(tidy_number("100.00"), "100");
    assert_eq!(tidy_number("-12.30"), "-12.3");
    assert_eq!(tidy_number("NaN"), "NaN");
}

fn strings(v: &[&str]) -> Vec<String> {
    v.iter().map(|s| s.to_string()).collect()
}

#[test]
fn replay_document_layout() {
    let doc = ReplayDoc {
        seed: 42,
        arena_w: "1000".into(),
        arena_h: "700".into(),
        beam: "18".into(),
        robots: vec![
            ReplayRobot { name: "a\"b".into(), color: "#e74c3c".into() },
            ReplayRobot { name: "c".into(), color: "#3498db".into() },
        ],
        result: Some(ReplayResult { winner: Some(1), reason: "last_standing".into(), tick: 321 }),
        ticks: vec![
            ReplayTick {
                t: 0,
                robots: vec![strings(&["1", "2", "3", "4", "5", "100", "1"])],
                bullets: vec![strings(&["1.5", "2", "0", "2"])],
                events: strings(&["a hit\n"]),
            },
            ReplayTick { t: 1, robots: vec![], bullets: vec![], events: vec![] },
        ],
    };
    assert_eq!(
        replay_json(&doc),
        "{\"format\":\"tank-replay\",\"version\":1,\"seed\":42,\"arena\":{\"w\":1000,\"h\":700,\"beam\":18},\
         \"robots\":[{\"name\":\"a\\\"b\",\"color\":\"#e74c3c\"},{\"name\":\"c\",\"color\":\"#3498db\"}],\
         \"result\":{\"winner\":1,\"reason\":\"last_standing\",\"tick\":321},\
         \"ticks\":[{\"t\":0,\"r\":[[1,2,3,4,5,100,1]],\"b\":[[1.5,2,0,2]],\"e\":[\"a hit\\n\"]},\
         {\"t\":1,\"r\":[],\"b\":[],\"e\":[]}]}"
    );
    let draw = ReplayDoc {
        seed: 7,
        arena_w: "10".into(),
        arena_h: "20".into(),
        beam: "18".into(),
        robots: vec![],
        result: Some(ReplayResult { winner: None, reason: "tick_limit".into(), tick: 3000 }),
        ticks: vec![],
    };
    assert_eq!(
        replay_json(&draw),
        "{\"format\":\"tank-replay\",\"version\":1,\"seed\":7,\"arena\":{\"w\":10,\"h\":20,\"beam\":18},\
         \"robots\":[],\"result\":{\"winner\":null,\"reason\":\"tick_limit\",\"tick\":3000},\"ticks\":[]}"
    );
    let unfinished = ReplayDoc { result: None, ..draw };
    assert!(!replay_json(&unfinished).contains("result"));
}

/// Replay numbers: two decimals (printed by the engine), then tidied.
fn num(v: f64) -> String {
    tidy_number(&format!("{:.2}", v))
}

#[test]
fn num_formatting() {
    assert_eq!(num(500.0), "500");
    assert_eq!(num(123.456), "123.46");
    assert_eq!(num(-0.0), "0");
    assert_eq!(num(0.5), "0.5");
}

#[test]
fn robot_colours_cycle() {
    assert_eq!(robot_color_of(0), "#e74c3c");
    assert_eq!(robot_color_of(1), "#3498db");
    assert_eq!(robot_color_of(7), "#cddc39");
    assert_eq!(robot_color_of(8), "#e74c3c");
    assert_eq!(robot_color_of(13), "#1abc9c");
}

#[test]
fn end_reason_names() {
    assert_eq!(end_reason_name(EndReason::LastStanding), "last_standing");
    assert_eq!(end_reason_name(EndReason::TickLimit), "tick_limit");
}
