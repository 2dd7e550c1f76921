use chargebot::logging::{split_lines, TextBacktrace, TextFrame};

const BACKTRACE: &str = "   0: std::backtrace::Backtrace::capture
             at /rustc/abc/library/std/src/backtrace.rs:296:9
   1: chargebot::datasource::Datasource::new
             at ./crates/chargebot/src/datasource.rs:30:24
   2: core::ops::function::FnOnce::call_once
             at /rustc/abc/library/core/src/ops/function.rs:250:5
   3: chargebot::main
             at ./crates/chargebot/src/main.rs:88:10
";

#[test]
fn logging_parse_keeps_own_frames() {
    let bt = TextBacktrace::parse(BACKTRACE);
    assert_eq!(bt.frames.len(), 2);
    assert_eq!(bt.frames[0].fun, "chargebot::datasource::Datasource::new");
    assert_eq!(bt.frames[0].loc, "./crates/chargebot/src/datasource.rs:30:24");
    assert_eq!(bt.frames[1].fun, "chargebot::main");
    assert_eq!(
        bt.to_text(),
        "chargebot::datasource::Datasource::new\n    at ./crates/chargebot/src/datasource.rs:30:24\nchargebot::main\n    at ./crates/chargebot/src/main.rs:88:10\n"
    );
}

#[test]
fn logging_location_before_function_is_ignored() {
    let bt = TextBacktrace::parse("  at ./crates/x.rs:1:1\n  7: f\n  at ./crates/y.rs:2:2");
    assert_eq!(bt.frames.len(), 1);
    assert_eq!(bt.frames[0].fun, "f");
    assert_eq!(bt.frames[0].loc, "./crates/y.rs:2:2");
    assert_eq!(TextBacktrace { frames: vec![] }.to_text(), "");
    let f = TextFrame { fun: "a".to_string(), loc: "b".to_string() };
    assert_eq!(TextBacktrace { frames: vec![f] }.to_text(), "a\n    at b\n");
}

#[test]
fn logging_split_lines_matches_std() {
    for text in ["", "a", "a\n", "a\r\nb", "a\n\nb\n", "\r\n", "x\r", "é\nü\r\n"] {
        let expected: Vec<String> = text.lines().map(|l| l.to_string()).collect();
        assert_eq!(split_lines(text), expected, "{:?}", text);
    }
}
