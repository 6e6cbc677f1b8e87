use observer::duration::Duration;
use observer::pattern::Pattern;
use observer::scenario::{parse, parse_duration, scenario_name_of, Step};

#[test]
fn pattern_literal_no_escape() {
    let p = Pattern::compile("Done (").unwrap();
    assert!(p.regex().is_match("[12:34:56] Done (1.234s)"));
}

#[test]
fn pattern_placeholder_grabs_number() {
    let p = Pattern::compile("Average: {} ms").unwrap();
    let caps = p.regex().captures("Average: 12.34 ms").unwrap();
    assert_eq!(caps.get(1).unwrap().as_str(), "12.34");
}

#[test]
fn pattern_re_prefix() {
    let p = Pattern::compile("re:^hello [a-z]+").unwrap();
    assert!(p.regex().is_match("hello world"));
    assert!(!p.regex().is_match("HELLO world"));
}

#[test]
fn reject_multi_placeholder() {
    assert!(Pattern::compile("{} and {}").is_err());
}

#[test]
fn parse_simple() {
    let src = r#"
# comment
start
wait Done (
send /tick rate 20
sleep 2s
stop
"#;
    let s = parse(src, "x.mcb").unwrap();
    assert_eq!(s.steps.len(), 5);
    assert!(matches!(s.steps[0], Step::Start));
    assert!(matches!(s.steps[1], Step::Wait { .. }));
    assert!(matches!(s.steps[2], Step::Send(_)));
    assert!(matches!(s.steps[3], Step::Sleep(_)));
    assert!(matches!(s.steps[4], Step::Stop));
}

#[test]
fn parse_start_no_args() {
    let src = "start extra\n";
    let e = parse(src, "x.mcb").unwrap_err();
    assert_eq!(e.line, 1);
}

#[test]
fn grab_without_capture_rejected() {
    let src = "grab tps re:ready\n";
    let e = parse(src, "x.mcb").unwrap_err();
    assert_eq!(e.line, 1);
}

#[test]
fn parse_loop() {
    let src = "loop 30s every 1s\n  send /tick query rate\n  grab mspt Average: {} ms\nend\n";
    let s = parse(src, "y.mcb").unwrap();
    assert_eq!(s.steps.len(), 1);
    match &s.steps[0] {
        Step::Loop { total, every, body } => {
            assert_eq!(*total, Duration::from_secs(30));
            assert_eq!(*every, Duration::from_secs(1));
            assert_eq!(body.len(), 2);
        }
        _ => panic!("expected Loop"),
    }
}

#[test]
fn parse_wait_with_timeout() {
    let src = "wait 60s Done (\n";
    let s = parse(src, "z.mcb").unwrap();
    match &s.steps[0] {
        Step::Wait { timeout, .. } => assert_eq!(*timeout, Duration::from_secs(60)),
        _ => panic!(),
    }
}

#[test]
fn parse_wait_no_timeout() {
    let src = "wait Done (\n";
    let s = parse(src, "z.mcb").unwrap();
    match &s.steps[0] {
        Step::Wait { timeout, .. } => assert_eq!(*timeout, Duration::from_secs(120)),
        _ => panic!(),
    }
}

#[test]
fn parse_errors_report_line() {
    let src = "send hi\nwtf x\n";
    let e = parse(src, "e.mcb").unwrap_err();
    assert_eq!(e.line, 2);
}

#[test]
fn parse_end_without_loop() {
    let src = "end\n";
    let e = parse(src, "e.mcb").unwrap_err();
    assert_eq!(e.line, 1);
}

#[test]
fn parse_loop_missing_end() {
    let src = "loop 10s every 1s\n  send x\n";
    let e = parse(src, "e.mcb").unwrap_err();
    assert_eq!(e.line, 1);
}

#[test]
fn duration_units() {
    assert_eq!(parse_duration("500ms").unwrap(), Duration::from_millis(500));
    assert_eq!(parse_duration("2s").unwrap(), Duration::from_secs(2));
    assert_eq!(parse_duration("3m").unwrap(), Duration::from_secs(180));
    assert!(parse_duration("10").is_err());
    assert!(parse_duration("xs").is_err());
}

#[test]
fn parse_error_text_names_line() {
    let e = parse("send hi\nwtf x\n", "e.mcb").unwrap_err();
    let t = e.to_text();
    assert!(t.starts_with("line 2: "));
}

#[test]
fn comments_are_ignored() {
    let a = parse("start # go\nstop\n", "a.mcb").unwrap();
    let b = parse("start\nstop # done\n", "a.mcb").unwrap();
    assert_eq!(a.steps.len(), b.steps.len());
    assert_eq!(a.steps.len(), 2);
}

#[test]
fn scenario_name_is_file_stem() {
    assert_eq!(scenario_name_of("dir/tps_stress.mcb"), "tps_stress");
    let s = parse("start\n", "scenarios/alpha.mcb").unwrap();
    assert_eq!(s.name, "alpha");
}

#[test]
fn pattern_methods_agree_with_regex() {
    let p = Pattern::compile("Average: {} ms").unwrap();
    assert!(p.is_match("x Average: 7 ms"));
    assert_eq!(p.first_group("Average: -3.5 ms").unwrap(), "-3.5");
    assert!(p.first_group("nothing here").is_none());
    assert_eq!(p.raw(), "Average: {} ms");
    assert_eq!(p.group_count(), 2);
}

#[test]
fn pattern_errors() {
    assert_eq!(Pattern::compile("   ").unwrap_err(), "pattern is empty");
    assert_eq!(Pattern::compile("re:   ").unwrap_err(), "empty regex after `re:`");
    assert!(Pattern::compile("re:(").unwrap_err().starts_with("bad regex \"(\": "));
}

#[test]
fn duration_minutes_and_errors() {
    assert_eq!(parse_duration(" 2m ").unwrap(), Duration::from_millis(120_000));
    assert!(parse_duration("").is_err());
    assert!(parse_duration("5h").is_err());
}

#[test]
fn literal_pattern_matches_lines_containing_it() {
    let p = Pattern::compile("  a.b (x)*  ").unwrap();
    assert_eq!(p.raw(), "a.b (x)*");
    assert_eq!(p.group_count(), 1);
    assert!(p.is_match("xx a.b (x)* yy"));
    assert!(!p.is_match("xx aXb (x)* yy"));
    assert!(!p.is_match("a.b (xx)"));
}

#[test]
fn inserted_blank_and_comment_lines_change_nothing() {
    let a = parse("start\nsend x\nloop 5s every 1s\nsleep 1s\nend\n", "a.mcb").unwrap();
    let b = parse(
        "# head\n\nstart\n   # mid\nsend x # c\n\nloop 5s every 1s\n\nsleep 1s\n# x\nend\n",
        "a.mcb",
    )
    .unwrap();
    assert_eq!(format!("{:?}", a.steps), format!("{:?}", b.steps));
    let e1 = parse("send x\nend\n", "a.mcb").unwrap_err();
    let e2 = parse("# c\n\nsend x\nend\n", "a.mcb").unwrap_err();
    assert_eq!(e1.msg, e2.msg);
    assert_eq!((e1.line, e2.line), (2, 4));
}

#[test]
fn minutes_that_overflow_are_refused() {
    assert_eq!(
        parse_duration("307445734561825860m").unwrap(),
        Duration::from_secs(307445734561825860 * 60)
    );
    assert_eq!(
        parse_duration("307445734561825861m").unwrap_err(),
        "bad duration number \"307445734561825861\""
    );
}

#[test]
fn placeholder_pattern_has_one_group_more() {
    let p = Pattern::compile("TPS: {} (x)").unwrap();
    assert_eq!(p.group_count(), 2);
    assert_eq!(p.first_group("TPS: -19.5 (x)").unwrap(), "-19.5");
}
