use observer::scenario::parse;
use observer::script::{format_text, init_name_error, init_template, script_file_path};

#[test]
fn format_collapses_inner_whitespace() {
    let src = "wait   Done (\nsend   /tick rate 20\n";
    let got = format_text(src, "x.mcb").unwrap();
    assert_eq!(got, "wait Done (\nsend /tick rate 20\n");
}

#[test]
fn format_indents_loop_body() {
    let src = "loop 10s every 1s\nsend x\ngrab m Average: {} ms\nend\n";
    let got = format_text(src, "x.mcb").unwrap();
    let want = "loop 10s every 1s\n    send x\n    grab m Average: {} ms\nend\n";
    assert_eq!(got, want);
}

#[test]
fn format_preserves_comments_and_blank_lines() {
    let src = "# header\n\nstart   # go\nstop\n";
    let got = format_text(src, "x.mcb").unwrap();
    let want = "# header\n\nstart  # go\nstop\n";
    assert_eq!(got, want);
}

#[test]
fn format_rejects_invalid() {
    let src = "wtf\n";
    assert!(format_text(src, "x.mcb").is_err());
}

#[test]
fn format_idempotent() {
    let src = "loop 10s every 1s\n    send x\nend\n";
    let once = format_text(src, "x.mcb").unwrap();
    let twice = format_text(&once, "x.mcb").unwrap();
    assert_eq!(once, twice);
}

#[test]
fn format_error_is_parse_error_text() {
    assert_eq!(format_text("send a\nend\n", "x.mcb").unwrap_err(), "line 2: `end` without matching `loop`");
}

#[test]
fn format_keeps_steps() {
    let src = "loop   5s   every 1s\n send   x\n   end\n";
    let out = format_text(src, "x.mcb").unwrap();
    let a = parse(src, "x.mcb").unwrap();
    let b = parse(&out, "x.mcb").unwrap();
    assert_eq!(a.steps.len(), b.steps.len());
}

#[test]
fn init_template_parses() {
    let s = parse(init_template(), "new.mcb").unwrap();
    assert_eq!(s.steps.len(), 6);
}

#[test]
fn script_paths() {
    assert_eq!(script_file_path("./scenarios", "tps"), "./scenarios/tps.mcb");
    assert_eq!(script_file_path("./scenarios/", "tps.mcb"), "./scenarios/tps.mcb");
    assert_eq!(script_file_path("dir", "a.mcb.mcb"), "dir/a.mcb");
    assert_eq!(script_file_path("dir", "/abs/x"), "/abs/x.mcb");
}

#[test]
fn init_names() {
    assert_eq!(init_name_error("").unwrap(), "s init: missing <name>");
    assert_eq!(init_name_error("a/b").unwrap(), "s init: <name> must not contain path separators");
    assert!(init_name_error("ok").is_none());
}

#[test]
fn format_keeps_line_count_and_indents_by_depth() {
    let src = "loop 1m every 1s\n\n  # note\nsend a\n  loop 10s every 1s\nsleep 1s\nend\nend\n";
    let out = format_text(src, "x.mcb").unwrap();
    assert_eq!(out.lines().count(), src.lines().count());
    assert_eq!(
        out,
        "loop 1m every 1s\n\n    # note\n    send a\n    loop 10s every 1s\n        sleep 1s\n    end\nend\n"
    );
}
