use observer::config::StartOutcome;
use observer::runner::{
    abort_notice, line_triggers_abort, Action, Phase, Reply, Report, Runner, RunnerEvent,
};
use observer::scenario::parse;

fn report(reply: Reply, now_ms: u64) -> Report {
    Report { reply, now_ms, stop: false, exited: false, error: false }
}

fn texts(evs: &[RunnerEvent]) -> Vec<String> {
    evs.iter()
        .map(|e| match e {
            RunnerEvent::StepStart(s) => format!("start:{s}"),
            RunnerEvent::StepDone(s) => format!("done:{s}"),
            RunnerEvent::ScenarioStart(s) => format!("scenario:{s}"),
            RunnerEvent::ScenarioDone { name, samples } => format!("scenario-done:{name}:{samples}"),
            RunnerEvent::Sample { scenario, metric } => format!("sample:{scenario}:{metric}"),
            RunnerEvent::RunnerInfo(s) => format!("info:{s}"),
            RunnerEvent::RunnerError(s) => format!("error:{s}"),
        })
        .collect()
}

#[test]
fn abort_pattern_matches_vanilla_line() {
    let line = "[00:00:01] [Server thread/INFO]: Unknown or incomplete command, see below for error";
    assert_eq!(
        line_triggers_abort(line),
        Some("Unknown or incomplete command, see below for error")
    );
}

#[test]
fn abort_pattern_ignores_unrelated() {
    assert!(line_triggers_abort("[INFO] Done (3.141s)! For help, type \"help\"").is_none());
    assert!(line_triggers_abort("Average tick time: 12.5 ms").is_none());
}

#[test]
fn abort_reported_once() {
    let line = "Unknown or incomplete command, see below for error";
    assert_eq!(
        abort_notice(line, false).unwrap(),
        "command error detected — aborting scenario (Unknown or incomplete command, see below for error)"
    );
    assert!(abort_notice(line, true).is_none());
    assert!(abort_notice("fine", false).is_none());
}

#[test]
fn runs_a_scenario_to_the_end() {
    let sc = parse("start\nwait Done (\ngrab mspt Average: {} ms\nsend stop\n", "s.mcb").unwrap();
    let mut r = Runner::new(vec![sc]);
    let mut log: Vec<String> = Vec::new();

    let o = r.resume(&report(Reply::Done, 0));
    assert!(o.clear_error);
    log.extend(texts(&o.events));
    let o = r.resume(&report(Reply::Done, 0));
    assert!(o.clear_exited);
    assert!(matches!(o.action, Action::StartServer));
    log.extend(texts(&o.events));
    let o = r.resume(&report(Reply::Start(Ok(StartOutcome::Started)), 1));
    log.extend(texts(&o.events));
    // wait: look at the time left, then receive.
    let o = r.resume(&report(Reply::Done, 2));
    log.extend(texts(&o.events));
    let o = r.resume(&report(Reply::Done, 2));
    assert!(matches!(o.action, Action::Receive { max_ms: 100 }));
    let o = r.resume(&report(Reply::Line("[x] Done (1.0s)!".to_string()), 3));
    log.extend(texts(&o.events));
    // grab
    let o = r.resume(&report(Reply::Done, 4));
    log.extend(texts(&o.events));
    let o = r.resume(&report(Reply::Done, 4));
    assert!(matches!(o.action, Action::Receive { .. }));
    let o = r.resume(&report(Reply::Line("Average: 12.5 ms".to_string()), 5));
    match &o.action {
        Action::ParseNumber(t) => assert_eq!(t, "12.5"),
        other => panic!("unexpected {other:?}"),
    }
    let o = r.resume(&report(Reply::Parsed(true), 5));
    log.extend(texts(&o.events));
    // send
    let o = r.resume(&report(Reply::Done, 6));
    match &o.action {
        Action::Send(c) => assert_eq!(c, "stop"),
        other => panic!("unexpected {other:?}"),
    }
    log.extend(texts(&o.events));
    let o = r.resume(&report(Reply::Sent(true), 6));
    log.extend(texts(&o.events));
    let o = r.resume(&report(Reply::Done, 7));
    log.extend(texts(&o.events));
    let o = r.resume(&report(Reply::Done, 7));
    assert!(matches!(o.action, Action::Finished));
    assert!(r.is_done());
    assert_eq!(
        log,
        vec![
            "scenario:s",
            "start:start",
            "info:server started",
            "done:start",
            "start:wait Done (",
            "done:wait",
            "start:grab mspt",
            "sample:s:mspt",
            "done:grab",
            "start:send stop",
            "done:send",
            "scenario-done:s:1",
        ]
    );
    assert!(r.progress().scenario.is_none());
}

#[test]
fn wait_times_out() {
    let sc = parse("wait 1s Done (\n", "t.mcb").unwrap();
    let mut r = Runner::new(vec![sc]);
    r.resume(&report(Reply::Done, 0));
    r.resume(&report(Reply::Done, 0));
    let o = r.resume(&report(Reply::Done, 1500));
    assert_eq!(
        texts(&o.events),
        vec![
            "error:scenario t aborted: wait timeout after 1000ms for \"Done (\"",
            "scenario-done:t:0",
        ]
    );
}

#[test]
fn send_failure_aborts_scenario() {
    let sc = parse("send hi\n", "f.mcb").unwrap();
    let mut r = Runner::new(vec![sc]);
    r.resume(&report(Reply::Done, 0));
    r.resume(&report(Reply::Done, 0));
    let o = r.resume(&report(Reply::Sent(false), 0));
    assert_eq!(
        texts(&o.events),
        vec![
            "error:scenario f aborted: server stdin unavailable (is it running? add `start` first)",
            "scenario-done:f:0",
        ]
    );
}

#[test]
fn stop_request_ends_the_run() {
    let a = parse("send a\n", "a.mcb").unwrap();
    let b = parse("send b\n", "b.mcb").unwrap();
    let mut r = Runner::new(vec![a, b]);
    r.resume(&report(Reply::Done, 0));
    let mut stop = report(Reply::Done, 0);
    stop.stop = true;
    let o = r.resume(&stop);
    assert_eq!(
        texts(&o.events),
        vec!["error:scenario a aborted: stop requested", "scenario-done:a:0"]
    );
    let mut stop = report(Reply::Done, 1);
    stop.stop = true;
    let o = r.resume(&stop);
    assert!(matches!(o.action, Action::Finished));
    assert!(o.events.is_empty());
}

#[test]
fn loop_runs_until_its_time_is_up() {
    let sc = parse("loop 1s every 400ms\nsend q\nend\n", "l.mcb").unwrap();
    let mut r = Runner::new(vec![sc]);
    let mut now = 0u64;
    let mut sends = 0;
    let mut last: Vec<String> = Vec::new();
    for _ in 0..200 {
        let reply = if sends > 0 && last.iter().any(|x| x == "start:send q") {
            Reply::Sent(true)
        } else {
            Reply::Done
        };
        let o = r.resume(&report(reply, now));
        last = texts(&o.events);
        if last.iter().any(|x| x == "start:send q") {
            sends += 1;
        }
        match o.action {
            Action::Sleep { ms } => now += ms,
            Action::Finished => break,
            _ => {}
        }
        if last.iter().any(|x| x.starts_with("done:loop")) {
            assert_eq!(last, vec!["done:loop (3 iters)"]);
        }
    }
    assert!(r.is_done());
    assert_eq!(sends, 3);
}

#[test]
fn stop_step_kills_after_window() {
    let sc = parse("stop\n", "k.mcb").unwrap();
    let mut r = Runner::new(vec![sc]);
    r.resume(&report(Reply::Done, 0));
    let o = r.resume(&report(Reply::Done, 0));
    assert!(matches!(o.action, Action::Send(_)));
    let o = r.resume(&report(Reply::Sent(true), 0));
    assert!(matches!(o.action, Action::Sleep { ms: 100 }));
    let o = r.resume(&report(Reply::Done, 60_000));
    assert!(matches!(o.action, Action::Kill));
    let o = r.resume(&report(Reply::Done, 60_001));
    assert!(o.set_exited);
    assert_eq!(
        texts(&o.events),
        vec!["info:server didn't exit within stop window — killed", "done:stop"]
    );
}

#[test]
fn progress_follows_steps() {
    let sc = parse("start\nsend x\n", "p.mcb").unwrap();
    let mut r = Runner::new(vec![sc]);
    r.resume(&report(Reply::Done, 0));
    let p = r.progress();
    let s = p.scenario.unwrap();
    assert_eq!((s.name.as_str(), s.index, s.total), ("p", 1, 1));
    r.resume(&report(Reply::Done, 0));
    let p = r.progress();
    let st = p.step.unwrap();
    assert_eq!((st.desc.as_str(), st.index, st.total), ("start", 1, 2));
}

#[test]
fn fresh_runner_is_at_a_boundary() {
    let r = Runner::new(vec![]);
    assert!(!r.is_done());
    let _ = Phase::Boundary;
}

#[test]
fn aborted_wait_fails() {
    let sc = parse("wait Done (\n", "w.mcb").unwrap();
    let mut r = Runner::new(vec![sc]);
    r.resume(&report(Reply::Done, 0));
    r.resume(&report(Reply::Done, 0));
    let o = r.resume(&report(Reply::Done, 0));
    assert!(matches!(o.action, Action::Receive { .. }));
    let mut rep = report(Reply::NoLine, 50);
    rep.exited = true;
    let o = r.resume(&rep);
    assert_eq!(texts(&o.events), vec!["error:scenario w aborted: aborted", "scenario-done:w:0"]);
}

#[test]
fn grab_without_number_reports_no_match() {
    let sc = parse("grab tps TPS: {}\n", "g.mcb").unwrap();
    let mut r = Runner::new(vec![sc]);
    r.resume(&report(Reply::Done, 0));
    r.resume(&report(Reply::Done, 0));
    let o = r.resume(&report(Reply::Done, 0));
    assert!(matches!(o.action, Action::Receive { max_ms: 100 }));
    let o = r.resume(&report(Reply::Line("TPS: 20".to_string()), 10));
    assert!(matches!(o.action, Action::ParseNumber(_)));
    let o = r.resume(&report(Reply::Parsed(false), 10));
    assert!(matches!(o.action, Action::Continue));
    let o = r.resume(&report(Reply::Done, 6000));
    assert_eq!(texts(&o.events), vec!["info:grab tps: no match", "done:grab"]);
}

#[test]
fn command_error_aborts_only_the_scenario() {
    let a = parse("send a\nsend b\n", "a.mcb").unwrap();
    let b = parse("send c\n", "b.mcb").unwrap();
    let mut r = Runner::new(vec![a, b]);
    r.resume(&report(Reply::Done, 0));
    r.resume(&report(Reply::Done, 0));
    let mut rep = report(Reply::Sent(true), 1);
    rep.error = true;
    r.resume(&rep);
    let mut rep = report(Reply::Done, 1);
    rep.error = true;
    let o = r.resume(&rep);
    assert_eq!(
        texts(&o.events),
        vec!["error:scenario a aborted: command error — scenario aborted", "scenario-done:a:0"]
    );
    let mut rep = report(Reply::Done, 2);
    rep.error = true;
    let o = r.resume(&rep);
    assert!(o.clear_error);
    assert_eq!(texts(&o.events), vec!["scenario:b"]);
}

#[test]
fn server_exit_ends_a_sleep() {
    let sc = parse("sleep 1s\nsend x\n", "z.mcb").unwrap();
    let mut r = Runner::new(vec![sc]);
    r.resume(&report(Reply::Done, 0));
    let o = r.resume(&report(Reply::Done, 0));
    assert_eq!(texts(&o.events), vec!["start:sleep 1s"]);
    let o = r.resume(&report(Reply::Done, 0));
    assert!(matches!(o.action, Action::Sleep { ms: 100 }));
    let mut rep = report(Reply::Done, 100);
    rep.exited = true;
    let o = r.resume(&rep);
    assert!(!matches!(o.action, Action::Sleep { .. }));
    assert_eq!(texts(&o.events), vec!["done:sleep"]);
}

#[test]
fn repeated_error_lines_give_one_notice() {
    let bad = "[INFO]: Unknown or incomplete command, see below for error";
    let lines = ["ok", bad, "fine", bad, bad];
    let mut flagged = false;
    let mut notices: Vec<String> = Vec::new();
    for line in lines {
        if let Some(m) = abort_notice(line, flagged) {
            notices.push(m);
        }
        flagged = flagged || line_triggers_abort(line).is_some();
    }
    assert_eq!(notices.len(), 1);
    assert!(flagged);
}

#[test]
fn stop_during_a_loop_ends_the_run() {
    let sc = parse("loop 1m every 1s\n  sleep 10s\nend\nsend x\n", "l.mcb").unwrap();
    let mut r = Runner::new(vec![sc]);
    r.resume(&report(Reply::Done, 0));
    r.resume(&report(Reply::Done, 0));
    r.resume(&report(Reply::Done, 0));
    let o = r.resume(&report(Reply::Done, 0));
    assert_eq!(texts(&o.events), vec!["start:sleep 10s"]);
    let mut seen: Vec<String> = Vec::new();
    let mut steps = 0;
    while !r.is_done() {
        let mut rep = report(Reply::Done, 50);
        rep.stop = true;
        let o = r.resume(&rep);
        seen.extend(texts(&o.events));
        steps += 1;
        assert!(steps <= 30);
    }
    assert!(seen.iter().all(|e| !e.starts_with("start:") && !e.starts_with("scenario:")));
    assert_eq!(seen.last().unwrap(), "scenario-done:l:0");
    assert!(r.progress().scenario.is_none());
}

#[test]
fn scenarios_reported_in_order_with_their_samples() {
    let a = parse("grab x X: {}\ngrab y X: {}\n", "a.mcb").unwrap();
    let b = parse("send q\n", "b.mcb").unwrap();
    let mut r = Runner::new(vec![a, b]);
    let mut reply = Reply::Done;
    let mut log: Vec<String> = Vec::new();
    let mut steps = 0;
    loop {
        let o = r.resume(&report(reply, 10));
        log.extend(texts(&o.events));
        reply = match o.action {
            Action::Receive { .. } => Reply::Line("X: 5".to_string()),
            Action::ParseNumber(_) => Reply::Parsed(true),
            Action::Send(_) => Reply::Sent(true),
            Action::Finished => break,
            _ => Reply::Done,
        };
        steps += 1;
        assert!(steps < 100);
    }
    assert_eq!(
        log,
        vec![
            "scenario:a",
            "start:grab x",
            "sample:a:x",
            "done:grab",
            "start:grab y",
            "sample:a:y",
            "done:grab",
            "scenario-done:a:2",
            "scenario:b",
            "start:send q",
            "done:send",
            "scenario-done:b:0",
        ]
    );
    assert!(r.is_done());
}
