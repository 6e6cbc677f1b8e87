use observer::cli::{event_line, parse_command, pick_scenarios, running_line, Command};
use observer::runner::RunnerEvent;

fn args(v: &[&str]) -> Vec<String> {
    v.iter().map(|s| s.to_string()).collect()
}

#[test]
fn commands() {
    assert_eq!(parse_command(&args(&[])), Command::Tui { config: None });
    assert_eq!(
        parse_command(&args(&["run", "-c", "x.json", "a", "b"])),
        Command::Run { config: Some("x.json".into()), scenarios: args(&["a", "b"]) }
    );
    assert_eq!(
        parse_command(&args(&["s", "init", "n"])),
        Command::ScriptInit { config: None, name: "n".into() }
    );
    assert_eq!(
        parse_command(&args(&["run", "--bogus"])),
        Command::Usage { message: Some("unknown flag: --bogus".into()) }
    );
    assert_eq!(
        parse_command(&args(&["s", "check", "a", "b"])),
        Command::Usage { message: Some("s check: unexpected extra argument \"b\"".into()) }
    );
}

#[test]
fn picking_scenarios() {
    let loaded = args(&["a", "b", "a"]);
    assert_eq!(pick_scenarios(&loaded, &args(&["b"]), &args(&[])).unwrap(), vec![1]);
    assert_eq!(pick_scenarios(&loaded, &args(&["b"]), &args(&["a"])).unwrap(), vec![2]);
    assert_eq!(pick_scenarios(&loaded, &args(&["c", "a"]), &args(&[])).unwrap_err(), "c");
    assert!(pick_scenarios(&loaded, &args(&[]), &args(&[])).unwrap().is_empty());
}

#[test]
fn headless_lines() {
    assert_eq!(event_line(&RunnerEvent::StepStart("send x".into())).unwrap(), "[STEP] → send x");
    assert_eq!(
        event_line(&RunnerEvent::ScenarioDone { name: "a".into(), samples: 2 }).unwrap(),
        "[STEP] scenario done: a (2)"
    );
    assert_eq!(event_line(&RunnerEvent::RunnerError("boom".into())).unwrap(), "[RUN] error: boom");
    assert_eq!(running_line(&args(&["a", "b"])), "[observer] running 2 scenario(s): a, b");
}

#[test]
fn headless_export_label_is_last_sample_scenario() {
    assert_eq!(observer::cli::export_label(&vec![]), None);
    assert_eq!(
        observer::cli::export_label(&vec!["a".to_string(), "b".to_string()]),
        Some("b".to_string())
    );
}

#[test]
fn headless_shutdown_sends_stop_then_kills_after_window() {
    let (s, a) = observer::cli::shutdown_step(observer::cli::Shutdown::Begin, true, false, 5);
    assert_eq!(s, observer::cli::Shutdown::Waiting { since: 5 });
    assert_eq!(a, observer::cli::ShutdownAction::SendStop);
    let (s, a) = observer::cli::shutdown_step(s, true, false, 9_000);
    assert_eq!(a, observer::cli::ShutdownAction::Poll);
    let (s, a) = observer::cli::shutdown_step(s, true, false, 10_005);
    assert_eq!(a, observer::cli::ShutdownAction::Kill { overdue: true });
    let (_, a) = observer::cli::shutdown_step(s, false, false, 10_006);
    assert_eq!(a, observer::cli::ShutdownAction::Finished);
    let (_, a) = observer::cli::shutdown_step(observer::cli::Shutdown::Begin, false, false, 0);
    assert_eq!(a, observer::cli::ShutdownAction::Kill { overdue: false });
    let (_, a) = observer::cli::shutdown_step(observer::cli::Shutdown::Waiting { since: 0 }, true, true, 50);
    assert_eq!(a, observer::cli::ShutdownAction::Kill { overdue: true });
}
