use observer::config::{Config, Lang};
use observer::runner::RunnerEvent;
use observer::tui::{
    clamp_selection, edit_single, input_action, join_words, log_window, next_char_len, prev_char_len,
    run_picks, runner_log, shell_split, started_message, wrap_chunks, ConfigForm, Focus,
    InputAction, Key, KeyCode, LogKind, Modal, Ui, UiAction, Wizard,
};

fn cfg() -> Config {
    let mut c = Config::default_with_lang(Lang::En);
    c.server_dir = Some("/srv/mc".to_string());
    c.server_cmd = vec!["java".to_string(), "-jar".to_string(), "server.jar".to_string()];
    c
}

fn key(code: KeyCode) -> Key {
    Key { code, ctrl: false }
}

#[test]
fn char_lengths_in_bytes() {
    let s = "aé中";
    assert_eq!(next_char_len(s, 0), 1);
    assert_eq!(next_char_len(s, 1), 2);
    assert_eq!(next_char_len(s, 3), 3);
    assert_eq!(next_char_len(s, 6), 0);
    assert_eq!(prev_char_len(s, 6), 3);
    assert_eq!(prev_char_len(s, 0), 0);
}

#[test]
fn editing_a_line() {
    let mut buf = "ab".to_string();
    let mut cur = 2usize;
    edit_single(&mut buf, &mut cur, KeyCode::Char('中'));
    assert_eq!((buf.as_str(), cur), ("ab中", 5));
    edit_single(&mut buf, &mut cur, KeyCode::Left);
    assert_eq!(cur, 2);
    edit_single(&mut buf, &mut cur, KeyCode::Backspace);
    assert_eq!((buf.as_str(), cur), ("a中", 1));
    edit_single(&mut buf, &mut cur, KeyCode::Delete);
    assert_eq!((buf.as_str(), cur), ("a", 1));
    edit_single(&mut buf, &mut cur, KeyCode::Home);
    assert_eq!(cur, 0);
    edit_single(&mut buf, &mut cur, KeyCode::End);
    assert_eq!(cur, 1);
}

#[test]
fn typing_then_backspace_restores() {
    let mut buf = "héllo".to_string();
    let mut cur = 3usize;
    edit_single(&mut buf, &mut cur, KeyCode::Char('x'));
    edit_single(&mut buf, &mut cur, KeyCode::Backspace);
    assert_eq!((buf.as_str(), cur), ("héllo", 3));
}

#[test]
fn shell_split_words() {
    assert_eq!(shell_split("java -Xmx4G  -jar server.jar"), vec!["java", "-Xmx4G", "-jar", "server.jar"]);
    assert_eq!(shell_split("a 'b c' \"d e\" f\\ g"), vec!["a", "b c", "d e", "f g"]);
    assert_eq!(shell_split("'it\"s'"), vec!["it\"s"]);
    assert!(shell_split("   ").is_empty());
}

#[test]
fn config_form_round_trip() {
    let c = cfg();
    let f = ConfigForm::new(&c);
    assert_eq!(f.server_cmd, "java -jar server.jar");
    assert_eq!(f.cur, [7, 20, 11, 9]);
    let mut c2 = c.clone();
    f.apply(&mut c2).unwrap();
    assert_eq!(c2.server_cmd, c.server_cmd);
    assert_eq!(c2.server_dir, c.server_dir);
}

#[test]
fn config_form_rejects_empty_command() {
    let c = cfg();
    let mut f = ConfigForm::new(&c);
    f.server_cmd = "  ".to_string();
    f.cur[1] = 2;
    let mut c2 = c.clone();
    assert_eq!(f.apply(&mut c2).unwrap_err(), "server_cmd is empty");
    assert_eq!(c2.server_cmd, c.server_cmd);
}

#[test]
fn config_form_blank_dirs_fall_back() {
    let c = cfg();
    let mut f = ConfigForm::new(&c);
    f.server_dir = " ".to_string();
    f.scenarios_dir = String::new();
    f.results_dir = String::new();
    let mut c2 = c.clone();
    f.apply(&mut c2).unwrap();
    assert_eq!(c2.server_dir, None);
    assert_eq!(c2.scenarios_dir, "./scenarios");
    assert_eq!(c2.results_dir, "./results");
}

#[test]
fn wizard_on_first_run() {
    let u = Ui::new(Config::default_with_lang(Lang::En), false);
    assert!(u.wizard.is_some());
    let u = Ui::new(cfg(), true);
    assert!(u.wizard.is_none());
}

#[test]
fn wizard_pages() {
    let mut c = Config::default_with_lang(Lang::En);
    c.selected_scenarios = vec!["b".to_string(), "a".to_string(), "b".to_string()];
    let mut u = Ui::new(c, false);
    assert_eq!(u.wizard.as_ref().unwrap().scenario_selected, vec!["a", "b"]);
    let names = vec!["a".to_string(), "b".to_string(), "c".to_string()];
    assert!(matches!(u.handle_key(key(KeyCode::Enter), &names), UiAction::Nothing));
    for ch in "/tmp".chars() {
        u.handle_key(key(KeyCode::Char(ch)), &names);
    }
    match u.handle_key(key(KeyCode::Enter), &names) {
        UiAction::CheckDir(d) => assert_eq!(d, "/tmp"),
        other => panic!("unexpected {other:?}"),
    }
    u.dir_checked(true);
    assert_eq!(u.wizard.as_ref().unwrap().page, 2);
    u.handle_key(key(KeyCode::Down), &names);
    assert_eq!(u.wizard.as_ref().unwrap().cmd_buf, "java -Xmx4G -Xms4G -jar fabric-server-launch.jar nogui");
    u.handle_key(key(KeyCode::Enter), &names);
    assert_eq!(u.wizard.as_ref().unwrap().page, 3);
    u.handle_key(key(KeyCode::Down), &names);
    u.handle_key(key(KeyCode::Down), &names);
    u.handle_key(key(KeyCode::Char(' ')), &names);
    u.handle_key(key(KeyCode::Up), &names);
    u.handle_key(key(KeyCode::Char(' ')), &names);
    assert!(matches!(u.handle_key(key(KeyCode::Enter), &names), UiAction::WizardFinished));
    assert!(u.wizard.is_none());
    assert_eq!(u.config.server_dir.as_deref(), Some("/tmp"));
    assert_eq!(u.config.server_cmd[4], "fabric-server-launch.jar");
    assert_eq!(u.config.selected_scenarios, vec!["a", "c"]);
}

#[test]
fn wizard_missing_dir_and_escape() {
    let mut u = Ui::new(Config::default_with_lang(Lang::En), false);
    let names: Vec<String> = vec![];
    u.handle_key(key(KeyCode::Enter), &names);
    u.handle_key(key(KeyCode::Char('x')), &names);
    u.handle_key(key(KeyCode::Enter), &names);
    u.dir_checked(false);
    assert!(matches!(&u.modal, Some(Modal::Error(e)) if e == "server_dir does not exist"));
    assert!(matches!(u.handle_key(key(KeyCode::Esc), &names), UiAction::WizardSkipped));
    assert!(u.wizard.is_none());
}

#[test]
fn main_keys() {
    let mut u = Ui::new(cfg(), true);
    let names = vec!["a".to_string(), "b".to_string()];
    u.handle_key(key(KeyCode::Char('h')), &names);
    u.handle_key(key(KeyCode::Char('i')), &names);
    assert_eq!(u.input, "hi");
    match u.handle_key(key(KeyCode::Enter), &names) {
        UiAction::SendInput(l) => assert_eq!(l, "hi"),
        other => panic!("unexpected {other:?}"),
    }
    assert_eq!((u.input.as_str(), u.input_cur), ("", 0));
    assert!(matches!(u.handle_key(key(KeyCode::Enter), &names), UiAction::Nothing));
    u.handle_key(key(KeyCode::Tab), &names);
    assert_eq!(u.focus, Focus::Scenarios);
    u.handle_key(key(KeyCode::Char('j')), &names);
    assert_eq!(u.scenario_sel, 1);
    u.handle_key(key(KeyCode::Char('j')), &names);
    assert_eq!(u.scenario_sel, 1);
    assert!(matches!(u.handle_key(key(KeyCode::Char(' ')), &names), UiAction::SaveConfig));
    assert_eq!(u.config.selected_scenarios, vec!["b"]);
    u.handle_key(key(KeyCode::Char(' ')), &names);
    assert!(u.config.selected_scenarios.is_empty());
    assert!(matches!(u.handle_key(key(KeyCode::Char('s')), &names), UiAction::StartServer));
    assert!(matches!(u.handle_key(key(KeyCode::Char('S')), &names), UiAction::StopServer));
    assert!(matches!(u.handle_key(key(KeyCode::Char('r')), &names), UiAction::StartRun));
    assert!(matches!(u.handle_key(key(KeyCode::Char('x')), &names), UiAction::Export));
    assert!(matches!(u.handle_key(key(KeyCode::Char('L')), &names), UiAction::SaveConfig));
    assert_eq!(u.config.lang, Lang::Zh);
    u.handle_key(key(KeyCode::Tab), &names);
    assert_eq!(u.focus, Focus::Log);
    u.handle_key(key(KeyCode::PageUp), &names);
    assert_eq!(u.log_scroll, 10);
    u.handle_key(key(KeyCode::Down), &names);
    assert_eq!(u.log_scroll, 9);
    u.handle_key(key(KeyCode::End), &names);
    assert_eq!(u.log_scroll, 0);
    u.handle_key(Key { code: KeyCode::Char('c'), ctrl: true }, &names);
    assert!(u.should_quit);
}

#[test]
fn config_dialog_keys() {
    let mut u = Ui::new(cfg(), true);
    let names: Vec<String> = vec![];
    u.handle_key(key(KeyCode::Tab), &names);
    u.handle_key(key(KeyCode::Char('c')), &names);
    assert!(matches!(u.modal, Some(Modal::ConfigForm(_))));
    u.handle_key(key(KeyCode::Tab), &names);
    u.handle_key(key(KeyCode::Tab), &names);
    u.handle_key(key(KeyCode::Char('2')), &names);
    match u.handle_key(Key { code: KeyCode::Char('s'), ctrl: true }, &names) {
        UiAction::ConfigApplied { reload } => assert!(reload),
        other => panic!("unexpected {other:?}"),
    }
    assert_eq!(u.config.scenarios_dir, "./scenarios2");
    assert!(u.modal.is_none());
    u.handle_key(key(KeyCode::Char('?')), &names);
    assert!(matches!(u.modal, Some(Modal::Help)));
    u.handle_key(key(KeyCode::Char('q')), &names);
    assert!(u.modal.is_none());
    assert!(!u.should_quit);
}

#[test]
fn small_decisions() {
    assert_eq!(input_action("", true), InputAction::Nothing);
    assert_eq!(input_action(":quit", true), InputAction::CloseStdin);
    assert_eq!(input_action(":quit", false), InputAction::Nothing);
    assert_eq!(input_action("list", false), InputAction::NoServer);
    assert_eq!(input_action("list", true), InputAction::Send);
    let names = vec!["a".to_string(), "b".to_string(), "c".to_string()];
    assert_eq!(run_picks(&names, &vec!["c".to_string(), "a".to_string()]), vec![0, 2]);
    assert_eq!(clamp_selection(5, 3), 2);
    assert_eq!(clamp_selection(5, 0), 0);
    assert_eq!(clamp_selection(1, 3), 1);
    assert_eq!(log_window(100, 0, 10), (0, 90, 100));
    assert_eq!(log_window(100, 500, 10), (90, 0, 10));
    assert_eq!(log_window(5, 3, 10), (0, 0, 5));
}

#[test]
fn log_rows() {
    assert_eq!(wrap_chunks("abcdefg", 2, 5), vec!["abc", "def", "g"]);
    assert_eq!(wrap_chunks("", 2, 5), vec![""]);
    assert_eq!(wrap_chunks("abc", 4, 5), vec!["abc"]);
}

#[test]
fn interface_messages() {
    let ev = RunnerEvent::ScenarioDone { name: "x".to_string(), samples: 3 };
    let (k, t) = runner_log(Lang::En, &ev).unwrap();
    assert_eq!(k, LogKind::Step);
    assert_eq!(t, "scenario done: x (3 samples)");
    assert!(runner_log(Lang::En, &RunnerEvent::Sample { scenario: "x".into(), metric: "m".into() }).is_none());
    assert_eq!(started_message(&cfg()), "started: java -jar server.jar (dir=/srv/mc)");
}

#[test]
fn wizard_new_sorts_selection() {
    let c = cfg();
    let w = Wizard::new(&c, &vec!["z".to_string(), "m".to_string()]);
    assert_eq!(w.scenario_selected, vec!["m", "z"]);
    assert_eq!(w.cmd_cur, "java -jar server.jar".len());
}

#[test]
fn form_round_trip_keeps_settings() {
    let c = cfg();
    let f = ConfigForm::new(&c);
    let mut c2 = c.clone();
    f.apply(&mut c2).unwrap();
    assert_eq!(c2.server_dir, c.server_dir);
    assert_eq!(c2.server_cmd, c.server_cmd);
    assert_eq!(c2.scenarios_dir, c.scenarios_dir);
    assert_eq!(c2.results_dir, c.results_dir);
    assert_eq!(c2.selected_scenarios, c.selected_scenarios);
}

#[test]
fn split_undoes_join() {
    let words = vec!["java".to_string(), "-Xmx4G".to_string(), "x.jar".to_string()];
    assert_eq!(shell_split(&join_words(&words)), words);
}

#[test]
fn log_keeps_the_newest_lines() {
    let mut log: std::collections::VecDeque<observer::tui::LogLine> = std::collections::VecDeque::new();
    for i in 0..5003 {
        observer::tui::push_log_line(&mut log, observer::tui::LogLine { kind: LogKind::Info, text: i.to_string() });
    }
    assert_eq!(log.len(), 5000);
    assert_eq!(log.front().unwrap().text, "3");
    assert_eq!(log.back().unwrap().text, "5002");
}
