//! The command line: which mode to run, with which options.
use vstd::prelude::*;
use crate::fmt::{dec, dec_string, push_str, str_debug, debug_str};
use crate::runner::{RunnerEvent, RunnerEventView};
use crate::text::{chars_of, str_is};

verus! {

/// What the command line asks for.
#[derive(Debug, Clone, PartialEq, Eq)]
pub enum Command {
    /// The terminal interface.
    Tui { config: Option<String> },
    /// A headless run of the named scenarios (none: the configured ones).
    Run { config: Option<String>, scenarios: Vec<String> },
    /// `s init <name>`.
    ScriptInit { config: Option<String>, name: String },
    /// `s format <name-or-path>`.
    ScriptFormat { config: Option<String>, target: String },
    /// `s check <name-or-path>`.
    ScriptCheck { config: Option<String>, target: String },
    /// Print the usage text (after `message`, if any) and exit with status 2.
    Usage { message: Option<String> },
}

/// `Command` in spec terms.
pub enum CommandView {
    Tui { config: Option<Seq<char>> },
    Run { config: Option<Seq<char>>, scenarios: Seq<Seq<char>> },
    ScriptInit { config: Option<Seq<char>>, name: Seq<char> },
    ScriptFormat { config: Option<Seq<char>>, target: Seq<char> },
    ScriptCheck { config: Option<Seq<char>>, target: Seq<char> },
    Usage { message: Option<Seq<char>> },
}

pub open spec fn opt_view(o: Option<String>) -> Option<Seq<char>> {
    match o {
        Some(s) => Some(s@),
        None => None,
    }
}

pub open spec fn strings_view(v: Seq<String>) -> Seq<Seq<char>> {
    Seq::new(v.len(), |i: int| v[i]@)
}

impl Command {
    pub open spec fn view_cmd(self) -> CommandView {
        match self {
            Command::Tui { config } => CommandView::Tui { config: opt_view(config) },
            Command::Run { config, scenarios } => CommandView::Run {
                config: opt_view(config),
                scenarios: strings_view(scenarios@),
            },
            Command::ScriptInit { config, name } => CommandView::ScriptInit {
                config: opt_view(config),
                name: name@,
            },
            Command::ScriptFormat { config, target } => CommandView::ScriptFormat {
                config: opt_view(config),
                target: target@,
            },
            Command::ScriptCheck { config, target } => CommandView::ScriptCheck {
                config: opt_view(config),
                target: target@,
            },
            Command::Usage { message } => CommandView::Usage { message: opt_view(message) },
        }
    }
}

/// Options and positional arguments of `run` and `s`, or why they are
/// refused (`None`: help was asked for).
pub enum ScanView {
    Done { config: Option<Seq<char>>, positional: Seq<Seq<char>> },
    Fail(Option<Seq<char>>),
}

pub open spec fn is_config_flag(a: Seq<char>) -> bool {
    a == "-c"@ || a == "--config"@
}

pub open spec fn is_help_flag(a: Seq<char>) -> bool {
    a == "-h"@ || a == "--help"@
}

pub open spec fn starts_with_dash(a: Seq<char>) -> bool {
    a.len() > 0 && a[0] == '-'
}

/// Scans `args[i..]` with the options and positional arguments found so far.
pub open spec fn scan_from(
    args: Seq<Seq<char>>,
    i: nat,
    config: Option<Seq<char>>,
    positional: Seq<Seq<char>>,
) -> ScanView
    decreases args.len() - i,
{
    if i >= args.len() {
        ScanView::Done { config, positional }
    } else {
        let a = args[i as int];
        if is_config_flag(a) {
            if i + 1 >= args.len() {
                ScanView::Fail(Some("--config needs a path"@))
            } else {
                scan_from(args, i + 2, Some(args[i as int + 1]), positional)
            }
        } else if is_help_flag(a) {
            ScanView::Fail(None)
        } else if starts_with_dash(a) {
            ScanView::Fail(Some("unknown flag: "@ + a))
        } else {
            scan_from(args, i + 1, config, positional.push(a))
        }
    }
}

/// `--config <path>` (and help) as the only arguments of `tui`.
pub open spec fn config_flag_from(args: Seq<Seq<char>>, i: nat, config: Option<Seq<char>>) -> Result<Option<Seq<char>>, Option<Seq<char>>>
    decreases args.len() - i,
{
    if i >= args.len() {
        Ok(config)
    } else {
        let a = args[i as int];
        if is_config_flag(a) {
            if i + 1 >= args.len() {
                Err(Some("--config needs a path"@))
            } else {
                config_flag_from(args, i + 2, Some(args[i as int + 1]))
            }
        } else if is_help_flag(a) {
            Err(None)
        } else {
            Err(Some("unknown arg: "@ + a))
        }
    }
}

/// A script subcommand (`init`, `format`, `check`) with its positional
/// arguments.
pub open spec fn script_sub(sub: Seq<char>, config: Option<Seq<char>>, pos: Seq<Seq<char>>) -> CommandView {
    if sub == "init"@ {
        if pos.len() == 0 {
            CommandView::Usage { message: Some("s init: expected <name>"@) }
        } else if pos.len() > 1 {
            CommandView::Usage {
                message: Some("s init: unexpected extra argument "@ + str_debug(pos[1])),
            }
        } else {
            CommandView::ScriptInit { config, name: pos[0] }
        }
    } else if sub == "format"@ {
        if pos.len() == 0 {
            CommandView::Usage { message: Some("s format: expected <name-or-path>"@) }
        } else if pos.len() > 1 {
            CommandView::Usage {
                message: Some("s format: unexpected extra argument "@ + str_debug(pos[1])),
            }
        } else {
            CommandView::ScriptFormat { config, target: pos[0] }
        }
    } else if sub == "check"@ {
        if pos.len() == 0 {
            CommandView::Usage { message: Some("s check: expected <name-or-path>"@) }
        } else if pos.len() > 1 {
            CommandView::Usage {
                message: Some("s check: unexpected extra argument "@ + str_debug(pos[1])),
            }
        } else {
            CommandView::ScriptCheck { config, target: pos[0] }
        }
    } else {
        CommandView::Usage { message: Some("s: unknown subcommand "@ + str_debug(sub)) }
    }
}

/// The command that the arguments (the program name left out) ask for.
pub open spec fn spec_parse_command(args: Seq<Seq<char>>) -> CommandView {
    if args.len() == 0 {
        CommandView::Tui { config: None }
    } else {
        let a0 = args[0];
        if a0 == "tui"@ {
            match config_flag_from(args, 1, None) {
                Ok(config) => CommandView::Tui { config },
                Err(message) => CommandView::Usage { message },
            }
        } else if a0 == "run"@ {
            match scan_from(args, 1, None, seq![]) {
                ScanView::Done { config, positional } => CommandView::Run {
                    config,
                    scenarios: positional,
                },
                ScanView::Fail(message) => CommandView::Usage { message },
            }
        } else if a0 == "s"@ {
            if args.len() == 1 {
                CommandView::Usage { message: Some("s: expected subcommand (init|format|check)"@) }
            } else {
                match scan_from(args, 2, None, seq![]) {
                    ScanView::Done { config, positional } => script_sub(args[1], config, positional),
                    ScanView::Fail(message) => CommandView::Usage { message },
                }
            }
        } else if is_help_flag(a0) {
            CommandView::Usage { message: None }
        } else {
            CommandView::Usage { message: Some("unknown command: "@ + a0) }
        }
    }
}

fn is_config_flag_exec(a: &String) -> (r: bool)
    ensures
        r == is_config_flag(a@),
{
    str_is(a.as_str(), "-c") || str_is(a.as_str(), "--config")
}

fn is_help_flag_exec(a: &String) -> (r: bool)
    ensures
        r == is_help_flag(a@),
{
    str_is(a.as_str(), "-h") || str_is(a.as_str(), "--help")
}

fn starts_with_dash_exec(a: &String) -> (r: bool)
    ensures
        r == starts_with_dash(a@),
{
    let c = chars_of(a.as_str());
    c.len() > 0 && c[0] == '-'
}

/// `a`, then `b`.
fn join(a: &str, b: &str) -> (r: String)
    ensures
        r@ == a@ + b@,
{
    let mut r = a.to_owned();
    push_str(&mut r, b);
    r
}

/// Scans options and positional arguments from `args[start..]`.
fn scan_args(args: &Vec<String>, start: usize) -> (r: Result<(Option<String>, Vec<String>), Option<String>>)
    requires
        start <= args.len(),
    ensures
        match r {
            Ok((config, positional)) => scan_from(strings_view(args@), start as nat, None, seq![])
                == (ScanView::Done { config: opt_view(config), positional: strings_view(positional@) }),
            Err(message) => scan_from(strings_view(args@), start as nat, None, seq![])
                == ScanView::Fail(opt_view(message)),
        },
{
    let ghost av = strings_view(args@);
    let mut config: Option<String> = None;
    let mut positional: Vec<String> = Vec::new();
    let mut i: usize = start;
    assert(strings_view(positional@) =~= Seq::<Seq<char>>::empty());
    while i < args.len()
        invariant
            start <= i <= args.len() + 1,
            av == strings_view(args@),
            scan_from(av, start as nat, None, seq![]) == scan_from(
                av,
                i as nat,
                opt_view(config),
                strings_view(positional@),
            ),
        decreases args.len() + 1 - i,
    {
        let a = &args[i];
        assert(av[i as int] == a@);
        if is_config_flag_exec(a) {
            if i + 1 >= args.len() {
                return Err(Some("--config needs a path".to_owned()));
            }
            assert(av[i + 1] == args@[i + 1]@);
            config = Some(args[i + 1].clone());
            i = i + 2;
        } else if is_help_flag_exec(a) {
            return Err(None);
        } else if starts_with_dash_exec(a) {
            return Err(Some(join("unknown flag: ", a.as_str())));
        } else {
            let ghost before = positional@;
            positional.push(a.clone());
            assert(strings_view(positional@) =~= strings_view(before).push(a@));
            i = i + 1;
        }
    }
    Ok((config, positional))
}

/// `--config <path>` as the only option, from `args[start..]`.
fn config_flag(args: &Vec<String>, start: usize) -> (r: Result<Option<String>, Option<String>>)
    requires
        start <= args.len(),
    ensures
        match r {
            Ok(config) => config_flag_from(strings_view(args@), start as nat, None) == Ok::<Option<Seq<char>>, Option<Seq<char>>>(opt_view(config)),
            Err(message) => config_flag_from(strings_view(args@), start as nat, None) == Err::<Option<Seq<char>>, Option<Seq<char>>>(opt_view(message)),
        },
{
    let ghost av = strings_view(args@);
    let mut config: Option<String> = None;
    let mut i: usize = start;
    while i < args.len()
        invariant
            start <= i <= args.len() + 1,
            av == strings_view(args@),
            config_flag_from(av, start as nat, None) == config_flag_from(av, i as nat, opt_view(config)),
        decreases args.len() + 1 - i,
    {
        let a = &args[i];
        assert(av[i as int] == a@);
        if is_config_flag_exec(a) {
            if i + 1 >= args.len() {
                return Err(Some("--config needs a path".to_owned()));
            }
            assert(av[i + 1] == args@[i + 1]@);
            config = Some(args[i + 1].clone());
            i = i + 2;
        } else if is_help_flag_exec(a) {
            return Err(None);
        } else {
            return Err(Some(join("unknown arg: ", a.as_str())));
        }
    }
    Ok(config)
}

/// A script subcommand with its positional arguments.
fn script_command(sub: &String, config: Option<String>, pos: Vec<String>) -> (c: Command)
    ensures
        c.view_cmd() == script_sub(sub@, opt_view(config), strings_view(pos@)),
{
    let ghost pv = strings_view(pos@);
    let kind: u8 = if str_is(sub.as_str(), "init") {
        0
    } else if str_is(sub.as_str(), "format") {
        1
    } else if str_is(sub.as_str(), "check") {
        2
    } else {
        let d = debug_str(sub.as_str());
        return Command::Usage { message: Some(join("s: unknown subcommand ", d.as_str())) };
    };
    if pos.len() == 0 {
        let m = if kind == 0 {
            "s init: expected <name>".to_owned()
        } else if kind == 1 {
            "s format: expected <name-or-path>".to_owned()
        } else {
            "s check: expected <name-or-path>".to_owned()
        };
        return Command::Usage { message: Some(m) };
    }
    if pos.len() > 1 {
        assert(pv[1] == pos@[1]@);
        let d = debug_str(pos[1].as_str());
        let m = if kind == 0 {
            join("s init: unexpected extra argument ", d.as_str())
        } else if kind == 1 {
            join("s format: unexpected extra argument ", d.as_str())
        } else {
            join("s check: unexpected extra argument ", d.as_str())
        };
        return Command::Usage { message: Some(m) };
    }
    assert(pv[0] == pos@[0]@);
    let first = pos[0].clone();
    if kind == 0 {
        Command::ScriptInit { config, name: first }
    } else if kind == 1 {
        Command::ScriptFormat { config, target: first }
    } else {
        Command::ScriptCheck { config, target: first }
    }
}

/// Reads the command line (program name left out): no arguments or `tui`
/// open the terminal interface, `run` runs scenarios headless, `s` works on
/// scenario scripts; anything malformed asks for the usage text.
pub fn parse_command(args: &Vec<String>) -> (c: Command)
    ensures
        c.view_cmd() == spec_parse_command(strings_view(args@)),
{
    let ghost av = strings_view(args@);
    if args.len() == 0 {
        return Command::Tui { config: None };
    }
    let a0 = &args[0];
    assert(av[0] == a0@);
    if str_is(a0.as_str(), "tui") {
        match config_flag(args, 1) {
            Ok(config) => Command::Tui { config },
            Err(message) => Command::Usage { message },
        }
    } else if str_is(a0.as_str(), "run") {
        match scan_args(args, 1) {
            Ok((config, scenarios)) => Command::Run { config, scenarios },
            Err(message) => Command::Usage { message },
        }
    } else if str_is(a0.as_str(), "s") {
        if args.len() == 1 {
            return Command::Usage {
                message: Some("s: expected subcommand (init|format|check)".to_owned()),
            };
        }
        assert(av[1] == args@[1]@);
        match scan_args(args, 2) {
            Ok((config, positional)) => script_command(&args[1], config, positional),
            Err(message) => Command::Usage { message },
        }
    } else if is_help_flag_exec(a0) {
        Command::Usage { message: None }
    } else {
        Command::Usage { message: Some(join("unknown command: ", a0.as_str())) }
    }
}


// ---------------------------------------------------------------------------
// The headless run.

/// The index of the last scenario named `n`: when several files give one
/// name, the one read last is taken.
pub open spec fn last_named(names: Seq<Seq<char>>, n: Seq<char>) -> Option<nat>
    decreases names.len(),
{
    if names.len() == 0 {
        None
    } else if names.last() == n {
        Some((names.len() - 1) as nat)
    } else {
        last_named(names.drop_last(), n)
    }
}

/// The scenarios to run: the names given on the command line, or else the
/// configured selection, each looked up among the loaded scenarios (as
/// indices), or the first name that is not there.
pub open spec fn spec_pick(loaded: Seq<Seq<char>>, wanted: Seq<Seq<char>>) -> Result<Seq<nat>, Seq<char>>
    decreases wanted.len(),
{
    if wanted.len() == 0 {
        Ok(seq![])
    } else {
        match spec_pick(loaded, wanted.drop_last()) {
            Err(n) => Err(n),
            Ok(idx) => match last_named(loaded, wanted.last()) {
                Some(i) => Ok(idx.push(i)),
                None => Err(wanted.last()),
            },
        }
    }
}

pub proof fn lemma_pick_err(l: Seq<Seq<char>>, w: Seq<Seq<char>>, k: int)
    requires
        0 <= k <= w.len(),
        spec_pick(l, w.take(k)) is Err,
    ensures
        spec_pick(l, w) == spec_pick(l, w.take(k)),
    decreases w.len() - k,
{
    if k < w.len() {
        assert(w.take(k + 1).drop_last() =~= w.take(k));
        lemma_pick_err(l, w, k + 1);
    } else {
        assert(w.take(k) =~= w);
    }
}

proof fn lemma_last_named(names: Seq<Seq<char>>, n: Seq<char>)
    ensures
        last_named(names, n) matches Some(i) ==> i < names.len() && names[i as int] == n
            && forall|j: int| i < j < names.len() ==> names[j] != n,
        last_named(names, n) is None ==> forall|j: int| 0 <= j < names.len() ==> names[j] != n,
    decreases names.len(),
{
    if names.len() > 0 {
        lemma_last_named(names.drop_last(), n);
        if names.last() != n {
            assert forall|j: int| 0 <= j < names.len() - 1 implies names[j] == names.drop_last()[j] by {}
        }
    }
}

/// Picking scenarios by name: it succeeds exactly when every wanted name is
/// among the loaded scenarios, and then gives, in the wanted order, the
/// index of the last loaded scenario of each name; otherwise it names the
/// first wanted name that is missing.
pub proof fn law_pick_by_name(loaded: Seq<Seq<char>>, wanted: Seq<Seq<char>>)
    ensures
        spec_pick(loaded, wanted) is Ok <==> forall|i: int|
            0 <= i < wanted.len() ==> exists|j: int| 0 <= j < loaded.len() && loaded[j] == #[trigger] wanted[i],
        spec_pick(loaded, wanted) matches Ok(idx) ==> idx.len() == wanted.len() && forall|i: int|
            0 <= i < wanted.len() ==> {
                &&& idx[i] < loaded.len()
                &&& loaded[idx[i] as int] == wanted[i]
                &&& forall|j: int| idx[i] < j < loaded.len() ==> loaded[j] != wanted[i]
            },
        spec_pick(loaded, wanted) matches Err(n) ==> exists|i: int|
            0 <= i < wanted.len() && wanted[i] == n && (forall|j: int|
                0 <= j < loaded.len() ==> loaded[j] != n) && forall|k: int|
                0 <= k < i ==> exists|j: int| 0 <= j < loaded.len() && loaded[j] == #[trigger] wanted[k],
    decreases wanted.len(),
{
    if wanted.len() > 0 {
        let w0 = wanted.drop_last();
        law_pick_by_name(loaded, w0);
        lemma_last_named(loaded, wanted.last());
        assert forall|i: int| 0 <= i < w0.len() implies #[trigger] w0[i] == wanted[i] by {}
        match spec_pick(loaded, w0) {
            Err(n) => {
                let i = choose|i: int|
                    0 <= i < w0.len() && w0[i] == n && (forall|j: int|
                        0 <= j < loaded.len() ==> loaded[j] != n) && forall|k: int|
                        0 <= k < i ==> exists|j: int| 0 <= j < loaded.len() && loaded[j] == #[trigger] w0[k];
                assert(wanted[i] == n);
                assert forall|k: int| 0 <= k < i implies exists|j: int|
                    0 <= j < loaded.len() && loaded[j] == #[trigger] wanted[k] by {
                    assert(w0[k] == wanted[k]);
                }
            },
            Ok(idx) => {
                match last_named(loaded, wanted.last()) {
                    Some(x) => {
                        let idx2 = idx.push(x);
                        assert(spec_pick(loaded, wanted) == Ok::<Seq<nat>, Seq<char>>(idx2));
                        assert(idx2.len() == wanted.len());
                        assert forall|i: int| 0 <= i < wanted.len() implies exists|j: int|
                            0 <= j < loaded.len() && loaded[j] == #[trigger] wanted[i] by {
                            if i < w0.len() {
                                assert(w0[i] == wanted[i]);
                            } else {
                                assert(loaded[x as int] == wanted[i]);
                            }
                        }
                        let r = spec_pick(loaded, wanted)->Ok_0;
                        assert(r == idx2);
                        assert forall|i: int| 0 <= i < wanted.len() implies {
                            &&& #[trigger] r[i] < loaded.len()
                            &&& loaded[r[i] as int] == wanted[i]
                            &&& forall|j: int| r[i] < j < loaded.len() ==> loaded[j] != wanted[i]
                        } by {
                            if i < w0.len() {
                                assert(r[i] == idx[i]);
                                assert(w0[i] == wanted[i]);
                            } else {
                                assert(r[i] == x);
                                assert(wanted[i] == wanted.last());
                            }
                        }
                    },
                    None => {
                        let i = wanted.len() - 1;
                        assert forall|k: int| 0 <= k < i implies exists|j: int|
                            0 <= j < loaded.len() && loaded[j] == #[trigger] wanted[k] by {
                            assert(w0[k] == wanted[k]);
                        }
                        if forall|i: int| 0 <= i < wanted.len() ==> exists|j: int|
                            0 <= j < loaded.len() && loaded[j] == #[trigger] wanted[i] {
                            assert(exists|j: int| 0 <= j < loaded.len() && loaded[j] == wanted[i]);
                        }
                    },
                }
            },
        }
        if spec_pick(loaded, w0) is Err {
            if forall|i: int| 0 <= i < wanted.len() ==> exists|j: int|
                0 <= j < loaded.len() && loaded[j] == #[trigger] wanted[i] {
                assert forall|i: int| 0 <= i < w0.len() implies exists|j: int|
                    0 <= j < loaded.len() && loaded[j] == #[trigger] w0[i] by {
                    assert(w0[i] == wanted[i]);
                }
            }
        }
    }
}

pub open spec fn wanted_names(selected: Seq<Seq<char>>, given: Seq<Seq<char>>) -> Seq<Seq<char>> {
    if given.len() > 0 {
        given
    } else {
        selected
    }
}

fn find_last(names: &Vec<String>, n: &str) -> (r: Option<usize>)
    ensures
        match r {
            Some(i) => last_named(strings_view(names@), n@) == Some(i as nat),
            None => last_named(strings_view(names@), n@) is None,
        },
{
    let ghost nv = strings_view(names@);
    let mut k: usize = names.len();
    assert(nv.take(k as int) =~= nv);
    while k > 0
        invariant
            k <= names.len(),
            nv == strings_view(names@),
            last_named(nv, n@) == last_named(nv.take(k as int), n@),
        decreases k,
    {
        let ghost t = nv.take(k as int);
        assert(t.drop_last() =~= nv.take(k - 1));
        if str_is(names[k - 1].as_str(), n) {
            assert(t.last() == n@);
            return Some(k - 1);
        }
        k = k - 1;
    }
    None
}

/// Picks the scenarios of a headless run by name (see `spec_pick`).
pub fn pick_scenarios(loaded: &Vec<String>, selected: &Vec<String>, given: &Vec<String>) -> (r: Result<Vec<usize>, String>)
    ensures
        match r {
            Ok(idx) => spec_pick(strings_view(loaded@), wanted_names(strings_view(selected@), strings_view(given@)))
                == Ok::<Seq<nat>, Seq<char>>(Seq::new(idx@.len(), |i: int| idx@[i] as nat)),
            Err(n) => spec_pick(strings_view(loaded@), wanted_names(strings_view(selected@), strings_view(given@)))
                == Err::<Seq<nat>, Seq<char>>(n@),
        },
{
    let wanted = if given.len() > 0 {
        given
    } else {
        selected
    };
    let ghost wv = strings_view(wanted@);
    let ghost lv = strings_view(loaded@);
    assert(wv =~= wanted_names(strings_view(selected@), strings_view(given@)));
    let mut out: Vec<usize> = Vec::new();
    let mut i: usize = 0;
    assert(Seq::new(out@.len(), |k: int| out@[k] as nat) =~= Seq::<nat>::empty());
    while i < wanted.len()
        invariant
            i <= wanted.len(),
            wv == strings_view(wanted@),
            lv == strings_view(loaded@),
            wv == wanted_names(strings_view(selected@), strings_view(given@)),
            spec_pick(lv, wv.take(i as int)) == Ok::<Seq<nat>, Seq<char>>(
                Seq::new(out@.len(), |k: int| out@[k] as nat),
            ),
        decreases wanted.len() - i,
    {
        assert(wv.take(i + 1).drop_last() =~= wv.take(i as int));
        assert(wv.take(i + 1).last() == wanted@[i as int]@);
        match find_last(loaded, wanted[i].as_str()) {
            Some(j) => {
                let ghost before = out@;
                out.push(j);
                assert(Seq::new(out@.len(), |k: int| out@[k] as nat) =~= Seq::new(
                    before.len(),
                    |k: int| before[k] as nat,
                ).push(j as nat));
            },
            None => {
                proof {
                    assert(last_named(lv, wv.take(i + 1).last()) is None);
                    assert(spec_pick(lv, wv.take(i + 1)) == Err::<Seq<nat>, Seq<char>>(wv[i as int]));
                    lemma_pick_err(lv, wv, i + 1);
                    assert(wv == wanted_names(strings_view(selected@), strings_view(given@)));
                }
                let n = wanted[i].clone();
                assert(n@ == wv[i as int]);
                return Err(n);
            },
        }
        i = i + 1;
    }
    assert(wv.take(wanted.len() as int) =~= wv);
    Ok(out)
}

/// How a headless run prints a runner event (a sample is printed with its
/// values by the caller).
pub open spec fn spec_event_line(ev: RunnerEventView) -> Option<Seq<char>> {
    match ev {
        RunnerEventView::ScenarioStart(n) => Some("[STEP] scenario start: "@ + n),
        RunnerEventView::ScenarioDone { name, samples } => Some(
            "[STEP] scenario done: "@ + name + " ("@ + dec(samples) + ")"@,
        ),
        RunnerEventView::StepStart(d) => Some("[STEP] → "@ + d),
        RunnerEventView::StepDone(d) => Some("[STEP] ✓ "@ + d),
        RunnerEventView::RunnerInfo(m) => Some("[RUN] "@ + m),
        RunnerEventView::RunnerError(m) => Some("[RUN] error: "@ + m),
        RunnerEventView::Sample { .. } => None,
    }
}

pub fn event_line(ev: &RunnerEvent) -> (r: Option<String>)
    ensures
        match r {
            Some(t) => spec_event_line(ev@) == Some(t@),
            None => spec_event_line(ev@) is None,
        },
{
    match ev {
        RunnerEvent::ScenarioStart(n) => Some(join("[STEP] scenario start: ", n.as_str())),
        RunnerEvent::ScenarioDone { name, samples } => {
            let mut t = join("[STEP] scenario done: ", name.as_str());
            push_str(&mut t, " (");
            let c = dec_string(*samples as u128);
            push_str(&mut t, c.as_str());
            push_str(&mut t, ")");
            Some(t)
        },
        RunnerEvent::StepStart(d) => Some(join("[STEP] → ", d.as_str())),
        RunnerEvent::StepDone(d) => Some(join("[STEP] ✓ ", d.as_str())),
        RunnerEvent::RunnerInfo(m) => Some(join("[RUN] ", m.as_str())),
        RunnerEvent::RunnerError(m) => Some(join("[RUN] error: ", m.as_str())),
        RunnerEvent::Sample { .. } => None,
    }
}

/// Names joined with `, `.
pub open spec fn join_comma(ws: Seq<Seq<char>>) -> Seq<char>
    decreases ws.len(),
{
    if ws.len() == 0 {
        seq![]
    } else if ws.len() == 1 {
        ws[0]
    } else {
        join_comma(ws.drop_last()) + ", "@ + ws.last()
    }
}

/// The line announcing a headless run: how many scenarios and which.
pub fn running_line(names: &Vec<String>) -> (r: String)
    ensures
        r@ == "[observer] running "@ + dec(names@.len() as nat) + " scenario(s): "@ + join_comma(
            strings_view(names@),
        ),
{
    let mut r = "[observer] running ".to_owned();
    let c = dec_string(names.len() as u128);
    push_str(&mut r, c.as_str());
    push_str(&mut r, " scenario(s): ");
    let ghost head = r@;
    let ghost nv = strings_view(names@);
    let mut i: usize = 0;
    assert(nv.take(0) =~= Seq::<Seq<char>>::empty());
    while i < names.len()
        invariant
            i <= names.len(),
            nv == strings_view(names@),
            r@ == head + join_comma(nv.take(i as int)),
        decreases names.len() - i,
    {
        assert(nv.take(i + 1).drop_last() =~= nv.take(i as int));
        if i > 0 {
            push_str(&mut r, ", ");
        } else {
            assert(nv.take(1).len() == 1);
        }
        push_str(&mut r, names[i].as_str());
        i = i + 1;
    }
    assert(nv.take(names.len() as int) =~= nv);
    r
}

proof fn lemma_scan_plain(args: Seq<Seq<char>>, i: nat, config: Option<Seq<char>>, pos: Seq<Seq<char>>)
    requires
        i <= args.len(),
        forall|j: int| i <= j < args.len() ==> !starts_with_dash(#[trigger] args[j]),
    ensures
        scan_from(args, i, config, pos) == (ScanView::Done { config, positional: pos + args.skip(i as int) }),
    decreases args.len() - i,
{
    reveal_strlit("-c");
    reveal_strlit("--config");
    reveal_strlit("-h");
    reveal_strlit("--help");
    if i < args.len() {
        let a = args[i as int];
        assert(!starts_with_dash(a));
        if a == "-c"@ || a == "--config"@ || a == "-h"@ || a == "--help"@ {
            assert(a[0] == '-');
        }
        lemma_scan_plain(args, i + 1, config, pos.push(a));
        assert(pos.push(a) + args.skip(i as int + 1) =~= pos + args.skip(i as int));
    } else {
        assert(pos + args.skip(i as int) =~= pos);
    }
}

/// `run` takes the names after it, in order, as the scenarios to run, and
/// `tui` (or no argument) opens the interface; `--config` or `-c` gives
/// either its settings file.
pub proof fn law_run_and_tui(names: Seq<Seq<char>>, c: Seq<char>)
    requires
        forall|j: int| 0 <= j < names.len() ==> !starts_with_dash(#[trigger] names[j]),
    ensures
        spec_parse_command(seq!["run"@] + names) == (CommandView::Run {
            config: None,
            scenarios: names,
        }),
        spec_parse_command(seq!["run"@, "-c"@, c] + names) == (CommandView::Run {
            config: Some(c),
            scenarios: names,
        }),
        spec_parse_command(seq![]) == (CommandView::Tui { config: None }),
        spec_parse_command(seq!["tui"@]) == (CommandView::Tui { config: None }),
        spec_parse_command(seq!["tui"@, "--config"@, c]) == (CommandView::Tui { config: Some(c) }),
{
    reveal_strlit("run");
    reveal_strlit("tui");
    reveal_strlit("-c");
    reveal_strlit("--config");
    let a1 = seq!["run"@] + names;
    let a2 = seq!["run"@, "-c"@, c] + names;
    assert forall|j: int| 1 <= j < a1.len() implies !starts_with_dash(#[trigger] a1[j]) by {
        assert(a1[j] == names[j - 1]);
    }
    assert forall|j: int| 3 <= j < a2.len() implies !starts_with_dash(#[trigger] a2[j]) by {
        assert(a2[j] == names[j - 3]);
    }
    lemma_scan_plain(a1, 1, None, seq![]);
    assert(Seq::<Seq<char>>::empty() + a1.skip(1) =~= names);
    assert(a2[1] == "-c"@);
    assert(a2[2] == c);
    assert(scan_from(a2, 1, None, seq![]) == scan_from(a2, 3, Some(c), seq![]));
    lemma_scan_plain(a2, 3, Some(c), seq![]);
    assert(Seq::<Seq<char>>::empty() + a2.skip(3) =~= names);
    assert("run"@ != "tui"@) by {
        assert("run"@[0] != "tui"@[0]);
    }
    let t2 = seq!["tui"@, "--config"@, c];
    assert(config_flag_from(t2, 1, None) == config_flag_from(t2, 3, Some(c)));
}

/// `s init`, `s format` and `s check` each ask for their own command, with
/// the one name or path given, and with the settings file of a `--config`
/// (or `-c`) before or after it.
pub proof fn law_script_subcommands(t: Seq<char>, c: Seq<char>)
    requires
        !starts_with_dash(t),
    ensures
        spec_parse_command(seq!["s"@, "init"@, t]) == (CommandView::ScriptInit {
            config: None,
            name: t,
        }),
        spec_parse_command(seq!["s"@, "format"@, t]) == (CommandView::ScriptFormat {
            config: None,
            target: t,
        }),
        spec_parse_command(seq!["s"@, "check"@, t]) == (CommandView::ScriptCheck {
            config: None,
            target: t,
        }),
        spec_parse_command(seq!["s"@, "format"@, "--config"@, c, t]) == (CommandView::ScriptFormat {
            config: Some(c),
            target: t,
        }),
        spec_parse_command(seq!["s"@, "check"@, t, "-c"@, c]) == (CommandView::ScriptCheck {
            config: Some(c),
            target: t,
        }),
{
    reveal_strlit("s");
    reveal_strlit("init");
    reveal_strlit("format");
    reveal_strlit("check");
    reveal_strlit("tui");
    reveal_strlit("run");
    reveal_strlit("-c");
    reveal_strlit("--config");
    reveal_strlit("-h");
    reveal_strlit("--help");
    assert(!is_config_flag(t) && !is_help_flag(t)) by {
        if t == "-c"@ || t == "--config"@ || t == "-h"@ || t == "--help"@ {
            assert(t[0] == '-');
        }
    }
    let a1 = seq!["s"@, "init"@, t];
    let a2 = seq!["s"@, "format"@, t];
    let a3 = seq!["s"@, "check"@, t];
    let a4 = seq!["s"@, "format"@, "--config"@, c, t];
    let a5 = seq!["s"@, "check"@, t, "-c"@, c];
    assert(scan_from(a1, 2, None, seq![]) == scan_from(a1, 3, None, seq![t]));
    assert(seq![t] == Seq::<Seq<char>>::empty().push(t));
    assert(scan_from(a2, 2, None, seq![]) == scan_from(a2, 3, None, seq![t]));
    assert(scan_from(a3, 2, None, seq![]) == scan_from(a3, 3, None, seq![t]));
    assert(scan_from(a4, 2, None, seq![]) == scan_from(a4, 4, Some(c), seq![]));
    assert(scan_from(a4, 4, Some(c), seq![]) == scan_from(a4, 5, Some(c), seq![t]));
    assert(scan_from(a5, 2, None, seq![]) == scan_from(a5, 3, None, seq![t]));
    assert(scan_from(a5, 3, None, seq![t]) == scan_from(a5, 5, Some(c), seq![t]));
    assert("s"@ != "tui"@ && "s"@ != "run"@) by {
        assert("s"@.len() != "tui"@.len() && "s"@.len() != "run"@.len());
    }
    assert("s"@ != "-h"@ && "s"@ != "--help"@) by {
        assert("s"@[0] != "-h"@[0] && "s"@.len() != "--help"@.len());
    }
    assert("format"@ != "init"@ && "check"@ != "init"@ && "check"@ != "format"@) by {
        assert("format"@[0] != "init"@[0] && "check"@[0] != "init"@[0] && "check"@[0] != "format"@[0]);
    }
}

// ---------------------------------------------------------------------------
// The end of a headless run.

/// The label of a headless run's export, given the scenario of each sample
/// in order: the last sample's scenario; no export at all when there is no
/// sample.
pub open spec fn spec_export_label(scenarios: Seq<Seq<char>>) -> Option<Seq<char>> {
    if scenarios.len() == 0 {
        None
    } else {
        Some(scenarios.last())
    }
}

/// Whether and under which label a headless run exports its samples.
pub fn export_label(scenarios: &Vec<String>) -> (r: Option<String>)
    ensures
        opt_view(r) == spec_export_label(strings_view(scenarios@)),
{
    if scenarios.len() == 0 {
        None
    } else {
        Some(scenarios[scenarios.len() - 1].clone())
    }
}

/// How long a headless run waits for the server to exit after `stop`.
pub open spec fn shutdown_window_ms() -> nat {
    10000
}

/// Where shutting down the server at the end of a headless run stands.
#[derive(Clone, Copy, PartialEq, Eq, Structural, Debug)]
pub enum Shutdown {
    /// Nothing done yet.
    Begin,
    /// `stop` was written at `since` (milliseconds on the caller's clock).
    Waiting { since: u64 },
    /// The server was killed.
    Done,
}

/// What to do next to shut the server down.
#[derive(Clone, Copy, PartialEq, Eq, Structural, Debug)]
pub enum ShutdownAction {
    /// Write `stop` to the server console.
    SendStop,
    /// Wait up to 100 ms for the server's exit to be reported.
    Poll,
    /// Kill the server; `overdue` when it was still running, which is
    /// reported as a warning.
    Kill { overdue: bool },
    /// Nothing is left to do.
    Finished,
}

/// One step of the shutdown: `running` says whether the server runs,
/// `exited` whether its exit (or the end of its event stream) was seen,
/// `now` is the time in milliseconds. A running server is sent `stop` and
/// given the window to exit; after that, or at once if it is not running,
/// it is killed.
pub open spec fn spec_shutdown_step(s: Shutdown, running: bool, exited: bool, now: nat) -> (
    Shutdown,
    ShutdownAction,
) {
    match s {
        Shutdown::Begin => if running {
            (Shutdown::Waiting { since: now as u64 }, ShutdownAction::SendStop)
        } else {
            (Shutdown::Done, ShutdownAction::Kill { overdue: false })
        },
        Shutdown::Waiting { since } => if exited || !running || now >= since + shutdown_window_ms() {
            (Shutdown::Done, ShutdownAction::Kill { overdue: running })
        } else {
            (s, ShutdownAction::Poll)
        },
        Shutdown::Done => (s, ShutdownAction::Finished),
    }
}

/// One step of shutting the server down.
pub fn shutdown_step(s: Shutdown, running: bool, exited: bool, now_ms: u64) -> (r: (
    Shutdown,
    ShutdownAction,
))
    ensures
        r == spec_shutdown_step(s, running, exited, now_ms as nat),
{
    match s {
        Shutdown::Begin => if running {
            (Shutdown::Waiting { since: now_ms }, ShutdownAction::SendStop)
        } else {
            (Shutdown::Done, ShutdownAction::Kill { overdue: false })
        },
        Shutdown::Waiting { since } => {
            if exited || !running || now_ms as u128 >= since as u128 + 10000 {
                (Shutdown::Done, ShutdownAction::Kill { overdue: running })
            } else {
                (s, ShutdownAction::Poll)
            }
        },
        Shutdown::Done => (s, ShutdownAction::Finished),
    }
}

/// The server is always killed in the end, and never later than the window
/// after `stop`: once the window has passed, the next step kills it, and a
/// step never kills before `stop` was sent to a running server.
pub proof fn law_shutdown_kills_in_time(since: u64, running: bool, exited: bool, now: nat)
    ensures
        now >= since + shutdown_window_ms() ==> spec_shutdown_step(
            Shutdown::Waiting { since },
            running,
            exited,
            now,
        ) == (Shutdown::Done, ShutdownAction::Kill { overdue: running }),
        running ==> spec_shutdown_step(Shutdown::Begin, running, exited, now).1
            == ShutdownAction::SendStop,
        spec_shutdown_step(Shutdown::Waiting { since }, running, exited, now).1 is Kill
            || spec_shutdown_step(Shutdown::Waiting { since }, running, exited, now).1 is Poll,
{
}

} // verus!
