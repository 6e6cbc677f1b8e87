//! The scenario runner: which step runs next, what it waits for and what it
//! reports. The runner is a state machine; the caller performs the outside
//! work that each transition asks for (start or kill the server, write to
//! its console, read one of its lines, sleep, parse a number) and reports
//! back what came of it.
use vstd::prelude::*;
use crate::duration::Duration;
use crate::fmt::{debug_str, dec, dec_string, push_str, str_debug};
use crate::pattern::{regex_group1, regex_matches};
use crate::config::StartOutcome;
use crate::scenario::{Scenario, Step, StepView, steps_view};
use crate::text::{chars_of, contains, occurs_at};

verus! {

// ---------------------------------------------------------------------------
// Durations and step descriptions.

/// A duration as the log shows it: whole minutes as `Nm`, whole seconds as
/// `Ns`, anything else as `Nms`.
pub open spec fn fmt_dur(ms: nat) -> Seq<char> {
    if ms >= 60000 && ms % 60000 == 0 {
        dec(ms / 60000) + "m"@
    } else if ms >= 1000 && ms % 1000 == 0 {
        dec(ms / 1000) + "s"@
    } else {
        dec(ms) + "ms"@
    }
}

/// The text of a duration for the log.
pub fn fmt_duration(d: Duration) -> (r: String)
    ensures
        r@ == fmt_dur(d@),
{
    let ms = d.as_millis();
    if ms >= 60000 && ms % 60000 == 0 {
        let mut r = dec_string(ms / 60000);
        push_str(&mut r, "m");
        r
    } else if ms >= 1000 && ms % 1000 == 0 {
        let mut r = dec_string(ms / 1000);
        push_str(&mut r, "s");
        r
    } else {
        let mut r = dec_string(ms);
        push_str(&mut r, "ms");
        r
    }
}

/// A duration as the log writes it reads back, as a script duration, as
/// the same number of milliseconds.
pub proof fn law_duration_text_reads_back(ms: u64)
    ensures
        crate::scenario::spec_parse_duration(fmt_dur(ms as nat)) == Ok::<nat, Seq<char>>(ms as nat),
{
    let m = ms as nat;
    if m >= 60000 && m % 60000 == 0 {
        let n = (m / 60000) as u64;
        crate::scenario::law_duration_units(n);
        assert(n as nat * 60 <= u64::MAX);
        assert(n as nat * 60000 == m);
    } else if m >= 1000 && m % 1000 == 0 {
        let n = (m / 1000) as u64;
        crate::scenario::law_duration_units(n);
        assert(n as nat * 1000 == m);
    } else {
        crate::scenario::law_duration_units(ms);
    }
}

/// How a step is announced and shown in the progress panel.
pub open spec fn step_desc(s: StepView) -> Seq<char> {
    match s {
        StepView::Start => "start"@,
        StepView::Wait { pattern, .. } => "wait "@ + pattern.raw,
        StepView::Send(cmd) => "send "@ + cmd,
        StepView::Sleep(d) => "sleep "@ + fmt_dur(d),
        StepView::Grab { name, .. } => "grab "@ + name,
        StepView::Loop { total, every, .. } => "loop "@ + fmt_dur(total) + " every "@ + fmt_dur(
            every,
        ),
        StepView::Stop => "stop"@,
    }
}

/// The description of a step.
pub fn describe_step(s: &Step) -> (r: String)
    ensures
        r@ == step_desc(s.view_step()),
{
    match s {
        Step::Start => "start".to_owned(),
        Step::Wait { pattern, .. } => {
            let mut r = "wait ".to_owned();
            push_str(&mut r, pattern.raw());
            r
        },
        Step::Send(cmd) => {
            let mut r = "send ".to_owned();
            push_str(&mut r, cmd.as_str());
            r
        },
        Step::Sleep(d) => {
            let mut r = "sleep ".to_owned();
            let t = fmt_duration(*d);
            push_str(&mut r, t.as_str());
            r
        },
        Step::Grab { name, .. } => {
            let mut r = "grab ".to_owned();
            push_str(&mut r, name.as_str());
            r
        },
        Step::Loop { total, every, .. } => {
            let mut r = "loop ".to_owned();
            let a = fmt_duration(*total);
            push_str(&mut r, a.as_str());
            push_str(&mut r, " every ");
            let b = fmt_duration(*every);
            push_str(&mut r, b.as_str());
            r
        },
        Step::Stop => "stop".to_owned(),
    }
}

// ---------------------------------------------------------------------------
// Lines that abort a scenario.

/// Whether `p` occurs in `s`.
pub fn chars_contain(s: &Vec<char>, p: &Vec<char>) -> (r: bool)
    ensures
        r == contains(s@, p@),
{
    if p.len() > s.len() {
        return false;
    }
    let mut i: usize = 0;
    while i <= s.len() - p.len()
        invariant
            p.len() <= s.len(),
            i <= s.len() - p.len() + 1,
            forall|j: int| 0 <= j < i ==> !occurs_at(s@, p@, j),
        decreases s.len() - i,
    {
        let mut k: usize = 0;
        let mut same = true;
        while k < p.len()
            invariant
                i + p.len() <= s.len(),
                k <= p.len(),
                same == (forall|m: int| 0 <= m < k ==> s@[i + m] == p@[m]),
            decreases p.len() - k,
        {
            if s[i + k] != p[k] {
                same = false;
            }
            k = k + 1;
        }
        if same {
            assert(s@.subrange(i as int, i + p.len()) =~= p@);
            assert(occurs_at(s@, p@, i as int));
            return true;
        }
        proof {
            if occurs_at(s@, p@, i as int) {
                let m = choose|m: int| 0 <= m < p.len() && s@[i + m] != p@[m];
                assert(s@.subrange(i as int, i + p.len())[m] == s@[i + m]);
            }
        }
        i = i + 1;
    }
    proof {
        assert forall|j: int| !occurs_at(s@, p@, j) by {
            if 0 <= j && j + p.len() <= s.len() {
                assert(j < i);
            }
        }
    }
    false
}

/// The console message after which the scenario that caused it is aborted.
pub open spec fn abort_pattern() -> Seq<char> {
    "Unknown or incomplete command, see below for error"@
}

/// The abort pattern that `line` contains, if any.
pub fn line_triggers_abort(line: &str) -> (r: Option<&'static str>)
    ensures
        r is Some <==> contains(line@, abort_pattern()),
        r matches Some(p) ==> p@ == abort_pattern(),
{
    let pat: &'static str = "Unknown or incomplete command, see below for error";
    let lv = chars_of(line);
    let pv = chars_of(pat);
    if chars_contain(&lv, &pv) {
        Some(pat)
    } else {
        None
    }
}

/// The error reported when a line aborts the scenario.
pub open spec fn abort_message(p: Seq<char>) -> Seq<char> {
    "command error detected — aborting scenario ("@ + p + ")"@
}

/// What a line of server output does to the runner whose error flag is
/// `flagged`: the error to report, when the line carries the abort pattern
/// and no abort was flagged yet (the flag is then to be set). Several
/// matching lines in one scenario give one report.
pub fn abort_notice(line: &str, flagged: bool) -> (r: Option<String>)
    ensures
        r is Some <==> (!flagged && contains(line@, abort_pattern())),
        r matches Some(m) ==> m@ == abort_message(abort_pattern()),
        notice_of(line@, flagged) == (match r {
            Some(m) => seq![m@],
            None => Seq::<Seq<char>>::empty(),
        }),
{
    match line_triggers_abort(line) {
        Some(p) => {
            if flagged {
                None
            } else {
                let mut m = "command error detected — aborting scenario (".to_owned();
                push_str(&mut m, p);
                push_str(&mut m, ")");
                Some(m)
            }
        },
        None => None,
    }
}


/// The error that `abort_notice` reports for `line`, as a list of none or
/// one message.
pub open spec fn notice_of(line: Seq<char>, flagged: bool) -> Seq<Seq<char>> {
    if !flagged && contains(line, abort_pattern()) {
        seq![abort_message(abort_pattern())]
    } else {
        seq![]
    }
}

/// The errors reported for the lines of one scenario, fed in order, with
/// the error flag at `flagged` before the first: a line with the abort
/// pattern sets the flag, and the flag stays set.
pub open spec fn abort_notices(lines: Seq<Seq<char>>, flagged: bool) -> Seq<Seq<char>>
    decreases lines.len(),
{
    if lines.len() == 0 {
        seq![]
    } else {
        notice_of(lines[0], flagged) + abort_notices(
            lines.drop_first(),
            flagged || contains(lines[0], abort_pattern()),
        )
    }
}

/// However many lines of one scenario carry the abort pattern, exactly one
/// error is reported for them, and none if no line does; once the flag is
/// set, nothing more is reported.
pub proof fn law_one_abort_notice(lines: Seq<Seq<char>>)
    ensures
        abort_notices(lines, false) == (if exists|i: int|
            0 <= i < lines.len() && contains(#[trigger] lines[i], abort_pattern()) {
            seq![abort_message(abort_pattern())]
        } else {
            Seq::<Seq<char>>::empty()
        }),
        abort_notices(lines, true) == Seq::<Seq<char>>::empty(),
    decreases lines.len(),
{
    if lines.len() > 0 {
        let rest = lines.drop_first();
        law_one_abort_notice(rest);
        assert forall|i: int| 0 <= i < rest.len() implies #[trigger] rest[i] == lines[i + 1] by {}
        if contains(lines[0], abort_pattern()) {
            assert(abort_notices(lines, false) =~= seq![abort_message(abort_pattern())]);
        } else {
            if exists|i: int| 0 <= i < lines.len() && contains(#[trigger] lines[i], abort_pattern()) {
                let i = choose|i: int| 0 <= i < lines.len() && contains(#[trigger] lines[i], abort_pattern());
                assert(i > 0);
                assert(contains(rest[i - 1], abort_pattern()));
            } else {
                assert forall|i: int| 0 <= i < rest.len() implies !contains(#[trigger] rest[i], abort_pattern()) by {
                    assert(!contains(lines[i + 1], abort_pattern()));
                }
            }
            assert(abort_notices(lines, false) =~= abort_notices(rest, false));
        }
        assert(abort_notices(lines, true) =~= abort_notices(rest, true));
    }
}

// ---------------------------------------------------------------------------
// Progress, as the interface shows it.

/// The scenario being run: its name, 1-based position and the number of
/// scenarios in the run.
#[derive(Debug)]
pub struct ScenarioProgress {
    pub name: String,
    pub index: usize,
    pub total: usize,
}

/// The top-level step being run: its description, 1-based position and the
/// number of top-level steps.
#[derive(Debug)]
pub struct StepProgress {
    pub desc: String,
    pub index: usize,
    pub total: usize,
}

/// The loop being run: when it started (on the runner's clock, in
/// milliseconds), how long it runs and the current iteration.
#[derive(Clone, Copy, PartialEq, Eq, Structural, Debug)]
pub struct LoopProgress {
    pub started_at_ms: u64,
    pub total: Duration,
    pub iter: u64,
}

/// What the runner is doing, for the progress panel.
#[derive(Debug)]
pub struct ProgressState {
    pub scenario: Option<ScenarioProgress>,
    pub step: Option<StepProgress>,
    pub loop_info: Option<LoopProgress>,
}

/// `ProgressState` in spec terms.
pub struct ProgressView {
    pub scenario: Option<(Seq<char>, nat, nat)>,
    pub step: Option<(Seq<char>, nat, nat)>,
    pub loop_info: Option<LoopProgress>,
}

impl View for ProgressState {
    type V = ProgressView;

    open spec fn view(&self) -> ProgressView {
        ProgressView {
            scenario: match self.scenario {
                Some(p) => Some((p.name@, p.index as nat, p.total as nat)),
                None => None,
            },
            step: match self.step {
                Some(p) => Some((p.desc@, p.index as nat, p.total as nat)),
                None => None,
            },
            loop_info: self.loop_info,
        }
    }
}

/// Nothing running.
pub open spec fn idle_progress() -> ProgressView {
    ProgressView { scenario: None, step: None, loop_info: None }
}

impl ScenarioProgress {
    pub fn duplicate(&self) -> (r: ScenarioProgress)
        ensures
            r.name@ == self.name@,
            r.index == self.index,
            r.total == self.total,
    {
        ScenarioProgress { name: self.name.clone(), index: self.index, total: self.total }
    }
}

impl StepProgress {
    pub fn duplicate(&self) -> (r: StepProgress)
        ensures
            r.desc@ == self.desc@,
            r.index == self.index,
            r.total == self.total,
    {
        StepProgress { desc: self.desc.clone(), index: self.index, total: self.total }
    }
}

impl ProgressState {
    /// Nothing running.
    pub fn idle() -> (r: ProgressState)
        ensures
            r@ == idle_progress(),
    {
        ProgressState { scenario: None, step: None, loop_info: None }
    }

    /// A copy, as the interface takes one each frame.
    pub fn duplicate(&self) -> (r: ProgressState)
        ensures
            r@ == self@,
    {
        let scenario = match &self.scenario {
            Some(p) => Some(p.duplicate()),
            None => None,
        };
        let step = match &self.step {
            Some(p) => Some(p.duplicate()),
            None => None,
        };
        ProgressState { scenario, step, loop_info: self.loop_info }
    }
}

impl Default for ProgressState {
    fn default() -> (r: ProgressState)
        ensures
            r@ == idle_progress(),
    {
        ProgressState::idle()
    }
}

// ---------------------------------------------------------------------------
// What the runner reports and asks for.

/// What the runner reports to the log.
#[derive(Debug)]
pub enum RunnerEvent {
    StepStart(String),
    StepDone(String),
    ScenarioStart(String),
    ScenarioDone { name: String, samples: usize },
    /// A `grab` read a number: the caller holds the number it parsed last
    /// (see `Action::ParseNumber`) and records it under `metric`.
    Sample { scenario: String, metric: String },
    RunnerInfo(String),
    RunnerError(String),
}

pub enum RunnerEventView {
    StepStart(Seq<char>),
    StepDone(Seq<char>),
    ScenarioStart(Seq<char>),
    ScenarioDone { name: Seq<char>, samples: nat },
    Sample { scenario: Seq<char>, metric: Seq<char> },
    RunnerInfo(Seq<char>),
    RunnerError(Seq<char>),
}

impl View for RunnerEvent {
    type V = RunnerEventView;

    open spec fn view(&self) -> RunnerEventView {
        match self {
            RunnerEvent::StepStart(s) => RunnerEventView::StepStart(s@),
            RunnerEvent::StepDone(s) => RunnerEventView::StepDone(s@),
            RunnerEvent::ScenarioStart(s) => RunnerEventView::ScenarioStart(s@),
            RunnerEvent::ScenarioDone { name, samples } => RunnerEventView::ScenarioDone {
                name: name@,
                samples: *samples as nat,
            },
            RunnerEvent::Sample { scenario, metric } => RunnerEventView::Sample {
                scenario: scenario@,
                metric: metric@,
            },
            RunnerEvent::RunnerInfo(s) => RunnerEventView::RunnerInfo(s@),
            RunnerEvent::RunnerError(s) => RunnerEventView::RunnerError(s@),
        }
    }
}

pub open spec fn events_view(e: Seq<RunnerEvent>) -> Seq<RunnerEventView> {
    Seq::new(e.len(), |i: int| e[i]@)
}

/// The outside work a transition asks for; its outcome comes back in the
/// next `Report`.
#[derive(Debug)]
pub enum Action {
    /// Nothing: resume again.
    Continue,
    /// Start the server (`Reply::Start`).
    StartServer,
    /// Write a line to the server console (`Reply::Sent`).
    Send(String),
    /// Wait up to `max_ms` for one line of server output (`Reply::Line`,
    /// `Reply::NoLine` when none came, `Reply::Closed` when none can come).
    Receive { max_ms: u64 },
    /// Sleep `ms` milliseconds.
    Sleep { ms: u64 },
    /// Parse the text as a floating-point number (`Reply::Parsed`); keep the
    /// number for the `Sample` event that may follow.
    ParseNumber(String),
    /// Kill the server.
    Kill,
    /// The run is over.
    Finished,
}

pub enum ActionView {
    Continue,
    StartServer,
    Send(Seq<char>),
    Receive { max_ms: nat },
    Sleep { ms: nat },
    ParseNumber(Seq<char>),
    Kill,
    Finished,
}

impl View for Action {
    type V = ActionView;

    open spec fn view(&self) -> ActionView {
        match self {
            Action::Continue => ActionView::Continue,
            Action::StartServer => ActionView::StartServer,
            Action::Send(s) => ActionView::Send(s@),
            Action::Receive { max_ms } => ActionView::Receive { max_ms: *max_ms as nat },
            Action::Sleep { ms } => ActionView::Sleep { ms: *ms as nat },
            Action::ParseNumber(s) => ActionView::ParseNumber(s@),
            Action::Kill => ActionView::Kill,
            Action::Finished => ActionView::Finished,
        }
    }
}

/// What came of the last action.
#[derive(Debug)]
pub enum Reply {
    /// No outcome to report (after `Continue`, `Sleep`, `Kill`).
    Done,
    Start(Result<StartOutcome, String>),
    Sent(bool),
    Line(String),
    NoLine,
    Closed,
    Parsed(bool),
}

pub enum ReplyView {
    Done,
    Start(Result<StartOutcome, Seq<char>>),
    Sent(bool),
    Line(Seq<char>),
    NoLine,
    Closed,
    Parsed(bool),
}

impl View for Reply {
    type V = ReplyView;

    open spec fn view(&self) -> ReplyView {
        match self {
            Reply::Done => ReplyView::Done,
            Reply::Start(r) => ReplyView::Start(
                match r {
                    Ok(o) => Ok(*o),
                    Err(e) => Err(e@),
                },
            ),
            Reply::Sent(b) => ReplyView::Sent(*b),
            Reply::Line(l) => ReplyView::Line(l@),
            Reply::NoLine => ReplyView::NoLine,
            Reply::Closed => ReplyView::Closed,
            Reply::Parsed(b) => ReplyView::Parsed(*b),
        }
    }
}

/// The outcome of the last action, the time on the runner's clock (in
/// milliseconds, never going back) and the flags that other parts of the
/// program set: stop requested, server exited, command error seen.
#[derive(Debug)]
pub struct Report {
    pub reply: Reply,
    pub now_ms: u64,
    pub stop: bool,
    pub exited: bool,
    pub error: bool,
}

pub struct ReportView {
    pub reply: ReplyView,
    pub now: nat,
    pub stop: bool,
    pub exited: bool,
    pub error: bool,
}

impl View for Report {
    type V = ReportView;

    open spec fn view(&self) -> ReportView {
        ReportView {
            reply: self.reply@,
            now: self.now_ms as nat,
            stop: self.stop,
            exited: self.exited,
            error: self.error,
        }
    }
}

/// What a transition hands the caller: events to send, in order, after
/// updating the flags as asked (clear or set "exited", clear "error"), and
/// then the action to perform.
#[derive(Debug)]
pub struct Output {
    pub events: Vec<RunnerEvent>,
    pub clear_exited: bool,
    pub set_exited: bool,
    pub clear_error: bool,
    pub action: Action,
}

pub struct OutputView {
    pub events: Seq<RunnerEventView>,
    pub clear_exited: bool,
    pub set_exited: bool,
    pub clear_error: bool,
    pub action: ActionView,
}

impl View for Output {
    type V = OutputView;

    open spec fn view(&self) -> OutputView {
        OutputView {
            events: events_view(self.events@),
            clear_exited: self.clear_exited,
            set_exited: self.set_exited,
            clear_error: self.clear_error,
            action: self.action@,
        }
    }
}

// ---------------------------------------------------------------------------
// The runner's state.

/// How long `grab` waits for a matching line.
pub open spec fn grab_timeout_ms() -> nat {
    5000
}

/// How long `stop` waits for the server to exit before killing it.
pub open spec fn stop_wait_ms() -> nat {
    60000
}

/// The longest single wait, so that flags are looked at this often.
pub open spec fn poll_ms() -> nat {
    100
}

/// A loop step in progress: its total time and interval, when it and its
/// current iteration started, and the iteration count.
#[derive(Clone, Copy, PartialEq, Eq, Structural, Debug)]
pub struct LoopRun {
    pub total: u128,
    pub every: u128,
    pub started: u64,
    pub iter_started: u64,
    pub iter: u64,
}

/// Where the runner stands.
#[derive(Clone, Copy, PartialEq, Eq, Structural, Debug)]
pub enum Phase {
    /// Between scenarios: start the next one, or finish.
    Boundary,
    /// Run the current step of the innermost step list, or close that list.
    Next,
    /// At the head of a loop iteration: run the body again or end the loop.
    LoopCheck,
    /// The server is being started for a `start` step.
    Starting,
    /// A `send` step's line is being written.
    Sending,
    /// A `wait` or `grab` that started at `start` looks at its time left.
    Outer { start: u64 },
    /// A `wait` or `grab` is receiving lines for at most `budget` ms from
    /// `recv_start`.
    Recv { start: u64, recv_start: u64, budget: u128 },
    /// A `grab` has its number parsed.
    Parsing { start: u64 },
    /// Sleeping `len` ms from `start`: a `sleep` step, or the pause that
    /// paces a loop iteration.
    Sleeping { start: u64, len: u128, pacing: bool },
    /// `stop` was written to the console.
    StopSent,
    /// Waiting, since `start`, for the server to exit.
    StopSlept { start: u64 },
    /// The server is being killed.
    Killing,
    /// The run is over.
    Finished,
}

/// A list of steps being run: the current index and, for a loop body, the
/// loop's state.
struct Frame {
    steps: Vec<Step>,
    idx: usize,
    run: Option<LoopRun>,
}

pub struct FrameView {
    pub steps: Seq<StepView>,
    pub idx: nat,
    pub run: Option<LoopRun>,
}

impl Frame {
    spec fn view(&self) -> FrameView {
        FrameView { steps: steps_view(self.steps@), idx: self.idx as nat, run: self.run }
    }
}

spec fn frames_view(f: Seq<Frame>) -> Seq<FrameView> {
    Seq::new(f.len(), |i: int| f[i].view())
}

/// A scenario in spec terms.
pub struct ScenarioView {
    pub name: Seq<char>,
    pub steps: Seq<StepView>,
}

pub open spec fn scenario_view(s: Scenario) -> ScenarioView {
    ScenarioView { name: s.name@, steps: steps_view(s.steps@) }
}

pub open spec fn scenarios_view(s: Seq<Scenario>) -> Seq<ScenarioView> {
    Seq::new(s.len(), |i: int| scenario_view(s[i]))
}

/// The runner in spec terms.
pub struct RunnerView {
    pub scenarios: Seq<ScenarioView>,
    /// The scenario being run, or the next one.
    pub next: nat,
    /// Samples taken in the current scenario.
    pub samples: nat,
    /// The step lists being run, innermost last.
    pub frames: Seq<FrameView>,
    pub phase: Phase,
    pub progress: ProgressView,
}

/// Runs scenarios one after another.
pub struct Runner {
    scenarios: Vec<Scenario>,
    next: usize,
    samples: usize,
    frames: Vec<Frame>,
    phase: Phase,
    progress: ProgressState,
}

impl View for Runner {
    type V = RunnerView;

    closed spec fn view(&self) -> RunnerView {
        RunnerView {
            scenarios: scenarios_view(self.scenarios@),
            next: self.next as nat,
            samples: self.samples as nat,
            frames: frames_view(self.frames@),
            phase: self.phase,
            progress: self.progress@,
        }
    }
}


// ---------------------------------------------------------------------------
// The transitions in spec terms.

/// Milliseconds from `start` to `now` (none if the clock reads earlier).
pub open spec fn elapsed(start: u64, now: nat) -> nat {
    if now >= start {
        (now - start) as nat
    } else {
        0
    }
}

/// A stop was requested, the server exited or a command error was seen.
pub open spec fn aborted(r: ReportView) -> bool {
    r.stop || r.exited || r.error
}

/// An output that leaves the flags alone.
pub open spec fn quiet(events: Seq<RunnerEventView>, action: ActionView) -> OutputView {
    OutputView { events, clear_exited: false, set_exited: false, clear_error: false, action }
}

/// The name of the scenario being run.
pub open spec fn cur_name(v: RunnerView) -> Seq<char> {
    if v.next < v.scenarios.len() {
        v.scenarios[v.next as int].name
    } else {
        seq![]
    }
}

/// The step being run: the current one of the innermost list.
pub open spec fn cur_step(v: RunnerView) -> Option<StepView> {
    if v.frames.len() > 0 && v.frames.last().idx < v.frames.last().steps.len() {
        Some(v.frames.last().steps[v.frames.last().idx as int])
    } else {
        None
    }
}

pub open spec fn at_phase(v: RunnerView, p: Phase) -> RunnerView {
    RunnerView { phase: p, ..v }
}

/// Past the current step, on to the next.
pub open spec fn advanced(v: RunnerView) -> RunnerView {
    if v.frames.len() > 0 && v.frames.last().idx < v.frames.last().steps.len() {
        let f = v.frames.last();
        RunnerView {
            frames: v.frames.update(
                v.frames.len() - 1,
                FrameView { steps: f.steps, idx: f.idx + 1, run: f.run },
            ),
            phase: Phase::Next,
            ..v
        }
    } else {
        at_phase(v, Phase::Next)
    }
}

/// The current step is done: report it under `done` after `evs`.
pub open spec fn step_done(v: RunnerView, evs: Seq<RunnerEventView>, done: Seq<char>) -> (
    RunnerView,
    OutputView,
) {
    (advanced(v), quiet(evs.push(RunnerEventView::StepDone(done)), ActionView::Continue))
}

/// The current scenario is over, aborted with `err` if there is one.
pub open spec fn end_scenario(v: RunnerView, evs: Seq<RunnerEventView>, err: Option<Seq<char>>) -> (
    RunnerView,
    OutputView,
) {
    let name = cur_name(v);
    let evs1 = match err {
        Some(m) => evs.push(RunnerEventView::RunnerError("scenario "@ + name + " aborted: "@ + m)),
        None => evs,
    };
    let evs2 = evs1.push(RunnerEventView::ScenarioDone { name, samples: v.samples });
    (
        RunnerView {
            next: if v.next < v.scenarios.len() {
                v.next + 1
            } else {
                v.next
            },
            frames: seq![],
            phase: Phase::Boundary,
            ..v
        },
        quiet(evs2, ActionView::Continue),
    )
}

/// The current step failed with `msg`: the scenario is aborted.
pub open spec fn fail(v: RunnerView, evs: Seq<RunnerEventView>, msg: Seq<char>) -> (
    RunnerView,
    OutputView,
) {
    end_scenario(v, evs, Some(msg))
}

/// Between scenarios.
pub open spec fn on_boundary(v: RunnerView, r: ReportView) -> (RunnerView, OutputView) {
    if v.next >= v.scenarios.len() || r.stop {
        (
            RunnerView { progress: idle_progress(), phase: Phase::Finished, ..v },
            quiet(seq![], ActionView::Finished),
        )
    } else {
        let sc = v.scenarios[v.next as int];
        (
            RunnerView {
                samples: 0,
                frames: seq![FrameView { steps: sc.steps, idx: 0, run: None }],
                phase: Phase::Next,
                progress: ProgressView {
                    scenario: Some((sc.name, v.next + 1, v.scenarios.len())),
                    step: None,
                    loop_info: None,
                },
                ..v
            },
            OutputView {
                events: seq![RunnerEventView::ScenarioStart(sc.name)],
                clear_exited: false,
                set_exited: false,
                clear_error: true,
                action: ActionView::Continue,
            },
        )
    }
}

/// The progress panel when top-level step `idx` of `total`, `s`, begins.
pub open spec fn progress_at_step(p: ProgressView, s: StepView, idx: nat, total: nat) -> ProgressView {
    ProgressView {
        scenario: p.scenario,
        step: Some((step_desc(s), idx + 1, total)),
        loop_info: if s is Loop {
            p.loop_info
        } else {
            None
        },
    }
}

/// A step begins.
pub open spec fn begin_step(v: RunnerView, r: ReportView, s: StepView) -> (RunnerView, OutputView) {
    let ev = seq![RunnerEventView::StepStart(step_desc(s))];
    match s {
        StepView::Start => (
            at_phase(v, Phase::Starting),
            OutputView {
                events: ev,
                clear_exited: true,
                set_exited: false,
                clear_error: false,
                action: ActionView::StartServer,
            },
        ),
        StepView::Wait { .. } => (
            at_phase(v, Phase::Outer { start: r.now as u64 }),
            quiet(ev, ActionView::Continue),
        ),
        StepView::Grab { .. } => (
            at_phase(v, Phase::Outer { start: r.now as u64 }),
            quiet(ev, ActionView::Continue),
        ),
        StepView::Send(cmd) => (at_phase(v, Phase::Sending), quiet(ev, ActionView::Send(cmd))),
        StepView::Sleep(d) => (
            at_phase(v, Phase::Sleeping { start: r.now as u64, len: d as u128, pacing: false }),
            quiet(ev, ActionView::Continue),
        ),
        StepView::Loop { total, every, body } => {
            let run = LoopRun {
                total: total as u128,
                every: every as u128,
                started: r.now as u64,
                iter_started: r.now as u64,
                iter: 0,
            };
            (
                RunnerView {
                    frames: v.frames.push(FrameView { steps: body, idx: 0, run: Some(run) }),
                    phase: Phase::LoopCheck,
                    progress: ProgressView {
                        loop_info: Some(
                            LoopProgress {
                                started_at_ms: r.now as u64,
                                total: Duration { ms: total as u128 },
                                iter: 0,
                            },
                        ),
                        ..v.progress
                    },
                    ..v
                },
                quiet(ev, ActionView::Continue),
            )
        },
        StepView::Stop => (at_phase(v, Phase::StopSent), quiet(ev, ActionView::Send("stop"@))),
    }
}

/// The text of a loop iteration that overran its interval.
pub open spec fn overrun_message(iter: nat, took: nat, every: nat) -> Seq<char> {
    "loop iter "@ + dec(iter) + " took "@ + dec(took) + "ms (> interval "@ + dec(every)
        + "ms)"@
}

/// The body of a loop ran to its end: pace the iteration, then check the
/// loop again.
pub open spec fn iteration_end(v: RunnerView, r: ReportView, run: LoopRun) -> (RunnerView, OutputView) {
    let took = elapsed(run.iter_started, r.now);
    if took < run.every {
        (
            at_phase(
                v,
                Phase::Sleeping {
                    start: r.now as u64,
                    len: (run.every - took) as u128,
                    pacing: true,
                },
            ),
            quiet(seq![], ActionView::Continue),
        )
    } else {
        (
            at_phase(v, Phase::LoopCheck),
            quiet(
                seq![RunnerEventView::RunnerInfo(overrun_message(run.iter as nat, took, run.every as nat))],
                ActionView::Continue,
            ),
        )
    }
}

/// Run the current step, or close the innermost list.
pub open spec fn on_next(v: RunnerView, r: ReportView) -> (RunnerView, OutputView) {
    if v.frames.len() == 0 {
        end_scenario(v, seq![], None)
    } else {
        let f = v.frames.last();
        if f.idx < f.steps.len() {
            if r.stop {
                fail(v, seq![], "stop requested"@)
            } else if r.error {
                fail(v, seq![], "command error — scenario aborted"@)
            } else {
                let s = f.steps[f.idx as int];
                let v1 = if v.frames.len() == 1 {
                    RunnerView {
                        progress: progress_at_step(v.progress, s, f.idx, f.steps.len()),
                        ..v
                    }
                } else {
                    v
                };
                begin_step(v1, r, s)
            }
        } else {
            match f.run {
                None => end_scenario(v, seq![], None),
                Some(run) => iteration_end(v, r, run),
            }
        }
    }
}

/// The iteration count after `i`.
pub open spec fn bump(i: u64) -> u64 {
    if i == u64::MAX {
        0
    } else {
        (i + 1) as u64
    }
}

/// The loop of the innermost list: iterate again while its time lasts and
/// nothing aborted it; otherwise the loop step is done.
pub open spec fn on_loop_check(v: RunnerView, r: ReportView) -> (RunnerView, OutputView) {
    if v.frames.len() == 0 {
        end_scenario(v, seq![], None)
    } else {
        let f = v.frames.last();
        match f.run {
            None => (at_phase(v, Phase::Next), quiet(seq![], ActionView::Continue)),
            Some(run) => if elapsed(run.started, r.now) < run.total && !aborted(r) {
                let run2 = LoopRun { iter_started: r.now as u64, iter: bump(run.iter), ..run };
                (
                    RunnerView {
                        frames: v.frames.update(
                            v.frames.len() - 1,
                            FrameView { steps: f.steps, idx: 0, run: Some(run2) },
                        ),
                        phase: Phase::Next,
                        progress: ProgressView {
                            loop_info: match v.progress.loop_info {
                                Some(li) => Some(LoopProgress { iter: run2.iter, ..li }),
                                None => None,
                            },
                            ..v.progress
                        },
                        ..v
                    },
                    quiet(seq![], ActionView::Continue),
                )
            } else {
                let v2 = RunnerView {
                    frames: v.frames.drop_last(),
                    progress: ProgressView { loop_info: None, ..v.progress },
                    ..v
                };
                step_done(v2, seq![], "loop ("@ + dec(run.iter as nat) + " iters)"@)
            },
        }
    }
}

/// The outcome of starting the server.
pub open spec fn on_starting(v: RunnerView, r: ReportView) -> (RunnerView, OutputView) {
    match r.reply {
        ReplyView::Start(Ok(StartOutcome::Started)) => step_done(
            v,
            seq![RunnerEventView::RunnerInfo("server started"@)],
            "start"@,
        ),
        ReplyView::Start(Ok(StartOutcome::AlreadyRunning)) => step_done(
            v,
            seq![RunnerEventView::RunnerInfo("server already running — reusing"@)],
            "start"@,
        ),
        ReplyView::Start(Err(e)) => fail(v, seq![], "start failed: "@ + e),
        _ => fail(v, seq![], "start failed: "@),
    }
}

/// The outcome of a `send`.
pub open spec fn on_sending(v: RunnerView, r: ReportView) -> (RunnerView, OutputView) {
    match r.reply {
        ReplyView::Sent(true) => step_done(v, seq![], "send"@),
        _ => fail(v, seq![], "server stdin unavailable (is it running? add `start` first)"@),
    }
}

/// How long a `wait` or `grab` step waits in all.
pub open spec fn recv_limit(s: StepView) -> nat {
    match s {
        StepView::Wait { timeout, .. } => timeout,
        _ => grab_timeout_ms(),
    }
}

/// The error of a `wait` that saw no matching line in time.
pub open spec fn wait_timeout_message(timeout: nat, raw: Seq<char>) -> Seq<char> {
    "wait timeout after "@ + dec(timeout) + "ms for "@ + str_debug(raw)
}

/// A `grab` that read no number.
pub open spec fn grab_missed(v: RunnerView, name: Seq<char>) -> (RunnerView, OutputView) {
    step_done(v, seq![RunnerEventView::RunnerInfo("grab "@ + name + ": no match"@)], "grab"@)
}

/// A `wait` or `grab` ran out of time before receiving.
pub open spec fn outer_expired(v: RunnerView, s: StepView) -> (RunnerView, OutputView) {
    match s {
        StepView::Wait { timeout, pattern } => fail(
            v,
            seq![],
            wait_timeout_message(timeout, pattern.raw),
        ),
        StepView::Grab { name, .. } => grab_missed(v, name),
        _ => (at_phase(v, Phase::Next), quiet(seq![], ActionView::Continue)),
    }
}

/// Receiving gave no line: time ran out, the source closed or the run was
/// aborted.
pub open spec fn recv_none(v: RunnerView, r: ReportView, s: StepView) -> (RunnerView, OutputView) {
    match s {
        StepView::Wait { timeout, pattern } => fail(
            v,
            seq![],
            if aborted(r) {
                "aborted"@
            } else {
                wait_timeout_message(timeout, pattern.raw)
            },
        ),
        StepView::Grab { name, .. } => grab_missed(v, name),
        _ => (at_phase(v, Phase::Next), quiet(seq![], ActionView::Continue)),
    }
}

/// One poll of the receiving loop: `budget` ms from `recv_start`, in
/// slices of at most `poll_ms`, unless the run is aborted.
pub open spec fn recv_poll(
    v: RunnerView,
    r: ReportView,
    s: StepView,
    start: u64,
    recv_start: u64,
    budget: u128,
) -> (RunnerView, OutputView) {
    if aborted(r) {
        recv_none(v, r, s)
    } else {
        let took = elapsed(recv_start, r.now);
        if took > budget {
            recv_none(v, r, s)
        } else {
            let left = (budget - took) as nat;
            (
                at_phase(v, Phase::Recv { start, recv_start, budget }),
                quiet(
                    seq![],
                    ActionView::Receive {
                        max_ms: if left < poll_ms() {
                            left
                        } else {
                            poll_ms()
                        },
                    },
                ),
            )
        }
    }
}

/// A `wait` or `grab` that began at `start` looks at its time left.
pub open spec fn on_outer(v: RunnerView, r: ReportView, start: u64) -> (RunnerView, OutputView) {
    match cur_step(v) {
        Some(s) => if s is Wait || s is Grab {
            let took = elapsed(start, r.now);
            let limit = recv_limit(s);
            if took >= limit {
                outer_expired(v, s)
            } else {
                recv_poll(v, r, s, start, r.now as u64, (limit - took) as u128)
            }
        } else {
            (at_phase(v, Phase::Next), quiet(seq![], ActionView::Continue))
        },
        None => (at_phase(v, Phase::Next), quiet(seq![], ActionView::Continue)),
    }
}

/// A line, or none, came in for a `wait` or `grab`.
pub open spec fn on_recv(v: RunnerView, r: ReportView, start: u64, recv_start: u64, budget: u128) -> (
    RunnerView,
    OutputView,
) {
    match cur_step(v) {
        Some(s) => if s is Wait || s is Grab {
            match r.reply {
                ReplyView::Line(l) => match s {
                    StepView::Wait { pattern, .. } => if regex_matches(pattern.source, l) {
                        step_done(v, seq![], "wait"@)
                    } else {
                        (at_phase(v, Phase::Outer { start }), quiet(seq![], ActionView::Continue))
                    },
                    StepView::Grab { pattern, .. } => match regex_group1(pattern.source, l) {
                        Some(t) => (
                            at_phase(v, Phase::Parsing { start }),
                            quiet(seq![], ActionView::ParseNumber(t)),
                        ),
                        None => (
                            at_phase(v, Phase::Outer { start }),
                            quiet(seq![], ActionView::Continue),
                        ),
                    },
                    _ => (at_phase(v, Phase::Next), quiet(seq![], ActionView::Continue)),
                },
                ReplyView::Closed => recv_none(v, r, s),
                _ => recv_poll(v, r, s, start, recv_start, budget),
            }
        } else {
            (at_phase(v, Phase::Next), quiet(seq![], ActionView::Continue))
        },
        None => (at_phase(v, Phase::Next), quiet(seq![], ActionView::Continue)),
    }
}

/// The number of a `grab` was parsed, or failed to parse.
pub open spec fn on_parsing(v: RunnerView, r: ReportView, start: u64) -> (RunnerView, OutputView) {
    match cur_step(v) {
        Some(StepView::Grab { name, .. }) => match r.reply {
            ReplyView::Parsed(true) => step_done(
                RunnerView { samples: if v.samples >= usize::MAX { 0 } else { v.samples + 1 }, ..v },
                seq![RunnerEventView::Sample { scenario: cur_name(v), metric: name }],
                "grab"@,
            ),
            _ => (at_phase(v, Phase::Outer { start }), quiet(seq![], ActionView::Continue)),
        },
        _ => (at_phase(v, Phase::Next), quiet(seq![], ActionView::Continue)),
    }
}

/// A sleep ended, or was interrupted.
pub open spec fn sleep_done(v: RunnerView, r: ReportView, pacing: bool) -> (RunnerView, OutputView) {
    if pacing {
        (at_phase(v, Phase::LoopCheck), quiet(seq![], ActionView::Continue))
    } else if r.stop {
        fail(v, seq![], "stop requested"@)
    } else {
        step_done(v, seq![], "sleep"@)
    }
}

/// Sleeping: in slices of at most `poll_ms`, until `len` ms have passed or
/// the run is aborted (a stop request, the server's exit or a command
/// error).
pub open spec fn on_sleeping(v: RunnerView, r: ReportView, start: u64, len: u128, pacing: bool) -> (
    RunnerView,
    OutputView,
) {
    let took = elapsed(start, r.now);
    if took < len && !aborted(r) {
        let left = (len - took) as nat;
        (
            v,
            quiet(
                seq![],
                ActionView::Sleep {
                    ms: if left < poll_ms() {
                        left
                    } else {
                        poll_ms()
                    },
                },
            ),
        )
    } else {
        sleep_done(v, r, pacing)
    }
}

/// The end of the wait for the server to exit: kill it if it has not.
pub open spec fn stop_final(v: RunnerView, r: ReportView) -> (RunnerView, OutputView) {
    if !r.exited {
        (at_phase(v, Phase::Killing), quiet(seq![], ActionView::Kill))
    } else {
        step_done(v, seq![], "stop"@)
    }
}

/// Waiting since `start` for the server to exit.
pub open spec fn stop_check(v: RunnerView, r: ReportView, start: u64) -> (RunnerView, OutputView) {
    if !r.exited && elapsed(start, r.now) < stop_wait_ms() {
        (at_phase(v, Phase::StopSlept { start }), quiet(seq![], ActionView::Sleep { ms: poll_ms() }))
    } else {
        stop_final(v, r)
    }
}

/// One transition of the runner. Each phase handles the outcome of the
/// action it asked for; a reply of another kind counts as a failed or empty
/// outcome. States that `new` and `resume` never produce (see `runner_wf`
/// and `law_resume_keeps_wf`), such as a wait phase whose current step is
/// no `wait`, go on to the next step.
pub open spec fn runner_step(v: RunnerView, r: ReportView) -> (RunnerView, OutputView) {
    match v.phase {
        Phase::Boundary => on_boundary(v, r),
        Phase::Next => on_next(v, r),
        Phase::LoopCheck => on_loop_check(v, r),
        Phase::Starting => on_starting(v, r),
        Phase::Sending => on_sending(v, r),
        Phase::Outer { start } => on_outer(v, r, start),
        Phase::Recv { start, recv_start, budget } => on_recv(v, r, start, recv_start, budget),
        Phase::Parsing { start } => on_parsing(v, r, start),
        Phase::Sleeping { start, len, pacing } => on_sleeping(v, r, start, len, pacing),
        Phase::StopSent => stop_check(v, r, r.now as u64),
        Phase::StopSlept { start } => if r.stop {
            stop_final(v, r)
        } else {
            stop_check(v, r, start)
        },
        Phase::Killing => {
            let (v2, o) = step_done(
                v,
                seq![RunnerEventView::RunnerInfo("server didn't exit within stop window — killed"@)],
                "stop"@,
            );
            (v2, OutputView { set_exited: true, ..o })
        },
        Phase::Finished => (v, quiet(seq![], ActionView::Finished)),
    }
}


// ---------------------------------------------------------------------------
// The transitions.

fn push_ev(evs: &mut Vec<RunnerEvent>, e: RunnerEvent)
    ensures
        events_view(final(evs)@) == events_view(old(evs)@).push(e@),
{
    let ghost before = evs@;
    evs.push(e);
    assert(events_view(evs@) =~= events_view(before).push(e@));
}

fn one_ev(e: RunnerEvent) -> (evs: Vec<RunnerEvent>)
    ensures
        events_view(evs@) == seq![e@],
{
    let mut evs: Vec<RunnerEvent> = Vec::new();
    proof {
        assert(events_view(evs@) =~= Seq::<RunnerEventView>::empty());
    }
    push_ev(&mut evs, e);
    proof {
        assert(events_view(evs@) =~= seq![e@]);
    }
    evs
}

fn no_ev() -> (evs: Vec<RunnerEvent>)
    ensures
        events_view(evs@) == Seq::<RunnerEventView>::empty(),
{
    let evs: Vec<RunnerEvent> = Vec::new();
    assert(events_view(evs@) =~= Seq::<RunnerEventView>::empty());
    evs
}

fn quiet_out(events: Vec<RunnerEvent>, action: Action) -> (o: Output)
    ensures
        o@ == quiet(events_view(events@), action@),
{
    Output { events, clear_exited: false, set_exited: false, clear_error: false, action }
}

fn elapsed_ms(start: u64, now: u64) -> (r: u64)
    ensures
        r as nat == elapsed(start, now as nat),
{
    if now >= start {
        now - start
    } else {
        0
    }
}

/// A copy of a step list.
fn dup_steps(v: &Vec<Step>) -> (r: Vec<Step>)
    ensures
        steps_view(r@) == steps_view(v@),
{
    let mut r: Vec<Step> = Vec::new();
    let mut i: usize = 0;
    while i < v.len()
        invariant
            i <= v.len(),
            r@.len() == i,
            forall|j: int| 0 <= j < i ==> (#[trigger] r@[j]).view_step() == v@[j].view_step(),
        decreases v.len() - i,
    {
        r.push(v[i].duplicate());
        i = i + 1;
    }
    assert(steps_view(r@) =~= steps_view(v@));
    r
}

impl Runner {
    /// A runner for the scenarios, in order; nothing has run yet.
    pub fn new(scenarios: Vec<Scenario>) -> (r: Runner)
        ensures
            r@ == (RunnerView {
                scenarios: scenarios_view(scenarios@),
                next: 0,
                samples: 0,
                frames: seq![],
                phase: Phase::Boundary,
                progress: idle_progress(),
            }),
    {
        let r = Runner {
            scenarios,
            next: 0,
            samples: 0,
            frames: Vec::new(),
            phase: Phase::Boundary,
            progress: ProgressState::idle(),
        };
        assert(frames_view(r.frames@) =~= Seq::<FrameView>::empty());
        r
    }

    /// What the progress panel shows.
    pub fn progress(&self) -> (p: ProgressState)
        ensures
            p@ == self@.progress,
    {
        self.progress.duplicate()
    }

    /// Whether the run is over.
    pub fn is_done(&self) -> (b: bool)
        ensures
            b == (self@.phase == Phase::Finished),
    {
        self.phase == Phase::Finished
    }

    fn name_of_current(&self) -> (r: String)
        ensures
            r@ == cur_name(self@),
    {
        if self.next < self.scenarios.len() {
            self.scenarios[self.next].name.clone()
        } else {
            String::new()
        }
    }

    /// The current step, copied.
    fn current_step(&self) -> (r: Option<Step>)
        ensures
            match r {
                Some(s) => cur_step(self@) == Some(s.view_step()),
                None => cur_step(self@) is None,
            },
    {
        let n = self.frames.len();
        if n > 0 && self.frames[n - 1].idx < self.frames[n - 1].steps.len() {
            let f = &self.frames[n - 1];
            assert(frames_view(self.frames@).last() == f.view());
            Some(f.steps[f.idx].duplicate())
        } else {
            None
        }
    }

    fn set_phase(&mut self, p: Phase)
        ensures
            final(self)@ == at_phase(old(self)@, p),
    {
        self.phase = p;
    }

    fn advance(&mut self)
        ensures
            final(self)@ == advanced(old(self)@),
    {
        let n = self.frames.len();
        if n > 0 && self.frames[n - 1].idx < self.frames[n - 1].steps.len() {
            let ghost before = self.frames@;
            let mut f = self.frames.pop().unwrap();
            f.idx = f.idx + 1;
            self.frames.push(f);
            proof {
                let fv = frames_view(before);
                assert(frames_view(self.frames@) =~= fv.update(
                    fv.len() - 1,
                    FrameView { steps: fv.last().steps, idx: fv.last().idx + 1, run: fv.last().run },
                ));
            }
        }
        self.phase = Phase::Next;
    }

    fn finish_step(&mut self, evs: Vec<RunnerEvent>, done: &str) -> (out: Output)
        ensures
            (final(self)@, out@) == step_done(old(self)@, events_view(evs@), done@),
    {
        let mut evs = evs;
        push_ev(&mut evs, RunnerEvent::StepDone(done.to_owned()));
        self.advance();
        quiet_out(evs, Action::Continue)
    }

    fn end_scenario(&mut self, evs: Vec<RunnerEvent>, err: Option<String>) -> (out: Output)
        ensures
            (final(self)@, out@) == end_scenario(
                old(self)@,
                events_view(evs@),
                match err {
                    Some(m) => Some(m@),
                    None => None,
                },
            ),
    {
        let mut evs = evs;
        let name = self.name_of_current();
        match err {
            Some(m) => {
                let mut t = "scenario ".to_owned();
                push_str(&mut t, name.as_str());
                push_str(&mut t, " aborted: ");
                push_str(&mut t, m.as_str());
                push_ev(&mut evs, RunnerEvent::RunnerError(t));
            },
            None => {},
        }
        push_ev(&mut evs, RunnerEvent::ScenarioDone { name, samples: self.samples });
        if self.next < self.scenarios.len() {
            self.next = self.next + 1;
        }
        self.frames = Vec::new();
        self.phase = Phase::Boundary;
        assert(frames_view(self.frames@) =~= Seq::<FrameView>::empty());
        quiet_out(evs, Action::Continue)
    }

    fn fail(&mut self, evs: Vec<RunnerEvent>, msg: String) -> (out: Output)
        ensures
            (final(self)@, out@) == fail(old(self)@, events_view(evs@), msg@),
    {
        self.end_scenario(evs, Some(msg))
    }

    fn on_boundary(&mut self, r: &Report) -> (out: Output)
        ensures
            (final(self)@, out@) == on_boundary(old(self)@, r@),
    {
        if self.next >= self.scenarios.len() || r.stop {
            self.progress = ProgressState::idle();
            self.phase = Phase::Finished;
            return quiet_out(no_ev(), Action::Finished);
        }
        let sc = &self.scenarios[self.next];
        let name = sc.name.clone();
        let steps = dup_steps(&sc.steps);
        let total = self.scenarios.len();
        let evs = one_ev(RunnerEvent::ScenarioStart(name.clone()));
        self.samples = 0;
        let ghost sv = scenarios_view(self.scenarios@)[self.next as int];
        let f = Frame { steps, idx: 0, run: None };
        let mut frames: Vec<Frame> = Vec::new();
        frames.push(f);
        self.frames = frames;
        assert(frames_view(self.frames@) =~= seq![FrameView { steps: sv.steps, idx: 0, run: None }]);
        self.phase = Phase::Next;
        self.progress = ProgressState {
            scenario: Some(ScenarioProgress { name, index: self.next + 1, total }),
            step: None,
            loop_info: None,
        };
        Output {
            events: evs,
            clear_exited: false,
            set_exited: false,
            clear_error: true,
            action: Action::Continue,
        }
    }
}


impl Runner {
    fn begin_step(&mut self, r: &Report, s: Step) -> (out: Output)
        ensures
            (final(self)@, out@) == begin_step(old(self)@, r@, s.view_step()),
    {
        let desc = describe_step(&s);
        let evs = one_ev(RunnerEvent::StepStart(desc));
        let ghost sv = s.view_step();
        match s {
            Step::Start => {
                self.phase = Phase::Starting;
                Output {
                    events: evs,
                    clear_exited: true,
                    set_exited: false,
                    clear_error: false,
                    action: Action::StartServer,
                }
            },
            Step::Wait { .. } => {
                self.phase = Phase::Outer { start: r.now_ms };
                quiet_out(evs, Action::Continue)
            },
            Step::Grab { .. } => {
                self.phase = Phase::Outer { start: r.now_ms };
                quiet_out(evs, Action::Continue)
            },
            Step::Send(cmd) => {
                self.phase = Phase::Sending;
                quiet_out(evs, Action::Send(cmd))
            },
            Step::Sleep(d) => {
                self.phase = Phase::Sleeping { start: r.now_ms, len: d.ms, pacing: false };
                quiet_out(evs, Action::Continue)
            },
            Step::Loop { total, every, body } => {
                let run = LoopRun {
                    total: total.ms,
                    every: every.ms,
                    started: r.now_ms,
                    iter_started: r.now_ms,
                    iter: 0,
                };
                let ghost before = self.frames@;
                let ghost bv = steps_view(body@);
                assert(bv =~= sv->Loop_body);
                self.frames.push(Frame { steps: body, idx: 0, run: Some(run) });
                assert(frames_view(self.frames@) =~= frames_view(before).push(
                    FrameView { steps: bv, idx: 0, run: Some(run) },
                ));
                self.phase = Phase::LoopCheck;
                self.progress.loop_info = Some(
                    LoopProgress { started_at_ms: r.now_ms, total, iter: 0 },
                );
                quiet_out(evs, Action::Continue)
            },
            Step::Stop => {
                self.phase = Phase::StopSent;
                quiet_out(evs, Action::Send("stop".to_owned()))
            },
        }
    }

    fn iteration_end(&mut self, r: &Report, run: LoopRun) -> (out: Output)
        ensures
            (final(self)@, out@) == iteration_end(old(self)@, r@, run),
    {
        let took = elapsed_ms(run.iter_started, r.now_ms);
        if (took as u128) < run.every {
            self.phase = Phase::Sleeping {
                start: r.now_ms,
                len: run.every - took as u128,
                pacing: true,
            };
            quiet_out(no_ev(), Action::Continue)
        } else {
            let mut t = "loop iter ".to_owned();
            let a = dec_string(run.iter as u128);
            push_str(&mut t, a.as_str());
            push_str(&mut t, " took ");
            let b = dec_string(took as u128);
            push_str(&mut t, b.as_str());
            push_str(&mut t, "ms (> interval ");
            let c = dec_string(run.every);
            push_str(&mut t, c.as_str());
            push_str(&mut t, "ms)");
            self.phase = Phase::LoopCheck;
            quiet_out(one_ev(RunnerEvent::RunnerInfo(t)), Action::Continue)
        }
    }

    fn on_next(&mut self, r: &Report) -> (out: Output)
        ensures
            (final(self)@, out@) == on_next(old(self)@, r@),
    {
        let n = self.frames.len();
        if n == 0 {
            return self.end_scenario(no_ev(), None);
        }
        let idx = self.frames[n - 1].idx;
        let len = self.frames[n - 1].steps.len();
        let run = self.frames[n - 1].run;
        assert(frames_view(self.frames@).last() == self.frames@[n - 1].view());
        if idx < len {
            if r.stop {
                return self.fail(no_ev(), "stop requested".to_owned());
            }
            if r.error {
                return self.fail(no_ev(), "command error — scenario aborted".to_owned());
            }
            let s = self.frames[n - 1].steps[idx].duplicate();
            if n == 1 {
                let desc = describe_step(&s);
                self.progress.step = Some(StepProgress { desc, index: idx + 1, total: len });
                match s {
                    Step::Loop { .. } => {},
                    _ => {
                        self.progress.loop_info = None;
                    },
                }
            }
            self.begin_step(r, s)
        } else {
            match run {
                None => self.end_scenario(no_ev(), None),
                Some(run) => self.iteration_end(r, run),
            }
        }
    }

    fn on_loop_check(&mut self, r: &Report) -> (out: Output)
        ensures
            (final(self)@, out@) == on_loop_check(old(self)@, r@),
    {
        let n = self.frames.len();
        if n == 0 {
            return self.end_scenario(no_ev(), None);
        }
        assert(frames_view(self.frames@).last() == self.frames@[n - 1].view());
        match self.frames[n - 1].run {
            None => {
                self.phase = Phase::Next;
                quiet_out(no_ev(), Action::Continue)
            },
            Some(run) => {
                let took = elapsed_ms(run.started, r.now_ms);
                if (took as u128) < run.total && !(r.stop || r.exited || r.error) {
                    let run2 = LoopRun {
                        total: run.total,
                        every: run.every,
                        started: run.started,
                        iter_started: r.now_ms,
                        iter: run.iter.wrapping_add(1),
                    };
                    let ghost before = self.frames@;
                    let mut f = self.frames.pop().unwrap();
                    f.idx = 0;
                    f.run = Some(run2);
                    self.frames.push(f);
                    proof {
                        let fv = frames_view(before);
                        assert(frames_view(self.frames@) =~= fv.update(
                            fv.len() - 1,
                            FrameView { steps: fv.last().steps, idx: 0, run: Some(run2) },
                        ));
                    }
                    self.phase = Phase::Next;
                    match self.progress.loop_info {
                        Some(li) => {
                            self.progress.loop_info = Some(
                                LoopProgress {
                                    started_at_ms: li.started_at_ms,
                                    total: li.total,
                                    iter: run2.iter,
                                },
                            );
                        },
                        None => {},
                    }
                    quiet_out(no_ev(), Action::Continue)
                } else {
                    let ghost before = self.frames@;
                    let _ = self.frames.pop();
                    assert(frames_view(self.frames@) =~= frames_view(before).drop_last());
                    self.progress.loop_info = None;
                    let mut t = "loop (".to_owned();
                    let a = dec_string(run.iter as u128);
                    push_str(&mut t, a.as_str());
                    push_str(&mut t, " iters)");
                    self.finish_step(no_ev(), t.as_str())
                }
            },
        }
    }
}


fn poll_slice(left: u128) -> (ms: u64)
    ensures
        ms as nat == (if left < poll_ms() {
            left as nat
        } else {
            poll_ms()
        }),
{
    if left < 100 {
        left as u64
    } else {
        100
    }
}

impl Runner {
    fn on_starting(&mut self, r: &Report) -> (out: Output)
        ensures
            (final(self)@, out@) == on_starting(old(self)@, r@),
    {
        match &r.reply {
            Reply::Start(Ok(StartOutcome::Started)) => self.finish_step(
                one_ev(RunnerEvent::RunnerInfo("server started".to_owned())),
                "start",
            ),
            Reply::Start(Ok(StartOutcome::AlreadyRunning)) => self.finish_step(
                one_ev(RunnerEvent::RunnerInfo("server already running — reusing".to_owned())),
                "start",
            ),
            Reply::Start(Err(e)) => {
                let mut m = "start failed: ".to_owned();
                push_str(&mut m, e.as_str());
                self.fail(no_ev(), m)
            },
            _ => self.fail(no_ev(), "start failed: ".to_owned()),
        }
    }

    fn on_sending(&mut self, r: &Report) -> (out: Output)
        ensures
            (final(self)@, out@) == on_sending(old(self)@, r@),
    {
        match &r.reply {
            Reply::Sent(true) => self.finish_step(no_ev(), "send"),
            _ => self.fail(
                no_ev(),
                "server stdin unavailable (is it running? add `start` first)".to_owned(),
            ),
        }
    }

    fn grab_missed(&mut self, name: &String) -> (out: Output)
        ensures
            (final(self)@, out@) == grab_missed(old(self)@, name@),
    {
        let mut t = "grab ".to_owned();
        push_str(&mut t, name.as_str());
        push_str(&mut t, ": no match");
        self.finish_step(one_ev(RunnerEvent::RunnerInfo(t)), "grab")
    }

    fn wait_timeout(&mut self, timeout: Duration, raw: &str) -> (out: Output)
        ensures
            (final(self)@, out@) == fail(
                old(self)@,
                seq![],
                wait_timeout_message(timeout@, raw@),
            ),
    {
        let mut m = "wait timeout after ".to_owned();
        let a = dec_string(timeout.ms);
        push_str(&mut m, a.as_str());
        push_str(&mut m, "ms for ");
        let d = debug_str(raw);
        push_str(&mut m, d.as_str());
        self.fail(no_ev(), m)
    }

    fn outer_expired(&mut self, s: &Step) -> (out: Output)
        ensures
            (final(self)@, out@) == outer_expired(old(self)@, s.view_step()),
    {
        match s {
            Step::Wait { timeout, pattern } => self.wait_timeout(*timeout, pattern.raw()),
            Step::Grab { name, .. } => self.grab_missed(name),
            _ => {
                self.phase = Phase::Next;
                quiet_out(no_ev(), Action::Continue)
            },
        }
    }

    fn recv_none(&mut self, r: &Report, s: &Step) -> (out: Output)
        ensures
            (final(self)@, out@) == recv_none(old(self)@, r@, s.view_step()),
    {
        match s {
            Step::Wait { timeout, pattern } => {
                if r.stop || r.exited || r.error {
                    self.fail(no_ev(), "aborted".to_owned())
                } else {
                    self.wait_timeout(*timeout, pattern.raw())
                }
            },
            Step::Grab { name, .. } => self.grab_missed(name),
            _ => {
                self.phase = Phase::Next;
                quiet_out(no_ev(), Action::Continue)
            },
        }
    }

    fn recv_poll(&mut self, r: &Report, s: &Step, start: u64, recv_start: u64, budget: u128) -> (out: Output)
        ensures
            (final(self)@, out@) == recv_poll(old(self)@, r@, s.view_step(), start, recv_start, budget),
    {
        if r.stop || r.exited || r.error {
            return self.recv_none(r, s);
        }
        let took = elapsed_ms(recv_start, r.now_ms);
        if took as u128 > budget {
            return self.recv_none(r, s);
        }
        self.phase = Phase::Recv { start, recv_start, budget };
        let ms = poll_slice(budget - took as u128);
        quiet_out(no_ev(), Action::Receive { max_ms: ms })
    }

    fn on_outer(&mut self, r: &Report, start: u64) -> (out: Output)
        ensures
            (final(self)@, out@) == on_outer(old(self)@, r@, start),
    {
        match self.current_step() {
            Some(s) => {
                let limit: u128 = match &s {
                    Step::Wait { timeout, .. } => timeout.ms,
                    Step::Grab { .. } => 5000,
                    _ => {
                        self.phase = Phase::Next;
                        return quiet_out(no_ev(), Action::Continue);
                    },
                };
                let took = elapsed_ms(start, r.now_ms);
                if took as u128 >= limit {
                    self.outer_expired(&s)
                } else {
                    self.recv_poll(r, &s, start, r.now_ms, limit - took as u128)
                }
            },
            None => {
                self.phase = Phase::Next;
                quiet_out(no_ev(), Action::Continue)
            },
        }
    }

    fn on_recv(&mut self, r: &Report, start: u64, recv_start: u64, budget: u128) -> (out: Output)
        ensures
            (final(self)@, out@) == on_recv(old(self)@, r@, start, recv_start, budget),
    {
        let s = match self.current_step() {
            Some(s) => s,
            None => {
                self.phase = Phase::Next;
                return quiet_out(no_ev(), Action::Continue);
            },
        };
        match &s {
            Step::Wait { .. } => {},
            Step::Grab { .. } => {},
            _ => {
                self.phase = Phase::Next;
                return quiet_out(no_ev(), Action::Continue);
            },
        }
        match &r.reply {
            Reply::Line(l) => match &s {
                Step::Wait { pattern, .. } => {
                    if pattern.is_match(l.as_str()) {
                        self.finish_step(no_ev(), "wait")
                    } else {
                        self.phase = Phase::Outer { start };
                        quiet_out(no_ev(), Action::Continue)
                    }
                },
                Step::Grab { pattern, .. } => match pattern.first_group(l.as_str()) {
                    Some(t) => {
                        self.phase = Phase::Parsing { start };
                        quiet_out(no_ev(), Action::ParseNumber(t))
                    },
                    None => {
                        self.phase = Phase::Outer { start };
                        quiet_out(no_ev(), Action::Continue)
                    },
                },
                _ => {
                    self.phase = Phase::Next;
                    quiet_out(no_ev(), Action::Continue)
                },
            },
            Reply::Closed => self.recv_none(r, &s),
            _ => self.recv_poll(r, &s, start, recv_start, budget),
        }
    }

    fn on_parsing(&mut self, r: &Report, start: u64) -> (out: Output)
        ensures
            (final(self)@, out@) == on_parsing(old(self)@, r@, start),
    {
        match self.current_step() {
            Some(Step::Grab { name, .. }) => match &r.reply {
                Reply::Parsed(true) => {
                    let scenario = self.name_of_current();
                    self.samples = self.samples.wrapping_add(1);
                    let evs = one_ev(RunnerEvent::Sample { scenario, metric: name });
                    self.finish_step(evs, "grab")
                },
                _ => {
                    self.phase = Phase::Outer { start };
                    quiet_out(no_ev(), Action::Continue)
                },
            },
            _ => {
                self.phase = Phase::Next;
                quiet_out(no_ev(), Action::Continue)
            },
        }
    }

    fn sleep_done(&mut self, r: &Report, pacing: bool) -> (out: Output)
        ensures
            (final(self)@, out@) == sleep_done(old(self)@, r@, pacing),
    {
        if pacing {
            self.phase = Phase::LoopCheck;
            quiet_out(no_ev(), Action::Continue)
        } else if r.stop {
            self.fail(no_ev(), "stop requested".to_owned())
        } else {
            self.finish_step(no_ev(), "sleep")
        }
    }

    fn on_sleeping(&mut self, r: &Report, start: u64, len: u128, pacing: bool) -> (out: Output)
        ensures
            (final(self)@, out@) == on_sleeping(old(self)@, r@, start, len, pacing),
    {
        let took = elapsed_ms(start, r.now_ms);
        if (took as u128) < len && !(r.stop || r.exited || r.error) {
            let ms = poll_slice(len - took as u128);
            quiet_out(no_ev(), Action::Sleep { ms })
        } else {
            self.sleep_done(r, pacing)
        }
    }

    fn stop_final(&mut self, r: &Report) -> (out: Output)
        ensures
            (final(self)@, out@) == stop_final(old(self)@, r@),
    {
        if !r.exited {
            self.phase = Phase::Killing;
            quiet_out(no_ev(), Action::Kill)
        } else {
            self.finish_step(no_ev(), "stop")
        }
    }

    fn stop_check(&mut self, r: &Report, start: u64) -> (out: Output)
        ensures
            (final(self)@, out@) == stop_check(old(self)@, r@, start),
    {
        if !r.exited && elapsed_ms(start, r.now_ms) < 60000 {
            self.phase = Phase::StopSlept { start };
            quiet_out(no_ev(), Action::Sleep { ms: 100 })
        } else {
            self.stop_final(r)
        }
    }

    /// One transition: the outcome of the last action comes in, and the
    /// runner says what to report and what to do next.
    pub fn resume(&mut self, r: &Report) -> (out: Output)
        ensures
            (final(self)@, out@) == runner_step(old(self)@, r@),
    {
        match self.phase {
            Phase::Boundary => self.on_boundary(r),
            Phase::Next => self.on_next(r),
            Phase::LoopCheck => self.on_loop_check(r),
            Phase::Starting => self.on_starting(r),
            Phase::Sending => self.on_sending(r),
            Phase::Outer { start } => self.on_outer(r, start),
            Phase::Recv { start, recv_start, budget } => self.on_recv(r, start, recv_start, budget),
            Phase::Parsing { start } => self.on_parsing(r, start),
            Phase::Sleeping { start, len, pacing } => self.on_sleeping(r, start, len, pacing),
            Phase::StopSent => self.stop_check(r, r.now_ms),
            Phase::StopSlept { start } => {
                if r.stop {
                    self.stop_final(r)
                } else {
                    self.stop_check(r, start)
                }
            },
            Phase::Killing => {
                let o = self.finish_step(
                    one_ev(
                        RunnerEvent::RunnerInfo(
                            "server didn't exit within stop window — killed".to_owned(),
                        ),
                    ),
                    "stop",
                );
                Output {
                    events: o.events,
                    clear_exited: o.clear_exited,
                    set_exited: true,
                    clear_error: o.clear_error,
                    action: o.action,
                }
            },
            Phase::Finished => quiet_out(no_ev(), Action::Finished),
        }
    }
}


// ---------------------------------------------------------------------------
// Laws of the runner.

/// A finished run stays finished: nothing more is reported or done.
pub proof fn law_finished_is_final(v: RunnerView, r: ReportView)
    requires
        v.phase == Phase::Finished,
    ensures
        runner_step(v, r) == (v, quiet(seq![], ActionView::Finished)),
{
}

/// Between scenarios, a stop request ends the run: no further scenario
/// starts and the progress panel goes back to idle.
pub proof fn law_stop_request_ends_run(v: RunnerView, r: ReportView)
    requires
        v.phase == Phase::Boundary,
        r.stop,
    ensures
        runner_step(v, r).0.phase == Phase::Finished,
        runner_step(v, r).0.progress == idle_progress(),
        runner_step(v, r).1.events.len() == 0,
        runner_step(v, r).1.action == ActionView::Finished,
{
}

/// A stop request or a command error aborts the scenario before its next
/// step: the abort is reported with its reason and the scenario is
/// reported done with the samples it took. The run then goes on to the
/// next scenario boundary.
pub proof fn law_abort_before_step(v: RunnerView, r: ReportView)
    requires
        v.phase == Phase::Next,
        cur_step(v) is Some,
        r.stop || r.error,
    ensures
        runner_step(v, r).0.phase == Phase::Boundary,
        runner_step(v, r).0.frames.len() == 0,
        runner_step(v, r).1.events == seq![
            RunnerEventView::RunnerError(
                "scenario "@ + cur_name(v) + " aborted: "@ + (if r.stop {
                    "stop requested"@
                } else {
                    "command error — scenario aborted"@
                }),
            ),
            RunnerEventView::ScenarioDone { name: cur_name(v), samples: v.samples },
        ],
{
}

/// Each scenario starts with the command-error flag cleared and no samples,
/// so that one scenario's error does not abort the next.
pub proof fn law_scenario_starts_clean(v: RunnerView, r: ReportView)
    requires
        v.phase == Phase::Boundary,
        v.next < v.scenarios.len(),
        !r.stop,
    ensures
        runner_step(v, r).1.clear_error,
        runner_step(v, r).0.samples == 0,
        runner_step(v, r).0.phase == Phase::Next,
        runner_step(v, r).1.events == seq![
            RunnerEventView::ScenarioStart(v.scenarios[v.next as int].name),
        ],
        runner_step(v, r).0.progress.scenario == Some(
            (v.scenarios[v.next as int].name, v.next + 1, v.scenarios.len()),
        ),
{
}

/// A `wait` is done with the first line that matches its pattern.
pub proof fn law_wait_done_on_match(
    v: RunnerView,
    r: ReportView,
    start: u64,
    recv_start: u64,
    budget: u128,
    timeout: nat,
    pattern: crate::pattern::PatternView,
    line: Seq<char>,
)
    requires
        v.phase == (Phase::Recv { start, recv_start, budget }),
        cur_step(v) == Some(StepView::Wait { timeout, pattern }),
        r.reply == ReplyView::Line(line),
        regex_matches(pattern.source, line),
    ensures
        runner_step(v, r) == step_done(v, seq![], "wait"@),
        runner_step(v, r).0.phase == Phase::Next,
        runner_step(v, r).0.frames.last().idx == v.frames.last().idx + 1,
{
}

/// A `grab` whose number parses takes exactly one sample, under its metric
/// name and the current scenario.
pub proof fn law_grab_takes_one_sample(v: RunnerView, r: ReportView, start: u64, name: Seq<char>, pattern: crate::pattern::PatternView)
    requires
        v.phase == (Phase::Parsing { start }),
        cur_step(v) == Some(StepView::Grab { name, pattern }),
        r.reply == ReplyView::Parsed(true),
        v.samples < usize::MAX,
    ensures
        runner_step(v, r).0.samples == v.samples + 1,
        runner_step(v, r).1.events == seq![
            RunnerEventView::Sample { scenario: cur_name(v), metric: name },
            RunnerEventView::StepDone("grab"@),
        ],
{
}

/// `stop` kills the server only if it has not exited by the end of the
/// stop window (or of the wait cut short by a stop request).
pub proof fn law_stop_kills_only_a_running_server(v: RunnerView, r: ReportView, start: u64)
    requires
        v.phase == (Phase::StopSlept { start }),
    ensures
        r.exited ==> runner_step(v, r).1.action != ActionView::Kill,
        !r.exited && (r.stop || elapsed(start, r.now) >= stop_wait_ms())
            ==> runner_step(v, r).1.action == ActionView::Kill,
        !r.exited && !r.stop && elapsed(start, r.now) < stop_wait_ms()
            ==> runner_step(v, r).1.action == (ActionView::Sleep { ms: poll_ms() }),
{
}

/// No single wait of the runner is longer than `poll_ms`, so that stop
/// requests, exits and command errors are seen promptly.
pub proof fn law_waits_are_short(v: RunnerView, r: ReportView)
    ensures
        runner_step(v, r).1.action matches ActionView::Receive { max_ms } ==> max_ms <= poll_ms(),
        runner_step(v, r).1.action matches ActionView::Sleep { ms } ==> ms <= poll_ms(),
{
}

/// A `wait` or `grab` never listens past its time limit: each receive ends
/// within the time left when it was asked for.
pub proof fn law_receive_within_budget(v: RunnerView, r: ReportView, start: u64, recv_start: u64, budget: u128)
    requires
        v.phase == (Phase::Recv { start, recv_start, budget }),
        !(r.reply is Line),
        !(r.reply is Closed),
    ensures
        runner_step(v, r).1.action matches ActionView::Receive { max_ms }
            ==> elapsed(recv_start, r.now) + max_ms <= budget,
{
}

/// A sleep never runs past its end.
pub proof fn law_sleep_within_length(v: RunnerView, r: ReportView, start: u64, len: u128, pacing: bool)
    requires
        v.phase == (Phase::Sleeping { start, len, pacing }),
    ensures
        runner_step(v, r).1.action matches ActionView::Sleep { ms } ==> elapsed(start, r.now) + ms
            <= len,
{
}

/// A sleep ends as soon as the run is aborted: a `sleep` step that the
/// server's exit or a command error interrupts is reported done, one that a
/// stop request interrupts fails the scenario, and a loop's pause goes back
/// to the loop, which then ends.
pub proof fn law_abort_ends_sleep(v: RunnerView, r: ReportView, start: u64, len: u128, pacing: bool)
    requires
        v.phase == (Phase::Sleeping { start, len, pacing }),
        aborted(r),
    ensures
        !(runner_step(v, r).1.action is Sleep),
        pacing ==> runner_step(v, r) == (at_phase(v, Phase::LoopCheck), quiet(
            seq![],
            ActionView::Continue,
        )),
        !pacing && r.stop ==> runner_step(v, r) == fail(v, seq![], "stop requested"@),
        !pacing && !r.stop ==> runner_step(v, r) == step_done(v, seq![], "sleep"@),
{
}

/// Once the run is aborted (a stop request, the server's exit or a command
/// error), no transition listens for server output, and the only pause
/// left is a `stop` step's wait for the server to exit, one poll at a
/// time.
pub proof fn law_abort_ends_waiting(v: RunnerView, r: ReportView)
    requires
        aborted(r),
    ensures
        !(runner_step(v, r).1.action is Receive),
        runner_step(v, r).1.action is Sleep ==> (v.phase is StopSent || v.phase is StopSlept)
            && runner_step(v, r).1.action == (ActionView::Sleep { ms: poll_ms() }),
{
}

/// A `start` step clears the server's exit flag before it starts the
/// server, so that an earlier exit no longer aborts the steps after it.
pub proof fn law_start_clears_exit(v: RunnerView, r: ReportView)
    requires
        v.phase == Phase::Next,
        cur_step(v) == Some(StepView::Start),
        !r.stop,
        !r.error,
    ensures
        runner_step(v, r).1.clear_exited,
        runner_step(v, r).1.action == ActionView::StartServer,
        runner_step(v, r).0.phase == Phase::Starting,
{
}

/// The scenario list never changes, and the runner only moves forward in
/// it.
pub proof fn law_scenarios_kept(v: RunnerView, r: ReportView)
    requires
        v.next <= v.scenarios.len(),
    ensures
        runner_step(v, r).0.scenarios == v.scenarios,
        v.next <= runner_step(v, r).0.next <= v.scenarios.len(),
{
}


/// After the last scenario the run is over and the progress panel idle.
pub proof fn law_run_ends_after_last_scenario(v: RunnerView, r: ReportView)
    requires
        v.phase == Phase::Boundary,
        v.next >= v.scenarios.len(),
    ensures
        runner_step(v, r).0.phase == Phase::Finished,
        runner_step(v, r).0.progress == idle_progress(),
        runner_step(v, r).1.events.len() == 0,
        runner_step(v, r).1.action == ActionView::Finished,
{
}

/// A `wait` stops listening as soon as the run is aborted, and fails with
/// `aborted`.
pub proof fn law_aborted_wait_fails(
    v: RunnerView,
    r: ReportView,
    start: u64,
    recv_start: u64,
    budget: u128,
    timeout: nat,
    pattern: crate::pattern::PatternView,
)
    requires
        v.phase == (Phase::Recv { start, recv_start, budget }),
        cur_step(v) == Some(StepView::Wait { timeout, pattern }),
        r.reply == ReplyView::NoLine,
        aborted(r),
    ensures
        runner_step(v, r) == fail(v, seq![], "aborted"@),
        runner_step(v, r).0.phase == Phase::Boundary,
{
}

/// A loop whose time is up ends: its body is left, the loop's progress is
/// cleared and the step is reported done with its iteration count.
pub proof fn law_loop_ends_when_time_is_up(v: RunnerView, r: ReportView, run: LoopRun)
    requires
        v.phase == Phase::LoopCheck,
        v.frames.len() > 1,
        v.frames.last().run == Some(run),
        elapsed(run.started, r.now) >= run.total,
    ensures
        runner_step(v, r).0.frames.len() == v.frames.len() - 1,
        runner_step(v, r).0.progress.loop_info is None,
        runner_step(v, r).1.events == seq![
            RunnerEventView::StepDone("loop ("@ + dec(run.iter as nat) + " iters)"@),
        ],
{
}


// ---------------------------------------------------------------------------
// Well-formedness.

/// The step lists being run are nested as the steps are: the outermost is
/// the scenario's (no loop state), each inner one is the body of the loop
/// step that the list around it is at, and every index is in range.
pub open spec fn frames_linked(fs: Seq<FrameView>) -> bool {
    &&& fs.len() > 0 ==> fs[0].run is None
    &&& forall|i: int| 0 <= i < fs.len() ==> (#[trigger] fs[i]).idx <= fs[i].steps.len()
    &&& forall|i: int|
        0 < i < fs.len() ==> {
            &&& (#[trigger] fs[i]).run is Some
            &&& fs[i - 1].idx < fs[i - 1].steps.len()
            &&& fs[i - 1].steps[fs[i - 1].idx as int] is Loop
            &&& fs[i - 1].steps[fs[i - 1].idx as int]->Loop_body == fs[i].steps
        }
}

/// The phase is one that the current step (or loop) can be in.
pub open spec fn phase_fits(v: RunnerView) -> bool {
    match v.phase {
        Phase::Starting => cur_step(v) matches Some(StepView::Start),
        Phase::Sending => cur_step(v) matches Some(StepView::Send(_)),
        Phase::Outer { .. } => cur_step(v) matches Some(s) && (s is Wait || s is Grab),
        Phase::Recv { .. } => cur_step(v) matches Some(s) && (s is Wait || s is Grab),
        Phase::Parsing { .. } => cur_step(v) matches Some(StepView::Grab { .. }),
        Phase::Sleeping { pacing, .. } => if pacing {
            v.frames.len() > 1 && v.frames.last().idx == v.frames.last().steps.len()
        } else {
            cur_step(v) matches Some(StepView::Sleep(_))
        },
        Phase::LoopCheck => v.frames.len() > 1,
        Phase::StopSent => cur_step(v) matches Some(StepView::Stop),
        Phase::StopSlept { .. } => cur_step(v) matches Some(StepView::Stop),
        Phase::Killing => cur_step(v) matches Some(StepView::Stop),
        _ => true,
    }
}

/// The progress panel agrees with the run: while a scenario runs it shows
/// that scenario, a scenario's position lies within the run and a step's
/// within its scenario's top-level steps, and a finished run shows nothing.
#[verifier::opaque]
pub open spec fn progress_fits(v: RunnerView) -> bool {
    &&& v.phase is Finished ==> v.progress == idle_progress()
    &&& v.frames.len() > 0 ==> v.progress.scenario == Some(
        (v.scenarios[v.next as int].name, v.next + 1, v.scenarios.len()),
    )
    &&& v.progress.scenario matches Some((n, i, t)) ==> {
        &&& 1 <= i <= t
        &&& t == v.scenarios.len()
        &&& n == v.scenarios[i - 1].name
    }
    &&& v.progress.step matches Some((d, j, u)) ==> {
        &&& 1 <= j <= u
        &&& v.progress.scenario matches Some((n, i, t)) && u == v.scenarios[i - 1].steps.len()
    }
}

/// The step lists agree with the run: between scenarios (or finished) no
/// step list is open; otherwise the outermost list is the current
/// scenario's steps, the lists are nested as the loops are, and the phase
/// fits the step being run.
pub open spec fn steps_fit(v: RunnerView) -> bool {
    &&& v.next <= v.scenarios.len()
    &&& frames_linked(v.frames)
    &&& ((v.phase is Boundary || v.phase is Finished) <==> v.frames.len() == 0)
    &&& v.frames.len() > 0 ==> v.next < v.scenarios.len() && v.frames[0].steps
        == v.scenarios[v.next as int].steps
    &&& phase_fits(v)
}

/// A runner that `new` and `resume` can produce: its step lists and its
/// progress panel agree with the run.
pub open spec fn runner_wf(v: RunnerView) -> bool {
    &&& steps_fit(v)
    &&& progress_fits(v)
}

proof fn lemma_advanced_linked(v: RunnerView)
    requires
        frames_linked(v.frames),
        cur_step(v) is Some,
    ensures
        frames_linked(advanced(v).frames),
        advanced(v).frames.len() == v.frames.len(),
        v.frames.len() > 0 ==> advanced(v).frames[0].steps == v.frames[0].steps,
        advanced(v).phase == Phase::Next,
        advanced(v).next == v.next,
        advanced(v).scenarios == v.scenarios,
{
    let fs = v.frames;
    let n = fs.len() - 1;
    let g = advanced(v).frames;
    assert forall|i: int| 0 <= i < g.len() implies (#[trigger] g[i]).idx <= g[i].steps.len() by {
        if i < n {
            assert(g[i] == fs[i]);
        }
    }
    assert forall|i: int| 0 < i < g.len() implies {
        &&& (#[trigger] g[i]).run is Some
        &&& g[i - 1].idx < g[i - 1].steps.len()
        &&& g[i - 1].steps[g[i - 1].idx as int] is Loop
        &&& g[i - 1].steps[g[i - 1].idx as int]->Loop_body == g[i].steps
    } by {
        assert(fs[i].run is Some);
        assert(g[i - 1] == fs[i - 1]);
    }
}

proof fn lemma_begin_step_wf(v: RunnerView, r: ReportView)
    requires
        steps_fit(v),
        v.phase == Phase::Next,
        cur_step(v) is Some,
    ensures
        steps_fit(begin_step(v, r, cur_step(v)->0).0),
{
    let s = cur_step(v)->0;
    let fs = v.frames;
    if let StepView::Loop { total, every, body } = s {
        let run = LoopRun {
            total: total as u128,
            every: every as u128,
            started: r.now as u64,
            iter_started: r.now as u64,
            iter: 0,
        };
        let g = fs.push(FrameView { steps: body, idx: 0, run: Some(run) });
        assert(begin_step(v, r, s).0.frames == g);
        assert forall|i: int| 0 <= i < g.len() implies (#[trigger] g[i]).idx <= g[i].steps.len() by {
            if i < fs.len() {
                assert(g[i] == fs[i]);
            }
        }
        assert forall|i: int| 0 < i < g.len() implies {
            &&& (#[trigger] g[i]).run is Some
            &&& g[i - 1].idx < g[i - 1].steps.len()
            &&& g[i - 1].steps[g[i - 1].idx as int] is Loop
            &&& g[i - 1].steps[g[i - 1].idx as int]->Loop_body == g[i].steps
        } by {
            assert(g[i - 1] == fs[i - 1]);
            if i < fs.len() {
                assert(g[i] == fs[i]);
                assert(fs[i].run is Some);
            }
        }
        assert(g[0] == fs[0]);
    }
}

proof fn lemma_on_next_wf(v: RunnerView, r: ReportView)
    requires
        steps_fit(v),
        v.phase == Phase::Next,
    ensures
        steps_fit(on_next(v, r).0),
{
    let f = v.frames.last();
    if f.idx < f.steps.len() {
        if !r.stop && !r.error {
            let s = f.steps[f.idx as int];
            let v1 = if v.frames.len() == 1 {
                RunnerView { progress: progress_at_step(v.progress, s, f.idx, f.steps.len()), ..v }
            } else {
                v
            };
            assert(cur_step(v1) == Some(s));
            lemma_begin_step_wf(v1, r);
        }
    } else {
        if f.run is Some {
            assert(v.frames.len() > 1);
        }
    }
}

proof fn lemma_on_loop_check_wf(v: RunnerView, r: ReportView)
    requires
        steps_fit(v),
        v.phase == Phase::LoopCheck,
    ensures
        steps_fit(on_loop_check(v, r).0),
{
    let fs = v.frames;
    let n = fs.len() - 1;
    let f = fs.last();
    assert(fs[n].run is Some);
    let run = f.run->0;
    if elapsed(run.started, r.now) < run.total && !aborted(r) {
        let run2 = LoopRun { iter_started: r.now as u64, iter: bump(run.iter), ..run };
        let g = fs.update(n, FrameView { steps: f.steps, idx: 0, run: Some(run2) });
        assert(on_loop_check(v, r).0.frames == g);
        assert forall|i: int| 0 <= i < g.len() implies (#[trigger] g[i]).idx <= g[i].steps.len() by {
            if i < n {
                assert(g[i] == fs[i]);
            }
        }
        assert forall|i: int| 0 < i < g.len() implies {
            &&& (#[trigger] g[i]).run is Some
            &&& g[i - 1].idx < g[i - 1].steps.len()
            &&& g[i - 1].steps[g[i - 1].idx as int] is Loop
            &&& g[i - 1].steps[g[i - 1].idx as int]->Loop_body == g[i].steps
        } by {
            assert(g[i - 1] == fs[i - 1]);
            assert(fs[i].run is Some);
        }
        assert(g[0] == fs[0]);
    } else {
        let v2 = RunnerView {
            frames: fs.drop_last(),
            progress: ProgressView { loop_info: None, ..v.progress },
            ..v
        };
        let h = fs.drop_last();
        assert forall|i: int| 0 <= i < h.len() implies (#[trigger] h[i]).idx <= h[i].steps.len() by {
            assert(h[i] == fs[i]);
        }
        assert forall|i: int| 0 < i < h.len() implies {
            &&& (#[trigger] h[i]).run is Some
            &&& h[i - 1].idx < h[i - 1].steps.len()
            &&& h[i - 1].steps[h[i - 1].idx as int] is Loop
            &&& h[i - 1].steps[h[i - 1].idx as int]->Loop_body == h[i].steps
        } by {
            assert(h[i] == fs[i] && h[i - 1] == fs[i - 1]);
            assert(fs[i].run is Some);
        }
        assert(h[0] == fs[0]);
        assert(fs[n].run is Some);
        assert(fs[n - 1].idx < fs[n - 1].steps.len());
        assert(cur_step(v2) is Some);
        assert(steps_fit(at_phase(v2, Phase::Next))) by {
            assert(at_phase(v2, Phase::Next).frames == h);
        }
        lemma_advanced_linked(v2);
    }
}

proof fn lemma_recv_wf(v: RunnerView, r: ReportView, s: StepView, start: u64, recv_start: u64, budget: u128)
    requires
        steps_fit(v),
        cur_step(v) == Some(s),
        s is Wait || s is Grab,
    ensures
        steps_fit(recv_poll(v, r, s, start, recv_start, budget).0),
        steps_fit(recv_none(v, r, s).0),
        steps_fit(outer_expired(v, s).0),
{
    lemma_advanced_linked(v);
}

proof fn lemma_boundary_wf(v: RunnerView, r: ReportView)
    requires
        steps_fit(v),
        v.phase == Phase::Boundary,
    ensures
        steps_fit(on_boundary(v, r).0),
{
}

proof fn lemma_outer_wf(v: RunnerView, r: ReportView, start: u64)
    requires
        steps_fit(v),
        v.phase == (Phase::Outer { start }),
    ensures
        steps_fit(on_outer(v, r, start).0),
{
    let s = cur_step(v)->0;
    let took = elapsed(start, r.now);
    lemma_recv_wf(v, r, s, start, r.now as u64, (recv_limit(s) - took) as u128);
}

proof fn lemma_recv_phase_wf(v: RunnerView, r: ReportView, start: u64, recv_start: u64, budget: u128)
    requires
        steps_fit(v),
        v.phase == (Phase::Recv { start, recv_start, budget }),
    ensures
        steps_fit(on_recv(v, r, start, recv_start, budget).0),
{
    let s = cur_step(v)->0;
    match r.reply {
        ReplyView::Line(l) => {
            match s {
                StepView::Wait { pattern, .. } => {
                    if regex_matches(pattern.source, l) {
                        lemma_advanced_linked(v);
                        assert(on_recv(v, r, start, recv_start, budget) == step_done(v, seq![], "wait"@));
                    } else {
                        assert(on_recv(v, r, start, recv_start, budget).0 == at_phase(v, Phase::Outer { start }));
                    }
                },
                StepView::Grab { pattern, .. } => {
                    assert(on_recv(v, r, start, recv_start, budget).0.frames == v.frames);
                },
                _ => {},
            }
        },
        ReplyView::Closed => {
            lemma_recv_wf(v, r, s, start, recv_start, budget);
            assert(on_recv(v, r, start, recv_start, budget) == recv_none(v, r, s));
        },
        _ => {
            lemma_recv_wf(v, r, s, start, recv_start, budget);
            assert(on_recv(v, r, start, recv_start, budget) == recv_poll(v, r, s, start, recv_start, budget));
        },
    }
}

proof fn lemma_parsing_wf(v: RunnerView, r: ReportView, start: u64)
    requires
        steps_fit(v),
        v.phase == (Phase::Parsing { start }),
    ensures
        steps_fit(on_parsing(v, r, start).0),
{
    lemma_advanced_linked(
        RunnerView { samples: if v.samples >= usize::MAX { 0 } else { v.samples + 1 }, ..v },
    );
}

proof fn lemma_sleeping_wf(v: RunnerView, r: ReportView, start: u64, len: u128, pacing: bool)
    requires
        steps_fit(v),
        v.phase == (Phase::Sleeping { start, len, pacing }),
    ensures
        steps_fit(on_sleeping(v, r, start, len, pacing).0),
{
    if !pacing {
        lemma_advanced_linked(v);
    }
}

proof fn lemma_stop_wf(v: RunnerView, r: ReportView, start: u64)
    requires
        steps_fit(v),
        v.phase is StopSent || v.phase is StopSlept,
    ensures
        steps_fit(stop_check(v, r, start).0),
        steps_fit(stop_final(v, r).0),
{
    lemma_advanced_linked(v);
}

proof fn lemma_simple_wf(v: RunnerView, r: ReportView)
    requires
        steps_fit(v),
        v.phase is Starting || v.phase is Sending || v.phase is Killing,
    ensures
        steps_fit(on_starting(v, r).0),
        steps_fit(on_sending(v, r).0),
        steps_fit(step_done(v, seq![], "stop"@).0),
        steps_fit(step_done(v, seq![RunnerEventView::RunnerInfo("server didn't exit within stop window — killed"@)], "stop"@).0),
{
    lemma_advanced_linked(v);
}

proof fn lemma_progress_kept(v: RunnerView, w: RunnerView)
    requires
        progress_fits(v),
        w.progress.scenario == v.progress.scenario,
        w.progress.step == v.progress.step,
        w.scenarios == v.scenarios,
        w.frames.len() > 0 ==> v.frames.len() > 0 && w.next == v.next,
        !(w.phase is Finished),
    ensures
        progress_fits(w),
{
    reveal(progress_fits);
}

proof fn lemma_progress_next(v: RunnerView, r: ReportView)
    requires
        runner_wf(v),
        v.phase == Phase::Next,
    ensures
        progress_fits(on_next(v, r).0),
{
    let w = on_next(v, r).0;
    if v.frames.len() > 0 {
        let f = v.frames.last();
        if f.idx < f.steps.len() && !r.stop && !r.error && v.frames.len() == 1 {
            reveal(progress_fits);
            assert(f == v.frames[0]);
        } else {
            lemma_progress_kept(v, w);
        }
    } else {
        lemma_progress_kept(v, w);
    }
}

proof fn lemma_progress_step(v: RunnerView, r: ReportView)
    requires
        runner_wf(v),
    ensures
        progress_fits(runner_step(v, r).0),
{
    let w = runner_step(v, r).0;
    match v.phase {
        Phase::Boundary => {
            reveal(progress_fits);
        },
        Phase::Next => lemma_progress_next(v, r),
        Phase::Finished => {},
        _ => lemma_progress_kept(v, w),
    }
}

/// Every transition keeps the runner well-formed, so the phases that wait
/// for a step's outcome always find that step current.
pub proof fn law_resume_keeps_wf(v: RunnerView, r: ReportView)
    requires
        runner_wf(v),
    ensures
        runner_wf(runner_step(v, r).0),
{
    match v.phase {
        Phase::Boundary => lemma_boundary_wf(v, r),
        Phase::Next => lemma_on_next_wf(v, r),
        Phase::LoopCheck => lemma_on_loop_check_wf(v, r),
        Phase::Starting => lemma_simple_wf(v, r),
        Phase::Sending => lemma_simple_wf(v, r),
        Phase::Outer { start } => lemma_outer_wf(v, r, start),
        Phase::Recv { start, recv_start, budget } => lemma_recv_phase_wf(v, r, start, recv_start, budget),
        Phase::Parsing { start } => lemma_parsing_wf(v, r, start),
        Phase::Sleeping { start, len, pacing } => lemma_sleeping_wf(v, r, start, len, pacing),
        Phase::StopSent => lemma_stop_wf(v, r, r.now as u64),
        Phase::StopSlept { start } => lemma_stop_wf(v, r, start),
        Phase::Killing => lemma_simple_wf(v, r),
        Phase::Finished => {},
    }
    lemma_progress_step(v, r);
}

/// In every state that `new` and `resume` produce, the progress panel's
/// scenario position lies within the run and names that scenario, its step
/// position lies within that scenario's top-level steps, and a finished run
/// shows nothing.
pub proof fn law_progress_in_range(v: RunnerView)
    requires
        runner_wf(v),
    ensures
        v.progress.scenario matches Some((n, i, t)) ==> 1 <= i <= t && t == v.scenarios.len() && n
            == v.scenarios[i - 1].name,
        v.progress.step matches Some((d, j, u)) ==> 1 <= j <= u && (v.progress.scenario matches Some(
            (n, i, t),
        ) && u == v.scenarios[i - 1].steps.len()),
        v.phase is Finished ==> v.progress == idle_progress(),
        v.frames.len() > 0 ==> v.progress.scenario == Some(
            (v.scenarios[v.next as int].name, v.next + 1, v.scenarios.len()),
        ),
{
    reveal(progress_fits);
}

/// A new runner is well-formed.
pub proof fn law_new_runner_wf(scenarios: Seq<ScenarioView>)
    ensures
        runner_wf(
            RunnerView {
                scenarios,
                next: 0,
                samples: 0,
                frames: seq![],
                phase: Phase::Boundary,
                progress: idle_progress(),
            },
        ),
{
    reveal(progress_fits);
}


/// A loop iteration that took less than the interval is followed by a
/// pause for the rest of it, after which the loop is checked again.
pub proof fn law_loop_paces_iterations(v: RunnerView, r: ReportView, run: LoopRun)
    requires
        v.phase == Phase::Next,
        v.frames.len() > 0,
        v.frames.last().idx >= v.frames.last().steps.len(),
        v.frames.last().run == Some(run),
        elapsed(run.iter_started, r.now) < run.every,
    ensures
        runner_step(v, r).0.phase == (Phase::Sleeping {
            start: r.now as u64,
            len: (run.every - elapsed(run.iter_started, r.now)) as u128,
            pacing: true,
        }),
        runner_step(v, r).1.events.len() == 0,
        forall|r2: ReportView|
            elapsed(r.now as u64, r2.now) >= run.every - elapsed(run.iter_started, r.now)
                ==> runner_step(runner_step(v, r).0, r2).0.phase == Phase::LoopCheck,
{
}

/// A `stop` step first writes `stop` to the server console.
pub proof fn law_stop_step_sends_stop(v: RunnerView, r: ReportView)
    requires
        v.phase == Phase::Next,
        cur_step(v) == Some(StepView::Stop),
        !r.stop,
        !r.error,
    ensures
        runner_step(v, r).0.phase == Phase::StopSent,
        runner_step(v, r).1.action == ActionView::Send("stop"@),
        runner_step(v, r).1.events == seq![RunnerEventView::StepStart("stop"@)],
{
}

} // verus!
