//! Laws over whole runs: what the runner reports and where it ends up after
//! any number of transitions, whatever the outside world answers.
use vstd::prelude::*;
use crate::runner::{
    cur_name, cur_step, law_resume_keeps_wf, runner_step, runner_wf, FrameView, Phase, ReportView,
    RunnerEventView, RunnerView, ScenarioView,
};

verus! {

/// The runner after it took the reports `rs` in turn, starting from `v`.
pub open spec fn run_from(v: RunnerView, rs: Seq<ReportView>) -> RunnerView
    decreases rs.len(),
{
    if rs.len() == 0 {
        v
    } else {
        run_from(runner_step(v, rs[0]).0, rs.drop_first())
    }
}

/// Everything the runner reported along the way, in order.
pub open spec fn events_from(v: RunnerView, rs: Seq<ReportView>) -> Seq<RunnerEventView>
    decreases rs.len(),
{
    if rs.len() == 0 {
        seq![]
    } else {
        runner_step(v, rs[0]).1.events + events_from(runner_step(v, rs[0]).0, rs.drop_first())
    }
}

/// An event that announces a scenario or a step beginning.
pub open spec fn is_start(e: RunnerEventView) -> bool {
    e is ScenarioStart || e is StepStart
}

proof fn lemma_step_starts_nothing(v: RunnerView, r: ReportView)
    requires
        r.stop,
    ensures
        forall|j: int|
            0 <= j < runner_step(v, r).1.events.len() ==> !is_start(
                #[trigger] runner_step(v, r).1.events[j],
            ),
{
}

/// Once a stop is requested, nothing more begins: no scenario and no step
/// starts in any run of the runner, whatever else happens.
pub proof fn law_nothing_starts_after_stop(v: RunnerView, rs: Seq<ReportView>)
    requires
        forall|i: int| 0 <= i < rs.len() ==> (#[trigger] rs[i]).stop,
    ensures
        forall|j: int|
            0 <= j < events_from(v, rs).len() ==> !is_start(#[trigger] events_from(v, rs)[j]),
    decreases rs.len(),
{
    if rs.len() > 0 {
        let (w, o) = runner_step(v, rs[0]);
        let rest = rs.drop_first();
        assert(rs[0].stop);
        lemma_step_starts_nothing(v, rs[0]);
        assert forall|i: int| 0 <= i < rest.len() implies (#[trigger] rest[i]).stop by {
            assert(rest[i] == rs[i + 1]);
        }
        law_nothing_starts_after_stop(w, rest);
        let all = events_from(v, rs);
        assert(all == o.events + events_from(w, rest));
        assert forall|j: int| 0 <= j < all.len() implies !is_start(#[trigger] all[j]) by {
            if j < o.events.len() {
                assert(all[j] == o.events[j]);
            } else {
                assert(all[j] == events_from(w, rest)[j - o.events.len()]);
            }
        }
    }
}

/// An upper bound on the transitions that a run asked to stop still takes:
/// each one brings it closer to the end.
pub open spec fn stop_rank(v: RunnerView) -> nat {
    let n = v.frames.len();
    match v.phase {
        Phase::Finished => 0,
        Phase::Boundary => 1,
        Phase::LoopCheck => 8 * n + 2,
        Phase::Sleeping { pacing, .. } => if pacing {
            8 * n + 3
        } else {
            8 * n + 5
        },
        Phase::Next => 8 * n + 4,
        Phase::Starting => 8 * n + 5,
        Phase::Sending => 8 * n + 5,
        Phase::Outer { .. } => 8 * n + 5,
        Phase::Killing => 8 * n + 5,
        Phase::Parsing { .. } => 8 * n + 6,
        Phase::StopSlept { .. } => 8 * n + 6,
        Phase::Recv { .. } => 8 * n + 7,
        Phase::StopSent => 8 * n + 7,
    }
}

proof fn lemma_stop_rank_falls(v: RunnerView, r: ReportView)
    requires
        runner_wf(v),
        r.stop,
        !(v.phase is Finished),
    ensures
        stop_rank(runner_step(v, r).0) < stop_rank(v),
{
    if v.phase is LoopCheck {
        assert(v.frames.last() == v.frames[v.frames.len() - 1]);
    }
}

/// A stop request ends the run: while it stands, the runner reaches its end
/// within `stop_rank` transitions, whatever the server does, and stays
/// there.
pub proof fn law_stop_finishes_run(v: RunnerView, rs: Seq<ReportView>)
    requires
        runner_wf(v),
        forall|i: int| 0 <= i < rs.len() ==> (#[trigger] rs[i]).stop,
        rs.len() >= stop_rank(v),
    ensures
        run_from(v, rs).phase == Phase::Finished,
    decreases rs.len(),
{
    if rs.len() > 0 {
        let w = runner_step(v, rs[0]).0;
        let rest = rs.drop_first();
        assert(rs[0].stop);
        assert forall|i: int| 0 <= i < rest.len() implies (#[trigger] rest[i]).stop by {
            assert(rest[i] == rs[i + 1]);
        }
        law_resume_keeps_wf(v, rs[0]);
        if !(v.phase is Finished) {
            lemma_stop_rank_falls(v, rs[0]);
        }
        law_stop_finishes_run(w, rest);
    }
}

/// The runner's sample count after event `e`, from `k`: a scenario start
/// resets it, a sample adds one (in a machine word, as the runner counts),
/// anything else leaves it.
pub open spec fn tally_next(e: RunnerEventView, k: nat) -> nat {
    match e {
        RunnerEventView::ScenarioStart(_) => 0,
        RunnerEventView::Sample { .. } => if k >= usize::MAX {
            0
        } else {
            k + 1
        },
        _ => k,
    }
}

/// The sample count after the events `evs`, from `k`.
pub open spec fn tally(evs: Seq<RunnerEventView>, k: nat) -> nat
    decreases evs.len(),
{
    if evs.len() == 0 {
        k
    } else {
        tally(evs.drop_first(), tally_next(evs[0], k))
    }
}

/// Each `ScenarioDone` in `evs` reports as its samples the count of the
/// `Sample` events since the last `ScenarioStart` (from `k` before `evs`).
pub open spec fn done_counts_samples(evs: Seq<RunnerEventView>, k: nat) -> bool
    decreases evs.len(),
{
    if evs.len() == 0 {
        true
    } else {
        &&& (evs[0] matches RunnerEventView::ScenarioDone { samples, .. } ==> samples == k)
        &&& done_counts_samples(evs.drop_first(), tally_next(evs[0], k))
    }
}

proof fn lemma_tally_append(a: Seq<RunnerEventView>, b: Seq<RunnerEventView>, k: nat)
    ensures
        tally(a + b, k) == tally(b, tally(a, k)),
        done_counts_samples(a + b, k) == (done_counts_samples(a, k) && done_counts_samples(
            b,
            tally(a, k),
        )),
    decreases a.len(),
{
    if a.len() > 0 {
        assert((a + b).drop_first() =~= a.drop_first() + b);
        assert((a + b)[0] == a[0]);
        lemma_tally_append(a.drop_first(), b, tally_next(a[0], k));
    } else {
        assert(a + b =~= b);
    }
}

spec fn step_tallies(v: RunnerView, r: ReportView) -> bool {
    &&& done_counts_samples(runner_step(v, r).1.events, v.samples)
    &&& tally(runner_step(v, r).1.events, v.samples) == runner_step(v, r).0.samples
}

proof fn lemma_step_tally_simple(v: RunnerView, r: ReportView)
    requires
        v.phase is Boundary || v.phase is Finished || v.phase is Starting || v.phase is Sending || v.phase is Killing,
    ensures
        step_tallies(v, r),
{
    reveal_with_fuel(tally, 4);
    reveal_with_fuel(done_counts_samples, 4);
}

proof fn lemma_step_tally_next(v: RunnerView, r: ReportView)
    requires
        v.phase is Next,
    ensures
        step_tallies(v, r),
{
    reveal_with_fuel(tally, 4);
    reveal_with_fuel(done_counts_samples, 4);
}

proof fn lemma_step_tally_loop_check(v: RunnerView, r: ReportView)
    requires
        v.phase is LoopCheck,
    ensures
        step_tallies(v, r),
{
    reveal_with_fuel(tally, 4);
    reveal_with_fuel(done_counts_samples, 4);
}

proof fn lemma_step_tally_listening(v: RunnerView, r: ReportView)
    requires
        v.phase is Outer || v.phase is Recv,
    ensures
        step_tallies(v, r),
{
    reveal_with_fuel(tally, 4);
    reveal_with_fuel(done_counts_samples, 4);
}

proof fn lemma_step_tally_pausing(v: RunnerView, r: ReportView)
    requires
        v.phase is Parsing || v.phase is Sleeping || v.phase is StopSent || v.phase is StopSlept,
    ensures
        step_tallies(v, r),
{
    reveal_with_fuel(tally, 4);
    reveal_with_fuel(done_counts_samples, 4);
}

proof fn lemma_step_tally(v: RunnerView, r: ReportView)
    ensures
        step_tallies(v, r),
{
    match v.phase {
        Phase::Next => lemma_step_tally_next(v, r),
        Phase::LoopCheck => lemma_step_tally_loop_check(v, r),
        Phase::Outer { .. } => lemma_step_tally_listening(v, r),
        Phase::Recv { .. } => lemma_step_tally_listening(v, r),
        Phase::Parsing { .. } => lemma_step_tally_pausing(v, r),
        Phase::Sleeping { .. } => lemma_step_tally_pausing(v, r),
        Phase::StopSent => lemma_step_tally_pausing(v, r),
        Phase::StopSlept { .. } => lemma_step_tally_pausing(v, r),
        _ => lemma_step_tally_simple(v, r),
    }
}

/// Every scenario is reported done with as many samples as `Sample` events
/// were reported since it started (counted in a machine word), in any run
/// of the runner; and the runner's own count is that of the events so far.
pub proof fn law_done_counts_samples(v: RunnerView, rs: Seq<ReportView>)
    ensures
        done_counts_samples(events_from(v, rs), v.samples),
        tally(events_from(v, rs), v.samples) == run_from(v, rs).samples,
    decreases rs.len(),
{
    if rs.len() > 0 {
        let (w, o) = runner_step(v, rs[0]);
        let rest = rs.drop_first();
        lemma_step_tally(v, rs[0]);
        law_done_counts_samples(w, rest);
        lemma_tally_append(o.events, events_from(w, rest), v.samples);
    }
}

/// A command error aborts only its own scenario: before the scenario's next
/// step it is reported aborted and done, and at the next report, unless a
/// stop is requested, the following scenario starts from its first step and
/// has the error flag cleared, whether or not the flag is still set.
pub proof fn law_command_error_aborts_only_its_scenario(v: RunnerView, r1: ReportView, r2: ReportView)
    requires
        runner_wf(v),
        v.phase == Phase::Next,
        cur_step(v) is Some,
        r1.error,
        !r1.stop,
        !r2.stop,
        v.next + 1 < v.scenarios.len(),
    ensures
        runner_step(v, r1).1.events == seq![
            RunnerEventView::RunnerError(
                "scenario "@ + cur_name(v) + " aborted: "@ + "command error — scenario aborted"@,
            ),
            RunnerEventView::ScenarioDone { name: cur_name(v), samples: v.samples },
        ],
        runner_step(v, r1).0.next == v.next + 1,
        runner_step(runner_step(v, r1).0, r2).1.events == seq![
            RunnerEventView::ScenarioStart(v.scenarios[v.next + 1 as int].name),
        ],
        runner_step(runner_step(v, r1).0, r2).1.clear_error,
        runner_step(runner_step(v, r1).0, r2).0.phase == Phase::Next,
        runner_step(runner_step(v, r1).0, r2).0.frames == seq![
            FrameView { steps: v.scenarios[v.next + 1 as int].steps, idx: 0, run: None },
        ],
{
}

/// The scenario that is open (started and not yet reported done), if any,
/// and how many scenarios have started, after event `e`; `None` when `e`
/// breaks the order: a scenario starts only when none is open and only
/// the next one of `scs`, a scenario is reported done only while it is
/// open, and every other event comes while a scenario is open (a sample
/// naming that scenario).
pub open spec fn bracket_next(
    e: RunnerEventView,
    open: Option<Seq<char>>,
    k: nat,
    scs: Seq<ScenarioView>,
) -> Option<(Option<Seq<char>>, nat)> {
    match e {
        RunnerEventView::ScenarioStart(n) => if open is None && k < scs.len() && n == scs[k as int].name {
            Some((Some(n), k + 1))
        } else {
            None
        },
        RunnerEventView::ScenarioDone { name, .. } => if open == Some(name) {
            Some((None, k))
        } else {
            None
        },
        RunnerEventView::Sample { scenario, .. } => if open == Some(scenario) {
            Some((open, k))
        } else {
            None
        },
        _ => if open is Some {
            Some((open, k))
        } else {
            None
        },
    }
}

/// `bracket_next` over the events `evs` in turn.
pub open spec fn bracket(
    evs: Seq<RunnerEventView>,
    open: Option<Seq<char>>,
    k: nat,
    scs: Seq<ScenarioView>,
) -> Option<(Option<Seq<char>>, nat)>
    decreases evs.len(),
{
    if evs.len() == 0 {
        Some((open, k))
    } else {
        match bracket_next(evs[0], open, k, scs) {
            Some((o2, k2)) => bracket(evs.drop_first(), o2, k2, scs),
            None => None,
        }
    }
}

/// The scenario the runner has open.
pub open spec fn open_scenario(v: RunnerView) -> Option<Seq<char>> {
    if v.frames.len() > 0 {
        Some(cur_name(v))
    } else {
        None
    }
}

/// How many scenarios the runner has started.
pub open spec fn started(v: RunnerView) -> nat {
    if v.frames.len() > 0 {
        v.next + 1
    } else {
        v.next
    }
}

proof fn lemma_bracket_append(
    a: Seq<RunnerEventView>,
    b: Seq<RunnerEventView>,
    open: Option<Seq<char>>,
    k: nat,
    scs: Seq<ScenarioView>,
)
    ensures
        bracket(a + b, open, k, scs) == (match bracket(a, open, k, scs) {
            Some((o2, k2)) => bracket(b, o2, k2, scs),
            None => None,
        }),
    decreases a.len(),
{
    if a.len() > 0 {
        assert((a + b).drop_first() =~= a.drop_first() + b);
        assert((a + b)[0] == a[0]);
        match bracket_next(a[0], open, k, scs) {
            Some((o2, k2)) => lemma_bracket_append(a.drop_first(), b, o2, k2, scs),
            None => {},
        }
    } else {
        assert(a + b =~= b);
    }
}

spec fn step_brackets(v: RunnerView, r: ReportView) -> bool {
    bracket(runner_step(v, r).1.events, open_scenario(v), started(v), v.scenarios) == Some(
        (open_scenario(runner_step(v, r).0), started(runner_step(v, r).0)),
    ) && runner_step(v, r).0.scenarios == v.scenarios
}

proof fn lemma_step_brackets_simple(v: RunnerView, r: ReportView)
    requires
        runner_wf(v),
        v.phase is Boundary || v.phase is Finished || v.phase is Starting || v.phase is Sending || v.phase is Killing,
    ensures
        step_brackets(v, r),
{
    reveal_with_fuel(bracket, 4);
    if v.frames.len() > 0 {
        assert(v.frames.last() == v.frames[v.frames.len() - 1]);
    }
}

proof fn lemma_step_brackets_next(v: RunnerView, r: ReportView)
    requires
        runner_wf(v),
        v.phase is Next,
    ensures
        step_brackets(v, r),
{
    reveal_with_fuel(bracket, 4);
    if v.frames.len() > 0 {
        assert(v.frames.last() == v.frames[v.frames.len() - 1]);
    }
}

proof fn lemma_step_brackets_loop_check(v: RunnerView, r: ReportView)
    requires
        runner_wf(v),
        v.phase is LoopCheck,
    ensures
        step_brackets(v, r),
{
    reveal_with_fuel(bracket, 4);
    if v.frames.len() > 0 {
        assert(v.frames.last() == v.frames[v.frames.len() - 1]);
    }
}

proof fn lemma_step_brackets_listening(v: RunnerView, r: ReportView)
    requires
        runner_wf(v),
        v.phase is Outer || v.phase is Recv,
    ensures
        step_brackets(v, r),
{
    reveal_with_fuel(bracket, 4);
    if v.frames.len() > 0 {
        assert(v.frames.last() == v.frames[v.frames.len() - 1]);
    }
}

proof fn lemma_step_brackets_pausing(v: RunnerView, r: ReportView)
    requires
        runner_wf(v),
        v.phase is Parsing || v.phase is Sleeping || v.phase is StopSent || v.phase is StopSlept,
    ensures
        step_brackets(v, r),
{
    reveal_with_fuel(bracket, 4);
    if v.frames.len() > 0 {
        assert(v.frames.last() == v.frames[v.frames.len() - 1]);
    }
}

proof fn lemma_step_brackets(v: RunnerView, r: ReportView)
    requires
        runner_wf(v),
    ensures
        step_brackets(v, r),
{
    match v.phase {
        Phase::Next => lemma_step_brackets_next(v, r),
        Phase::LoopCheck => lemma_step_brackets_loop_check(v, r),
        Phase::Outer { .. } => lemma_step_brackets_listening(v, r),
        Phase::Recv { .. } => lemma_step_brackets_listening(v, r),
        Phase::Parsing { .. } => lemma_step_brackets_pausing(v, r),
        Phase::Sleeping { .. } => lemma_step_brackets_pausing(v, r),
        Phase::StopSent => lemma_step_brackets_pausing(v, r),
        Phase::StopSlept { .. } => lemma_step_brackets_pausing(v, r),
        _ => lemma_step_brackets_simple(v, r),
    }
}

/// In any run, scenarios are reported in the order of the list: each one
/// starts only after the one before it was reported done, is reported done
/// under its own name, and every step, sample, note and error in between
/// belongs to it (a sample names it); nothing is reported between
/// scenarios.
pub proof fn law_scenarios_reported_in_order(v: RunnerView, rs: Seq<ReportView>)
    requires
        runner_wf(v),
    ensures
        bracket(events_from(v, rs), open_scenario(v), started(v), v.scenarios) == Some(
            (open_scenario(run_from(v, rs)), started(run_from(v, rs))),
        ),
    decreases rs.len(),
{
    if rs.len() > 0 {
        let (w, o) = runner_step(v, rs[0]);
        let rest = rs.drop_first();
        lemma_step_brackets(v, rs[0]);
        law_resume_keeps_wf(v, rs[0]);
        law_scenarios_reported_in_order(w, rest);
        lemma_bracket_append(o.events, events_from(w, rest), open_scenario(v), started(v), v.scenarios);
    }
}

/// A stop request, while it stands, ends the run within `stop_rank`
/// transitions: nothing more starts, and the scenario that was running is
/// still reported done, so that every scenario started is closed.
pub proof fn law_stop_closes_the_run(v: RunnerView, rs: Seq<ReportView>)
    requires
        runner_wf(v),
        forall|i: int| 0 <= i < rs.len() ==> (#[trigger] rs[i]).stop,
        rs.len() >= stop_rank(v),
    ensures
        run_from(v, rs).phase == Phase::Finished,
        forall|j: int|
            0 <= j < events_from(v, rs).len() ==> !is_start(#[trigger] events_from(v, rs)[j]),
        bracket(events_from(v, rs), open_scenario(v), started(v), v.scenarios) == Some(
            (None::<Seq<char>>, started(run_from(v, rs))),
        ),
{
    law_stop_finishes_run(v, rs);
    law_nothing_starts_after_stop(v, rs);
    law_scenarios_reported_in_order(v, rs);
    law_runs_stay_wf(v, rs);
}

/// Every state that a run reaches from a well-formed runner is well-formed.
pub proof fn law_runs_stay_wf(v: RunnerView, rs: Seq<ReportView>)
    requires
        runner_wf(v),
    ensures
        runner_wf(run_from(v, rs)),
    decreases rs.len(),
{
    if rs.len() > 0 {
        law_resume_keeps_wf(v, rs[0]);
        law_runs_stay_wf(runner_step(v, rs[0]).0, rs.drop_first());
    }
}

} // verus!
