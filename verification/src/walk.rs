//! Walking a job: the decisions between steps, as a state machine. The caller
//! performs each action (printing, prompting, running a command) and hands the
//! outcome back as the next event.
use crate::runner::RunReport;
use crate::workflow::Step;
use vstd::prelude::*;

verus! {

/// Where the walk stands.
#[derive(Debug, Clone, Copy, PartialEq, Eq, Structural)]
pub enum Stage {
    /// The step at `index` is next (or, past the last step, the summary).
    Start,
    /// The step's header is out.
    Announced,
    /// The step's condition and script are out.
    Previewed,
    /// Waiting for the answer before the step.
    Asking,
    /// The step's command is running.
    Executing,
    /// Waiting for the answer after a failure.
    Failing,
    /// Waiting for the outcome of the offer to edit the command.
    Editing,
    /// The user quit before a step; the summary is next.
    Closing,
    /// The walk is over, after its summary.
    Done,
    /// The walk stopped at a failure, without a summary.
    Stopped,
}

/// The answer before a step, once it is one of the three choices.
#[derive(Debug, Clone, Copy, PartialEq, Eq, Structural)]
pub enum PreAction {
    Run,
    Skip,
    Quit,
}

/// The answer after a failed step, once it is one of the three choices.
#[derive(Debug, Clone, Copy, PartialEq, Eq, Structural)]
pub enum FailAction {
    Retry,
    Continue,
    Quit,
}

/// What the caller reports back.
#[derive(Debug)]
pub enum Event {
    /// The last action was carried out.
    Ack,
    /// The answer before a step.
    Pre(PreAction),
    /// The step's command finished; `true` on success.
    Exec(bool),
    /// The answer after a failed step.
    Fail(FailAction),
    /// The outcome of the offer to edit: the new command, if it changed.
    Edited(Option<String>),
    /// The user quit at the offer to edit.
    Quit,
}

/// What the caller is to do next.
#[derive(Debug, Clone, Copy, PartialEq, Eq, Structural)]
pub enum Action {
    /// Print the header of step `i`.
    Announce(usize),
    /// Step `i` has no `run:`; note that it cannot run here (it is counted as skipped).
    Unrunnable(usize),
    /// Print step `i`'s condition and script.
    Preview(usize),
    /// Ask whether to run step `i`.
    AskBefore(usize),
    /// Step `i` was skipped on request (it is counted as skipped).
    Skipped(usize),
    /// The user quit before step `i`.
    QuitBefore(usize),
    /// Run the current command of step `i`.
    Execute(usize),
    /// Step `i` succeeded (it is counted as ran).
    Passed(usize),
    /// Step `i` failed: ask what to do.
    AskAfterFailure(usize),
    /// Offer to edit the current command of step `i` before the retry.
    OfferEdit(usize),
    /// Step `i` failed and the walk goes on (it is counted as failed).
    Continued(usize),
    /// Step `i` failed and the walk stops here, without a summary (it is counted as failed).
    QuitAfterFailure(usize),
    /// Print the summary of the report.
    Summary,
    /// The walk is over; the report is final.
    Stop,
}

/// The walk of one job.
pub struct JobWalk {
    pub index: usize,
    pub stage: Stage,
    pub report: RunReport,
    /// The command of the current step, as last edited.
    pub command: String,
    /// Steps before this index run without pausing.
    pub from: usize,
    pub interactive: bool,
    /// The number of steps of the job.
    pub total: usize,
}

/// The walk, with the command as text.
pub struct WalkState {
    pub index: usize,
    pub stage: Stage,
    pub report: RunReport,
    pub command: Seq<char>,
    pub from: usize,
    pub interactive: bool,
    pub total: usize,
}

impl View for JobWalk {
    type V = WalkState;

    open spec fn view(&self) -> WalkState {
        WalkState {
            index: self.index,
            stage: self.stage,
            report: self.report,
            command: self.command@,
            from: self.from,
            interactive: self.interactive,
            total: self.total,
        }
    }
}

/// The number of steps the report accounts for.
pub open spec fn counted(r: RunReport) -> int {
    r.ran + r.skipped + r.failed
}

/// The invariant of a walk: every step before the current one is counted
/// exactly once, as ran, skipped or failed; a walk that stopped at a failure
/// counts the failed step too. Questions are only pending when the walk is
/// interactive and at or past the step it pauses from.
pub open spec fn walk_wf(w: WalkState) -> bool {
    &&& w.index <= w.total
    &&& (w.stage == Stage::Asking || w.stage == Stage::Failing || w.stage == Stage::Editing)
        ==> w.interactive && w.index >= w.from
    &&& match w.stage {
        Stage::Start => counted(w.report) == w.index,
        Stage::Done => counted(w.report) == w.index,
        Stage::Stopped => w.index < w.total && counted(w.report) == w.index + 1,
        _ => w.index < w.total && counted(w.report) == w.index,
    }
}

/// The same walk at another stage.
pub open spec fn at(w: WalkState, stage: Stage) -> WalkState {
    WalkState { stage, ..w }
}

/// The same walk at the start of the next step.
pub open spec fn next_step(w: WalkState, report: RunReport) -> WalkState {
    WalkState { index: (w.index + 1) as usize, stage: Stage::Start, report, ..w }
}

/// The report with one more failed step.
pub open spec fn one_more_failed(r: RunReport) -> RunReport {
    RunReport { failed: (r.failed + 1) as usize, ..r }
}

/// One move of the walk: from state `w`, on event `e`, the next state and
/// the action for the caller. An event that does not answer the pending
/// action leaves the state as it is and repeats that action.
pub open spec fn walk_step(w: WalkState, steps: Seq<Step>, e: Event) -> (WalkState, Action) {
    let i = w.index;
    let r = w.report;
    match w.stage {
        Stage::Start => if i < w.total {
            (at(w, Stage::Announced), Action::Announce(i))
        } else {
            (at(w, Stage::Done), Action::Summary)
        },
        Stage::Announced => match e {
            Event::Ack => match steps[i as int].run {
                None => (
                    next_step(w, RunReport { skipped: (r.skipped + 1) as usize, ..r }),
                    Action::Unrunnable(i),
                ),
                Some(c) => (
                    WalkState { stage: Stage::Previewed, command: c@, ..w },
                    Action::Preview(i),
                ),
            },
            _ => (w, Action::Announce(i)),
        },
        Stage::Previewed => match e {
            Event::Ack => if w.interactive && i >= w.from {
                (at(w, Stage::Asking), Action::AskBefore(i))
            } else {
                (at(w, Stage::Executing), Action::Execute(i))
            },
            _ => (w, Action::Preview(i)),
        },
        Stage::Asking => match e {
            Event::Pre(PreAction::Run) => (at(w, Stage::Executing), Action::Execute(i)),
            Event::Pre(PreAction::Skip) => (
                next_step(w, RunReport { skipped: (r.skipped + 1) as usize, ..r }),
                Action::Skipped(i),
            ),
            Event::Pre(PreAction::Quit) => (at(w, Stage::Closing), Action::QuitBefore(i)),
            _ => (w, Action::AskBefore(i)),
        },
        Stage::Executing => match e {
            Event::Exec(true) => (
                next_step(w, RunReport { ran: (r.ran + 1) as usize, ..r }),
                Action::Passed(i),
            ),
            Event::Exec(false) => if w.interactive && i >= w.from {
                (at(w, Stage::Failing), Action::AskAfterFailure(i))
            } else {
                (
                    WalkState { stage: Stage::Stopped, report: one_more_failed(r), ..w },
                    Action::QuitAfterFailure(i),
                )
            },
            _ => (w, Action::Execute(i)),
        },
        Stage::Failing => match e {
            Event::Fail(FailAction::Retry) => if w.interactive {
                (at(w, Stage::Editing), Action::OfferEdit(i))
            } else {
                (at(w, Stage::Executing), Action::Execute(i))
            },
            Event::Fail(FailAction::Continue) => (
                next_step(w, one_more_failed(r)),
                Action::Continued(i),
            ),
            Event::Fail(FailAction::Quit) => (
                WalkState { stage: Stage::Stopped, report: one_more_failed(r), ..w },
                Action::QuitAfterFailure(i),
            ),
            _ => (w, Action::AskAfterFailure(i)),
        },
        Stage::Editing => match e {
            Event::Edited(Some(c)) => (
                WalkState { stage: Stage::Executing, command: c@, ..w },
                Action::Execute(i),
            ),
            Event::Edited(None) => (at(w, Stage::Executing), Action::Execute(i)),
            Event::Quit => (
                WalkState { stage: Stage::Stopped, report: one_more_failed(r), ..w },
                Action::QuitAfterFailure(i),
            ),
            _ => (w, Action::OfferEdit(i)),
        },
        Stage::Closing => (at(w, Stage::Done), Action::Summary),
        Stage::Done => (w, Action::Stop),
        Stage::Stopped => (w, Action::Stop),
    }
}

impl JobWalk {
    /// A walk over `steps` that pauses (when `interactive`) from step `from` on.
    pub fn new(steps: &Vec<Step>, from: usize, interactive: bool) -> (r: JobWalk)
        ensures
            r@ == (WalkState {
                index: 0,
                stage: Stage::Start,
                report: RunReport { ran: 0, skipped: 0, failed: 0 },
                command: Seq::empty(),
                from,
                interactive,
                total: steps.len(),
            }),
            walk_wf(r@),
    {
        JobWalk {
            index: 0,
            stage: Stage::Start,
            report: RunReport { ran: 0, skipped: 0, failed: 0 },
            command: String::new(),
            from,
            interactive,
            total: steps.len(),
        }
    }

    /// Takes the outcome of the last action and decides the next one.
    pub fn next(&mut self, steps: &Vec<Step>, event: Event) -> (r: Action)
        requires
            walk_wf(old(self)@),
            steps.len() == old(self).total,
        ensures
            (final(self)@, r) == walk_step(old(self)@, steps@, event),
            walk_wf(final(self)@),
    {
        let i = self.index;
        match self.stage {
            Stage::Start => {
                if i < self.total {
                    self.stage = Stage::Announced;
                    Action::Announce(i)
                } else {
                    self.stage = Stage::Done;
                    Action::Summary
                }
            },
            Stage::Announced => match event {
                Event::Ack => match &steps[i].run {
                    None => {
                        self.report.skipped = self.report.skipped + 1;
                        self.index = i + 1;
                        self.stage = Stage::Start;
                        Action::Unrunnable(i)
                    },
                    Some(c) => {
                        self.command = c.clone();
                        self.stage = Stage::Previewed;
                        Action::Preview(i)
                    },
                },
                _ => Action::Announce(i),
            },
            Stage::Previewed => match event {
                Event::Ack => {
                    if self.interactive && i >= self.from {
                        self.stage = Stage::Asking;
                        Action::AskBefore(i)
                    } else {
                        self.stage = Stage::Executing;
                        Action::Execute(i)
                    }
                },
                _ => Action::Preview(i),
            },
            Stage::Asking => match event {
                Event::Pre(PreAction::Run) => {
                    self.stage = Stage::Executing;
                    Action::Execute(i)
                },
                Event::Pre(PreAction::Skip) => {
                    self.report.skipped = self.report.skipped + 1;
                    self.index = i + 1;
                    self.stage = Stage::Start;
                    Action::Skipped(i)
                },
                Event::Pre(PreAction::Quit) => {
                    self.stage = Stage::Closing;
                    Action::QuitBefore(i)
                },
                _ => Action::AskBefore(i),
            },
            Stage::Executing => match event {
                Event::Exec(true) => {
                    self.report.ran = self.report.ran + 1;
                    self.index = i + 1;
                    self.stage = Stage::Start;
                    Action::Passed(i)
                },
                Event::Exec(false) => {
                    if self.interactive && i >= self.from {
                        self.stage = Stage::Failing;
                        Action::AskAfterFailure(i)
                    } else {
                        self.report.failed = self.report.failed + 1;
                        self.stage = Stage::Stopped;
                        Action::QuitAfterFailure(i)
                    }
                },
                _ => Action::Execute(i),
            },
            Stage::Failing => match event {
                Event::Fail(FailAction::Retry) => {
                    if self.interactive {
                        self.stage = Stage::Editing;
                        Action::OfferEdit(i)
                    } else {
                        self.stage = Stage::Executing;
                        Action::Execute(i)
                    }
                },
                Event::Fail(FailAction::Continue) => {
                    self.report.failed = self.report.failed + 1;
                    self.index = i + 1;
                    self.stage = Stage::Start;
                    Action::Continued(i)
                },
                Event::Fail(FailAction::Quit) => {
                    self.report.failed = self.report.failed + 1;
                    self.stage = Stage::Stopped;
                    Action::QuitAfterFailure(i)
                },
                _ => Action::AskAfterFailure(i),
            },
            Stage::Editing => match event {
                Event::Edited(Some(c)) => {
                    self.command = c;
                    self.stage = Stage::Executing;
                    Action::Execute(i)
                },
                Event::Edited(None) => {
                    self.stage = Stage::Executing;
                    Action::Execute(i)
                },
                Event::Quit => {
                    self.report.failed = self.report.failed + 1;
                    self.stage = Stage::Stopped;
                    Action::QuitAfterFailure(i)
                },
                _ => Action::OfferEdit(i),
            },
            Stage::Closing => {
                self.stage = Stage::Done;
                Action::Summary
            },
            Stage::Done => Action::Stop,
            Stage::Stopped => Action::Stop,
        }
    }
}


/// Every move keeps the walk's invariant: each step before the current one is
/// counted exactly once in the report, as ran, skipped or failed, and the
/// report never counts more steps than the job has.
pub proof fn law_walk_counts_each_step_once(w: WalkState, steps: Seq<Step>, e: Event)
    requires
        walk_wf(w),
        steps.len() == w.total,
    ensures
        walk_wf(walk_step(w, steps, e).0),
        counted(walk_step(w, steps, e).0.report) <= w.total,
{
}

/// The walk asks a question (before a step, after a failure, or about an
/// edit) only when it is interactive and the step is at or after the one it
/// was told to start pausing from; steps before that run automatically, and
/// a failure there stops the walk as a non-interactive run does.
pub proof fn law_no_pause_before_from(w: WalkState, steps: Seq<Step>, e: Event)
    requires
        walk_wf(w),
        steps.len() == w.total,
    ensures
        walk_step(w, steps, e).1 matches Action::AskBefore(i) ==> w.interactive && i >= w.from,
        walk_step(w, steps, e).1 matches Action::AskAfterFailure(i) ==> w.interactive && i
            >= w.from,
        walk_step(w, steps, e).1 matches Action::OfferEdit(i) ==> w.interactive && i >= w.from,
        (w.stage == Stage::Executing && w.index < w.from && (e matches Event::Exec(false)))
            ==> (walk_step(w, steps, e).1 == Action::QuitAfterFailure(w.index) && walk_step(
            w,
            steps,
            e,
        ).0.stage == Stage::Stopped),
{
}

/// A walk that is not interactive never asks anything: it runs every step,
/// and stops at the first failure.
pub proof fn law_non_interactive_never_asks(w: WalkState, steps: Seq<Step>, e: Event)
    requires
        walk_wf(w),
        steps.len() == w.total,
        !w.interactive,
    ensures
        !(walk_step(w, steps, e).1 is AskBefore),
        !(walk_step(w, steps, e).1 is AskAfterFailure),
        !(walk_step(w, steps, e).1 is OfferEdit),
        ((e matches Event::Exec(false)) && w.stage == Stage::Executing) ==> (walk_step(
            w,
            steps,
            e,
        ).1 == Action::QuitAfterFailure(w.index) && walk_step(w, steps, e).0.stage
            == Stage::Stopped),
{
}

/// After a failure, a retry runs the step again with the command as edited,
/// and the superseded attempt is not counted.
pub proof fn law_retry_runs_edited_command(w: WalkState, steps: Seq<Step>, c: String)
    requires
        walk_wf(w),
        steps.len() == w.total,
        w.stage == Stage::Failing,
    ensures
        ({
            let (w1, a1) = walk_step(w, steps, Event::Fail(FailAction::Retry));
            let (w2, a2) = walk_step(w1, steps, Event::Edited(Some(c)));
            &&& a1 == Action::OfferEdit(w.index)
            &&& a2 == Action::Execute(w.index)
            &&& w2.command == c@
            &&& w2.stage == Stage::Executing
            &&& w2.report == w.report
        }),
{
}

/// Quitting at the offer to edit ends the walk at once: the step is not run
/// again, and it is counted as failed.
pub proof fn law_quit_at_edit_offer(w: WalkState, steps: Seq<Step>, e: Event)
    requires
        walk_wf(w),
        steps.len() == w.total,
        w.stage == Stage::Failing,
    ensures
        ({
            let (w1, a1) = walk_step(w, steps, Event::Fail(FailAction::Retry));
            let (w2, a2) = walk_step(w1, steps, Event::Quit);
            let (w3, a3) = walk_step(w2, steps, e);
            &&& a1 == Action::OfferEdit(w.index)
            &&& a2 == Action::QuitAfterFailure(w.index)
            &&& w2.report == one_more_failed(w.report)
            &&& w2.stage == Stage::Stopped
            &&& a3 == Action::Stop
            &&& w3 == w2
        }),
{
}

/// A step without `run:` is never executed: it is noted and counted as skipped.
pub proof fn law_unrunnable_step_is_skipped(w: WalkState, steps: Seq<Step>)
    requires
        walk_wf(w),
        steps.len() == w.total,
        w.stage == Stage::Announced,
        steps[w.index as int].run is None,
    ensures
        ({
            let (w1, a1) = walk_step(w, steps, Event::Ack);
            &&& a1 == Action::Unrunnable(w.index)
            &&& w1.report.skipped == w.report.skipped + 1
            &&& w1.index == w.index + 1
            &&& w1.stage == Stage::Start
        }),
{
}

/// The report after an action: `Passed` counts a step as ran; `Unrunnable`
/// and `Skipped` count it as skipped; `Continued` and `QuitAfterFailure`
/// count it as failed; no other action counts anything.
pub open spec fn tally(r: RunReport, a: Action) -> RunReport {
    match a {
        Action::Passed(_) => RunReport { ran: (r.ran + 1) as usize, ..r },
        Action::Unrunnable(_) => RunReport { skipped: (r.skipped + 1) as usize, ..r },
        Action::Skipped(_) => RunReport { skipped: (r.skipped + 1) as usize, ..r },
        Action::Continued(_) => one_more_failed(r),
        Action::QuitAfterFailure(_) => one_more_failed(r),
        _ => r,
    }
}

/// The report after a run of actions.
pub open spec fn tally_all(r: RunReport, acts: Seq<Action>) -> RunReport
    decreases acts.len(),
{
    if acts.len() == 0 {
        r
    } else {
        tally_all(tally(r, acts[0]), acts.drop_first())
    }
}

/// A walk through a run of events: the final state and the actions, in order.
pub open spec fn walk_run(w: WalkState, steps: Seq<Step>, events: Seq<Event>) -> (
    WalkState,
    Seq<Action>,
)
    decreases events.len(),
{
    if events.len() == 0 {
        (w, Seq::empty())
    } else {
        let (w1, a1) = walk_step(w, steps, events[0]);
        let (wn, acts) = walk_run(w1, steps, events.drop_first());
        (wn, seq![a1] + acts)
    }
}

/// Over a whole walk, the report is exactly the tally of the actions shown:
/// a step counts as ran once it passed, as skipped once it was skipped or
/// could not run, and as failed only when its last attempt failed and the
/// walk went on or stopped there (attempts superseded by a retry count
/// nothing). The walk keeps its invariant throughout, so it never counts
/// more steps than the job has; when it ends after its summary, it counts
/// every step before the current one (all steps, or those before the step
/// quit at), and when it stops at a failure, the failed step as well.
pub proof fn law_walk_run_report(w: WalkState, steps: Seq<Step>, events: Seq<Event>)
    requires
        walk_wf(w),
        steps.len() == w.total,
    ensures
        walk_wf(walk_run(w, steps, events).0),
        walk_run(w, steps, events).0.report == tally_all(w.report, walk_run(w, steps, events).1),
        walk_run(w, steps, events).0.total == w.total,
        counted(walk_run(w, steps, events).0.report) <= w.total,
    decreases events.len(),
{
    if events.len() > 0 {
        let (w1, a1) = walk_step(w, steps, events[0]);
        law_walk_run_report(w1, steps, events.drop_first());
        let (wn, acts) = walk_run(w1, steps, events.drop_first());
        let all = seq![a1] + acts;
        assert(all[0] == a1);
        assert(all.drop_first() =~= acts);
        assert(tally(w.report, a1) == w1.report);
    }
}

/// Every runnable step at or after `from` is asked about before it runs, when
/// the walk is interactive: once its script is shown, the walk asks, and it
/// runs the step only on the answer to run it.
pub proof fn law_pause_from_the_chosen_step_on(w: WalkState, steps: Seq<Step>)
    requires
        walk_wf(w),
        steps.len() == w.total,
        w.stage == Stage::Previewed,
        w.interactive,
        w.index >= w.from,
    ensures
        ({
            let (w1, a1) = walk_step(w, steps, Event::Ack);
            let (w2, a2) = walk_step(w1, steps, Event::Pre(PreAction::Run));
            &&& a1 == Action::AskBefore(w.index)
            &&& w1.stage == Stage::Asking
            &&& w1.index == w.index
            &&& w1.report == w.report
            &&& w1.command == w.command
            &&& a2 == Action::Execute(w.index)
            &&& w2.stage == Stage::Executing
            &&& w2.command == w.command
        }),
{
}

/// Before `from`, or when not interactive, a step whose script is shown runs
/// at once, without a question.
pub proof fn law_run_without_pause(w: WalkState, steps: Seq<Step>)
    requires
        walk_wf(w),
        steps.len() == w.total,
        w.stage == Stage::Previewed,
        !w.interactive || w.index < w.from,
    ensures
        ({
            let (w1, a1) = walk_step(w, steps, Event::Ack);
            &&& a1 == Action::Execute(w.index)
            &&& w1.stage == Stage::Executing
            &&& w1.index == w.index
            &&& w1.report == w.report
        }),
{
}

/// A step that passes counts once as ran, and the walk moves to the next step.
pub proof fn law_passed_step_counts_as_ran(w: WalkState, steps: Seq<Step>)
    requires
        walk_wf(w),
        steps.len() == w.total,
        w.stage == Stage::Executing,
    ensures
        ({
            let (w1, a1) = walk_step(w, steps, Event::Exec(true));
            &&& a1 == Action::Passed(w.index)
            &&& w1.report.ran == w.report.ran + 1
            &&& w1.report.skipped == w.report.skipped
            &&& w1.report.failed == w.report.failed
            &&& w1.index == w.index + 1
            &&& w1.stage == Stage::Start
        }),
{
}

/// A runnable step shows its script next, with the command it will run.
pub proof fn law_runnable_step_is_previewed(w: WalkState, steps: Seq<Step>)
    requires
        walk_wf(w),
        steps.len() == w.total,
        w.stage == Stage::Announced,
        steps[w.index as int].run is Some,
    ensures
        ({
            let (w1, a1) = walk_step(w, steps, Event::Ack);
            &&& a1 == Action::Preview(w.index)
            &&& w1.stage == Stage::Previewed
            &&& w1.command == steps[w.index as int].run.unwrap()@
            &&& w1.index == w.index
            &&& w1.report == w.report
        }),
{
}

} // verus!
