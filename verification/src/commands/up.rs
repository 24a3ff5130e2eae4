//! The run of `up`: the pending migrations one after the other, each recorded as
//! soon as it has succeeded, and none after one that failed.
//!
//! The run itself is not made here. Who makes it begins a `Run` over the pending
//! migrations, tells it `RunEvent::Start`, does what it is told to do, and comes
//! back with what happened.

use crate::{ExecutionResult, ExecutionResultView};
use vstd::prelude::*;

verus! {

/// Where a run is.
#[derive(Debug, Clone, Copy, PartialEq, Eq, Structural)]
pub enum RunState {
    /// Not begun.
    Idle,
    /// At the pending migration with the number `index`, counted from zero. Its
    /// record is being written once `recording` is set.
    Running { index: usize, recording: bool },
    /// At its end: every pending migration was applied, or was shown in a dry run.
    Completed,
    /// Stopped at the migration with the number `index`, which failed.
    Failed { index: usize, exit_code: i32 },
}

/// What happened.
#[derive(Debug, Clone, Copy, PartialEq, Eq, Structural)]
pub enum RunEvent {
    /// The run begins.
    Start,
    /// The migration was shown and not run.
    Shown,
    /// The migration ran and ended.
    Exited { success: bool, exit_code: i32 },
    /// The record of the migration stands in the history.
    Recorded,
}

/// What is to be done.
#[derive(Debug, Clone, Copy, PartialEq, Eq, Structural)]
pub enum RunAction {
    /// Show that the migration would be applied, and do not run it.
    Show { index: usize },
    /// Run the migration.
    Execute { index: usize },
    /// Write the record of the migration into the history.
    Record { index: usize },
    /// Nothing more: the run has completed.
    Finish,
    /// Nothing more: the run has failed.
    Fail { index: usize, exit_code: i32 },
}

/// The run at the migration with the number `index`, where there is one, and at
/// its end where there is none.
pub open spec fn arrived_at(index: int, total: usize, dry_run: bool) -> (RunState, RunAction) {
    if index < total {
        (
            RunState::Running { index: index as usize, recording: false },
            if dry_run {
                RunAction::Show { index: index as usize }
            } else {
                RunAction::Execute { index: index as usize }
            },
        )
    } else {
        (RunState::Completed, RunAction::Finish)
    }
}

/// The state after `event` and what is to be done then, in a run over `total`
/// pending migrations; `None` for an event that cannot happen in the state.
pub open spec fn stepped(state: RunState, event: RunEvent, total: usize, dry_run: bool) -> Option<
    (RunState, RunAction),
> {
    match (state, event) {
        (RunState::Idle, RunEvent::Start) => Some(arrived_at(0, total, dry_run)),
        (RunState::Running { index, recording }, RunEvent::Shown) => if index < total && dry_run
            && !recording {
            Some(arrived_at(index + 1, total, dry_run))
        } else {
            None
        },
        (RunState::Running { index, recording }, RunEvent::Exited { success, exit_code }) => if index
            < total && !dry_run && !recording {
            if success {
                Some((RunState::Running { index, recording: true }, RunAction::Record { index }))
            } else {
                Some(
                    (
                        RunState::Failed { index, exit_code },
                        RunAction::Fail { index, exit_code },
                    ),
                )
            }
        } else {
            None
        },
        (RunState::Running { index, recording }, RunEvent::Recorded) => if index < total && !dry_run
            && recording {
            Some(arrived_at(index + 1, total, dry_run))
        } else {
            None
        },
        _ => None,
    }
}

fn arrive_at(index: usize, total: usize, dry_run: bool) -> (r: (RunState, RunAction))
    ensures
        r == arrived_at(index as int, total, dry_run),
{
    if index < total {
        (
            RunState::Running { index, recording: false },
            if dry_run {
                RunAction::Show { index }
            } else {
                RunAction::Execute { index }
            },
        )
    } else {
        (RunState::Completed, RunAction::Finish)
    }
}

/// The state after `event` and what is to be done then, in a run over `total`
/// pending migrations; `None` for an event that cannot happen in the state.
pub fn step(state: RunState, event: RunEvent, total: usize, dry_run: bool) -> (r: Option<
    (RunState, RunAction),
>)
    ensures
        r == stepped(state, event, total, dry_run),
{
    match (state, event) {
        (RunState::Idle, RunEvent::Start) => Some(arrive_at(0, total, dry_run)),
        (RunState::Running { index, recording }, RunEvent::Shown) => {
            if index < total && dry_run && !recording {
                Some(arrive_at(index + 1, total, dry_run))
            } else {
                None
            }
        },
        (RunState::Running { index, recording }, RunEvent::Exited { success, exit_code }) => {
            if index < total && !dry_run && !recording {
                if success {
                    Some(
                        (RunState::Running { index, recording: true }, RunAction::Record { index }),
                    )
                } else {
                    Some(
                        (
                            RunState::Failed { index, exit_code },
                            RunAction::Fail { index, exit_code },
                        ),
                    )
                }
            } else {
                None
            }
        },
        (RunState::Running { index, recording }, RunEvent::Recorded) => {
            if index < total && !dry_run && recording {
                Some(arrive_at(index + 1, total, dry_run))
            } else {
                None
            }
        },
        _ => None,
    }
}

/// A run over a number of pending migrations that is fixed when the run begins.
#[derive(Debug)]
pub struct Run {
    total: usize,
    dry_run: bool,
    state: RunState,
}

/// What a `Run` holds.
pub struct RunView {
    /// The number of the pending migrations.
    pub total: usize,
    /// Whether nothing is to be changed.
    pub dry_run: bool,
    pub state: RunState,
}

impl View for Run {
    type V = RunView;

    closed spec fn view(&self) -> RunView {
        RunView { total: self.total, dry_run: self.dry_run, state: self.state }
    }
}

impl Run {
    /// A run over `total` pending migrations that has not begun.
    pub fn new(total: usize, dry_run: bool) -> (r: Run)
        ensures
            r@ == (RunView { total, dry_run, state: RunState::Idle }),
    {
        Run { total, dry_run, state: RunState::Idle }
    }

    /// Where the run is.
    pub fn state(&self) -> (r: RunState)
        ensures
            r == self@.state,
    {
        self.state
    }

    /// Takes what happened, and tells what is to be done. An event that cannot
    /// happen where the run is leaves the run as it is, and `None` is told.
    pub fn advance(&mut self, event: RunEvent) -> (r: Option<RunAction>)
        ensures
            final(self)@.total == old(self)@.total,
            final(self)@.dry_run == old(self)@.dry_run,
            match stepped(old(self)@.state, event, old(self)@.total, old(self)@.dry_run) {
                Some((state, action)) => final(self)@.state == state && r == Some(action),
                None => final(self)@.state == old(self)@.state && r is None,
            },
    {
        match step(self.state, event, self.total, self.dry_run) {
            Some((state, action)) => {
                self.state = state;
                Some(action)
            },
            None => None,
        }
    }
}

/// The event that a migration ended as `result` tells.
pub fn exited(result: &ExecutionResult) -> (r: RunEvent)
    ensures
        r == (RunEvent::Exited { success: result.success, exit_code: result.exit_code }),
{
    RunEvent::Exited { success: result.success, exit_code: result.exit_code }
}

/// The event with which the one who makes the run comes back after `action`,
/// where the migration with the number `i` ends as `endings[i]` tells when it is
/// run; `None` once nothing more is to be done.
pub open spec fn answer(action: RunAction, endings: Seq<ExecutionResultView>) -> Option<RunEvent> {
    match action {
        RunAction::Show { index } => Some(RunEvent::Shown),
        RunAction::Execute { index } => Some(
            RunEvent::Exited {
                success: endings[index as int].success,
                exit_code: endings[index as int].exit_code,
            },
        ),
        RunAction::Record { index } => Some(RunEvent::Recorded),
        RunAction::Finish => None,
        RunAction::Fail { index, exit_code } => None,
    }
}

/// What a run did: the numbers of the migrations that it ran and of those that
/// it recorded, each list in the order of time, and the state in which it ended.
pub struct Course {
    pub executed: Seq<int>,
    pub recorded: Seq<int>,
    pub end: RunState,
}

/// What is done from `action` on, in at most `steps` steps.
pub open spec fn course_from(
    state: RunState,
    action: RunAction,
    total: usize,
    dry_run: bool,
    endings: Seq<ExecutionResultView>,
    steps: nat,
) -> Course
    decreases steps,
{
    let rest = if steps == 0 {
        Course { executed: Seq::empty(), recorded: Seq::empty(), end: state }
    } else {
        match answer(action, endings) {
            None => Course { executed: Seq::empty(), recorded: Seq::empty(), end: state },
            Some(event) => match stepped(state, event, total, dry_run) {
                None => Course { executed: Seq::empty(), recorded: Seq::empty(), end: state },
                Some((next, then)) => course_from(
                    next,
                    then,
                    total,
                    dry_run,
                    endings,
                    (steps - 1) as nat,
                ),
            },
        }
    };
    match action {
        RunAction::Execute { index } => Course {
            executed: seq![index as int] + rest.executed,
            ..rest
        },
        RunAction::Record { index } => Course {
            recorded: seq![index as int] + rest.recorded,
            ..rest
        },
        _ => rest,
    }
}

/// What a run over `total` pending migrations does from its start, in at most
/// `steps` steps.
pub open spec fn course(
    total: usize,
    dry_run: bool,
    endings: Seq<ExecutionResultView>,
    steps: nat,
) -> Course {
    let (state, action) = arrived_at(0, total, dry_run);
    course_from(state, action, total, dry_run, endings, steps)
}

/// The number of the first migration from `from` on that fails, or `total` where
/// none does.
pub open spec fn first_failure(endings: Seq<ExecutionResultView>, from: int, total: int) -> int
    decreases total - from,
{
    if from >= total {
        total
    } else if !endings[from].success {
        from
    } else {
        first_failure(endings, from + 1, total)
    }
}

/// The numbers from `from` up to `to`, without `to`.
pub open spec fn numbers(from: int, to: int) -> Seq<int> {
    Seq::new(
        if to >= from {
            (to - from) as nat
        } else {
            0
        },
        |i: int| from + i,
    )
}

proof fn lemma_first_failure_bounds(endings: Seq<ExecutionResultView>, from: int, total: int)
    requires
        0 <= from <= total,
    ensures
        from <= first_failure(endings, from, total) <= total,
        first_failure(endings, from, total) < total ==> !endings[first_failure(
            endings,
            from,
            total,
        )].success,
        forall|i: int|
            from <= i < first_failure(endings, from, total) ==> (#[trigger] endings[i]).success,
    decreases total - from,
{
    if from < total && endings[from].success {
        lemma_first_failure_bounds(endings, from + 1, total);
    }
}

/// From the migration with the number `index` on, a run that changes things runs
/// the migrations up to the first that fails and that one too, records those
/// before it, and ends as failed at it; where none fails it runs and records all
/// of them and ends as completed.
proof fn lemma_course_from(index: int, total: usize, endings: Seq<ExecutionResultView>, steps: nat)
    requires
        0 <= index <= total,
        endings.len() == total,
        steps >= 2 * (total - index),
    ensures
        ({
            let (state, action) = arrived_at(index, total, false);
            let stop = first_failure(endings, index, total as int);
            let c = course_from(state, action, total, false, endings, steps);
            &&& c.executed == numbers(
                index,
                if stop < total {
                    stop + 1
                } else {
                    total as int
                },
            )
            &&& c.recorded == numbers(index, stop)
            &&& c.end == if stop < total {
                RunState::Failed { index: stop as usize, exit_code: endings[stop].exit_code }
            } else {
                RunState::Completed
            }
        }),
    decreases total - index,
{
    let (state, action) = arrived_at(index, total, false);
    let stop = first_failure(endings, index, total as int);
    let c = course_from(state, action, total, false, endings, steps);
    lemma_first_failure_bounds(endings, index, total as int);
    if index >= total {
        assert(c.executed =~= numbers(index, total as int));
        assert(c.recorded =~= numbers(index, stop));
    } else {
        let i = index as usize;
        let event = answer(action, endings)->0;
        if endings[index].success {
            let recording = RunState::Running { index: i, recording: true };
            assert(stepped(state, event, total, false) == Some(
                (recording, RunAction::Record { index: i }),
            ));
            let (next, then) = arrived_at(index + 1, total, false);
            assert(stepped(recording, RunEvent::Recorded, total, false) == Some((next, then)));
            let inner = course_from(next, then, total, false, endings, (steps - 2) as nat);
            let middle = course_from(
                recording,
                RunAction::Record { index: i },
                total,
                false,
                endings,
                (steps - 1) as nat,
            );
            lemma_course_from(index + 1, total, endings, (steps - 2) as nat);
            assert(middle.recorded == seq![index] + inner.recorded);
            assert(middle.executed == inner.executed);
            assert(c.executed == seq![index] + middle.executed);
            assert(c.recorded == middle.recorded);
            let end = if stop < total {
                stop + 1
            } else {
                total as int
            };
            assert(seq![index] + numbers(index + 1, end) =~= numbers(index, end));
            assert(seq![index] + numbers(index + 1, stop) =~= numbers(index, stop));
        } else {
            let failed = RunState::Failed { index: i, exit_code: endings[index].exit_code };
            let fail = RunAction::Fail { index: i, exit_code: endings[index].exit_code };
            assert(stepped(state, event, total, false) == Some((failed, fail)));
            let inner = course_from(failed, fail, total, false, endings, (steps - 1) as nat);
            assert(inner.executed == Seq::<int>::empty());
            assert(inner.recorded == Seq::<int>::empty());
            assert(c.executed =~= numbers(index, index + 1));
            assert(c.recorded =~= numbers(index, index));
        }
    }
}

/// A run that changes things stops at the first migration that fails. The
/// migrations before it were run and recorded, in their order; the one that
/// failed was run and not recorded; those after it were neither run nor
/// recorded. Where none fails, all were run and recorded and the run has
/// completed.
pub proof fn lemma_run_stops_at_first_failure(
    total: usize,
    endings: Seq<ExecutionResultView>,
    steps: nat,
)
    requires
        endings.len() == total,
        steps >= 2 * total,
    ensures
        ({
            let stop = first_failure(endings, 0, total as int);
            let c = course(total, false, endings, steps);
            &&& 0 <= stop <= total
            &&& c.recorded == numbers(0, stop)
            &&& stop < total ==> c.executed == numbers(0, stop + 1) && c.end == (RunState::Failed {
                index: stop as usize,
                exit_code: endings[stop].exit_code,
            })
            &&& stop == total ==> c.executed == numbers(0, total as int) && c.end
                == RunState::Completed
        }),
{
    lemma_first_failure_bounds(endings, 0, total as int);
    lemma_course_from(0, total, endings, steps);
}

proof fn lemma_dry_course_from(
    index: int,
    total: usize,
    endings: Seq<ExecutionResultView>,
    steps: nat,
)
    requires
        0 <= index <= total,
        steps >= total - index,
    ensures
        ({
            let (state, action) = arrived_at(index, total, true);
            let c = course_from(state, action, total, true, endings, steps);
            &&& c.executed == Seq::<int>::empty()
            &&& c.recorded == Seq::<int>::empty()
            &&& c.end == RunState::Completed
        }),
    decreases total - index,
{
    if index < total {
        let (state, action) = arrived_at(index, total, true);
        let (next, then) = arrived_at(index + 1, total, true);
        assert(stepped(state, RunEvent::Shown, total, true) == Some((next, then)));
        lemma_dry_course_from(index + 1, total, endings, (steps - 1) as nat);
    }
}

/// A dry run runs nothing and records nothing, and completes.
pub proof fn lemma_dry_run_changes_nothing(
    total: usize,
    endings: Seq<ExecutionResultView>,
    steps: nat,
)
    requires
        steps >= total,
    ensures
        course(total, true, endings, steps).executed == Seq::<int>::empty(),
        course(total, true, endings, steps).recorded == Seq::<int>::empty(),
        course(total, true, endings, steps).end == RunState::Completed,
{
    lemma_dry_course_from(0, total, endings, steps);
}

/// A run with nothing pending runs nothing and records nothing.
pub proof fn lemma_run_of_nothing(dry_run: bool, endings: Seq<ExecutionResultView>, steps: nat)
    ensures
        stepped(RunState::Idle, RunEvent::Start, 0, dry_run) == Some(
            (RunState::Completed, RunAction::Finish),
        ),
        course(0, dry_run, endings, steps).executed == Seq::<int>::empty(),
        course(0, dry_run, endings, steps).recorded == Seq::<int>::empty(),
        course(0, dry_run, endings, steps).end == RunState::Completed,
{
}

/// A migration is run only at the start of a run, where it is the first, or once
/// the record of the one before it stands in the history.
pub proof fn lemma_runs_after_record(
    state: RunState,
    event: RunEvent,
    total: usize,
    dry_run: bool,
    index: usize,
)
    requires
        stepped(state, event, total, dry_run) matches Some((next, action)) && action
            == (RunAction::Execute { index }),
    ensures
        !dry_run,
        index < total,
        state == RunState::Idle && event == RunEvent::Start && index == 0 || state
            == (RunState::Running { index: (index - 1) as usize, recording: true }) && event
            == RunEvent::Recorded && index > 0,
{
}

/// A record is written only for the migration that has just run and succeeded.
pub proof fn lemma_records_after_success(
    state: RunState,
    event: RunEvent,
    total: usize,
    dry_run: bool,
    index: usize,
)
    requires
        stepped(state, event, total, dry_run) matches Some((next, action)) && action
            == (RunAction::Record { index }),
    ensures
        !dry_run,
        state == (RunState::Running { index, recording: false }),
        event matches RunEvent::Exited { success, exit_code } && success,
{
}

/// A run that has completed or failed takes no more events.
pub proof fn lemma_end_is_final(state: RunState, event: RunEvent, total: usize, dry_run: bool)
    requires
        state is Completed || state is Failed,
    ensures
        stepped(state, event, total, dry_run) is None,
{
}

} // verus!
