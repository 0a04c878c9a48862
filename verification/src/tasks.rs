//! Background tasks: how they end, what a stop reports of them, and the table of a scope's tasks.

use std::sync::Arc;

use vstd::prelude::*;

use crate::error::{Error, ErrorKind, Phase};
use crate::id::TaskId;
use crate::outlet::Switch;
use crate::waiters::Waiters;

verus! {

/// A handle on a task runtime, `tokio::runtime::Handle`.
#[verifier::external_type_specification]
#[verifier::external_body]
pub struct ExRuntimeHandle(tokio::runtime::Handle);

/// The task runtime that the calling thread is in, if it is in one, as
/// `tokio::runtime::Handle::try_current` tells. That depends on the thread, so nothing is claimed
/// of it.
#[verifier::external_body]
fn current_runtime() -> (handle: Option<tokio::runtime::Handle>) {
    tokio::runtime::Handle::try_current().ok()
}

/// What is known of a panic.
#[derive(Debug)]
pub struct PanicInfo {
    /// The panic's message, where it has one.
    pub message: Option<String>,
}

impl Clone for PanicInfo {
    fn clone(&self) -> (copy: Self)
        ensures
            copy == *self,
    {
        PanicInfo {
            message: match &self.message {
                Some(text) => Some(text.clone()),
                None => None,
            },
        }
    }
}

impl Default for PanicInfo {
    fn default() -> (info: Self)
        ensures
            info.message is None,
    {
        PanicInfo { message: None }
    }
}

/// The message of a panic, out of what its payload is known to be: a literal or an owned string, if
/// either.
pub fn panic_message(literal: Option<&str>, owned: Option<&String>) -> (message: Option<String>)
    ensures
        match message {
            Some(text) => if literal is Some {
                text@ == literal->0@
            } else {
                owned is Some && text@ == owned->0@
            },
            None => literal is None && owned is None,
        },
{
    match literal {
        Some(text) => Some(String::from_str(text)),
        None => match owned {
            Some(text) => Some(text.clone()),
            None => None,
        },
    }
}

/// Why a task was cancelled.
#[derive(Debug, Clone, Copy, PartialEq, Eq, Structural)]
pub enum AbortReason {
    /// The owner cancelled it.
    Owner,
    /// The stop ran out of time.
    Timeout,
    /// The host dropped it.
    HostShutdown,
}

/// How a task ended.
#[derive(Debug)]
pub enum TaskOutcome<C> {
    /// It ran to the end.
    Completed,
    /// It returned an error.
    Failed(Error<C>),
    /// It panicked.
    Panicked(PanicInfo),
    /// It was cancelled.
    Aborted(AbortReason),
}

/// How a task ended, without the details.
#[derive(Debug, Clone, Copy, PartialEq, Eq, Structural)]
pub enum TaskOutcomeKind {
    Completed,
    Failed,
    Panicked,
    AbortedByOwner,
    AbortedByTimeout,
    AbortedByHost,
}

/// The event that tells of a task that returned an error.
#[derive(Debug)]
pub struct TaskFailed<C> {
    pub task_id: TaskId,
    pub error: Arc<Error<C>>,
}

impl<C> Clone for TaskOutcome<C> {
    fn clone(&self) -> (copy: Self)
        ensures
            copy == *self,
    {
        match self {
            TaskOutcome::Completed => TaskOutcome::Completed,
            TaskOutcome::Failed(error) => TaskOutcome::Failed(error.clone()),
            TaskOutcome::Panicked(info) => TaskOutcome::Panicked(info.clone()),
            TaskOutcome::Aborted(reason) => TaskOutcome::Aborted(*reason),
        }
    }
}

/// The error that reports a task that failed or panicked.
pub open spec fn task_failed<C>(task_id: TaskId) -> Error<C> {
    Error::plain(Phase::Stop, ErrorKind::TaskFailed { task_id })
}

/// The error that reports a task that was cancelled because the stop ran out of time.
pub open spec fn task_aborted<C>(task_id: TaskId) -> Error<C> {
    Error::plain(Phase::Stop, ErrorKind::TaskAborted { task_id })
}

impl TaskOutcomeKind {
    /// What a stop reports of a task that ended so, as far as that depends on the ending alone.
    pub open spec fn reported<C>(self, task_id: TaskId) -> Option<Error<C>> {
        match self {
            TaskOutcomeKind::Panicked => Some(task_failed::<C>(task_id)),
            TaskOutcomeKind::AbortedByTimeout => Some(task_aborted::<C>(task_id)),
            _ => None,
        }
    }

    /// What a stop reports of a task that ended so, as far as that depends on the ending alone.
    pub fn drain_error<C>(self, task_id: TaskId) -> (error: Option<Error<C>>)
        ensures
            error == self.reported::<C>(task_id),
    {
        match self {
            TaskOutcomeKind::Panicked => Some(
                Error::new(Phase::Stop, ErrorKind::TaskFailed { task_id }),
            ),
            TaskOutcomeKind::AbortedByTimeout => Some(
                Error::new(Phase::Stop, ErrorKind::TaskAborted { task_id }),
            ),
            TaskOutcomeKind::Completed | TaskOutcomeKind::Failed | TaskOutcomeKind::AbortedByOwner
            | TaskOutcomeKind::AbortedByHost => None,
        }
    }
}

impl<C> TaskOutcome<C> {
    /// The outcome without the details.
    pub open spec fn kind_is(self) -> TaskOutcomeKind {
        match self {
            TaskOutcome::Completed => TaskOutcomeKind::Completed,
            TaskOutcome::Failed(_) => TaskOutcomeKind::Failed,
            TaskOutcome::Panicked(_) => TaskOutcomeKind::Panicked,
            TaskOutcome::Aborted(AbortReason::Owner) => TaskOutcomeKind::AbortedByOwner,
            TaskOutcome::Aborted(AbortReason::Timeout) => TaskOutcomeKind::AbortedByTimeout,
            TaskOutcome::Aborted(AbortReason::HostShutdown) => TaskOutcomeKind::AbortedByHost,
        }
    }

    /// The outcome without the details.
    pub fn kind(&self) -> (kind: TaskOutcomeKind)
        ensures
            kind == self.kind_is(),
    {
        match self {
            TaskOutcome::Completed => TaskOutcomeKind::Completed,
            TaskOutcome::Failed(_) => TaskOutcomeKind::Failed,
            TaskOutcome::Panicked(_) => TaskOutcomeKind::Panicked,
            TaskOutcome::Aborted(reason) => match reason {
                AbortReason::Owner => TaskOutcomeKind::AbortedByOwner,
                AbortReason::Timeout => TaskOutcomeKind::AbortedByTimeout,
                AbortReason::HostShutdown => TaskOutcomeKind::AbortedByHost,
            },
        }
    }

    /// Whether the task ran to the end without an error.
    pub fn is_success(&self) -> (success: bool)
        ensures
            success == (self is Completed),
    {
        matches!(self, TaskOutcome::Completed)
    }

    /// What a stop reports of a task that ended so: a panic, and a cancellation for lack of time.
    /// An error that the task returned is told by an event instead.
    pub fn drain_error(&self, task_id: TaskId) -> (error: Option<Error<C>>)
        ensures
            error == match *self {
                TaskOutcome::Panicked(_) => Some(task_failed::<C>(task_id)),
                TaskOutcome::Aborted(AbortReason::Timeout) => Some(task_aborted::<C>(task_id)),
                _ => None,
            },
    {
        self.kind().drain_error(task_id)
    }

    /// The outcome as a `Result`: the task's own error, or that it panicked. A cancellation is no
    /// error.
    pub fn into_result(self, task_id: TaskId) -> (result: Result<(), Error<C>>)
        ensures
            result == match self {
                TaskOutcome::Failed(error) => Err(error),
                TaskOutcome::Panicked(_) => Err(task_failed::<C>(task_id)),
                _ => Ok(()),
            },
    {
        match self {
            TaskOutcome::Completed => Ok(()),
            TaskOutcome::Failed(error) => Err(error),
            TaskOutcome::Panicked(_) => Err(
                Error::new(Phase::Stop, ErrorKind::TaskFailed { task_id }),
            ),
            TaskOutcome::Aborted(_) => Ok(()),
        }
    }
}

/// How the body of a task came to an end.
pub enum BodyEnd<C> {
    Done,
    Failed(Error<C>),
    /// It panicked, with this message where there was one.
    Panicked(Option<String>),
}

/// The state of one task. `W` is whatever wakes a waiter.
pub struct TaskCell<C, W> {
    pub id: TaskId,
    /// How the task can be cancelled. It is there from before the task is entered into the table.
    pub abort: Option<Switch>,
    /// Fires when the outcome is settled.
    pub finished: Waiters<W>,
    /// How the task ended. Whoever writes it first wins.
    pub outcome: Option<TaskOutcome<C>>,
    /// Whether the event that tells of the task's error was delivered in full.
    pub report_settled: bool,
}

impl<C, W> TaskCell<C, W> {
    /// Once the signal has fired there is an outcome.
    pub open spec fn wf(self) -> bool {
        &&& self.finished.wf()
        &&& self.finished.fired ==> self.outcome is Some
    }

    /// Whether the stop has to report the task: it panicked, was cancelled for lack of time, or
    /// returned an error that no event told of.
    pub open spec fn must_report(self) -> bool {
        match self.outcome {
            Some(TaskOutcome::Panicked(_)) => true,
            Some(TaskOutcome::Aborted(AbortReason::Timeout)) => true,
            Some(TaskOutcome::Failed(_)) => !self.report_settled,
            _ => false,
        }
    }

    /// What the stop reports of the task.
    pub open spec fn report(self) -> Option<Error<C>> {
        match self.outcome {
            Some(TaskOutcome::Panicked(_)) => Some(task_failed::<C>(self.id)),
            Some(TaskOutcome::Aborted(AbortReason::Timeout)) => Some(task_aborted::<C>(self.id)),
            Some(TaskOutcome::Failed(_)) => if self.report_settled {
                None
            } else {
                Some(task_failed::<C>(self.id))
            },
            _ => None,
        }
    }

    /// What is reported after `errors` and then the task, if there is anything to report of it.
    pub open spec fn reported(self, errors: Seq<Error<C>>) -> Seq<Error<C>> {
        match self.report() {
            Some(error) => errors.push(error),
            None => errors,
        }
    }

    /// What waiting for the task during a stop leads to: it has ended; where the time ran out, it
    /// was cancelled, and has that as its outcome unless it had one before.
    pub open spec fn drained(self, timed_out: bool, after: Self) -> bool {
        &&& after.wf()
        &&& after.finished.fired
        &&& after.id == self.id
        &&& timed_out ==> after.pulled(self)
        &&& !timed_out ==> after.abort == self.abort
        &&& after.report_settled == self.report_settled
        &&& after.outcome == if timed_out {
            self.outcome_after(TaskOutcome::Aborted(AbortReason::Timeout))
        } else {
            self.outcome
        }
    }

    /// Whether the outcome in `after` is the one that there was, if there was one.
    pub open spec fn keeps_outcome(self, after: Self) -> bool {
        after.outcome == self.outcome || exists|outcome: TaskOutcome<C>|
            after.outcome == #[trigger] self.outcome_after(outcome)
    }

    /// Whether the task must stay in the table: it has not ended, or is still to be reported.
    pub open spec fn must_keep(self) -> bool {
        !self.finished.fired || self.must_report()
    }

    /// Whether the task was asked to end, where it can be.
    pub open spec fn pulled(self, before: Self) -> bool {
        match before.abort {
            Some(switch) => self.abort matches Some(after) && after.handle() == switch.handle()
                && after.pulled(),
            None => self.abort is None,
        }
    }

    /// The outcome after somebody tries to write `outcome`.
    pub open spec fn outcome_after(self, outcome: TaskOutcome<C>) -> Option<TaskOutcome<C>> {
        if self.outcome is Some {
            self.outcome
        } else {
            Some(outcome)
        }
    }

    /// A task that has not ended.
    pub fn new(id: TaskId) -> (cell: Self)
        ensures
            cell.wf(),
            cell.id == id,
            !cell.finished.fired,
            cell.outcome is None,
            cell.abort is None,
            !cell.report_settled,
    {
        TaskCell { id, abort: None, finished: Waiters::new(), outcome: None, report_settled: false }
    }

    /// The task's id.
    pub fn id(&self) -> (id: TaskId)
        ensures
            id == self.id,
    {
        self.id
    }

    /// Notes how the task can be cancelled.
    pub fn attach(&mut self, abort: tokio::task::AbortHandle)
        requires
            old(self).wf(),
        ensures
            final(self).wf(),
            old(self).keeps_outcome(*final(self)),
            final(self).abort matches Some(switch) && switch.handle() == abort && !switch.pulled(),
            *final(self) == (TaskCell { abort: final(self).abort, ..*old(self) }),
    {
        self.abort = Some(Switch::new(abort));
    }

    /// Whether the outcome is settled.
    pub fn is_finished(&self) -> (finished: bool)
        ensures
            finished == self.finished.fired,
    {
        self.finished.is_fired()
    }

    /// Writes the outcome, unless there is one. Tells whether it was written.
    pub fn set_outcome(&mut self, outcome: TaskOutcome<C>) -> (written: bool)
        requires
            old(self).wf(),
        ensures
            final(self).wf(),
            old(self).keeps_outcome(*final(self)),
            written == (old(self).outcome is None),
            final(self).outcome == old(self).outcome_after(outcome),
            final(self).id == old(self).id,
            final(self).abort == old(self).abort,
            final(self).finished == old(self).finished,
            final(self).report_settled == old(self).report_settled,
    {
        if self.outcome.is_none() {
            self.outcome = Some(outcome);
            true
        } else {
            false
        }
    }

    /// Writes the outcome, unless there is one, and fires the signal. Hands back the wakers of
    /// those who waited.
    pub fn finish(&mut self, outcome: TaskOutcome<C>) -> (wakers: Vec<W>)
        requires
            old(self).wf(),
        ensures
            final(self).wf(),
            old(self).keeps_outcome(*final(self)),
            final(self).outcome == old(self).outcome_after(outcome),
            final(self).finished.fired,
            final(self).id == old(self).id,
            final(self).abort == old(self).abort,
            final(self).report_settled == old(self).report_settled,
            wakers@ == Waiters::wakers(old(self).finished.slots@, old(self).finished.slots@.len()),
    {
        self.set_outcome(outcome);
        self.finished.fire_all()
    }

    /// Cancels the task: the outcome says so, unless there is one already, and the signal fires.
    /// Tells whether it was this that ended the task.
    pub fn abort(&mut self, by_owner: bool) -> (result: (bool, Vec<W>))
        requires
            old(self).wf(),
        ensures
            final(self).wf(),
            old(self).keeps_outcome(*final(self)),
            result.0 == (old(self).outcome is None),
            final(self).outcome == old(self).outcome_after(
                TaskOutcome::Aborted(
                    if by_owner {
                        AbortReason::Owner
                    } else {
                        AbortReason::Timeout
                    },
                ),
            ),
            final(self).finished.fired,
            final(self).id == old(self).id,
            final(self).pulled(*old(self)),
            final(self).report_settled == old(self).report_settled,
            result.1@ == Waiters::wakers(old(self).finished.slots@, old(self).finished.slots@.len()),
    {
        let reason = if by_owner {
            AbortReason::Owner
        } else {
            AbortReason::Timeout
        };
        let initiated = self.set_outcome(TaskOutcome::Aborted(reason));
        if let Some(switch) = &mut self.abort {
            switch.pull();
        }
        let wakers = self.finished.fire_all();
        (initiated, wakers)
    }

    /// Takes note of how the task's body ended. Where it returned an error, the outcome is
    /// written but the signal does not fire yet: the event that is returned has to be told
    /// first, and then [`TaskCell::report_ended`].
    pub fn body_ended(&mut self, end: BodyEnd<C>) -> (result: (Option<TaskFailed<C>>, Vec<W>))
        requires
            old(self).wf(),
        ensures
            final(self).wf(),
            old(self).keeps_outcome(*final(self)),
            final(self).id == old(self).id,
            final(self).abort == old(self).abort,
            final(self).report_settled == old(self).report_settled,
            match end {
                BodyEnd::Done => {
                    &&& final(self).outcome == old(self).outcome_after(TaskOutcome::Completed)
                    &&& final(self).finished.fired
                    &&& result.0 is None
                    &&& result.1@ == Waiters::wakers(
                        old(self).finished.slots@,
                        old(self).finished.slots@.len(),
                    )
                },
                BodyEnd::Failed(error) => {
                    &&& final(self).outcome == old(self).outcome_after(TaskOutcome::Failed(error))
                    &&& final(self).finished == old(self).finished
                    &&& result.0 == Some(
                        TaskFailed { task_id: old(self).id, error: Arc::new(error) },
                    )
                    &&& result.1@.len() == 0
                },
                BodyEnd::Panicked(message) => {
                    &&& final(self).outcome == old(self).outcome_after(
                        TaskOutcome::Panicked((PanicInfo { message })),
                    )
                    &&& final(self).finished.fired
                    &&& result.0 is None
                    &&& result.1@ == Waiters::wakers(
                        old(self).finished.slots@,
                        old(self).finished.slots@.len(),
                    )
                },
            },
    {
        match end {
            BodyEnd::Done => (None, self.finish(TaskOutcome::Completed)),
            BodyEnd::Failed(error) => {
                let shared = Arc::new(error.clone());
                self.set_outcome(TaskOutcome::Failed(error));
                (Some(TaskFailed { task_id: self.id, error: shared }), Vec::new())
            },
            BodyEnd::Panicked(message) => (
                None,
                self.finish(TaskOutcome::Panicked(PanicInfo { message })),
            ),
        }
    }

    /// Takes note of how telling the event of the task's error ended, and fires the signal. Only
    /// where the event was delivered in full is the error no longer to be reported by the stop.
    pub fn report_ended(&mut self, delivered: bool) -> (wakers: Vec<W>)
        requires
            old(self).wf(),
            old(self).outcome is Some,
        ensures
            final(self).wf(),
            old(self).keeps_outcome(*final(self)),
            final(self).id == old(self).id,
            final(self).abort == old(self).abort,
            final(self).outcome == old(self).outcome,
            final(self).report_settled == (old(self).report_settled || delivered),
            final(self).finished.fired,
            wakers@ == Waiters::wakers(old(self).finished.slots@, old(self).finished.slots@.len()),
    {
        if delivered {
            self.report_settled = true;
        }
        self.finished.fire_all()
    }

    /// Takes note that the task is gone, whether or not it took note of its own end: where the
    /// signal has not fired, it does so now, and where there is no outcome, it is a panic if the
    /// task was unwinding, and else that the host dropped the task.
    pub fn dropped(&mut self, panicking: bool) -> (wakers: Vec<W>)
        requires
            old(self).wf(),
        ensures
            final(self).wf(),
            old(self).keeps_outcome(*final(self)),
            final(self).finished.fired,
            final(self).id == old(self).id,
            final(self).abort == old(self).abort,
            final(self).report_settled == old(self).report_settled,
            old(self).finished.fired ==> *final(self) == *old(self) && wakers@.len() == 0,
            !old(self).finished.fired ==> {
                &&& final(self).outcome == old(self).outcome_after(
                    if panicking {
                        TaskOutcome::Panicked((PanicInfo { message: None }))
                    } else {
                        TaskOutcome::Aborted(AbortReason::HostShutdown)
                    },
                )
                &&& wakers@ == Waiters::wakers(
                    old(self).finished.slots@,
                    old(self).finished.slots@.len(),
                )
            },
    {
        if self.is_finished() {
            return Vec::new();
        }
        let outcome = if panicking {
            TaskOutcome::Panicked(PanicInfo { message: None })
        } else {
            TaskOutcome::Aborted(AbortReason::HostShutdown)
        };
        self.finish(outcome)
    }

    /// The outcome, if there is one.
    pub fn peek_outcome(&self) -> (outcome: Option<TaskOutcome<C>>)
        ensures
            outcome == self.outcome,
    {
        match &self.outcome {
            Some(outcome) => Some(outcome.clone()),
            None => None,
        }
    }

    /// The outcome of a task that has ended.
    pub fn outcome(&self) -> (outcome: TaskOutcome<C>)
        requires
            self.wf(),
            self.finished.fired,
        ensures
            Some(outcome) == self.outcome,
    {
        self.peek_outcome().unwrap()
    }

    /// The outcome without the details, if there is one.
    pub fn outcome_kind(&self) -> (kind: Option<TaskOutcomeKind>)
        ensures
            kind == match self.outcome {
                Some(outcome) => Some(outcome.kind_is()),
                None => None,
            },
    {
        match &self.outcome {
            Some(outcome) => Some(outcome.kind()),
            None => None,
        }
    }

    /// Whether the stop has to report the task.
    pub fn needs_drain_report(&self) -> (needed: bool)
        ensures
            needed == self.must_report(),
    {
        match self.outcome_kind() {
            Some(TaskOutcomeKind::Failed) => !self.report_settled,
            Some(TaskOutcomeKind::Panicked | TaskOutcomeKind::AbortedByTimeout) => true,
            _ => false,
        }
    }

    /// Whether the task must stay in the table.
    pub fn must_stay(&self) -> (stay: bool)
        ensures
            stay == self.must_keep(),
    {
        !self.is_finished() || self.needs_drain_report()
    }

    /// What the stop reports of a task whose outcome is known.
    pub fn drain_report_error(&self) -> (error: Option<Error<C>>)
        requires
            self.outcome is Some,
        ensures
            error == self.report(),
            error is Some <==> self.must_report(),
    {
        let kind = self.outcome_kind().unwrap();
        if matches!(kind, TaskOutcomeKind::Failed) && !self.report_settled {
            return Some(Error::new(Phase::Stop, ErrorKind::TaskFailed { task_id: self.id }));
        }
        kind.drain_error(self.id)
    }

    /// The last step of waiting for a task during a stop: where the time ran out, the task is
    /// cancelled; then its report, if there is one, is added to `errors`.
    pub fn drain(&mut self, timed_out: bool, errors: &mut Vec<Error<C>>) -> (wakers: Vec<W>)
        requires
            old(self).wf(),
            timed_out || old(self).finished.fired,
        ensures
            old(self).drained(timed_out, *final(self)),
            old(self).keeps_outcome(*final(self)),
            final(errors)@ == final(self).reported(old(errors)@),
            timed_out ==> wakers@ == Waiters::wakers(
                old(self).finished.slots@,
                old(self).finished.slots@.len(),
            ),
            !timed_out ==> wakers@.len() == 0,
    {
        let wakers = if timed_out {
            self.abort(false).1
        } else {
            Vec::new()
        };
        match self.drain_report_error() {
            Some(error) => {
                errors.push(error);
            },
            None => {},
        }
        wakers
    }
}

/// An outcome, once written, is never replaced, whatever happens to the task and in which order: a
/// task that ended before it was cancelled keeps its own outcome, and a panic is still reported.
pub proof fn the_first_outcome_stays<C, W>(states: Seq<TaskCell<C, W>>, a: int, b: int)
    requires
        forall|i: int, k: int|
            0 <= i && k == i + 1 && k < states.len() ==> #[trigger] states[i].keeps_outcome(states[k]),
        0 <= a <= b < states.len(),
        states[a].outcome is Some,
    ensures
        states[b].outcome == states[a].outcome,
    decreases b - a,
{
    if a < b {
        the_first_outcome_stays(states, a, b - 1);
        assert(states[b - 1].keeps_outcome(states[b]));
    }
}

/// How many tasks the table holds before it is first thinned out.
pub const COMPACT_BASE: usize = 4;

/// The table of a scope's tasks.
pub struct TaskRegistry<T> {
    pub tasks: Vec<T>,
    pub next_id: u64,
    /// The length at which the table is thinned out next.
    pub compact_at: usize,
}

/// The items of `tasks` whose flag is set, in order.
pub open spec fn select<T>(tasks: Seq<T>, keep: Seq<bool>) -> Seq<T>
    decreases tasks.len(),
{
    if tasks.len() == 0 {
        Seq::empty()
    } else {
        let before = select(tasks.drop_last(), keep);
        if keep[tasks.len() - 1] {
            before.push(tasks.last())
        } else {
            before
        }
    }
}

/// Whether `flags` are answers of `keep` on `tasks`.
pub open spec fn answers<T, F: Fn(&T) -> bool>(keep: F, tasks: Seq<T>, flags: Seq<bool>) -> bool {
    &&& flags.len() == tasks.len()
    &&& forall|i: int| 0 <= i < tasks.len() ==> call_ensures(keep, (&#[trigger] tasks[i],), flags[i])
}

/// The length at which a table that has just been thinned out to `len` is thinned out next.
pub open spec fn next_threshold(len: nat) -> nat {
    let doubled = if 2 * len > usize::MAX {
        usize::MAX as nat
    } else {
        2 * len
    };
    if doubled < COMPACT_BASE {
        COMPACT_BASE as nat
    } else {
        doubled
    }
}

impl<T> TaskRegistry<T> {
    /// An empty table.
    pub fn new() -> (registry: Self)
        ensures
            registry.tasks@.len() == 0,
            registry.next_id == 0,
            registry.compact_at == COMPACT_BASE,
    {
        TaskRegistry { tasks: Vec::new(), next_id: 0, compact_at: COMPACT_BASE }
    }

    /// Thins out the table: only the tasks for which `keep` answers yes stay.
    fn retain<F: Fn(&T) -> bool>(&mut self, keep: F)
        requires
            forall|i: int|
                0 <= i < old(self).tasks@.len() ==> call_requires(
                    keep,
                    (&#[trigger] old(self).tasks@[i],),
                ),
        ensures
            exists|flags: Seq<bool>| #[trigger]
                answers(keep, old(self).tasks@, flags) && final(self).tasks@ == select(
                    old(self).tasks@,
                    flags,
                ),
            final(self).next_id == old(self).next_id,
            final(self).compact_at == old(self).compact_at,
    {
        let ghost before = self.tasks@;
        let mut rest: Vec<T> = Vec::new();
        rest.append(&mut self.tasks);
        let ghost mut flags: Seq<bool> = Seq::empty();
        let mut kept: Vec<T> = Vec::new();
        assert(rest@ =~= before);
        assert(before.take(0) =~= Seq::empty());
        for task in it: rest
            invariant
                it.seq() == before,
                kept@ == select(before.take(it.index() as int), flags),
                flags.len() == it.index(),
                forall|i: int|
                    0 <= i < before.len() ==> call_requires(keep, (&#[trigger] before[i],)),
                forall|i: int|
                    0 <= i < it.index() ==> call_ensures(keep, (&#[trigger] before[i],), flags[i]),
        {
            let ghost k = it.index() as int;
            assert(task == before[k]);
            let stay = keep(&task);
            let ghost old_flags = flags;
            proof {
                flags = flags.push(stay);
                assert(before.take(k + 1).drop_last() =~= before.take(k));
                lemma_select_prefix(before.take(k), old_flags, flags);
            }
            if stay {
                kept.push(task);
            }
        }
        assert(before.take(before.len() as int) =~= before);
        self.tasks = kept;
        assert(answers(keep, before, flags));
    }

    /// Decides whether a task may be spawned, and gives it its id.
    ///
    /// It may not where there is no task runtime, or where the scope takes no new work any more.
    /// A table that has reached its threshold is thinned out first; `keep` says which tasks must
    /// stay. The ids wrap around at the end of the number range.
    pub fn reserve<C, F: Fn(&T) -> bool>(
        &mut self,
        has_runtime: bool,
        shutting_down: bool,
        keep: F,
    ) -> (id: Result<TaskId, Error<C>>)
        requires
            forall|i: int|
                0 <= i < old(self).tasks@.len() ==> call_requires(
                    keep,
                    (&#[trigger] old(self).tasks@[i],),
                ),
        ensures
            id == if !has_runtime {
                Err(Error::<C>::plain(Phase::Build, ErrorKind::NoTaskRuntime))
            } else if shutting_down {
                Err(Error::<C>::plain(Phase::Build, ErrorKind::Stopping))
            } else {
                Ok(TaskId(old(self).next_id))
            },
            id is Err ==> *final(self) == *old(self),
            id is Ok ==> final(self).next_id == if old(self).next_id == u64::MAX {
                0
            } else {
                old(self).next_id + 1
            },
            id is Ok && old(self).tasks@.len() < old(self).compact_at ==> final(self).tasks@ == old(self).tasks@ && final(self).compact_at == old(self).compact_at,
            id is Ok && old(self).tasks@.len() >= old(self).compact_at ==> {
                &&& exists|flags: Seq<bool>| #[trigger]
                    answers(keep, old(self).tasks@, flags) && final(self).tasks@ == select(
                        old(self).tasks@,
                        flags,
                    )
                &&& final(self).compact_at == next_threshold(final(self).tasks@.len())
            },
    {
        if !has_runtime {
            return Err(Error::new(Phase::Build, ErrorKind::NoTaskRuntime));
        }
        if shutting_down {
            return Err(Error::new(Phase::Build, ErrorKind::Stopping));
        }
        if self.tasks.len() >= self.compact_at {
            self.retain(keep);
            let len = self.tasks.len();
            let doubled: usize = if len > usize::MAX / 2 {
                usize::MAX
            } else {
                len * 2
            };
            self.compact_at = if doubled < COMPACT_BASE {
                COMPACT_BASE
            } else {
                doubled
            };
        }
        let id = TaskId(self.next_id);
        self.next_id = if self.next_id == u64::MAX {
            0
        } else {
            self.next_id + 1
        };
        Ok(id)
    }

    /// Decides whether a task may be spawned from the calling thread, as
    /// [`TaskRegistry::reserve`] says. Gives the task runtime to spawn it on, and its id.
    pub fn begin_spawn<C, F: Fn(&T) -> bool>(&mut self, shutting_down: bool, keep: F) -> (result:
        Result<(tokio::runtime::Handle, TaskId), Error<C>>)
        requires
            forall|i: int|
                0 <= i < old(self).tasks@.len() ==> call_requires(
                    keep,
                    (&#[trigger] old(self).tasks@[i],),
                ),
        ensures
            match result {
                Ok((_, id)) => !shutting_down && id == TaskId(old(self).next_id),
                Err(error) => {
                    &&& *final(self) == *old(self)
                    &&& error == Error::<C>::plain(Phase::Build, ErrorKind::NoTaskRuntime) || (
                    shutting_down && error == Error::<C>::plain(
                        Phase::Build,
                        ErrorKind::Stopping,
                    ))
                },
            },
            result is Ok ==> final(self).next_id == if old(self).next_id == u64::MAX {
                0
            } else {
                old(self).next_id + 1
            },
            result is Ok && old(self).tasks@.len() < old(self).compact_at ==> final(self).tasks@
                == old(self).tasks@ && final(self).compact_at == old(self).compact_at,
            result is Ok && old(self).tasks@.len() >= old(self).compact_at ==> {
                &&& exists|flags: Seq<bool>| #[trigger]
                    answers(keep, old(self).tasks@, flags) && final(self).tasks@ == select(
                        old(self).tasks@,
                        flags,
                    )
                &&& final(self).compact_at == next_threshold(final(self).tasks@.len())
            },
    {
        let handle = current_runtime();
        let id = match self.reserve(handle.is_some(), shutting_down, keep) {
            Ok(id) => id,
            Err(error) => {
                return Err(error);
            },
        };
        Ok((handle.unwrap(), id))
    }

    /// Enters a spawned task into the table.
    pub fn publish(&mut self, task: T)
        ensures
            final(self).tasks@ == old(self).tasks@.push(task),
            final(self).next_id == old(self).next_id,
            final(self).compact_at == old(self).compact_at,
    {
        self.tasks.push(task);
    }

    /// How many tasks the table holds.
    pub fn len(&self) -> (n: usize)
        ensures
            n == self.tasks@.len(),
    {
        self.tasks.len()
    }

    /// How many tasks are active, where `active` tells of each whether it is.
    pub fn task_count<F: Fn(&T) -> bool>(&self, active: F) -> (n: usize)
        requires
            forall|i: int|
                0 <= i < self.tasks@.len() ==> call_requires(active, (&#[trigger] self.tasks@[i],)),
        ensures
            exists|flags: Seq<bool>| #[trigger]
                answers(active, self.tasks@, flags) && n == select(self.tasks@, flags).len(),
    {
        let ghost mut flags: Seq<bool> = Seq::empty();
        let mut n: usize = 0;
        let mut i: usize = 0;
        assert(self.tasks@.take(0) =~= Seq::empty());
        while i < self.tasks.len()
            invariant
                i <= self.tasks@.len(),
                n <= i,
                flags.len() == i,
                n == select(self.tasks@.take(i as int), flags).len(),
                forall|k: int|
                    0 <= k < self.tasks@.len() ==> call_requires(
                        active,
                        (&#[trigger] self.tasks@[k],),
                    ),
                forall|k: int|
                    0 <= k < i ==> call_ensures(active, (&#[trigger] self.tasks@[k],), flags[k]),
            decreases self.tasks@.len() - i,
        {
            let yes = active(&self.tasks[i]);
            let ghost old_flags = flags;
            proof {
                flags = flags.push(yes);
                assert(self.tasks@.take(i as int + 1).drop_last() =~= self.tasks@.take(i as int));
                lemma_select_prefix(self.tasks@.take(i as int), old_flags, flags);
            }
            if yes {
                n = n + 1;
            }
            i = i + 1;
        }
        assert(self.tasks@.take(i as int) =~= self.tasks@);
        assert(answers(active, self.tasks@, flags));
        n
    }

    /// The task that a stop waits for next: the one entered last.
    pub fn tail(&self) -> (task: Option<&T>)
        ensures
            task == if self.tasks@.len() == 0 {
                None
            } else {
                Some(&self.tasks@.last())
            },
    {
        if self.tasks.len() == 0 {
            None
        } else {
            Some(&self.tasks[self.tasks.len() - 1])
        }
    }

    /// Takes the task entered last out of the table.
    pub fn pop(&mut self) -> (task: Option<T>)
        ensures
            old(self).popped(task, *final(self)),
    {
        self.tasks.pop()
    }

    /// What taking out the task entered last leads to.
    pub open spec fn popped(self, task: Option<T>, after: Self) -> bool {
        &&& after.next_id == self.next_id
        &&& after.compact_at == self.compact_at
        &&& task == if self.tasks@.len() == 0 {
            None
        } else {
            Some(self.tasks@.last())
        }
        &&& after.tasks@ == if self.tasks@.len() == 0 {
            self.tasks@
        } else {
            self.tasks@.drop_last()
        }
    }
}

/// One step of draining a table: the task that was waited for, as it was then and afterwards.
pub struct DrainStep<C, W> {
    pub found: TaskCell<C, W>,
    pub timed_out: bool,
    pub ended: TaskCell<C, W>,
}

/// What the stop reports of the tasks that `steps` drained, in that order.
pub open spec fn reports<C, W>(steps: Seq<DrainStep<C, W>>) -> Seq<Error<C>>
    decreases steps.len(),
{
    if steps.len() == 0 {
        Seq::empty()
    } else {
        steps.last().ended.reported(reports(steps.drop_last()))
    }
}

/// Whether the tables and the errors are what draining goes through: in each step the task entered
/// last, whose id `id_of` tells, is waited for until it has ended or the time has run out, is taken
/// out of the table, and is reported.
pub open spec fn drain_run<T, C, W>(
    tables: Seq<TaskRegistry<T>>,
    errors: Seq<Seq<Error<C>>>,
    steps: Seq<DrainStep<C, W>>,
    id_of: spec_fn(T) -> TaskId,
) -> bool {
    &&& tables.len() == steps.len() + 1
    &&& errors.len() == steps.len() + 1
    &&& forall|k: int|
        0 <= k < steps.len() ==> {
            let step = #[trigger] steps[k];
            let tasks = tables[k].tasks@;
            &&& tasks.len() > 0
            &&& tables[k].popped(Some(tasks.last()), tables[k + 1])
            &&& step.found.wf()
            &&& step.found.id == id_of(tasks.last())
            &&& step.timed_out || step.found.finished.fired
            &&& step.found.drained(step.timed_out, step.ended)
            &&& errors[k + 1] == step.ended.reported(errors[k])
        }
}

/// Draining takes every task out of the table exactly once, the one entered last first, until none
/// is left; each has ended then. What is reported is what was reported before, and after that what
/// there is to report of each task, in the order in which they were drained.
pub proof fn a_drain_reports_each_task_once_last_first<T, C, W>(
    tables: Seq<TaskRegistry<T>>,
    errors: Seq<Seq<Error<C>>>,
    steps: Seq<DrainStep<C, W>>,
    id_of: spec_fn(T) -> TaskId,
)
    requires
        drain_run(tables, errors, steps, id_of),
    ensures
        steps.len() <= tables[0].tasks@.len(),
        tables.last().tasks@ == tables[0].tasks@.take(tables[0].tasks@.len() - steps.len()),
        tables.last().tasks@.len() == 0 <==> steps.len() == tables[0].tasks@.len(),
        forall|k: int|
            0 <= k < steps.len() ==> (#[trigger] steps[k]).ended.finished.fired && steps[k].ended.id
                == id_of(tables[0].tasks@[tables[0].tasks@.len() - 1 - k]),
        errors.last() == errors[0] + reports(steps),
    decreases steps.len(),
{
    if steps.len() == 0 {
        assert(tables[0].tasks@.take(tables[0].tasks@.len() as int) =~= tables[0].tasks@);
        assert(errors[0] + reports(steps) =~= errors[0]);
    } else {
        let n = steps.len() - 1;
        let fewer = steps.drop_last();
        assert forall|k: int| 0 <= k < fewer.len() implies ({
            let step = #[trigger] fewer[k];
            let tasks = tables.drop_last()[k].tasks@;
            &&& tasks.len() > 0
            &&& tables.drop_last()[k].popped(Some(tasks.last()), tables.drop_last()[k + 1])
            &&& step.found.wf()
            &&& step.found.id == id_of(tasks.last())
            &&& step.timed_out || step.found.finished.fired
            &&& step.found.drained(step.timed_out, step.ended)
            &&& errors.drop_last()[k + 1] == step.ended.reported(errors.drop_last()[k])
        }) by {
            assert(fewer[k] == steps[k]);
        }
        a_drain_reports_each_task_once_last_first(
            tables.drop_last(),
            errors.drop_last(),
            fewer,
            id_of,
        );
        assert(tables.drop_last().last() == tables[n]);
        assert(errors.drop_last().last() == errors[n]);
        let last = steps[n];
        let all = tables[0].tasks@;
        let before = tables[n].tasks@;
        assert(before.last() == all[all.len() - 1 - n]);
        assert(tables.last().tasks@ =~= all.take(all.len() - steps.len()));
        assert forall|k: int| 0 <= k < steps.len() implies (
        #[trigger] steps[k]).ended.finished.fired && steps[k].ended.id == id_of(
            all[all.len() - 1 - k],
        ) by {
            if k < n {
                assert(fewer[k] == steps[k]);
            }
        }
        assert(errors.last() =~= errors[0] + reports(steps));
    }
}

proof fn lemma_select_prefix<T>(tasks: Seq<T>, one: Seq<bool>, other: Seq<bool>)
    requires
        tasks.len() <= one.len(),
        tasks.len() <= other.len(),
        forall|i: int| 0 <= i < tasks.len() ==> one[i] == other[i],
    ensures
        select(tasks, one) == select(tasks, other),
    decreases tasks.len(),
{
    if tasks.len() > 0 {
        lemma_select_prefix(tasks.drop_last(), one, other);
    }
}

/// Thinning out keeps every task that has not ended and every task that is still to be reported,
/// so that no report is lost however many tasks are spawned later.
pub proof fn thinning_out_loses_no_report<C, W>(
    tasks: Seq<TaskCell<C, W>>,
    flags: Seq<bool>,
    i: int,
)
    requires
        flags.len() == tasks.len(),
        forall|k: int| 0 <= k < tasks.len() ==> flags[k] == (#[trigger] tasks[k]).must_keep(),
        0 <= i < tasks.len(),
        tasks[i].must_keep(),
    ensures
        select(tasks, flags).contains(tasks[i]),
    decreases tasks.len(),
{
    let whole = select(tasks, flags);
    if i == tasks.len() - 1 {
        assert(whole[whole.len() - 1] == tasks[i]);
    } else {
        let front = tasks.drop_last();
        let front_flags = flags.drop_last();
        assert forall|k: int| 0 <= k < front.len() implies front_flags[k] == (
        #[trigger] front[k]).must_keep() by {
            assert(front[k] == tasks[k]);
        }
        thinning_out_loses_no_report(front, front_flags, i);
        lemma_select_prefix(front, front_flags, flags);
        let before = select(front, flags);
        let k = choose|k: int| 0 <= k < before.len() && before[k] == front[i];
        assert(whole[k] == tasks[i]);
    }
}

} // verus!
