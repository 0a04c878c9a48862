//! How tasks end, and what is told of them.

use vstd::prelude::*;

use crate::error::{Error, ErrorKind, Phase};
use crate::id::TaskId;
use crate::tasks::{
    AbortReason, DrainStep, TaskCell, TaskOutcome, TaskOutcomeKind, TaskRegistry,
};

verus! {

/// A stop reports a task exactly where it panicked, was cancelled for lack of time, or failed and no
/// event told of that. The report names the task. A task is kept until it has ended and there is
/// nothing left to report of it.
pub proof fn a_stop_reports_what_nobody_was_told<C, W>(cell: TaskCell<C, W>)
    ensures
        cell.report() is Some <==> match cell.outcome {
            None => false,
            Some(TaskOutcome::Completed) => false,
            Some(TaskOutcome::Failed(_)) => !cell.report_settled,
            Some(TaskOutcome::Panicked(_)) => true,
            Some(TaskOutcome::Aborted(reason)) => reason == AbortReason::Timeout,
        },
        cell.report() matches Some(error) ==> {
            &&& error.phase == Phase::Stop
            &&& error.plugin is None
            &&& error.source is None
            &&& (cell.outcome matches Some(TaskOutcome::Aborted(_))) ==> (
            error.kind matches ErrorKind::TaskAborted { task_id } && task_id == cell.id)
            &&& !(cell.outcome matches Some(TaskOutcome::Aborted(_))) ==> (
            error.kind matches ErrorKind::TaskFailed { task_id } && task_id == cell.id)
        },
        cell.must_report() <==> cell.report() is Some,
        cell.must_keep() <==> !cell.finished.fired || cell.report() is Some,
{
}

/// What is told of an ending alone: a panic and a cancellation for lack of time are errors that name
/// the task, and nothing else is.
pub proof fn an_ending_alone_tells_of_panics_and_timeouts<C>(outcome: TaskOutcome<C>, id: TaskId)
    ensures
        ({
            let told = outcome.kind_is().reported::<C>(id);
            match outcome {
                TaskOutcome::Panicked(_) => told matches Some(error) && error.phase == Phase::Stop
                    && error.plugin is None && error.source is None && (
                error.kind matches ErrorKind::TaskFailed { task_id } && task_id == id),
                TaskOutcome::Aborted(AbortReason::Timeout) => told matches Some(error)
                    && error.phase == Phase::Stop && error.plugin is None && error.source is None && (
                error.kind matches ErrorKind::TaskAborted { task_id } && task_id == id),
                _ => told is None,
            }
        }),
        outcome is Failed <==> outcome.kind_is() == TaskOutcomeKind::Failed,
        outcome is Completed <==> outcome.kind_is() == TaskOutcomeKind::Completed,
        outcome is Panicked <==> outcome.kind_is() == TaskOutcomeKind::Panicked,
        (outcome matches TaskOutcome::Aborted(AbortReason::Owner)) <==> outcome.kind_is()
            == TaskOutcomeKind::AbortedByOwner,
        (outcome matches TaskOutcome::Aborted(AbortReason::Timeout)) <==> outcome.kind_is()
            == TaskOutcomeKind::AbortedByTimeout,
        (outcome matches TaskOutcome::Aborted(AbortReason::HostShutdown)) <==> outcome.kind_is()
            == TaskOutcomeKind::AbortedByHost,
{
}

/// The first outcome that is written stays; a later one is not written. A task that has none yet
/// takes the one that is written.
pub proof fn the_first_outcome_is_kept<C, W>(
    cell: TaskCell<C, W>,
    outcome: TaskOutcome<C>,
    after: TaskCell<C, W>,
)
    ensures
        cell.outcome is Some ==> cell.outcome_after(outcome) == cell.outcome,
        cell.outcome is None ==> cell.outcome_after(outcome) == Some(outcome),
        cell.keeps_outcome(after) && cell.outcome is Some ==> after.outcome == cell.outcome,
        cell.outcome is Some && after.outcome != cell.outcome ==> !cell.keeps_outcome(after),
{
}

/// A task that a stop has waited for has ended, and is the same task. Where the time ran out it was
/// asked to end, and has that for its outcome unless it had one; else it is as it was.
pub proof fn a_drained_task_has_ended<C, W>(
    before: TaskCell<C, W>,
    timed_out: bool,
    after: TaskCell<C, W>,
)
    requires
        before.drained(timed_out, after),
    ensures
        after.finished.fired,
        after.id == before.id,
        after.report_settled == before.report_settled,
        before.outcome is Some ==> after.outcome == before.outcome,
        !timed_out ==> after.outcome == before.outcome && after.abort == before.abort,
        timed_out && before.outcome is None ==> after.outcome == Some(
            TaskOutcome::<C>::Aborted(AbortReason::Timeout),
        ),
        timed_out && before.abort is Some ==> after.abort is Some && after.abort->0.pulled()
            && after.abort->0.handle() == before.abort->0.handle(),
        timed_out && before.abort is None ==> after.abort is None,
{
}

/// What a drain reports is, task by task in the order of the drain, what there is to report of it.
pub proof fn a_drain_reports_what_each_task_has<C, W>(steps: Seq<DrainStep<C, W>>)
    ensures
        crate::tasks::reports(steps) == steps.filter(
            |step: DrainStep<C, W>| step.ended.report() is Some,
        ).map_values(|step: DrainStep<C, W>| step.ended.report()->0),
    decreases steps.len(),
{
    let telling = |step: DrainStep<C, W>| step.ended.report() is Some;
    let told = |step: DrainStep<C, W>| step.ended.report()->0;
    crate::laws::numbers::lemma_filter_step(steps, telling);
    if steps.len() == 0 {
        assert(steps.filter(telling).map_values(told) =~= Seq::empty());
    } else {
        a_drain_reports_what_each_task_has(steps.drop_last());
        if telling(steps.last()) {
            assert(steps.filter(telling).map_values(told) =~= steps.drop_last().filter(
                telling,
            ).map_values(told).push(told(steps.last())));
        }
    }
}

/// Thinning out a table leaves exactly the tasks that were to be kept, each once, in order.
pub proof fn thinning_out_leaves_what_is_kept<T>(tasks: Seq<T>, keep: Seq<bool>)
    requires
        keep.len() == tasks.len(),
    ensures
        crate::tasks::select(tasks, keep) == Seq::new(tasks.len(), |i: int| i).filter(
            |i: int| keep[i],
        ).map_values(|i: int| tasks[i]),
        (forall|i: int| 0 <= i < tasks.len() ==> #[trigger] keep[i]) ==> crate::tasks::select(
            tasks,
            keep,
        ) == tasks,
    decreases tasks.len(),
{
    lemma_select(tasks, keep, tasks.len());
    assert(tasks.take(tasks.len() as int) =~= tasks);
    if forall|i: int| 0 <= i < tasks.len() ==> #[trigger] keep[i] {
        lemma_select_all(tasks, keep);
    }
}

proof fn lemma_select<T>(tasks: Seq<T>, keep: Seq<bool>, k: nat)
    requires
        k <= tasks.len(),
    ensures
        crate::tasks::select(tasks.take(k as int), keep) == Seq::new(k, |i: int| i).filter(
            |i: int| keep[i],
        ).map_values(|i: int| tasks[i]),
    decreases k,
{
    let kept = |i: int| keep[i];
    let task = |i: int| tasks[i];
    crate::laws::numbers::lemma_numbers_filter(k, kept);
    let all = Seq::new(k, |i: int| i);
    if k == 0 {
        assert(all.filter(kept).map_values(task) =~= Seq::empty());
    } else {
        lemma_select(tasks, keep, (k - 1) as nat);
        assert(tasks.take(k as int).drop_last() =~= tasks.take(k - 1));
        let before = Seq::new((k - 1) as nat, |i: int| i);
        if keep[k - 1] {
            assert(all.filter(kept).map_values(task) =~= before.filter(kept).map_values(task).push(
                task(k - 1),
            ));
        }
    }
}

proof fn lemma_select_all<T>(tasks: Seq<T>, keep: Seq<bool>)
    requires
        tasks.len() <= keep.len(),
        forall|i: int| 0 <= i < tasks.len() ==> #[trigger] keep[i],
    ensures
        crate::tasks::select(tasks, keep) == tasks,
    decreases tasks.len(),
{
    if tasks.len() > 0 {
        lemma_select_all(tasks.drop_last(), keep);
        assert(keep[tasks.len() - 1]);
        assert(tasks.drop_last().push(tasks.last()) =~= tasks);
    } else {
        assert(tasks =~= Seq::empty());
    }
}

/// After a table was thinned out, as many tasks as it kept can be entered before that is done again,
/// and never fewer than four in all.
pub proof fn a_table_is_thinned_out_when_it_has_doubled(len: nat)
    requires
        len <= usize::MAX,
    ensures
        crate::tasks::next_threshold(len) >= 4,
        crate::tasks::next_threshold(len) >= len,
        2 * len <= usize::MAX && 2 * len >= 4 ==> crate::tasks::next_threshold(len) == 2
            * len,
        2 * len < 4 ==> crate::tasks::next_threshold(len) == 4,
        crate::tasks::next_threshold(len) <= usize::MAX,
{
}

/// The task that is taken out of a table is the one entered last, and the others stay.
pub proof fn the_last_task_is_taken_out<T>(
    before: TaskRegistry<T>,
    task: Option<T>,
    after: TaskRegistry<T>,
)
    requires
        before.popped(task, after),
    ensures
        task is None <==> before.tasks@.len() == 0,
        task matches Some(taken) ==> before.tasks@ == after.tasks@.push(taken),
        task is None ==> after.tasks@ == before.tasks@,
        after.next_id == before.next_id,
        after.compact_at == before.compact_at,
{
    if before.tasks@.len() > 0 {
        assert(before.tasks@ =~= after.tasks@.push(before.tasks@.last()));
    }
}

/// What there is to report of a task comes after all that was reported before; where there is
/// nothing, nothing is added.
pub proof fn a_report_comes_last<C, W>(cell: TaskCell<C, W>, errors: Seq<Error<C>>)
    ensures
        cell.report() is None ==> cell.reported(errors) == errors,
        cell.report() matches Some(error) ==> cell.reported(errors) == errors.push(error),
{
}

/// Which tasks are to be kept is what was answered of each, one answer for each.
pub proof fn what_is_kept_was_asked<T, F: Fn(&T) -> bool>(
    keep: F,
    tasks: Seq<T>,
    flags: Seq<bool>,
    i: int,
)
    requires
        crate::tasks::answers(keep, tasks, flags),
    ensures
        flags.len() == tasks.len(),
        0 <= i < tasks.len() ==> call_ensures(keep, (&tasks[i],), flags[i]),
{
}

} // verus!
