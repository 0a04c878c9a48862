//! What a stop does, and what it tells.

use vstd::prelude::*;

use crate::context::Host;
use crate::error::{Error, ErrorKind, Phase};
use crate::runtime::{Cleanup, CleanupStage, CleanupStep, Runtime, StopOutcome, UnitEnd};
use crate::scope::{Lifecycle, ScopeCore};

verus! {

/// The plan of a cleanup, step by step: the plugin that started last is stopped first, and so on;
/// then the tasks are waited for, then the notifications; then the dispose hooks run in order. There
/// is no other step.
pub proof fn a_cleanup_has_these_steps(started: Seq<usize>, hooks: nat)
    ensures
        crate::runtime::cleanup_plan(started, hooks).len() == started.len() + 2 + hooks,
        forall|i: int|
            0 <= i < started.len() ==> #[trigger] crate::runtime::cleanup_plan(started, hooks)[i]
                == CleanupStep::StopPlugin(started[started.len() - 1 - i]),
        crate::runtime::cleanup_plan(started, hooks)[started.len() as int]
            == CleanupStep::DrainTasks,
        crate::runtime::cleanup_plan(started, hooks)[started.len() as int + 1]
            == CleanupStep::DrainNotify,
        forall|i: int|
            started.len() + 2 <= i < started.len() + 2 + hooks
                ==> #[trigger] crate::runtime::cleanup_plan(started, hooks)[i]
                == CleanupStep::Dispose((i - started.len() - 2) as usize),
{
}

/// What is left of a cleanup is the end of its plan: in each stage, the steps from that stage on.
pub proof fn what_is_left_of_a_cleanup_is_the_end_of_its_plan<C, D>(
    cleanup: Cleanup<C, D>,
    hooks: nat,
)
    ensures
        ({
            let left = cleanup.remaining(hooks);
            let plan = crate::runtime::cleanup_plan(cleanup.started@, hooks);
            let stops = cleanup.started@.len() as int;
            match cleanup.stage {
                CleanupStage::Plugins => left == plan,
                CleanupStage::Tasks => left == plan.skip(stops),
                CleanupStage::Notify => left == plan.skip(stops + 1),
                CleanupStage::Dispose(k) => k <= hooks ==> left == plan.skip(stops + 2 + k),
                CleanupStage::Finished => left.len() == 0,
            }
        }),
{
    let left = cleanup.remaining(hooks);
    let plan = crate::runtime::cleanup_plan(cleanup.started@, hooks);
    let stops = cleanup.started@.len() as int;
    match cleanup.stage {
        CleanupStage::Plugins => {},
        CleanupStage::Tasks => {
            assert(left =~= plan.skip(stops));
        },
        CleanupStage::Notify => {
            assert(left =~= plan.skip(stops + 1));
        },
        CleanupStage::Dispose(k) => {
            if k <= hooks {
                assert(left =~= plan.skip(stops + 2 + k));
            }
        },
        CleanupStage::Finished => {},
    }
}

/// A step of a cleanup that goes wrong is one error more, at the end, and holds up nothing: the next
/// step is the one after it, and the plugins, the hooks, the deadline and the error of a failed
/// start stay.
pub proof fn an_error_does_not_hold_up_a_cleanup<H: Host>(
    before: Runtime<H>,
    added: Seq<Error<H::Cause>>,
    after: Runtime<H>,
)
    requires
        before.moves_on(added, after),
    ensures
        after.cleanup is Some,
        after.cleanup->0.errors@ == before.cleanup->0.errors@ + added,
        after.cleanup->0.deadline == before.cleanup->0.deadline,
        after.cleanup->0.remaining(after.dispose@.len()) == before.cleanup->0.remaining(
            before.dispose@.len(),
        ).skip(1),
        after.plugins == before.plugins,
        after.dispose == before.dispose,
        after.start_error == before.start_error,
        after.lease == before.lease,
        after.ctx == before.ctx,
        after.ready == before.ready,
        after.started == before.started,
        after.schedule == before.schedule,
        after.batches == before.batches,
        after.stage == before.stage,
        after.active == before.active,
{
}

/// A plugin or hook that ends well is no error; one that returns an error or panics is exactly one,
/// labelled with the phase, and with the plugin unless it names one already. Its own kind and cause
/// stay; a panic keeps its message.
pub proof fn a_piece_of_user_code_makes_at_most_one_error<C>(
    phase: Phase,
    plugin: Option<&'static str>,
    end: UnitEnd<C>,
)
    ensures
        crate::runtime::unit_error(phase, plugin, end) is None <==> (end matches UnitEnd::Returned(
            Ok(_),
        )),
        (end matches UnitEnd::Returned(Ok(_))) ==> crate::runtime::unit_errors(
            phase,
            plugin,
            end,
        ).len() == 0,
        !(end matches UnitEnd::Returned(Ok(_))) ==> crate::runtime::unit_errors(
            phase,
            plugin,
            end,
        ).len() == 1,
        crate::runtime::unit_error(phase, plugin, end) matches Some(error) ==> {
            &&& error.phase == phase
            &&& crate::runtime::unit_errors(phase, plugin, end)[0] == error
            &&& end matches UnitEnd::Returned(Err(own)) ==> error.kind == own.kind && error.source
                == own.source && error.plugin == if own.plugin is Some {
                own.plugin
            } else {
                plugin
            }
            &&& end matches UnitEnd::Panicked(text) ==> error.plugin == plugin && error.source is None
                && (error.kind matches ErrorKind::LifecyclePanicked { message } && message == text)
        },
{
}

/// A stop that came through without an error is a success. One that did not is an error of the
/// phase `Stop`, which holds all its errors in order; one that is blocked is an error that names the
/// blockers.
pub proof fn a_stop_succeeds_only_without_an_error<C>(outcome: StopOutcome<C>)
    ensures
        outcome.as_result() is Ok <==> (outcome matches StopOutcome::Stopped { errors }
            && errors@.len() == 0),
        outcome.clean() <==> outcome.as_result() is Ok,
        outcome.as_result() matches Err(error) ==> {
            &&& error.phase == Phase::Stop
            &&& error.plugin is None
            &&& error.source is None
            &&& match outcome {
                StopOutcome::Stopped { errors } => error.kind matches ErrorKind::Multiple(list)
                    && list@ == errors@,
                StopOutcome::Blocked(blockers) => error.kind matches ErrorKind::StopBlocked(named)
                    && named == blockers,
            }
        },
        outcome matches StopOutcome::Stopped { errors } ==> outcome.errors_are() == errors@,
        outcome is Blocked ==> outcome.errors_are().len() == 0,
{
}

/// Before each dispose hook there is a stage of its own, and after the last one the cleanup is
/// finished.
pub proof fn a_cleanup_ends_after_its_last_hook(k: nat, hooks: nat)
    requires
        hooks <= usize::MAX,
    ensures
        k >= hooks <==> Cleanup::<(), ()>::dispose_stage(k, hooks) == CleanupStage::Finished,
        k < hooks ==> (Cleanup::<(), ()>::dispose_stage(k, hooks) matches CleanupStage::Dispose(i)
            && i == k),
{
}

/// To drop a scope that was not stopped is told by how far its stop had come; where children hold
/// it up, they are named.
pub proof fn a_dropped_scope_is_told_by_its_stop<H: Host, W>(core: ScopeCore<W>)
    ensures
        ({
            let told = Runtime::<H>::diagnosis(core);
            &&& core.lifecycle == Lifecycle::Stopping ==> told
                == "Runtime dropped while stopping: cleanup did not complete and plugin resources or dispose hooks were not fully reclaimed"@
            &&& core.lifecycle == Lifecycle::Closing && core.children@.len() == 0 ==> told
                == "Runtime dropped after stop() was blocked: the blocking scopes were reclaimed but stop() was not retried, so cleanup never ran"@
            &&& core.lifecycle == Lifecycle::Closing && core.children@.len() > 0 ==> told
                == "Runtime dropped after stop() was blocked by active child scopes (ids: ["@
                + crate::id::ids_text(core.children@, core.children@.len())
                + "]); drop or stop those scopes, then retry stop()"@
            &&& core.lifecycle != Lifecycle::Stopping && core.lifecycle != Lifecycle::Closing ==> told
                == "Runtime dropped without stop(): plugin resources and dispose hooks were not reclaimed"@
        }),
{
    reveal_strlit("[");
    reveal_strlit("]");
    reveal_strlit("Runtime dropped after stop() was blocked by active child scopes (ids: ");
    reveal_strlit("Runtime dropped after stop() was blocked by active child scopes (ids: [");
    reveal_strlit("); drop or stop those scopes, then retry stop()");
    reveal_strlit("]); drop or stop those scopes, then retry stop()");
}

} // verus!
