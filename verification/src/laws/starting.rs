//! What a start does.

use vstd::prelude::*;

use crate::context::Host;
use crate::error::{Error, ErrorKind, Phase};
use crate::runtime::{Runtime, StartStage, StartStep};
use crate::schedule::{PluginRecord, Schedule};
use crate::scope::{Lifecycle, ScopeCore};

verus! {

/// The errors of a batch are exactly the failures of its plugins, in order: there is one for each
/// result that is an error, labelled with the start and with the plugin's own name, unless it names
/// one already. So there is none exactly where every plugin has started.
pub proof fn a_batch_fails_exactly_where_a_plugin_does<P, C>(
    plugins: Seq<PluginRecord<P>>,
    batch: Seq<usize>,
    results: Seq<Result<(), Error<C>>>,
)
    ensures
        crate::runtime::batch_errors(plugins, batch, results, results.len()) == Seq::new(
            results.len(),
            |i: int| i,
        ).filter(|i: int| results[i] is Err).map_values(
            |i: int|
                Error {
                    phase: Phase::Start,
                    plugin: if results[i]->Err_0.plugin is Some {
                        results[i]->Err_0.plugin
                    } else {
                        Some(plugins[batch[i] as int].info.name)
                    },
                    kind: results[i]->Err_0.kind,
                    source: results[i]->Err_0.source,
                },
        ),
        crate::runtime::batch_errors(plugins, batch, results, results.len()).len() == 0 <==> forall|
            i: int,
        |
            0 <= i < results.len() ==> (#[trigger] results[i]) is Ok,
{
    lemma_batch_errors(plugins, batch, results, results.len());
    let failed = |i: int| results[i] is Err;
    let all = Seq::new(results.len(), |i: int| i);
    crate::laws::numbers::lemma_filter_members(all, failed);
    if exists|i: int| 0 <= i < results.len() && (#[trigger] results[i]) is Err {
        let i = choose|i: int| 0 <= i < results.len() && (#[trigger] results[i]) is Err;
        assert(failed(all[i]));
        assert(all.filter(failed).contains(all[i]));
    }
    if all.filter(failed).len() > 0 {
        let i = all.filter(failed)[0];
        assert(all.contains(i) && failed(i));
        assert(results[i] is Err);
    }
}

proof fn lemma_batch_errors<P, C>(
    plugins: Seq<PluginRecord<P>>,
    batch: Seq<usize>,
    results: Seq<Result<(), Error<C>>>,
    k: nat,
)
    ensures
        crate::runtime::batch_errors(plugins, batch, results, k) == Seq::new(
            k,
            |i: int| i,
        ).filter(|i: int| results[i] is Err).map_values(
            |i: int|
                Error {
                    phase: Phase::Start,
                    plugin: if results[i]->Err_0.plugin is Some {
                        results[i]->Err_0.plugin
                    } else {
                        Some(plugins[batch[i] as int].info.name)
                    },
                    kind: results[i]->Err_0.kind,
                    source: results[i]->Err_0.source,
                },
        ),
    decreases k,
{
    let failed = |i: int| results[i] is Err;
    let label = |i: int|
        Error {
            phase: Phase::Start,
            plugin: if results[i]->Err_0.plugin is Some {
                results[i]->Err_0.plugin
            } else {
                Some(plugins[batch[i] as int].info.name)
            },
            kind: results[i]->Err_0.kind,
            source: results[i]->Err_0.source,
        };
    let all = Seq::new(k, |i: int| i);
    crate::laws::numbers::lemma_numbers_filter(k, failed);
    if k == 0 {
        assert(all.filter(failed).map_values(label) =~= Seq::empty());
    } else {
        let before = Seq::new((k - 1) as nat, |i: int| i);
        lemma_batch_errors(plugins, batch, results, (k - 1) as nat);
        if results[k - 1] is Err {
            assert(all.filter(failed).map_values(label) =~= before.filter(failed).map_values(
                label,
            ).push(label(k - 1)));
        }
    }
}

/// A start that has failed tells every failure, in one error that is kept: the scope is failed, and
/// nothing goes on.
pub proof fn a_failed_start_tells_every_failure<H: Host, W>(
    runtime: Runtime<H>,
    errors: Seq<Error<H::Cause>>,
    step: StartStep<H::Cause>,
    core: ScopeCore<W>,
)
    requires
        runtime.failed_with(errors, step, core),
    ensures
        core.lifecycle == Lifecycle::Failed,
        step matches StartStep::Done(Err(error)) && runtime.start_error == Some(error)
            && error.phase == Phase::Start && error.plugin is None && error.source is None && (
        error.kind matches ErrorKind::Multiple(list) && list@ == errors),
        runtime.stage == StartStage::Idle,
{
}

/// The plugins that were launched with the first `k` batches are those of the batches, one batch
/// after the other.
pub proof fn what_was_launched_is_in_the_batches(batches: Seq<Vec<usize>>, k: nat)
    requires
        k <= batches.len(),
    ensures
        crate::runtime::launched(batches, k) == batches.take(k as int).map_values(
            |batch: Vec<usize>| batch@,
        ).flatten(),
        forall|x: usize| #[trigger]
            crate::runtime::launched(batches, k).contains(x) <==> exists|i: int|
                0 <= i < k && (#[trigger] batches[i])@.contains(x),
    decreases k,
{
    let view = |batch: Vec<usize>| batch@;
    let whole = crate::runtime::launched(batches, k);
    let parts = batches.take(k as int).map_values(view);
    if k == 0 {
        assert(parts =~= Seq::empty());
    } else {
        let before = crate::runtime::launched(batches, (k - 1) as nat);
        what_was_launched_is_in_the_batches(batches, (k - 1) as nat);
        let fewer = batches.take(k - 1).map_values(view);
        assert(parts =~= fewer.push(batches[k - 1]@));
        fewer.lemma_flatten_push(batches[k - 1]@);
        assert forall|x: usize| #[trigger] whole.contains(x) <==> exists|i: int|
            0 <= i < k && (#[trigger] batches[i])@.contains(x) by {
            if whole.contains(x) {
                let p = choose|p: int| 0 <= p < whole.len() && whole[p] == x;
                if p < before.len() {
                    assert(before[p] == x);
                    assert(before.contains(x));
                } else {
                    assert(batches[k - 1]@[p - before.len()] == x);
                    assert(batches[k - 1]@.contains(x));
                }
            }
            if exists|i: int| 0 <= i < k && (#[trigger] batches[i])@.contains(x) {
                let i = choose|i: int| 0 <= i < k && (#[trigger] batches[i])@.contains(x);
                if i == k - 1 {
                    let q = choose|q: int| 0 <= q < batches[i]@.len() && batches[i]@[q] == x;
                    assert(whole[before.len() + q] == x);
                } else {
                    assert(before.contains(x));
                    let p = choose|p: int| 0 <= p < before.len() && before[p] == x;
                    assert(whole[p] == x);
                }
            }
        }
    }
}

/// A serial start launches the plugins one by one, in the order of the schedule; else its layers are
/// launched, each together and as it stands.
pub proof fn a_start_launches_the_schedule(
    schedule: Schedule,
    serial: bool,
    batches: Seq<Vec<usize>>,
    i: int,
)
    requires
        crate::runtime::batched(schedule, serial, batches),
    ensures
        batches.len() == if serial {
            schedule.order@.len()
        } else {
            schedule.layers@.len()
        },
        serial && 0 <= i < batches.len() ==> batches[i]@.len() == 1 && batches[i]@[0]
            == schedule.order@[i],
        !serial && 0 <= i < batches.len() ==> batches[i]@ == schedule.layers@[i]@,
{
    if serial && 0 <= i < batches.len() {
        assert(batches[i]@ == seq![schedule.order@[i]]);
    }
}

/// A start launches its next batch as long as there is one, then runs its next ready hook as long as
/// there is one, and only then is the scope running. What counts as started is every plugin of the
/// batches up to the one that is launched.
pub proof fn a_start_ends_after_its_last_hook<H: Host, W>(
    runtime: Runtime<H>,
    k: int,
    step: StartStep<H::Cause>,
    core: ScopeCore<W>,
)
    requires
        0 <= k,
    ensures
        runtime.at_batch(k, step, core) ==> {
            let past = k >= runtime.batches@.len();
            let upto = if past {
                runtime.batches@
            } else {
                runtime.batches@.take(k + 1)
            };
            &&& runtime.started@ == upto.map_values(|batch: Vec<usize>| batch@).flatten()
            &&& !past ==> {
                &&& step matches StartStep::Launch(batch) && batch@ == runtime.batches@[k]@
                &&& runtime.stage == StartStage::Plugins(k as usize)
                &&& core.lifecycle == Lifecycle::Starting
            }
            &&& past && runtime.ready@.len() > 0 ==> {
                &&& step matches StartStep::Ready(hook) && hook == 0
                &&& runtime.stage == StartStage::Ready(0)
                &&& core.lifecycle == Lifecycle::Starting
            }
            &&& past && runtime.ready@.len() == 0 ==> {
                &&& step matches StartStep::Done(Ok(_))
                &&& runtime.stage == StartStage::Idle
                &&& core.lifecycle == Lifecycle::Running
            }
        },
        runtime.at_ready(k, step, core) ==> {
            &&& k < runtime.ready@.len() ==> {
                &&& step matches StartStep::Ready(hook) && hook == k as usize
                &&& runtime.stage == StartStage::Ready(k as usize)
                &&& core.lifecycle == Lifecycle::Starting
            }
            &&& k >= runtime.ready@.len() ==> {
                &&& step matches StartStep::Done(Ok(_))
                &&& runtime.stage == StartStage::Idle
                &&& core.lifecycle == Lifecycle::Running
            }
        },
{
    if k < runtime.batches@.len() {
        what_was_launched_is_in_the_batches(runtime.batches@, (k + 1) as nat);
    } else {
        what_was_launched_is_in_the_batches(runtime.batches@, runtime.batches@.len());
        assert(runtime.batches@.take(runtime.batches@.len() as int) =~= runtime.batches@);
    }
}

/// The course of a start leaves the plugins, the hooks, the lease and any cleanup as they are.
pub proof fn a_start_leaves_the_parts_as_they_are<H: Host>(before: Runtime<H>, after: Runtime<H>)
    requires
        after.same_parts(before),
    ensures
        after.ctx == before.ctx,
        after.plugins == before.plugins,
        after.ready == before.ready,
        after.dispose == before.dispose,
        after.cleanup == before.cleanup,
        after.lease == before.lease,
{
}

/// In a runtime in which nothing was started, nothing is to be stopped and nothing has failed.
pub proof fn a_fresh_runtime_has_started_nothing<H: Host>(runtime: Runtime<H>)
    requires
        runtime.fresh(),
    ensures
        runtime.started@.len() == 0,
        runtime.start_error is None,
        runtime.batches@.len() == 0,
        runtime.stage == StartStage::Idle,
        runtime.cleanup is None,
        !runtime.active,
{
}

} // verus!
