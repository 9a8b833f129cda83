//! What holds of every run of the scheduler, proved on its mathematical model.

use vstd::prelude::*;
use crate::cache::{
    caches, entry_of, law_insert_then_lookup, lemma_output_names_len, output_names, tag_view,
    CacheEntryView, CacheModeView,
};
use crate::dag::dag::{distinct, produced_by, ProvidedFile};
use crate::dag::execution::{outputs_of, Execution, ExecutionGroup, ExecutionResultView};
use crate::dag::file::{ExecutionUuid, FileUuid, WorkerUuid};
use crate::exec::invariants::{
    ends, is_work, keeps, lemma_best_upto, lemma_distinct_members, lemma_frame_keeps,
    lemma_keeps_twice, lemma_members_over_bound, lemma_members_over_none, lemma_resolve_actions,
    lemma_retained_all, lemma_run, lemma_settle_fixpoint, lemma_settle_groups,
    lemma_taken_in_keeps, lemma_waiting_bound, mentions, over, well_placed, works, Law,
};
use crate::exec::model::{
    after, all_reported, cached_reports, cached_results, done_notices, newly_ready, outcomes,
    reported_keys, resolve, retained_all, with_entries, with_pending, with_provided,
    worker_uuids, ActionView, DependencyKey, FileState, GroupState, Registry, SchedulerView,
    WorkerSlot,
};
use crate::exec::runs::{fresh, holds_after, next, run, taken_in, Event};
use crate::exec::scheduler::lemma_registry_lengths;
use crate::exec::steps::{
    goes_first, lemma_cascade_settled, lemma_failure_cascades, lemma_goes_first,
    lemma_outcomes_dead, lemma_step_frame, outranks, produces, reads,
};
use crate::search::{first_position, lemma_first_position, lemma_first_where, lemma_occurs};
use crate::store::{
    blob_keys, content_of, evicted, holds, law_eviction, lemma_evicted_well_formed, well_formed,
    BlobView, FileStoreKey,
};

verus! {

/// Priority decides what runs next: the group that is given to a worker is
/// ready, no ready group has a larger priority, and among the ready groups of
/// that priority it was declared first.
pub proof fn law_priority(view: SchedulerView, other: int)
    requires
        view.best_ready() < view.groups.len(),
        0 <= other < view.groups.len(),
        view.ready(other),
    ensures
        0 <= view.best_ready(),
        view.ready(view.best_ready()),
        view.priority(other) < view.priority(view.best_ready()) || (view.priority(other)
            == view.priority(view.best_ready()) && view.best_ready() <= other),
{
    lemma_best_upto(view, view.groups.len());
}

/// Where a group is ready, there is a best one.
pub proof fn law_ready_group_is_found(view: SchedulerView, g: int)
    requires
        0 <= g < view.groups.len(),
        view.ready(g),
    ensures
        view.best_ready() < view.groups.len(),
{
    lemma_best_upto(view, view.groups.len());
}

/// An idle worker takes the best ready group: where no group is doomed and no
/// ready group is answered by the cache, the next step gives the best ready
/// group to the first idle worker.
pub proof fn law_dispatch_takes_the_best(view: SchedulerView)
    requires
        view.wf(),
        view.first_doomed() >= view.groups.len(),
        view.first_hit() >= view.groups.len(),
        view.idle_worker() < view.workers.len(),
        view.best_ready() < view.groups.len(),
    ensures
        view.settle_step() == Some(view.dispatched(view.idle_worker(), view.best_ready())),
        view.settle_step()->0.view.states[view.best_ready()] == GroupState::Running(
            view.workers[view.idle_worker()].uuid,
        ),
        view.settle_step()->0.actions[0] is Work,
        view.settle_step()->0.actions[0]->keys == view.keys(
            view.dependencies(view.best_ready()),
        ),
{
    lemma_best_upto(view, view.groups.len());
    lemma_first_where(
        view.workers.len(),
        |w: int| view.workers[w].asking && view.workers[w].job is None,
    );
}

/// A result taken from the cache is marked as such, and no worker is
/// involved: where a ready group is the first that the cache answers and no
/// group is doomed, the next step ends it, each member with the result that
/// the cache holds under its fingerprint and with the mark of the cache, and
/// the step gives no work to any worker.
pub proof fn law_cache_hit_skips_the_worker(view: SchedulerView, g: int)
    requires
        view.wf(),
        0 <= g < view.groups.len(),
        view.first_doomed() >= view.groups.len(),
        view.first_hit() == g,
    ensures
        view.ready(g),
        view.group_hit(g),
        view.settle_step() == Some(view.from_cache(g)),
        view.from_cache(g).view.states[g] == GroupState::Done,
        view.from_cache(g).view.workers == view.workers,
        forall|i: int|
            0 <= i < view.from_cache(g).actions.len() ==> !(
            #[trigger] view.from_cache(g).actions[i] is Work),
        forall|m: int|
            0 <= m < view.groups[g].executions@.len() ==> {
                let notice = #[trigger] view.from_cache(g).actions[m];
                let execution = view.groups[g].executions@[m];
                &&& entry_of(view.cache, view.print(execution)) is Some
                &&& notice == (ActionView::Done {
                    execution: execution.uuid,
                    result: ExecutionResultView {
                        was_cached: true,
                        ..entry_of(view.cache, view.print(execution))->0.result
                    },
                })
            },
{
    lemma_first_where(view.groups.len(), |g: int| view.ready(g) && view.group_hit(g));
    let step = view.from_cache(g);
    let executions = view.groups[g].executions@;
    let results = cached_results(view, executions);
    let notices = done_notices(executions, results);
    lemma_resolve_actions(
        view.files,
        view.file_states,
        view.outputs(g),
        outcomes(
            view.store,
            executions,
            results,
            cached_reports(view, executions),
        ),
    );
    assert forall|i: int| 0 <= i < step.actions.len() implies !(#[trigger] step.actions[i] is Work) by {
        if i < notices.len() {
            assert(step.actions[i] == notices[i]);
        }
    }
    assert forall|m: int| 0 <= m < executions.len() implies {
        let notice = #[trigger] step.actions[m];
        let execution = executions[m];
        &&& entry_of(view.cache, view.print(execution)) is Some
        &&& notice == (ActionView::Done {
            execution: execution.uuid,
            result: ExecutionResultView {
                was_cached: true,
                ..entry_of(view.cache, view.print(execution))->0.result
            },
        })
    } by {
        assert(step.actions[m] == notices[m]);
        assert(view.hit(executions[m]));
    }
}

/// Whether the cache answers every group that is ready.
pub open spec fn all_answered(view: SchedulerView) -> bool {
    forall|g: int| 0 <= g < view.groups.len() && #[trigger] view.ready(g) ==> view.group_hit(g)
}

/// Whether the cache answers every group that is ready, now and after each
/// of the next `fuel` steps of settling.
pub open spec fn answered_throughout(view: SchedulerView, fuel: nat) -> bool
    decreases fuel,
{
    &&& all_answered(view)
    &&& fuel > 0 && view.settle_step() is Some ==> answered_throughout(
        view.settle_step()->0.view,
        (fuel - 1) as nat,
    )
}

/// Whether the actions involve no worker: none gives work or tells of a
/// start, and each result that they tell of is marked as taken from the cache.
pub open spec fn from_the_cache(actions: Seq<ActionView>) -> bool {
    forall|i: int|
        0 <= i < actions.len() ==> match #[trigger] actions[i] {
            ActionView::Work { .. } => false,
            ActionView::Started { .. } => false,
            ActionView::Done { result, .. } => result.was_cached,
            _ => true,
        }
}

/// What the cache answers reaches no worker, however many steps are taken.
pub proof fn lemma_answered(view: SchedulerView, fuel: nat)
    requires
        view.wf(),
        answered_throughout(view, fuel),
    ensures
        from_the_cache(view.settle(fuel).actions),
    decreases fuel,
{
    if fuel > 0 && view.settle_step() is Some {
        let step = view.settle_step()->0;
        let rest = step.view.settle((fuel - 1) as nat);
        let all = view.settle(fuel).actions;
        assert(all == step.actions + rest.actions);
        lemma_step_frame(view);
        lemma_best_upto(view, view.groups.len());
        lemma_first_where(view.groups.len(), |g: int| view.ready(g) && view.group_hit(g));
        lemma_answered(step.view, (fuel - 1) as nat);
        if view.first_doomed() < view.groups.len() {
            assert forall|i: int| 0 <= i < step.actions.len() implies (
            #[trigger] step.actions[i]) is Skipped by {}
        } else if view.first_hit() < view.groups.len() {
            let g = view.first_hit();
            law_cache_hit_skips_the_worker(view, g);
            let executions = view.groups[g].executions@;
            let announced = resolve(
                view.files,
                view.file_states,
                view.outputs(g),
                outcomes(
                    view.store,
                    executions,
                    cached_results(view, executions),
                    cached_reports(view, executions),
                ),
            );
            lemma_resolve_actions(
                view.files,
                view.file_states,
                view.outputs(g),
                outcomes(
                    view.store,
                    executions,
                    cached_results(view, executions),
                    cached_reports(view, executions),
                ),
            );
            assert forall|i: int| 0 <= i < step.actions.len() implies match #[trigger] step.actions[i] {
                ActionView::Work { .. } => false,
                ActionView::Started { .. } => false,
                ActionView::Done { result, .. } => result.was_cached,
                _ => true,
            } by {
                if i >= executions.len() {
                    assert(step.actions[i] == announced.actions[i - executions.len()]);
                }
            }
        } else {
            let best = view.best_ready();
            assert(view.ready(best));
            assert(view.group_hit(best));
            assert((|g: int| view.ready(g) && view.group_hit(g))(best));
        }
        assert forall|i: int| 0 <= i < all.len() implies match #[trigger] all[i] {
            ActionView::Work { .. } => false,
            ActionView::Started { .. } => false,
            ActionView::Done { result, .. } => result.was_cached,
            _ => true,
        } by {
            if i < step.actions.len() {
                assert(all[i] == step.actions[i]);
            } else {
                assert(all[i] == rest.actions[i - step.actions.len()]);
            }
        }
    }
}

/// A run that the cache answers reaches no worker: where the cache answers
/// every group at the time at which it is ready, settling gives no group to a
/// worker, tells of no start, and marks each result that it tells of as taken
/// from the cache.
pub proof fn law_answered_run_reaches_no_worker(view: SchedulerView)
    requires
        view.wf(),
        answered_throughout(view, view.groups.len()),
    ensures
        from_the_cache(view.settled().actions),
{
    lemma_answered(view, view.groups.len());
}

/// No group is given to a worker twice: in every run of the scheduler, from a
/// scheduler that has seen nothing and through any events, the actions give
/// each group to a worker at most once.
pub proof fn law_dispatched_at_most_once(view: SchedulerView, events: Seq<Event>, g: int)
    requires
        fresh(view),
    ensures
        works(run(view, events).actions, g) <= 1,
{
    lemma_run(Law::Tally, view, events);
}

/// A graph keeps its identifiers: a scheduler that has seen nothing holds,
/// once it has taken in a graph, the groups of the graph as they were
/// declared; so no two of their members have the same identifier where no
/// two had in the graph.
pub proof fn law_graph_keeps_its_identifiers(
    view: SchedulerView,
    provided: Seq<ProvidedFile>,
    groups: Seq<ExecutionGroup>,
    mode: CacheModeView,
)
    requires
        fresh(view),
    ensures
        next(view, Event::Ingested { provided, groups, mode }).view.groups == groups,
        distinct(groups) ==> distinct(
            next(view, Event::Ingested { provided, groups, mode }).view.groups,
        ),
{
    let registry = with_pending(
        with_provided(
            view.store,
            Registry { files: view.files, states: view.file_states, actions: seq![] },
            provided,
        ),
        produced_by(groups),
    );
    lemma_registry_lengths(view, provided, produced_by(groups));
    let start = SchedulerView {
        groups: view.groups + groups,
        states: view.states + Seq::new(groups.len(), |i: int| GroupState::Waiting),
        files: registry.files,
        file_states: registry.states,
        mode,
        ..view
    };
    assert(start.groups =~= groups);
    assert(start.wf());
    lemma_settle_groups(start, start.groups.len());
}

/// The client is told of the end of an execution at most once, as done or as
/// skipped and never both: in every run of the scheduler whose groups have no
/// identifier twice, the notices that an execution is done and the notices
/// that it is skipped are together at most one.
pub proof fn law_end_told_at_most_once(view: SchedulerView, events: Seq<Event>, x: ExecutionUuid)
    requires
        fresh(view),
        distinct(run(view, events).view.groups),
    ensures
        ends(run(view, events).actions, x) <= 1,
{
    lemma_run(Law::Tally, view, events);
    let last = run(view, events).view;
    lemma_members_over_bound(last.groups, last.states, last.groups.len(), x);
    lemma_distinct_members(last.groups, last.groups.len(), x);
}

/// The client is told of an end only for what is over: while every group that
/// holds an execution waits or runs, no notice says that it is done or skipped.
pub proof fn law_no_end_before_it_is_over(
    view: SchedulerView,
    events: Seq<Event>,
    x: ExecutionUuid,
)
    requires
        fresh(view),
        forall|g: int|
            0 <= g < run(view, events).view.groups.len() && mentions(
                #[trigger] run(view, events).view.groups[g].executions@,
                x,
            ) > 0 ==> !over(run(view, events).view.states[g]),
    ensures
        ends(run(view, events).actions, x) == 0,
{
    lemma_run(Law::Tally, view, events);
    let last = run(view, events).view;
    lemma_members_over_none(last.groups, last.states, last.groups.len(), x);
}

/// Work follows readiness: in every run of the scheduler, each action that
/// gives a group to a worker names a group that was declared, and comes after
/// an announcement, to the client, that the file is ready, for every file
/// that a member of the group reads.
pub proof fn law_work_follows_readiness(view: SchedulerView, events: Seq<Event>, i: int)
    requires
        fresh(view),
        0 <= i < run(view, events).actions.len(),
    ensures
        well_placed(run(view, events).view.groups, run(view, events).actions, i),
{
    lemma_run(Law::Order, view, events);
}

/// Skips go all the way, and nothing that can be decided is left undecided:
/// once the scheduler has settled, no group waits for a file that will never
/// be ready, no ready group waits that the cache answers, and no ready group
/// waits while a worker is idle.
pub proof fn law_nothing_left_undecided(view: SchedulerView, g: int)
    requires
        view.wf(),
        0 <= g < view.groups.len(),
    ensures
        view.settled().view.groups == view.groups,
        !view.settled().view.doomed(g),
        !(view.settled().view.ready(g) && view.settled().view.group_hit(g)),
        view.settled().view.ready(g) ==> view.settled().view.idle_worker()
            >= view.settled().view.workers.len(),
{
    lemma_waiting_bound(view.states);
    lemma_settle_fixpoint(view, view.groups.len());
    lemma_settle_groups(view, view.groups.len());
    let last = view.settled().view;
    lemma_first_where(last.groups.len(), |g: int| last.doomed(g));
    lemma_first_where(last.groups.len(), |g: int| last.ready(g) && last.group_hit(g));
    lemma_best_upto(last, last.groups.len());
    if last.first_doomed() >= last.groups.len() {
        assert(!(|g: int| last.doomed(g))(g));
    }
    if last.first_hit() >= last.groups.len() {
        assert(!(|g: int| last.ready(g) && last.group_hit(g))(g));
    }
}

/// A group whose member did not end well leaves dead files behind: when a
/// group ends, every output of a member that did not succeed, if it was
/// pending, is dead afterwards, so that whatever reads it will be skipped.
pub proof fn law_failure_kills_outputs(
    store: Seq<BlobView>,
    executions: Seq<Execution>,
    results: Seq<ExecutionResultView>,
    reported: Seq<DependencyKey>,
    m: int,
    k: int,
)
    requires
        0 <= m < executions.len(),
        0 <= k < executions[m].spec_outputs().len(),
        !(results[m].status is Success),
    ensures
        outcomes(store, executions, results, reported).len() == outputs_of(
            executions,
        ).len(),
        exists|i: int|
            0 <= i < outcomes(store, executions, results, reported).len()
                && outputs_of(executions)[i] == executions[m].spec_outputs()[k]
                && #[trigger] outcomes(store, executions, results, reported)[i] == FileState::Dead,
{
    lemma_outcomes_dead(store, executions, results, reported, m, k);
}

/// Priority decides the order of work: while a ready group that the cache
/// does not answer waits, settling gives no group that it outranks to a
/// worker. So of two groups that are ready at the same time, the one with
/// the larger priority, or with the same and declared first, is the first to
/// be given to a worker.
pub proof fn law_higher_priority_goes_first(view: SchedulerView, g: int, h: int)
    requires
        view.wf(),
        0 <= g < view.groups.len(),
        0 <= h < view.groups.len(),
        view.ready(g),
        !view.group_hit(g),
        outranks(view, g, h),
    ensures
        goes_first(view.settled().actions, g, h),
{
    lemma_goes_first(view, view.groups.len(), g, h);
}

/// A skip runs down the chain: where a group `b` that waits reads a file that
/// is dead, and a group `c` that waits reads a pending file `f` that only `b`
/// produces, settling skips both, leaves `f` dead, and gives neither group to
/// a worker.
pub proof fn law_skip_cascades(view: SchedulerView, b: int, c: int, f: FileUuid)
    requires
        view.wf(),
        0 <= b < view.groups.len(),
        0 <= c < view.groups.len(),
        view.doomed(b),
        view.states[c] is Waiting,
        view.file_state(f) is Pending,
        produces(view, b, f),
        reads(view, c, f),
        forall|g: int| 0 <= g < view.groups.len() && g != b ==> !#[trigger] produces(view, g, f),
    ensures
        view.settled().view.states[b] is Skipped,
        view.settled().view.states[c] is Skipped,
        view.settled().view.file_state(f) is Dead,
        forall|i: int|
            0 <= i < view.settled().actions.len() ==> !is_work(
                #[trigger] view.settled().actions[i],
                b,
            ) && !is_work(view.settled().actions[i], c),
{
    lemma_cascade_settled(view, b, c, f);
}

/// A failure skips what depends on it, down the chain: a worker reports the
/// results of the group `a` that it runs; member `m` did not succeed, and its
/// output `e`, which no other output of the group is, was pending. Then a
/// waiting group `b` that reads `e`, and a waiting group `c` that reads a
/// pending file `f` that only `b` produces, are both skipped when the report
/// is taken in, and neither is given to a worker.
pub proof fn law_failure_skips_the_chain(
    view: SchedulerView,
    worker: WorkerUuid,
    results: Seq<ExecutionResultView>,
    reported: Seq<DependencyKey>,
    m: int,
    k: int,
    b: int,
    c: int,
    f: FileUuid,
)
    requires
        view.wf(),
        first_position(worker_uuids(view.workers), worker) < view.workers.len(),
        view.workers[first_position(worker_uuids(view.workers), worker)].job is Some,
        ({
            let a = view.workers[first_position(worker_uuids(view.workers), worker)].job->0 as int;
            let executions = view.groups[a].executions@;
            &&& view.states[a] == GroupState::Running(worker)
            &&& results.len() == executions.len()
            &&& 0 <= m < executions.len()
            &&& 0 <= k < executions[m].spec_outputs().len()
            &&& !(results[m].status is Success)
            &&& view.file_state(executions[m].spec_outputs()[k]) is Pending
            &&& forall|i: int, j: int|
                0 <= i < view.outputs(a).len() && 0 <= j < view.outputs(a).len() && view.outputs(
                    a,
                )[i] == executions[m].spec_outputs()[k] && view.outputs(a)[j]
                    == executions[m].spec_outputs()[k] ==> i == j
            &&& reads(view, b, executions[m].spec_outputs()[k])
        }),
        0 <= b < view.groups.len(),
        0 <= c < view.groups.len(),
        view.states[b] is Waiting,
        view.states[c] is Waiting,
        view.file_state(f) is Pending,
        produces(view, b, f),
        reads(view, c, f),
        forall|g: int| 0 <= g < view.groups.len() && g != b ==> !#[trigger] produces(view, g, f),
    ensures
        ({
            let step = next(view, Event::ResultArrived { worker, results, reported });
            &&& step.view.states[b] is Skipped
            &&& step.view.states[c] is Skipped
            &&& forall|i: int|
                0 <= i < step.actions.len() ==> !is_work(#[trigger] step.actions[i], b) && !is_work(
                    step.actions[i],
                    c,
                )
        }),
{
    lemma_first_position(worker_uuids(view.workers), worker);
    let w = first_position(worker_uuids(view.workers), worker);
    let a = view.workers[w].job->0 as int;
    let executions = view.groups[a].executions@;
    let freed = SchedulerView {
        workers: view.workers.update(w, WorkerSlot { job: None, ..view.workers[w] }),
        ..view
    };
    let cached = SchedulerView {
        cache: with_entries(freed, executions, results, reported),
        ..freed
    };
    assert(cached.wf()) by {
        assert forall|v: int| 0 <= v < cached.workers.len() implies ((
        #[trigger] cached.workers[v]).job matches Some(g) ==> g < cached.groups.len()) by {
            if v != w {
                assert(cached.workers[v] == view.workers[v]);
            }
        }
    }
    assert(produces(cached, b, f)) by {
        assert(cached.outputs(b) == view.outputs(b));
    }
    assert(reads(cached, c, f)) by {
        assert(cached.dependencies(c) == view.dependencies(c));
    }
    assert(reads(cached, b, executions[m].spec_outputs()[k])) by {
        assert(cached.dependencies(b) == view.dependencies(b));
    }
    assert forall|g: int| 0 <= g < cached.groups.len() && g != b implies !#[trigger] produces(
        cached,
        g,
        f,
    ) by {
        assert(cached.outputs(g) == view.outputs(g));
        if produces(cached, g, f) {
            assert(produces(view, g, f));
        }
    }
    assert(cached.outputs(a) == view.outputs(a));
    assert(cached.file_state(f) == view.file_state(f));
    assert(cached.file_state(executions[m].spec_outputs()[k]) == view.file_state(
        executions[m].spec_outputs()[k],
    ));
    lemma_failure_cascades(cached, a, results, reported, m, k, b, c, f);
    let first = cached.completed(a, results, reported);
    let step = next(view, Event::ResultArrived { worker, results, reported });
    assert(step.actions == first.actions + first.view.settled().actions);
    assert(step.view.states == first.view.settled().view.states);
}

/// What is decided stays decided: whatever event the scheduler takes in, a
/// group that has ended or is skipped stands as it stood, a group that was
/// given to a worker does not wait again, and a file that is ready stays
/// ready with the same content.
pub proof fn law_what_is_decided_stays(view: SchedulerView, event: Event)
    requires
        view.wf(),
    ensures
        keeps(view, next(view, event).view),
{
    lemma_taken_in_keeps(view, event);
    if holds_after(event) {
        let step = taken_in(view, event);
        lemma_frame_keeps(step.view, step.view.holding(view.file_states));
        lemma_keeps_twice(view, step.view, step.view.holding(view.file_states));
    }
}

/// What is decided stays decided through every run; see [`law_what_is_decided_stays`].
pub proof fn law_decisions_are_final(view: SchedulerView, events: Seq<Event>)
    requires
        view.wf(),
    ensures
        keeps(view, run(view, events).view),
    decreases events.len(),
{
    if events.len() > 0 {
        law_decisions_are_final(view, events.drop_last());
        let before = run(view, events.drop_last()).view;
        law_what_is_decided_stays(before, events.last());
        lemma_keeps_twice(view, before, next(before, events.last()).view);
    }
}

/// What a reported result leaves in the cache: once a group has ended with
/// the results that a worker reported, the cache holds, under the fingerprint
/// of the last member, the result of that member and the keys of its
/// outputs, provided the policy lets the member use the cache and a key was
/// reported for each of its outputs.
pub proof fn law_result_enters_the_cache(
    view: SchedulerView,
    executions: Seq<Execution>,
    results: Seq<ExecutionResultView>,
    reported: Seq<DependencyKey>,
)
    requires
        executions.len() > 0,
        caches(view.mode, tag_view(executions.last().tag)),
        all_reported(reported, executions.last().spec_outputs()),
    ensures
        entry_of(with_entries(view, executions, results, reported), view.print(executions.last()))
            == Some(
            CacheEntryView {
                print: view.print(executions.last()),
                result: results[executions.len() - 1],
                names: output_names(executions.last()),
                keys: reported_keys(reported, executions.last().spec_outputs()),
            },
        ),
{
    law_insert_then_lookup(
        with_entries(view, executions.drop_last(), results, reported),
        CacheEntryView {
            print: view.print(executions.last()),
            result: results[executions.len() - 1],
            names: output_names(executions.last()),
            keys: reported_keys(reported, executions.last().spec_outputs()),
        },
    );
}

/// The second run is answered by the cache: once a result was reported for an
/// execution, an execution with the same fingerprint and the same names of
/// outputs, in a scheduler that has that cache, is a hit with that very
/// result, provided the policy lets both use the cache, a key was reported for
/// each output, and the store still holds the blobs.
pub proof fn law_second_run_is_a_hit(
    view: SchedulerView,
    executions: Seq<Execution>,
    results: Seq<ExecutionResultView>,
    reported: Seq<DependencyKey>,
    later: SchedulerView,
    again: Execution,
)
    requires
        executions.len() > 0,
        caches(view.mode, tag_view(executions.last().tag)),
        all_reported(reported, executions.last().spec_outputs()),
        later.cache == with_entries(view, executions, results, reported),
        caches(later.mode, tag_view(again.tag)),
        later.print(again) == view.print(executions.last()),
        output_names(again) == output_names(executions.last()),
        forall|k: int|
            0 <= k < executions.last().spec_outputs().len() ==> holds(
                later.store,
                #[trigger] reported_keys(reported, executions.last().spec_outputs())[k],
            ),
    ensures
        later.hit(again),
        entry_of(later.cache, later.print(again))->0.result == results[executions.len() - 1],
{
    law_result_enters_the_cache(view, executions, results, reported);
    lemma_output_names_len(executions.last());
}

/// No eviction drops the blob of a file that is ready: once the scheduler
/// holds the blobs of the files that became ready, the store still has each
/// of them, with the same bytes, after it has evicted what it may.
pub proof fn law_ready_files_survive_eviction(
    view: SchedulerView,
    before: Seq<FileState>,
    key: FileStoreKey,
)
    requires
        well_formed(view.store),
        newly_ready(before, view.file_states, view.file_states.len()).contains(
            key,
        ),
        holds(view.store, key),
    ensures
        holds(view.holding(before).evicted().store, key),
        content_of(view.holding(before).evicted().store, key)
            == content_of(view.store, key),
{
    let keys = newly_ready(before, view.file_states, view.file_states.len());
    let store = view.store;
    let held = retained_all(store, keys);
    let names = blob_keys(store);
    lemma_first_position(names, key);
    let p = first_position(names, key);
    lemma_retained_all(store, keys, p);
    assert forall|i: int| 0 <= i < store.len() implies blob_keys(held)[i]
        == names[i] by {
        lemma_retained_all(store, keys, i);
    }
    assert(blob_keys(held) =~= names);
    assert(well_formed(held)) by {
        assert forall|i: int| 0 <= i < held.len() implies (#[trigger] held[i]).key
            == FileStoreKey::of(held[i].content) by {
            lemma_retained_all(store, keys, i);
            assert(store[i].key == FileStoreKey::of(store[i].content));
        }
    }
    let blob = held[p];
    assert(held.contains(blob));
    let after = evicted(held, view.max_size, view.min_size);
    law_eviction(held, view.max_size, view.min_size);
    assert(after.contains(blob));
    lemma_evicted_well_formed(held, view.max_size, view.min_size);
    let q = choose|q: int| 0 <= q < after.len() && after[q] == blob;
    assert(blob_keys(after)[q] == key);
    lemma_occurs(blob_keys(after), key);
    lemma_first_position(blob_keys(after), key);
    let r = first_position(blob_keys(after), key);
    assert(blob_keys(after).no_duplicates());
    assert(r == q);
}

} // verus!
