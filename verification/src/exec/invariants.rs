//! What every step of the scheduler keeps, and the counts of what it has
//! told: the ground on which the laws of the scheduler stand.

use vstd::prelude::*;
use crate::cache::CacheModeView;
use crate::dag::dag::{distinct, produced_by, ProvidedFile};
use crate::dag::execution::{
    dependencies_of, outputs_of, Execution, ExecutionGroup, ExecutionResultView,
};
use crate::dag::file::{ExecutionUuid, FileUuid, WorkerUuid};
use crate::exec::model::{
    after, all_dead, announce, cached_reports, cached_results, done_notices, internal_error,
    lost_message, outcomes, resolve, retained_all, skip_notices, start_notices, stop_notice,
    stop_notices, stopped_state, with_entries, with_pending, with_provided, worker_uuids,
    ActionView, DependencyKey, FileState, GroupState, Registry, SchedulerView, WorkerSlot,
};
use crate::exec::runs::{fresh, holds_after, next, run, taken_in, Event};
use crate::exec::scheduler::{lemma_registry_lengths, lemma_resolve_dead};
use crate::search::{first_position, lemma_first_position, lemma_first_where, occurs};
use crate::store::{blob_keys, stored, BlobView, FileStoreKey};

verus! {

/// What [`SchedulerView::best_upto`] finds among the first `n` groups.
pub proof fn lemma_best_upto(view: SchedulerView, n: nat)
    requires
        n <= view.groups.len(),
    ensures
        ({
            let best = view.best_upto(n);
            &&& 0 <= best
            &&& best < n || best == view.groups.len()
            &&& best < n ==> view.ready(best)
            &&& forall|h: int|
                0 <= h < n && #[trigger] view.ready(h) ==> best < n && (view.priority(h)
                    < view.priority(best) || (view.priority(h) == view.priority(best) && best <= h))
        }),
    decreases n,
{
    if n > 0 {
        lemma_best_upto(view, (n - 1) as nat);
    }
}

/// Resolving files calls only for announcements that a file is ready.
pub proof fn lemma_resolve_actions(
    files: Seq<FileUuid>,
    states: Seq<FileState>,
    targets: Seq<FileUuid>,
    outcomes: Seq<FileState>,
)
    requires
        states.len() == files.len(),
    ensures
        resolve(files, states, targets, outcomes).states.len() == states.len(),
        forall|i: int|
            0 <= i < resolve(files, states, targets, outcomes).actions.len() ==> (
            #[trigger] resolve(files, states, targets, outcomes).actions[i]) is FileReady,
    decreases targets.len(),
{
    if targets.len() > 0 {
        lemma_resolve_actions(files, states, targets.drop_last(), outcomes.drop_last());
        lemma_first_position(files, targets.last());
    }
}

/// Whether an action gives the group at position `g` to a worker.
pub open spec fn is_work(action: ActionView, g: int) -> bool {
    action matches ActionView::Work { group, .. } && group == g
}

/// Whether an action tells the client that `execution` has ended or is skipped.
pub open spec fn is_end(action: ActionView, execution: ExecutionUuid) -> bool {
    ||| action matches ActionView::Done { execution: named, .. } && named == execution
    ||| action matches ActionView::Skipped { execution: named } && named == execution
}

/// How many of the actions give the group at position `g` to a worker.
pub open spec fn works(actions: Seq<ActionView>, g: int) -> nat
    decreases actions.len(),
{
    if actions.len() == 0 {
        0
    } else {
        works(actions.drop_last(), g) + if is_work(actions.last(), g) {
            1nat
        } else {
            0nat
        }
    }
}

/// How many of the actions tell the client that `execution` has ended or is skipped.
pub open spec fn ends(actions: Seq<ActionView>, execution: ExecutionUuid) -> nat
    decreases actions.len(),
{
    if actions.len() == 0 {
        0
    } else {
        ends(actions.drop_last(), execution) + if is_end(actions.last(), execution) {
            1nat
        } else {
            0nat
        }
    }
}

/// How many of the executions have the identifier `execution`.
pub open spec fn mentions(executions: Seq<Execution>, execution: ExecutionUuid) -> nat
    decreases executions.len(),
{
    if executions.len() == 0 {
        0
    } else {
        mentions(executions.drop_last(), execution) + if executions.last().uuid == execution {
            1nat
        } else {
            0nat
        }
    }
}

/// Whether a group has ended or is skipped.
pub open spec fn over(state: GroupState) -> bool {
    state is Done || state is Skipped
}

/// How many members of the first `n` groups have the identifier `execution`.
pub open spec fn members(groups: Seq<ExecutionGroup>, n: nat, execution: ExecutionUuid) -> nat
    decreases n,
{
    if n == 0 {
        0
    } else {
        members(groups, (n - 1) as nat, execution) + mentions(
            groups[n - 1].executions@,
            execution,
        )
    }
}

/// How many members of those of the first `n` groups that are over have the
/// identifier `execution`.
pub open spec fn members_over(
    groups: Seq<ExecutionGroup>,
    states: Seq<GroupState>,
    n: nat,
    execution: ExecutionUuid,
) -> nat
    decreases n,
{
    if n == 0 {
        0
    } else {
        members_over(groups, states, (n - 1) as nat, execution) + if over(states[n - 1]) {
            mentions(groups[n - 1].executions@, execution)
        } else {
            0nat
        }
    }
}

/// Counting works over two lists is counting over each.
pub proof fn lemma_works_concat(first: Seq<ActionView>, second: Seq<ActionView>, g: int)
    ensures
        works(first + second, g) == works(first, g) + works(second, g),
    decreases second.len(),
{
    if second.len() == 0 {
        assert(first + second =~= first);
    } else {
        lemma_works_concat(first, second.drop_last(), g);
        assert((first + second).drop_last() =~= first + second.drop_last());
    }
}

/// Counting ends over two lists is counting over each.
pub proof fn lemma_ends_concat(first: Seq<ActionView>, second: Seq<ActionView>, x: ExecutionUuid)
    ensures
        ends(first + second, x) == ends(first, x) + ends(second, x),
    decreases second.len(),
{
    if second.len() == 0 {
        assert(first + second =~= first);
    } else {
        lemma_ends_concat(first, second.drop_last(), x);
        assert((first + second).drop_last() =~= first + second.drop_last());
    }
}

/// A list without works counts none.
pub proof fn lemma_no_works(actions: Seq<ActionView>, g: int)
    requires
        forall|i: int| 0 <= i < actions.len() ==> !(#[trigger] actions[i] is Work),
    ensures
        works(actions, g) == 0,
    decreases actions.len(),
{
    if actions.len() > 0 {
        lemma_no_works(actions.drop_last(), g);
    }
}

/// A list without notices of an end counts none.
pub proof fn lemma_no_ends(actions: Seq<ActionView>, x: ExecutionUuid)
    requires
        forall|i: int|
            0 <= i < actions.len() ==> !(#[trigger] actions[i] is Done) && !(actions[i] is Skipped),
    ensures
        ends(actions, x) == 0,
    decreases actions.len(),
{
    if actions.len() > 0 {
        lemma_no_ends(actions.drop_last(), x);
    }
}

/// The notices of a skip hold one end for each member with the identifier, and no work.
pub proof fn lemma_skip_notices(executions: Seq<Execution>, x: ExecutionUuid, g: int)
    ensures
        ends(skip_notices(executions), x) == mentions(executions, x),
        works(skip_notices(executions), g) == 0,
    decreases executions.len(),
{
    if executions.len() > 0 {
        lemma_skip_notices(executions.drop_last(), x, g);
        assert(skip_notices(executions).drop_last() =~= skip_notices(executions.drop_last()));
    }
}

/// The notices of an end hold one end for each member with the identifier, and no work.
pub proof fn lemma_done_notices(
    executions: Seq<Execution>,
    results: Seq<ExecutionResultView>,
    x: ExecutionUuid,
    g: int,
)
    ensures
        ends(done_notices(executions, results), x) == mentions(executions, x),
        works(done_notices(executions, results), g) == 0,
    decreases executions.len(),
{
    if executions.len() > 0 {
        lemma_done_notices(executions.drop_last(), results, x, g);
        assert(done_notices(executions, results).drop_last() =~= done_notices(
            executions.drop_last(),
            results,
        ));
    }
}

/// The notices of a start hold no end and no work.
pub proof fn lemma_start_notices(
    executions: Seq<Execution>,
    worker: WorkerUuid,
    x: ExecutionUuid,
    g: int,
)
    ensures
        ends(start_notices(executions, worker), x) == 0,
        works(start_notices(executions, worker), g) == 0,
{
    lemma_no_ends(start_notices(executions, worker), x);
    lemma_no_works(start_notices(executions, worker), g);
}

/// The members that are over, once the state of group `g` has changed.
pub proof fn lemma_members_over_update(
    groups: Seq<ExecutionGroup>,
    states: Seq<GroupState>,
    n: nat,
    g: int,
    state: GroupState,
    x: ExecutionUuid,
)
    requires
        n <= groups.len(),
        states.len() == groups.len(),
        0 <= g < groups.len(),
    ensures
        members_over(groups, states.update(g, state), n, x) + (if g < n && over(states[g]) {
            mentions(groups[g].executions@, x)
        } else {
            0nat
        }) == members_over(groups, states, n, x) + (if g < n && over(state) {
            mentions(groups[g].executions@, x)
        } else {
            0nat
        }),
    decreases n,
{
    if n > 0 {
        lemma_members_over_update(groups, states, (n - 1) as nat, g, state, x);
    }
}

/// Executions of which none has the identifier do not mention it.
pub proof fn lemma_mentions_none(executions: Seq<Execution>, x: ExecutionUuid)
    requires
        forall|m: int| 0 <= m < executions.len() ==> (#[trigger] executions[m]).uuid != x,
    ensures
        mentions(executions, x) == 0,
    decreases executions.len(),
{
    if executions.len() > 0 {
        assert forall|m: int| 0 <= m < executions.drop_last().len() implies (
        #[trigger] executions.drop_last()[m]).uuid != x by {
            assert(executions.drop_last()[m] == executions[m]);
        }
        lemma_mentions_none(executions.drop_last(), x);
        assert(executions[executions.len() - 1].uuid != x);
    }
}

/// Executions of which at most one has the identifier mention it at most once.
pub proof fn lemma_mentions_once(executions: Seq<Execution>, x: ExecutionUuid)
    requires
        forall|m: int, n: int|
            0 <= m < executions.len() && 0 <= n < executions.len() && (
            #[trigger] executions[m]).uuid == x && (#[trigger] executions[n]).uuid == x ==> m
                == n,
    ensures
        mentions(executions, x) <= 1,
    decreases executions.len(),
{
    if executions.len() > 0 {
        let rest = executions.drop_last();
        let last = executions.len() - 1;
        if executions[last].uuid == x {
            assert forall|m: int| 0 <= m < rest.len() implies (#[trigger] rest[m]).uuid != x by {
                assert(rest[m] == executions[m]);
                if executions[m].uuid == x {
                    assert(m == last);
                }
            }
            lemma_mentions_none(rest, x);
        } else {
            assert forall|m: int, n: int|
                0 <= m < rest.len() && 0 <= n < rest.len() && (#[trigger] rest[m]).uuid == x && (
                #[trigger] rest[n]).uuid == x implies m == n by {
                assert(rest[m] == executions[m]);
                assert(rest[n] == executions[n]);
            }
            lemma_mentions_once(rest, x);
        }
    }
}

/// Groups of which no member has the identifier do not hold it.
pub proof fn lemma_members_none(groups: Seq<ExecutionGroup>, n: nat, x: ExecutionUuid)
    requires
        n <= groups.len(),
        forall|g: int, m: int|
            0 <= g < n && 0 <= m < groups[g].executions@.len() ==> (
            #[trigger] groups[g].executions@[m]).uuid != x,
    ensures
        members(groups, n, x) == 0,
    decreases n,
{
    if n > 0 {
        lemma_members_none(groups, (n - 1) as nat, x);
        lemma_mentions_none(groups[n - 1].executions@, x);
    }
}

/// Where no two members have the same identifier, each identifier has at
/// most one member.
pub proof fn lemma_distinct_members(groups: Seq<ExecutionGroup>, n: nat, x: ExecutionUuid)
    requires
        n <= groups.len(),
        distinct(groups),
    ensures
        members(groups, n, x) <= 1,
    decreases n,
{
    if n > 0 {
        let last = groups[n - 1].executions@;
        lemma_distinct_members(groups, (n - 1) as nat, x);
        assert forall|m: int, k: int|
            0 <= m < last.len() && 0 <= k < last.len() && (#[trigger] last[m]).uuid == x && (
            #[trigger] last[k]).uuid == x implies m == k by {
            assert(groups[n - 1].executions@[m].uuid == groups[n - 1].executions@[k].uuid);
        }
        lemma_mentions_once(last, x);
        if exists|m: int| 0 <= m < last.len() && (#[trigger] last[m]).uuid == x {
            let m = choose|m: int| 0 <= m < last.len() && (#[trigger] last[m]).uuid == x;
            assert forall|g: int, k: int|
                0 <= g < n - 1 && 0 <= k < groups[g].executions@.len() implies (
            #[trigger] groups[g].executions@[k]).uuid != x by {
                if groups[g].executions@[k].uuid == x {
                    assert(groups[g].executions@[k].uuid == groups[n - 1].executions@[m].uuid);
                }
            }
            lemma_members_none(groups, (n - 1) as nat, x);
        } else {
            lemma_mentions_none(last, x);
        }
    }
}

/// The members that are over are among the members.
pub proof fn lemma_members_over_bound(
    groups: Seq<ExecutionGroup>,
    states: Seq<GroupState>,
    n: nat,
    x: ExecutionUuid,
)
    ensures
        members_over(groups, states, n, x) <= members(groups, n, x),
    decreases n,
{
    if n > 0 {
        lemma_members_over_bound(groups, states, (n - 1) as nat, x);
    }
}

/// What the actions of a run have to do with its state: the state is well
/// formed; the client was told of the end of an execution once for each of
/// its appearances in a group that is over; and a group was given to a worker
/// at most once, and not at all while it waits.
pub open spec fn tallied(view: SchedulerView, actions: Seq<ActionView>) -> bool {
    &&& view.wf()
    &&& forall|x: ExecutionUuid| #[trigger]
        ends(actions, x) == members_over(view.groups, view.states, view.groups.len(), x)
    &&& forall|g: int| #[trigger]
        works(actions, g) <= (if 0 <= g < view.groups.len() && !(view.states[g] is Waiting) {
            1nat
        } else {
            0nat
        })
}

/// Skipping a group that waits keeps the tally.
pub proof fn lemma_skipped(view: SchedulerView, actions: Seq<ActionView>, g: int)
    requires
        tallied(view, actions),
        0 <= g < view.groups.len(),
        view.states[g] is Waiting,
    ensures
        tallied(view.skipped(g).view, actions + view.skipped(g).actions),
{
    let step = view.skipped(g);
    lemma_resolve_actions(view.files, view.file_states, view.outputs(g), all_dead(view.outputs(g).len()));
    assert forall|x: ExecutionUuid| #[trigger]
        ends(actions + step.actions, x) == members_over(
            step.view.groups,
            step.view.states,
            step.view.groups.len(),
            x,
        ) by {
        lemma_ends_concat(actions, step.actions, x);
        lemma_skip_notices(view.groups[g].executions@, x, 0);
        lemma_members_over_update(view.groups, view.states, view.groups.len(), g, GroupState::Skipped, x);
    }
    assert forall|h: int| #[trigger]
        works(actions + step.actions, h) <= (if 0 <= h < step.view.groups.len() && !(
        step.view.states[h] is Waiting) {
            1nat
        } else {
            0nat
        }) by {
        lemma_works_concat(actions, step.actions, h);
        lemma_skip_notices(view.groups[g].executions@, 0, h);
        assert(works(actions, h) <= (if 0 <= h < view.groups.len() && !(view.states[h] is Waiting) {
            1nat
        } else {
            0nat
        }));
    }
}

/// Ending a group that is not over keeps the tally.
pub proof fn lemma_completed(
    view: SchedulerView,
    actions: Seq<ActionView>,
    g: int,
    results: Seq<ExecutionResultView>,
    reported: Seq<DependencyKey>,
)
    requires
        tallied(view, actions),
        0 <= g < view.groups.len(),
        !over(view.states[g]),
    ensures
        tallied(
            view.completed(g, results, reported).view,
            actions + view.completed(g, results, reported).actions,
        ),
{
    let step = view.completed(g, results, reported);
    let executions = view.groups[g].executions@;
    let resolution = resolve(
        view.files,
        view.file_states,
        view.outputs(g),
        outcomes(view.store, executions, results, reported),
    );
    lemma_resolve_actions(
        view.files,
        view.file_states,
        view.outputs(g),
        outcomes(view.store, executions, results, reported),
    );
    assert forall|x: ExecutionUuid| #[trigger]
        ends(actions + step.actions, x) == members_over(
            step.view.groups,
            step.view.states,
            step.view.groups.len(),
            x,
        ) by {
        lemma_ends_concat(actions, step.actions, x);
        lemma_ends_concat(done_notices(executions, results), resolution.actions, x);
        lemma_done_notices(executions, results, x, 0);
        lemma_no_ends(resolution.actions, x);
        lemma_members_over_update(view.groups, view.states, view.groups.len(), g, GroupState::Done, x);
    }
    assert forall|h: int| #[trigger]
        works(actions + step.actions, h) <= (if 0 <= h < step.view.groups.len() && !(
        step.view.states[h] is Waiting) {
            1nat
        } else {
            0nat
        }) by {
        lemma_works_concat(actions, step.actions, h);
        lemma_works_concat(done_notices(executions, results), resolution.actions, h);
        lemma_done_notices(executions, results, 0, h);
        lemma_no_works(resolution.actions, h);
        assert(works(actions, h) <= (if 0 <= h < view.groups.len() && !(view.states[h] is Waiting) {
            1nat
        } else {
            0nat
        }));
    }
}

/// Giving a group that waits to a worker keeps the tally.
pub proof fn lemma_dispatched(view: SchedulerView, actions: Seq<ActionView>, w: int, g: int)
    requires
        tallied(view, actions),
        0 <= w < view.workers.len(),
        0 <= g < view.groups.len(),
        view.states[g] is Waiting,
    ensures
        tallied(view.dispatched(w, g).view, actions + view.dispatched(w, g).actions),
{
    let step = view.dispatched(w, g);
    let worker = view.workers[w].uuid;
    let executions = view.groups[g].executions@;
    let head = seq![ActionView::Work { worker, group: g, keys: view.keys(view.dependencies(g)) }];
    assert(head.drop_last() =~= Seq::<ActionView>::empty());
    assert forall|x: ExecutionUuid| #[trigger]
        ends(actions + step.actions, x) == members_over(
            step.view.groups,
            step.view.states,
            step.view.groups.len(),
            x,
        ) by {
        lemma_ends_concat(actions, step.actions, x);
        lemma_ends_concat(head, start_notices(executions, worker), x);
        lemma_start_notices(executions, worker, x, 0);
        assert(ends(head.drop_last(), x) == 0);
        assert(ends(head, x) == 0);
        assert(step.actions == head + start_notices(executions, worker));
        lemma_members_over_update(
            view.groups,
            view.states,
            view.groups.len(),
            g,
            GroupState::Running(worker),
            x,
        );
    }
    assert forall|h: int| #[trigger]
        works(actions + step.actions, h) <= (if 0 <= h < step.view.groups.len() && !(
        step.view.states[h] is Waiting) {
            1nat
        } else {
            0nat
        }) by {
        lemma_works_concat(actions, step.actions, h);
        lemma_works_concat(head, start_notices(executions, worker), h);
        lemma_start_notices(executions, worker, 0, h);
        assert(works(head.drop_last(), h) == 0);
        assert(works(head, h) == if h == g { 1nat } else { 0nat });
        assert(step.actions == head + start_notices(executions, worker));
        assert(works(actions, h) <= (if 0 <= h < view.groups.len() && !(view.states[h] is Waiting) {
            1nat
        } else {
            0nat
        }));
    }
    assert forall|v: int| 0 <= v < step.view.workers.len() implies ((
    #[trigger] step.view.workers[v]).job matches Some(job) ==> job < step.view.groups.len()) by {
        if v != w {
            assert(step.view.workers[v] == view.workers[v]);
        }
    }
}

/// The tally depends on the groups, their states and the workers alone, as far
/// as the state goes.
pub proof fn lemma_tally_frame(view: SchedulerView, other: SchedulerView, actions: Seq<ActionView>)
    requires
        tallied(view, actions),
        other.groups == view.groups,
        other.states == view.states,
        other.workers == view.workers,
        other.file_states.len() == other.files.len(),
    ensures
        tallied(other, actions),
{
    assert forall|x: ExecutionUuid| #[trigger]
        ends(actions, x) == members_over(other.groups, other.states, other.groups.len(), x) by {
        assert(ends(actions, x) == members_over(view.groups, view.states, view.groups.len(), x));
    }
    assert forall|g: int| #[trigger]
        works(actions, g) <= (if 0 <= g < other.groups.len() && !(other.states[g] is Waiting) {
            1nat
        } else {
            0nat
        }) by {
        assert(works(actions, g) <= (if 0 <= g < view.groups.len() && !(view.states[g] is Waiting) {
            1nat
        } else {
            0nat
        }));
    }
}

/// A change of the workers that keeps their jobs within the groups keeps the tally.
pub proof fn lemma_tally_workers(
    view: SchedulerView,
    workers: Seq<WorkerSlot>,
    actions: Seq<ActionView>,
)
    requires
        tallied(view, actions),
        forall|w: int|
            0 <= w < workers.len() ==> ((#[trigger] workers[w]).job matches Some(g) ==> g
                < view.groups.len()),
    ensures
        tallied(SchedulerView { workers, ..view }, actions),
{
    let other = SchedulerView { workers, ..view };
    assert forall|x: ExecutionUuid| #[trigger]
        ends(actions, x) == members_over(other.groups, other.states, other.groups.len(), x) by {
        assert(ends(actions, x) == members_over(view.groups, view.states, view.groups.len(), x));
    }
    assert forall|g: int| #[trigger]
        works(actions, g) <= (if 0 <= g < other.groups.len() && !(other.states[g] is Waiting) {
            1nat
        } else {
            0nat
        }) by {
        assert(works(actions, g) <= (if 0 <= g < view.groups.len() && !(view.states[g] is Waiting) {
            1nat
        } else {
            0nat
        }));
    }
}

/// Actions that neither give work nor tell of an end keep the tally.
pub proof fn lemma_tally_quiet(view: SchedulerView, actions: Seq<ActionView>, more: Seq<ActionView>)
    requires
        tallied(view, actions),
        forall|i: int|
            0 <= i < more.len() ==> !(#[trigger] more[i] is Work) && !(more[i] is Done) && !(
            more[i] is Skipped),
    ensures
        tallied(view, actions + more),
{
    assert forall|x: ExecutionUuid| #[trigger]
        ends(actions + more, x) == members_over(view.groups, view.states, view.groups.len(), x) by {
        lemma_ends_concat(actions, more, x);
        lemma_no_ends(more, x);
        assert(ends(actions, x) == members_over(view.groups, view.states, view.groups.len(), x));
    }
    assert forall|g: int| #[trigger]
        works(actions + more, g) <= (if 0 <= g < view.groups.len() && !(view.states[g] is Waiting) {
            1nat
        } else {
            0nat
        }) by {
        lemma_works_concat(actions, more, g);
        lemma_no_works(more, g);
        assert(works(actions, g) <= (if 0 <= g < view.groups.len() && !(view.states[g] is Waiting) {
            1nat
        } else {
            0nat
        }));
    }
}

/// Declaring files calls only for announcements and for requests to the client.
pub proof fn lemma_registry_actions(
    store: Seq<BlobView>,
    registry: Registry,
    provided: Seq<ProvidedFile>,
    targets: Seq<FileUuid>,
)
    requires
        forall|i: int|
            0 <= i < registry.actions.len() ==> (#[trigger] registry.actions[i]) is FileReady
                || registry.actions[i] is AskFile,
    ensures
        ({
            let last = with_pending(with_provided(store, registry, provided), targets);
            forall|i: int|
                0 <= i < last.actions.len() ==> (#[trigger] last.actions[i]) is FileReady
                    || last.actions[i] is AskFile
        }),
    decreases provided.len() + targets.len(),
{
    if targets.len() > 0 {
        lemma_registry_actions(store, registry, provided, targets.drop_last());
    } else if provided.len() > 0 {
        lemma_registry_actions(store, registry, provided.drop_last(), targets);
    }
}

/// The members that are over among the first `n` groups depend on these groups alone.
pub proof fn lemma_members_over_prefix(
    groups: Seq<ExecutionGroup>,
    states: Seq<GroupState>,
    more_groups: Seq<ExecutionGroup>,
    more_states: Seq<GroupState>,
    n: nat,
    x: ExecutionUuid,
)
    requires
        n <= groups.len(),
        n <= states.len(),
    ensures
        members_over(groups + more_groups, states + more_states, n, x) == members_over(
            groups,
            states,
            n,
            x,
        ),
    decreases n,
{
    if n > 0 {
        lemma_members_over_prefix(groups, states, more_groups, more_states, (n - 1) as nat, x);
    }
}

/// Groups that wait add no member that is over.
pub proof fn lemma_members_over_waiting(
    groups: Seq<ExecutionGroup>,
    states: Seq<GroupState>,
    more: Seq<ExecutionGroup>,
    n: nat,
    x: ExecutionUuid,
)
    requires
        states.len() == groups.len(),
        groups.len() <= n <= groups.len() + more.len(),
    ensures
        members_over(
            groups + more,
            states + Seq::new(more.len(), |i: int| GroupState::Waiting),
            n,
            x,
        ) == members_over(groups, states, groups.len(), x),
    decreases n,
{
    let waiting = Seq::new(more.len(), |i: int| GroupState::Waiting);
    if n == groups.len() {
        lemma_members_over_prefix(groups, states, more, waiting, n, x);
    } else {
        lemma_members_over_waiting(groups, states, more, (n - 1) as nat, x);
        assert((states + waiting)[n - 1] == GroupState::Waiting);
    }
}

/// What a stop tells of ends is what it makes over, and it gives no work.
pub proof fn lemma_stopped_upto(
    groups: Seq<ExecutionGroup>,
    states: Seq<GroupState>,
    n: nat,
    x: ExecutionUuid,
    g: int,
)
    requires
        n <= groups.len(),
        states.len() == groups.len(),
    ensures
        members_over(groups, states.map_values(|state: GroupState| stopped_state(state)), n, x)
            == members_over(groups, states, n, x) + ends(stop_notices(groups.take(n as int), states), x),
        works(stop_notices(groups.take(n as int), states), g) == 0,
    decreases n,
{
    if n > 0 {
        lemma_stopped_upto(groups, states, (n - 1) as nat, x, g);
        let first = groups.take(n as int);
        assert(first.drop_last() =~= groups.take(n - 1));
        assert(first.last() == groups[n - 1]);
        let before = stop_notices(groups.take(n - 1), states);
        let notice = stop_notice(groups[n - 1], states[n - 1]);
        lemma_ends_concat(before, notice, x);
        lemma_works_concat(before, notice, g);
        let executions = groups[n - 1].executions@;
        lemma_skip_notices(executions, x, g);
        match states[n - 1] {
            GroupState::Running(worker) => {
                let head = seq![ActionView::KillJob { worker, job: groups[n - 1].uuid }];
                assert(head.drop_last() =~= Seq::<ActionView>::empty());
                assert(ends(head.drop_last(), x) == 0);
                assert(works(head.drop_last(), g) == 0);
                lemma_ends_concat(head, skip_notices(executions), x);
                lemma_works_concat(head, skip_notices(executions), g);
            },
            _ => {},
        }
    } else {
        assert(groups.take(0) =~= Seq::<ExecutionGroup>::empty());
    }
}

/// A stop keeps the tally.
pub proof fn lemma_stopped(view: SchedulerView, actions: Seq<ActionView>)
    requires
        tallied(view, actions),
    ensures
        tallied(view.stopped().view, actions + view.stopped().actions),
{
    let step = view.stopped();
    assert(view.groups.take(view.groups.len() as int) =~= view.groups);
    assert forall|x: ExecutionUuid| #[trigger]
        ends(actions + step.actions, x) == members_over(
            step.view.groups,
            step.view.states,
            step.view.groups.len(),
            x,
        ) by {
        lemma_ends_concat(actions, step.actions, x);
        lemma_stopped_upto(view.groups, view.states, view.groups.len(), x, 0);
        assert(ends(actions, x) == members_over(view.groups, view.states, view.groups.len(), x));
    }
    assert forall|g: int| #[trigger]
        works(actions + step.actions, g) <= (if 0 <= g < step.view.groups.len() && !(
        step.view.states[g] is Waiting) {
            1nat
        } else {
            0nat
        }) by {
        lemma_works_concat(actions, step.actions, g);
        lemma_stopped_upto(view.groups, view.states, view.groups.len(), 0, g);
        assert(works(actions, g) <= (if 0 <= g < view.groups.len() && !(view.states[g] is Waiting) {
            1nat
        } else {
            0nat
        }));
    }
}

/// Where no group that holds an execution is over, none of its members is.
pub proof fn lemma_members_over_none(
    groups: Seq<ExecutionGroup>,
    states: Seq<GroupState>,
    n: nat,
    x: ExecutionUuid,
)
    requires
        n <= groups.len(),
        forall|g: int|
            0 <= g < groups.len() && mentions(#[trigger] groups[g].executions@, x) > 0 ==> !over(
                states[g],
            ),
    ensures
        members_over(groups, states, n, x) == 0,
    decreases n,
{
    if n > 0 {
        lemma_members_over_none(groups, states, (n - 1) as nat, x);
        assert(mentions(groups[n - 1].executions@, x) > 0 ==> !over(states[n - 1]));
    }
}

/// The files and their states once a graph is declared, and the actions that this called for.
pub open spec fn declared(
    view: SchedulerView,
    provided: Seq<ProvidedFile>,
    groups: Seq<ExecutionGroup>,
) -> Registry {
    with_pending(
        with_provided(
            view.store,
            Registry { files: view.files, states: view.file_states, actions: seq![] },
            provided,
        ),
        produced_by(groups),
    )
}

/// The state once a graph is entered, before anything is decided.
pub open spec fn entered(
    view: SchedulerView,
    provided: Seq<ProvidedFile>,
    groups: Seq<ExecutionGroup>,
    mode: CacheModeView,
) -> SchedulerView {
    SchedulerView {
        groups: view.groups + groups,
        states: view.states + Seq::new(groups.len(), |i: int| GroupState::Waiting),
        files: declared(view, provided, groups).files,
        file_states: declared(view, provided, groups).states,
        mode,
        ..view
    }
}

/// Entering a graph keeps the tally.
pub proof fn lemma_tally_entered(
    view: SchedulerView,
    actions: Seq<ActionView>,
    provided: Seq<ProvidedFile>,
    groups: Seq<ExecutionGroup>,
    mode: CacheModeView,
)
    requires
        tallied(view, actions),
    ensures
        tallied(
            entered(view, provided, groups, mode),
            actions + declared(view, provided, groups).actions,
        ),
{
    let start = Registry { files: view.files, states: view.file_states, actions: seq![] };
    let targets = produced_by(groups);
    let registry = declared(view, provided, groups);
    lemma_registry_lengths(view, provided, targets);
    lemma_registry_actions(view.store, start, provided, targets);
    let waiting = Seq::new(groups.len(), |i: int| GroupState::Waiting);
    let entered = entered(view, provided, groups, mode);
    assert forall|x: ExecutionUuid| #[trigger]
        ends(actions, x) == members_over(entered.groups, entered.states, entered.groups.len(), x) by {
        lemma_members_over_waiting(view.groups, view.states, groups, entered.groups.len(), x);
        assert(ends(actions, x) == members_over(view.groups, view.states, view.groups.len(), x));
    }
    assert forall|g: int| #[trigger]
        works(actions, g) <= (if 0 <= g < entered.groups.len() && !(entered.states[g] is Waiting) {
            1nat
        } else {
            0nat
        }) by {
        assert(works(actions, g) <= (if 0 <= g < view.groups.len() && !(view.states[g] is Waiting) {
            1nat
        } else {
            0nat
        }));
        if 0 <= g < view.groups.len() {
            assert(entered.states[g] == view.states[g]);
        }
    }
    assert(entered.wf()) by {
        assert forall|w: int| 0 <= w < entered.workers.len() implies ((
        #[trigger] entered.workers[w]).job matches Some(g) ==> g < entered.groups.len()) by {
            assert(view.workers[w].job matches Some(g) ==> g < view.groups.len());
        }
    }
    lemma_tally_quiet(entered, actions, registry.actions);
}

/// Whether an action tells the client that `file` is ready.
pub open spec fn is_ready_notice(action: ActionView, file: FileUuid) -> bool {
    action matches ActionView::FileReady { file: named, .. } && named == file
}

/// Whether one of the first `i` actions tells the client that `file` is ready.
pub open spec fn announced_before(actions: Seq<ActionView>, i: int, file: FileUuid) -> bool {
    exists|j: int| 0 <= j < i && j < actions.len() && is_ready_notice(#[trigger] actions[j], file)
}

/// Whether the action at position `i`, if it gives a group to a worker, comes
/// after the announcement of each file that the group reads.
pub open spec fn well_placed(groups: Seq<ExecutionGroup>, actions: Seq<ActionView>, i: int) -> bool {
    match actions[i] {
        ActionView::Work { group, .. } => {
            &&& 0 <= group < groups.len()
            &&& forall|d: int|
                0 <= d < dependencies_of(groups[group].executions@).len() ==> announced_before(
                    actions,
                    i,
                    #[trigger] dependencies_of(groups[group].executions@)[d],
                )
        },
        _ => true,
    }
}

/// Whether every action that gives a group to a worker comes after the
/// announcement of each file that the group reads.
pub open spec fn orderly(groups: Seq<ExecutionGroup>, actions: Seq<ActionView>) -> bool {
    forall|i: int| 0 <= i < actions.len() ==> #[trigger] well_placed(groups, actions, i)
}

/// Whether every file that is ready has been announced.
pub open spec fn announced_all(view: SchedulerView, actions: Seq<ActionView>) -> bool {
    forall|p: int|
        0 <= p < view.files.len() && (#[trigger] view.file_states[p]) is Ready ==> announced_before(
            actions,
            actions.len() as int,
            view.files[p],
        )
}

/// What the order of the actions of a run has to do with its state.
pub open spec fn ordered(view: SchedulerView, actions: Seq<ActionView>) -> bool {
    &&& view.wf()
    &&& orderly(view.groups, actions)
    &&& announced_all(view, actions)
}

/// What was announced stays announced when actions follow.
pub proof fn lemma_announced_more(actions: Seq<ActionView>, more: Seq<ActionView>, i: int, file: FileUuid)
    requires
        announced_before(actions, i, file),
    ensures
        announced_before(actions + more, i, file),
        announced_before(actions + more, (actions + more).len() as int, file),
{
    let j = choose|j: int| 0 <= j < i && j < actions.len() && is_ready_notice(#[trigger] actions[j], file);
    assert((actions + more)[j] == actions[j]);
}

/// Actions that give no work, behind orderly actions, leave them orderly; so
/// do groups declared later.
pub proof fn lemma_orderly_more(
    groups: Seq<ExecutionGroup>,
    later: Seq<ExecutionGroup>,
    actions: Seq<ActionView>,
    more: Seq<ActionView>,
)
    requires
        orderly(groups, actions),
        forall|i: int| 0 <= i < more.len() ==> !(#[trigger] more[i] is Work),
    ensures
        orderly(groups + later, actions + more),
{
    let all = actions + more;
    assert forall|i: int| 0 <= i < all.len() implies #[trigger] well_placed(groups + later, all, i) by {
        if i < actions.len() {
            assert(all[i] == actions[i]);
            assert(well_placed(groups, actions, i));
            match actions[i] {
                ActionView::Work { group, .. } => {
                    assert((groups + later)[group] == groups[group]);
                    let files = dependencies_of(groups[group].executions@);
                    assert forall|d: int| 0 <= d < files.len() implies announced_before(
                        all,
                        i,
                        #[trigger] files[d],
                    ) by {
                        lemma_announced_more(actions, more, i, files[d]);
                    }
                },
                _ => {},
            }
        } else {
            assert(all[i] == more[i - actions.len()]);
        }
    }
}

/// Files that are resolved are announced where they become ready.
pub proof fn lemma_resolve_announced(
    files: Seq<FileUuid>,
    states: Seq<FileState>,
    targets: Seq<FileUuid>,
    outcomes: Seq<FileState>,
    p: int,
)
    requires
        states.len() == files.len(),
        0 <= p < files.len(),
        resolve(files, states, targets, outcomes).states[p] is Ready,
    ensures
        states[p] is Ready || announced_before(
            resolve(files, states, targets, outcomes).actions,
            resolve(files, states, targets, outcomes).actions.len() as int,
            files[p],
        ),
    decreases targets.len(),
{
    if targets.len() > 0 {
        let before = resolve(files, states, targets.drop_last(), outcomes.drop_last());
        let last = resolve(files, states, targets, outcomes);
        lemma_resolve_actions(files, states, targets.drop_last(), outcomes.drop_last());
        lemma_first_position(files, targets.last());
        let q = first_position(files, targets.last());
        if q < files.len() && before.states[q] is Pending {
            let told = announce(targets.last(), outcomes.last());
            if p == q {
                assert(last.actions[before.actions.len() as int] == told[0]);
                assert(is_ready_notice(last.actions[before.actions.len() as int], files[p]));
            } else {
                lemma_resolve_announced(files, states, targets.drop_last(), outcomes.drop_last(), p);
                if !(states[p] is Ready) {
                    lemma_announced_more(before.actions, told, before.actions.len() as int, files[p]);
                }
            }
        } else {
            lemma_resolve_announced(files, states, targets.drop_last(), outcomes.drop_last(), p);
        }
    }
}

/// Resolving files behind orderly actions, with notices that give no work
/// between, keeps the order.
pub proof fn lemma_order_resolved(
    view: SchedulerView,
    actions: Seq<ActionView>,
    states: Seq<GroupState>,
    notices: Seq<ActionView>,
    targets: Seq<FileUuid>,
    outcomes: Seq<FileState>,
)
    requires
        ordered(view, actions),
        states.len() == view.states.len(),
        forall|i: int| 0 <= i < notices.len() ==> !(#[trigger] notices[i] is Work),
    ensures
        ordered(
            SchedulerView {
                states,
                file_states: resolve(view.files, view.file_states, targets, outcomes).states,
                ..view
            },
            actions + (notices + resolve(view.files, view.file_states, targets, outcomes).actions),
        ),
{
    let resolution = resolve(view.files, view.file_states, targets, outcomes);
    let more = notices + resolution.actions;
    let after = SchedulerView { states, file_states: resolution.states, ..view };
    lemma_resolve_actions(view.files, view.file_states, targets, outcomes);
    assert forall|i: int| 0 <= i < more.len() implies !(#[trigger] more[i] is Work) by {
        if i >= notices.len() {
            assert(more[i] == resolution.actions[i - notices.len()]);
        }
    }
    lemma_orderly_more(view.groups, seq![], actions, more);
    assert(view.groups + Seq::<ExecutionGroup>::empty() =~= view.groups);
    assert forall|p: int|
        0 <= p < after.files.len() && (#[trigger] after.file_states[p]) is Ready implies announced_before(
        actions + more,
        (actions + more).len() as int,
        after.files[p],
    ) by {
        lemma_resolve_announced(view.files, view.file_states, targets, outcomes, p);
        if view.file_states[p] is Ready {
            lemma_announced_more(actions, more, actions.len() as int, view.files[p]);
        } else {
            let j = choose|j: int|
                0 <= j < resolution.actions.len() && is_ready_notice(
                    #[trigger] resolution.actions[j],
                    view.files[p],
                );
            assert((actions + more)[actions.len() + notices.len() + j] == resolution.actions[j]);
        }
    }
}

/// Giving a ready group to a worker keeps the order.
pub proof fn lemma_order_dispatched(view: SchedulerView, actions: Seq<ActionView>, w: int, g: int)
    requires
        ordered(view, actions),
        0 <= w < view.workers.len(),
        0 <= g < view.groups.len(),
        view.ready(g),
    ensures
        ordered(view.dispatched(w, g).view, actions + view.dispatched(w, g).actions),
{
    let step = view.dispatched(w, g);
    let all = actions + step.actions;
    let files = view.dependencies(g);
    assert forall|i: int| 0 <= i < all.len() implies #[trigger] well_placed(view.groups, all, i) by {
        if i < actions.len() {
            assert(all[i] == actions[i]);
            assert(well_placed(view.groups, actions, i));
            match actions[i] {
                ActionView::Work { group, .. } => {
                    let needed = dependencies_of(view.groups[group].executions@);
                    assert forall|d: int| 0 <= d < needed.len() implies announced_before(
                        all,
                        i,
                        #[trigger] needed[d],
                    ) by {
                        lemma_announced_more(actions, step.actions, i, needed[d]);
                    }
                },
                _ => {},
            }
        } else if i == actions.len() {
            assert(all[i] == step.actions[0]);
            assert forall|d: int| 0 <= d < files.len() implies announced_before(
                all,
                i,
                #[trigger] files[d],
            ) by {
                assert(view.file_state(files[d]) is Ready);
                lemma_first_position(view.files, files[d]);
                let p = first_position(view.files, files[d]);
                assert(view.file_states[p] is Ready);
                lemma_announced_more(actions, step.actions, actions.len() as int, files[d]);
            }
        } else {
            assert(all[i] == step.actions[i - actions.len()]);
        }
    }
    assert forall|p: int|
        0 <= p < step.view.files.len() && (#[trigger] step.view.file_states[p]) is Ready implies announced_before(
        all,
        all.len() as int,
        step.view.files[p],
    ) by {
        lemma_announced_more(actions, step.actions, actions.len() as int, view.files[p]);
    }
    assert forall|v: int| 0 <= v < step.view.workers.len() implies ((
    #[trigger] step.view.workers[v]).job matches Some(job) ==> job < step.view.groups.len()) by {
        if v != w {
            assert(step.view.workers[v] == view.workers[v]);
        }
    }
}

/// Files that are declared are announced where they are ready at once, and
/// what was known before stays as it was.
pub proof fn lemma_registry_announced(
    store: Seq<BlobView>,
    registry: Registry,
    provided: Seq<ProvidedFile>,
    targets: Seq<FileUuid>,
    p: int,
)
    requires
        registry.states.len() == registry.files.len(),
        registry.actions.len() == 0,
    ensures
        ({
            let last = with_pending(with_provided(store, registry, provided), targets);
            &&& last.states.len() == last.files.len()
            &&& registry.files.len() <= last.files.len()
            &&& 0 <= p < registry.files.len() ==> last.files[p] == registry.files[p]
                && last.states[p] == registry.states[p]
            &&& registry.files.len() <= p < last.files.len() && last.states[p] is Ready
                ==> announced_before(last.actions, last.actions.len() as int, last.files[p])
        }),
    decreases provided.len() + targets.len(),
{
    if targets.len() > 0 {
        lemma_registry_announced(store, registry, provided, targets.drop_last(), p);
    } else if provided.len() > 0 {
        lemma_registry_announced(store, registry, provided.drop_last(), targets, p);
        let before = with_provided(store, registry, provided.drop_last());
        let last = with_provided(store, registry, provided);
        let file = provided.last().file.uuid;
        if !occurs(before.files, file) {
            if registry.files.len() <= p < last.files.len() && last.states[p] is Ready {
                if p < before.files.len() {
                    let told = seq![last.actions.last()];
                    assert(last.actions =~= before.actions + told);
                    lemma_announced_more(before.actions, told, before.actions.len() as int, before.files[p]);
                } else {
                    assert(is_ready_notice(last.actions[last.actions.len() - 1], last.files[p]));
                }
            }
        }
    }
}

/// Entering a graph keeps the order.
pub proof fn lemma_order_entered(
    view: SchedulerView,
    actions: Seq<ActionView>,
    provided: Seq<ProvidedFile>,
    groups: Seq<ExecutionGroup>,
    mode: CacheModeView,
)
    requires
        ordered(view, actions),
    ensures
        ordered(
            entered(view, provided, groups, mode),
            actions + declared(view, provided, groups).actions,
        ),
{
    let start = Registry { files: view.files, states: view.file_states, actions: seq![] };
    let targets = produced_by(groups);
    let registry = declared(view, provided, groups);
    let entered = entered(view, provided, groups, mode);
    let all = actions + registry.actions;
    lemma_registry_actions(view.store, start, provided, targets);
    lemma_registry_announced(view.store, start, provided, targets, 0);
    lemma_orderly_more(view.groups, groups, actions, registry.actions);
    assert forall|p: int|
        0 <= p < entered.files.len() && (#[trigger] entered.file_states[p]) is Ready implies announced_before(
        all,
        all.len() as int,
        entered.files[p],
    ) by {
        lemma_registry_announced(view.store, start, provided, targets, p);
        if p < view.files.len() {
            assert(view.file_states[p] is Ready);
            lemma_announced_more(actions, registry.actions, actions.len() as int, view.files[p]);
        } else {
            let j = choose|j: int|
                0 <= j < registry.actions.len() && is_ready_notice(
                    #[trigger] registry.actions[j],
                    entered.files[p],
                );
            assert(all[actions.len() + j] == registry.actions[j]);
        }
    }
    assert(entered.wf()) by {
        assert forall|w: int| 0 <= w < entered.workers.len() implies ((
        #[trigger] entered.workers[w]).job matches Some(g) ==> g < entered.groups.len()) by {
            assert(view.workers[w].job matches Some(g) ==> g < view.groups.len());
        }
    }
}

/// Actions that give no work keep the order, whatever becomes of the groups'
/// states, the workers, the store and the cache.
pub proof fn lemma_order_quiet(
    view: SchedulerView,
    other: SchedulerView,
    actions: Seq<ActionView>,
    more: Seq<ActionView>,
)
    requires
        ordered(view, actions),
        other.wf(),
        other.groups == view.groups,
        other.files == view.files,
        forall|p: int|
            0 <= p < view.files.len() && (#[trigger] other.file_states[p]) is Ready
                ==> view.file_states[p] is Ready || announced_before(
                more,
                more.len() as int,
                view.files[p],
            ),
        forall|i: int| 0 <= i < more.len() ==> !(#[trigger] more[i] is Work),
    ensures
        ordered(other, actions + more),
{
    lemma_orderly_more(view.groups, seq![], actions, more);
    assert(view.groups + Seq::<ExecutionGroup>::empty() =~= view.groups);
    assert forall|p: int|
        0 <= p < other.files.len() && (#[trigger] other.file_states[p]) is Ready implies announced_before(
        actions + more,
        (actions + more).len() as int,
        other.files[p],
    ) by {
        if view.file_states[p] is Ready {
            lemma_announced_more(actions, more, actions.len() as int, view.files[p]);
        } else {
            let j = choose|j: int|
                0 <= j < more.len() && is_ready_notice(#[trigger] more[j], view.files[p]);
            assert((actions + more)[actions.len() + j] == more[j]);
        }
    }
}

/// The notices of a stop give no work.
pub proof fn lemma_stop_notices(groups: Seq<ExecutionGroup>, states: Seq<GroupState>, i: int)
    requires
        0 <= i < stop_notices(groups, states).len(),
    ensures
        !(stop_notices(groups, states)[i] is Work),
    decreases groups.len(),
{
    if groups.len() > 0 {
        let before = stop_notices(groups.drop_last(), states);
        if i < before.len() {
            lemma_stop_notices(groups.drop_last(), states, i);
        }
    }
}

/// The two things that are proved of every run.
pub enum Law {
    /// See [`tallied`].
    Tally,
    /// See [`ordered`].
    Order,
}

/// Whether a state and the actions that led to it obey a law.
pub open spec fn kept(law: Law, view: SchedulerView, actions: Seq<ActionView>) -> bool {
    match law {
        Law::Tally => tallied(view, actions),
        Law::Order => ordered(view, actions),
    }
}

/// Ending a group that is not over keeps the laws.
pub proof fn lemma_kept_completed(
    law: Law,
    view: SchedulerView,
    actions: Seq<ActionView>,
    g: int,
    results: Seq<ExecutionResultView>,
    reported: Seq<DependencyKey>,
)
    requires
        kept(law, view, actions),
        0 <= g < view.groups.len(),
        !over(view.states[g]),
    ensures
        kept(
            law,
            view.completed(g, results, reported).view,
            actions + view.completed(g, results, reported).actions,
        ),
{
    match law {
        Law::Tally => {
            lemma_completed(view, actions, g, results, reported);
        },
        Law::Order => {
            let executions = view.groups[g].executions@;
            lemma_order_resolved(
                view,
                actions,
                view.states.update(g, GroupState::Done),
                done_notices(executions, results),
                view.outputs(g),
                outcomes(view.store, executions, results, reported),
            );
        },
    }
}

/// A change of the workers, the store, the cache or the policy keeps the
/// laws, as long as the jobs of the workers stay within the groups.
pub proof fn lemma_kept_frame(law: Law, view: SchedulerView, other: SchedulerView, actions: Seq<ActionView>)
    requires
        kept(law, view, actions),
        other.groups == view.groups,
        other.states == view.states,
        other.files == view.files,
        other.file_states == view.file_states,
        forall|w: int|
            0 <= w < other.workers.len() ==> ((#[trigger] other.workers[w]).job matches Some(g)
                ==> g < view.groups.len()),
    ensures
        kept(law, other, actions),
{
    match law {
        Law::Tally => {
            lemma_tally_workers(view, other.workers, actions);
            lemma_tally_frame(SchedulerView { workers: other.workers, ..view }, other, actions);
        },
        Law::Order => {
            lemma_order_quiet(view, other, actions, seq![]);
            assert(actions + Seq::<ActionView>::empty() =~= actions);
        },
    }
}

/// A step of settling keeps the laws.
pub proof fn lemma_settle_step(law: Law, view: SchedulerView, actions: Seq<ActionView>)
    requires
        kept(law, view, actions),
        view.settle_step() is Some,
    ensures
        kept(law, view.settle_step()->0.view, actions + view.settle_step()->0.actions),
{
    assert(view.wf());
    lemma_first_where(view.groups.len(), |g: int| view.doomed(g));
    lemma_first_where(view.groups.len(), |g: int| view.ready(g) && view.group_hit(g));
    lemma_first_where(
        view.workers.len(),
        |w: int| view.workers[w].asking && view.workers[w].job is None,
    );
    lemma_best_upto(view, view.groups.len());
    if view.first_doomed() < view.groups.len() {
        let g = view.first_doomed();
        match law {
            Law::Tally => {
                lemma_skipped(view, actions, g);
            },
            Law::Order => {
                lemma_resolve_dead(
                    view.files,
                    view.file_states,
                    view.outputs(g),
                );
                let notices = skip_notices(view.groups[g].executions@);
                lemma_order_resolved(
                    view,
                    actions,
                    view.states.update(g, GroupState::Skipped),
                    notices,
                    view.outputs(g),
                    all_dead(view.outputs(g).len()),
                );
                assert(notices + Seq::<ActionView>::empty() =~= notices);
            },
        }
    } else if view.first_hit() < view.groups.len() {
        let g = view.first_hit();
        lemma_kept_completed(
            law,
            view,
            actions,
            g,
            cached_results(view, view.groups[g].executions@),
            cached_reports(view, view.groups[g].executions@),
        );
    } else {
        match law {
            Law::Tally => {
                lemma_dispatched(view, actions, view.idle_worker(), view.best_ready());
            },
            Law::Order => {
                lemma_order_dispatched(view, actions, view.idle_worker(), view.best_ready());
            },
        }
    }
}

/// Settling keeps the laws.
pub proof fn lemma_settle(law: Law, view: SchedulerView, actions: Seq<ActionView>, fuel: nat)
    requires
        kept(law, view, actions),
    ensures
        kept(law, view.settle(fuel).view, actions + view.settle(fuel).actions),
    decreases fuel,
{
    if fuel > 0 && view.settle_step() is Some {
        let step = view.settle_step()->0;
        lemma_settle_step(law, view, actions);
        lemma_settle(law, step.view, actions + step.actions, (fuel - 1) as nat);
        let rest = step.view.settle((fuel - 1) as nat);
        assert((actions + step.actions) + rest.actions =~= actions + (step.actions + rest.actions));
    } else {
        assert(actions + Seq::<ActionView>::empty() =~= actions);
    }
}

/// Ending a group and settling keeps the laws.
pub proof fn lemma_completed_then_settled(
    law: Law,
    view: SchedulerView,
    actions: Seq<ActionView>,
    g: int,
    results: Seq<ExecutionResultView>,
    reported: Seq<DependencyKey>,
)
    requires
        kept(law, view, actions),
        0 <= g < view.groups.len(),
        !over(view.states[g]),
    ensures
        ({
            let step = view.completed(g, results, reported);
            kept(law, step.view.settled().view, actions + (step.actions + step.view.settled().actions))
        }),
{
    lemma_kept_completed(law, view, actions, g, results, reported);
    let step = view.completed(g, results, reported);
    lemma_settle(law, step.view, actions + step.actions, step.view.groups.len());
    let rest = step.view.settled();
    assert((actions + step.actions) + rest.actions =~= actions + (step.actions + rest.actions));
}

/// Taking in the results of a worker keeps the laws.
pub proof fn lemma_result_arrived(
    law: Law,
    view: SchedulerView,
    actions: Seq<ActionView>,
    worker: WorkerUuid,
    results: Seq<ExecutionResultView>,
    reported: Seq<DependencyKey>,
)
    requires
        kept(law, view, actions),
    ensures
        kept(
            law,
            view.result_arrived(worker, results, reported).view,
            actions + view.result_arrived(worker, results, reported).actions,
        ),
{
    assert(view.wf());
    let w = first_position(worker_uuids(view.workers), worker);
    lemma_first_position(worker_uuids(view.workers), worker);
    if w >= view.workers.len() || view.workers[w].job is None {
        assert(actions + Seq::<ActionView>::empty() =~= actions);
    } else {
        let g = view.workers[w].job->0 as int;
        let workers = view.workers.update(w, WorkerSlot { job: None, ..view.workers[w] });
        let freed = SchedulerView { workers, ..view };
        assert forall|v: int| 0 <= v < workers.len() implies ((#[trigger] workers[v]).job matches Some(
            job,
        ) ==> job < view.groups.len()) by {
            if v != w {
                assert(workers[v] == view.workers[v]);
            }
        }
        lemma_kept_frame(law, view, freed, actions);
        let executions = view.groups[g].executions@;
        if view.states[g] != GroupState::Running(worker) {
            assert(actions + Seq::<ActionView>::empty() =~= actions);
        } else if results.len() != executions.len() {
            let failure = Seq::new(
                executions.len(),
                |m: int| internal_error(lost_message()),
            );
            lemma_completed_then_settled(law, freed, actions, g, failure, seq![]);
        } else {
            let cached = SchedulerView {
                cache: with_entries(freed, executions, results, reported),
                ..freed
            };
            lemma_kept_frame(law, freed, cached, actions);
            lemma_completed_then_settled(law, cached, actions, g, results, reported);
        }
    }
}

/// Taking in the loss of a worker keeps the laws.
pub proof fn lemma_worker_gone(law: Law, view: SchedulerView, actions: Seq<ActionView>, worker: WorkerUuid)
    requires
        kept(law, view, actions),
    ensures
        kept(law, view.worker_gone(worker).view, actions + view.worker_gone(worker).actions),
{
    assert(view.wf());
    let w = first_position(worker_uuids(view.workers), worker);
    lemma_first_position(worker_uuids(view.workers), worker);
    if w >= view.workers.len() {
        assert(actions + Seq::<ActionView>::empty() =~= actions);
    } else {
        let workers = view.workers.remove(w);
        let left = SchedulerView { workers, ..view };
        assert forall|v: int| 0 <= v < workers.len() implies ((#[trigger] workers[v]).job matches Some(
            job,
        ) ==> job < view.groups.len()) by {
            let u = if v < w { v } else { v + 1 };
            assert(workers[v] == view.workers[u]);
        }
        lemma_kept_frame(law, view, left, actions);
        match view.workers[w].job {
            Some(job) => {
                if view.states[job as int] == GroupState::Running(worker) {
                    let executions = view.groups[job as int].executions@;
                    let failure = Seq::new(
                        executions.len(),
                        |m: int|
                            internal_error(lost_message()),
                    );
                    lemma_completed_then_settled(law, left, actions, job as int, failure, seq![]);
                } else {
                    assert(actions + Seq::<ActionView>::empty() =~= actions);
                }
            },
            None => {
                assert(actions + Seq::<ActionView>::empty() =~= actions);
            },
        }
    }
}

/// Every event keeps the laws.
pub proof fn lemma_next(law: Law, view: SchedulerView, actions: Seq<ActionView>, event: Event)
    requires
        kept(law, view, actions),
    ensures
        kept(law, next(view, event).view, actions + next(view, event).actions),
{
    lemma_taken_in(law, view, actions, event);
    if holds_after(event) {
        let step = taken_in(view, event);
        assert(step.view.wf());
        lemma_kept_frame(
            law,
            step.view,
            step.view.holding(view.file_states),
            actions + step.actions,
        );
    }
}

/// Every event, as it is taken in, keeps the laws.
pub proof fn lemma_taken_in(law: Law, view: SchedulerView, actions: Seq<ActionView>, event: Event)
    requires
        kept(law, view, actions),
    ensures
        kept(law, taken_in(view, event).view, actions + taken_in(view, event).actions),
{
    assert(view.wf());
    match event {
        Event::WorkerAsked { worker } => {
            let w = first_position(worker_uuids(view.workers), worker);
            lemma_first_position(worker_uuids(view.workers), worker);
            let workers = if w < view.workers.len() {
                view.workers.update(w, WorkerSlot { asking: true, ..view.workers[w] })
            } else {
                view.workers.push(WorkerSlot { uuid: worker, asking: true, job: None })
            };
            assert forall|v: int| 0 <= v < workers.len() implies ((
            #[trigger] workers[v]).job matches Some(job) ==> job < view.groups.len()) by {
                if v < view.workers.len() {
                    assert(workers[v].job == view.workers[v].job);
                }
            }
            let asked = SchedulerView { workers, ..view };
            lemma_kept_frame(law, view, asked, actions);
            lemma_settle(law, asked, actions, view.groups.len());
        },
        Event::Ingested { provided, groups, mode } => {
            let entered = entered(view, provided, groups, mode);
            let registry = declared(view, provided, groups);
            match law {
                Law::Tally => {
                    lemma_tally_entered(view, actions, provided, groups, mode);
                },
                Law::Order => {
                    lemma_order_entered(view, actions, provided, groups, mode);
                },
            }
            lemma_settle(law, entered, actions + registry.actions, entered.groups.len());
            let rest = entered.settled();
            assert((actions + registry.actions) + rest.actions =~= actions + (registry.actions
                + rest.actions));
        },
        Event::FileArrived { file, content } => {
            let p = first_position(view.files, file);
            lemma_first_position(view.files, file);
            let key = FileStoreKey::of(content);
            if p < view.files.len() && view.file_states[p] == FileState::Awaited(key) {
                let taken = SchedulerView {
                    store: stored(view.store, key, content),
                    file_states: view.file_states.update(p, FileState::Ready(key)),
                    ..view
                };
                let told = seq![ActionView::FileReady { file, key }];
                match law {
                    Law::Tally => {
                        lemma_tally_frame(view, taken, actions);
                        lemma_tally_quiet(taken, actions, told);
                    },
                    Law::Order => {
                        assert(is_ready_notice(told[0], view.files[p]));
                        lemma_order_quiet(view, taken, actions, told);
                    },
                }
                lemma_settle(law, taken, actions + told, taken.groups.len());
                let rest = taken.settled();
                assert((actions + told) + rest.actions =~= actions + (told + rest.actions));
            } else {
                assert(actions + Seq::<ActionView>::empty() =~= actions);
            }
        },
        Event::BlobStored { content } => {
            let other = SchedulerView {
                store: stored(view.store, FileStoreKey::of(content), content),
                ..view
            };
            lemma_kept_frame(law, view, other, actions);
            assert(actions + Seq::<ActionView>::empty() =~= actions);
        },
        Event::ResultArrived { worker, results, reported } => {
            lemma_result_arrived(law, view, actions, worker, results, reported);
        },
        Event::WorkerGone { worker } => {
            lemma_worker_gone(law, view, actions, worker);
        },
        Event::Stopped => {
            match law {
                Law::Tally => {
                    lemma_stopped(view, actions);
                },
                Law::Order => {
                    let step = view.stopped();
                    assert forall|i: int| 0 <= i < step.actions.len() implies !(
                    #[trigger] step.actions[i] is Work) by {
                        lemma_stop_notices(view.groups, view.states, i);
                    }
                    lemma_order_quiet(view, step.view, actions, step.actions);
                },
            }
        },
        Event::Released => {
            lemma_kept_frame(law, view, view.released(), actions);
            assert(actions + Seq::<ActionView>::empty() =~= actions);
        },
        Event::Evicted => {
            lemma_kept_frame(law, view, view.evicted(), actions);
            assert(actions + Seq::<ActionView>::empty() =~= actions);
        },
    }
}

/// A run from a scheduler that has seen nothing keeps the laws.
pub proof fn lemma_run(law: Law, view: SchedulerView, events: Seq<Event>)
    requires
        fresh(view),
    ensures
        kept(law, run(view, events).view, run(view, events).actions),
    decreases events.len(),
{
    if events.len() == 0 {
        assert forall|x: ExecutionUuid| #[trigger]
            ends(Seq::<ActionView>::empty(), x) == members_over(view.groups, view.states, 0, x) by {}
    } else {
        lemma_run(law, view, events.drop_last());
        let before = run(view, events.drop_last());
        lemma_next(law, before.view, before.actions, events.last());
    }
}

/// How many groups wait.
pub open spec fn waiting(states: Seq<GroupState>) -> nat
    decreases states.len(),
{
    if states.len() == 0 {
        0
    } else {
        waiting(states.drop_last()) + if states.last() is Waiting {
            1nat
        } else {
            0nat
        }
    }
}

/// A group that leaves waiting leaves one group less that waits.
pub proof fn lemma_waiting_update(states: Seq<GroupState>, g: int, state: GroupState)
    requires
        0 <= g < states.len(),
        states[g] is Waiting,
        !(state is Waiting),
    ensures
        waiting(states.update(g, state)) + 1 == waiting(states),
    decreases states.len(),
{
    if g == states.len() - 1 {
        assert(states.update(g, state).drop_last() =~= states.drop_last());
    } else {
        lemma_waiting_update(states.drop_last(), g, state);
        assert(states.update(g, state).drop_last() =~= states.drop_last().update(g, state));
    }
}

/// No more groups wait than there are.
pub proof fn lemma_waiting_bound(states: Seq<GroupState>)
    ensures
        waiting(states) <= states.len(),
    decreases states.len(),
{
    if states.len() > 0 {
        lemma_waiting_bound(states.drop_last());
    }
}

/// A step of settling takes one group out of waiting and leaves the state well formed.
pub proof fn lemma_step_decreases(view: SchedulerView)
    requires
        view.wf(),
        view.settle_step() is Some,
    ensures
        view.settle_step()->0.view.wf(),
        view.settle_step()->0.view.groups == view.groups,
        waiting(view.settle_step()->0.view.states) + 1 == waiting(view.states),
{
    lemma_first_where(view.groups.len(), |g: int| view.doomed(g));
    lemma_first_where(view.groups.len(), |g: int| view.ready(g) && view.group_hit(g));
    lemma_first_where(
        view.workers.len(),
        |w: int| view.workers[w].asking && view.workers[w].job is None,
    );
    lemma_best_upto(view, view.groups.len());
    let step = view.settle_step()->0;
    if view.first_doomed() < view.groups.len() {
        let g = view.first_doomed();
        lemma_resolve_actions(view.files, view.file_states, view.outputs(g), all_dead(view.outputs(g).len()));
        lemma_waiting_update(view.states, g, GroupState::Skipped);
    } else if view.first_hit() < view.groups.len() {
        let g = view.first_hit();
        let executions = view.groups[g].executions@;
        lemma_resolve_actions(
            view.files,
            view.file_states,
            view.outputs(g),
            outcomes(
                view.store,
                executions,
                cached_results(view, executions),
                cached_reports(view, executions),
            ),
        );
        lemma_waiting_update(view.states, g, GroupState::Done);
    } else {
        let w = view.idle_worker();
        let g = view.best_ready();
        lemma_waiting_update(view.states, g, GroupState::Running(view.workers[w].uuid));
        assert forall|v: int| 0 <= v < step.view.workers.len() implies ((
        #[trigger] step.view.workers[v]).job matches Some(job) ==> job < step.view.groups.len()) by {
            if v != w {
                assert(step.view.workers[v] == view.workers[v]);
            }
        }
    }
}

/// With as much fuel as groups wait, settling leaves no step to take.
pub proof fn lemma_settle_fixpoint(view: SchedulerView, fuel: nat)
    requires
        view.wf(),
        waiting(view.states) <= fuel,
    ensures
        view.settle(fuel).view.settle_step() is None,
        view.settle(fuel).view.wf(),
    decreases fuel,
{
    if view.settle_step() is Some {
        lemma_step_decreases(view);
        if fuel > 0 {
            lemma_settle_fixpoint(view.settle_step()->0.view, (fuel - 1) as nat);
        }
    }
}

/// Settling leaves the groups as they are.
pub proof fn lemma_settle_groups(view: SchedulerView, fuel: nat)
    requires
        view.wf(),
    ensures
        view.settle(fuel).view.groups == view.groups,
    decreases fuel,
{
    if fuel > 0 && view.settle_step() is Some {
        lemma_step_decreases(view);
        lemma_settle_groups(view.settle_step()->0.view, (fuel - 1) as nat);
    }
}

/// There is one outcome for each output.
pub proof fn lemma_outcomes_len(
    store: Seq<BlobView>,
    executions: Seq<Execution>,
    results: Seq<ExecutionResultView>,
    reported: Seq<DependencyKey>,
)
    ensures
        outcomes(store, executions, results, reported).len() == outputs_of(
            executions,
        ).len(),
    decreases executions.len(),
{
    if executions.len() > 0 {
        lemma_outcomes_len(store, executions.drop_last(), results, reported);
    }
}

/// Whether `after` has the groups of `before`, in their places, and has not
/// gone back on them: a group that has ended or is skipped stands as it
/// stood, and a group that has left waiting does not wait again.
pub open spec fn keeps_groups(before: SchedulerView, after: SchedulerView) -> bool {
    &&& before.groups.len() <= after.groups.len()
    &&& forall|g: int|
        0 <= g < before.groups.len() ==> (#[trigger] after.groups[g]) == before.groups[g]
    &&& forall|g: int|
        0 <= g < before.groups.len() && over(before.states[g]) ==> (#[trigger] after.states[g])
            == before.states[g]
    &&& forall|g: int|
        0 <= g < before.groups.len() && !(before.states[g] is Waiting) ==> !((
        #[trigger] after.states[g]) is Waiting)
}

/// Whether `after` has the files of `before`, in their places, and has not
/// gone back on them: a file that is ready is ready under the same key, and
/// a file that is dead is dead.
pub open spec fn keeps_files(before: SchedulerView, after: SchedulerView) -> bool {
    &&& before.files.len() <= after.files.len()
    &&& forall|p: int| 0 <= p < before.files.len() ==> (#[trigger] after.files[p]) == before.files[p]
    &&& forall|p: int|
        0 <= p < before.files.len() && (before.file_states[p] is Ready
            || before.file_states[p] is Dead) ==> (#[trigger] after.file_states[p])
            == before.file_states[p]
}

/// Whether `after` keeps what `before` has decided; see [`keeps_groups`] and [`keeps_files`].
pub open spec fn keeps(before: SchedulerView, after: SchedulerView) -> bool {
    &&& after.wf()
    &&& keeps_groups(before, after)
    &&& keeps_files(before, after)
}

/// What is kept by one change and by the next is kept by both.
pub proof fn lemma_keeps_twice(first: SchedulerView, second: SchedulerView, third: SchedulerView)
    requires
        first.wf(),
        keeps(first, second),
        keeps(second, third),
    ensures
        keeps(first, third),
{
    assert forall|g: int| 0 <= g < first.groups.len() implies (#[trigger] third.groups[g])
        == first.groups[g] by {
        assert(second.groups[g] == first.groups[g]);
    }
    assert forall|g: int| 0 <= g < first.groups.len() && over(first.states[g]) implies (
    #[trigger] third.states[g]) == first.states[g] by {
        assert(second.states[g] == first.states[g]);
    }
    assert forall|g: int| 0 <= g < first.groups.len() && !(first.states[g] is Waiting) implies !((
    #[trigger] third.states[g]) is Waiting) by {
        assert(!(second.states[g] is Waiting));
    }
    assert forall|p: int| 0 <= p < first.files.len() implies (#[trigger] third.files[p])
        == first.files[p] by {
        assert(second.files[p] == first.files[p]);
    }
    assert forall|p: int|
        0 <= p < first.files.len() && (first.file_states[p] is Ready
            || first.file_states[p] is Dead) implies (#[trigger] third.file_states[p])
        == first.file_states[p] by {
        assert(second.file_states[p] == first.file_states[p]);
    }
}

/// Resolving files leaves the files that are not pending as they are.
pub proof fn lemma_resolve_keeps(
    files: Seq<FileUuid>,
    states: Seq<FileState>,
    targets: Seq<FileUuid>,
    outcomes: Seq<FileState>,
    p: int,
)
    requires
        states.len() == files.len(),
        0 <= p < files.len(),
        !(states[p] is Pending),
    ensures
        resolve(files, states, targets, outcomes).states[p] == states[p],
    decreases targets.len(),
{
    if targets.len() > 0 {
        lemma_resolve_keeps(files, states, targets.drop_last(), outcomes.drop_last(), p);
        lemma_resolve_actions(files, states, targets.drop_last(), outcomes.drop_last());
        lemma_first_position(files, targets.last());
    }
}

/// A change of the state of one group that did not end, together with the
/// resolution of files, keeps what was decided.
pub proof fn lemma_resolved_keeps(
    view: SchedulerView,
    g: int,
    state: GroupState,
    targets: Seq<FileUuid>,
    outcomes: Seq<FileState>,
)
    requires
        view.wf(),
        0 <= g < view.groups.len(),
        !over(view.states[g]),
        !(state is Waiting),
    ensures
        keeps(
            view,
            SchedulerView {
                states: view.states.update(g, state),
                file_states: resolve(view.files, view.file_states, targets, outcomes).states,
                ..view
            },
        ),
{
    lemma_resolve_actions(view.files, view.file_states, targets, outcomes);
    let after = SchedulerView {
        states: view.states.update(g, state),
        file_states: resolve(view.files, view.file_states, targets, outcomes).states,
        ..view
    };
    assert forall|p: int|
        0 <= p < view.files.len() && (view.file_states[p] is Ready
            || view.file_states[p] is Dead) implies (#[trigger] after.file_states[p])
        == view.file_states[p] by {
        lemma_resolve_keeps(view.files, view.file_states, targets, outcomes, p);
    }
    assert forall|h: int| 0 <= h < view.groups.len() && over(view.states[h]) implies (
    #[trigger] after.states[h]) == view.states[h] by {}
    assert forall|h: int| 0 <= h < view.groups.len() && !(view.states[h] is Waiting) implies !((
    #[trigger] after.states[h]) is Waiting) by {}
    assert(after.wf()) by {
        assert forall|w: int| 0 <= w < after.workers.len() implies ((
        #[trigger] after.workers[w]).job matches Some(job) ==> job < after.groups.len()) by {
            assert(view.workers[w].job matches Some(job) ==> job < view.groups.len());
        }
    }
}

/// A step of settling keeps what was decided.
pub proof fn lemma_settle_step_keeps(view: SchedulerView)
    requires
        view.wf(),
        view.settle_step() is Some,
    ensures
        keeps(view, view.settle_step()->0.view),
{
    lemma_first_where(view.groups.len(), |g: int| view.doomed(g));
    lemma_first_where(view.groups.len(), |g: int| view.ready(g) && view.group_hit(g));
    lemma_first_where(
        view.workers.len(),
        |w: int| view.workers[w].asking && view.workers[w].job is None,
    );
    lemma_best_upto(view, view.groups.len());
    lemma_step_decreases(view);
    if view.first_doomed() < view.groups.len() {
        let g = view.first_doomed();
        lemma_resolved_keeps(
            view,
            g,
            GroupState::Skipped,
            view.outputs(g),
            all_dead(view.outputs(g).len()),
        );
    } else if view.first_hit() < view.groups.len() {
        let g = view.first_hit();
        let executions = view.groups[g].executions@;
        lemma_resolved_keeps(
            view,
            g,
            GroupState::Done,
            view.outputs(g),
            outcomes(
                view.store,
                executions,
                cached_results(view, executions),
                cached_reports(view, executions),
            ),
        );
    }
}

/// Settling keeps what was decided.
pub proof fn lemma_settle_keeps(view: SchedulerView, fuel: nat)
    requires
        view.wf(),
    ensures
        keeps(view, view.settle(fuel).view),
    decreases fuel,
{
    if fuel > 0 && view.settle_step() is Some {
        let step = view.settle_step()->0;
        lemma_settle_step_keeps(view);
        lemma_settle_keeps(step.view, (fuel - 1) as nat);
        lemma_keeps_twice(view, step.view, step.view.settle((fuel - 1) as nat).view);
    }
}

/// The end of a group that runs, and what is settled afterwards, keep what was decided.
pub proof fn lemma_completed_keeps(
    view: SchedulerView,
    g: int,
    results: Seq<ExecutionResultView>,
    reported: Seq<DependencyKey>,
)
    requires
        view.wf(),
        0 <= g < view.groups.len(),
        !over(view.states[g]),
    ensures
        keeps(view, view.completed(g, results, reported).view.settled().view),
{
    let executions = view.groups[g].executions@;
    lemma_resolved_keeps(
        view,
        g,
        GroupState::Done,
        view.outputs(g),
        outcomes(view.store, executions, results, reported),
    );
    let step = view.completed(g, results, reported);
    lemma_settle_keeps(step.view, step.view.groups.len());
    lemma_keeps_twice(view, step.view, step.view.settled().view);
}

/// A state keeps what another has decided if it has the same groups, files
/// and states, and its workers run groups that exist.
pub proof fn lemma_frame_keeps(view: SchedulerView, other: SchedulerView)
    requires
        view.wf(),
        other.groups == view.groups,
        other.states == view.states,
        other.files == view.files,
        other.file_states == view.file_states,
        forall|w: int|
            0 <= w < other.workers.len() ==> ((#[trigger] other.workers[w]).job matches Some(g)
                ==> g < view.groups.len()),
    ensures
        keeps(view, other),
{
}

/// What is decided stays decided when an event is taken in.
pub proof fn lemma_taken_in_keeps(view: SchedulerView, event: Event)
    requires
        view.wf(),
    ensures
        keeps(view, taken_in(view, event).view),
{
    match event {
        Event::WorkerAsked { worker } => {
            let w = first_position(worker_uuids(view.workers), worker);
            lemma_first_position(worker_uuids(view.workers), worker);
            let workers = if w < view.workers.len() {
                view.workers.update(w, WorkerSlot { asking: true, ..view.workers[w] })
            } else {
                view.workers.push(WorkerSlot { uuid: worker, asking: true, job: None })
            };
            assert forall|v: int| 0 <= v < workers.len() implies ((
            #[trigger] workers[v]).job matches Some(job) ==> job < view.groups.len()) by {
                if v < view.workers.len() {
                    assert(workers[v].job == view.workers[v].job);
                }
            }
            let asked = SchedulerView { workers, ..view };
            lemma_frame_keeps(view, asked);
            lemma_settle_keeps(asked, view.groups.len());
            lemma_keeps_twice(view, asked, asked.settled().view);
        },
        Event::Ingested { provided, groups, mode } => {
            let entered = entered(view, provided, groups, mode);
            let start = Registry { files: view.files, states: view.file_states, actions: seq![] };
            let targets = produced_by(groups);
            lemma_registry_announced(view.store, start, provided, targets, 0);
            assert(entered.wf()) by {
                assert forall|w: int| 0 <= w < entered.workers.len() implies ((
                #[trigger] entered.workers[w]).job matches Some(g) ==> g < entered.groups.len()) by {
                    assert(view.workers[w].job matches Some(g) ==> g < view.groups.len());
                }
            }
            assert forall|p: int| 0 <= p < view.files.len() implies (#[trigger] entered.files[p])
                == view.files[p] by {
                lemma_registry_announced(view.store, start, provided, targets, p);
            }
            assert forall|p: int|
                0 <= p < view.files.len() && (view.file_states[p] is Ready
                    || view.file_states[p] is Dead) implies (#[trigger] entered.file_states[p])
                == view.file_states[p] by {
                lemma_registry_announced(view.store, start, provided, targets, p);
            }
            assert forall|g: int| 0 <= g < view.groups.len() implies (#[trigger] entered.groups[g])
                == view.groups[g] by {}
            assert forall|g: int| 0 <= g < view.groups.len() && over(view.states[g]) implies (
            #[trigger] entered.states[g]) == view.states[g] by {}
            assert forall|g: int|
                0 <= g < view.groups.len() && !(view.states[g] is Waiting) implies !((
                #[trigger] entered.states[g]) is Waiting) by {}
            assert(keeps(view, entered));
            lemma_settle_keeps(entered, entered.groups.len());
            lemma_keeps_twice(view, entered, entered.settled().view);
        },
        Event::FileArrived { file, content } => {
            let p = first_position(view.files, file);
            lemma_first_position(view.files, file);
            let key = FileStoreKey::of(content);
            if p < view.files.len() && view.file_states[p] == FileState::Awaited(key) {
                let taken = SchedulerView {
                    store: stored(view.store, key, content),
                    file_states: view.file_states.update(p, FileState::Ready(key)),
                    ..view
                };
                assert(keeps(view, taken));
                lemma_settle_keeps(taken, taken.groups.len());
                lemma_keeps_twice(view, taken, taken.settled().view);
            }
        },
        Event::BlobStored { content } => {},
        Event::ResultArrived { worker, results, reported } => {
            let w = first_position(worker_uuids(view.workers), worker);
            lemma_first_position(worker_uuids(view.workers), worker);
            if !(w >= view.workers.len() || view.workers[w].job is None) {
                let g = view.workers[w].job->0 as int;
                let workers = view.workers.update(w, WorkerSlot { job: None, ..view.workers[w] });
                let freed = SchedulerView { workers, ..view };
                assert forall|v: int| 0 <= v < workers.len() implies ((
                #[trigger] workers[v]).job matches Some(job) ==> job < view.groups.len()) by {
                    if v != w {
                        assert(workers[v] == view.workers[v]);
                    }
                }
                lemma_frame_keeps(view, freed);
                let executions = view.groups[g].executions@;
                if view.states[g] != GroupState::Running(worker) {
                } else if results.len() != executions.len() {
                    let failure = Seq::new(
                        executions.len(),
                        |m: int|
                            internal_error(lost_message()),
                    );
                    lemma_completed_keeps(freed, g, failure, seq![]);
                    lemma_keeps_twice(view, freed, freed.failed(g).view.settled().view);
                } else {
                    let cached = SchedulerView {
                        cache: with_entries(freed, executions, results, reported),
                        ..freed
                    };
                    lemma_frame_keeps(view, cached);
                    lemma_completed_keeps(cached, g, results, reported);
                    lemma_keeps_twice(
                        view,
                        cached,
                        cached.completed(g, results, reported).view.settled().view,
                    );
                }
            }
        },
        Event::WorkerGone { worker } => {
            let w = first_position(worker_uuids(view.workers), worker);
            lemma_first_position(worker_uuids(view.workers), worker);
            if w < view.workers.len() {
                let workers = view.workers.remove(w);
                let left = SchedulerView { workers, ..view };
                assert forall|v: int| 0 <= v < workers.len() implies ((
                #[trigger] workers[v]).job matches Some(job) ==> job < view.groups.len()) by {
                    let u = if v < w { v } else { v + 1 };
                    assert(workers[v] == view.workers[u]);
                }
                lemma_frame_keeps(view, left);
                match view.workers[w].job {
                    Some(job) => {
                        if view.states[job as int] == GroupState::Running(worker) {
                            let executions = view.groups[job as int].executions@;
                            let failure = Seq::new(
                                executions.len(),
                                |m: int|
                                    internal_error(
                                        lost_message(),
                                    ),
                            );
                            lemma_completed_keeps(left, job as int, failure, seq![]);
                            lemma_keeps_twice(
                                view,
                                left,
                                left.failed(job as int).view.settled().view,
                            );
                        }
                    },
                    None => {},
                }
            }
        },
        Event::Stopped => {},
        Event::Released => {},
        Event::Evicted => {},
    }
}

/// Taking references leaves the keys of the blobs as they are, and leaves
/// none of the blobs under `keys` without a reference.
pub proof fn lemma_retained_all(
    store: Seq<BlobView>,
    keys: Seq<FileStoreKey>,
    p: int,
)
    requires
        0 <= p < store.len(),
    ensures
        retained_all(store, keys).len() == store.len(),
        retained_all(store, keys)[p].key == store[p].key,
        retained_all(store, keys)[p].content == store[p].content,
        retained_all(store, keys)[p].references >= store[p].references,
        first_position(blob_keys(store), store[p].key) == p
            && keys.contains(store[p].key) ==> retained_all(
            store,
            keys,
        )[p].references > 0,
    decreases keys.len(),
{
    if keys.len() > 0 {
        let before = retained_all(store, keys.drop_last());
        lemma_retained_all(store, keys.drop_last(), p);
        lemma_first_position(blob_keys(before), keys.last());
        let q = first_position(blob_keys(before), keys.last());
        assert forall|i: int| 0 <= i < store.len() implies blob_keys(before)[i]
            == blob_keys(store)[i] by {
            lemma_retained_all(store, keys.drop_last(), i);
        }
        assert(blob_keys(before) =~= blob_keys(store));
        if first_position(blob_keys(store), store[p].key) == p
            && keys.contains(store[p].key) {
            let i = choose|i: int| 0 <= i < keys.len() && keys[i] == store[p].key;
            if i < keys.len() - 1 {
                assert(keys.drop_last()[i] == store[p].key);
            }
        }
    }
}

} // verus!
