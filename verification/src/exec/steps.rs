//! What one step of settling takes, and what it leaves as it was.

use vstd::prelude::*;
use crate::dag::file::FileUuid;
use crate::exec::invariants::{
    is_work, lemma_best_upto, lemma_outcomes_len, lemma_resolve_actions, lemma_resolve_keeps,
    lemma_settle_fixpoint, lemma_waiting_bound,
};
use crate::store::BlobView;
use crate::dag::execution::{outputs_of, Execution, ExecutionResultView};
use crate::exec::model::{
    all_dead, cached_reports, cached_results, outcomes, resolve, ActionView, DependencyKey,
    FileState, GroupState, SchedulerView,
};
use crate::exec::worker::lemma_member_file;
use crate::search::{first_position, lemma_first_position, lemma_first_where};

verus! {

/// The group that the next step of settling takes: the first that can never
/// run; if there is none, the first ready group that the cache answers; if
/// there is none, the best ready group.
pub open spec fn step_group(view: SchedulerView) -> int {
    if view.first_doomed() < view.groups.len() {
        view.first_doomed()
    } else if view.first_hit() < view.groups.len() {
        view.first_hit()
    } else {
        view.best_ready()
    }
}

/// Whether the next step of settling, if there is one, gives a group to a worker.
pub open spec fn step_dispatches(view: SchedulerView) -> bool {
    view.first_doomed() >= view.groups.len() && view.first_hit() >= view.groups.len()
}

/// Resolving with dead outcomes leaves each file as it was or dead.
pub proof fn lemma_resolve_dead_states(
    files: Seq<FileUuid>,
    states: Seq<FileState>,
    targets: Seq<FileUuid>,
    p: int,
)
    requires
        states.len() == files.len(),
        0 <= p < files.len(),
    ensures
        ({
            let after = resolve(files, states, targets, all_dead(targets.len())).states;
            after[p] == states[p] || (states[p] is Pending && after[p] is Dead)
        }),
    decreases targets.len(),
{
    if targets.len() > 0 {
        assert(all_dead(targets.len()).drop_last() =~= all_dead(targets.drop_last().len()));
        lemma_resolve_dead_states(files, states, targets.drop_last(), p);
        lemma_resolve_actions(
            files,
            states,
            targets.drop_last(),
            all_dead(targets.drop_last().len()),
        );
        lemma_first_position(files, targets.last());
    }
}

/// Resolving with dead outcomes kills a pending file that is among the targets.
pub proof fn lemma_resolve_kills(
    files: Seq<FileUuid>,
    states: Seq<FileState>,
    targets: Seq<FileUuid>,
    file: FileUuid,
)
    requires
        states.len() == files.len(),
        first_position(files, file) < files.len(),
        states[first_position(files, file)] is Pending,
        exists|i: int| 0 <= i < targets.len() && #[trigger] targets[i] == file,
    ensures
        resolve(files, states, targets, all_dead(targets.len())).states[first_position(
            files,
            file,
        )] is Dead,
    decreases targets.len(),
{
    let p = first_position(files, file);
    lemma_first_position(files, file);
    assert(all_dead(targets.len()).drop_last() =~= all_dead(targets.drop_last().len()));
    let rest = targets.drop_last();
    lemma_resolve_dead_states(files, states, rest, p);
    lemma_resolve_actions(files, states, rest, all_dead(rest.len()));
    if targets.last() == file {
    } else {
        let i = choose|i: int| 0 <= i < targets.len() && #[trigger] targets[i] == file;
        assert(rest[i] == file);
        lemma_resolve_kills(files, states, rest, file);
        lemma_first_position(files, targets.last());
    }
}

/// Resolving leaves a file alone that is not among the targets.
pub proof fn lemma_resolve_other(
    files: Seq<FileUuid>,
    states: Seq<FileState>,
    targets: Seq<FileUuid>,
    outcomes: Seq<FileState>,
    file: FileUuid,
)
    requires
        states.len() == files.len(),
        first_position(files, file) < files.len(),
        forall|i: int| 0 <= i < targets.len() ==> #[trigger] targets[i] != file,
    ensures
        resolve(files, states, targets, outcomes).states[first_position(files, file)]
            == states[first_position(files, file)],
    decreases targets.len(),
{
    if targets.len() > 0 {
        let rest = targets.drop_last();
        assert forall|i: int| 0 <= i < rest.len() implies #[trigger] rest[i] != file by {
            assert(rest[i] == targets[i]);
        }
        lemma_resolve_other(files, states, rest, outcomes.drop_last(), file);
        lemma_resolve_actions(files, states, rest, outcomes.drop_last());
        lemma_first_position(files, targets.last());
        lemma_first_position(files, file);
        assert(targets[targets.len() - 1] != file);
    }
}

/// Resolving gives a pending file that is one of the targets, and only one,
/// the outcome that stands for it.
pub proof fn lemma_resolve_sets(
    files: Seq<FileUuid>,
    states: Seq<FileState>,
    targets: Seq<FileUuid>,
    outcomes: Seq<FileState>,
    file: FileUuid,
    i: int,
)
    requires
        states.len() == files.len(),
        outcomes.len() == targets.len(),
        first_position(files, file) < files.len(),
        states[first_position(files, file)] is Pending,
        0 <= i < targets.len(),
        targets[i] == file,
        forall|j: int| 0 <= j < targets.len() && j != i ==> #[trigger] targets[j] != file,
    ensures
        resolve(files, states, targets, outcomes).states[first_position(files, file)]
            == outcomes[i],
    decreases targets.len(),
{
    let rest = targets.drop_last();
    lemma_first_position(files, file);
    lemma_resolve_actions(files, states, rest, outcomes.drop_last());
    if i == targets.len() - 1 {
        assert forall|j: int| 0 <= j < rest.len() implies #[trigger] rest[j] != file by {
            assert(rest[j] == targets[j]);
        }
        lemma_resolve_other(files, states, rest, outcomes.drop_last(), file);
    } else {
        assert forall|j: int| 0 <= j < rest.len() && j != i implies #[trigger] rest[j] != file by {
            assert(rest[j] == targets[j]);
        }
        assert(rest[i] == file);
        lemma_resolve_sets(files, states, rest, outcomes.drop_last(), file, i);
        assert(outcomes.drop_last()[i] == outcomes[i]);
        lemma_first_position(files, targets.last());
        assert(targets[targets.len() - 1] != file);
    }
}

/// What a step of settling takes and leaves: it takes one group out of
/// waiting, a doomed one into skipped and a ready one into done or running;
/// the other groups, the files, the store and the cache are as they were, and
/// so is every file that was not pending; and it gives work only where it
/// gives its group to a worker, as its first action.
pub proof fn lemma_step_frame(view: SchedulerView)
    requires
        view.wf(),
        view.settle_step() is Some,
    ensures
        ({
            let next = view.settle_step()->0.view;
            let actions = view.settle_step()->0.actions;
            let t = step_group(view);
            &&& next.wf()
            &&& next.groups == view.groups
            &&& next.files == view.files
            &&& next.store == view.store
            &&& next.cache == view.cache
            &&& next.mode == view.mode
            &&& next.file_states.len() == view.file_states.len()
            &&& 0 <= t < view.groups.len()
            &&& view.states[t] is Waiting
            &&& next.states == view.states.update(t, next.states[t])
            &&& if view.first_doomed() < view.groups.len() {
                view.doomed(t) && next.states[t] is Skipped
            } else {
                view.ready(t) && (next.states[t] is Done || next.states[t] is Running)
            }
            &&& !step_dispatches(view) && view.first_doomed() >= view.groups.len()
                ==> view.group_hit(t)
            &&& step_dispatches(view) ==> actions.len() > 0 && is_work(actions[0], t)
            &&& forall|i: int|
                0 <= i < actions.len() && (#[trigger] actions[i]) is Work ==> step_dispatches(view)
                    && i == 0
            &&& forall|p: int|
                0 <= p < view.files.len() && !(view.file_states[p] is Pending) ==> (
                #[trigger] next.file_states[p]) == view.file_states[p]
        }),
{
    lemma_first_where(view.groups.len(), |g: int| view.doomed(g));
    lemma_first_where(view.groups.len(), |g: int| view.ready(g) && view.group_hit(g));
    lemma_first_where(
        view.workers.len(),
        |w: int| view.workers[w].asking && view.workers[w].job is None,
    );
    lemma_best_upto(view, view.groups.len());
    let step = view.settle_step()->0;
    let next = step.view;
    let actions = step.actions;
    if view.first_doomed() < view.groups.len() {
        let g = view.first_doomed();
        let dead = all_dead(view.outputs(g).len());
        lemma_resolve_actions(view.files, view.file_states, view.outputs(g), dead);
        assert forall|p: int|
            0 <= p < view.files.len() && !(view.file_states[p] is Pending) implies (
        #[trigger] next.file_states[p]) == view.file_states[p] by {
            lemma_resolve_keeps(view.files, view.file_states, view.outputs(g), dead, p);
        }
        assert forall|i: int| 0 <= i < actions.len() implies !((#[trigger] actions[i]) is Work) by {
            assert(actions[i] is Skipped);
        }
    } else if view.first_hit() < view.groups.len() {
        let g = view.first_hit();
        let executions = view.groups[g].executions@;
        let results = cached_results(view, executions);
        let states = outcomes(view.store, executions, results, cached_reports(view, executions));
        lemma_resolve_actions(view.files, view.file_states, view.outputs(g), states);
        assert forall|p: int|
            0 <= p < view.files.len() && !(view.file_states[p] is Pending) implies (
        #[trigger] next.file_states[p]) == view.file_states[p] by {
            lemma_resolve_keeps(view.files, view.file_states, view.outputs(g), states, p);
        }
        let announced = resolve(view.files, view.file_states, view.outputs(g), states).actions;
        assert forall|i: int| 0 <= i < actions.len() implies !((#[trigger] actions[i]) is Work) by {
            if i < executions.len() {
                assert(actions[i] is Done);
            } else {
                assert(actions[i] == announced[i - executions.len()]);
            }
        }
    } else {
        let w = view.idle_worker();
        let g = view.best_ready();
        assert forall|v: int| 0 <= v < next.workers.len() implies ((
        #[trigger] next.workers[v]).job matches Some(job) ==> job < next.groups.len()) by {
            if v != w {
                assert(next.workers[v] == view.workers[v]);
            }
        }
        assert forall|i: int|
            0 <= i < actions.len() && (#[trigger] actions[i]) is Work implies i == 0 by {
            if i > 0 {
                assert(actions[i] is Started);
            }
        }
    }
}

/// Whether `file` is among the files that group `g` produces.
pub open spec fn produces(view: SchedulerView, g: int, file: FileUuid) -> bool {
    exists|i: int| 0 <= i < view.outputs(g).len() && #[trigger] view.outputs(g)[i] == file
}

/// Whether `file` is among the files that group `g` reads.
pub open spec fn reads(view: SchedulerView, g: int, file: FileUuid) -> bool {
    exists|i: int| 0 <= i < view.dependencies(g).len() && #[trigger] view.dependencies(g)[i] == file
}

/// A step of settling leaves a file as it stood that its group does not produce.
pub proof fn lemma_step_other_file(view: SchedulerView, file: FileUuid)
    requires
        view.wf(),
        view.settle_step() is Some,
        !produces(view, step_group(view), file),
    ensures
        view.settle_step()->0.view.file_state(file) == view.file_state(file),
{
    lemma_step_frame(view);
    lemma_first_position(view.files, file);
    let t = step_group(view);
    let targets = view.outputs(t);
    assert forall|i: int| 0 <= i < targets.len() implies #[trigger] targets[i] != file by {
        if targets[i] == file {
            assert(produces(view, t, file));
        }
    }
    if first_position(view.files, file) < view.files.len() {
        if view.first_doomed() < view.groups.len() {
            lemma_resolve_other(
                view.files,
                view.file_states,
                targets,
                all_dead(targets.len()),
                file,
            );
        } else if view.first_hit() < view.groups.len() {
            let executions = view.groups[t].executions@;
            lemma_resolve_other(
                view.files,
                view.file_states,
                targets,
                outcomes(
                    view.store,
                    executions,
                    cached_results(view, executions),
                    cached_reports(view, executions),
                ),
                file,
            );
        }
    }
}

/// The step that skips a group kills each pending file that the group produces.
pub proof fn lemma_step_kills(view: SchedulerView, file: FileUuid)
    requires
        view.wf(),
        view.first_doomed() < view.groups.len(),
        produces(view, view.first_doomed(), file),
        view.file_state(file) is Pending,
    ensures
        view.settle_step()->0.view.file_state(file) is Dead,
{
    lemma_step_frame(view);
    lemma_first_position(view.files, file);
    let targets = view.outputs(view.first_doomed());
    lemma_resolve_kills(view.files, view.file_states, targets, file);
}

/// The end of a group leaves the other groups and the files in place, and
/// gives no work.
pub proof fn lemma_completed_frame(
    view: SchedulerView,
    a: int,
    results: Seq<ExecutionResultView>,
    reported: Seq<DependencyKey>,
)
    requires
        view.wf(),
        0 <= a < view.groups.len(),
    ensures
        ({
            let step = view.completed(a, results, reported);
            &&& step.view.wf()
            &&& step.view.groups == view.groups
            &&& step.view.files == view.files
            &&& step.view.states == view.states.update(a, GroupState::Done)
            &&& forall|i: int| 0 <= i < step.actions.len() ==> !((#[trigger] step.actions[i]) is Work)
        }),
{
    let executions = view.groups[a].executions@;
    let states = outcomes(view.store, executions, results, reported);
    let step = view.completed(a, results, reported);
    lemma_resolve_actions(view.files, view.file_states, view.outputs(a), states);
    let announced = resolve(view.files, view.file_states, view.outputs(a), states).actions;
    assert forall|i: int| 0 <= i < step.actions.len() implies !((#[trigger] step.actions[i]) is Work) by {
        if i < executions.len() {
            assert(step.actions[i] is Done);
        } else {
            assert(step.actions[i] == announced[i - executions.len()]);
        }
    }
}

/// The end of a group kills the pending output of a member that did not
/// succeed, where no other output of the group is that file.
pub proof fn lemma_completed_kills(
    view: SchedulerView,
    a: int,
    results: Seq<ExecutionResultView>,
    reported: Seq<DependencyKey>,
    file: FileUuid,
    i: int,
)
    requires
        view.wf(),
        0 <= a < view.groups.len(),
        view.file_state(file) is Pending,
        0 <= i < view.outputs(a).len(),
        view.outputs(a)[i] == file,
        forall|j: int| 0 <= j < view.outputs(a).len() && j != i ==> #[trigger] view.outputs(a)[j] != file,
        outcomes(view.store, view.groups[a].executions@, results, reported).len() == view.outputs(
            a,
        ).len(),
        outcomes(view.store, view.groups[a].executions@, results, reported)[i] == FileState::Dead,
    ensures
        view.completed(a, results, reported).view.file_state(file) is Dead,
{
    let states = outcomes(view.store, view.groups[a].executions@, results, reported);
    lemma_first_position(view.files, file);
    lemma_resolve_sets(view.files, view.file_states, view.outputs(a), states, file, i);
}

/// The end of a group leaves a file as it stood that the group does not produce.
pub proof fn lemma_completed_other(
    view: SchedulerView,
    a: int,
    results: Seq<ExecutionResultView>,
    reported: Seq<DependencyKey>,
    file: FileUuid,
)
    requires
        view.wf(),
        0 <= a < view.groups.len(),
        !produces(view, a, file),
    ensures
        view.completed(a, results, reported).view.file_state(file) == view.file_state(file),
{
    let states = outcomes(view.store, view.groups[a].executions@, results, reported);
    let targets = view.outputs(a);
    lemma_first_position(view.files, file);
    assert forall|j: int| 0 <= j < targets.len() implies #[trigger] targets[j] != file by {
        if targets[j] == file {
            assert(produces(view, a, file));
        }
    }
    if first_position(view.files, file) < view.files.len() {
        lemma_resolve_other(view.files, view.file_states, targets, states, file);
    }
}

/// A file that is not pending stands, in a state with the same files, as it
/// stood, where each file that was not pending has kept its state.
pub proof fn lemma_file_stays(view: SchedulerView, next: SchedulerView, file: FileUuid)
    requires
        view.wf(),
        next.files == view.files,
        next.file_states.len() == view.file_states.len(),
        forall|p: int|
            0 <= p < view.files.len() && !(view.file_states[p] is Pending) ==> (
            #[trigger] next.file_states[p]) == view.file_states[p],
        !(view.file_state(file) is Pending),
    ensures
        next.file_state(file) == view.file_state(file),
{
    lemma_first_position(view.files, file);
}

/// A group whose files are all ready is still ready, and is answered by the
/// cache or not as it was, in a state with the same groups, files, store and
/// cache in which the group waits as before and each file that was not
/// pending has kept its state.
pub proof fn lemma_ready_stays(view: SchedulerView, next: SchedulerView, g: int)
    requires
        view.wf(),
        0 <= g < view.groups.len(),
        view.ready(g),
        next.groups == view.groups,
        next.files == view.files,
        next.store == view.store,
        next.cache == view.cache,
        next.mode == view.mode,
        next.file_states.len() == view.file_states.len(),
        next.states[g] == view.states[g],
        forall|p: int|
            0 <= p < view.files.len() && !(view.file_states[p] is Pending) ==> (
            #[trigger] next.file_states[p]) == view.file_states[p],
    ensures
        next.ready(g),
        next.group_hit(g) == view.group_hit(g),
        next.priority(g) == view.priority(g),
{
    let files = view.dependencies(g);
    assert forall|i: int| 0 <= i < files.len() implies next.file_state(#[trigger] files[i])
        == view.file_state(files[i]) by {
        assert(view.file_state(files[i]) is Ready);
        lemma_file_stays(view, next, files[i]);
    }
    let executions = view.groups[g].executions@;
    assert forall|m: int| 0 <= m < executions.len() implies next.hit(#[trigger] executions[m])
        == view.hit(executions[m]) by {
        let reads = executions[m].spec_dependencies();
        assert forall|d: int| 0 <= d < reads.len() implies next.keys(reads)[d] == view.keys(
            reads,
        )[d] by {
            lemma_member_file(executions, m, d);
            let i = choose|i: int|
                0 <= i < files.len() && #[trigger] files[i] == executions[m].spec_dependencies()[d];
            assert(next.file_state(files[i]) == view.file_state(files[i]));
        }
        assert(next.keys(reads) =~= view.keys(reads));
    }
    if view.group_hit(g) {
        assert forall|m: int| 0 <= m < executions.len() implies next.hit(
            #[trigger] next.groups[g].executions@[m],
        ) by {
            assert(view.hit(executions[m]));
        }
    }
    if next.group_hit(g) {
        assert forall|m: int| 0 <= m < executions.len() implies view.hit(
            #[trigger] view.groups[g].executions@[m],
        ) by {
            assert(next.hit(executions[m]));
        }
    }
}

/// Whether group `g` comes before group `h` where both are ready: its
/// priority is larger, or the same and it was declared first.
pub open spec fn outranks(view: SchedulerView, g: int, h: int) -> bool {
    view.priority(g) > view.priority(h) || (view.priority(g) == view.priority(h) && g < h)
}

/// Whether the actions give group `h` to a worker only after they gave group
/// `g` to one.
pub open spec fn goes_first(actions: Seq<ActionView>, g: int, h: int) -> bool {
    forall|i: int|
        0 <= i < actions.len() && is_work(#[trigger] actions[i], h) ==> exists|j: int|
            0 <= j < i && is_work(#[trigger] actions[j], g)
}

/// A group with a dead file among those it reads is not ready.
pub proof fn lemma_doomed_is_not_ready(view: SchedulerView, g: int)
    requires
        view.some_dead(view.dependencies(g)),
    ensures
        !view.all_ready(view.dependencies(g)),
{
    let files = view.dependencies(g);
    let i = choose|i: int| 0 <= i < files.len() && view.file_state(#[trigger] files[i]) is Dead;
    assert(!(view.file_state(files[i]) is Ready));
}

/// While a ready group that the cache does not answer waits, no group that
/// it outranks is given to a worker, however many steps are taken.
pub proof fn lemma_goes_first(view: SchedulerView, fuel: nat, g: int, h: int)
    requires
        view.wf(),
        0 <= g < view.groups.len(),
        0 <= h < view.groups.len(),
        view.ready(g),
        !view.group_hit(g),
        outranks(view, g, h),
    ensures
        goes_first(view.settle(fuel).actions, g, h),
    decreases fuel,
{
    if fuel > 0 && view.settle_step() is Some {
        let step = view.settle_step()->0;
        let rest = step.view.settle((fuel - 1) as nat);
        let all = view.settle(fuel).actions;
        assert(all == step.actions + rest.actions);
        lemma_step_frame(view);
        lemma_best_upto(view, view.groups.len());
        let t = step_group(view);
        if view.doomed(g) {
            lemma_doomed_is_not_ready(view, g);
        }
        if t == g {
            assert(step_dispatches(view));
            assert(is_work(all[0], g));
            assert forall|i: int| 0 <= i < all.len() && is_work(#[trigger] all[i], h) implies exists|
                j: int,
            | 0 <= j < i && is_work(#[trigger] all[j], g) by {
                assert(i != 0);
                assert(is_work(all[0], g));
            }
        } else {
            assert(step.view.states[g] == view.states[g]);
            lemma_ready_stays(view, step.view, g);
            assert(step.view.priority(h) == view.priority(h));
            lemma_goes_first(step.view, (fuel - 1) as nat, g, h);
            assert forall|i: int| 0 <= i < step.actions.len() implies !is_work(
                #[trigger] step.actions[i],
                h,
            ) by {
                if step.actions[i] is Work {
                    assert(i == 0 && step_dispatches(view));
                    assert(is_work(step.actions[0], t));
                    assert(view.ready(g));
                }
            }
            assert forall|i: int| 0 <= i < all.len() && is_work(#[trigger] all[i], h) implies exists|
                j: int,
            | 0 <= j < i && is_work(#[trigger] all[j], g) by {
                if i < step.actions.len() {
                    assert(all[i] == step.actions[i]);
                } else {
                    let k = i - step.actions.len();
                    assert(all[i] == rest.actions[k]);
                    let j = choose|j: int| 0 <= j < k && is_work(#[trigger] rest.actions[j], g);
                    assert(all[j + step.actions.len()] == rest.actions[j]);
                }
            }
        }
    }
}

/// Where a skip has got to between a group `b` that cannot run and a group
/// `c` that reads a file `f` of it: `b` still waits to be skipped and `f` is
/// pending, or `b` is skipped and `f` is dead; `c` waits or is skipped.
pub open spec fn cascading(view: SchedulerView, b: int, c: int, f: FileUuid) -> bool {
    &&& view.states[c] is Waiting || view.states[c] is Skipped
    &&& {
        ||| view.doomed(b) && view.file_state(f) is Pending
        ||| view.states[b] is Skipped && view.file_state(f) is Dead
    }
}

/// Settling keeps a skip going between a group that cannot run and a group
/// that reads a file of it, and gives neither of them to a worker.
pub proof fn lemma_cascade(view: SchedulerView, fuel: nat, b: int, c: int, f: FileUuid)
    requires
        view.wf(),
        0 <= b < view.groups.len(),
        0 <= c < view.groups.len(),
        produces(view, b, f),
        reads(view, c, f),
        forall|g: int| 0 <= g < view.groups.len() && g != b ==> !#[trigger] produces(view, g, f),
        cascading(view, b, c, f),
    ensures
        view.settle(fuel).view.wf(),
        view.settle(fuel).view.groups == view.groups,
        cascading(view.settle(fuel).view, b, c, f),
        forall|i: int|
            0 <= i < view.settle(fuel).actions.len() ==> !is_work(
                #[trigger] view.settle(fuel).actions[i],
                b,
            ) && !is_work(view.settle(fuel).actions[i], c),
    decreases fuel,
{
    if fuel > 0 && view.settle_step() is Some {
        let step = view.settle_step()->0;
        let next = step.view;
        let rest = next.settle((fuel - 1) as nat);
        let all = view.settle(fuel).actions;
        assert(all == step.actions + rest.actions);
        lemma_step_frame(view);
        let t = step_group(view);
        // neither group is ready, so neither is taken but to be skipped
        let i = choose|i: int|
            0 <= i < view.dependencies(c).len() && #[trigger] view.dependencies(c)[i] == f;
        assert(!(view.file_state(view.dependencies(c)[i]) is Ready));
        assert(!view.ready(c));
        if view.doomed(b) {
            lemma_doomed_is_not_ready(view, b);
        }
        assert(!view.ready(b));
        // the file of the skip
        if t == b {
            lemma_step_kills(view, f);
        } else {
            lemma_step_other_file(view, f);
            if view.doomed(b) {
                let files = view.dependencies(b);
                let d = choose|d: int|
                    0 <= d < files.len() && view.file_state(#[trigger] files[d]) is Dead;
                lemma_file_stays(view, next, files[d]);
                assert(next.file_state(next.dependencies(b)[d]) is Dead);
            }
        }
        assert(cascading(next, b, c, f));
        assert forall|g: int| 0 <= g < next.groups.len() && g != b implies !#[trigger] produces(
            next,
            g,
            f,
        ) by {
            assert(next.outputs(g) == view.outputs(g));
            if produces(next, g, f) {
                assert(produces(view, g, f));
            }
        }
        assert(next.outputs(b) == view.outputs(b));
        assert(next.dependencies(c) == view.dependencies(c));
        assert(produces(next, b, f));
        assert(reads(next, c, f));
        lemma_cascade(next, (fuel - 1) as nat, b, c, f);
        assert forall|i: int| 0 <= i < all.len() implies !is_work(#[trigger] all[i], b) && !is_work(
            all[i],
            c,
        ) by {
            if i < step.actions.len() {
                assert(all[i] == step.actions[i]);
                if step.actions[i] is Work {
                    assert(i == 0 && step_dispatches(view));
                    assert(is_work(step.actions[0], t));
                    assert(view.ready(t));
                }
            } else {
                assert(all[i] == rest.actions[i - step.actions.len()]);
            }
        }
    }
}

/// A skip, once it has got going between two groups, is through when the
/// scheduler has settled: both groups are skipped, and neither was given to
/// a worker.
pub proof fn lemma_cascade_settled(view: SchedulerView, b: int, c: int, f: FileUuid)
    requires
        view.wf(),
        0 <= b < view.groups.len(),
        0 <= c < view.groups.len(),
        produces(view, b, f),
        reads(view, c, f),
        forall|g: int| 0 <= g < view.groups.len() && g != b ==> !#[trigger] produces(view, g, f),
        cascading(view, b, c, f),
    ensures
        view.settled().view.states[b] is Skipped,
        view.settled().view.states[c] is Skipped,
        view.settled().view.file_state(f) is Dead,
        forall|i: int|
            0 <= i < view.settled().actions.len() ==> !is_work(
                #[trigger] view.settled().actions[i],
                b,
            ) && !is_work(view.settled().actions[i], c),
{
    lemma_cascade(view, view.groups.len(), b, c, f);
    lemma_waiting_bound(view.states);
    lemma_settle_fixpoint(view, view.groups.len());
    let last = view.settled().view;
    lemma_first_where(last.groups.len(), |g: int| last.doomed(g));
    assert(!(|g: int| last.doomed(g))(b));
    assert(!(|g: int| last.doomed(g))(c));
    assert(last.dependencies(c) == view.dependencies(c));
    let i = choose|i: int|
        0 <= i < view.dependencies(c).len() && #[trigger] view.dependencies(c)[i] == f;
    if last.states[c] is Waiting {
        assert(last.file_state(last.dependencies(c)[i]) is Dead);
        assert(last.some_dead(last.dependencies(c)));
    }
}

/// The end of a group of which a member did not succeed, and what is
/// settled afterwards, skip the chain that hangs on the output of that
/// member; see [`crate::exec::laws::law_failure_skips_the_chain`].
pub proof fn lemma_failure_cascades(
    view: SchedulerView,
    a: int,
    results: Seq<ExecutionResultView>,
    reported: Seq<DependencyKey>,
    m: int,
    k: int,
    b: int,
    c: int,
    f: FileUuid,
)
    requires
        view.wf(),
        0 <= a < view.groups.len(),
        0 <= b < view.groups.len(),
        0 <= c < view.groups.len(),
        !(view.states[a] is Waiting),
        view.states[b] is Waiting,
        view.states[c] is Waiting,
        results.len() == view.groups[a].executions@.len(),
        0 <= m < view.groups[a].executions@.len(),
        0 <= k < view.groups[a].executions@[m].spec_outputs().len(),
        !(results[m].status is Success),
        view.file_state(view.groups[a].executions@[m].spec_outputs()[k]) is Pending,
        forall|i: int, j: int|
            0 <= i < view.outputs(a).len() && 0 <= j < view.outputs(a).len() && view.outputs(a)[i]
                == view.groups[a].executions@[m].spec_outputs()[k] && view.outputs(a)[j]
                == view.groups[a].executions@[m].spec_outputs()[k] ==> i == j,
        reads(view, b, view.groups[a].executions@[m].spec_outputs()[k]),
        view.file_state(f) is Pending,
        produces(view, b, f),
        reads(view, c, f),
        forall|g: int| 0 <= g < view.groups.len() && g != b ==> !#[trigger] produces(view, g, f),
    ensures
        ({
            let first = view.completed(a, results, reported);
            let rest = first.view.settled();
            &&& rest.view.states[b] is Skipped
            &&& rest.view.states[c] is Skipped
            &&& forall|i: int|
                0 <= i < (first.actions + rest.actions).len() ==> !is_work(
                    #[trigger] (first.actions + rest.actions)[i],
                    b,
                ) && !is_work((first.actions + rest.actions)[i], c)
        }),
{
    let executions = view.groups[a].executions@;
    let e = executions[m].spec_outputs()[k];
    let first = view.completed(a, results, reported);
    lemma_completed_frame(view, a, results, reported);
    assert(first.view.doomed(b)) by {
        lemma_outcomes_dead(view.store, executions, results, reported, m, k);
        let states = outcomes(view.store, executions, results, reported);
        let i = choose|i: int|
            0 <= i < states.len() && outputs_of(executions)[i] == e && #[trigger] states[i]
                == FileState::Dead;
        assert forall|j: int| 0 <= j < view.outputs(a).len() && j != i implies #[trigger] view.outputs(
            a,
        )[j] != e by {
            assert(view.outputs(a)[i] == e);
        }
        lemma_completed_kills(view, a, results, reported, e, i);
        let d = choose|d: int|
            0 <= d < view.dependencies(b).len() && #[trigger] view.dependencies(b)[d] == e;
        assert(first.view.file_state(first.view.dependencies(b)[d]) is Dead);
    }
    assert(first.view.file_state(f) is Pending) by {
        lemma_completed_other(view, a, results, reported, f);
    }
    assert forall|g: int| 0 <= g < first.view.groups.len() && g != b implies !#[trigger] produces(
        first.view,
        g,
        f,
    ) by {
        assert(first.view.outputs(g) == view.outputs(g));
        if produces(first.view, g, f) {
            assert(produces(view, g, f));
        }
    }
    assert(produces(first.view, b, f)) by {
        assert(first.view.outputs(b) == view.outputs(b));
    }
    assert(reads(first.view, c, f)) by {
        assert(first.view.dependencies(c) == view.dependencies(c));
    }
    lemma_cascade_settled(first.view, b, c, f);
    let rest = first.view.settled();
    let all = first.actions + rest.actions;
    assert forall|i: int| 0 <= i < all.len() implies !is_work(#[trigger] all[i], b) && !is_work(
        all[i],
        c,
    ) by {
        if i < first.actions.len() {
            assert(all[i] == first.actions[i]);
        } else {
            assert(all[i] == rest.actions[i - first.actions.len()]);
        }
    }
}

/// The outcome of an output of a member that did not succeed is dead.
pub proof fn lemma_outcomes_dead(
    store: Seq<BlobView>,
    executions: Seq<Execution>,
    results: Seq<ExecutionResultView>,
    reported: Seq<DependencyKey>,
    m: int,
    k: int,
)
    requires
        0 <= m < executions.len(),
        0 <= k < executions[m].spec_outputs().len(),
        !(results[m].status is Success),
    ensures
        outcomes(store, executions, results, reported).len() == outputs_of(executions).len(),
        exists|i: int|
            0 <= i < outcomes(store, executions, results, reported).len() && outputs_of(
                executions,
            )[i] == executions[m].spec_outputs()[k] && #[trigger] outcomes(
                store,
                executions,
                results,
                reported,
            )[i] == FileState::Dead,
    decreases executions.len(),
{
    let last = executions.len() - 1;
    let all = outcomes(store, executions, results, reported);
    let files = outputs_of(executions);
    lemma_outcomes_len(store, executions.drop_last(), results, reported);
    if m == last {
        let i = outputs_of(executions.drop_last()).len() + k;
        assert(files[i] == executions[m].spec_outputs()[k]);
        assert(all[i] == FileState::Dead);
    } else {
        lemma_outcomes_dead(store, executions.drop_last(), results, reported, m, k);
        let before = outcomes(store, executions.drop_last(), results, reported);
        let i = choose|i: int|
            0 <= i < before.len() && outputs_of(executions.drop_last())[i]
                == executions.drop_last()[m].spec_outputs()[k] && #[trigger] before[i]
                == FileState::Dead;
        assert(all[i] == before[i]);
        assert(files[i] == outputs_of(executions.drop_last())[i]);
    }
}

} // verus!
