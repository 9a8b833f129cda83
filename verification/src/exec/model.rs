//! What the scheduler does, stated on mathematical values: the state of a
//! scheduler is a value, every event maps a state to the next state and to the
//! actions that the event calls for.

use vstd::prelude::*;
use crate::cache::{
    caches, entry_of, inserted, output_names, tag_view, CacheEntryView, CacheModeView,
};
use crate::dag::dag::{produced_by, ProvidedFile};
use crate::dag::execution::{
    dependencies_of, outputs_of, priority_of, Execution, ExecutionGroup,
    ExecutionResourcesUsage, ExecutionResultView, ExecutionStatusView, Priority,
};
use crate::dag::file::{ExecutionGroupUuid, ExecutionUuid, FileUuid, WorkerUuid};
use crate::fingerprint::{fingerprint_of, Fingerprint};
use crate::search::{first_position, first_where, lemma_first_position_is, occurs};
use crate::store::{evicted, holds, released, retained, stored, BlobView, FileStoreKey};

verus! {

/// Where a file stands.
#[derive(Debug, Clone, Copy, PartialEq, Eq, Structural)]
pub enum FileState {
    /// An execution is to produce the file and has not ended.
    Pending,
    /// The client provides the file, with this key, and has yet to send it.
    Awaited(FileStoreKey),
    /// The content of the file is in the store under this key.
    Ready(FileStoreKey),
    /// The file will never be ready.
    Dead,
}

/// Where a group of executions stands.
#[derive(Debug, Clone, Copy, PartialEq, Eq, Structural)]
pub enum GroupState {
    /// The group has not been given to a worker.
    Waiting,
    /// This worker runs the group.
    Running(WorkerUuid),
    /// The results of the group are known.
    Done,
    /// The group will never run.
    Skipped,
}

/// A worker that is connected to the scheduler.
#[derive(Debug, Clone, Copy, PartialEq, Eq, Structural)]
pub struct WorkerSlot {
    /// The worker.
    pub uuid: WorkerUuid,
    /// Whether the worker has asked for work and was not given any since.
    pub asking: bool,
    /// The position of the group that the worker runs.
    pub job: Option<usize>,
}

/// The key of the content of a file.
#[derive(Debug, Clone, Copy, PartialEq, Eq, Structural)]
pub struct DependencyKey {
    /// The file.
    pub file: FileUuid,
    /// The key of its content in the store.
    pub key: FileStoreKey,
}

/// What the scheduler asks of those around it.
pub enum ActionView {
    /// Give the worker the group at this position, with the keys of its dependencies.
    Work { worker: WorkerUuid, group: int, keys: Seq<DependencyKey> },
    /// Tell the worker to kill the job of this group.
    KillJob { worker: WorkerUuid, job: ExecutionGroupUuid },
    /// Ask the client for the content of a file it provides.
    AskFile { file: FileUuid },
    /// Tell the client that a file is ready under this key.
    FileReady { file: FileUuid, key: FileStoreKey },
    /// Tell the client that an execution has started on this worker.
    Started { execution: ExecutionUuid, worker: WorkerUuid },
    /// Tell the client that an execution has ended with this result.
    Done { execution: ExecutionUuid, result: ExecutionResultView },
    /// Tell the client that an execution will never run.
    Skipped { execution: ExecutionUuid },
}

/// The state of a scheduler.
pub struct SchedulerView {
    /// The groups, in the order they were declared.
    pub groups: Seq<ExecutionGroup>,
    /// Where each group stands.
    pub states: Seq<GroupState>,
    /// The files, in the order they were declared.
    pub files: Seq<FileUuid>,
    /// Where each file stands.
    pub file_states: Seq<FileState>,
    /// The connected workers, in the order they connected.
    pub workers: Seq<WorkerSlot>,
    /// The content store.
    pub store: Seq<BlobView>,
    /// The result cache.
    pub cache: Seq<CacheEntryView>,
    /// Which executions may take their result from the cache.
    pub mode: CacheModeView,
    /// The keys of the blobs that the scheduler holds in the store, one for
    /// each file that became ready, in the order in which they became ready.
    pub held: Seq<FileStoreKey>,
    /// The size of the store above which an eviction drops blobs.
    pub max_size: nat,
    /// The size of the store that an eviction aims for.
    pub min_size: nat,
}

/// A state and the actions that led to it.
pub struct Step {
    pub view: SchedulerView,
    pub actions: Seq<ActionView>,
}

/// New states of files and the actions that announce them.
pub struct Resolution {
    pub states: Seq<FileState>,
    pub actions: Seq<ActionView>,
}

impl SchedulerView {
    /// Whether the parts of the state fit together: every group and every
    /// file has a state, and a worker runs a group that exists.
    pub open spec fn wf(self) -> bool {
        &&& self.states.len() == self.groups.len()
        &&& self.file_states.len() == self.files.len()
        &&& forall|w: int|
            0 <= w < self.workers.len() ==> ((#[trigger] self.workers[w]).job matches Some(g) ==> g
                < self.groups.len())
    }

    /// Where `file` stands; a file that is not known is dead.
    pub open spec fn file_state(self, file: FileUuid) -> FileState {
        let p = first_position(self.files, file);
        if p < self.files.len() {
            self.file_states[p]
        } else {
            FileState::Dead
        }
    }

    /// Whether all of `files` are ready.
    pub open spec fn all_ready(self, files: Seq<FileUuid>) -> bool {
        forall|i: int| 0 <= i < files.len() ==> self.file_state(#[trigger] files[i]) is Ready
    }

    /// Whether one of `files` is dead.
    pub open spec fn some_dead(self, files: Seq<FileUuid>) -> bool {
        exists|i: int| 0 <= i < files.len() && self.file_state(#[trigger] files[i]) is Dead
    }

    /// The files that group `g` waits for.
    pub open spec fn dependencies(self, g: int) -> Seq<FileUuid> {
        dependencies_of(self.groups[g].executions@)
    }

    /// The files that group `g` produces.
    pub open spec fn outputs(self, g: int) -> Seq<FileUuid> {
        outputs_of(self.groups[g].executions@)
    }

    /// The priority of group `g`.
    pub open spec fn priority(self, g: int) -> Priority {
        priority_of(self.groups[g].executions@)
    }

    /// Whether group `g` can be given to a worker: it waits, and every file it reads is ready.
    pub open spec fn ready(self, g: int) -> bool {
        self.states[g] is Waiting && self.all_ready(self.dependencies(g))
    }

    /// Whether group `g` can never run: it waits, and a file it reads is dead.
    pub open spec fn doomed(self, g: int) -> bool {
        self.states[g] is Waiting && self.some_dead(self.dependencies(g))
    }

    /// The first group that can never run; the number of groups if there is none.
    pub open spec fn first_doomed(self) -> int {
        first_where(self.groups.len(), |g: int| self.doomed(g))
    }

    /// The key under which `file` is ready.
    pub open spec fn key(self, file: FileUuid) -> FileStoreKey {
        match self.file_state(file) {
            FileState::Ready(key) => key,
            _ => FileStoreKey { head: 0, tail: 0 },
        }
    }

    /// The keys under which `files` are ready, each with its file.
    pub open spec fn keys(self, files: Seq<FileUuid>) -> Seq<DependencyKey> {
        files.map_values(|file: FileUuid| DependencyKey { file, key: self.key(file) })
    }

    /// The fingerprint of `execution`, given the content of its dependencies.
    pub open spec fn print(self, execution: Execution) -> Fingerprint {
        fingerprint_of(execution, key_part(self.keys(execution.spec_dependencies())))
    }

    /// Whether the cache holds a result that `execution` may take: the policy
    /// lets its tag use the cache, an entry stands under its fingerprint and
    /// names the outputs that the execution declares, and the store holds the
    /// content of each.
    pub open spec fn hit(self, execution: Execution) -> bool {
        caches(self.mode, tag_view(execution.tag)) && match entry_of(
            self.cache,
            self.print(execution),
        ) {
            Some(entry) => {
                &&& entry.names == output_names(execution)
                &&& entry.keys.len() == entry.names.len()
                &&& forall|k: int| 0 <= k < entry.keys.len() ==> holds(self.store, #[trigger] entry.keys[k])
            },
            None => false,
        }
    }

    /// Whether every member of group `g` may take its result from the cache.
    pub open spec fn group_hit(self, g: int) -> bool {
        forall|m: int|
            0 <= m < self.groups[g].executions@.len() ==> self.hit(
                #[trigger] self.groups[g].executions@[m],
            )
    }

    /// The first group that is ready and may take its results from the cache.
    pub open spec fn first_hit(self) -> int {
        first_where(self.groups.len(), |g: int| self.ready(g) && self.group_hit(g))
    }

    /// The first worker that has asked for work and runs nothing.
    pub open spec fn idle_worker(self) -> int {
        first_where(
            self.workers.len(),
            |w: int| self.workers[w].asking && self.workers[w].job is None,
        )
    }

    /// The best of the first `n` groups to run next: among those that are
    /// ready, the one with the largest priority, and among those the one
    /// declared first. The number of groups if none is ready.
    pub open spec fn best_upto(self, n: nat) -> int
        decreases n,
    {
        if n == 0 {
            self.groups.len() as int
        } else {
            let best = self.best_upto((n - 1) as nat);
            let g = n - 1;
            if self.ready(g) && (best >= self.groups.len() || self.priority(g) > self.priority(
                best,
            )) {
                g
            } else {
                best
            }
        }
    }

    /// The best group to run next; the number of groups if none is ready.
    pub open spec fn best_ready(self) -> int {
        self.best_upto(self.groups.len())
    }
}

/// The keys of these pairs, in order.
pub open spec fn key_part(pairs: Seq<DependencyKey>) -> Seq<FileStoreKey> {
    pairs.map_values(|pair: DependencyKey| pair.key)
}

/// The files of these pairs, in order.
pub open spec fn file_part(pairs: Seq<DependencyKey>) -> Seq<FileUuid> {
    pairs.map_values(|pair: DependencyKey| pair.file)
}

/// The key that `reported` gives for `file`: that of the first pair with the file.
pub open spec fn key_for(reported: Seq<DependencyKey>, file: FileUuid) -> Option<FileStoreKey> {
    let p = first_position(file_part(reported), file);
    if p < reported.len() {
        Some(reported[p].key)
    } else {
        None
    }
}

/// The action that announces the new state of a file, if it calls for one.
pub open spec fn announce(file: FileUuid, state: FileState) -> Seq<ActionView> {
    match state {
        FileState::Ready(key) => seq![ActionView::FileReady { file, key }],
        _ => seq![],
    }
}

/// Gives each of `targets`, in turn, the state that `outcomes` holds for it. A
/// file gets a new state only while it is pending: a file that is ready stays
/// as it is, and so does one that is dead.
pub open spec fn resolve(
    files: Seq<FileUuid>,
    states: Seq<FileState>,
    targets: Seq<FileUuid>,
    outcomes: Seq<FileState>,
) -> Resolution
    decreases targets.len(),
{
    if targets.len() == 0 {
        Resolution { states, actions: seq![] }
    } else {
        let before = resolve(files, states, targets.drop_last(), outcomes.drop_last());
        let p = first_position(files, targets.last());
        if p < files.len() && before.states[p] is Pending {
            Resolution {
                states: before.states.update(p, outcomes.last()),
                actions: before.actions + announce(targets.last(), outcomes.last()),
            }
        } else {
            before
        }
    }
}

/// One notice of a skip for each of these executions.
pub open spec fn skip_notices(executions: Seq<Execution>) -> Seq<ActionView> {
    executions.map_values(|execution: Execution| ActionView::Skipped { execution: execution.uuid })
}

/// One notice of a start on `worker` for each of these executions.
pub open spec fn start_notices(executions: Seq<Execution>, worker: WorkerUuid) -> Seq<ActionView> {
    executions.map_values(
        |execution: Execution| ActionView::Started { execution: execution.uuid, worker },
    )
}

/// One notice of an end for each of these executions, with its result.
pub open spec fn done_notices(
    executions: Seq<Execution>,
    results: Seq<ExecutionResultView>,
) -> Seq<ActionView> {
    Seq::new(
        executions.len(),
        |m: int| ActionView::Done { execution: executions[m].uuid, result: results[m] },
    )
}

/// The dead state, once for each of `n` files.
pub open spec fn all_dead(n: nat) -> Seq<FileState> {
    Seq::new(n, |i: int| FileState::Dead)
}

/// The state of an output once its execution has ended: ready where the
/// execution ended well, a key was reported for the file and the store holds
/// its content; dead otherwise.
pub open spec fn outcome(store: Seq<BlobView>, success: bool, key: Option<FileStoreKey>) -> FileState {
    match key {
        Some(key) => if success && holds(store, key) {
            FileState::Ready(key)
        } else {
            FileState::Dead
        },
        None => FileState::Dead,
    }
}

/// The states of the outputs of these executions once they have ended with
/// `results`, execution after execution.
pub open spec fn outcomes(
    store: Seq<BlobView>,
    executions: Seq<Execution>,
    results: Seq<ExecutionResultView>,
    reported: Seq<DependencyKey>,
) -> Seq<FileState>
    decreases executions.len(),
{
    if executions.len() == 0 {
        seq![]
    } else {
        let last = executions.len() - 1;
        outcomes(store, executions.drop_last(), results, reported) + executions[last].spec_outputs().map_values(
            |file: FileUuid|
                outcome(store, results[last].status is Success, key_for(reported, file)),
        )
    }
}

/// The result under which the cache holds `execution`, marked as cached.
pub open spec fn cached_result(view: SchedulerView, execution: Execution) -> ExecutionResultView {
    match entry_of(view.cache, view.print(execution)) {
        Some(entry) => ExecutionResultView { was_cached: true, ..entry.result },
        None => arbitrary(),
    }
}

/// The outputs of `execution`, each with the key that the cache holds for it.
pub open spec fn cached_keys(view: SchedulerView, execution: Execution) -> Seq<DependencyKey> {
    match entry_of(view.cache, view.print(execution)) {
        Some(entry) => Seq::new(
            execution.spec_outputs().len(),
            |k: int| DependencyKey { file: execution.spec_outputs()[k], key: entry.keys[k] },
        ),
        None => seq![],
    }
}

/// The results that the cache holds for these executions, in order.
pub open spec fn cached_results(view: SchedulerView, executions: Seq<Execution>) -> Seq<
    ExecutionResultView,
> {
    executions.map_values(|execution: Execution| cached_result(view, execution))
}

/// The keys that the cache holds for the outputs of these executions, execution after execution.
pub open spec fn cached_reports(view: SchedulerView, executions: Seq<Execution>) -> Seq<
    DependencyKey,
>
    decreases executions.len(),
{
    if executions.len() == 0 {
        seq![]
    } else {
        cached_reports(view, executions.drop_last()) + cached_keys(view, executions.last())
    }
}

/// The result of an execution that could not be run.
pub open spec fn internal_error(message: Seq<char>) -> ExecutionResultView {
    ExecutionResultView {
        status: ExecutionStatusView::InternalError(message),
        was_killed: false,
        was_cached: false,
        resources: ExecutionResourcesUsage::spec_zero(),
        stdout: None,
        stderr: None,
    }
}

/// What the results say when the worker that ran a group is lost.
pub open spec fn lost_message() -> Seq<char> {
    "the worker did not report the results of the job"@
}

/// The keys that `reported` gives for `files`, in order.
pub open spec fn reported_keys(reported: Seq<DependencyKey>, files: Seq<FileUuid>) -> Seq<
    FileStoreKey,
> {
    files.map_values(|file: FileUuid| key_for(reported, file)->0)
}

/// Whether `reported` gives a key for each of `files`.
pub open spec fn all_reported(reported: Seq<DependencyKey>, files: Seq<FileUuid>) -> bool {
    forall|k: int| 0 <= k < files.len() ==> key_for(reported, #[trigger] files[k]) is Some
}

/// The cache once the results of these executions are inserted, execution
/// after execution. The result of an execution is inserted where the policy
/// lets its tag use the cache and a key was reported for each of its outputs.
pub open spec fn with_entries(
    view: SchedulerView,
    executions: Seq<Execution>,
    results: Seq<ExecutionResultView>,
    reported: Seq<DependencyKey>,
) -> Seq<CacheEntryView>
    decreases executions.len(),
{
    if executions.len() == 0 {
        view.cache
    } else {
        let last = executions.len() - 1;
        let before = with_entries(view, executions.drop_last(), results, reported);
        let execution = executions[last];
        if caches(view.mode, tag_view(execution.tag)) && all_reported(
            reported,
            execution.spec_outputs(),
        ) {
            inserted(
                before,
                CacheEntryView {
                    print: view.print(execution),
                    result: results[last],
                    names: output_names(execution),
                    keys: reported_keys(reported, execution.spec_outputs()),
                },
            )
        } else {
            before
        }
    }
}

/// The files that are known, their states, and the actions that declaring them called for.
pub struct Registry {
    pub files: Seq<FileUuid>,
    pub states: Seq<FileState>,
    pub actions: Seq<ActionView>,
}

/// The registry once the client has declared the files it provides. A file
/// that is already known is left as it is. A new file is ready where the
/// store holds its content; otherwise the client is asked for it.
pub open spec fn with_provided(
    store: Seq<BlobView>,
    registry: Registry,
    provided: Seq<ProvidedFile>,
) -> Registry
    decreases provided.len(),
{
    if provided.len() == 0 {
        registry
    } else {
        let before = with_provided(store, registry, provided.drop_last());
        let file = provided.last().file.uuid;
        let key = provided.last().key;
        if occurs(before.files, file) {
            before
        } else if holds(store, key) {
            Registry {
                files: before.files.push(file),
                states: before.states.push(FileState::Ready(key)),
                actions: before.actions.push(ActionView::FileReady { file, key }),
            }
        } else {
            Registry {
                files: before.files.push(file),
                states: before.states.push(FileState::Awaited(key)),
                actions: before.actions.push(ActionView::AskFile { file }),
            }
        }
    }
}

/// The registry once the files that executions produce are declared. A file
/// that is already known is left as it is; a new file is pending.
pub open spec fn with_pending(registry: Registry, targets: Seq<FileUuid>) -> Registry
    decreases targets.len(),
{
    if targets.len() == 0 {
        registry
    } else {
        let before = with_pending(registry, targets.drop_last());
        if occurs(before.files, targets.last()) {
            before
        } else {
            Registry {
                files: before.files.push(targets.last()),
                states: before.states.push(FileState::Pending),
                actions: before.actions,
            }
        }
    }
}

/// The state of a group after a stop: what has not ended is skipped.
pub open spec fn stopped_state(state: GroupState) -> GroupState {
    match state {
        GroupState::Waiting => GroupState::Skipped,
        GroupState::Running(_) => GroupState::Skipped,
        _ => state,
    }
}

/// The state of a file after a stop: what is not ready is dead.
pub open spec fn stopped_file(state: FileState) -> FileState {
    match state {
        FileState::Ready(key) => state,
        _ => FileState::Dead,
    }
}

/// What a stop calls for, for one group: the worker that runs it is told to
/// kill the job, and each member is announced as skipped.
pub open spec fn stop_notice(group: ExecutionGroup, state: GroupState) -> Seq<ActionView> {
    match state {
        GroupState::Waiting => skip_notices(group.executions@),
        GroupState::Running(worker) => seq![ActionView::KillJob { worker, job: group.uuid }]
            + skip_notices(group.executions@),
        _ => seq![],
    }
}

/// What a stop calls for, group after group.
pub open spec fn stop_notices(groups: Seq<ExecutionGroup>, states: Seq<GroupState>) -> Seq<
    ActionView,
>
    decreases groups.len(),
{
    if groups.len() == 0 {
        seq![]
    } else {
        stop_notices(groups.drop_last(), states) + stop_notice(
            groups.last(),
            states[groups.len() - 1],
        )
    }
}

/// The identifiers of these workers, in order.
pub open spec fn worker_uuids(workers: Seq<WorkerSlot>) -> Seq<WorkerUuid> {
    workers.map_values(|slot: WorkerSlot| slot.uuid)
}

/// The step `step`, with `actions` before its own.
pub open spec fn after(actions: Seq<ActionView>, step: Step) -> Step {
    Step { view: step.view, actions: actions + step.actions }
}

/// The step that changes nothing.
pub open spec fn unchanged(view: SchedulerView) -> Step {
    Step { view, actions: seq![] }
}

impl SchedulerView {
    /// Group `g` is skipped: its members are announced as skipped, and the
    /// files it was to produce are dead.
    pub open spec fn skipped(self, g: int) -> Step {
        let resolution = resolve(
            self.files,
            self.file_states,
            self.outputs(g),
            all_dead(self.outputs(g).len()),
        );
        Step {
            view: SchedulerView {
                states: self.states.update(g, GroupState::Skipped),
                file_states: resolution.states,
                ..self
            },
            actions: skip_notices(self.groups[g].executions@),
        }
    }

    /// Group `g` has ended with `results`: its members are announced as done,
    /// and each file it was to produce is ready or dead.
    pub open spec fn completed(
        self,
        g: int,
        results: Seq<ExecutionResultView>,
        reported: Seq<DependencyKey>,
    ) -> Step {
        let executions = self.groups[g].executions@;
        let resolution = resolve(
            self.files,
            self.file_states,
            self.outputs(g),
            outcomes(self.store, executions, results, reported),
        );
        Step {
            view: SchedulerView {
                states: self.states.update(g, GroupState::Done),
                file_states: resolution.states,
                ..self
            },
            actions: done_notices(executions, results) + resolution.actions,
        }
    }

    /// Group `g` takes its results from the cache, without a worker.
    pub open spec fn from_cache(self, g: int) -> Step {
        let executions = self.groups[g].executions@;
        self.completed(g, cached_results(self, executions), cached_reports(self, executions))
    }

    /// Group `g` could not be run: each member ends with an internal error.
    pub open spec fn failed(self, g: int) -> Step {
        self.completed(
            g,
            Seq::new(self.groups[g].executions@.len(), |m: int| internal_error(lost_message())),
            seq![],
        )
    }

    /// Group `g` is given to the worker at position `w`.
    pub open spec fn dispatched(self, w: int, g: int) -> Step {
        let worker = self.workers[w].uuid;
        Step {
            view: SchedulerView {
                states: self.states.update(g, GroupState::Running(worker)),
                workers: self.workers.update(
                    w,
                    WorkerSlot { uuid: worker, asking: false, job: Some(g as usize) },
                ),
                ..self
            },
            actions: seq![
                ActionView::Work { worker, group: g, keys: self.keys(self.dependencies(g)) },
            ] + start_notices(self.groups[g].executions@, worker),
        }
    }

    /// One step towards a state in which nothing is left to decide: the first
    /// group that can never run is skipped; if there is none, the first ready
    /// group that the cache answers takes its results from it; if there is
    /// none, the best ready group is given to the first idle worker. `None`
    /// where none of this applies.
    pub open spec fn settle_step(self) -> Option<Step> {
        if self.first_doomed() < self.groups.len() {
            Some(self.skipped(self.first_doomed()))
        } else if self.first_hit() < self.groups.len() {
            Some(self.from_cache(self.first_hit()))
        } else if self.idle_worker() < self.workers.len() && self.best_ready() < self.groups.len() {
            Some(self.dispatched(self.idle_worker(), self.best_ready()))
        } else {
            None
        }
    }

    /// At most `fuel` steps, one after the other; see [`Self::settle_step`].
    pub open spec fn settle(self, fuel: nat) -> Step
        decreases fuel,
    {
        if fuel == 0 {
            unchanged(self)
        } else {
            match self.settle_step() {
                Some(step) => after(step.actions, step.view.settle((fuel - 1) as nat)),
                None => unchanged(self),
            }
        }
    }

    /// As many steps as there are groups: each step takes a group out of
    /// waiting, so that nothing is left to decide afterwards.
    pub open spec fn settled(self) -> Step {
        self.settle(self.groups.len())
    }

    /// A worker asks for work: it is entered where it was not known, and is idle from now on.
    pub open spec fn worker_asked(self, worker: WorkerUuid) -> Step {
        let w = first_position(worker_uuids(self.workers), worker);
        let workers = if w < self.workers.len() {
            self.workers.update(w, WorkerSlot { asking: true, ..self.workers[w] })
        } else {
            self.workers.push(WorkerSlot { uuid: worker, asking: true, job: None })
        };
        (SchedulerView { workers, ..self }).settled()
    }

    /// The client hands over a graph: its files and groups are entered, and
    /// what can be decided at once is decided.
    pub open spec fn ingested(
        self,
        provided: Seq<ProvidedFile>,
        groups: Seq<ExecutionGroup>,
        mode: CacheModeView,
    ) -> Step {
        let registry = with_pending(
            with_provided(
                self.store,
                Registry { files: self.files, states: self.file_states, actions: seq![] },
                provided,
            ),
            produced_by(groups),
        );
        after(
            registry.actions,
            (SchedulerView {
                groups: self.groups + groups,
                states: self.states + Seq::new(groups.len(), |i: int| GroupState::Waiting),
                files: registry.files,
                file_states: registry.states,
                mode,
                ..self
            }).settled(),
        )
    }

    /// The client sends the content of a file it provides. The content is
    /// taken where the file is awaited under the key of this content; it is
    /// dropped otherwise.
    pub open spec fn file_arrived(self, file: FileUuid, content: Seq<u8>) -> Step {
        let p = first_position(self.files, file);
        let key = FileStoreKey::of(content);
        if p < self.files.len() && self.file_states[p] == FileState::Awaited(key) {
            after(
                seq![ActionView::FileReady { file, key }],
                (SchedulerView {
                    store: stored(self.store, key, content),
                    file_states: self.file_states.update(p, FileState::Ready(key)),
                    ..self
                }).settled(),
            )
        } else {
            unchanged(self)
        }
    }

    /// A worker reports the results of its job. The report is dropped where
    /// the worker is not known or has no job. The worker has no job
    /// afterwards. Where its group still runs on it, the group ends: with
    /// the results, which enter the cache, or, where their number is not
    /// that of the members, with an internal error for each member.
    pub open spec fn result_arrived(
        self,
        worker: WorkerUuid,
        results: Seq<ExecutionResultView>,
        reported: Seq<DependencyKey>,
    ) -> Step {
        let w = first_position(worker_uuids(self.workers), worker);
        if w >= self.workers.len() || self.workers[w].job is None {
            unchanged(self)
        } else {
            let g = self.workers[w].job->0 as int;
            let freed = SchedulerView {
                workers: self.workers.update(w, WorkerSlot { job: None, ..self.workers[w] }),
                ..self
            };
            let executions = self.groups[g].executions@;
            if self.states[g] != GroupState::Running(worker) {
                unchanged(freed)
            } else if results.len() != executions.len() {
                let step = freed.failed(g);
                after(step.actions, step.view.settled())
            } else {
                let step = (SchedulerView {
                    cache: with_entries(freed, executions, results, reported),
                    ..freed
                }).completed(g, results, reported);
                after(step.actions, step.view.settled())
            }
        }
    }

    /// A worker is lost. It is known no longer, and the group that still ran
    /// on it ends with an internal error for each member.
    pub open spec fn worker_gone(self, worker: WorkerUuid) -> Step {
        let w = first_position(worker_uuids(self.workers), worker);
        if w >= self.workers.len() {
            unchanged(self)
        } else {
            let left = SchedulerView { workers: self.workers.remove(w), ..self };
            match self.workers[w].job {
                Some(job) => if self.states[job as int] == GroupState::Running(worker) {
                    let step = left.failed(job as int);
                    after(step.actions, step.view.settled())
                } else {
                    unchanged(left)
                },
                None => unchanged(left),
            }
        }
    }

    /// The client asks for a stop: every group that has not ended is skipped,
    /// the jobs that run are killed, and every file that is not ready is dead.
    pub open spec fn stopped(self) -> Step {
        Step {
            view: SchedulerView {
                states: self.states.map_values(|state: GroupState| stopped_state(state)),
                file_states: self.file_states.map_values(|state: FileState| stopped_file(state)),
                ..self
            },
            actions: stop_notices(self.groups, self.states),
        }
    }
}

/// How many groups stand where, and how many workers are connected.
#[derive(Debug, Clone, Copy, PartialEq, Eq, Structural)]
pub struct SchedulerStatus {
    /// The groups that have not been given to a worker.
    pub waiting: usize,
    /// The groups that run.
    pub running: usize,
    /// The groups whose results are known.
    pub done: usize,
    /// The groups that will never run.
    pub skipped: usize,
    /// The workers that are connected.
    pub workers: usize,
}

/// How many of the first `n` groups are in a state of the same kind as `kind`.
pub open spec fn in_state(states: Seq<GroupState>, kind: GroupState, n: nat) -> nat
    decreases n,
{
    if n == 0 {
        0
    } else {
        in_state(states, kind, (n - 1) as nat) + if same_kind(states[n - 1], kind) {
            1nat
        } else {
            0nat
        }
    }
}

/// Whether two states are of the same kind, whatever worker runs the group.
pub open spec fn same_kind(state: GroupState, kind: GroupState) -> bool {
    match kind {
        GroupState::Waiting => state is Waiting,
        GroupState::Running(_) => state is Running,
        GroupState::Done => state is Done,
        GroupState::Skipped => state is Skipped,
    }
}

/// The keys under which files became ready between `before` and `after`,
/// among the first `n` files, in the order of the files. A file that `before`
/// does not have was not ready before.
pub open spec fn newly_ready(before: Seq<FileState>, after: Seq<FileState>, n: nat) -> Seq<
    FileStoreKey,
>
    decreases n,
{
    if n == 0 {
        seq![]
    } else {
        let rest = newly_ready(before, after, (n - 1) as nat);
        match after[n - 1] {
            FileState::Ready(key) => if n - 1 < before.len() && before[n - 1] is Ready {
                rest
            } else {
                rest.push(key)
            },
            _ => rest,
        }
    }
}

/// The store after one more user holds the blob under each of `keys`.
pub open spec fn retained_all(store: Seq<BlobView>, keys: Seq<FileStoreKey>) -> Seq<BlobView>
    decreases keys.len(),
{
    if keys.len() == 0 {
        store
    } else {
        retained(retained_all(store, keys.drop_last()), keys.last())
    }
}

/// The store after one user lets go of the blob under each of `keys`.
pub open spec fn released_all(store: Seq<BlobView>, keys: Seq<FileStoreKey>) -> Seq<BlobView>
    decreases keys.len(),
{
    if keys.len() == 0 {
        store
    } else {
        released(released_all(store, keys.drop_last()), keys.last())
    }
}

impl SchedulerView {
    /// The state once the scheduler holds the blob of each file that became
    /// ready since the files stood as in `before`: the blobs of ready files
    /// have a reference, so that no eviction drops them.
    pub open spec fn holding(self, before: Seq<FileState>) -> SchedulerView {
        let keys = newly_ready(before, self.file_states, self.file_states.len());
        SchedulerView { store: retained_all(self.store, keys), held: self.held + keys, ..self }
    }

    /// The state once the scheduler has let go of every blob it held.
    pub open spec fn released(self) -> SchedulerView {
        SchedulerView { store: released_all(self.store, self.held), held: seq![], ..self }
    }

    /// The state once the store has evicted what it may.
    pub open spec fn evicted(self) -> SchedulerView {
        SchedulerView { store: evicted(self.store, self.max_size, self.min_size), ..self }
    }
}

/// The step `step`, after which the scheduler holds the blob of each file
/// that became ready during it; `before` is the state before the step.
pub open spec fn held_step(before: SchedulerView, step: Step) -> Step {
    Step { view: step.view.holding(before.file_states), actions: step.actions }
}

/// The key that `pairs` gives for `file`: that of the first pair with the file.
pub fn find_key(pairs: &Vec<DependencyKey>, file: FileUuid) -> (key: Option<FileStoreKey>)
    ensures
        key == key_for(pairs@, file),
{
    let ghost files = file_part(pairs@);
    let mut p: usize = 0;
    while p < pairs.len()
        invariant
            p <= pairs@.len(),
            files == file_part(pairs@),
            forall|k: int| 0 <= k < p ==> files[k] != file,
        decreases pairs@.len() - p,
    {
        if pairs[p].file == file {
            proof {
                lemma_first_position_is(files, file, p as int);
            }
            return Some(pairs[p].key);
        }
        p += 1;
    }
    proof {
        lemma_first_position_is(files, file, p as int);
    }
    None
}

} // verus!
