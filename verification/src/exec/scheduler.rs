//! The scheduler: it takes in the graph of a client, keeps track of which
//! files are ready, answers from the cache what the cache knows, gives the
//! rest to the workers by priority, and skips what can never run. It handles
//! one event at a time; each event yields the actions to carry out.

use vstd::prelude::*;
use crate::cache::{
    entry_of, lemma_output_names_len, names_of, same_names, Cache, CacheEntry, CacheMode,
    CacheModeView,
};
use crate::dag::dag::{produced_by, DagError, ExecutionDAGData, ProvidedFile};
use crate::dag::execution::{
    outputs_of, Execution, ExecutionGroup, ExecutionResult, ExecutionResultView,
};
use crate::dag::file::{ExecutionGroupUuid, ExecutionUuid, FileUuid, WorkerUuid};
use crate::exec::model::{
    after, all_dead, all_reported, announce, cached_keys, cached_reports, cached_result,
    cached_results, done_notices, find_key, held_step, in_state, internal_error, key_for,
    key_part, lost_message, newly_ready, outcome, outcomes, released_all, reported_keys,
    resolve, retained_all, skip_notices, start_notices, stop_notice, stop_notices, stopped_file,
    stopped_state, unchanged, with_entries, with_pending, with_provided, worker_uuids,
    ActionView, DependencyKey, FileState, GroupState, Registry, SchedulerStatus, SchedulerView,
    WorkerSlot,
};
use crate::fingerprint::{fingerprint, Fingerprint};
use crate::search::{
    find_u128, first_position, lemma_first_position_is, lemma_first_where, lemma_first_where_is,
};
use crate::store::{dropped, holds, stored, BlobView, FileStore, FileStoreKey};

verus! {

/// What the scheduler asks of those around it.
#[derive(Debug, PartialEq, Eq)]
pub enum SchedulerAction {
    /// Give the worker the group at this position, with the keys of its dependencies.
    Work {
        worker: WorkerUuid,
        group: usize,
        keys: Vec<DependencyKey>,
    },
    /// Tell the worker to kill the job of this group.
    KillJob {
        worker: WorkerUuid,
        job: ExecutionGroupUuid,
    },
    /// Ask the client for the content of a file it provides.
    AskFile {
        file: FileUuid,
    },
    /// Tell the client that a file is ready under this key.
    FileReady {
        file: FileUuid,
        key: FileStoreKey,
    },
    /// Tell the client that an execution has started on this worker.
    Started {
        execution: ExecutionUuid,
        worker: WorkerUuid,
    },
    /// Tell the client that an execution has ended with this result.
    Done {
        execution: ExecutionUuid,
        result: ExecutionResult,
    },
    /// Tell the client that an execution will never run.
    Skipped {
        execution: ExecutionUuid,
    },
}

impl View for SchedulerAction {
    type V = ActionView;

    open spec fn view(&self) -> ActionView {
        match *self {
            SchedulerAction::Work { worker, group, keys } => ActionView::Work {
                worker,
                group: group as int,
                keys: keys@,
            },
            SchedulerAction::KillJob { worker, job } => ActionView::KillJob { worker, job },
            SchedulerAction::AskFile { file } => ActionView::AskFile { file },
            SchedulerAction::FileReady { file, key } => ActionView::FileReady { file, key },
            SchedulerAction::Started { execution, worker } => ActionView::Started {
                execution,
                worker,
            },
            SchedulerAction::Done { execution, result } => ActionView::Done {
                execution,
                result: result@,
            },
            SchedulerAction::Skipped { execution } => ActionView::Skipped { execution },
        }
    }
}

/// The values of these actions, in order.
pub open spec fn action_views(actions: Seq<SchedulerAction>) -> Seq<ActionView> {
    actions.map_values(|action: SchedulerAction| action@)
}

/// The values of these results, in order.
pub open spec fn result_views(results: Seq<ExecutionResult>) -> Seq<ExecutionResultView> {
    results.map_values(|result: ExecutionResult| result@)
}

/// Adds an action to a list.
fn emit(actions: &mut Vec<SchedulerAction>, action: SchedulerAction)
    ensures
        action_views(final(actions)@) == action_views(old(actions)@).push(action@),
{
    actions.push(action);
    assert(action_views(actions@) =~= action_views(old(actions)@).push(action@));
}

/// The scheduler.
pub struct Scheduler {
    groups: Vec<ExecutionGroup>,
    states: Vec<GroupState>,
    files: Vec<FileUuid>,
    file_states: Vec<FileState>,
    workers: Vec<WorkerSlot>,
    store: FileStore,
    cache: Cache,
    mode: CacheMode,
    held: Vec<FileStoreKey>,
}

impl View for Scheduler {
    type V = SchedulerView;

    closed spec fn view(&self) -> SchedulerView {
        SchedulerView {
            groups: self.groups@,
            states: self.states@,
            files: self.files@,
            file_states: self.file_states@,
            workers: self.workers@,
            store: self.store@,
            cache: self.cache@,
            mode: self.mode@,
            held: self.held@,
            max_size: self.store.max_size(),
            min_size: self.store.min_size(),
        }
    }
}

impl Scheduler {
    /// Whether the scheduler is well formed: its parts fit together, and so do those of its store.
    pub closed spec fn wf(&self) -> bool {
        self@.wf() && self.store.wf()
    }

    /// A scheduler without groups, files and workers, over this store and
    /// this cache. Every execution may use the cache.
    pub fn new(store: FileStore, cache: Cache) -> (scheduler: Scheduler)
        requires
            store.wf(),
        ensures
            scheduler.wf(),
            scheduler@ == (SchedulerView {
                groups: seq![],
                states: seq![],
                files: seq![],
                file_states: seq![],
                workers: seq![],
                store: store@,
                cache: cache@,
                mode: CacheModeView::Everything,
                held: seq![],
                max_size: store.max_size(),
                min_size: store.min_size(),
            }),
    {
        let scheduler = Scheduler {
            groups: Vec::new(),
            states: Vec::new(),
            files: Vec::new(),
            file_states: Vec::new(),
            workers: Vec::new(),
            store,
            cache,
            mode: CacheMode::Everything,
            held: Vec::new(),
        };
        assert(scheduler@.groups =~= seq![]);
        assert(scheduler@.states =~= seq![]);
        assert(scheduler@.files =~= seq![]);
        assert(scheduler@.file_states =~= seq![]);
        assert(scheduler@.workers =~= seq![]);
        assert(scheduler@.held =~= seq![]);
        scheduler
    }

    /// The number of groups.
    pub fn group_count(&self) -> (count: usize)
        ensures
            count == self@.groups.len(),
    {
        self.groups.len()
    }

    /// The group at position `g`.
    pub fn group(&self, g: usize) -> (group: &ExecutionGroup)
        requires
            g < self@.groups.len(),
        ensures
            *group == self@.groups[g as int],
    {
        &self.groups[g]
    }

    /// Where the group at position `g` stands.
    pub fn group_state(&self, g: usize) -> (state: GroupState)
        requires
            self.wf(),
            g < self@.groups.len(),
        ensures
            state == self@.states[g as int],
    {
        self.states[g]
    }

    /// The store of the scheduler.
    pub fn store(&self) -> (store: &FileStore)
        ensures
            store@ == self@.store,
            self.wf() ==> store.wf(),
    {
        &self.store
    }

    /// The cache of the scheduler.
    pub fn cache(&self) -> (cache: &Cache)
        ensures
            cache@ == self@.cache,
    {
        &self.cache
    }

    /// Where `file` stands.
    pub fn file_state(&self, file: FileUuid) -> (state: FileState)
        requires
            self.wf(),
        ensures
            state == self@.file_state(file),
    {
        match find_u128(&self.files, file) {
            Some(p) => self.file_states[p],
            None => FileState::Dead,
        }
    }

    /// Whether all of `files` are ready.
    fn all_ready(&self, files: &Vec<FileUuid>) -> (ready: bool)
        requires
            self.wf(),
        ensures
            ready == self@.all_ready(files@),
    {
        let mut i: usize = 0;
        while i < files.len()
            invariant
                self.wf(),
                i <= files@.len(),
                forall|j: int| 0 <= j < i ==> self@.file_state(#[trigger] files@[j]) is Ready,
            decreases files@.len() - i,
        {
            match self.file_state(files[i]) {
                FileState::Ready(_) => {},
                _ => {
                    return false;
                },
            }
            i += 1;
        }
        true
    }

    /// Whether one of `files` is dead.
    fn some_dead(&self, files: &Vec<FileUuid>) -> (dead: bool)
        requires
            self.wf(),
        ensures
            dead == self@.some_dead(files@),
    {
        let mut i: usize = 0;
        while i < files.len()
            invariant
                self.wf(),
                i <= files@.len(),
                forall|j: int| 0 <= j < i ==> !(self@.file_state(#[trigger] files@[j]) is Dead),
            decreases files@.len() - i,
        {
            match self.file_state(files[i]) {
                FileState::Dead => {
                    return true;
                },
                _ => {},
            }
            i += 1;
        }
        false
    }

    /// Whether the group at position `g` can be given to a worker.
    pub fn is_ready(&self, g: usize) -> (ready: bool)
        requires
            self.wf(),
            g < self@.groups.len(),
        ensures
            ready == self@.ready(g as int),
    {
        match self.states[g] {
            GroupState::Waiting => {
                let files = self.groups[g].dependencies();
                self.all_ready(&files)
            },
            _ => false,
        }
    }

    /// Whether the group at position `g` can never run.
    fn is_doomed(&self, g: usize) -> (doomed: bool)
        requires
            self.wf(),
            g < self@.groups.len(),
        ensures
            doomed == self@.doomed(g as int),
    {
        match self.states[g] {
            GroupState::Waiting => {
                let files = self.groups[g].dependencies();
                self.some_dead(&files)
            },
            _ => false,
        }
    }

    /// The first group that can never run.
    fn find_doomed(&self) -> (found: Option<usize>)
        requires
            self.wf(),
        ensures
            match found {
                Some(g) => g == self@.first_doomed() && g < self@.groups.len(),
                None => self@.first_doomed() >= self@.groups.len(),
            },
    {
        let ghost pred = |g: int| self@.doomed(g);
        let mut g: usize = 0;
        while g < self.groups.len()
            invariant
                self.wf(),
                g <= self@.groups.len(),
                pred == (|g: int| self@.doomed(g)),
                forall|h: int| 0 <= h < g ==> !#[trigger] pred(h),
            decreases self@.groups.len() - g,
        {
            if self.is_doomed(g) {
                proof {
                    lemma_first_where_is(self@.groups.len(), pred, g as int);
                }
                return Some(g);
            }
            g += 1;
        }
        proof {
            lemma_first_where_is(self@.groups.len(), pred, g as int);
        }
        None
    }

    /// Gives each of `targets`, in turn, the state that `outcomes` holds for
    /// it, and announces the files that become ready.
    fn resolve(
        &mut self,
        targets: &Vec<FileUuid>,
        outcomes: &Vec<FileState>,
        actions: &mut Vec<SchedulerAction>,
    )
        requires
            old(self).wf(),
            targets@.len() == outcomes@.len(),
        ensures
            final(self).wf(),
            final(self)@ == (SchedulerView {
                file_states: resolve(
                    old(self)@.files,
                    old(self)@.file_states,
                    targets@,
                    outcomes@,
                ).states,
                ..old(self)@
            }),
            action_views(final(actions)@) == action_views(old(actions)@) + resolve(
                old(self)@.files,
                old(self)@.file_states,
                targets@,
                outcomes@,
            ).actions,
    {
        let ghost files = self@.files;
        let ghost states = self@.file_states;
        let mut i: usize = 0;
        assert(action_views(actions@) + Seq::<ActionView>::empty() =~= action_views(actions@));
        while i < targets.len()
            invariant
                self.wf(),
                i <= targets@.len(),
                targets@.len() == outcomes@.len(),
                files == old(self)@.files,
                states == old(self)@.file_states,
                self@ == (SchedulerView {
                    file_states: resolve(
                        files,
                        states,
                        targets@.take(i as int),
                        outcomes@.take(i as int),
                    ).states,
                    ..old(self)@
                }),
                action_views(actions@) == action_views(old(actions)@) + resolve(
                    files,
                    states,
                    targets@.take(i as int),
                    outcomes@.take(i as int),
                ).actions,
            decreases targets@.len() - i,
        {
            proof {
                assert(targets@.take(i + 1).drop_last() =~= targets@.take(i as int));
                assert(outcomes@.take(i + 1).drop_last() =~= outcomes@.take(i as int));
            }
            let ghost before = resolve(
                files,
                states,
                targets@.take(i as int),
                outcomes@.take(i as int),
            );
            let ghost listed = action_views(actions@);
            match find_u128(&self.files, targets[i]) {
                Some(p) => {
                    match self.file_states[p] {
                        FileState::Pending => {
                            self.file_states[p] = outcomes[i];
                            match outcomes[i] {
                                FileState::Ready(key) => {
                                    emit(actions, SchedulerAction::FileReady { file: targets[i], key });
                                },
                                _ => {},
                            }
                            proof {
                                assert(action_views(actions@) =~= listed + announce(
                                    targets@[i as int],
                                    outcomes@[i as int],
                                ));
                                assert(action_views(actions@) =~= action_views(old(actions)@) + (
                                before.actions + announce(targets@[i as int], outcomes@[i as int])));
                            }
                        },
                        _ => {},
                    }
                },
                None => {},
            }
            i += 1;
        }
        proof {
            assert(targets@.take(i as int) =~= targets@);
            assert(outcomes@.take(i as int) =~= outcomes@);
        }
    }

    /// Announces each member of the group at position `g` as skipped.
    fn emit_skips(&self, g: usize, actions: &mut Vec<SchedulerAction>)
        requires
            g < self@.groups.len(),
        ensures
            action_views(final(actions)@) == action_views(old(actions)@) + skip_notices(
                self@.groups[g as int].executions@,
            ),
    {
        let group = &self.groups[g];
        let mut m: usize = 0;
        assert(action_views(actions@) =~= action_views(old(actions)@) + skip_notices(
            group.executions@.take(0),
        ));
        while m < group.executions.len()
            invariant
                m <= group.executions@.len(),
                action_views(actions@) == action_views(old(actions)@) + skip_notices(
                    group.executions@.take(m as int),
                ),
            decreases group.executions@.len() - m,
        {
            emit(actions, SchedulerAction::Skipped { execution: group.executions[m].uuid });
            assert(action_views(actions@) =~= action_views(old(actions)@) + skip_notices(
                group.executions@.take(m + 1),
            ));
            m += 1;
        }
        assert(group.executions@.take(m as int) =~= group.executions@);
    }

    /// Skips the group at position `g`.
    fn skip(&mut self, g: usize, actions: &mut Vec<SchedulerAction>)
        requires
            old(self).wf(),
            g < old(self)@.groups.len(),
        ensures
            final(self).wf(),
            final(self)@ == old(self)@.skipped(g as int).view,
            action_views(final(actions)@) == action_views(old(actions)@) + old(self)@.skipped(
                g as int,
            ).actions,
    {
        let targets = self.groups[g].outputs();
        let mut dead: Vec<FileState> = Vec::new();
        let mut i: usize = 0;
        while i < targets.len()
            invariant
                i <= targets@.len(),
                dead@ == all_dead(i as nat),
            decreases targets@.len() - i,
        {
            dead.push(FileState::Dead);
            assert(dead@ =~= all_dead((i + 1) as nat));
            i += 1;
        }
        proof {
            lemma_resolve_dead(self@.files, self@.file_states, targets@);
        }
        self.resolve(&targets, &dead, actions);
        self.states[g] = GroupState::Skipped;
        assert(action_views(actions@) =~= action_views(old(actions)@));
        self.emit_skips(g, actions);
    }

    /// The keys under which `files` are ready.
    fn keys(&self, files: &Vec<FileUuid>) -> (keys: Vec<DependencyKey>)
        requires
            self.wf(),
        ensures
            keys@ == self@.keys(files@),
    {
        let mut keys: Vec<DependencyKey> = Vec::new();
        let mut i: usize = 0;
        while i < files.len()
            invariant
                self.wf(),
                i <= files@.len(),
                keys@ == self@.keys(files@.take(i as int)),
            decreases files@.len() - i,
        {
            let key = match self.file_state(files[i]) {
                FileState::Ready(key) => key,
                _ => FileStoreKey { head: 0, tail: 0 },
            };
            keys.push(DependencyKey { file: files[i], key });
            assert(keys@ =~= self@.keys(files@.take(i + 1)));
            i += 1;
        }
        assert(files@.take(i as int) =~= files@);
        keys
    }

    /// The fingerprint of `execution`, given the content of its dependencies.
    fn print(&self, execution: &Execution) -> (print: Fingerprint)
        requires
            self.wf(),
        ensures
            print == self@.print(*execution),
    {
        let files = execution.dependencies();
        let pairs = self.keys(&files);
        let mut keys: Vec<FileStoreKey> = Vec::new();
        let mut i: usize = 0;
        while i < pairs.len()
            invariant
                i <= pairs@.len(),
                keys@ == key_part(pairs@.take(i as int)),
            decreases pairs@.len() - i,
        {
            keys.push(pairs[i].key);
            assert(keys@ =~= key_part(pairs@.take(i + 1)));
            i += 1;
        }
        assert(pairs@.take(i as int) =~= pairs@);
        fingerprint(execution, &keys)
    }

    /// Whether the store holds the content of each of `keys`.
    fn holds_all(&self, keys: &Vec<FileStoreKey>) -> (all: bool)
        requires
            self.wf(),
        ensures
            all == (forall|k: int|
                0 <= k < keys@.len() ==> holds(self@.store, #[trigger] keys@[k])),
    {
        let mut k: usize = 0;
        while k < keys.len()
            invariant
                self.wf(),
                k <= keys@.len(),
                forall|j: int| 0 <= j < k ==> holds(self@.store, #[trigger] keys@[j]),
            decreases keys@.len() - k,
        {
            if !self.store.has_key(&keys[k]) {
                return false;
            }
            k += 1;
        }
        true
    }

    /// Whether the cache holds a result that `execution` may take.
    fn is_hit(&self, execution: &Execution) -> (hit: bool)
        requires
            self.wf(),
        ensures
            hit == self@.hit(*execution),
    {
        if !self.mode.is_cached(&execution.tag) {
            return false;
        }
        let print = self.print(execution);
        match self.cache.lookup(&print) {
            Some(entry) => {
                let names = names_of(execution);
                same_names(&entry.names, &names) && entry.keys.len() == entry.names.len()
                    && self.holds_all(&entry.keys)
            },
            None => false,
        }
    }

    /// Whether every member of the group at position `g` may take its result from the cache.
    fn is_group_hit(&self, g: usize) -> (hit: bool)
        requires
            self.wf(),
            g < self@.groups.len(),
        ensures
            hit == self@.group_hit(g as int),
    {
        let group = &self.groups[g];
        let mut m: usize = 0;
        while m < group.executions.len()
            invariant
                self.wf(),
                m <= group.executions@.len(),
                *group == self@.groups[g as int],
                forall|n: int| 0 <= n < m ==> self@.hit(#[trigger] group.executions@[n]),
            decreases group.executions@.len() - m,
        {
            if !self.is_hit(&group.executions[m]) {
                return false;
            }
            m += 1;
        }
        true
    }

    /// The first group that is ready and may take its results from the cache.
    fn find_hit(&self) -> (found: Option<usize>)
        requires
            self.wf(),
        ensures
            match found {
                Some(g) => g == self@.first_hit() && g < self@.groups.len(),
                None => self@.first_hit() >= self@.groups.len(),
            },
    {
        let ghost pred = |g: int| self@.ready(g) && self@.group_hit(g);
        let mut g: usize = 0;
        while g < self.groups.len()
            invariant
                self.wf(),
                g <= self@.groups.len(),
                pred == (|g: int| self@.ready(g) && self@.group_hit(g)),
                forall|h: int| 0 <= h < g ==> !#[trigger] pred(h),
            decreases self@.groups.len() - g,
        {
            if self.is_ready(g) && self.is_group_hit(g) {
                proof {
                    lemma_first_where_is(self@.groups.len(), pred, g as int);
                }
                return Some(g);
            }
            g += 1;
        }
        proof {
            lemma_first_where_is(self@.groups.len(), pred, g as int);
        }
        None
    }

    /// The first worker that has asked for work and runs nothing.
    fn find_idle(&self) -> (found: Option<usize>)
        requires
            self.wf(),
        ensures
            match found {
                Some(w) => w == self@.idle_worker() && w < self@.workers.len(),
                None => self@.idle_worker() >= self@.workers.len(),
            },
    {
        let ghost pred = |w: int| self@.workers[w].asking && self@.workers[w].job is None;
        let mut w: usize = 0;
        while w < self.workers.len()
            invariant
                self.wf(),
                w <= self@.workers.len(),
                pred == (|w: int| self@.workers[w].asking && self@.workers[w].job is None),
                forall|h: int| 0 <= h < w ==> !#[trigger] pred(h),
            decreases self@.workers.len() - w,
        {
            if self.workers[w].asking && self.workers[w].job.is_none() {
                proof {
                    lemma_first_where_is(self@.workers.len(), pred, w as int);
                }
                return Some(w);
            }
            w += 1;
        }
        proof {
            lemma_first_where_is(self@.workers.len(), pred, w as int);
        }
        None
    }

    /// The best group to run next.
    fn find_best(&self) -> (found: Option<usize>)
        requires
            self.wf(),
        ensures
            match found {
                Some(g) => g == self@.best_ready() && g < self@.groups.len(),
                None => self@.best_ready() >= self@.groups.len(),
            },
    {
        let mut best: Option<usize> = None;
        let mut priority: i64 = 0;
        let mut n: usize = 0;
        while n < self.groups.len()
            invariant
                self.wf(),
                n <= self@.groups.len(),
                match best {
                    Some(g) => g == self@.best_upto(n as nat) && g < self@.groups.len()
                        && priority == self@.priority(g as int),
                    None => self@.best_upto(n as nat) >= self@.groups.len(),
                },
            decreases self@.groups.len() - n,
        {
            if self.is_ready(n) {
                let mine = self.groups[n].priority();
                let better = match best {
                    Some(_) => mine > priority,
                    None => true,
                };
                if better {
                    best = Some(n);
                    priority = mine;
                }
            }
            n += 1;
        }
        best
    }

    /// The states of the outputs of the group at position `g` once its
    /// members have ended with `results`.
    fn outcomes(
        &self,
        g: usize,
        results: &Vec<ExecutionResult>,
        reported: &Vec<DependencyKey>,
    ) -> (states: Vec<FileState>)
        requires
            self.wf(),
            g < self@.groups.len(),
            results@.len() == self@.groups[g as int].executions@.len(),
        ensures
            states@ == outcomes(
                self@.store,
                self@.groups[g as int].executions@,
                result_views(results@),
                reported@,
            ),
            states@.len() == self@.outputs(g as int).len(),
    {
        let group = &self.groups[g];
        let ghost views = result_views(results@);
        let mut states: Vec<FileState> = Vec::new();
        let mut m: usize = 0;
        while m < group.executions.len()
            invariant
                self.wf(),
                *group == self@.groups[g as int],
                m <= group.executions@.len(),
                results@.len() == group.executions@.len(),
                views == result_views(results@),
                states@ == outcomes(
                    self@.store,
                    group.executions@.take(m as int),
                    views,
                    reported@,
                ),
                states@.len() == outputs_of(
                    group.executions@.take(m as int),
                ).len(),
            decreases group.executions@.len() - m,
        {
            let files = group.executions[m].outputs();
            let success = results[m].status.is_success();
            let ghost done = states@;
            let ghost member = |file: FileUuid|
                outcome(self@.store, views[m as int].status is Success, key_for(reported@, file));
            let mut k: usize = 0;
            assert(states@ =~= done + files@.take(0).map_values(member));
            while k < files.len()
                invariant
                    self.wf(),
                    k <= files@.len(),
                    success == (views[m as int].status is Success),
                    member == (|file: FileUuid|
                        outcome(
                            self@.store,
                            views[m as int].status is Success,
                            key_for(reported@, file),
                        )),
                    states@ == done + files@.take(k as int).map_values(member),
                decreases files@.len() - k,
            {
                let state = match find_key(reported, files[k]) {
                    Some(key) => if success && self.store.has_key(&key) {
                        FileState::Ready(key)
                    } else {
                        FileState::Dead
                    },
                    None => FileState::Dead,
                };
                states.push(state);
                assert(states@ =~= done + files@.take(k + 1).map_values(member));
                k += 1;
            }
            proof {
                assert(files@.take(k as int) =~= files@);
                let next = group.executions@.take(m + 1);
                assert(next.drop_last() =~= group.executions@.take(m as int));
                assert(next[next.len() - 1] == group.executions@[m as int]);
            }
            m += 1;
        }
        assert(group.executions@.take(m as int) =~= group.executions@);
        states
    }

    /// Announces each member of the group at position `g` as done, with its result.
    fn emit_done(&self, g: usize, results: Vec<ExecutionResult>, actions: &mut Vec<SchedulerAction>)
        requires
            g < self@.groups.len(),
            results@.len() == self@.groups[g as int].executions@.len(),
        ensures
            action_views(final(actions)@) == action_views(old(actions)@) + done_notices(
                self@.groups[g as int].executions@,
                result_views(results@),
            ),
    {
        let group = &self.groups[g];
        let ghost notices = done_notices(group.executions@, result_views(results@));
        let n = results.len();
        let mut rest = reversed(results);
        let mut m: usize = 0;
        assert(action_views(actions@) =~= action_views(old(actions)@) + notices.take(0));
        while m < n
            invariant
                m <= n,
                n == group.executions@.len(),
                n == results@.len(),
                rest@.len() == n - m,
                forall|j: int| 0 <= j < rest@.len() ==> rest@[j] == results@[n - 1 - j],
                notices == done_notices(group.executions@, result_views(results@)),
                action_views(actions@) == action_views(old(actions)@) + notices.take(m as int),
            decreases n - m,
        {
            let result = rest.pop().unwrap();
            assert(result == results@[m as int]);
            emit(actions, SchedulerAction::Done { execution: group.executions[m].uuid, result });
            assert(action_views(actions@) =~= action_views(old(actions)@) + notices.take(m + 1));
            m += 1;
        }
        assert(notices.take(m as int) =~= notices);
    }

    /// Ends the group at position `g` with `results`.
    fn complete(
        &mut self,
        g: usize,
        results: Vec<ExecutionResult>,
        reported: &Vec<DependencyKey>,
        actions: &mut Vec<SchedulerAction>,
    )
        requires
            old(self).wf(),
            g < old(self)@.groups.len(),
            results@.len() == old(self)@.groups[g as int].executions@.len(),
        ensures
            final(self).wf(),
            final(self)@ == old(self)@.completed(
                g as int,
                result_views(results@),
                reported@,
            ).view,
            action_views(final(actions)@) == action_views(old(actions)@) + old(self)@.completed(
                g as int,
                result_views(results@),
                reported@,
            ).actions,
    {
        let targets = self.groups[g].outputs();
        let outcomes = self.outcomes(g, &results, reported);
        self.emit_done(g, results, actions);
        self.resolve(&targets, &outcomes, actions);
        self.states[g] = GroupState::Done;
        proof {
            let step = old(self)@.completed(g as int, result_views(results@), reported@);
            assert(action_views(actions@) =~= action_views(old(actions)@) + step.actions);
        }
    }

    /// Ends the group at position `g` with what the cache holds for its members.
    fn from_cache(&mut self, g: usize, actions: &mut Vec<SchedulerAction>)
        requires
            old(self).wf(),
            g < old(self)@.groups.len(),
            old(self)@.group_hit(g as int),
        ensures
            final(self).wf(),
            final(self)@ == old(self)@.from_cache(g as int).view,
            action_views(final(actions)@) == action_views(old(actions)@) + old(self)@.from_cache(
                g as int,
            ).actions,
    {
        let mut results: Vec<ExecutionResult> = Vec::new();
        let mut reported: Vec<DependencyKey> = Vec::new();
        let n = self.groups[g].executions.len();
        let mut m: usize = 0;
        assert(result_views(results@) =~= cached_results(
            self@,
            self@.groups[g as int].executions@.take(0),
        ));
        while m < n
            invariant
                self.wf(),
                *self == *old(self),
                g < self@.groups.len(),
                self@.group_hit(g as int),
                n == self@.groups[g as int].executions@.len(),
                m <= n,
                result_views(results@) == cached_results(
                    self@,
                    self@.groups[g as int].executions@.take(m as int),
                ),
                reported@ == cached_reports(self@, self@.groups[g as int].executions@.take(m as int)),
            decreases n - m,
        {
            let execution = &self.groups[g].executions[m];
            assert(self@.hit(self@.groups[g as int].executions@[m as int]));
            let print = self.print(execution);
            let files = execution.outputs();
            let ghost done = reported@;
            proof {
                lemma_output_names_len(*execution);
            }
            let ghost views = result_views(results@);
            match self.cache.lookup(&print) {
                Some(entry) => {
                    results.push(entry.result.cached());
                    assert(result_views(results@) =~= views.push(cached_result(self@, *execution)));
                    let mut k: usize = 0;
                    assert(reported@ =~= done + cached_keys(self@, *execution).take(0));
                    while k < files.len()
                        invariant
                            k <= files@.len(),
                            files@ == execution.spec_outputs(),
                            entry.keys@.len() == files@.len(),
                            entry_of(self@.cache, self@.print(*execution)) == Some(entry@),
                            result_views(results@) == views.push(cached_result(self@, *execution)),
                            reported@ == done + cached_keys(self@, *execution).take(k as int),
                        decreases files@.len() - k,
                    {
                        reported.push(DependencyKey { file: files[k], key: entry.keys[k] });
                        assert(reported@ =~= done + cached_keys(self@, *execution).take(k + 1));
                        k += 1;
                    }
                    assert(cached_keys(self@, *execution).take(k as int) =~= cached_keys(
                        self@,
                        *execution,
                    ));
                },
                None => {
                    assert(false);
                },
            }
            proof {
                let next = self@.groups[g as int].executions@.take(m + 1);
                assert(next.drop_last() =~= self@.groups[g as int].executions@.take(m as int));
                assert(next.last() == *execution);
                assert(result_views(results@) =~= cached_results(self@, next));
            }
            m += 1;
        }
        proof {
            let executions = self@.groups[g as int].executions@;
            assert(executions.take(m as int) =~= executions);
            assert(result_views(results@).len() == executions.len());
        }
        self.complete(g, results, &reported, actions);
    }

    /// Gives the group at position `g` to the worker at position `w`.
    fn dispatch(&mut self, w: usize, g: usize, actions: &mut Vec<SchedulerAction>)
        requires
            old(self).wf(),
            w < old(self)@.workers.len(),
            g < old(self)@.groups.len(),
        ensures
            final(self).wf(),
            final(self)@ == old(self)@.dispatched(w as int, g as int).view,
            action_views(final(actions)@) == action_views(old(actions)@) + old(self)@.dispatched(
                w as int,
                g as int,
            ).actions,
    {
        let worker = self.workers[w].uuid;
        let files = self.groups[g].dependencies();
        let keys = self.keys(&files);
        self.states[g] = GroupState::Running(worker);
        self.workers[w] = WorkerSlot { uuid: worker, asking: false, job: Some(g) };
        emit(actions, SchedulerAction::Work { worker, group: g, keys });
        let ghost listed = action_views(actions@);
        let group = &self.groups[g];
        let mut m: usize = 0;
        assert(action_views(actions@) =~= listed + start_notices(group.executions@.take(0), worker));
        while m < group.executions.len()
            invariant
                m <= group.executions@.len(),
                action_views(actions@) == listed + start_notices(
                    group.executions@.take(m as int),
                    worker,
                ),
            decreases group.executions@.len() - m,
        {
            emit(
                actions,
                SchedulerAction::Started { execution: group.executions[m].uuid, worker },
            );
            assert(action_views(actions@) =~= listed + start_notices(
                group.executions@.take(m + 1),
                worker,
            ));
            m += 1;
        }
        proof {
            assert(group.executions@.take(m as int) =~= group.executions@);
            let step = old(self)@.dispatched(w as int, g as int);
            assert(action_views(actions@) =~= action_views(old(actions)@) + step.actions);
            assert(self@.workers =~= step.view.workers);
            assert(self@.states =~= step.view.states);
        }
    }

    /// Ends the group at position `g` with an internal error for each member.
    fn fail(&mut self, g: usize, actions: &mut Vec<SchedulerAction>)
        requires
            old(self).wf(),
            g < old(self)@.groups.len(),
        ensures
            final(self).wf(),
            final(self)@ == old(self)@.failed(g as int).view,
            action_views(final(actions)@) == action_views(old(actions)@) + old(self)@.failed(
                g as int,
            ).actions,
    {
        let n = self.groups[g].executions.len();
        let mut results: Vec<ExecutionResult> = Vec::new();
        let mut m: usize = 0;
        while m < n
            invariant
                m <= n,
                results@.len() == m,
                forall|j: int| 0 <= j < m ==> (#[trigger] results@[j])@ == internal_error(lost_message()),
            decreases n - m,
        {
            results.push(
                ExecutionResult::internal_error(
                    "the worker did not report the results of the job".to_owned(),
                ),
            );
            m += 1;
        }
        let reported: Vec<DependencyKey> = Vec::new();
        assert(result_views(results@) =~= Seq::new(
            self@.groups[g as int].executions@.len(),
            |m: int| internal_error(lost_message()),
        ));
        assert(reported@ =~= Seq::<DependencyKey>::empty());
        self.complete(g, results, &reported, actions);
    }

    /// Where the worker with this identifier stands among the workers.
    fn find_worker(&self, worker: WorkerUuid) -> (found: Option<usize>)
        ensures
            match found {
                Some(w) => w == first_position(worker_uuids(self@.workers), worker) && w
                    < self@.workers.len(),
                None => first_position(worker_uuids(self@.workers), worker) >= self@.workers.len(),
            },
    {
        let ghost uuids = worker_uuids(self@.workers);
        let mut w: usize = 0;
        while w < self.workers.len()
            invariant
                w <= self@.workers.len(),
                uuids == worker_uuids(self@.workers),
                forall|k: int| 0 <= k < w ==> uuids[k] != worker,
            decreases self@.workers.len() - w,
        {
            if self.workers[w].uuid == worker {
                proof {
                    lemma_first_position_is(uuids, worker, w as int);
                }
                return Some(w);
            }
            w += 1;
        }
        proof {
            lemma_first_position_is(uuids, worker, w as int);
        }
        None
    }

    /// Takes one step towards a state in which nothing is left to decide;
    /// tells whether there was a step to take.
    fn step(&mut self, actions: &mut Vec<SchedulerAction>) -> (moved: bool)
        requires
            old(self).wf(),
        ensures
            final(self).wf(),
            moved == old(self)@.settle_step() is Some,
            moved ==> final(self)@ == old(self)@.settle_step()->0.view && action_views(
                final(actions)@,
            ) == action_views(old(actions)@) + old(self)@.settle_step()->0.actions,
            !moved ==> final(self)@ == old(self)@ && final(actions)@ == old(actions)@,
    {
        match self.find_doomed() {
            Some(g) => {
                self.skip(g, actions);
                true
            },
            None => match self.find_hit() {
                Some(g) => {
                    assert(self@.ready(g as int) && self@.group_hit(g as int)) by {
                        lemma_first_where(
                            self@.groups.len(),
                            |g: int| self@.ready(g) && self@.group_hit(g),
                        );
                    }
                    self.from_cache(g, actions);
                    true
                },
                None => {
                    let idle = self.find_idle();
                    let best = self.find_best();
                    match (idle, best) {
                        (Some(w), Some(g)) => {
                            self.dispatch(w, g, actions);
                            true
                        },
                        _ => false,
                    }
                },
            },
        }
    }

    /// Decides what can be decided: skips what can never run, answers from
    /// the cache what the cache knows, and gives ready groups to idle workers.
    fn settle(&mut self, actions: &mut Vec<SchedulerAction>)
        requires
            old(self).wf(),
        ensures
            final(self).wf(),
            final(self)@ == old(self)@.settled().view,
            action_views(final(actions)@) == action_views(old(actions)@) + old(self)@.settled().actions,
    {
        let mut fuel = self.groups.len();
        let ghost goal = self@.settle(fuel as nat);
        assert(action_views(actions@) + goal.actions =~= action_views(old(actions)@) + goal.actions);
        while fuel > 0
            invariant
                self.wf(),
                goal == old(self)@.settled(),
                self@.settle(fuel as nat).view == goal.view,
                action_views(actions@) + self@.settle(fuel as nat).actions == action_views(
                    old(actions)@,
                ) + goal.actions,
            decreases fuel,
        {
            let ghost before = self@;
            let ghost listed = action_views(actions@);
            let ghost rest = before.settle(fuel as nat);
            let moved = self.step(actions);
            if !moved {
                proof {
                    assert(rest == unchanged(before));
                    assert(listed + Seq::<ActionView>::empty() =~= listed);
                }
                return ;
            }
            proof {
                lemma_settle_unfold(before, fuel as nat);
                let step = before.settle_step()->0;
                let tail = step.view.settle((fuel - 1) as nat);
                assert(action_views(actions@) + tail.actions =~= listed + (step.actions
                    + tail.actions));
            }
            fuel -= 1;
        }
        assert(self@.settle(0) == unchanged(self@));
        assert(action_views(actions@) + Seq::<ActionView>::empty() =~= action_views(actions@));
    }

    /// A worker asks for work. It is entered where it was not known, is idle
    /// from now on, and is given the best ready group if there is one.
    fn asked(&mut self, worker: WorkerUuid) -> (actions: Vec<SchedulerAction>)
        requires
            old(self).wf(),
        ensures
            final(self).wf(),
            final(self)@ == old(self)@.worker_asked(worker).view,
            action_views(actions@) == old(self)@.worker_asked(worker).actions,
    {
        let mut actions: Vec<SchedulerAction> = Vec::new();
        match self.find_worker(worker) {
            Some(w) => {
                let slot = self.workers[w];
                self.workers[w] = WorkerSlot { uuid: slot.uuid, asking: true, job: slot.job };
            },
            None => {
                self.workers.push(WorkerSlot { uuid: worker, asking: true, job: None });
            },
        }
        assert(action_views(actions@) =~= Seq::<ActionView>::empty());
        let ghost middle = self@;
        self.settle(&mut actions);
        assert(action_views(actions@) =~= middle.settled().actions);
        actions
    }

    /// Puts a blob into the store of the scheduler and returns its key.
    pub fn store_blob(&mut self, content: Vec<u8>) -> (key: FileStoreKey)
        requires
            old(self).wf(),
        ensures
            final(self).wf(),
            key == FileStoreKey::of(content@),
            final(self)@ == (SchedulerView {
                store: stored(old(self)@.store, key, content@),
                ..old(self)@
            }),
    {
        self.store.put(content)
    }

    /// Enters the files that the client provides.
    fn declare_provided(&mut self, provided: &Vec<ProvidedFile>, actions: &mut Vec<SchedulerAction>)
        requires
            old(self).wf(),
        ensures
            final(self).wf(),
            (Registry {
                files: final(self)@.files,
                states: final(self)@.file_states,
                actions: action_views(final(actions)@),
            }) == with_provided(
                old(self)@.store,
                Registry {
                    files: old(self)@.files,
                    states: old(self)@.file_states,
                    actions: action_views(old(actions)@),
                },
                provided@,
            ),
            final(self)@ == (SchedulerView {
                files: final(self)@.files,
                file_states: final(self)@.file_states,
                ..old(self)@
            }),
    {
        let ghost start = Registry {
            files: self@.files,
            states: self@.file_states,
            actions: action_views(actions@),
        };
        let mut i: usize = 0;
        while i < provided.len()
            invariant
                self.wf(),
                i <= provided@.len(),
                self@ == (SchedulerView {
                    files: self@.files,
                    file_states: self@.file_states,
                    ..old(self)@
                }),
                (Registry {
                    files: self@.files,
                    states: self@.file_states,
                    actions: action_views(actions@),
                }) == with_provided(old(self)@.store, start, provided@.take(i as int)),
            decreases provided@.len() - i,
        {
            proof {
                assert(provided@.take(i + 1).drop_last() =~= provided@.take(i as int));
            }
            let file = provided[i].file.uuid;
            let key = provided[i].key;
            if find_u128(&self.files, file).is_none() {
                self.files.push(file);
                if self.store.has_key(&key) {
                    self.file_states.push(FileState::Ready(key));
                    emit(actions, SchedulerAction::FileReady { file, key });
                } else {
                    self.file_states.push(FileState::Awaited(key));
                    emit(actions, SchedulerAction::AskFile { file });
                }
            }
            i += 1;
        }
        assert(provided@.take(i as int) =~= provided@);
    }

    /// Enters, as pending, the files among `targets` that are not known.
    fn declare_pending(&mut self, targets: &Vec<FileUuid>)
        requires
            old(self).wf(),
        ensures
            final(self).wf(),
            forall|actions: Seq<ActionView>|
                (Registry { files: final(self)@.files, states: final(self)@.file_states, actions })
                    == #[trigger] with_pending(
                    Registry { files: old(self)@.files, states: old(self)@.file_states, actions },
                    targets@,
                ),
            final(self)@ == (SchedulerView {
                files: final(self)@.files,
                file_states: final(self)@.file_states,
                ..old(self)@
            }),
    {
        let mut k: usize = 0;
        while k < targets.len()
            invariant
                self.wf(),
                k <= targets@.len(),
                self@ == (SchedulerView {
                    files: self@.files,
                    file_states: self@.file_states,
                    ..old(self)@
                }),
                forall|actions: Seq<ActionView>|
                    (Registry { files: self@.files, states: self@.file_states, actions })
                        == #[trigger] with_pending(
                        Registry {
                            files: old(self)@.files,
                            states: old(self)@.file_states,
                            actions,
                        },
                        targets@.take(k as int),
                    ),
            decreases targets@.len() - k,
        {
            proof {
                assert(targets@.take(k + 1).drop_last() =~= targets@.take(k as int));
            }
            let ghost files = self@.files;
            let ghost states = self@.file_states;
            if find_u128(&self.files, targets[k]).is_none() {
                self.files.push(targets[k]);
                self.file_states.push(FileState::Pending);
            }
            proof {
                assert forall|actions: Seq<ActionView>|
                    (Registry { files: self@.files, states: self@.file_states, actions })
                        == #[trigger] with_pending(
                        Registry {
                            files: old(self)@.files,
                            states: old(self)@.file_states,
                            actions,
                        },
                        targets@.take(k + 1),
                    ) by {
                    let before = with_pending(
                        Registry {
                            files: old(self)@.files,
                            states: old(self)@.file_states,
                            actions,
                        },
                        targets@.take(k as int),
                    );
                    assert(before == (Registry { files, states, actions }));
                }
            }
            k += 1;
        }
        assert(targets@.take(k as int) =~= targets@);
    }

    /// Takes in the graph of a client. The graph is refused, and nothing
    /// changes, exactly if one of its executions reads a file that the graph
    /// does not know. Otherwise its files and groups are entered, and what
    /// can be decided at once is decided.
    fn ingest(&mut self, data: ExecutionDAGData) -> (outcome: Result<
        Vec<SchedulerAction>,
        DagError,
    >)
        requires
            old(self).wf(),
        ensures
            final(self).wf(),
            match outcome {
                Ok(actions) => {
                    &&& data.sound()
                    &&& final(self)@ == old(self)@.ingested(
                        data.provided_files@,
                        data.execution_groups@,
                        data.config.cache_mode@,
                    ).view
                    &&& action_views(actions@) == old(self)@.ingested(
                        data.provided_files@,
                        data.execution_groups@,
                        data.config.cache_mode@,
                    ).actions
                },
                Err(DagError::DanglingInput { execution, file }) => {
                    &&& final(self)@ == old(self)@
                    &&& exists|g: int, m: int, d: int|
                        {
                            &&& #[trigger] data.dangles(g, m, d)
                            &&& execution == data.execution_groups@[g].executions@[m].uuid
                            &&& file == data.execution_groups@[g].executions@[m].spec_dependencies()[d]
                            &&& forall|h: int, n: int, e: int|
                                ExecutionDAGData::before(h, n, e, g, m, d) ==> !#[trigger] data.dangles(
                                    h,
                                    n,
                                    e,
                                )
                        }
                },
            },
    {
        match data.validate() {
            Err(error) => {
                return Err(error);
            },
            Ok(_) => {},
        }
        let ExecutionDAGData { provided_files, execution_groups, config } = data;
        let mut execution_groups = execution_groups;
        let mut actions: Vec<SchedulerAction> = Vec::new();
        assert(action_views(actions@) =~= Seq::<ActionView>::empty());
        self.declare_provided(&provided_files, &mut actions);
        let ghost first = Registry {
            files: self@.files,
            states: self@.file_states,
            actions: action_views(actions@),
        };
        let mut g: usize = 0;
        while g < execution_groups.len()
            invariant
                self.wf(),
                g <= execution_groups@.len(),
                self@ == (SchedulerView {
                    files: self@.files,
                    file_states: self@.file_states,
                    ..old(self)@
                }),
                (Registry {
                    files: self@.files,
                    states: self@.file_states,
                    actions: action_views(actions@),
                }) == with_pending(first, produced_by(execution_groups@.take(g as int))),
            decreases execution_groups@.len() - g,
        {
            let targets = execution_groups[g].outputs();
            proof {
                assert(execution_groups@.take(g + 1).drop_last() =~= execution_groups@.take(
                    g as int,
                ));
                lemma_with_pending_concat(
                    first,
                    produced_by(execution_groups@.take(g as int)),
                    targets@,
                );
            }
            self.declare_pending(&targets);
            g += 1;
        }
        proof {
            assert(execution_groups@.take(g as int) =~= execution_groups@);
        }
        let n = execution_groups.len();
        let ghost declared = execution_groups@;
        self.groups.append(&mut execution_groups);
        let mut i: usize = 0;
        let ghost states = self.states@;
        while i < n
            invariant
                i <= n,
                self.states@ == states + Seq::new(i as nat, |i: int| GroupState::Waiting),
                self.groups@ == old(self)@.groups + declared,
                self.files@ == with_pending(first, produced_by(declared)).files,
                self.file_states@ == with_pending(first, produced_by(declared)).states,
                self.workers@ == old(self)@.workers,
                self.store.wf(),
                self.store@ == old(self)@.store,
                self.store.max_size() == old(self)@.max_size,
                self.store.min_size() == old(self)@.min_size,
                self.cache@ == old(self)@.cache,
                self.held@ == old(self)@.held,
            decreases n - i,
        {
            self.states.push(GroupState::Waiting);
            assert(self.states@ =~= states + Seq::new((i + 1) as nat, |i: int| GroupState::Waiting));
            i += 1;
        }
        self.mode = config.cache_mode;
        let ghost listed = action_views(actions@);
        let ghost middle = self@;
        proof {
            lemma_registry_lengths(old(self)@, provided_files@, produced_by(declared));
        }
        self.settle(&mut actions);
        proof {
            assert(action_views(actions@) =~= listed + middle.settled().actions);
        }
        Ok(actions)
    }

    /// Takes in the content of a file that the client provides. The content
    /// is dropped unless the file is awaited under the key of this content.
    fn take_file(&mut self, file: FileUuid, content: Vec<u8>) -> (actions: Vec<
        SchedulerAction,
    >)
        requires
            old(self).wf(),
        ensures
            final(self).wf(),
            final(self)@ == old(self)@.file_arrived(file, content@).view,
            action_views(actions@) == old(self)@.file_arrived(file, content@).actions,
    {
        let mut actions: Vec<SchedulerAction> = Vec::new();
        assert(action_views(actions@) =~= Seq::<ActionView>::empty());
        let key = FileStoreKey::from_content(content.as_slice());
        match find_u128(&self.files, file) {
            Some(p) => {
                if self.file_states[p] == FileState::Awaited(key) {
                    self.store.put(content);
                    self.file_states[p] = FileState::Ready(key);
                    emit(&mut actions, SchedulerAction::FileReady { file, key });
                    let ghost listed = action_views(actions@);
                    let ghost middle = self@;
                    self.settle(&mut actions);
                    proof {
                        assert(listed =~= seq![ActionView::FileReady { file, key }]);
                        assert(action_views(actions@) =~= listed + middle.settled().actions);
                    }
                }
            },
            None => {},
        }
        actions
    }

    /// The keys that `reported` gives for `files`, if it gives one for each.
    fn collect_keys(reported: &Vec<DependencyKey>, files: &Vec<FileUuid>) -> (keys: Option<
        Vec<FileStoreKey>,
    >)
        ensures
            keys is Some == all_reported(reported@, files@),
            keys matches Some(list) ==> list@ == reported_keys(reported@, files@),
    {
        let mut keys: Vec<FileStoreKey> = Vec::new();
        let mut k: usize = 0;
        while k < files.len()
            invariant
                k <= files@.len(),
                keys@ == reported_keys(reported@, files@.take(k as int)),
                forall|j: int| 0 <= j < k ==> key_for(reported@, #[trigger] files@[j]) is Some,
            decreases files@.len() - k,
        {
            match find_key(reported, files[k]) {
                Some(key) => {
                    keys.push(key);
                    assert(keys@ =~= reported_keys(reported@, files@.take(k + 1)));
                },
                None => {
                    return None;
                },
            }
            k += 1;
        }
        assert(files@.take(k as int) =~= files@);
        Some(keys)
    }

    /// Puts the results of the members of the group at position `g` into the cache.
    fn remember(&mut self, g: usize, results: &Vec<ExecutionResult>, reported: &Vec<DependencyKey>)
        requires
            old(self).wf(),
            g < old(self)@.groups.len(),
            results@.len() == old(self)@.groups[g as int].executions@.len(),
        ensures
            final(self).wf(),
            final(self)@ == (SchedulerView {
                cache: with_entries(
                    old(self)@,
                    old(self)@.groups[g as int].executions@,
                    result_views(results@),
                    reported@,
                ),
                ..old(self)@
            }),
    {
        let n = self.groups[g].executions.len();
        let ghost executions = self@.groups[g as int].executions@;
        let ghost views = result_views(results@);
        let mut m: usize = 0;
        while m < n
            invariant
                self.wf(),
                m <= n,
                n == executions.len(),
                g < self@.groups.len(),
                executions == old(self)@.groups[g as int].executions@,
                results@.len() == n,
                views == result_views(results@),
                self@ == (SchedulerView {
                    cache: with_entries(old(self)@, executions.take(m as int), views, reported@),
                    ..old(self)@
                }),
            decreases n - m,
        {
            proof {
                assert(executions.take(m + 1).drop_last() =~= executions.take(m as int));
            }
            let execution = &self.groups[g].executions[m];
            proof {
                lemma_print_frame(self@, old(self)@, *execution);
            }
            if self.mode.is_cached(&execution.tag) {
                let files = execution.outputs();
                match Self::collect_keys(reported, &files) {
                    Some(keys) => {
                        let entry = CacheEntry {
                            print: self.print(execution),
                            result: results[m].clone(),
                            names: names_of(execution),
                            keys,
                        };
                        self.cache.insert(entry);
                    },
                    None => {},
                }
            }
            m += 1;
        }
        assert(executions.take(m as int) =~= executions);
    }

    /// Takes in the results that a worker reports for its job. The report is
    /// dropped where the worker is not known or has no job. The blobs that
    /// `reported` names are looked for in the store: an output whose blob is
    /// missing is dead.
    fn take_result(
        &mut self,
        worker: WorkerUuid,
        results: Vec<ExecutionResult>,
        reported: Vec<DependencyKey>,
    ) -> (actions: Vec<SchedulerAction>)
        requires
            old(self).wf(),
        ensures
            final(self).wf(),
            final(self)@ == old(self)@.result_arrived(
                worker,
                result_views(results@),
                reported@,
            ).view,
            action_views(actions@) == old(self)@.result_arrived(
                worker,
                result_views(results@),
                reported@,
            ).actions,
    {
        let mut actions: Vec<SchedulerAction> = Vec::new();
        assert(action_views(actions@) =~= Seq::<ActionView>::empty());
        match self.find_worker(worker) {
            Some(w) => {
                let slot = self.workers[w];
                match slot.job {
                    Some(g) => {
                        self.workers[w] = WorkerSlot {
                            uuid: slot.uuid,
                            asking: slot.asking,
                            job: None,
                        };
                        if self.states[g] == GroupState::Running(worker) {
                            if results.len() != self.groups[g].executions.len() {
                                self.fail(g, &mut actions);
                            } else {
                                self.remember(g, &results, &reported);
                                self.complete(g, results, &reported, &mut actions);
                            }
                            let ghost listed = action_views(actions@);
                            let ghost middle = self@;
                            self.settle(&mut actions);
                            proof {
                                assert(Seq::<ActionView>::empty() + listed =~= listed);
                                assert(action_views(actions@) =~= listed + middle.settled().actions);
                            }
                        }
                    },
                    None => {},
                }
            },
            None => {},
        }
        actions
    }

    /// Takes in the loss of a worker: it is known no longer, and the group
    /// that still ran on it ends with an internal error for each member.
    fn lose_worker(&mut self, worker: WorkerUuid) -> (actions: Vec<SchedulerAction>)
        requires
            old(self).wf(),
        ensures
            final(self).wf(),
            final(self)@ == old(self)@.worker_gone(worker).view,
            action_views(actions@) == old(self)@.worker_gone(worker).actions,
    {
        let mut actions: Vec<SchedulerAction> = Vec::new();
        assert(action_views(actions@) =~= Seq::<ActionView>::empty());
        match self.find_worker(worker) {
            Some(w) => {
                let slot = self.workers.remove(w);
                proof {
                    assert forall|v: int| 0 <= v < self@.workers.len() implies ((
                    #[trigger] self@.workers[v]).job matches Some(g) ==> g < self@.groups.len()) by {
                        let u = if v < w { v } else { v + 1 };
                        assert(self@.workers[v] == old(self)@.workers[u]);
                    }
                }
                match slot.job {
                    Some(g) => {
                        if self.states[g] == GroupState::Running(worker) {
                            self.fail(g, &mut actions);
                            let ghost listed = action_views(actions@);
                            let ghost middle = self@;
                            self.settle(&mut actions);
                            proof {
                                assert(Seq::<ActionView>::empty() + listed =~= listed);
                                assert(action_views(actions@) =~= listed + middle.settled().actions);
                            }
                        }
                    },
                    None => {},
                }
            },
            None => {},
        }
        actions
    }

    /// Stops the evaluation: every group that has not ended is skipped, the
    /// jobs that run are killed, and no file becomes ready any more.
    pub fn stop(&mut self) -> (actions: Vec<SchedulerAction>)
        requires
            old(self).wf(),
        ensures
            final(self).wf(),
            final(self)@ == old(self)@.stopped().view,
            action_views(actions@) == old(self)@.stopped().actions,
    {
        let mut actions: Vec<SchedulerAction> = Vec::new();
        assert(action_views(actions@) =~= stop_notices(self@.groups.take(0), self@.states));
        let ghost before = self@;
        let mut g: usize = 0;
        while g < self.groups.len()
            invariant
                self.wf(),
                before == old(self)@,
                g <= before.groups.len(),
                self@ == (SchedulerView { states: self@.states, ..before }),
                self@.states.len() == before.states.len(),
                forall|h: int|
                    0 <= h < before.states.len() ==> self@.states[h] == if h < g {
                        stopped_state(before.states[h])
                    } else {
                        before.states[h]
                    },
                action_views(actions@) == stop_notices(before.groups.take(g as int), before.states),
            decreases before.groups.len() - g,
        {
            let ghost listed = action_views(actions@);
            proof {
                assert(before.groups.take(g + 1).drop_last() =~= before.groups.take(g as int));
            }
            match self.states[g] {
                GroupState::Waiting => {
                    self.emit_skips(g, &mut actions);
                    self.states[g] = GroupState::Skipped;
                },
                GroupState::Running(worker) => {
                    emit(&mut actions, SchedulerAction::KillJob { worker, job: self.groups[g].uuid });
                    self.emit_skips(g, &mut actions);
                    self.states[g] = GroupState::Skipped;
                    assert(action_views(actions@) =~= listed + stop_notice(
                        before.groups[g as int],
                        before.states[g as int],
                    ));
                },
                _ => {
                    assert(action_views(actions@) =~= listed + stop_notice(
                        before.groups[g as int],
                        before.states[g as int],
                    ));
                },
            }
            g += 1;
        }
        assert(before.groups.take(g as int) =~= before.groups);
        let ghost middle = self@;
        let mut p: usize = 0;
        while p < self.file_states.len()
            invariant
                self.wf(),
                p <= middle.file_states.len(),
                self@ == (SchedulerView { file_states: self@.file_states, ..middle }),
                self@.file_states.len() == middle.file_states.len(),
                forall|q: int|
                    0 <= q < middle.file_states.len() ==> self@.file_states[q] == if q < p {
                        stopped_file(middle.file_states[q])
                    } else {
                        middle.file_states[q]
                    },
            decreases middle.file_states.len() - p,
        {
            match self.file_states[p] {
                FileState::Ready(_) => {},
                _ => {
                    self.file_states[p] = FileState::Dead;
                },
            }
            p += 1;
        }
        proof {
            let goal = old(self)@.stopped().view;
            assert(self@.states =~= goal.states);
            assert(self@.file_states =~= goal.file_states);
        }
        actions
    }

    /// Whether every group has ended or is skipped.
    pub fn is_finished(&self) -> (finished: bool)
        requires
            self.wf(),
        ensures
            finished == (forall|g: int|
                0 <= g < self@.groups.len() ==> (#[trigger] self@.states[g]) is Done
                    || self@.states[g] is Skipped),
    {
        let mut g: usize = 0;
        while g < self.states.len()
            invariant
                self.wf(),
                g <= self@.states.len(),
                forall|h: int|
                    0 <= h < g ==> (#[trigger] self@.states[h]) is Done || self@.states[h] is Skipped,
            decreases self@.states.len() - g,
        {
            match self.states[g] {
                GroupState::Done => {},
                GroupState::Skipped => {},
                _ => {
                    return false;
                },
            }
            g += 1;
        }
        true
    }

    /// The files among `reported` whose blob the store does not hold, in
    /// order: what a worker has to send before its results can be taken in.
    pub fn missing_blobs(&self, reported: &Vec<DependencyKey>) -> (missing: Vec<FileUuid>)
        requires
            self.wf(),
        ensures
            missing@ == missing_from(self@.store, reported@),
    {
        let mut missing: Vec<FileUuid> = Vec::new();
        let mut i: usize = 0;
        while i < reported.len()
            invariant
                self.wf(),
                i <= reported@.len(),
                missing@ == missing_from(self@.store, reported@.take(i as int)),
            decreases reported@.len() - i,
        {
            proof {
                assert(reported@.take(i + 1).drop_last() =~= reported@.take(i as int));
            }
            if !self.store.has_key(&reported[i].key) {
                missing.push(reported[i].file);
            }
            i += 1;
        }
        assert(reported@.take(i as int) =~= reported@);
        missing
    }
}

/// The files among `reported` whose blob the store does not hold, in order.
pub open spec fn missing_from(store: Seq<BlobView>, reported: Seq<DependencyKey>) -> Seq<
    FileUuid,
>
    decreases reported.len(),
{
    if reported.len() == 0 {
        seq![]
    } else if holds(store, reported.last().key) {
        missing_from(store, reported.drop_last())
    } else {
        missing_from(store, reported.drop_last()).push(reported.last().file)
    }
}

/// With fuel left and a step to take, settling is that step and then settling with less fuel.
pub proof fn lemma_settle_unfold(view: SchedulerView, fuel: nat)
    requires
        fuel > 0,
        view.settle_step() is Some,
    ensures
        view.settle(fuel) == after(
            view.settle_step()->0.actions,
            view.settle_step()->0.view.settle((fuel - 1) as nat),
        ),
{
}

/// The results in the opposite order.
fn reversed(results: Vec<ExecutionResult>) -> (turned: Vec<ExecutionResult>)
    ensures
        turned@.len() == results@.len(),
        forall|j: int| 0 <= j < turned@.len() ==> turned@[j] == results@[results@.len() - 1 - j],
{
    let mut source = results;
    let mut turned: Vec<ExecutionResult> = Vec::new();
    while source.len() > 0
        invariant
            turned@.len() + source@.len() == results@.len(),
            forall|j: int| 0 <= j < source@.len() ==> source@[j] == results@[j],
            forall|j: int| 0 <= j < turned@.len() ==> turned@[j] == results@[results@.len() - 1 - j],
        decreases source@.len(),
    {
        let result = source.pop().unwrap();
        turned.push(result);
    }
    turned
}

/// Files that are given the dead state are not announced.
pub proof fn lemma_resolve_dead(files: Seq<FileUuid>, states: Seq<FileState>, targets: Seq<FileUuid>)
    ensures
        resolve(files, states, targets, all_dead(targets.len())).actions == Seq::<
            ActionView,
        >::empty(),
    decreases targets.len(),
{
    if targets.len() > 0 {
        lemma_resolve_dead(files, states, targets.drop_last());
        assert(all_dead(targets.len()).drop_last() =~= all_dead(targets.drop_last().len()));
        let before = resolve(files, states, targets.drop_last(), all_dead(targets.len()).drop_last());
        assert(before.actions + announce(targets.last(), all_dead(targets.len()).last())
            =~= Seq::<ActionView>::empty());
    }
}

/// Declaring files in two parts is declaring them in one.
pub proof fn lemma_with_pending_concat(registry: Registry, first: Seq<FileUuid>, second: Seq<FileUuid>)
    ensures
        with_pending(registry, first + second) == with_pending(
            with_pending(registry, first),
            second,
        ),
    decreases second.len(),
{
    if second.len() == 0 {
        assert(first + second =~= first);
    } else {
        lemma_with_pending_concat(registry, first, second.drop_last());
        assert((first + second).drop_last() =~= first + second.drop_last());
        assert((first + second).last() == second.last());
    }
}

/// Declaring files keeps one state for each file.
pub proof fn lemma_registry_lengths(
    view: SchedulerView,
    provided: Seq<ProvidedFile>,
    targets: Seq<FileUuid>,
)
    requires
        view.file_states.len() == view.files.len(),
    ensures
        ({
            let first = with_provided(
                view.store,
                Registry { files: view.files, states: view.file_states, actions: seq![] },
                provided,
            );
            let second = with_pending(first, targets);
            first.states.len() == first.files.len() && second.states.len() == second.files.len()
        }),
    decreases provided.len() + targets.len(),
{
    if targets.len() > 0 {
        lemma_registry_lengths(view, provided, targets.drop_last());
    } else if provided.len() > 0 {
        lemma_registry_lengths(view, provided.drop_last(), targets);
    }
}

/// The fingerprint of an execution depends on the files and their states alone.
pub proof fn lemma_print_frame(first: SchedulerView, second: SchedulerView, execution: Execution)
    requires
        first.files == second.files,
        first.file_states == second.file_states,
    ensures
        first.print(execution) == second.print(execution),
        first.keys(execution.spec_dependencies()) == second.keys(execution.spec_dependencies()),
{
    let files = execution.spec_dependencies();
    assert forall|i: int| 0 <= i < files.len() implies first.keys(files)[i] == second.keys(
        files,
    )[i] by {
        assert(first.file_state(files[i]) == second.file_state(files[i]));
    }
    assert(first.keys(files) =~= second.keys(files));
}

/// A copy of the states of the files.
fn copy_states(states: &Vec<FileState>) -> (copy: Vec<FileState>)
    ensures
        copy@ == states@,
{
    let mut copy: Vec<FileState> = Vec::new();
    let mut i: usize = 0;
    while i < states.len()
        invariant
            i <= states@.len(),
            copy@ == states@.take(i as int),
        decreases states@.len() - i,
    {
        copy.push(states[i]);
        assert(copy@ =~= states@.take(i + 1));
        i += 1;
    }
    assert(states@.take(i as int) =~= states@);
    copy
}

impl Scheduler {
    /// Takes a reference to the blob of each file that became ready since
    /// the files stood as in `before`.
    fn hold(&mut self, before: &Vec<FileState>)
        requires
            old(self).wf(),
        ensures
            final(self).wf(),
            final(self)@ == old(self)@.holding(before@),
    {
        let ghost after = self@.file_states;
        let mut p: usize = 0;
        assert(self@.held + Seq::<FileStoreKey>::empty() =~= self@.held);
        while p < self.file_states.len()
            invariant
                self.wf(),
                p <= after.len(),
                after == old(self)@.file_states,
                self@ == (SchedulerView {
                    store: retained_all(
                        old(self)@.store,
                        newly_ready(before@, after, p as nat),
                    ),
                    held: old(self)@.held + newly_ready(
                        before@,
                        after,
                        p as nat,
                    ),
                    ..old(self)@
                }),
            decreases after.len() - p,
        {
            let ghost keys = newly_ready(before@, after, p as nat);
            match self.file_states[p] {
                FileState::Ready(key) => {
                    let was_ready = if p < before.len() {
                        match before[p] {
                            FileState::Ready(_) => true,
                            _ => false,
                        }
                    } else {
                        false
                    };
                    if !was_ready {
                        self.store.retain(&key);
                        self.held.push(key);
                        proof {
                            assert(keys.push(key).drop_last() =~= keys);
                            assert(self@.held =~= old(self)@.held + keys.push(key));
                        }
                    }
                },
                _ => {},
            }
            p += 1;
        }
    }

    /// A worker asks for work. It is entered where it was not known, is idle
    /// from now on, and is given the best ready group if there is one.
    pub fn worker_ready(&mut self, worker: WorkerUuid) -> (actions: Vec<SchedulerAction>)
        requires
            old(self).wf(),
        ensures
            final(self).wf(),
            final(self)@ == held_step(
                old(self)@,
                old(self)@.worker_asked(worker),
            ).view,
            action_views(actions@) == old(self)@.worker_asked(worker).actions,
    {
        let before = copy_states(&self.file_states);
        let actions = self.asked(worker);
        self.hold(&before);
        actions
    }

    /// Takes in the graph of a client. The graph is refused, and nothing
    /// changes, exactly if one of its executions reads a file that the graph
    /// does not know; the error names the first such execution and file.
    /// Otherwise its files and groups are entered, and what can be decided
    /// at once is decided.
    pub fn evaluate(&mut self, data: ExecutionDAGData) -> (outcome: Result<
        Vec<SchedulerAction>,
        DagError,
    >)
        requires
            old(self).wf(),
        ensures
            final(self).wf(),
            match outcome {
                Ok(actions) => {
                    &&& data.sound()
                    &&& final(self)@ == held_step(
                        old(self)@,
                        old(self)@.ingested(
                            data.provided_files@,
                            data.execution_groups@,
                            data.config.cache_mode@,
                        ),
                    ).view
                    &&& action_views(actions@) == old(self)@.ingested(
                        data.provided_files@,
                        data.execution_groups@,
                        data.config.cache_mode@,
                    ).actions
                },
                Err(DagError::DanglingInput { execution, file }) => {
                    &&& final(self)@ == old(self)@
                    &&& exists|g: int, m: int, d: int|
                        {
                            &&& #[trigger] data.dangles(g, m, d)
                            &&& execution == data.execution_groups@[g].executions@[m].uuid
                            &&& file == data.execution_groups@[g].executions@[m].spec_dependencies()[d]
                            &&& forall|h: int, n: int, e: int|
                                ExecutionDAGData::before(h, n, e, g, m, d) ==> !#[trigger] data.dangles(
                                    h,
                                    n,
                                    e,
                                )
                        }
                },
            },
    {
        let before = copy_states(&self.file_states);
        match self.ingest(data) {
            Ok(actions) => {
                self.hold(&before);
                Ok(actions)
            },
            Err(error) => Err(error),
        }
    }

    /// Takes in the content of a file that the client provides. The content
    /// is dropped unless the file is awaited under the key of this content.
    pub fn file_provided(&mut self, file: FileUuid, content: Vec<u8>) -> (actions: Vec<
        SchedulerAction,
    >)
        requires
            old(self).wf(),
        ensures
            final(self).wf(),
            final(self)@ == held_step(
                old(self)@,
                old(self)@.file_arrived(file, content@),
            ).view,
            action_views(actions@) == old(self)@.file_arrived(file, content@).actions,
    {
        let before = copy_states(&self.file_states);
        let actions = self.take_file(file, content);
        self.hold(&before);
        actions
    }

    /// Takes in the results that a worker reports for its job. The report is
    /// dropped where the worker is not known or has no job. The blobs that
    /// `reported` names are looked for in the store: an output whose blob is
    /// missing is dead.
    pub fn worker_result(
        &mut self,
        worker: WorkerUuid,
        results: Vec<ExecutionResult>,
        reported: Vec<DependencyKey>,
    ) -> (actions: Vec<SchedulerAction>)
        requires
            old(self).wf(),
        ensures
            final(self).wf(),
            final(self)@ == held_step(
                old(self)@,
                old(self)@.result_arrived(worker, result_views(results@), reported@),
            ).view,
            action_views(actions@) == old(self)@.result_arrived(
                worker,
                result_views(results@),
                reported@,
            ).actions,
    {
        let before = copy_states(&self.file_states);
        let actions = self.take_result(worker, results, reported);
        self.hold(&before);
        actions
    }

    /// Takes in the loss of a worker: it is known no longer, and the group
    /// that still ran on it ends with an internal error for each member.
    pub fn worker_lost(&mut self, worker: WorkerUuid) -> (actions: Vec<SchedulerAction>)
        requires
            old(self).wf(),
        ensures
            final(self).wf(),
            final(self)@ == held_step(
                old(self)@,
                old(self)@.worker_gone(worker),
            ).view,
            action_views(actions@) == old(self)@.worker_gone(worker).actions,
    {
        let before = copy_states(&self.file_states);
        let actions = self.lose_worker(worker);
        self.hold(&before);
        actions
    }

    /// Lets go of every blob that the scheduler holds: from now on the store
    /// may evict the blobs of the files that are ready.
    pub fn release(&mut self)
        requires
            old(self).wf(),
        ensures
            final(self).wf(),
            final(self)@ == old(self)@.released(),
    {
        let ghost held = self@.held;
        let n = self.held.len();
        let mut i: usize = 0;
        while i < n
            invariant
                self.wf(),
                i <= n,
                n == held.len(),
                held == old(self)@.held,
                self@ == (SchedulerView {
                    store: released_all(old(self)@.store, held.take(i as int)),
                    ..old(self)@
                }),
            decreases n - i,
        {
            proof {
                assert(held.take(i + 1).drop_last() =~= held.take(i as int));
            }
            let key = self.held[i];
            self.store.release(&key);
            i += 1;
        }
        assert(held.take(n as int) =~= held);
        self.held = Vec::new();
        assert(self@.held =~= Seq::<FileStoreKey>::empty());
    }

    /// How many groups stand where, and how many workers are connected.
    pub fn status(&self) -> (status: SchedulerStatus)
        requires
            self.wf(),
        ensures
            status.waiting == in_state(
                self@.states,
                GroupState::Waiting,
                self@.states.len(),
            ),
            status.running == in_state(
                self@.states,
                GroupState::Running(0),
                self@.states.len(),
            ),
            status.done == in_state(
                self@.states,
                GroupState::Done,
                self@.states.len(),
            ),
            status.skipped == in_state(
                self@.states,
                GroupState::Skipped,
                self@.states.len(),
            ),
            status.workers == self@.workers.len(),
    {
        let mut waiting: usize = 0;
        let mut running: usize = 0;
        let mut done: usize = 0;
        let mut skipped: usize = 0;
        let mut g: usize = 0;
        while g < self.states.len()
            invariant
                g <= self@.states.len(),
                waiting + running + done + skipped == g,
                waiting == in_state(self@.states, GroupState::Waiting, g as nat),
                running == in_state(
                    self@.states,
                    GroupState::Running(0),
                    g as nat,
                ),
                done == in_state(self@.states, GroupState::Done, g as nat),
                skipped == in_state(self@.states, GroupState::Skipped, g as nat),
            decreases self@.states.len() - g,
        {
            match self.states[g] {
                GroupState::Waiting => {
                    waiting += 1;
                },
                GroupState::Running(_) => {
                    running += 1;
                },
                GroupState::Done => {
                    done += 1;
                },
                GroupState::Skipped => {
                    skipped += 1;
                },
            }
            g += 1;
        }
        SchedulerStatus {
            waiting,
            running,
            done,
            skipped,
            workers: self.workers.len(),
        }
    }

    /// Has the store evict what it may: where it holds more than its maximum
    /// size, the oldest blobs without references are dropped, down to its
    /// minimum size. Returns the keys that were dropped.
    pub fn evict(&mut self) -> (removed: Vec<FileStoreKey>)
        requires
            old(self).wf(),
        ensures
            final(self).wf(),
            final(self)@ == old(self)@.evicted(),
            removed@ == dropped(
                old(self)@.store,
                old(self)@.max_size,
                old(self)@.min_size,
            ),
    {
        self.store.evict()
    }
}

} // verus!
