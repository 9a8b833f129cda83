//! The messages that the scheduler, the workers and the client send each
//! other. The bytes of a file follow the message that announces them.

use std::collections::HashMap;
use vstd::prelude::*;
use vstd::std_specs::hash::*;
use crate::dag::execution::{ExecutionGroup, ExecutionResult, ExecutionResultView};
use crate::dag::file::{ExecutionGroupUuid, ExecutionUuid, FileUuid, WorkerUuid};
use crate::exec::model::{file_part, key_for, DependencyKey};
use crate::search::{first_position, lemma_first_position, lemma_first_position_is};
use crate::store::FileStoreKey;

verus! {

/// A job for a worker: a group of executions, and the key of the content of
/// each file that the group reads.
#[derive(Debug, Clone, PartialEq, Eq)]
pub struct WorkerJob {
    /// The group to run.
    pub group: ExecutionGroup,
    /// The key of each file that a member of the group reads.
    pub dep_keys: HashMap<FileUuid, FileStoreKey>,
}

/// The keys of `map` once the first `n` pairs are entered; a file keeps the
/// key of the first pair that has it.
pub open spec fn entered_keys(pairs: Seq<DependencyKey>, n: nat) -> Map<FileUuid, FileStoreKey>
    decreases n,
{
    if n == 0 {
        Map::empty()
    } else {
        let before = entered_keys(pairs, (n - 1) as nat);
        if before.contains_key(pairs[n - 1].file) {
            before
        } else {
            before.insert(pairs[n - 1].file, pairs[n - 1].key)
        }
    }
}

/// A file has, among the keys entered, the key of the first pair that has it.
pub proof fn lemma_entered_keys(pairs: Seq<DependencyKey>, n: nat, file: FileUuid)
    requires
        n <= pairs.len(),
    ensures
        match key_for(pairs.take(n as int), file) {
            Some(key) => entered_keys(pairs, n).contains_key(file) && entered_keys(pairs, n)[file]
                == key,
            None => !entered_keys(pairs, n).contains_key(file),
        },
    decreases n,
{
    let files = file_part(pairs.take(n as int));
    lemma_first_position(files, file);
    if n > 0 {
        let rest = file_part(pairs.take(n - 1));
        lemma_entered_keys(pairs, (n - 1) as nat, file);
        lemma_first_position(rest, file);
        assert(pairs.take(n as int).drop_last() =~= pairs.take(n - 1));
        assert(files.drop_last() =~= rest);
        let p = first_position(rest, file);
        if p < rest.len() {
            assert(files[p] == rest[p]);
            assert forall|j: int| 0 <= j < p implies files[j] != file by {
                assert(files[j] == rest[j]);
            }
            lemma_first_position_is(files, file, p);
        } else {
            assert forall|j: int| 0 <= j < n - 1 implies files[j] != file by {
                assert(files[j] == rest[j]);
            }
            lemma_first_position_is(files, file, if pairs[n - 1].file == file {
                n - 1
            } else {
                n as int
            });
        }
    }
}

impl WorkerJob {
    /// The key that the job names for `file`.
    pub open spec fn key_of(&self, file: FileUuid) -> Option<FileStoreKey> {
        if self.dep_keys@.contains_key(file) {
            Some(self.dep_keys@[file])
        } else {
            None
        }
    }

    /// The job of `group` with these keys; a file that is named twice has
    /// the key that is named first.
    pub fn new(group: ExecutionGroup, keys: Vec<DependencyKey>) -> (job: WorkerJob)
        ensures
            job.group == group,
            forall|file: FileUuid| #[trigger] job.key_of(file) == key_for(keys@, file),
    {
        broadcast use vstd::std_specs::hash::group_hash_axioms;

        let mut dep_keys: HashMap<FileUuid, FileStoreKey> = HashMap::new();
        let mut i: usize = 0;
        while i < keys.len()
            invariant
                i <= keys@.len(),
                dep_keys@ == entered_keys(keys@, i as nat),
            decreases keys@.len() - i,
        {
            if !dep_keys.contains_key(&keys[i].file) {
                dep_keys.insert(keys[i].file, keys[i].key);
            }
            i += 1;
        }
        let job = WorkerJob { group, dep_keys };
        proof {
            assert(keys@.take(i as int) =~= keys@);
            assert forall|file: FileUuid| #[trigger] job.key_of(file) == key_for(keys@, file) by {
                lemma_entered_keys(keys@, i as nat, file);
            }
        }
        job
    }

    /// The key that the job names for `file`.
    pub fn find(&self, file: FileUuid) -> (key: Option<FileStoreKey>)
        ensures
            key == self.key_of(file),
    {
        broadcast use vstd::std_specs::hash::group_hash_axioms;

        match self.dep_keys.get(&file) {
            Some(key) => Some(*key),
            None => None,
        }
    }
}

/// What a worker tells the scheduler.
#[derive(Debug, PartialEq, Eq)]
pub enum WorkerClientMessage {
    /// The worker is ready for a job.
    GetWork,
    /// The worker needs the blob under this key.
    AskFile(FileStoreKey),
    /// The worker sends the content of a file it produced; the bytes follow.
    ProvideFile(FileUuid, FileStoreKey),
    /// The job is over: the results of the members, in order, and the key
    /// of each file that the members produced.
    WorkerDone(Vec<ExecutionResult>, Vec<DependencyKey>),
}

/// Mathematical value of a [`WorkerClientMessage`].
pub enum WorkerClientMessageView {
    GetWork,
    AskFile(FileStoreKey),
    ProvideFile(FileUuid, FileStoreKey),
    WorkerDone(Seq<ExecutionResultView>, Seq<DependencyKey>),
}

impl View for WorkerClientMessage {
    type V = WorkerClientMessageView;

    open spec fn view(&self) -> WorkerClientMessageView {
        match *self {
            WorkerClientMessage::GetWork => WorkerClientMessageView::GetWork,
            WorkerClientMessage::AskFile(key) => WorkerClientMessageView::AskFile(key),
            WorkerClientMessage::ProvideFile(file, key) => WorkerClientMessageView::ProvideFile(
                file,
                key,
            ),
            WorkerClientMessage::WorkerDone(results, outputs) => WorkerClientMessageView::WorkerDone(
                results@.map_values(|result: ExecutionResult| result@),
                outputs@,
            ),
        }
    }
}

/// What the scheduler tells a worker.
#[derive(Debug)]
pub enum WorkerServerMessage {
    /// A job to run.
    Work(WorkerJob),
    /// The blob under this key, which the worker asked for; the bytes follow.
    ProvideFile(FileStoreKey),
    /// The files, among those the worker produced, that the scheduler wants.
    AskFiles(Vec<FileUuid>),
    /// Kill the job of this group.
    KillJob(ExecutionGroupUuid),
    /// Stop working.
    Exit,
}

/// What a client tells the scheduler.
#[derive(Debug)]
pub enum ExecutorClientMessage {
    /// The content of a file that the client provides; the bytes follow.
    ProvideFile(FileUuid, FileStoreKey),
    /// Stop the evaluation.
    Stop,
}

/// What the scheduler tells a client.
#[derive(Debug)]
pub enum ExecutorServerMessage {
    /// The scheduler needs the content of this file, which the client provides.
    AskFile(FileUuid),
    /// A file is ready; the bytes follow.
    ProvideFile(FileUuid),
    /// An execution has started on a worker.
    NotifyStart(ExecutionUuid, WorkerUuid),
    /// An execution has ended.
    NotifyDone(ExecutionUuid, ExecutionResult),
    /// An execution will never run.
    NotifySkip(ExecutionUuid),
    /// The graph was refused.
    Error(String),
    /// Every execution has ended or is skipped.
    Done,
}

} // verus!
