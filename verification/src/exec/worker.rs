//! The worker: it takes one job at a time, fetches the blobs it lacks, has
//! each member of the job run in a sandbox, and reports the results. The
//! worker decides; whoever owns it carries out the actions it returns.

use vstd::prelude::*;
use crate::dag::execution::{
    dependencies_of, stream_view, Execution, ExecutionResult, ExecutionResultView,
};
use crate::dag::file::{fresh_uuid, ExecutionGroupUuid, FileUuid, WorkerUuid};
use crate::exec::model::{find_key, key_for, DependencyKey};
use crate::exec::proto::{
    WorkerClientMessage, WorkerClientMessageView, WorkerJob, WorkerServerMessage,
};
use crate::exec::sandbox::{
    compute_execution_result, get_result_outputs, keyed, output_contents, result_of, stored_all,
    SandboxReport,
};
use crate::search::{
    first_position, first_where, lemma_first_position, lemma_first_position_is,
    lemma_first_where_is, lemma_occurs, occurs,
};
use crate::store::{
    content_of, holds, lemma_stored_holds, stored, BlobView, FileStore, FileStoreKey,
};

verus! {

/// What a worker is doing.
#[derive(Debug, Clone, Copy, PartialEq, Eq, Structural)]
pub enum Phase {
    /// The worker has no job.
    Idle,
    /// The worker has a job and waits for blobs that it lacks.
    Fetching,
    /// The sandboxes of the job run.
    Running,
    /// The job is over and reported; the scheduler has yet to say which files it wants.
    Reporting,
}

/// Why a worker cannot go on.
#[derive(Debug, Clone, Copy, PartialEq, Eq, Structural)]
pub enum WorkerError {
    /// A dependency key is missing from the list of file dependencies.
    MissingDependencyKey {
        /// The file without a key.
        uuid: FileUuid,
    },
    /// A job came while the worker had one.
    Busy,
    /// A blob came that the worker did not ask for.
    NotRequired {
        /// The key under which it came.
        key: FileStoreKey,
    },
    /// A blob came whose bytes do not have the key under which it came.
    WrongContent {
        /// The key under which it came.
        key: FileStoreKey,
    },
    /// A sandbox reported while no job ran.
    NoJob,
    /// A sandbox reported that is not part of the job, or reported twice.
    UnexpectedResult {
        /// The position of the sandbox.
        index: usize,
    },
}

/// What a worker asks of whoever owns it.
#[derive(Debug, PartialEq, Eq)]
pub enum WorkerAction {
    /// Send a message to the scheduler; the bytes, if any, follow it.
    Send {
        message: WorkerClientMessage,
        content: Option<Vec<u8>>,
    },
    /// Make the sandboxes of the job and run them.
    StartJob,
    /// Kill the process of the sandbox of this member.
    KillSandbox(usize),
    /// Leave the loop that feeds the worker.
    Exit,
}

/// Mathematical value of a [`WorkerAction`].
pub enum WorkerActionView {
    Send { message: WorkerClientMessageView, content: Option<Seq<u8>> },
    StartJob,
    KillSandbox(usize),
    Exit,
}

impl View for WorkerAction {
    type V = WorkerActionView;

    open spec fn view(&self) -> WorkerActionView {
        match *self {
            WorkerAction::Send { message, content } => WorkerActionView::Send {
                message: message@,
                content: stream_view(content),
            },
            WorkerAction::StartJob => WorkerActionView::StartJob,
            WorkerAction::KillSandbox(index) => WorkerActionView::KillSandbox(index),
            WorkerAction::Exit => WorkerActionView::Exit,
        }
    }
}

/// The values of these actions, in order.
pub open spec fn worker_actions(actions: Seq<WorkerAction>) -> Seq<WorkerActionView> {
    actions.map_values(|action: WorkerAction| action@)
}

/// The files that a job reads, member after member.
pub open spec fn job_files(job: WorkerJob) -> Seq<FileUuid> {
    dependencies_of(job.group.executions@)
}

/// The position, among the files that a job reads, of the first without a
/// key; the number of files if each has one.
pub open spec fn first_unkeyed(job: WorkerJob) -> int {
    first_where(
        job_files(job).len(),
        |i: int| job.key_of(job_files(job)[i]) is None,
    )
}

/// The keys of the first `n` files of a job whose blob the store lacks, each
/// once, in the order in which the files need them.
pub open spec fn wanted_upto(store: Seq<BlobView>, job: WorkerJob, n: nat) -> Seq<FileStoreKey>
    decreases n,
{
    if n == 0 {
        seq![]
    } else {
        let before = wanted_upto(store, job, (n - 1) as nat);
        let key = job.key_of(job_files(job)[n - 1])->0;
        if holds(store, key) || occurs(before, key) {
            before
        } else {
            before.push(key)
        }
    }
}

/// The keys of the blobs that a job needs and the store lacks.
pub open spec fn wanted(store: Seq<BlobView>, job: WorkerJob) -> Seq<FileStoreKey> {
    wanted_upto(store, job, job_files(job).len())
}

/// One request to the scheduler for each of these keys.
pub open spec fn asks(keys: Seq<FileStoreKey>) -> Seq<WorkerActionView> {
    keys.map_values(
        |key: FileStoreKey|
            WorkerActionView::Send {
                message: WorkerClientMessageView::AskFile(key),
                content: None,
            },
    )
}

/// Whether the store holds the blob of every file that the job reads.
pub open spec fn all_present(store: Seq<BlobView>, job: WorkerJob) -> bool {
    forall|i: int|
        0 <= i < job_files(job).len() ==> (#[trigger] job.key_of(job_files(job)[i]))
            is Some && holds(store, job.key_of(job_files(job)[i])->0)
}

/// Whether, of every file that the job reads, the store holds the blob or the
/// worker waits for it.
pub open spec fn all_accounted(store: Seq<BlobView>, missing: Seq<FileStoreKey>, job: WorkerJob) -> bool {
    forall|i: int|
        0 <= i < job_files(job).len() ==> (#[trigger] job.key_of(job_files(job)[i]))
            is Some && (holds(store, job.key_of(job_files(job)[i])->0) || occurs(
            missing,
            job.key_of(job_files(job)[i])->0,
        ))
}

/// One order to kill for each member but `index` that has not reported, in
/// the order of the members, where the member that reported did not succeed.
pub open spec fn kills(results: Seq<Option<ExecutionResult>>, index: int, success: bool) -> Seq<
    WorkerActionView,
> {
    if success {
        seq![]
    } else {
        kills_upto(results, index, results.len())
    }
}

/// The orders to kill among the first `n` members; see [`kills`].
pub open spec fn kills_upto(results: Seq<Option<ExecutionResult>>, index: int, n: nat) -> Seq<
    WorkerActionView,
>
    decreases n,
{
    if n == 0 {
        seq![]
    } else {
        let before = kills_upto(results, index, (n - 1) as nat);
        if n - 1 != index && results[n - 1] is None {
            before.push(WorkerActionView::KillSandbox((n - 1) as usize))
        } else {
            before
        }
    }
}

/// The value of a result that may be missing.
pub open spec fn option_view(result: Option<ExecutionResult>) -> Option<ExecutionResultView> {
    match result {
        Some(result) => Some(result@),
        None => None,
    }
}

/// The values of the results of the members, where they have reported.
pub open spec fn option_views(results: Seq<Option<ExecutionResult>>) -> Seq<
    Option<ExecutionResultView>,
> {
    results.map_values(|result: Option<ExecutionResult>| option_view(result))
}

/// Whether every member has reported.
pub open spec fn all_reported(results: Seq<Option<ExecutionResult>>) -> bool {
    forall|i: int| 0 <= i < results.len() ==> (#[trigger] results[i]) is Some
}

/// Whether every member has reported.
pub open spec fn complete(results: Seq<Option<ExecutionResultView>>) -> bool {
    forall|i: int| 0 <= i < results.len() ==> (#[trigger] results[i]) is Some
}

/// The results of members that have all reported, in order.
pub open spec fn final_results(results: Seq<Option<ExecutionResultView>>) -> Seq<
    ExecutionResultView,
> {
    results.map_values(|result: Option<ExecutionResultView>| result->0)
}

/// The report of a job, once every member has reported.
pub open spec fn done_message(
    results: Seq<Option<ExecutionResultView>>,
    reported: Seq<DependencyKey>,
) -> Seq<WorkerActionView> {
    if complete(results) {
        seq![
            WorkerActionView::Send {
                message: WorkerClientMessageView::WorkerDone(final_results(results), reported),
                content: None,
            },
        ]
    } else {
        seq![]
    }
}

/// The files that the worker sends on request: for each of `files`, in
/// order, that the worker produced, its key and its bytes.
pub open spec fn provided_files(
    store: Seq<BlobView>,
    reported: Seq<DependencyKey>,
    files: Seq<FileUuid>,
) -> Seq<WorkerActionView>
    decreases files.len(),
{
    if files.len() == 0 {
        seq![]
    } else {
        let before = provided_files(store, reported, files.drop_last());
        match key_for(reported, files.last()) {
            Some(key) => match content_of(store, key) {
                Some(content) => before.push(
                    WorkerActionView::Send {
                        message: WorkerClientMessageView::ProvideFile(files.last(), key),
                        content: Some(content),
                    },
                ),
                None => before,
            },
            None => before,
        }
    }
}

/// One order to kill for each of `n` sandboxes.
pub open spec fn kill_all(n: nat) -> Seq<WorkerActionView> {
    Seq::new(n, |i: int| WorkerActionView::KillSandbox(i as usize))
}

/// The information about the current job the worker is doing.
struct WorkerCurrentJob {
    /// The job, if the worker has one.
    job: Option<WorkerJob>,
    /// The keys of the blobs that the worker waits for.
    missing: Vec<FileStoreKey>,
    /// The result of each member that has reported.
    results: Vec<Option<ExecutionResult>>,
    /// The files that the members have produced, each with its key.
    reported: Vec<DependencyKey>,
    /// What the worker is doing.
    phase: Phase,
}

/// The worker is the component that receives the work from the server and sends the results back.
/// It computes the results by executing a process inside a sandbox, limiting the available
/// resources and measuring the used ones.
pub struct Worker {
    /// The identifier of this worker.
    uuid: WorkerUuid,
    /// The name of this worker.
    name: String,
    /// The blobs that the worker has.
    file_store: FileStore,
    /// Job the worker is currently working on.
    current_job: WorkerCurrentJob,
    /// Where to put the sandboxes.
    sandbox_path: String,
}

/// An handle of the connection to the worker.
#[derive(Debug)]
pub struct WorkerConn {
    /// The identifier of the worker.
    pub uuid: WorkerUuid,
    /// The name of the worker.
    pub name: String,
}

impl WorkerCurrentJob {
    /// Make a new [`WorkerCurrentJob`]: no job, nothing awaited, nothing reported.
    fn new() -> (current: WorkerCurrentJob)
        ensures
            current.job is None,
            current.missing@.len() == 0,
            current.results@.len() == 0,
            current.reported@.len() == 0,
            current.phase == Phase::Idle,
    {
        WorkerCurrentJob {
            job: None,
            missing: Vec::new(),
            results: Vec::new(),
            reported: Vec::new(),
            phase: Phase::Idle,
        }
    }
}

/// Whether `key` is among `keys`, and where.
fn find_missing(keys: &Vec<FileStoreKey>, key: &FileStoreKey) -> (found: Option<usize>)
    ensures
        found is Some == occurs(keys@, *key),
        found matches Some(p) ==> p == first_position(keys@, *key) && p < keys@.len(),
{
    let mut p: usize = 0;
    while p < keys.len()
        invariant
            p <= keys@.len(),
            forall|k: int| 0 <= k < p ==> keys@[k] != *key,
        decreases keys@.len() - p,
    {
        if keys[p] == *key {
            proof {
                lemma_first_position_is(keys@, *key, p as int);
            }
            return Some(p);
        }
        p += 1;
    }
    proof {
        lemma_first_position_is(keys@, *key, p as int);
    }
    None
}

impl Worker {
    /// The identifier of the worker.
    pub closed spec fn id(&self) -> WorkerUuid {
        self.uuid
    }

    /// The name of the worker.
    pub closed spec fn label(&self) -> Seq<char> {
        self.name@
    }

    /// What the worker is doing.
    pub closed spec fn phase(&self) -> Phase {
        self.current_job.phase
    }

    /// The job of the worker.
    pub closed spec fn job(&self) -> Option<WorkerJob> {
        self.current_job.job
    }

    /// The keys of the blobs that the worker waits for.
    pub closed spec fn missing(&self) -> Seq<FileStoreKey> {
        self.current_job.missing@
    }

    /// The result of each member of the job that has reported.
    pub closed spec fn results(&self) -> Seq<Option<ExecutionResult>> {
        self.current_job.results@
    }

    /// The files that the members of the job have produced, each with its key.
    pub closed spec fn reported(&self) -> Seq<DependencyKey> {
        self.current_job.reported@
    }

    /// The blobs that the worker has.
    pub closed spec fn store(&self) -> Seq<BlobView> {
        self.file_store@
    }

    /// Where the sandboxes are put.
    pub closed spec fn sandbox_path(&self) -> Seq<char> {
        self.sandbox_path@
    }

    /// Whether the worker is well formed. Among other things: a worker that
    /// runs a job holds the blob of every file that the job reads.
    pub closed spec fn wf(&self) -> bool {
        &&& self.file_store.wf()
        &&& match self.current_job.phase {
            Phase::Idle => self.current_job.job is None && self.current_job.missing@.len() == 0,
            Phase::Fetching => {
                &&& self.current_job.job is Some
                &&& self.current_job.missing@.len() > 0
                &&& all_accounted(
                    self.file_store@,
                    self.current_job.missing@,
                    self.current_job.job->0,
                )
            },
            Phase::Running => {
                &&& self.current_job.job is Some
                &&& self.current_job.missing@.len() == 0
                &&& all_present(self.file_store@, self.current_job.job->0)
                &&& self.current_job.results@.len()
                    == self.current_job.job->0.group.executions@.len()
                &&& !all_reported(self.current_job.results@)
            },
            Phase::Reporting => self.current_job.job is Some && self.current_job.missing@.len() == 0,
        }
    }

    /// A worker that runs a job holds the blob of every file that the job reads.
    pub proof fn law_running_job_has_its_inputs(&self)
        requires
            self.wf(),
            self.phase() == Phase::Running,
        ensures
            self.job() is Some,
            all_present(self.store(), self.job()->0),
    {
    }

    /// Make a new worker over a store of blobs, together with the handle by
    /// which the scheduler knows it. Both carry the same new identifier.
    pub fn new(name: &str, file_store: FileStore, sandbox_path: &str) -> (pair: (Worker, WorkerConn))
        requires
            file_store.wf(),
        ensures
            pair.0.wf(),
            pair.0.phase() == Phase::Idle,
            pair.0.store() == file_store@,
            pair.0.label() == name@,
            pair.0.sandbox_path() == sandbox_path@,
            pair.1.name@ == name@,
            pair.1.uuid == pair.0.id(),
    {
        let worker = Worker::new_with_channel(name, file_store, sandbox_path);
        let conn = WorkerConn { uuid: worker.uuid, name: name.to_owned() };
        (worker, conn)
    }

    /// Make a new worker whose connection to the scheduler exists already.
    pub fn new_with_channel(name: &str, file_store: FileStore, sandbox_path: &str) -> (worker:
        Worker)
        requires
            file_store.wf(),
        ensures
            worker.wf(),
            worker.phase() == Phase::Idle,
            worker.job() is None,
            worker.store() == file_store@,
            worker.label() == name@,
            worker.sandbox_path() == sandbox_path@,
    {
        Worker {
            uuid: fresh_uuid(),
            name: name.to_owned(),
            file_store,
            current_job: WorkerCurrentJob::new(),
            sandbox_path: sandbox_path.to_owned(),
        }
    }

    /// The identifier of the worker.
    pub fn uuid(&self) -> (uuid: WorkerUuid)
        ensures
            uuid == self.id(),
    {
        self.uuid
    }

    /// The name of the worker.
    pub fn name(&self) -> (name: &String)
        ensures
            name@ == self.label(),
    {
        &self.name
    }

    /// What the worker is doing.
    pub fn current_phase(&self) -> (phase: Phase)
        ensures
            phase == self.phase(),
    {
        self.current_job.phase
    }

    /// The job of the worker.
    pub fn current_job(&self) -> (job: Option<&WorkerJob>)
        ensures
            match job {
                Some(job) => self.job() == Some(*job),
                None => self.job() is None,
            },
    {
        self.current_job.job.as_ref()
    }

    /// The blobs that the worker has.
    pub fn file_store(&self) -> (store: &FileStore)
        ensures
            store@ == self.store(),
            self.wf() ==> store.wf(),
    {
        &self.file_store
    }

    /// Prepares the run of the members once no blob is missing.
    fn begin(&mut self, actions: &mut Vec<WorkerAction>)
        requires
            old(self).current_job.job is Some,
            old(self).file_store.wf(),
            old(self).current_job.missing@.len() == 0,
            all_present(old(self).file_store@, old(self).current_job.job->0),
        ensures
            final(self).wf(),
            final(self).id() == old(self).id(),
            final(self).label() == old(self).label(),
            final(self).sandbox_path() == old(self).sandbox_path(),
            final(self).store() == old(self).store(),
            final(self).job() == old(self).job(),
            final(self).missing() == old(self).missing(),
            final(self).reported().len() == 0,
            final(self).phase() == begun_phase(old(self).current_job.job->0),
            final(self).phase() == Phase::Running ==> final(self).results() == Seq::new(
                old(self).current_job.job->0.group.executions@.len(),
                |i: int| None::<ExecutionResult>,
            ),
            worker_actions(final(actions)@) == worker_actions(old(actions)@) + begun(
                old(self).current_job.job->0,
            ),
    {
        let n = match &self.current_job.job {
            Some(job) => job.group.executions.len(),
            None => 0,
        };
        let mut results: Vec<Option<ExecutionResult>> = Vec::new();
        let mut i: usize = 0;
        while i < n
            invariant
                i <= n,
                results@ == Seq::new(i as nat, |i: int| None::<ExecutionResult>),
            decreases n - i,
        {
            results.push(None);
            assert(results@ =~= Seq::new((i + 1) as nat, |i: int| None::<ExecutionResult>));
            i += 1;
        }
        self.current_job.reported = Vec::new();
        if n == 0 {
            self.current_job.results = Vec::new();
            self.current_job.phase = Phase::Reporting;
            let sent: Vec<ExecutionResult> = Vec::new();
            let outputs: Vec<DependencyKey> = Vec::new();
            actions.push(
                WorkerAction::Send {
                    message: WorkerClientMessage::WorkerDone(sent, outputs),
                    content: None,
                },
            );
            proof {
                assert(sent@.map_values(|result: ExecutionResult| result@) =~= Seq::<
                    ExecutionResultView,
                >::empty());
                assert(outputs@ =~= Seq::<DependencyKey>::empty());
                assert(worker_actions(actions@) =~= worker_actions(old(actions)@) + begun(
                    old(self).current_job.job->0,
                ));
            }
        } else {
            assert(results@[0] is None);
            self.current_job.results = results;
            self.current_job.phase = Phase::Running;
            actions.push(WorkerAction::StartJob);
            assert(worker_actions(actions@) =~= worker_actions(old(actions)@) + begun(
                old(self).current_job.job->0,
            ));
        }
    }

    /// Takes a job. The job is refused, and nothing changes, where the worker
    /// has a job already, or where the job names no key for a file that one
    /// of its members reads. Otherwise the worker asks, once each, for the
    /// blobs that it lacks, and starts the job if it lacks none.
    pub fn take_job(&mut self, job: WorkerJob) -> (outcome: Result<Vec<WorkerAction>, WorkerError>)
        requires
            old(self).wf(),
        ensures
            took_job(old(self), job, final(self), outcome),
    {
        if self.current_job.phase != Phase::Idle {
            return Err(WorkerError::Busy);
        }
        let files = job.group.dependencies();
        let ghost unkeyed = |i: int| job.key_of(job_files(job)[i]) is None;
        let mut i: usize = 0;
        while i < files.len()
            invariant
                self.wf(),
                *self == *old(self),
                self.current_job.phase == Phase::Idle,
                i <= files@.len(),
                files@ == job_files(job),
                unkeyed == (|i: int| job.key_of(job_files(job)[i]) is None),
                forall|j: int| 0 <= j < i ==> !#[trigger] unkeyed(j),
            decreases files@.len() - i,
        {
            if job.find(files[i]).is_none() {
                proof {
                    lemma_first_where_is(files@.len(), unkeyed, i as int);
                }
                return Err(WorkerError::MissingDependencyKey { uuid: files[i] });
            }
            i += 1;
        }
        proof {
            lemma_first_where_is(files@.len(), unkeyed, i as int);
            assert forall|j: int| 0 <= j < files@.len() implies (#[trigger] job.key_of(files@[j],
            )) is Some by {
                assert(!unkeyed(j));
            }
        }
        let mut actions: Vec<WorkerAction> = Vec::new();
        let mut missing: Vec<FileStoreKey> = Vec::new();
        let mut i: usize = 0;
        assert(worker_actions(actions@) =~= asks(missing@));
        while i < files.len()
            invariant
                self.wf(),
                *self == *old(self),
                self.current_job.phase == Phase::Idle,
                i <= files@.len(),
                files@ == job_files(job),
                forall|j: int|
                    0 <= j < files@.len() ==> (#[trigger] job.key_of(files@[j])) is Some,
                missing@ == wanted_upto(self.file_store@, job, i as nat),
                worker_actions(actions@) == asks(missing@),
            decreases files@.len() - i,
        {
            assert(job.key_of(files@[i as int]) is Some);
            match job.find(files[i]) {
                Some(key) => {
                    if !self.file_store.has_key(&key) && find_missing(&missing, &key).is_none() {
                        let ghost before = missing@;
                        let ghost listed = worker_actions(actions@);
                        missing.push(key);
                        actions.push(
                            WorkerAction::Send {
                                message: WorkerClientMessage::AskFile(key),
                                content: None,
                            },
                        );
                        proof {
                            let asked = WorkerActionView::Send {
                                message: WorkerClientMessageView::AskFile(key),
                                content: None,
                            };
                            assert(actions@.last()@ == asked);
                            assert(worker_actions(actions@) =~= listed.push(asked));
                            assert(asks(missing@) =~= asks(before).push(asked));
                        }
                    }
                },
                None => {},
            }
            i += 1;
        }
        proof {
            assert forall|j: int| 0 <= j < files@.len() implies (#[trigger] job.key_of(job_files(job)[j],
            )) is Some && (holds(self.file_store@, job.key_of(job_files(job)[j])->0)
                || occurs(missing@, job.key_of(job_files(job)[j])->0)) by {
                lemma_wanted_accounts(self.file_store@, job, files@.len(), (j + 1) as nat);
            }
            if missing@.len() == 0 {
                assert forall|j: int| 0 <= j < files@.len() implies (#[trigger] job.key_of(job_files(job)[j],
                )) is Some && holds(self.file_store@, job.key_of(job_files(job)[j])->0) by {
                    lemma_occurs(
                        missing@,
                        job.key_of(job_files(job)[j])->0,
                    );
                }
            }
        }
        let ready = missing.len() == 0;
        self.current_job.job = Some(job);
        self.current_job.missing = missing;
        self.current_job.results = Vec::new();
        self.current_job.reported = Vec::new();
        if ready {
            self.begin(&mut actions);
            assert(asks(Seq::<FileStoreKey>::empty()) + begun(job) =~= begun(job));
        } else {
            self.current_job.phase = Phase::Fetching;
            assert(worker_actions(actions@) + Seq::<WorkerActionView>::empty() =~= worker_actions(
                actions@,
            ));
        }
        Ok(actions)
    }
}

/// What the start of a job calls for: the start of its sandboxes, or, for a
/// job without members, the report that it is over.
pub open spec fn begun(job: WorkerJob) -> Seq<WorkerActionView> {
    if job.group.executions@.len() == 0 {
        seq![
            WorkerActionView::Send {
                message: WorkerClientMessageView::WorkerDone(seq![], seq![]),
                content: None,
            },
        ]
    } else {
        seq![WorkerActionView::StartJob]
    }
}

/// The phase of a worker that has begun a job.
pub open spec fn begun_phase(job: WorkerJob) -> Phase {
    if job.group.executions@.len() == 0 {
        Phase::Reporting
    } else {
        Phase::Running
    }
}

/// Whether a worker that was `before` and is `after` has taken, or refused, `job`.
pub open spec fn took_job(
    before: &Worker,
    job: WorkerJob,
    after: &Worker,
    outcome: Result<Vec<WorkerAction>, WorkerError>,
) -> bool {
    &&& after.wf()
    &&& after.id() == before.id()
    &&& after.label() == before.label()
    &&& after.sandbox_path() == before.sandbox_path()
    &&& after.store() == before.store()
    &&& match outcome {
        Err(WorkerError::Busy) => before.phase() != Phase::Idle && *after == *before,
        Err(WorkerError::MissingDependencyKey { uuid }) => {
            &&& before.phase() == Phase::Idle
            &&& 0 <= first_unkeyed(job) < job_files(job).len()
            &&& uuid == job_files(job)[first_unkeyed(job)]
            &&& *after == *before
        },
        Err(_) => false,
        Ok(actions) => {
            let lacking = wanted(before.store(), job);
            &&& before.phase() == Phase::Idle
            &&& first_unkeyed(job) >= job_files(job).len()
            &&& after.job() == Some(job)
            &&& after.missing() == lacking
            &&& after.reported().len() == 0
            &&& after.phase() == (if lacking.len() == 0 {
                begun_phase(job)
            } else {
                Phase::Fetching
            })
            &&& worker_actions(actions@) == asks(lacking) + (if lacking.len() == 0 {
                begun(job)
            } else {
                seq![]
            })
        },
    }
}

/// Of each of the first `m` files of a job, the store holds the blob or the
/// key is among those wanted for the first `n` files, for `m` up to `n`.
pub proof fn lemma_wanted_accounts(store: Seq<BlobView>, job: WorkerJob, n: nat, m: nat)
    requires
        0 < m <= n,
    ensures
        ({
            let key = job.key_of(job_files(job)[m - 1])->0;
            holds(store, key) || occurs(wanted_upto(store, job, n), key)
        }),
    decreases n,
{
    let key = job.key_of(job_files(job)[m - 1])->0;
    let before = wanted_upto(store, job, (n - 1) as nat);
    let last = job.key_of(job_files(job)[n - 1])->0;
    let all = wanted_upto(store, job, n);
    lemma_occurs(before, key);
    lemma_occurs(all, key);
    if m < n {
        lemma_wanted_accounts(store, job, (n - 1) as nat, m);
        if occurs(before, key) {
            let q = choose|q: int| 0 <= q < before.len() && before[q] == key;
            assert(all[q] == key);
        }
    } else {
        if !holds(store, key) && !occurs(before, key) {
            assert(all[before.len() as int] == key);
        }
    }
}

/// Whether a worker that was `before` and is `after` has taken, or refused,
/// the blob that came under `key`.
pub open spec fn took_file(
    before: &Worker,
    key: FileStoreKey,
    content: Seq<u8>,
    after: &Worker,
    outcome: Result<Vec<WorkerAction>, WorkerError>,
) -> bool {
    &&& after.wf()
    &&& after.id() == before.id()
    &&& after.label() == before.label()
    &&& after.sandbox_path() == before.sandbox_path()
    &&& after.job() == before.job()
    &&& match outcome {
        Err(WorkerError::NotRequired { key: named }) => {
            &&& named == key
            &&& !occurs(before.missing(), key)
            &&& *after == *before
        },
        Err(WorkerError::WrongContent { key: named }) => {
            &&& named == key
            &&& occurs(before.missing(), key)
            &&& FileStoreKey::of(content) != key
            &&& *after == *before
        },
        Err(_) => false,
        Ok(actions) => {
            let left = before.missing().remove(first_position(before.missing(), key));
            &&& occurs(before.missing(), key)
            &&& FileStoreKey::of(content) == key
            &&& before.job() is Some
            &&& after.store() == stored(before.store(), key, content)
            &&& after.missing() == left
            &&& after.phase() == (if left.len() == 0 {
                begun_phase(before.job()->0)
            } else {
                Phase::Fetching
            })
            &&& worker_actions(actions@) == (if left.len() == 0 {
                begun(before.job()->0)
            } else {
                seq![]
            })
        },
    }
}

/// Whether a worker that was `before` and is `after` has taken in, or
/// refused, the report of the sandbox of the member at position `index`.
pub open spec fn member_reported(
    before: &Worker,
    index: usize,
    report: SandboxReport,
    after: &Worker,
    outcome: Result<Vec<WorkerAction>, WorkerError>,
) -> bool {
    &&& after.wf()
    &&& after.id() == before.id()
    &&& after.label() == before.label()
    &&& after.sandbox_path() == before.sandbox_path()
    &&& after.job() == before.job()
    &&& match outcome {
        Err(WorkerError::NoJob) => before.phase() != Phase::Running && *after == *before,
        Err(WorkerError::UnexpectedResult { index: named }) => {
            &&& named == index
            &&& before.phase() == Phase::Running
            &&& (index >= before.results().len() || before.results()[index as int] is Some)
            &&& *after == *before
        },
        Err(_) => false,
        Ok(actions) => {
            &&& before.phase() == Phase::Running
            &&& before.job() is Some
            &&& index < before.results().len()
            &&& before.results()[index as int] is None
            &&& {
                let execution = before.job()->0.group.executions@[index as int];
                let result = result_of(execution, report);
                let contents = output_contents(execution, report);
                let results = option_views(before.results()).update(index as int, Some(result));
                let reported = before.reported() + keyed(execution.spec_outputs(), contents);
                &&& after.store() == stored_all(before.store(), contents)
                &&& after.reported() == reported
                &&& after.phase() == (if complete(results) {
                    Phase::Reporting
                } else {
                    Phase::Running
                })
                &&& !complete(results) ==> option_views(after.results()) == results
                &&& worker_actions(actions@) == kills(
                    before.results(),
                    index as int,
                    result.status is Success,
                ) + done_message(results, reported)
            }
        },
    }
}

/// Whether a worker that was `before` and is `after` has answered the
/// request of the scheduler for `files`.
pub open spec fn answered(
    before: &Worker,
    files: Seq<FileUuid>,
    after: &Worker,
    actions: Seq<WorkerAction>,
) -> bool {
    &&& after.wf()
    &&& after.id() == before.id()
    &&& after.label() == before.label()
    &&& after.sandbox_path() == before.sandbox_path()
    &&& after.store() == before.store()
    &&& if before.phase() == Phase::Reporting {
        &&& after.phase() == Phase::Idle
        &&& after.job() is None
        &&& worker_actions(actions) == provided_files(before.store(), before.reported(), files).push(
            WorkerActionView::Send { message: WorkerClientMessageView::GetWork, content: None },
        )
    } else {
        &&& *after == *before
        &&& actions.len() == 0
    }
}

/// The orders to kill that a request to kill the job of `group` calls for:
/// one for each sandbox where the worker runs that job, none otherwise.
pub open spec fn kill_orders(worker: &Worker, group: ExecutionGroupUuid) -> Seq<WorkerActionView> {
    if worker.phase() == Phase::Running && worker.job() is Some && worker.job()->0.group.uuid
        == group {
        kill_all(worker.job()->0.group.executions@.len())
    } else {
        seq![]
    }
}

/// What the loss of the connection calls for: the sandboxes that run are
/// killed, and the worker leaves its loop.
pub open spec fn last_orders(worker: &Worker) -> Seq<WorkerActionView> {
    (if worker.phase() == Phase::Running && worker.job() is Some {
        kill_all(worker.job()->0.group.executions@.len())
    } else {
        seq![]
    }).push(WorkerActionView::Exit)
}

impl Worker {
    /// Takes the blob that came under `key`. It is refused, and nothing
    /// changes, where the worker does not wait for that key, or where the
    /// bytes do not have that key. Otherwise the blob is stored, and the job
    /// starts if no other blob is missing.
    pub fn take_file(&mut self, key: FileStoreKey, content: Vec<u8>) -> (outcome: Result<
        Vec<WorkerAction>,
        WorkerError,
    >)
        requires
            old(self).wf(),
        ensures
            took_file(old(self), key, content@, final(self), outcome),
    {
        let p = match find_missing(&self.current_job.missing, &key) {
            Some(p) => p,
            None => {
                return Err(WorkerError::NotRequired { key });
            },
        };
        if FileStoreKey::from_content(content.as_slice()) != key {
            return Err(WorkerError::WrongContent { key });
        }
        let ghost job = self.current_job.job->0;
        let ghost before = self.file_store@;
        let ghost awaited = self.current_job.missing@;
        proof {
            lemma_first_position(awaited, key);
            assert(self.current_job.phase == Phase::Fetching);
            assert(all_accounted(before, awaited, job));
        }
        self.file_store.put(content);
        self.current_job.missing.remove(p);
        let mut actions: Vec<WorkerAction> = Vec::new();
        proof {
            let left = self.current_job.missing@;
            assert forall|j: int| 0 <= j < job_files(job).len() implies (#[trigger] job.key_of(job_files(job)[j],
            )) is Some && (holds(self.file_store@, job.key_of(job_files(job)[j])->0)
                || occurs(left, job.key_of(job_files(job)[j])->0)) by {
                let needed = job.key_of(job_files(job)[j])->0;
                lemma_stored_holds(before, key, content@, needed);
                if !holds(before, needed) && needed != key {
                    lemma_occurs(awaited, needed);
                    lemma_occurs(left, needed);
                    let q = choose|q: int| 0 <= q < awaited.len() && awaited[q] == needed;
                    let target = if q < p { q } else { q - 1 };
                    assert(left[target] == awaited[q]);
                }
            }
            if left.len() == 0 {
                assert forall|j: int| 0 <= j < job_files(job).len() implies (#[trigger] job.key_of(job_files(job)[j],
                )) is Some && holds(self.file_store@, job.key_of(job_files(job)[j])->0) by {
                    lemma_occurs(left, job.key_of(job_files(job)[j])->0);
                }
            }
            assert(worker_actions(actions@) =~= Seq::<WorkerActionView>::empty());
        }
        if self.current_job.missing.len() == 0 {
            self.begin(&mut actions);
            assert(Seq::<WorkerActionView>::empty() + begun(job) =~= begun(job));
        }
        Ok(actions)
    }

    /// The orders to kill the sandboxes of the first `n` members.
    fn kill_sandboxes(n: usize, actions: &mut Vec<WorkerAction>)
        ensures
            worker_actions(final(actions)@) == worker_actions(old(actions)@) + kill_all(n as nat),
    {
        let mut i: usize = 0;
        assert(worker_actions(actions@) =~= worker_actions(old(actions)@) + kill_all(0));
        while i < n
            invariant
                i <= n,
                worker_actions(actions@) == worker_actions(old(actions)@) + kill_all(i as nat),
            decreases n - i,
        {
            let ghost listed = worker_actions(actions@);
            actions.push(WorkerAction::KillSandbox(i));
            assert(actions@.last()@ == WorkerActionView::KillSandbox(i));
            assert(worker_actions(actions@) =~= listed.push(WorkerActionView::KillSandbox(i)));
            assert(kill_all((i + 1) as nat) =~= kill_all(i as nat).push(
                WorkerActionView::KillSandbox(i),
            ));
            assert(worker_actions(actions@) =~= worker_actions(old(actions)@) + kill_all(
                (i + 1) as nat,
            ));
            i += 1;
        }
    }

    /// What a worker sends first, before it is given anything: the request
    /// for work, and nothing else.
    pub fn ready(&self) -> (actions: Vec<WorkerAction>)
        ensures
            worker_actions(actions@) == seq![
                WorkerActionView::Send { message: WorkerClientMessageView::GetWork, content: None },
            ],
    {
        let mut actions: Vec<WorkerAction> = Vec::new();
        actions.push(WorkerAction::Send { message: WorkerClientMessage::GetWork, content: None });
        assert(worker_actions(actions@) =~= seq![
            WorkerActionView::Send { message: WorkerClientMessageView::GetWork, content: None },
        ]);
        actions
    }

    /// Takes the request to kill the job of `group`: where the worker runs
    /// that job, every sandbox is killed.
    pub fn kill_job(&self, group: ExecutionGroupUuid) -> (actions: Vec<WorkerAction>)
        requires
            self.wf(),
        ensures
            worker_actions(actions@) == kill_orders(self, group),
    {
        let mut actions: Vec<WorkerAction> = Vec::new();
        assert(worker_actions(actions@) =~= Seq::<WorkerActionView>::empty());
        if self.current_job.phase == Phase::Running {
            if let Some(job) = &self.current_job.job {
                if job.group.uuid == group {
                    Self::kill_sandboxes(job.group.executions.len(), &mut actions);
                    assert(worker_actions(actions@) =~= kill_orders(self, group));
                }
            }
        }
        actions
    }

    /// Takes the loss of the connection to the scheduler: the sandboxes that
    /// run are killed, and the worker leaves its loop without resuming.
    pub fn disconnected(&self) -> (actions: Vec<WorkerAction>)
        requires
            self.wf(),
        ensures
            worker_actions(actions@) == last_orders(self),
    {
        let mut actions: Vec<WorkerAction> = Vec::new();
        assert(worker_actions(actions@) =~= Seq::<WorkerActionView>::empty());
        if self.current_job.phase == Phase::Running {
            if let Some(job) = &self.current_job.job {
                Self::kill_sandboxes(job.group.executions.len(), &mut actions);
            }
        }
        let ghost listed = worker_actions(actions@);
        actions.push(WorkerAction::Exit);
        assert(worker_actions(actions@) =~= listed.push(WorkerActionView::Exit));
        assert(worker_actions(actions@) =~= last_orders(self));
        actions
    }

    /// Answers the request of the scheduler for some of the files that the
    /// job produced: each requested file that the worker produced is sent,
    /// in the order of the request; then the worker is idle and asks for
    /// work. A request that comes while no report is pending is dropped.
    pub fn asked_files(&mut self, files: Vec<FileUuid>) -> (actions: Vec<WorkerAction>)
        requires
            old(self).wf(),
        ensures
            answered(old(self), files@, final(self), actions@),
    {
        let mut actions: Vec<WorkerAction> = Vec::new();
        if self.current_job.phase != Phase::Reporting {
            return actions;
        }
        let mut i: usize = 0;
        assert(worker_actions(actions@) =~= provided_files(
            self.file_store@,
            self.current_job.reported@,
            files@.take(0),
        ));
        while i < files.len()
            invariant
                self.wf(),
                *self == *old(self),
                i <= files@.len(),
                worker_actions(actions@) == provided_files(
                    self.file_store@,
                    self.current_job.reported@,
                    files@.take(i as int),
                ),
            decreases files@.len() - i,
        {
            proof {
                assert(files@.take(i + 1).drop_last() =~= files@.take(i as int));
            }
            let ghost listed = worker_actions(actions@);
            match find_key(&self.current_job.reported, files[i]) {
                Some(key) => match self.file_store.get(&key) {
                    Some(bytes) => {
                        let content = bytes.clone();
                        assert(content@ =~= bytes@);
                        actions.push(
                            WorkerAction::Send {
                                message: WorkerClientMessage::ProvideFile(files[i], key),
                                content: Some(content),
                            },
                        );
                        assert(worker_actions(actions@) =~= listed.push(
                            WorkerActionView::Send {
                                message: WorkerClientMessageView::ProvideFile(files@[i as int], key),
                                content: Some(bytes@),
                            },
                        ));
                    },
                    None => {},
                },
                None => {},
            }
            i += 1;
        }
        assert(files@.take(i as int) =~= files@);
        let ghost listed = worker_actions(actions@);
        self.current_job.job = None;
        self.current_job.results = Vec::new();
        self.current_job.reported = Vec::new();
        self.current_job.phase = Phase::Idle;
        actions.push(WorkerAction::Send { message: WorkerClientMessage::GetWork, content: None });
        assert(worker_actions(actions@) =~= listed.push(
            WorkerActionView::Send { message: WorkerClientMessageView::GetWork, content: None },
        ));
        actions
    }

    /// The key of the blob that the job names for `file`.
    pub fn input_key(&self, file: FileUuid) -> (key: Option<FileStoreKey>)
        ensures
            key == match self.job() {
                Some(job) => job.key_of(file),
                None => None,
            },
    {
        match &self.current_job.job {
            Some(job) => job.find(file),
            None => None,
        }
    }

    /// Whether the job has pipes, for which a directory has to be made.
    pub fn needs_fifo_dir(&self) -> (needed: bool)
        ensures
            needed == (self.job() is Some && self.job()->0.group.fifo@.len() > 0),
    {
        match &self.current_job.job {
            Some(job) => job.group.fifo.len() > 0,
            None => false,
        }
    }
}

/// The store holds, after blobs are stored, what it held before.
pub proof fn lemma_stored_all_holds(blobs: Seq<BlobView>, contents: Seq<Seq<u8>>, key: FileStoreKey)
    requires
        holds(blobs, key),
    ensures
        holds(stored_all(blobs, contents), key),
    decreases contents.len(),
{
    if contents.len() > 0 {
        lemma_stored_all_holds(blobs, contents.drop_last(), key);
        lemma_stored_holds(
            stored_all(blobs, contents.drop_last()),
            FileStoreKey::of(contents.last()),
            contents.last(),
            key,
        );
    }
}

/// What the orders to kill are: where a member did not succeed, every other
/// member that has not reported is killed, and nobody else; where it
/// succeeded, nobody is.
pub proof fn law_failure_kills_the_unfinished(
    results: Seq<Option<ExecutionResult>>,
    index: int,
    success: bool,
    i: int,
)
    requires
        results.len() <= usize::MAX,
        0 <= i <= usize::MAX,
    ensures
        kills(results, index, success).contains(WorkerActionView::KillSandbox(i as usize)) <==> (
        !success && 0 <= i < results.len() && i != index && results[i] is None),
{
    if !success {
        lemma_kills_upto(results, index, results.len(), i);
    }
}

/// Which orders to kill are among those for the first `n` members.
pub proof fn lemma_kills_upto(results: Seq<Option<ExecutionResult>>, index: int, n: nat, i: int)
    requires
        n <= results.len() <= usize::MAX,
        0 <= i <= usize::MAX,
    ensures
        kills_upto(results, index, n).contains(WorkerActionView::KillSandbox(i as usize)) <==> (0
            <= i < n && i != index && results[i] is None),
    decreases n,
{
    if n > 0 {
        lemma_kills_upto(results, index, (n - 1) as nat, i);
        let before = kills_upto(results, index, (n - 1) as nat);
        let all = kills_upto(results, index, n);
        let order = WorkerActionView::KillSandbox(i as usize);
        if n - 1 != index && results[n - 1] is None {
            if before.contains(order) {
                let q = choose|q: int| 0 <= q < before.len() && before[q] == order;
                assert(all[q] == order);
            }
            if i == n - 1 {
                assert(all[before.len() as int] == order);
            }
            if all.contains(order) {
                let q = choose|q: int| 0 <= q < all.len() && all[q] == order;
                if q < before.len() {
                    assert(before[q] == order);
                }
            }
        }
    }
}

/// A job of one member is reported as its member ran: when the only member
/// of a job reports, nobody is killed, and the job is reported as over with
/// exactly the result that the report of its sandbox gives.
pub proof fn law_single_member_job(
    results: Seq<Option<ExecutionResult>>,
    result: ExecutionResultView,
    reported: Seq<DependencyKey>,
)
    requires
        results.len() == 1,
        results[0] is None,
    ensures
        kills(results, 0, result.status is Success) == Seq::<WorkerActionView>::empty(),
        done_message(option_views(results).update(0, Some(result)), reported) == seq![
            WorkerActionView::Send {
                message: WorkerClientMessageView::WorkerDone(seq![result], reported),
                content: None,
            },
        ],
{
    let views = option_views(results).update(0, Some(result));
    assert(kills_upto(results, 0, 0) =~= Seq::<WorkerActionView>::empty());
    assert(kills_upto(results, 0, 1) =~= Seq::<WorkerActionView>::empty());
    assert(complete(views));
    assert(final_results(views) =~= seq![result]);
}

impl Worker {
    /// Takes in the report of the sandbox of the member at position `index`.
    /// The report is refused, and nothing changes, where no job runs, or
    /// where that member is not awaited. Otherwise the result of the member
    /// is computed and its outputs are stored; where the member did not
    /// succeed, every other member that has not reported is killed; and once
    /// every member has reported, the job is reported to the scheduler, with
    /// the results in the order of the members.
    pub fn sandbox_done(&mut self, index: usize, report: SandboxReport) -> (outcome: Result<
        Vec<WorkerAction>,
        WorkerError,
    >)
        requires
            old(self).wf(),
        ensures
            member_reported(old(self), index, report, final(self), outcome),
    {
        if self.current_job.phase != Phase::Running {
            return Err(WorkerError::NoJob);
        }
        if index >= self.current_job.results.len() {
            return Err(WorkerError::UnexpectedResult { index });
        }
        if self.current_job.results[index].is_some() {
            return Err(WorkerError::UnexpectedResult { index });
        }
        let ghost job = self.current_job.job->0;
        let ghost execution = job.group.executions@[index as int];
        let ghost before = self.current_job.results@;
        let ghost store = self.file_store@;
        let n = self.current_job.results.len();
        let mut actions: Vec<WorkerAction> = Vec::new();
        let result = match &self.current_job.job {
            Some(job) => compute_execution_result(&job.group.executions[index], &report),
            None => ExecutionResult::internal_error(String::new()),
        };
        let success = result.status.is_success();
        assert(worker_actions(actions@) =~= Seq::<WorkerActionView>::empty());
        if !success {
            let mut i: usize = 0;
            while i < n
                invariant
                    i <= n,
                    n == self.current_job.results@.len(),
                    self.current_job.results@ == before,
                    worker_actions(actions@) == kills_upto(before, index as int, i as nat),
                decreases n - i,
            {
                if i != index && self.current_job.results[i].is_none() {
                    let ghost listed = worker_actions(actions@);
                    actions.push(WorkerAction::KillSandbox(i));
                    assert(actions@.last()@ == WorkerActionView::KillSandbox(i));
                    assert(worker_actions(actions@) =~= listed.push(
                        WorkerActionView::KillSandbox(i),
                    ));
                }
                i += 1;
            }
        }
        let ghost killed = worker_actions(actions@);
        assert(killed == kills(before, index as int, success));
        match &self.current_job.job {
            Some(job) => {
                get_result_outputs(
                    &job.group.executions[index],
                    &report,
                    &mut self.file_store,
                    &mut self.current_job.reported,
                );
            },
            None => {},
        }
        let ghost views = option_views(before).update(index as int, Some(result@));
        self.current_job.results[index] = Some(result);
        assert(option_views(self.current_job.results@) =~= views);
        proof {
            let contents = output_contents(execution, report);
            assert forall|j: int| 0 <= j < job_files(job).len() implies (#[trigger] job.key_of(job_files(job)[j],
            )) is Some && holds(self.file_store@, job.key_of(job_files(job)[j])->0) by {
                let needed = job.key_of(job_files(job)[j])->0;
                assert(holds(store, needed));
                lemma_stored_all_holds(store, contents, needed);
            }
        }
        let mut done = true;
        let mut i: usize = 0;
        while i < n
            invariant
                i <= n,
                n == self.current_job.results@.len(),
                done == (forall|j: int| 0 <= j < i ==> (#[trigger] self.current_job.results@[j]) is Some),
            decreases n - i,
        {
            if self.current_job.results[i].is_none() {
                done = false;
            }
            i += 1;
        }
        proof {
            assert(done == complete(views)) by {
                if done {
                    assert forall|j: int| 0 <= j < views.len() implies (#[trigger] views[j]) is Some by {
                        assert(self.current_job.results@[j] is Some);
                    }
                } else {
                    let j = choose|j: int|
                        0 <= j < n && !((#[trigger] self.current_job.results@[j]) is Some);
                    assert(views[j] is None);
                }
            }
        }
        if done {
            let mut sent: Vec<ExecutionResult> = Vec::new();
            let mut i: usize = 0;
            assert(sent@.map_values(|result: ExecutionResult| result@) =~= final_results(views).take(
                0,
            ));
            while i < n
                invariant
                    i <= n,
                    n == self.current_job.results@.len(),
                    n == views.len(),
                    complete(views),
                    forall|j: int|
                        i <= j < n ==> option_view(#[trigger] self.current_job.results@[j]) == views[j],
                    sent@.map_values(|result: ExecutionResult| result@) == final_results(views).take(
                        i as int,
                    ),
                    self.id() == old(self).id(),
                    self.label() == old(self).label(),
                    self.sandbox_path() == old(self).sandbox_path(),
                    self.current_job.job == old(self).current_job.job,
                    self.current_job.missing == old(self).current_job.missing,
                    self.current_job.reported@ == old(self).current_job.reported@ + keyed(
                        execution.spec_outputs(),
                        output_contents(execution, report),
                    ),
                    self.file_store@ == stored_all(store, output_contents(execution, report)),
                    self.file_store.wf(),
                decreases n - i,
            {
                assert(views[i as int] is Some);
                let ghost listed = sent@.map_values(|result: ExecutionResult| result@);
                let slot = &mut self.current_job.results[i];
                match slot.take() {
                    Some(result) => {
                        sent.push(result);
                        assert(sent@.map_values(|result: ExecutionResult| result@) =~= listed.push(
                            views[i as int]->0,
                        ));
                    },
                    None => {},
                }
                assert(sent@.map_values(|result: ExecutionResult| result@) =~= final_results(
                    views,
                ).take(i + 1));
                i += 1;
            }
            assert(final_results(views).take(n as int) =~= final_results(views));
            let mut outputs: Vec<DependencyKey> = Vec::new();
            let mut k: usize = 0;
            while k < self.current_job.reported.len()
                invariant
                    k <= self.current_job.reported@.len(),
                    outputs@ == self.current_job.reported@.take(k as int),
                decreases self.current_job.reported@.len() - k,
            {
                outputs.push(self.current_job.reported[k]);
                assert(outputs@ =~= self.current_job.reported@.take(k + 1));
                k += 1;
            }
            assert(self.current_job.reported@.take(k as int) =~= self.current_job.reported@);
            self.current_job.results = Vec::new();
            self.current_job.phase = Phase::Reporting;
            actions.push(
                WorkerAction::Send {
                    message: WorkerClientMessage::WorkerDone(sent, outputs),
                    content: None,
                },
            );
            assert(worker_actions(actions@) =~= killed + done_message(
                views,
                self.current_job.reported@,
            ));
        } else {
            assert(killed + Seq::<WorkerActionView>::empty() =~= killed);
            assert(!all_reported(self.current_job.results@)) by {
                let j = choose|j: int|
                    0 <= j < n && !((#[trigger] self.current_job.results@[j]) is Some);
                assert(!(self.current_job.results@[j] is Some));
            }
        }
        Ok(actions)
    }

    /// The worker body, one message at a time: takes a message of the
    /// scheduler, with the bytes that followed it, and says what to do next.
    /// A job is taken as by [`Self::take_job`], a blob as by
    /// [`Self::take_file`], a request for files as by [`Self::asked_files`],
    /// a request to kill as by [`Self::kill_job`]; asked to exit, the worker
    /// leaves its loop.
    pub fn work(&mut self, message: WorkerServerMessage, content: Vec<u8>) -> (outcome: Result<
        Vec<WorkerAction>,
        WorkerError,
    >)
        requires
            old(self).wf(),
        ensures
            final(self).wf(),
            match message {
                WorkerServerMessage::Work(job) => took_job(old(self), job, final(self), outcome),
                WorkerServerMessage::ProvideFile(key) => took_file(
                    old(self),
                    key,
                    content@,
                    final(self),
                    outcome,
                ),
                WorkerServerMessage::AskFiles(files) => outcome matches Ok(actions) && answered(
                    old(self),
                    files@,
                    final(self),
                    actions@,
                ),
                WorkerServerMessage::KillJob(group) => outcome matches Ok(actions) && *final(self)
                    == *old(self) && worker_actions(actions@) == kill_orders(old(self), group),
                WorkerServerMessage::Exit => outcome matches Ok(actions) && *final(self) == *old(
                    self,
                ) && worker_actions(actions@) == seq![WorkerActionView::Exit],
            },
    {
        match message {
            WorkerServerMessage::Work(job) => self.take_job(job),
            WorkerServerMessage::ProvideFile(key) => self.take_file(key, content),
            WorkerServerMessage::AskFiles(files) => Ok(self.asked_files(files)),
            WorkerServerMessage::KillJob(group) => Ok(self.kill_job(group)),
            WorkerServerMessage::Exit => {
                let mut actions: Vec<WorkerAction> = Vec::new();
                actions.push(WorkerAction::Exit);
                assert(worker_actions(actions@) =~= seq![WorkerActionView::Exit]);
                Ok(actions)
            },
        }
    }
}

/// A file to place in a sandbox.
#[derive(Debug, PartialEq, Eq)]
pub struct SandboxFile {
    /// Where the file goes in the sandbox.
    pub path: String,
    /// The key of its content in the store of the worker.
    pub key: FileStoreKey,
    /// Whether the file is executable.
    pub executable: bool,
}

/// What a sandbox is made of: the content of the standard input, and the
/// files to place.
#[derive(Debug, PartialEq, Eq)]
pub struct SandboxPlan {
    /// The key of the content of the standard input.
    pub stdin: Option<FileStoreKey>,
    /// The files to place, one for each input of the execution, in order.
    pub files: Vec<SandboxFile>,
}

/// Whether `plan` is the plan of the sandbox of `execution`, a member of
/// `job`: it places each input of the execution at its path, with the content
/// that the job names for it, and the store holds all of that content.
pub open spec fn planned(
    store: Seq<BlobView>,
    job: WorkerJob,
    execution: Execution,
    plan: SandboxPlan,
) -> bool {
    &&& plan.files@.len() == execution.inputs@.len()
    &&& forall|k: int|
        0 <= k < execution.inputs@.len() ==> {
            &&& (#[trigger] plan.files@[k]).path@ == execution.inputs@[k].path@
            &&& plan.files@[k].executable == execution.inputs@[k].executable
            &&& job.key_of(execution.inputs@[k].file) == Some(plan.files@[k].key)
            &&& holds(store, plan.files@[k].key)
        }
    &&& match execution.stdin {
        Some(file) => plan.stdin matches Some(key) && job.key_of(file) == Some(key)
            && holds(store, key),
        None => plan.stdin is None,
    }
}

/// Every file that a member of a group reads is among the files that the group reads.
pub proof fn lemma_member_file(executions: Seq<Execution>, m: int, d: int)
    requires
        0 <= m < executions.len(),
        0 <= d < executions[m].spec_dependencies().len(),
    ensures
        exists|i: int|
            0 <= i < dependencies_of(executions).len() && #[trigger] dependencies_of(executions)[i]
                == executions[m].spec_dependencies()[d],
    decreases executions.len(),
{
    let before = dependencies_of(executions.drop_last());
    if m == executions.len() - 1 {
        assert(dependencies_of(executions)[before.len() + d] == executions[m].spec_dependencies()[d]);
    } else {
        lemma_member_file(executions.drop_last(), m, d);
        let i = choose|i: int|
            0 <= i < before.len() && #[trigger] before[i]
                == executions.drop_last()[m].spec_dependencies()[d];
        assert(dependencies_of(executions)[i] == before[i]);
    }
}

impl Worker {
    /// The plan of the sandbox of the member at position `member` of the job
    /// that runs: where each of its inputs goes, and with which content. The
    /// store of the worker holds all of that content.
    pub fn sandbox_plan(&self, member: usize) -> (plan: Option<SandboxPlan>)
        requires
            self.wf(),
        ensures
            plan is Some == (self.phase() == Phase::Running && self.job() is Some && member
                < self.job()->0.group.executions@.len()),
            plan matches Some(made) ==> planned(
                self.store(),
                self.job()->0,
                self.job()->0.group.executions@[member as int],
                made,
            ),
    {
        if self.current_job.phase != Phase::Running {
            return None;
        }
        let job = match &self.current_job.job {
            Some(job) => job,
            None => {
                return None;
            },
        };
        if member >= job.group.executions.len() {
            return None;
        }
        let execution = &job.group.executions[member];
        let ghost first: int = if execution.stdin is Some {
            1
        } else {
            0
        };
        let stdin = match execution.stdin {
            Some(file) => {
                proof {
                    lemma_member_file(job.group.executions@, member as int, 0);
                    let i = choose|i: int|
                        0 <= i < job_files(*job).len() && #[trigger] job_files(*job)[i]
                            == execution.spec_dependencies()[0];
                    assert(job.key_of(job_files(*job)[i]) is Some);
                }
                job.find(file)
            },
            None => None,
        };
        let mut files: Vec<SandboxFile> = Vec::new();
        let mut k: usize = 0;
        while k < execution.inputs.len()
            invariant
                self.wf(),
                self.current_job.phase == Phase::Running,
                self.current_job.job == Some(*job),
                member < job.group.executions@.len(),
                *execution == job.group.executions@[member as int],
                first == (if execution.stdin is Some { 1int } else { 0int }),
                k <= execution.inputs@.len(),
                files@.len() == k,
                forall|j: int|
                    0 <= j < k ==> {
                        &&& (#[trigger] files@[j]).path@ == execution.inputs@[j].path@
                        &&& files@[j].executable == execution.inputs@[j].executable
                        &&& job.key_of(execution.inputs@[j].file) == Some(files@[j].key)
                        &&& holds(self.file_store@, files@[j].key)
                    },
            decreases execution.inputs@.len() - k,
        {
            proof {
                lemma_member_file(job.group.executions@, member as int, first + k);
                let i = choose|i: int|
                    0 <= i < job_files(*job).len() && #[trigger] job_files(*job)[i]
                        == execution.spec_dependencies()[first + k];
                assert(execution.spec_dependencies()[first + k] == execution.inputs@[k as int].file);
                assert(job.key_of(job_files(*job)[i]) is Some);
            }
            match job.find(execution.inputs[k].file) {
                Some(key) => {
                    files.push(
                        SandboxFile {
                            path: execution.inputs[k].path.clone(),
                            key,
                            executable: execution.inputs[k].executable,
                        },
                    );
                },
                None => {},
            }
            k += 1;
        }
        Some(SandboxPlan { stdin, files })
    }
}

} // verus!
