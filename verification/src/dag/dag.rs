//! The computation graph that a client declares: the files it provides, the
//! executions to run, and what it wants to be told. Declaring does no work;
//! the graph is handed to the scheduler as a whole.

use std::collections::HashMap;
use vstd::prelude::*;
use vstd::std_specs::hash::*;
use crate::cache::CacheMode;
use crate::dag::execution::{outputs_of, Execution, ExecutionGroup};
use crate::dag::file::{ExecutionUuid, File, FileUuid};
use crate::search::{
    find_u128, first_position, first_where, lemma_first_position, lemma_first_position_is,
    lemma_first_where, lemma_first_where_is, lemma_occurs, occurs,
};
use crate::store::FileStoreKey;

verus! {

/// Names a callback that the client keeps: the graph records only the name,
/// and the client is told when to call what it stands for.
pub type CallbackId = u64;

/// A wrapper around a File provided by the client, this means that the client
/// knows the FileStoreKey and the path to that file.
#[derive(Debug)]
pub struct ProvidedFile {
    /// The file handle.
    pub file: File,
    /// The key in the FileStore.
    pub key: FileStoreKey,
    /// Path to the file in the client.
    pub local_path: String,
}

/// How the graph is to be evaluated.
#[derive(Debug, Clone, PartialEq, Eq)]
pub struct ExecutionDAGConfig {
    /// Whether the sandboxes are kept on disk after the run.
    pub keep_sandboxes: bool,
    /// Whether files are not written to their destinations.
    pub dry_run: bool,
    /// Which executions may take their result from the cache.
    pub cache_mode: CacheMode,
    /// Whether compiled programs are copied to their destinations.
    pub copy_exe: bool,
    /// Whether the logs of the executions are copied.
    pub copy_logs: bool,
    /// Time granted on top of the time limits before a process is killed, in microseconds.
    pub extra_time: u64,
}

impl ExecutionDAGConfig {
    /// The configuration of a new graph: everything cached, nothing kept or copied.
    pub fn new() -> (config: ExecutionDAGConfig)
        ensures
            !config.keep_sandboxes,
            !config.dry_run,
            config.cache_mode == CacheMode::Everything,
            !config.copy_exe,
            !config.copy_logs,
            config.extra_time == 0,
    {
        ExecutionDAGConfig {
            keep_sandboxes: false,
            dry_run: false,
            cache_mode: CacheMode::Everything,
            copy_exe: false,
            copy_logs: false,
            extra_time: 0,
        }
    }

    /// Sets whether the sandboxes are kept.
    pub fn keep_sandboxes(&mut self, keep_sandboxes: bool)
        ensures
            *final(self) == (ExecutionDAGConfig { keep_sandboxes, ..*old(self) }),
    {
        self.keep_sandboxes = keep_sandboxes;
    }

    /// Sets whether files are not written to their destinations.
    pub fn dry_run(&mut self, dry_run: bool)
        ensures
            *final(self) == (ExecutionDAGConfig { dry_run, ..*old(self) }),
    {
        self.dry_run = dry_run;
    }

    /// Sets which executions may take their result from the cache.
    pub fn cache_mode(&mut self, cache_mode: CacheMode)
        ensures
            *final(self) == (ExecutionDAGConfig { cache_mode, ..*old(self) }),
    {
        self.cache_mode = cache_mode;
    }

    /// Sets whether compiled programs are copied to their destinations.
    pub fn copy_exe(&mut self, copy_exe: bool)
        ensures
            *final(self) == (ExecutionDAGConfig { copy_exe, ..*old(self) }),
    {
        self.copy_exe = copy_exe;
    }

    /// Sets whether the logs of the executions are copied.
    pub fn copy_logs(&mut self, copy_logs: bool)
        ensures
            *final(self) == (ExecutionDAGConfig { copy_logs, ..*old(self) }),
    {
        self.copy_logs = copy_logs;
    }

    /// Sets the time granted on top of the time limits.
    pub fn extra_time(&mut self, extra_time: u64)
        ensures
            *final(self) == (ExecutionDAGConfig { extra_time, ..*old(self) }),
    {
        self.extra_time = extra_time;
    }
}

/// What the scheduler is given: the graph without the callbacks.
#[derive(Debug)]
pub struct ExecutionDAGData {
    /// All the files provided by the client, each file at most once.
    pub provided_files: Vec<ProvidedFile>,
    /// All the groups of executions to run, in the order they were declared.
    pub execution_groups: Vec<ExecutionGroup>,
    /// How the graph is to be evaluated.
    pub config: ExecutionDAGConfig,
}

/// The callbacks of an execution.
#[derive(Debug)]
pub struct ExecutionCallbacks {
    /// The execution.
    pub execution: ExecutionUuid,
    /// Called when the execution starts on a worker.
    pub on_start: Vec<CallbackId>,
    /// Called when the execution has ended.
    pub on_done: Vec<CallbackId>,
    /// Called when the execution is skipped.
    pub on_skip: Vec<CallbackId>,
}

/// A request for the first bytes of a file.
#[derive(Debug, Clone, Copy, PartialEq, Eq, Structural)]
pub struct ContentRequest {
    /// How many bytes at most.
    pub limit: usize,
    /// Called with the bytes.
    pub callback: CallbackId,
}

/// The callbacks of a file.
#[derive(Debug)]
pub struct FileCallbacks {
    /// The file.
    pub file: FileUuid,
    /// Where to write the file when it is ready.
    pub write_to: Option<String>,
    /// Who wants the first bytes of the file when it is ready.
    pub get_content: Option<ContentRequest>,
}

/// A computation DAG: the graph and the callbacks of the client.
#[derive(Debug)]
pub struct ExecutionDAG {
    /// The graph.
    pub data: ExecutionDAGData,
    /// The callbacks of the executions.
    pub execution_callbacks: HashMap<ExecutionUuid, ExecutionCallbacks>,
    /// The callbacks of the files.
    pub file_callbacks: HashMap<FileUuid, FileCallbacks>,
}

/// A graph that cannot be evaluated.
#[derive(Debug, Clone, Copy, PartialEq, Eq, Structural)]
pub enum DagError {
    /// An execution reads a file that nobody provides and no execution produces.
    DanglingInput {
        /// The execution.
        execution: ExecutionUuid,
        /// The file.
        file: FileUuid,
    },
}

/// The identifiers of these provided files, in order.
pub open spec fn provided_uuids(files: Seq<ProvidedFile>) -> Seq<FileUuid> {
    files.map_values(|provided: ProvidedFile| provided.file.uuid)
}

/// The files that the executions of these groups produce, group after group.
pub open spec fn produced_by(groups: Seq<ExecutionGroup>) -> Seq<FileUuid>
    decreases groups.len(),
{
    if groups.len() == 0 {
        seq![]
    } else {
        produced_by(groups.drop_last()) + outputs_of(groups.last().executions@)
    }
}

/// The identifiers of these executions, in order.
pub open spec fn execution_uuids(executions: Seq<Execution>) -> Seq<ExecutionUuid> {
    executions.map_values(|execution: Execution| execution.uuid)
}

/// The first group with a member that has the identifier `execution`; the
/// number of groups if no group has one.
pub open spec fn holder(groups: Seq<ExecutionGroup>, execution: ExecutionUuid) -> int {
    first_where(
        groups.len(),
        |g: int| occurs(execution_uuids(groups[g].executions@), execution),
    )
}

/// The execution that the groups hold under an identifier: the first member,
/// in the order of declaration, that has it.
pub open spec fn execution_under(groups: Seq<ExecutionGroup>, execution: ExecutionUuid) -> Option<
    Execution,
> {
    let g = holder(groups, execution);
    if g < groups.len() {
        Some(
            groups[g].executions@[first_position(
                execution_uuids(groups[g].executions@),
                execution,
            )],
        )
    } else {
        None
    }
}

/// Whether no two members of these groups have the same identifier.
pub open spec fn distinct(groups: Seq<ExecutionGroup>) -> bool {
    forall|g: int, m: int, h: int, n: int|
        0 <= g < groups.len() && 0 <= m < groups[g].executions@.len() && 0 <= h < groups.len()
            && 0 <= n < groups[h].executions@.len() && (#[trigger] groups[g].executions@[m]).uuid
            == (#[trigger] groups[h].executions@[n]).uuid ==> g == h && m == n
}

/// Whether `after` is what the groups `before` become when `execution` is
/// declared. Where a member has its identifier, the first such member is
/// replaced by it, and no group is added. Otherwise a group of its own is
/// added last, under its description and without pipes.
pub open spec fn execution_declared(
    before: Seq<ExecutionGroup>,
    after: Seq<ExecutionGroup>,
    execution: Execution,
) -> bool {
    let g = holder(before, execution.uuid);
    if g < before.len() {
        let m = first_position(execution_uuids(before[g].executions@), execution.uuid);
        &&& after.len() == before.len()
        &&& forall|h: int| 0 <= h < before.len() && h != g ==> #[trigger] after[h] == before[h]
        &&& after[g].uuid == before[g].uuid
        &&& after[g].description == before[g].description
        &&& after[g].fifo == before[g].fifo
        &&& after[g].executions@ == before[g].executions@.update(m, execution)
    } else {
        &&& after.len() == before.len() + 1
        &&& after.drop_last() == before
        &&& after.last().description == execution.description
        &&& after.last().executions@ == seq![execution]
        &&& after.last().fifo@.len() == 0
    }
}

/// A declaration takes the place of the one before it: once an execution is
/// declared, the groups hold it under its identifier, whatever they held
/// there before, and they hold under every other identifier what they held.
/// Where no two members had the same identifier, no two have afterwards, and
/// every member with the identifier of the execution is the execution.
pub proof fn law_declared_execution_is_held(
    before: Seq<ExecutionGroup>,
    after: Seq<ExecutionGroup>,
    execution: Execution,
)
    requires
        execution_declared(before, after, execution),
    ensures
        execution_under(after, execution.uuid) == Some(execution),
        forall|other: ExecutionUuid|
            other != execution.uuid ==> #[trigger] execution_under(after, other)
                == execution_under(before, other),
        distinct(before) ==> distinct(after),
        distinct(before) ==> forall|g: int, m: int|
            0 <= g < after.len() && 0 <= m < after[g].executions@.len() && (
            #[trigger] after[g].executions@[m]).uuid == execution.uuid ==> after[g].executions@[m]
                == execution,
{
    if holder(before, execution.uuid) < before.len() {
        lemma_replaced_is_held(before, after, execution);
    } else {
        lemma_added_is_held(before, after, execution);
    }
}

/// The law of the declared execution, where a member is replaced.
proof fn lemma_replaced_is_held(
    before: Seq<ExecutionGroup>,
    after: Seq<ExecutionGroup>,
    execution: Execution,
)
    requires
        execution_declared(before, after, execution),
        holder(before, execution.uuid) < before.len(),
    ensures
        execution_under(after, execution.uuid) == Some(execution),
        forall|other: ExecutionUuid|
            other != execution.uuid ==> #[trigger] execution_under(after, other)
                == execution_under(before, other),
        distinct(before) ==> distinct(after),
        distinct(before) ==> forall|g: int, m: int|
            0 <= g < after.len() && 0 <= m < after[g].executions@.len() && (
            #[trigger] after[g].executions@[m]).uuid == execution.uuid ==> after[g].executions@[m]
                == execution,
{
    let x = execution.uuid;
    let g0 = holder(before, x);
    lemma_first_where(
        before.len(),
        |g: int| occurs(execution_uuids(before[g].executions@), x),
    );
    let m0 = first_position(execution_uuids(before[g0].executions@), x);
    lemma_first_position(execution_uuids(before[g0].executions@), x);
    assert forall|g: int| 0 <= g < before.len() implies execution_uuids(
        #[trigger] after[g].executions@,
    ) == execution_uuids(before[g].executions@) by {
        if g == g0 {
            assert(execution_uuids(after[g].executions@) =~= execution_uuids(
                before[g].executions@,
            ));
        } else {
            assert(after[g] == before[g]);
        }
    }
    assert forall|other: ExecutionUuid| other != x implies #[trigger] execution_under(
        after,
        other,
    ) == execution_under(before, other) by {
        lemma_same_holder(before, after, other);
        let g = holder(before, other);
        lemma_first_where(
            before.len(),
            |g: int| occurs(execution_uuids(before[g].executions@), other),
        );
        if g < before.len() {
            lemma_first_position(execution_uuids(before[g].executions@), other);
            if g != g0 {
                assert(after[g] == before[g]);
            }
        }
    }
    lemma_same_holder(before, after, x);
    if distinct(before) {
        assert forall|g: int, m: int, h: int, n: int|
            0 <= g < after.len() && 0 <= m < after[g].executions@.len() && 0 <= h < after.len()
                && 0 <= n < after[h].executions@.len() && (
            #[trigger] after[g].executions@[m]).uuid == (
            #[trigger] after[h].executions@[n]).uuid implies g == h && m == n by {
            assert(execution_uuids(after[g].executions@)[m] == execution_uuids(
                before[g].executions@,
            )[m]);
            assert(execution_uuids(after[h].executions@)[n] == execution_uuids(
                before[h].executions@,
            )[n]);
            assert(before[g].executions@[m].uuid == before[h].executions@[n].uuid);
        }
        assert forall|g: int, m: int|
            0 <= g < after.len() && 0 <= m < after[g].executions@.len() && (
            #[trigger] after[g].executions@[m]).uuid == x implies after[g].executions@[m]
            == execution by {
            assert(execution_uuids(after[g].executions@)[m] == execution_uuids(
                before[g].executions@,
            )[m]);
            assert(before[g].executions@[m].uuid == before[g0].executions@[m0].uuid);
        }
    }
}

/// The law of the declared execution, where a group is added.
proof fn lemma_added_is_held(
    before: Seq<ExecutionGroup>,
    after: Seq<ExecutionGroup>,
    execution: Execution,
)
    requires
        execution_declared(before, after, execution),
        holder(before, execution.uuid) >= before.len(),
    ensures
        execution_under(after, execution.uuid) == Some(execution),
        forall|other: ExecutionUuid|
            other != execution.uuid ==> #[trigger] execution_under(after, other)
                == execution_under(before, other),
        distinct(before) ==> distinct(after),
        distinct(before) ==> forall|g: int, m: int|
            0 <= g < after.len() && 0 <= m < after[g].executions@.len() && (
            #[trigger] after[g].executions@[m]).uuid == execution.uuid ==> after[g].executions@[m]
                == execution,
{
    let x = execution.uuid;
    let last = before.len() as int;
    let found = |g: int| occurs(execution_uuids(before[g].executions@), x);
    lemma_first_where(before.len(), found);
    assert forall|g: int| 0 <= g < before.len() implies #[trigger] after[g] == before[g] by {
        assert(after.drop_last()[g] == after[g]);
    }
    assert(execution_uuids(after[last].executions@) =~= seq![x]);
    assert forall|other: ExecutionUuid| true implies #[trigger] execution_under(after, other) == (
    if other == x {
        Some(execution)
    } else {
        execution_under(before, other)
    }) by {
        let held = |g: int| occurs(execution_uuids(before[g].executions@), other);
        let holds = |g: int| occurs(execution_uuids(after[g].executions@), other);
        lemma_first_where(before.len(), held);
        let g = holder(before, other);
        assert forall|j: int| 0 <= j < g implies !#[trigger] holds(j) by {
            assert(after[j] == before[j]);
            assert(!held(j));
        }
        lemma_first_position(seq![x], other);
        if g < before.len() {
            assert(after[g] == before[g]);
            assert(held(g));
            assert(holds(g));
            lemma_first_where_is(after.len(), holds, g);
            assert(!found(g));
        } else if other == x {
            assert(seq![x][0] == other);
            assert(holds(last));
            lemma_first_where_is(after.len(), holds, last);
        } else {
            assert(seq![x][0] != other);
            assert(!holds(last));
            lemma_first_where_is(after.len(), holds, after.len() as int);
        }
    }
    assert(execution_under(after, x) == Some(execution));
    assert forall|g: int, m: int|
        0 <= g < before.len() && 0 <= m < before[g].executions@.len() implies (
    #[trigger] before[g].executions@[m]).uuid != x by {
        assert(!found(g));
        lemma_occurs(execution_uuids(before[g].executions@), x);
        assert(execution_uuids(before[g].executions@)[m] == before[g].executions@[m].uuid);
    }
    if distinct(before) {
        assert forall|g: int, m: int, h: int, n: int|
            0 <= g < after.len() && 0 <= m < after[g].executions@.len() && 0 <= h < after.len()
                && 0 <= n < after[h].executions@.len() && (
            #[trigger] after[g].executions@[m]).uuid == (
            #[trigger] after[h].executions@[n]).uuid implies g == h && m == n by {
            if g < last {
                assert(after[g] == before[g]);
                assert(before[g].executions@[m].uuid != x);
            }
            if h < last {
                assert(after[h] == before[h]);
                assert(before[h].executions@[n].uuid != x);
            }
        }
    }
    assert forall|g: int, m: int|
        0 <= g < after.len() && 0 <= m < after[g].executions@.len() && (
        #[trigger] after[g].executions@[m]).uuid == x implies after[g].executions@[m]
        == execution by {
        if g < last {
            assert(after[g] == before[g]);
            assert(before[g].executions@[m].uuid != x);
        }
    }
}

/// Groups whose members have, place by place, the same identifiers hold an
/// identifier in the same group.
proof fn lemma_same_holder(
    before: Seq<ExecutionGroup>,
    after: Seq<ExecutionGroup>,
    execution: ExecutionUuid,
)
    requires
        after.len() == before.len(),
        forall|g: int|
            0 <= g < before.len() ==> execution_uuids(#[trigger] after[g].executions@)
                == execution_uuids(before[g].executions@),
    ensures
        holder(after, execution) == holder(before, execution),
{
    let held = |g: int| occurs(execution_uuids(before[g].executions@), execution);
    let holds = |g: int| occurs(execution_uuids(after[g].executions@), execution);
    lemma_first_where(before.len(), held);
    let g = holder(before, execution);
    assert forall|j: int| 0 <= j < g implies !#[trigger] holds(j) by {
        assert(execution_uuids(after[j].executions@) == execution_uuids(before[j].executions@));
        assert(!held(j));
    }
    if g < before.len() {
        assert(execution_uuids(after[g].executions@) == execution_uuids(before[g].executions@));
        assert(held(g));
    }
    lemma_first_where_is(after.len(), holds, g);
}

/// Groups that hold nothing under an identifier have no member with it.
proof fn lemma_not_held(groups: Seq<ExecutionGroup>, x: ExecutionUuid)
    requires
        execution_under(groups, x) is None,
    ensures
        forall|g: int, m: int|
            0 <= g < groups.len() && 0 <= m < groups[g].executions@.len() ==> (
            #[trigger] groups[g].executions@[m]).uuid != x,
{
    let found = |g: int| occurs(execution_uuids(groups[g].executions@), x);
    lemma_first_where(groups.len(), found);
    assert forall|g: int, m: int|
        0 <= g < groups.len() && 0 <= m < groups[g].executions@.len() implies (
    #[trigger] groups[g].executions@[m]).uuid != x by {
        assert(!found(g));
        lemma_occurs(execution_uuids(groups[g].executions@), x);
        assert(execution_uuids(groups[g].executions@)[m] == groups[g].executions@[m].uuid);
    }
}

/// Position of the first member that has the identifier `execution`.
fn find_execution(executions: &Vec<Execution>, execution: ExecutionUuid) -> (found: Option<usize>)
    ensures
        match found {
            Some(m) => m < executions@.len() && m == first_position(
                execution_uuids(executions@),
                execution,
            ),
            None => !occurs(execution_uuids(executions@), execution),
        },
{
    let mut m: usize = 0;
    while m < executions.len()
        invariant
            m <= executions@.len(),
            forall|j: int| 0 <= j < m ==> execution_uuids(executions@)[j] != execution,
        decreases executions@.len() - m,
    {
        if executions[m].uuid == execution {
            proof {
                lemma_first_position_is(execution_uuids(executions@), execution, m as int);
            }
            return Some(m);
        }
        m += 1;
    }
    proof {
        lemma_first_position_is(execution_uuids(executions@), execution, m as int);
    }
    None
}

impl ExecutionDAGData {
    /// Whether the graph knows `file`: the client provides it or an execution produces it.
    pub open spec fn knows(&self, file: FileUuid) -> bool {
        provided_uuids(self.provided_files@).contains(file) || produced_by(
            self.execution_groups@,
        ).contains(file)
    }

    /// Whether dependency `d` of member `m` of group `g` is a file that the graph does not know.
    pub open spec fn dangles(&self, g: int, m: int, d: int) -> bool {
        &&& 0 <= g < self.execution_groups@.len()
        &&& 0 <= m < self.execution_groups@[g].executions@.len()
        &&& 0 <= d < self.execution_groups@[g].executions@[m].spec_dependencies().len()
        &&& !self.knows(self.execution_groups@[g].executions@[m].spec_dependencies()[d])
    }

    /// Whether no execution reads a file that the graph does not know.
    pub open spec fn sound(&self) -> bool {
        forall|g: int, m: int, d: int| !self.dangles(g, m, d)
    }

    /// Whether `(g, m, d)` comes before `(h, n, e)`: by group, then member, then dependency.
    pub open spec fn before(g: int, m: int, d: int, h: int, n: int, e: int) -> bool {
        g < h || (g == h && (m < n || (m == n && d < e)))
    }

    /// The files that the graph knows: those provided, then those produced.
    fn known_files(&self) -> (known: Vec<FileUuid>)
        ensures
            forall|file: FileUuid| occurs(known@, file) == self.knows(file),
    {
        let mut known: Vec<FileUuid> = Vec::new();
        let mut i: usize = 0;
        while i < self.provided_files.len()
            invariant
                i <= self.provided_files@.len(),
                known@ == provided_uuids(self.provided_files@).take(i as int),
            decreases self.provided_files@.len() - i,
        {
            known.push(self.provided_files[i].file.uuid);
            assert(known@ =~= provided_uuids(self.provided_files@).take(i + 1));
            i += 1;
        }
        assert(provided_uuids(self.provided_files@).take(i as int) =~= provided_uuids(
            self.provided_files@,
        ));
        let mut g: usize = 0;
        while g < self.execution_groups.len()
            invariant
                g <= self.execution_groups@.len(),
                known@ == provided_uuids(self.provided_files@) + produced_by(
                    self.execution_groups@.take(g as int),
                ),
            decreases self.execution_groups@.len() - g,
        {
            let mut more = self.execution_groups[g].outputs();
            known.append(&mut more);
            proof {
                assert(self.execution_groups@.take(g + 1).drop_last()
                    =~= self.execution_groups@.take(g as int));
                assert(known@ =~= provided_uuids(self.provided_files@) + produced_by(
                    self.execution_groups@.take(g + 1),
                ));
            }
            g += 1;
        }
        proof {
            assert(self.execution_groups@.take(g as int) =~= self.execution_groups@);
            let provided = provided_uuids(self.provided_files@);
            let produced = produced_by(self.execution_groups@);
            assert forall|file: FileUuid| occurs(known@, file) == self.knows(file) by {
                lemma_occurs(known@, file);
                if provided.contains(file) {
                    let k = choose|k: int| 0 <= k < provided.len() && provided[k] == file;
                    assert(known@[k] == file);
                }
                if produced.contains(file) {
                    let k = choose|k: int| 0 <= k < produced.len() && produced[k] == file;
                    assert(known@[provided.len() + k] == file);
                }
                if occurs(known@, file) {
                    let k = choose|k: int| 0 <= k < known@.len() && known@[k] == file;
                    if k < provided.len() {
                        assert(provided[k] == file);
                    } else {
                        assert(produced[k - provided.len()] == file);
                    }
                }
            }
        }
        known
    }

    /// Checks the graph before it is handed over. It is refused exactly if an
    /// execution reads a file that the graph does not know; the error names
    /// the first such execution and file, by group, member and dependency.
    pub fn validate(&self) -> (checked: Result<(), DagError>)
        ensures
            match checked {
                Ok(_) => self.sound(),
                Err(DagError::DanglingInput { execution, file }) => exists|g: int, m: int, d: int|
                    {
                        &&& #[trigger] self.dangles(g, m, d)
                        &&& execution == self.execution_groups@[g].executions@[m].uuid
                        &&& file == self.execution_groups@[g].executions@[m].spec_dependencies()[d]
                        &&& forall|h: int, n: int, e: int|
                            Self::before(h, n, e, g, m, d) ==> !#[trigger] self.dangles(h, n, e)
                    },
            },
    {
        let known = self.known_files();
        let mut g: usize = 0;
        while g < self.execution_groups.len()
            invariant
                g <= self.execution_groups@.len(),
                forall|file: FileUuid| occurs(known@, file) == self.knows(file),
                forall|h: int, n: int, e: int| h < g ==> !#[trigger] self.dangles(h, n, e),
            decreases self.execution_groups@.len() - g,
        {
            let group = &self.execution_groups[g];
            let mut m: usize = 0;
            while m < group.executions.len()
                invariant
                    g < self.execution_groups@.len(),
                    *group == self.execution_groups@[g as int],
                    m <= group.executions@.len(),
                    forall|file: FileUuid| occurs(known@, file) == self.knows(file),
                    forall|h: int, n: int, e: int| h < g ==> !#[trigger] self.dangles(h, n, e),
                    forall|n: int, e: int| n < m ==> !#[trigger] self.dangles(g as int, n, e),
                decreases group.executions@.len() - m,
            {
                let files = group.executions[m].dependencies();
                let mut d: usize = 0;
                while d < files.len()
                    invariant
                        g < self.execution_groups@.len(),
                        *group == self.execution_groups@[g as int],
                        m < group.executions@.len(),
                        files@ == group.executions@[m as int].spec_dependencies(),
                        d <= files@.len(),
                        forall|file: FileUuid| occurs(known@, file) == self.knows(file),
                        forall|h: int, n: int, e: int| h < g ==> !#[trigger] self.dangles(h, n, e),
                        forall|n: int, e: int| n < m ==> !#[trigger] self.dangles(g as int, n, e),
                        forall|e: int| e < d ==> !#[trigger] self.dangles(g as int, m as int, e),
                    decreases files@.len() - d,
                {
                    if find_u128(&known, files[d]).is_none() {
                        proof {
                            assert(self.dangles(g as int, m as int, d as int));
                            assert forall|h: int, n: int, e: int|
                                Self::before(
                                    h,
                                    n,
                                    e,
                                    g as int,
                                    m as int,
                                    d as int,
                                ) implies !#[trigger] self.dangles(h, n, e) by {}
                        }
                        return Err(
                            DagError::DanglingInput {
                                execution: group.executions[m].uuid,
                                file: files[d],
                            },
                        );
                    }
                    d += 1;
                }
                m += 1;
            }
            g += 1;
        }
        Ok(())
    }
}

/// The provided files once `provided` is declared: in place of the entry of
/// the same file, or as a new last entry.
pub open spec fn put_provided(files: Seq<ProvidedFile>, provided: ProvidedFile) -> Seq<
    ProvidedFile,
> {
    let p = first_position(provided_uuids(files), provided.file.uuid);
    if p < files.len() {
        files.update(p, provided)
    } else {
        files.push(provided)
    }
}

/// What the client is told of an execution.
#[derive(Debug, Clone, Copy, PartialEq, Eq, Structural)]
pub enum ExecutionEvent {
    /// The execution has started on a worker.
    Started,
    /// The execution has ended.
    Done,
    /// The execution will never run.
    Skipped,
}

/// The callbacks that `event` fires for `execution`: those registered for the
/// event, in the order in which they were registered; none where the
/// execution has no entry.
pub open spec fn fired(
    callbacks: Map<ExecutionUuid, ExecutionCallbacks>,
    execution: ExecutionUuid,
    event: ExecutionEvent,
) -> Seq<CallbackId> {
    if callbacks.contains_key(execution) {
        match event {
            ExecutionEvent::Started => callbacks[execution].on_start@,
            ExecutionEvent::Done => callbacks[execution].on_done@,
            ExecutionEvent::Skipped => callbacks[execution].on_skip@,
        }
    } else {
        seq![]
    }
}

/// Whether `after` is `before` with the callbacks `start`, `done` and `skip`
/// added behind those of `execution`, whose entry is made where it was missing.
pub open spec fn callbacks_added(
    before: Map<ExecutionUuid, ExecutionCallbacks>,
    after: Map<ExecutionUuid, ExecutionCallbacks>,
    execution: ExecutionUuid,
    start: Seq<CallbackId>,
    done: Seq<CallbackId>,
    skip: Seq<CallbackId>,
) -> bool {
    &&& after.dom() == before.dom().insert(execution)
    &&& forall|k: ExecutionUuid|
        before.contains_key(k) && k != execution ==> #[trigger] after[k] == before[k]
    &&& after[execution].execution == execution
    &&& after[execution].on_start@ == fired(before, execution, ExecutionEvent::Started) + start
    &&& after[execution].on_done@ == fired(before, execution, ExecutionEvent::Done) + done
    &&& after[execution].on_skip@ == fired(before, execution, ExecutionEvent::Skipped) + skip
}

/// Whether `after` is `before` with the entry of its file holding what
/// `entry` holds, the entry being made where it was missing.
pub open spec fn file_callbacks_set(
    before: Map<FileUuid, FileCallbacks>,
    after: Map<FileUuid, FileCallbacks>,
    entry: FileCallbacks,
) -> bool {
    after == before.insert(entry.file, entry)
}

/// What an entry holds as destination; nothing where the file has no entry.
pub open spec fn destination_of(callbacks: Map<FileUuid, FileCallbacks>, file: FileUuid) -> Option<
    String,
> {
    if callbacks.contains_key(file) {
        callbacks[file].write_to
    } else {
        None
    }
}

/// What an entry holds as request for content; nothing where the file has no entry.
pub open spec fn request_of(callbacks: Map<FileUuid, FileCallbacks>, file: FileUuid) -> Option<
    ContentRequest,
> {
    if callbacks.contains_key(file) {
        callbacks[file].get_content
    } else {
        None
    }
}

/// Whether `after` is `before` once `event` has fired for `execution`: the
/// callbacks that fired are gone, and so are, once the execution has ended
/// or is skipped, those for the other of the two.
pub open spec fn spent(
    before: Map<ExecutionUuid, ExecutionCallbacks>,
    after: Map<ExecutionUuid, ExecutionCallbacks>,
    execution: ExecutionUuid,
    event: ExecutionEvent,
) -> bool {
    &&& after.dom() == before.dom()
    &&& forall|k: ExecutionUuid|
        before.contains_key(k) && k != execution ==> #[trigger] after[k] == before[k]
    &&& before.contains_key(execution) ==> {
        &&& after[execution].execution == execution
        &&& after[execution].on_start@ == (if event == ExecutionEvent::Started {
            seq![]
        } else {
            before[execution].on_start@
        })
        &&& after[execution].on_done@ == (if event == ExecutionEvent::Started {
            before[execution].on_done@
        } else {
            seq![]
        })
        &&& after[execution].on_skip@ == (if event == ExecutionEvent::Started {
            before[execution].on_skip@
        } else {
            seq![]
        })
    }
}

impl ExecutionDAG {
    /// Create an empty ExecutionDAG, without files, executions and callbacks,
    /// with the configuration of a new graph: everything cached, nothing kept
    /// or copied, no extra time.
    pub fn new() -> (dag: ExecutionDAG)
        ensures
            dag.data.provided_files@.len() == 0,
            dag.data.execution_groups@.len() == 0,
            dag.execution_callbacks@ == Map::<ExecutionUuid, ExecutionCallbacks>::empty(),
            dag.file_callbacks@ == Map::<FileUuid, FileCallbacks>::empty(),
            !dag.data.config.keep_sandboxes,
            !dag.data.config.dry_run,
            dag.data.config.cache_mode == CacheMode::Everything,
            !dag.data.config.copy_exe,
            !dag.data.config.copy_logs,
            dag.data.config.extra_time == 0,
    {
        ExecutionDAG {
            data: ExecutionDAGData {
                provided_files: Vec::new(),
                execution_groups: Vec::new(),
                config: ExecutionDAGConfig::new(),
            },
            execution_callbacks: HashMap::new(),
            file_callbacks: HashMap::new(),
        }
    }

    /// Provide a file for the computation: the client has it at `path`, with
    /// this content. The key of the content is computed at once.
    pub fn provide_file(&mut self, file: File, path: String, content: &[u8])
        ensures
            final(self).execution_callbacks == old(self).execution_callbacks,
            final(self).file_callbacks == old(self).file_callbacks,
            final(self).data.execution_groups == old(self).data.execution_groups,
            final(self).data.config == old(self).data.config,
            final(self).data.provided_files@ == put_provided(
                old(self).data.provided_files@,
                ProvidedFile { file, key: FileStoreKey::of(content@), local_path: path },
            ),
    {
        let key = FileStoreKey::from_content(content);
        let ghost uuids = provided_uuids(self.data.provided_files@);
        let uuid = file.uuid;
        let mut p: usize = 0;
        while p < self.data.provided_files.len()
            invariant
                *self == *old(self),
                key == FileStoreKey::of(content@),
                uuid == file.uuid,
                uuids == provided_uuids(self.data.provided_files@),
                p <= self.data.provided_files@.len(),
                forall|k: int| 0 <= k < p ==> uuids[k] != uuid,
            decreases self.data.provided_files@.len() - p,
        {
            if self.data.provided_files[p].file.uuid == uuid {
                proof {
                    lemma_first_position_is(uuids, uuid, p as int);
                }
                self.data.provided_files[p] = ProvidedFile { file, key, local_path: path };
                assert(self.data.provided_files@ =~= old(self).data.provided_files@.update(
                    p as int,
                    ProvidedFile { file, key, local_path: path },
                ));
                return ;
            }
            p += 1;
        }
        proof {
            lemma_first_position_is(uuids, uuid, p as int);
        }
        self.data.provided_files.push(ProvidedFile { file, key, local_path: path });
    }

    /// Add an execution to the DAG. The graph holds one execution under an
    /// identifier: where it holds one under the identifier of `execution`,
    /// that one is replaced; otherwise `execution` is added as a group of its
    /// own, declared last.
    pub fn add_execution(&mut self, execution: Execution)
        ensures
            final(self).execution_callbacks == old(self).execution_callbacks,
            final(self).file_callbacks == old(self).file_callbacks,
            final(self).data.provided_files == old(self).data.provided_files,
            final(self).data.config == old(self).data.config,
            execution_declared(
                old(self).data.execution_groups@,
                final(self).data.execution_groups@,
                execution,
            ),
            execution_under(final(self).data.execution_groups@, execution.uuid) == Some(execution),
            forall|other: ExecutionUuid|
                other != execution.uuid ==> #[trigger] execution_under(
                    final(self).data.execution_groups@,
                    other,
                ) == execution_under(old(self).data.execution_groups@, other),
            distinct(old(self).data.execution_groups@) ==> distinct(
                final(self).data.execution_groups@,
            ),
    {
        let ghost before = self.data.execution_groups@;
        let ghost held = |g: int| occurs(execution_uuids(before[g].executions@), execution.uuid);
        let uuid = execution.uuid;
        let mut g: usize = 0;
        while g < self.data.execution_groups.len()
            invariant
                *self == *old(self),
                before == self.data.execution_groups@,
                uuid == execution.uuid,
                held == (|g: int| occurs(execution_uuids(before[g].executions@), execution.uuid)),
                g <= before.len(),
                forall|j: int| 0 <= j < g ==> !#[trigger] held(j),
            decreases before.len() - g,
        {
            match find_execution(&self.data.execution_groups[g].executions, uuid) {
                Some(m) => {
                    proof {
                        assert(held(g as int));
                        lemma_first_where_is(before.len(), held, g as int);
                    }
                    self.data.execution_groups[g].executions[m] = execution;
                    proof {
                        let after = self.data.execution_groups@;
                        assert(after[g as int].executions@ =~= before[g as int].executions@.update(
                            m as int,
                            execution,
                        ));
                        law_declared_execution_is_held(before, after, execution);
                    }
                    return ;
                },
                None => {
                    assert(!held(g as int));
                },
            }
            g += 1;
        }
        proof {
            lemma_first_where_is(before.len(), held, g as int);
        }
        self.data.execution_groups.push(ExecutionGroup::single(execution));
        proof {
            let after = self.data.execution_groups@;
            assert(after.drop_last() =~= before);
            law_declared_execution_is_held(before, after, execution);
        }
    }

    /// Add a group of executions to the DAG; it is declared last. Where no
    /// two members of the graph had the same identifier, none of the group
    /// has the identifier of another, and the graph held none of them, no
    /// two members of the graph have the same identifier afterwards.
    pub fn add_execution_group(&mut self, group: ExecutionGroup)
        ensures
            final(self).execution_callbacks == old(self).execution_callbacks,
            final(self).file_callbacks == old(self).file_callbacks,
            final(self).data.provided_files == old(self).data.provided_files,
            final(self).data.config == old(self).data.config,
            final(self).data.execution_groups@ == old(self).data.execution_groups@.push(group),
            distinct(old(self).data.execution_groups@) && distinct(seq![group]) && (forall|m: int|
                0 <= m < group.executions@.len() ==> execution_under(
                    old(self).data.execution_groups@,
                    (#[trigger] group.executions@[m]).uuid,
                ) is None) ==> distinct(final(self).data.execution_groups@),
    {
        proof {
            let before = self.data.execution_groups@;
            let after = before.push(group);
            if distinct(before) && distinct(seq![group]) && (forall|m: int|
                0 <= m < group.executions@.len() ==> execution_under(
                    before,
                    (#[trigger] group.executions@[m]).uuid,
                ) is None) {
                assert forall|g: int, m: int, h: int, n: int|
                    0 <= g < after.len() && 0 <= m < after[g].executions@.len() && 0 <= h
                        < after.len() && 0 <= n < after[h].executions@.len() && (
                    #[trigger] after[g].executions@[m]).uuid == (
                    #[trigger] after[h].executions@[n]).uuid implies g == h && m == n by {
                    let last = before.len() as int;
                    if g < last && h < last {
                        assert(before[g].executions@[m].uuid == before[h].executions@[n].uuid);
                    } else if g == last && h == last {
                        assert(seq![group][0].executions@[m].uuid == seq![group][0].executions@[
                            n
                        ].uuid);
                    } else if g == last {
                        assert(execution_under(before, group.executions@[m].uuid) is None);
                        lemma_not_held(before, group.executions@[m].uuid);
                        assert(before[h].executions@[n].uuid != group.executions@[m].uuid);
                    } else {
                        assert(execution_under(before, group.executions@[n].uuid) is None);
                        lemma_not_held(before, group.executions@[n].uuid);
                        assert(before[g].executions@[m].uuid != group.executions@[n].uuid);
                    }
                }
            }
        }
        self.data.execution_groups.push(group);
    }

    /// Takes the callbacks of `file` out of the graph: its entry, or an empty one.
    fn file_callback(&mut self, file: FileUuid) -> (entry: FileCallbacks)
        ensures
            final(self).data == old(self).data,
            final(self).execution_callbacks == old(self).execution_callbacks,
            final(self).file_callbacks@ == old(self).file_callbacks@.remove(file),
            entry.file == file,
            entry.write_to == destination_of(old(self).file_callbacks@, file),
            entry.get_content == request_of(old(self).file_callbacks@, file),
            old(self).file_callbacks@.contains_key(file) ==> entry == (FileCallbacks {
                file,
                ..old(self).file_callbacks@[file]
            }),
    {
        broadcast use vstd::std_specs::hash::group_hash_axioms;

        match self.file_callbacks.remove(&file) {
            Some(entry) => FileCallbacks { file, write_to: entry.write_to, get_content: entry.get_content },
            None => FileCallbacks { file, write_to: None, get_content: None },
        }
    }

    /// Takes the callbacks of `execution` out of the graph: its entry, or an empty one.
    fn execution_callback(&mut self, execution: ExecutionUuid) -> (entry: ExecutionCallbacks)
        ensures
            final(self).data == old(self).data,
            final(self).file_callbacks == old(self).file_callbacks,
            final(self).execution_callbacks@ == old(self).execution_callbacks@.remove(execution),
            entry.execution == execution,
            entry.on_start@ == fired(old(self).execution_callbacks@, execution, ExecutionEvent::Started),
            entry.on_done@ == fired(old(self).execution_callbacks@, execution, ExecutionEvent::Done),
            entry.on_skip@ == fired(old(self).execution_callbacks@, execution, ExecutionEvent::Skipped),
    {
        broadcast use vstd::std_specs::hash::group_hash_axioms;

        match self.execution_callbacks.remove(&execution) {
            Some(entry) => ExecutionCallbacks {
                execution,
                on_start: entry.on_start,
                on_done: entry.on_done,
                on_skip: entry.on_skip,
            },
            None => ExecutionCallbacks {
                execution,
                on_start: Vec::new(),
                on_done: Vec::new(),
                on_skip: Vec::new(),
            },
        }
    }

    /// Puts the callbacks of an execution back into the graph.
    fn keep_execution_callback(&mut self, entry: ExecutionCallbacks)
        ensures
            final(self).data == old(self).data,
            final(self).file_callbacks == old(self).file_callbacks,
            final(self).execution_callbacks@ == old(self).execution_callbacks@.insert(
                entry.execution,
                entry,
            ),
    {
        broadcast use vstd::std_specs::hash::group_hash_axioms;

        self.execution_callbacks.insert(entry.execution, entry);
    }

    /// Puts the callbacks of a file back into the graph.
    fn keep_file_callback(&mut self, entry: FileCallbacks)
        ensures
            final(self).data == old(self).data,
            final(self).execution_callbacks == old(self).execution_callbacks,
            final(self).file_callbacks@ == old(self).file_callbacks@.insert(entry.file, entry),
    {
        broadcast use vstd::std_specs::hash::group_hash_axioms;

        self.file_callbacks.insert(entry.file, entry);
    }

    /// When `file` is ready it will be written to `path`. The file must be present in the dag
    /// before the evaluation starts.
    pub fn write_file_to(&mut self, file: FileUuid, path: String)
        ensures
            final(self).data == old(self).data,
            final(self).execution_callbacks == old(self).execution_callbacks,
            file_callbacks_set(
                old(self).file_callbacks@,
                final(self).file_callbacks@,
                FileCallbacks {
                    file,
                    write_to: Some(path),
                    get_content: request_of(old(self).file_callbacks@, file),
                },
            ),
    {
        let mut entry = self.file_callback(file);
        entry.write_to = Some(path);
        self.keep_file_callback(entry);
        assert(self.file_callbacks@ =~= old(self).file_callbacks@.insert(file, entry));
    }

    /// Call `callback` with the first `limit` bytes of the file when it's
    /// ready. The file must be present in the DAG before the evaluation
    /// starts.
    pub fn get_file_content(&mut self, file: FileUuid, limit: usize, callback: CallbackId)
        ensures
            final(self).data == old(self).data,
            final(self).execution_callbacks == old(self).execution_callbacks,
            file_callbacks_set(
                old(self).file_callbacks@,
                final(self).file_callbacks@,
                FileCallbacks {
                    file,
                    write_to: destination_of(old(self).file_callbacks@, file),
                    get_content: Some(ContentRequest { limit, callback }),
                },
            ),
    {
        let mut entry = self.file_callback(file);
        entry.get_content = Some(ContentRequest { limit, callback });
        self.keep_file_callback(entry);
        assert(self.file_callbacks@ =~= old(self).file_callbacks@.insert(file, entry));
    }

    /// Add a callback that will be called when the execution starts.
    pub fn on_execution_start(&mut self, execution: &ExecutionUuid, callback: CallbackId)
        ensures
            final(self).data == old(self).data,
            final(self).file_callbacks == old(self).file_callbacks,
            callbacks_added(
                old(self).execution_callbacks@,
                final(self).execution_callbacks@,
                *execution,
                seq![callback],
                seq![],
                seq![],
            ),
    {
        let mut entry = self.execution_callback(*execution);
        entry.on_start.push(callback);
        self.keep_execution_callback(entry);
        proof {
            let before = old(self).execution_callbacks@;
            let after = self.execution_callbacks@;
            assert(after.dom() =~= before.dom().insert(*execution));
            assert(entry.on_start@ =~= fired(before, *execution, ExecutionEvent::Started) + seq![
                callback,
            ]);
            assert(entry.on_done@ =~= fired(before, *execution, ExecutionEvent::Done) + Seq::<
                CallbackId,
            >::empty());
            assert(entry.on_skip@ =~= fired(before, *execution, ExecutionEvent::Skipped) + Seq::<
                CallbackId,
            >::empty());
        }
    }

    /// Add a callback that will be called when the execution ends.
    pub fn on_execution_done(&mut self, execution: &ExecutionUuid, callback: CallbackId)
        ensures
            final(self).data == old(self).data,
            final(self).file_callbacks == old(self).file_callbacks,
            callbacks_added(
                old(self).execution_callbacks@,
                final(self).execution_callbacks@,
                *execution,
                seq![],
                seq![callback],
                seq![],
            ),
    {
        let mut entry = self.execution_callback(*execution);
        entry.on_done.push(callback);
        self.keep_execution_callback(entry);
        proof {
            let before = old(self).execution_callbacks@;
            let after = self.execution_callbacks@;
            assert(after.dom() =~= before.dom().insert(*execution));
            assert(entry.on_done@ =~= fired(before, *execution, ExecutionEvent::Done) + seq![
                callback,
            ]);
            assert(entry.on_start@ =~= fired(before, *execution, ExecutionEvent::Started) + Seq::<
                CallbackId,
            >::empty());
            assert(entry.on_skip@ =~= fired(before, *execution, ExecutionEvent::Skipped) + Seq::<
                CallbackId,
            >::empty());
        }
    }

    /// Add a callback that will be called when the execution is skipped.
    pub fn on_execution_skip(&mut self, execution: &ExecutionUuid, callback: CallbackId)
        ensures
            final(self).data == old(self).data,
            final(self).file_callbacks == old(self).file_callbacks,
            callbacks_added(
                old(self).execution_callbacks@,
                final(self).execution_callbacks@,
                *execution,
                seq![],
                seq![],
                seq![callback],
            ),
    {
        let mut entry = self.execution_callback(*execution);
        entry.on_skip.push(callback);
        self.keep_execution_callback(entry);
        proof {
            let before = old(self).execution_callbacks@;
            let after = self.execution_callbacks@;
            assert(after.dom() =~= before.dom().insert(*execution));
            assert(entry.on_skip@ =~= fired(before, *execution, ExecutionEvent::Skipped) + seq![
                callback,
            ]);
            assert(entry.on_start@ =~= fired(before, *execution, ExecutionEvent::Started) + Seq::<
                CallbackId,
            >::empty());
            assert(entry.on_done@ =~= fired(before, *execution, ExecutionEvent::Done) + Seq::<
                CallbackId,
            >::empty());
        }
    }
}

/// The first `limit` bytes of `content`, or all of them if there are fewer.
pub open spec fn head_of(content: Seq<u8>, limit: usize) -> Seq<u8> {
    if limit < content.len() {
        content.take(limit as int)
    } else {
        content
    }
}

/// What is to be done with a file that is ready.
#[derive(Debug)]
pub struct FileDelivery {
    /// Where to write the file.
    pub write_to: Option<String>,
    /// The callback to call with the start of the file, and those bytes.
    pub content: Option<(CallbackId, Vec<u8>)>,
}

impl ExecutionDAG {
    /// Takes in the news of an execution, and returns the callbacks to call,
    /// in the order in which they were registered. Each callback is returned
    /// once: the callbacks that fired are forgotten, and once the execution
    /// has ended or is skipped, so are those of the other of the two.
    pub fn execution_event(&mut self, execution: ExecutionUuid, event: ExecutionEvent) -> (callbacks:
        Vec<CallbackId>)
        ensures
            final(self).data == old(self).data,
            final(self).file_callbacks == old(self).file_callbacks,
            callbacks@ == fired(old(self).execution_callbacks@, execution, event),
            spent(old(self).execution_callbacks@, final(self).execution_callbacks@, execution, event),
    {
        broadcast use vstd::std_specs::hash::group_hash_axioms;

        if !self.execution_callbacks.contains_key(&execution) {
            return Vec::new();
        }
        let mut entry = self.execution_callback(execution);
        let mut taken: Vec<CallbackId> = Vec::new();
        match event {
            ExecutionEvent::Started => {
                core::mem::swap(&mut taken, &mut entry.on_start);
            },
            ExecutionEvent::Done => {
                core::mem::swap(&mut taken, &mut entry.on_done);
                entry.on_skip = Vec::new();
            },
            ExecutionEvent::Skipped => {
                core::mem::swap(&mut taken, &mut entry.on_skip);
                entry.on_done = Vec::new();
            },
        }
        self.keep_execution_callback(entry);
        proof {
            let before = old(self).execution_callbacks@;
            let after = self.execution_callbacks@;
            assert(after.dom() =~= before.dom());
        }
        taken
    }

    /// Takes in the content of a file that is ready, and says what to do
    /// with it: where to write it, unless the run is dry, and whom to call
    /// with its first bytes. The request for the bytes is answered once.
    pub fn file_ready(&mut self, file: FileUuid, content: &Vec<u8>) -> (delivery: FileDelivery)
        ensures
            final(self).data == old(self).data,
            final(self).execution_callbacks == old(self).execution_callbacks,
            delivery.write_to == (if old(self).data.config.dry_run {
                None
            } else {
                destination_of(old(self).file_callbacks@, file)
            }),
            match request_of(old(self).file_callbacks@, file) {
                Some(request) => delivery.content matches Some((callback, bytes)) && callback
                    == request.callback && bytes@ == head_of(content@, request.limit),
                None => delivery.content is None,
            },
            final(self).file_callbacks@.dom() == old(self).file_callbacks@.dom(),
            forall|k: FileUuid|
                old(self).file_callbacks@.contains_key(k) && k != file
                    ==> #[trigger] final(self).file_callbacks@[k] == old(self).file_callbacks@[k],
            request_of(final(self).file_callbacks@, file) is None,
            destination_of(final(self).file_callbacks@, file) == destination_of(
                old(self).file_callbacks@,
                file,
            ),
    {
        broadcast use vstd::std_specs::hash::group_hash_axioms;

        if !self.file_callbacks.contains_key(&file) {
            return FileDelivery { write_to: None, content: None };
        }
        let mut entry = self.file_callback(file);
        let write_to = if self.data.config.dry_run {
            None
        } else {
            entry.write_to.clone()
        };
        let request = entry.get_content;
        entry.get_content = None;
        self.keep_file_callback(entry);
        proof {
            assert(self.file_callbacks@.dom() =~= old(self).file_callbacks@.dom());
        }
        let content = match request {
            Some(request) => {
                let end = if request.limit < content.len() {
                    request.limit
                } else {
                    content.len()
                };
                let mut bytes: Vec<u8> = Vec::new();
                let mut i: usize = 0;
                while i < end
                    invariant
                        i <= end <= content@.len(),
                        bytes@ == content@.take(i as int),
                    decreases end - i,
                {
                    bytes.push(content[i]);
                    assert(bytes@ =~= content@.take(i + 1));
                    i += 1;
                }
                assert(content@.take(content@.len() as int) =~= content@);
                Some((request.callback, bytes))
            },
            None => None,
        };
        FileDelivery { write_to, content }
    }
}

/// No callback fires twice, and an execution is not told both that it
/// has ended and that it is skipped: once the news of an end or of a skip has
/// been taken in for an execution, neither fires anything for it again.
pub proof fn law_callbacks_fire_once(
    before: Map<ExecutionUuid, ExecutionCallbacks>,
    after: Map<ExecutionUuid, ExecutionCallbacks>,
    execution: ExecutionUuid,
    event: ExecutionEvent,
    later: ExecutionEvent,
)
    requires
        spent(before, after, execution, event),
        event != ExecutionEvent::Started,
        later != ExecutionEvent::Started,
    ensures
        fired(after, execution, later) == Seq::<CallbackId>::empty(),
{
    assert(after.contains_key(execution) == before.contains_key(execution));
}

/// What registering callbacks means for what fires: the callbacks added for an
/// execution fire behind those that were registered before, each with its
/// event, and nothing changes for any other execution.
pub proof fn lemma_added_fires(
    before: Map<ExecutionUuid, ExecutionCallbacks>,
    after: Map<ExecutionUuid, ExecutionCallbacks>,
    execution: ExecutionUuid,
    start: Seq<CallbackId>,
    done: Seq<CallbackId>,
    skip: Seq<CallbackId>,
    other: ExecutionUuid,
)
    requires
        callbacks_added(before, after, execution, start, done, skip),
    ensures
        fired(after, execution, ExecutionEvent::Started) == fired(
            before,
            execution,
            ExecutionEvent::Started,
        ) + start,
        fired(after, execution, ExecutionEvent::Done) == fired(
            before,
            execution,
            ExecutionEvent::Done,
        ) + done,
        fired(after, execution, ExecutionEvent::Skipped) == fired(
            before,
            execution,
            ExecutionEvent::Skipped,
        ) + skip,
        other != execution ==> fired(after, other, ExecutionEvent::Started) == fired(
            before,
            other,
            ExecutionEvent::Started,
        ) && fired(after, other, ExecutionEvent::Done) == fired(before, other, ExecutionEvent::Done)
            && fired(after, other, ExecutionEvent::Skipped) == fired(
            before,
            other,
            ExecutionEvent::Skipped,
        ),
{
    assert(after.contains_key(execution));
    if other != execution {
        assert(after.contains_key(other) == before.contains_key(other));
        if before.contains_key(other) {
            assert(after[other] == before[other]);
        }
    }
}

} // verus!
