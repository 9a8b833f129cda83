//! What a sandbox reports of the process it ran, and what the worker makes of it.

use vstd::prelude::*;
use crate::dag::execution::{
    signal_view, status_of, stream_view, Execution, ExecutionLimits, ExecutionOutput,
    ExecutionResourcesUsage, ExecutionResult, ExecutionResultView, ExecutionStatusView,
};
use crate::dag::file::FileUuid;
use crate::exec::model::DependencyKey;
use crate::store::{stored, BlobView, FileStore, FileStoreKey};

verus! {

/// How the run of a sandbox ended.
#[derive(Debug)]
pub enum SandboxResult {
    /// The process ran to its end, or was stopped.
    Success {
        /// The exit status of the process.
        exit_status: u32,
        /// The signal that stopped the process, with its name.
        signal: Option<(u32, String)>,
        /// What the process used.
        resources: ExecutionResourcesUsage,
        /// Whether the sandbox killed the process.
        was_killed: bool,
    },
    /// The sandbox could not run the process.
    Failed {
        /// Why.
        error: String,
    },
}

/// What a sandbox reports: how the run ended, and the content of the files
/// that the process left behind. A file that was not read, or was not there,
/// is `None`.
#[derive(Debug)]
pub struct SandboxReport {
    /// How the run ended.
    pub result: SandboxResult,
    /// What the process wrote to its standard output.
    pub stdout: Option<Vec<u8>>,
    /// What the process wrote to its standard error.
    pub stderr: Option<Vec<u8>>,
    /// The content of each declared output file, in the order of the declaration.
    pub outputs: Vec<Option<Vec<u8>>>,
}

/// The start of a stream that is reported with a result: nothing where no
/// byte was asked for, the first `count` bytes otherwise, or all of them if
/// there are fewer.
pub open spec fn captured(content: Seq<u8>, count: Option<usize>) -> Option<Seq<u8>> {
    match count {
        Some(count) => Some(
            if count < content.len() {
                content.take(count as int)
            } else {
                content
            },
        ),
        None => None,
    }
}

/// The bytes of a file of the sandbox; a file that is not there is empty.
pub open spec fn content_or_empty(content: Option<Vec<u8>>) -> Seq<u8> {
    match content {
        Some(bytes) => bytes@,
        None => seq![],
    }
}

/// If `count` is `None` do not read anything, otherwise take at most that number of bytes
/// from the start of `content`.
pub fn capture_stream(content: &Option<Vec<u8>>, count: Option<usize>) -> (stream: Option<Vec<u8>>)
    ensures
        stream_view(stream) == captured(content_or_empty(*content), count),
{
    match count {
        Some(count) => {
            let mut taken: Vec<u8> = Vec::new();
            match content {
                Some(bytes) => {
                    let end = if count < bytes.len() {
                        count
                    } else {
                        bytes.len()
                    };
                    let mut i: usize = 0;
                    while i < end
                        invariant
                            i <= end <= bytes@.len(),
                            taken@ == bytes@.take(i as int),
                        decreases end - i,
                    {
                        taken.push(bytes[i]);
                        assert(taken@ =~= bytes@.take(i + 1));
                        i += 1;
                    }
                    assert(bytes@.take(bytes@.len() as int) =~= bytes@);
                },
                None => {
                    assert(taken@ =~= Seq::<u8>::empty());
                },
            }
            Some(taken)
        },
        None => None,
    }
}

/// The result of an execution, given what its sandbox reports.
pub open spec fn result_of(execution: Execution, report: SandboxReport) -> ExecutionResultView {
    match report.result {
        SandboxResult::Success { exit_status, signal, resources, was_killed } => ExecutionResultView {
            status: status_of(execution.limits, exit_status, signal_view(signal), resources),
            was_killed,
            was_cached: false,
            resources,
            stdout: captured(content_or_empty(report.stdout), execution.capture_stdout),
            stderr: captured(content_or_empty(report.stderr), execution.capture_stderr),
        },
        SandboxResult::Failed { error } => ExecutionResultView {
            status: ExecutionStatusView::InternalError(error@),
            was_killed: false,
            was_cached: false,
            resources: ExecutionResourcesUsage::spec_zero(),
            stdout: None,
            stderr: None,
        },
    }
}

/// Compute the [`ExecutionResult`] based on the report of the sandbox: the
/// status comes from the limits of the execution, the streams are cut to what
/// the execution asks for, and a sandbox that failed gives an internal error.
pub fn compute_execution_result(execution: &Execution, report: &SandboxReport) -> (result:
    ExecutionResult)
    ensures
        result@ == result_of(*execution, *report),
{
    match &report.result {
        SandboxResult::Success { exit_status, signal, resources, was_killed } => {
            let signal = match signal {
                Some((number, name)) => Some((*number, name.clone())),
                None => None,
            };
            ExecutionResult {
                status: execution.status(*exit_status, signal, resources),
                was_killed: *was_killed,
                was_cached: false,
                resources: *resources,
                stdout: capture_stream(&report.stdout, execution.capture_stdout),
                stderr: capture_stream(&report.stderr, execution.capture_stderr),
            }
        },
        SandboxResult::Failed { error } => ExecutionResult::internal_error(error.clone()),
    }
}

/// The content of the declared output files, in order. A file that the
/// process did not leave behind is taken as empty.
pub open spec fn file_contents(outputs: Seq<ExecutionOutput>, found: Seq<Option<Vec<u8>>>) -> Seq<
    Seq<u8>,
> {
    Seq::new(
        outputs.len(),
        |k: int|
            if k < found.len() {
                content_or_empty(found[k])
            } else {
                seq![]
            },
    )
}

/// The content of each output of an execution, in the order of its outputs:
/// the standard output and the standard error where it has them, then its files.
pub open spec fn output_contents(execution: Execution, report: SandboxReport) -> Seq<Seq<u8>> {
    (if execution.stdout is Some {
        seq![content_or_empty(report.stdout)]
    } else {
        seq![]
    }) + (if execution.stderr is Some {
        seq![content_or_empty(report.stderr)]
    } else {
        seq![]
    }) + file_contents(execution.outputs@, report.outputs@)
}

/// The store after each of `contents` is stored, one after the other.
pub open spec fn stored_all(blobs: Seq<BlobView>, contents: Seq<Seq<u8>>) -> Seq<BlobView>
    decreases contents.len(),
{
    if contents.len() == 0 {
        blobs
    } else {
        let before = stored_all(blobs, contents.drop_last());
        stored(before, FileStoreKey::of(contents.last()), contents.last())
    }
}

/// Each of `files` with the key of its content.
pub open spec fn keyed(files: Seq<FileUuid>, contents: Seq<Seq<u8>>) -> Seq<DependencyKey> {
    Seq::new(
        contents.len(),
        |k: int| DependencyKey { file: files[k], key: FileStoreKey::of(contents[k]) },
    )
}

/// A copy of the bytes of a file of the sandbox; nothing for a file that is not there.
fn bytes_or_empty(content: &Option<Vec<u8>>) -> (bytes: Vec<u8>)
    ensures
        bytes@ == content_or_empty(*content),
{
    match content {
        Some(found) => {
            let bytes = found.clone();
            assert(bytes@ =~= found@);
            bytes
        },
        None => Vec::new(),
    }
}

/// Extract the output files from the report of the sandbox: each is stored,
/// and listed with its key behind `reported`.
pub fn get_result_outputs(
    execution: &Execution,
    report: &SandboxReport,
    store: &mut FileStore,
    reported: &mut Vec<DependencyKey>,
)
    requires
        old(store).wf(),
    ensures
        final(store).wf(),
        final(store).max_size() == old(store).max_size(),
        final(store).min_size() == old(store).min_size(),
        final(store)@ == stored_all(old(store)@, output_contents(*execution, *report)),
        final(reported)@ == old(reported)@ + keyed(
            execution.spec_outputs(),
            output_contents(*execution, *report),
        ),
{
    let ghost contents = output_contents(*execution, *report);
    let ghost files = execution.spec_outputs();
    let ghost mut done: Seq<Seq<u8>> = seq![];
    assert(reported@ =~= old(reported)@ + keyed(files, done));
    assert(store@ == stored_all(old(store)@, done));
    if let Some(stdout) = &execution.stdout {
        let content = bytes_or_empty(&report.stdout);
        let ghost bytes = content@;
        let key = store.put(content);
        reported.push(DependencyKey { file: stdout.uuid, key });
        proof {
            done = done.push(bytes);
            assert(done.drop_last() =~= Seq::<Seq<u8>>::empty());
            assert(store@ == stored_all(old(store)@, done));
            assert(reported@ =~= old(reported)@ + keyed(files, done));
        }
    }
    if let Some(stderr) = &execution.stderr {
        let content = bytes_or_empty(&report.stderr);
        let ghost bytes = content@;
        let ghost before = done;
        let key = store.put(content);
        reported.push(DependencyKey { file: stderr.uuid, key });
        proof {
            done = done.push(bytes);
            assert(done.drop_last() =~= before);
            assert(store@ == stored_all(old(store)@, done));
            assert(reported@ =~= old(reported)@ + keyed(files, done));
        }
    }
    let ghost head = done;
    assert(head =~= contents.take(head.len() as int));
    let mut k: usize = 0;
    while k < execution.outputs.len()
        invariant
            store.wf(),
            store.max_size() == old(store).max_size(),
            store.min_size() == old(store).min_size(),
            k <= execution.outputs@.len(),
            contents == output_contents(*execution, *report),
            files == execution.spec_outputs(),
            head.len() + execution.outputs@.len() == contents.len(),
            done == contents.take(head.len() + k),
            store@ == stored_all(old(store)@, done),
            reported@ == old(reported)@ + keyed(files, done),
        decreases execution.outputs@.len() - k,
    {
        let content = if k < report.outputs.len() {
            bytes_or_empty(&report.outputs[k])
        } else {
            Vec::new()
        };
        let ghost bytes = content@;
        let ghost before = done;
        let key = store.put(content);
        reported.push(DependencyKey { file: execution.outputs[k].file.uuid, key });
        proof {
            done = done.push(bytes);
            assert(done.drop_last() =~= before);
            assert(bytes == contents[head.len() + k]);
            assert(done =~= contents.take(head.len() + k + 1));
            assert(files[head.len() + k] == execution.outputs@[k as int].file.uuid);
            assert(reported@ =~= old(reported)@ + keyed(files, done));
        }
        k += 1;
    }
    assert(contents.take(contents.len() as int) =~= contents);
}

/// Whether the worker has to read the standard output of an execution: it is
/// an output of the execution, or its start is reported with the result.
pub fn needs_stdout(execution: &Execution) -> (needed: bool)
    ensures
        needed == (execution.stdout is Some || execution.capture_stdout is Some),
{
    execution.stdout.is_some() || execution.capture_stdout.is_some()
}

/// Whether the worker has to read the standard error of an execution.
pub fn needs_stderr(execution: &Execution) -> (needed: bool)
    ensures
        needed == (execution.stderr is Some || execution.capture_stderr is Some),
{
    execution.stderr.is_some() || execution.capture_stderr.is_some()
}

/// The running time after which a process is killed: its wall time limit and
/// the time granted on top of it, or the largest time that can be told if
/// their sum cannot. A process without a wall time limit is never killed for
/// its running time.
pub open spec fn deadline_of(limits: ExecutionLimits, extra_time: u64) -> Option<u64> {
    match limits.wall_time {
        Some(limit) => Some(
            if limit + extra_time > u64::MAX {
                u64::MAX
            } else {
                (limit + extra_time) as u64
            },
        ),
        None => None,
    }
}

/// The running time after which a process is killed.
pub fn kill_deadline(limits: &ExecutionLimits, extra_time: u64) -> (deadline: Option<u64>)
    ensures
        deadline == deadline_of(*limits, extra_time),
{
    match limits.wall_time {
        Some(limit) => Some(limit.saturating_add(extra_time)),
        None => None,
    }
}

/// Whether a process that has run for `elapsed` is to be killed: it has run
/// for longer than its wall time limit and the time granted on top of it.
pub fn must_kill(limits: &ExecutionLimits, extra_time: u64, elapsed: u64) -> (kill: bool)
    ensures
        kill == (deadline_of(*limits, extra_time) matches Some(deadline) && elapsed > deadline),
{
    match kill_deadline(limits, extra_time) {
        Some(deadline) => elapsed > deadline,
        None => false,
    }
}

/// No process outruns its wall time limit unnoticed: a process with a wall
/// time limit is killed once it has run for longer than the limit and the
/// time granted on top of it; and whatever ran for longer than the limit is
/// told that it exceeded a time limit, whatever its exit status and whatever
/// signal stopped it.
pub proof fn law_overrun_is_killed_and_told(
    limits: ExecutionLimits,
    extra_time: u64,
    exit_status: u32,
    signal: Option<(u32, Seq<char>)>,
    resources: ExecutionResourcesUsage,
)
    requires
        limits.wall_time matches Some(limit) && resources.wall_time > limit + extra_time,
    ensures
        deadline_of(limits, extra_time) matches Some(deadline) && resources.wall_time > deadline,
        status_of(limits, exit_status, signal, resources) is TimeLimitExceeded || status_of(
            limits,
            exit_status,
            signal,
            resources,
        ) is SysTimeLimitExceeded || status_of(limits, exit_status, signal, resources)
            is WallTimeLimitExceeded,
{
}

} // verus!
