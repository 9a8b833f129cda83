//! Executions: one process invocation each, with its inputs, outputs and limits,
//! and the result that running it yields.

use vstd::prelude::*;
use crate::dag::file::{fresh_uuid, ExecutionGroupUuid, ExecutionUuid, File, FileUuid};
use crate::search::{first_position, lemma_first_position_is};

verus! {

/// Scheduling priority: a ready execution with a larger value goes first.
pub type Priority = i64;

/// How an execution ended.
#[derive(Debug, PartialEq, Eq)]
pub enum ExecutionStatus {
    /// The process exited with status zero within its limits.
    Success,
    /// The process exited with this nonzero status.
    ReturnCode(u32),
    /// The process was stopped by this signal; the second field is its name.
    Signal(u32, String),
    /// The process used more CPU time than allowed.
    TimeLimitExceeded,
    /// The process used more system time than allowed.
    SysTimeLimitExceeded,
    /// The process ran for longer than allowed.
    WallTimeLimitExceeded,
    /// The process used more memory than allowed.
    MemoryLimitExceeded,
    /// The sandbox could not run the process.
    InternalError(String),
}

/// Mathematical value of an [`ExecutionStatus`].
pub enum ExecutionStatusView {
    Success,
    ReturnCode(u32),
    Signal(u32, Seq<char>),
    TimeLimitExceeded,
    SysTimeLimitExceeded,
    WallTimeLimitExceeded,
    MemoryLimitExceeded,
    InternalError(Seq<char>),
}

impl View for ExecutionStatus {
    type V = ExecutionStatusView;

    open spec fn view(&self) -> ExecutionStatusView {
        match *self {
            ExecutionStatus::Success => ExecutionStatusView::Success,
            ExecutionStatus::ReturnCode(code) => ExecutionStatusView::ReturnCode(code),
            ExecutionStatus::Signal(signal, name) => ExecutionStatusView::Signal(signal, name@),
            ExecutionStatus::TimeLimitExceeded => ExecutionStatusView::TimeLimitExceeded,
            ExecutionStatus::SysTimeLimitExceeded => ExecutionStatusView::SysTimeLimitExceeded,
            ExecutionStatus::WallTimeLimitExceeded => ExecutionStatusView::WallTimeLimitExceeded,
            ExecutionStatus::MemoryLimitExceeded => ExecutionStatusView::MemoryLimitExceeded,
            ExecutionStatus::InternalError(message) => ExecutionStatusView::InternalError(message@),
        }
    }
}

impl ExecutionStatus {
    /// Whether the process ended well.
    pub fn is_success(&self) -> (ok: bool)
        ensures
            ok == (self@ is Success),
    {
        match self {
            ExecutionStatus::Success => true,
            _ => false,
        }
    }

    /// Whether the sandbox itself failed, not the process.
    pub fn is_internal_error(&self) -> (internal: bool)
        ensures
            internal == (self@ is InternalError),
    {
        match self {
            ExecutionStatus::InternalError(_) => true,
            _ => false,
        }
    }
}

impl Clone for ExecutionStatus {
    fn clone(&self) -> (status: ExecutionStatus)
        ensures
            status == *self,
    {
        match self {
            ExecutionStatus::Success => ExecutionStatus::Success,
            ExecutionStatus::ReturnCode(code) => ExecutionStatus::ReturnCode(*code),
            ExecutionStatus::Signal(signal, name) => ExecutionStatus::Signal(*signal, name.clone()),
            ExecutionStatus::TimeLimitExceeded => ExecutionStatus::TimeLimitExceeded,
            ExecutionStatus::SysTimeLimitExceeded => ExecutionStatus::SysTimeLimitExceeded,
            ExecutionStatus::WallTimeLimitExceeded => ExecutionStatus::WallTimeLimitExceeded,
            ExecutionStatus::MemoryLimitExceeded => ExecutionStatus::MemoryLimitExceeded,
            ExecutionStatus::InternalError(message) => ExecutionStatus::InternalError(
                message.clone(),
            ),
        }
    }
}

/// What a process used. Times are in microseconds, memory in KiB.
#[derive(Debug, Clone, Copy, PartialEq, Eq, Structural)]
pub struct ExecutionResourcesUsage {
    /// CPU time spent in user mode.
    pub cpu_time: u64,
    /// CPU time spent in kernel mode.
    pub sys_time: u64,
    /// Time elapsed from start to end.
    pub wall_time: u64,
    /// Peak memory.
    pub memory: u64,
}

impl ExecutionResourcesUsage {
    /// The usage of a process that never ran.
    pub open spec fn spec_zero() -> ExecutionResourcesUsage {
        ExecutionResourcesUsage { cpu_time: 0, sys_time: 0, wall_time: 0, memory: 0 }
    }

    /// The usage of a process that never ran.
    #[verifier::when_used_as_spec(spec_zero)]
    pub fn zero() -> (usage: ExecutionResourcesUsage)
        ensures
            usage == Self::spec_zero(),
    {
        ExecutionResourcesUsage { cpu_time: 0, sys_time: 0, wall_time: 0, memory: 0 }
    }
}

/// The limits a process runs under. `None` means unlimited. Times are in
/// microseconds, sizes in KiB.
#[derive(Debug, Clone, Copy, PartialEq, Eq, Structural)]
pub struct ExecutionLimits {
    /// Limit on the user CPU time.
    pub cpu_time: Option<u64>,
    /// Limit on the kernel CPU time.
    pub sys_time: Option<u64>,
    /// Limit on the elapsed time.
    pub wall_time: Option<u64>,
    /// Limit on the memory.
    pub memory: Option<u64>,
    /// Limit on the number of processes.
    pub nproc: Option<u32>,
    /// Limit on the number of open files.
    pub nofile: Option<u32>,
    /// Limit on the size of the files written.
    pub fsize: Option<u64>,
    /// Whether the sandbox's root is read-only.
    pub read_only: bool,
    /// Whether a scratch file system is mounted in the sandbox.
    pub mount_tmpfs: bool,
}

impl ExecutionLimits {
    /// The limits of a new execution: one process, a read-only root, nothing else limited.
    pub open spec fn spec_default() -> ExecutionLimits {
        ExecutionLimits {
            cpu_time: None,
            sys_time: None,
            wall_time: None,
            memory: None,
            nproc: Some(1u32),
            nofile: None,
            fsize: None,
            read_only: true,
            mount_tmpfs: false,
        }
    }

    /// The limits of a new execution.
    pub fn new() -> (limits: ExecutionLimits)
        ensures
            limits == Self::spec_default(),
    {
        ExecutionLimits {
            cpu_time: None,
            sys_time: None,
            wall_time: None,
            memory: None,
            nproc: Some(1),
            nofile: None,
            fsize: None,
            read_only: true,
            mount_tmpfs: false,
        }
    }

    /// Sets whether the sandbox's root is read-only.
    pub fn read_only(&mut self, read_only: bool)
        ensures
            *final(self) == (ExecutionLimits { read_only, ..*old(self) }),
    {
        self.read_only = read_only;
    }

    /// Sets whether a scratch file system is mounted.
    pub fn mount_tmpfs(&mut self, mount_tmpfs: bool)
        ensures
            *final(self) == (ExecutionLimits { mount_tmpfs, ..*old(self) }),
    {
        self.mount_tmpfs = mount_tmpfs;
    }
}

/// The status that a finished process gets: a limit that was exceeded wins over
/// the signal (the sandbox kills a process that exceeds one), the signal over
/// the exit status. The limits are looked at in the order CPU time, system
/// time, wall time, memory.
pub open spec fn status_of(
    limits: ExecutionLimits,
    exit_status: u32,
    signal: Option<(u32, Seq<char>)>,
    resources: ExecutionResourcesUsage,
) -> ExecutionStatusView {
    if limits.cpu_time is Some && resources.cpu_time > limits.cpu_time->0 {
        ExecutionStatusView::TimeLimitExceeded
    } else if limits.sys_time is Some && resources.sys_time > limits.sys_time->0 {
        ExecutionStatusView::SysTimeLimitExceeded
    } else if limits.wall_time is Some && resources.wall_time > limits.wall_time->0 {
        ExecutionStatusView::WallTimeLimitExceeded
    } else if limits.memory is Some && resources.memory > limits.memory->0 {
        ExecutionStatusView::MemoryLimitExceeded
    } else {
        match signal {
            Some((number, name)) => ExecutionStatusView::Signal(number, name),
            None => if exit_status != 0 {
                ExecutionStatusView::ReturnCode(exit_status)
            } else {
                ExecutionStatusView::Success
            },
        }
    }
}

/// A process that ran past its wall time limit is told so: where its use of
/// the processor stayed within its limits, its status is that the wall time
/// limit was exceeded, whatever its exit status, whatever signal stopped it
/// and however much memory it used.
pub proof fn law_wall_time_limit(
    limits: ExecutionLimits,
    exit_status: u32,
    signal: Option<(u32, Seq<char>)>,
    resources: ExecutionResourcesUsage,
)
    requires
        limits.wall_time matches Some(limit) && resources.wall_time > limit,
        limits.cpu_time matches Some(limit) ==> resources.cpu_time <= limit,
        limits.sys_time matches Some(limit) ==> resources.sys_time <= limit,
    ensures
        status_of(limits, exit_status, signal, resources)
            == ExecutionStatusView::WallTimeLimitExceeded,
{
}

/// A process is successful only within its limits: where the status is a
/// success, the process exited with status zero, no signal stopped it, and it
/// exceeded none of its limits.
pub proof fn law_success_is_within_limits(
    limits: ExecutionLimits,
    exit_status: u32,
    signal: Option<(u32, Seq<char>)>,
    resources: ExecutionResourcesUsage,
)
    requires
        status_of(limits, exit_status, signal, resources) == ExecutionStatusView::Success,
    ensures
        exit_status == 0,
        signal is None,
        limits.cpu_time matches Some(limit) ==> resources.cpu_time <= limit,
        limits.sys_time matches Some(limit) ==> resources.sys_time <= limit,
        limits.wall_time matches Some(limit) ==> resources.wall_time <= limit,
        limits.memory matches Some(limit) ==> resources.memory <= limit,
{
}

/// The result of one execution.
#[derive(Debug, PartialEq, Eq)]
pub struct ExecutionResult {
    /// How the process ended.
    pub status: ExecutionStatus,
    /// Whether the sandbox had to kill the process.
    pub was_killed: bool,
    /// Whether this result was taken from the cache instead of running the process.
    pub was_cached: bool,
    /// What the process used.
    pub resources: ExecutionResourcesUsage,
    /// The start of the standard output, if it was asked for.
    pub stdout: Option<Vec<u8>>,
    /// The start of the standard error, if it was asked for.
    pub stderr: Option<Vec<u8>>,
}

/// Mathematical value of an [`ExecutionResult`].
pub struct ExecutionResultView {
    pub status: ExecutionStatusView,
    pub was_killed: bool,
    pub was_cached: bool,
    pub resources: ExecutionResourcesUsage,
    pub stdout: Option<Seq<u8>>,
    pub stderr: Option<Seq<u8>>,
}

/// The content of a captured stream.
pub open spec fn stream_view(stream: Option<Vec<u8>>) -> Option<Seq<u8>> {
    match stream {
        Some(bytes) => Some(bytes@),
        None => None,
    }
}

impl View for ExecutionResult {
    type V = ExecutionResultView;

    open spec fn view(&self) -> ExecutionResultView {
        ExecutionResultView {
            status: self.status@,
            was_killed: self.was_killed,
            was_cached: self.was_cached,
            resources: self.resources,
            stdout: stream_view(self.stdout),
            stderr: stream_view(self.stderr),
        }
    }
}

/// Copies a captured stream.
pub fn clone_stream(stream: &Option<Vec<u8>>) -> (copy: Option<Vec<u8>>)
    ensures
        stream_view(copy) == stream_view(*stream),
{
    match stream {
        Some(bytes) => {
            let copy = bytes.clone();
            assert(copy@ =~= bytes@);
            Some(copy)
        },
        None => None,
    }
}

impl Clone for ExecutionResult {
    fn clone(&self) -> (result: ExecutionResult)
        ensures
            result@ == self@,
    {
        ExecutionResult {
            status: self.status.clone(),
            was_killed: self.was_killed,
            was_cached: self.was_cached,
            resources: self.resources,
            stdout: clone_stream(&self.stdout),
            stderr: clone_stream(&self.stderr),
        }
    }
}

impl ExecutionResult {
    /// The same result, marked as taken from the cache.
    pub fn cached(&self) -> (result: ExecutionResult)
        ensures
            result@ == (ExecutionResultView { was_cached: true, ..self@ }),
    {
        let mut result = self.clone();
        result.was_cached = true;
        result
    }

    /// The result of an execution that the sandbox could not run.
    pub fn internal_error(message: String) -> (result: ExecutionResult)
        ensures
            result.status == ExecutionStatus::InternalError(message),
            !result.was_killed,
            !result.was_cached,
            result.resources == ExecutionResourcesUsage::zero(),
            result.stdout is None,
            result.stderr is None,
    {
        ExecutionResult {
            status: ExecutionStatus::InternalError(message),
            was_killed: false,
            was_cached: false,
            resources: ExecutionResourcesUsage::zero(),
            stdout: None,
            stderr: None,
        }
    }
}

/// The program that an execution runs.
#[derive(Debug, PartialEq, Eq)]
pub enum ExecutionCommand {
    /// A program found in the system's search path.
    System(String),
    /// A program at this path inside the sandbox.
    Local(String),
}

impl Clone for ExecutionCommand {
    fn clone(&self) -> (command: ExecutionCommand)
        ensures
            command == *self,
    {
        match self {
            ExecutionCommand::System(name) => ExecutionCommand::System(name.clone()),
            ExecutionCommand::Local(path) => ExecutionCommand::Local(path.clone()),
        }
    }
}

/// A label on an execution; the cache policy is chosen by it.
#[derive(Debug, PartialEq, Eq)]
pub struct ExecutionTag {
    /// The label.
    pub name: String,
}

impl ExecutionTag {
    /// The tag with this label.
    pub fn from(name: &str) -> (tag: ExecutionTag)
        ensures
            tag.name@ == name@,
    {
        ExecutionTag { name: name.to_owned() }
    }
}

impl Clone for ExecutionTag {
    fn clone(&self) -> (tag: ExecutionTag)
        ensures
            tag == *self,
    {
        ExecutionTag { name: self.name.clone() }
    }
}

/// A file that an execution reads, and where the sandbox shows it.
#[derive(Debug, Clone, PartialEq, Eq)]
pub struct ExecutionInput {
    /// Path of the file inside the sandbox.
    pub path: String,
    /// The file.
    pub file: FileUuid,
    /// Whether the file is executable in the sandbox.
    pub executable: bool,
}

/// A file that an execution writes, and where the sandbox finds it.
#[derive(Debug, Clone, PartialEq, Eq)]
pub struct ExecutionOutput {
    /// Path of the file inside the sandbox.
    pub path: String,
    /// The file.
    pub file: File,
}

/// One process invocation.
#[derive(Debug, Clone, PartialEq, Eq)]
pub struct Execution {
    /// Identifier of the execution.
    pub uuid: ExecutionUuid,
    /// What the execution is, for humans.
    pub description: String,
    /// The program to run.
    pub command: ExecutionCommand,
    /// Its arguments.
    pub args: Vec<String>,
    /// The file sent to the standard input.
    pub stdin: Option<FileUuid>,
    /// The file that receives the standard output.
    pub stdout: Option<File>,
    /// The file that receives the standard error.
    pub stderr: Option<File>,
    /// The files placed in the sandbox, each path at most once.
    pub inputs: Vec<ExecutionInput>,
    /// The files collected from the sandbox, each path at most once.
    pub outputs: Vec<ExecutionOutput>,
    /// The limits on the process.
    pub limits: ExecutionLimits,
    /// The label of the execution.
    pub tag: Option<ExecutionTag>,
    /// The scheduling priority.
    pub priority: Priority,
    /// How many bytes of the standard output to report with the result.
    pub capture_stdout: Option<usize>,
    /// How many bytes of the standard error to report with the result.
    pub capture_stderr: Option<usize>,
}

/// The files of these inputs, in order.
pub open spec fn input_files(inputs: Seq<ExecutionInput>) -> Seq<FileUuid> {
    inputs.map_values(|input: ExecutionInput| input.file)
}

/// The files of these outputs, in order.
pub open spec fn output_files(outputs: Seq<ExecutionOutput>) -> Seq<FileUuid> {
    outputs.map_values(|output: ExecutionOutput| output.file.uuid)
}

/// The file of an optional handle, as a sequence of zero or one element.
pub open spec fn optional_file(file: Option<File>) -> Seq<FileUuid> {
    match file {
        Some(file) => seq![file.uuid],
        None => seq![],
    }
}

/// An optional identifier, as a sequence of zero or one element.
pub open spec fn optional_uuid(file: Option<FileUuid>) -> Seq<FileUuid> {
    match file {
        Some(uuid) => seq![uuid],
        None => seq![],
    }
}

/// Whether `i` is the position of the first input with this path.
pub open spec fn is_first_with_path(inputs: Seq<ExecutionInput>, path: Seq<char>, i: int) -> bool {
    &&& 0 <= i < inputs.len()
    &&& inputs[i].path@ == path
    &&& forall|j: int| 0 <= j < i ==> inputs[j].path@ != path
}

/// The paths of these inputs, in order.
pub open spec fn input_paths(inputs: Seq<ExecutionInput>) -> Seq<Seq<char>> {
    inputs.map_values(|input: ExecutionInput| input.path@)
}

/// The inputs once `input` is placed: in place of the first input at its
/// path, or as a new last input.
pub open spec fn with_input(inputs: Seq<ExecutionInput>, input: ExecutionInput) -> Seq<
    ExecutionInput,
> {
    let p = first_position(input_paths(inputs), input.path@);
    if p < inputs.len() {
        inputs.update(p, input)
    } else {
        inputs.push(input)
    }
}

/// Whether one of the inputs has this path.
pub open spec fn has_path(inputs: Seq<ExecutionInput>, path: Seq<char>) -> bool {
    exists|i: int| 0 <= i < inputs.len() && inputs[i].path@ == path
}

/// The number and the name of a signal.
pub open spec fn signal_view(signal: Option<(u32, String)>) -> Option<(u32, Seq<char>)> {
    match signal {
        Some((number, name)) => Some((number, name@)),
        None => None,
    }
}

/// The text `Stdout of '<description>'`.
pub open spec fn stdout_description(description: Seq<char>) -> Seq<char> {
    "Stdout of '"@ + description + "'"@
}

/// The text `Stderr of '<description>'`.
pub open spec fn stderr_description(description: Seq<char>) -> Seq<char> {
    "Stderr of '"@ + description + "'"@
}

/// The text `Output of '<description>' at <path>`.
pub open spec fn output_description(description: Seq<char>, path: Seq<char>) -> Seq<char> {
    "Output of '"@ + description + "' at "@ + path
}

impl Execution {
    /// The files that must be ready before the execution can start: the
    /// standard input, then the inputs in the order they were added.
    pub open spec fn spec_dependencies(&self) -> Seq<FileUuid> {
        optional_uuid(self.stdin) + input_files(self.inputs@)
    }

    /// The files that the execution produces: the standard output, the
    /// standard error, then the outputs in the order they were added.
    pub open spec fn spec_outputs(&self) -> Seq<FileUuid> {
        optional_file(self.stdout) + optional_file(self.stderr) + output_files(self.outputs@)
    }

    /// A new execution of `command` with a new identifier: no argument, input
    /// or output, default limits, priority zero.
    pub fn new(description: &str, command: ExecutionCommand) -> (execution: Execution)
        ensures
            execution.description@ == description@,
            execution.command == command,
            execution.args@.len() == 0,
            execution.stdin is None,
            execution.stdout is None,
            execution.stderr is None,
            execution.inputs@.len() == 0,
            execution.outputs@.len() == 0,
            execution.limits == ExecutionLimits::spec_default(),
            execution.tag is None,
            execution.priority == 0,
            execution.capture_stdout is None,
            execution.capture_stderr is None,
    {
        Execution {
            uuid: fresh_uuid(),
            description: description.to_owned(),
            command,
            args: Vec::new(),
            stdin: None,
            stdout: None,
            stderr: None,
            inputs: Vec::new(),
            outputs: Vec::new(),
            limits: ExecutionLimits::new(),
            tag: None,
            priority: 0,
            capture_stdout: None,
            capture_stderr: None,
        }
    }

    /// Replaces the arguments.
    pub fn args(&mut self, args: Vec<String>)
        ensures
            *final(self) == (Execution { args, ..*old(self) }),
    {
        self.args = args;
    }

    /// Sends `file` to the standard input.
    pub fn stdin(&mut self, file: &File)
        ensures
            *final(self) == (Execution { stdin: Some(file.uuid), ..*old(self) }),
    {
        self.stdin = Some(file.uuid);
    }

    /// The file that receives the standard output; it is made on the first call.
    pub fn stdout(&mut self) -> (file: File)
        ensures
            final(self).stdout == Some(file),
            old(self).stdout is Some ==> *final(self) == *old(self),
            old(self).stdout is None ==> file.description@ == stdout_description(
                old(self).description@,
            ) && *final(self) == (Execution { stdout: Some(file), ..*old(self) }),
    {
        if self.stdout.is_none() {
            let description = String::from_str("Stdout of '").concat(
                self.description.as_str(),
            ).concat("'");
            self.stdout = Some(File::new(description.as_str()));
        }
        match &self.stdout {
            Some(file) => file.clone(),
            None => File::new(""),
        }
    }

    /// The file that receives the standard error; it is made on the first call.
    pub fn stderr(&mut self) -> (file: File)
        ensures
            final(self).stderr == Some(file),
            old(self).stderr is Some ==> *final(self) == *old(self),
            old(self).stderr is None ==> file.description@ == stderr_description(
                old(self).description@,
            ) && *final(self) == (Execution { stderr: Some(file), ..*old(self) }),
    {
        if self.stderr.is_none() {
            let description = String::from_str("Stderr of '").concat(
                self.description.as_str(),
            ).concat("'");
            self.stderr = Some(File::new(description.as_str()));
        }
        match &self.stderr {
            Some(file) => file.clone(),
            None => File::new(""),
        }
    }

    /// Collects the file at `path` in the sandbox when the process has ended,
    /// and returns its handle. The output comes last.
    pub fn output(&mut self, path: String) -> (file: File)
        ensures
            *final(self) == (Execution { outputs: final(self).outputs, ..*old(self) }),
            final(self).outputs@ == old(self).outputs@.push(ExecutionOutput { path, file }),
            file.description@ == output_description(old(self).description@, path@),
    {
        let description = String::from_str("Output of '").concat(
            self.description.as_str(),
        ).concat("' at ").concat(path.as_str());
        let file = File::new(description.as_str());
        self.outputs.push(ExecutionOutput { path, file: file.clone() });
        file
    }

    /// Labels the execution.
    pub fn tag(&mut self, tag: ExecutionTag)
        ensures
            *final(self) == (Execution { tag: Some(tag), ..*old(self) }),
    {
        self.tag = Some(tag);
    }

    /// Sets the scheduling priority.
    pub fn priority(&mut self, priority: Priority)
        ensures
            *final(self) == (Execution { priority, ..*old(self) }),
    {
        self.priority = priority;
    }

    /// Asks for the first `limit` bytes of the standard output with the result.
    pub fn capture_stdout(&mut self, limit: usize)
        ensures
            *final(self) == (Execution { capture_stdout: Some(limit), ..*old(self) }),
    {
        self.capture_stdout = Some(limit);
    }

    /// Asks for the first `limit` bytes of the standard error with the result.
    pub fn capture_stderr(&mut self, limit: usize)
        ensures
            *final(self) == (Execution { capture_stderr: Some(limit), ..*old(self) }),
    {
        self.capture_stderr = Some(limit);
    }

    /// The files that must be ready before the execution can start.
    pub fn dependencies(&self) -> (files: Vec<FileUuid>)
        ensures
            files@ == self.spec_dependencies(),
    {
        let mut files: Vec<FileUuid> = Vec::new();
        if let Some(stdin) = self.stdin {
            files.push(stdin);
        }
        let mut i: usize = 0;
        while i < self.inputs.len()
            invariant
                i <= self.inputs@.len(),
                files@ == optional_uuid(self.stdin) + input_files(self.inputs@.take(i as int)),
            decreases self.inputs@.len() - i,
        {
            files.push(self.inputs[i].file);
            assert(self.inputs@.take(i + 1) == self.inputs@.take(i as int).push(
                self.inputs@[i as int],
            ));
            assert(input_files(self.inputs@.take(i + 1)) == input_files(
                self.inputs@.take(i as int),
            ).push(self.inputs@[i as int].file));
            i += 1;
        }
        assert(self.inputs@.take(i as int) == self.inputs@);
        files
    }

    /// The files that the execution produces.
    pub fn outputs(&self) -> (files: Vec<FileUuid>)
        ensures
            files@ == self.spec_outputs(),
    {
        let mut files: Vec<FileUuid> = Vec::new();
        if let Some(stdout) = &self.stdout {
            files.push(stdout.uuid);
        }
        if let Some(stderr) = &self.stderr {
            files.push(stderr.uuid);
        }
        let mut i: usize = 0;
        while i < self.outputs.len()
            invariant
                i <= self.outputs@.len(),
                files@ == optional_file(self.stdout) + optional_file(self.stderr) + output_files(
                    self.outputs@.take(i as int),
                ),
            decreases self.outputs@.len() - i,
        {
            files.push(self.outputs[i].file.uuid);
            assert(self.outputs@.take(i + 1) == self.outputs@.take(i as int).push(
                self.outputs@[i as int],
            ));
            assert(output_files(self.outputs@.take(i + 1)) == output_files(
                self.outputs@.take(i as int),
            ).push(self.outputs@[i as int].file.uuid));
            i += 1;
        }
        assert(self.outputs@.take(i as int) == self.outputs@);
        files
    }

    /// The status of the process once it has ended with `exit_status`, or was
    /// stopped by `signal`, having used `resources`.
    pub fn status(
        &self,
        exit_status: u32,
        signal: Option<(u32, String)>,
        resources: &ExecutionResourcesUsage,
    ) -> (status: ExecutionStatus)
        ensures
            status@ == status_of(self.limits, exit_status, signal_view(signal), *resources),
    {
        if let Some(limit) = self.limits.cpu_time {
            if resources.cpu_time > limit {
                return ExecutionStatus::TimeLimitExceeded;
            }
        }
        if let Some(limit) = self.limits.sys_time {
            if resources.sys_time > limit {
                return ExecutionStatus::SysTimeLimitExceeded;
            }
        }
        if let Some(limit) = self.limits.wall_time {
            if resources.wall_time > limit {
                return ExecutionStatus::WallTimeLimitExceeded;
            }
        }
        if let Some(limit) = self.limits.memory {
            if resources.memory > limit {
                return ExecutionStatus::MemoryLimitExceeded;
            }
        }
        match signal {
            Some((number, name)) => ExecutionStatus::Signal(number, name),
            None => if exit_status != 0 {
                ExecutionStatus::ReturnCode(exit_status)
            } else {
                ExecutionStatus::Success
            },
        }
    }

    /// Where the first input with this path stands.
    pub fn find_input(&self, path: &String) -> (found: Option<usize>)
        ensures
            match found {
                Some(i) => is_first_with_path(self.inputs@, path@, i as int),
                None => !has_path(self.inputs@, path@) && forall|j: int|
                    0 <= j < self.inputs@.len() ==> self.inputs@[j].path@ != path@,
            },
    {
        let mut i: usize = 0;
        while i < self.inputs.len()
            invariant
                i <= self.inputs@.len(),
                forall|j: int| 0 <= j < i ==> self.inputs@[j].path@ != path@,
            decreases self.inputs@.len() - i,
        {
            if self.inputs[i].path == *path {
                return Some(i);
            }
            i += 1;
        }
        None
    }

    /// Places `file` at `path` in the sandbox. It takes the place of the first
    /// input already at that path, or comes last.
    pub fn input(&mut self, file: &File, path: String, executable: bool)
        ensures
            *final(self) == (Execution { inputs: final(self).inputs, ..*old(self) }),
            final(self).inputs@ == with_input(
                old(self).inputs@,
                ExecutionInput { path, file: file.uuid, executable },
            ),
    {
        let ghost paths = input_paths(self.inputs@);
        match self.find_input(&path) {
            Some(i) => {
                proof {
                    lemma_first_position_is(paths, path@, i as int);
                }
                self.inputs[i] = ExecutionInput { path, file: file.uuid, executable };
            },
            None => {
                proof {
                    assert forall|j: int| 0 <= j < paths.len() implies paths[j] != path@ by {
                        assert(self.inputs@[j].path@ != path@);
                    }
                    lemma_first_position_is(paths, path@, paths.len() as int);
                }
                self.inputs.push(ExecutionInput { path, file: file.uuid, executable });
            },
        }
    }
}

/// A named pipe shared by the executions of a group.
#[derive(Debug, Clone, Copy, PartialEq, Eq, Structural)]
pub struct Fifo {
    /// Identifier of the pipe.
    pub uuid: u128,
}

/// Executions that run together, in one job, and may talk through pipes.
#[derive(Debug, Clone, PartialEq, Eq)]
pub struct ExecutionGroup {
    /// Identifier of the group.
    pub uuid: ExecutionGroupUuid,
    /// What the group is, for humans.
    pub description: String,
    /// The members, in the order they were added.
    pub executions: Vec<Execution>,
    /// The pipes of the group.
    pub fifo: Vec<Fifo>,
}

/// The files that these executions wait for, member after member.
pub open spec fn dependencies_of(executions: Seq<Execution>) -> Seq<FileUuid>
    decreases executions.len(),
{
    if executions.len() == 0 {
        seq![]
    } else {
        dependencies_of(executions.drop_last()) + executions.last().spec_dependencies()
    }
}

/// The files that these executions produce, member after member.
pub open spec fn outputs_of(executions: Seq<Execution>) -> Seq<FileUuid>
    decreases executions.len(),
{
    if executions.len() == 0 {
        seq![]
    } else {
        outputs_of(executions.drop_last()) + executions.last().spec_outputs()
    }
}

/// The largest priority among these executions; zero if there is none.
pub open spec fn priority_of(executions: Seq<Execution>) -> Priority
    decreases executions.len(),
{
    if executions.len() == 0 {
        0
    } else if executions.len() == 1 {
        executions[0].priority
    } else {
        let rest = priority_of(executions.drop_last());
        if executions.last().priority > rest {
            executions.last().priority
        } else {
            rest
        }
    }
}

impl ExecutionGroup {
    /// A new group with a new identifier and no member.
    pub fn new(description: &str) -> (group: ExecutionGroup)
        ensures
            group.description@ == description@,
            group.executions@.len() == 0,
            group.fifo@.len() == 0,
    {
        ExecutionGroup {
            uuid: fresh_uuid(),
            description: description.to_owned(),
            executions: Vec::new(),
            fifo: Vec::new(),
        }
    }

    /// The group of one execution, under the execution's description.
    pub fn single(execution: Execution) -> (group: ExecutionGroup)
        ensures
            group.description == execution.description,
            group.executions@ == seq![execution],
            group.fifo@.len() == 0,
    {
        let description = execution.description.clone();
        let mut executions: Vec<Execution> = Vec::new();
        executions.push(execution);
        ExecutionGroup { uuid: fresh_uuid(), description, executions, fifo: Vec::new() }
    }

    /// Adds a member; it comes last.
    pub fn add_execution(&mut self, execution: Execution)
        ensures
            *final(self) == (ExecutionGroup {
                executions: final(self).executions,
                ..*old(self)
            }),
            final(self).executions@ == old(self).executions@.push(execution),
    {
        self.executions.push(execution);
    }

    /// Adds a pipe with a new identifier and returns it.
    pub fn new_fifo(&mut self) -> (fifo: Fifo)
        ensures
            *final(self) == (ExecutionGroup { fifo: final(self).fifo, ..*old(self) }),
            final(self).fifo@ == old(self).fifo@.push(fifo),
    {
        let fifo = Fifo { uuid: fresh_uuid() };
        self.fifo.push(fifo);
        fifo
    }

    /// The files that must be ready before the group can start.
    pub fn dependencies(&self) -> (files: Vec<FileUuid>)
        ensures
            files@ == dependencies_of(self.executions@),
    {
        let mut files: Vec<FileUuid> = Vec::new();
        let mut i: usize = 0;
        while i < self.executions.len()
            invariant
                i <= self.executions@.len(),
                files@ == dependencies_of(self.executions@.take(i as int)),
            decreases self.executions@.len() - i,
        {
            let mut more = self.executions[i].dependencies();
            files.append(&mut more);
            assert(self.executions@.take(i + 1).drop_last() == self.executions@.take(i as int));
            i += 1;
        }
        assert(self.executions@.take(i as int) == self.executions@);
        files
    }

    /// The files that the group produces.
    pub fn outputs(&self) -> (files: Vec<FileUuid>)
        ensures
            files@ == outputs_of(self.executions@),
    {
        let mut files: Vec<FileUuid> = Vec::new();
        let mut i: usize = 0;
        while i < self.executions.len()
            invariant
                i <= self.executions@.len(),
                files@ == outputs_of(self.executions@.take(i as int)),
            decreases self.executions@.len() - i,
        {
            let mut more = self.executions[i].outputs();
            files.append(&mut more);
            assert(self.executions@.take(i + 1).drop_last() == self.executions@.take(i as int));
            i += 1;
        }
        assert(self.executions@.take(i as int) == self.executions@);
        files
    }

    /// The priority of the group: the largest among its members.
    pub fn priority(&self) -> (priority: Priority)
        ensures
            priority == priority_of(self.executions@),
    {
        if self.executions.len() == 0 {
            return 0;
        }
        let mut priority: Priority = self.executions[0].priority;
        assert(self.executions@.take(1).len() == 1);
        let mut i: usize = 1;
        while i < self.executions.len()
            invariant
                1 <= i <= self.executions@.len(),
                priority == priority_of(self.executions@.take(i as int)),
            decreases self.executions@.len() - i,
        {
            assert(self.executions@.take(i + 1).drop_last() == self.executions@.take(i as int));
            if self.executions[i].priority > priority {
                priority = self.executions[i].priority;
            }
            i += 1;
        }
        assert(self.executions@.take(i as int) == self.executions@);
        priority
    }
}

} // verus!
