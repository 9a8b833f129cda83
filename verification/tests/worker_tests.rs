use task_maker::dag::execution::{
    Execution, ExecutionCommand, ExecutionGroup, ExecutionResourcesUsage, ExecutionStatus,
};
use task_maker::dag::file::File;
use task_maker::exec::model::DependencyKey;
use task_maker::exec::proto::{WorkerClientMessage, WorkerJob, WorkerServerMessage};
use task_maker::exec::sandbox::{
    capture_stream, compute_execution_result, kill_deadline, must_kill, needs_stderr,
    needs_stdout, SandboxReport, SandboxResult,
};
use task_maker::exec::worker::{
    Phase, SandboxFile, SandboxPlan, Worker, WorkerAction, WorkerError,
};
use task_maker::store::{FileStore, FileStoreKey};

fn worker() -> Worker {
    Worker::new("tester", FileStore::new(1 << 30, 1 << 20), "/tmp/sandboxes").0
}

fn success(stdout: &[u8]) -> SandboxReport {
    SandboxReport {
        result: SandboxResult::Success {
            exit_status: 0,
            signal: None,
            resources: ExecutionResourcesUsage { cpu_time: 5, sys_time: 1, wall_time: 7, memory: 64 },
            was_killed: false,
        },
        stdout: Some(stdout.to_vec()),
        stderr: Some(Vec::new()),
        outputs: Vec::new(),
    }
}

fn failure(code: u32) -> SandboxReport {
    SandboxReport {
        result: SandboxResult::Success {
            exit_status: code,
            signal: None,
            resources: ExecutionResourcesUsage { cpu_time: 5, sys_time: 1, wall_time: 7, memory: 64 },
            was_killed: false,
        },
        stdout: None,
        stderr: None,
        outputs: Vec::new(),
    }
}

fn send(message: WorkerClientMessage) -> WorkerAction {
    WorkerAction::Send { message, content: None }
}

#[test]
fn a_new_worker_and_its_handle_share_name_and_identifier() {
    let (worker, conn) = Worker::new("w1", FileStore::new(10, 1), "/sandboxes");
    assert_eq!(worker.name(), "w1");
    assert_eq!(conn.name, "w1");
    assert_eq!(worker.uuid(), conn.uuid);
    assert_eq!(worker.current_phase(), Phase::Idle);
    assert!(worker.current_job().is_none());
    let other = Worker::new_with_channel("w2", FileStore::new(10, 1), "/sandboxes");
    assert_ne!(other.uuid(), worker.uuid());
}

#[test]
fn a_job_without_inputs_starts_at_once() {
    let mut worker = worker();
    let job = WorkerJob::new(ExecutionGroup::single(Execution::new("e", ExecutionCommand::System("true".to_string()))), vec![]);
    let actions = worker.work(WorkerServerMessage::Work(job), Vec::new()).unwrap();
    assert_eq!(actions, vec![WorkerAction::StartJob]);
    assert_eq!(worker.current_phase(), Phase::Running);
}

#[test]
fn a_second_job_is_refused_while_one_runs() {
    let mut worker = worker();
    let job = || WorkerJob::new(ExecutionGroup::single(Execution::new("e", ExecutionCommand::System("true".to_string()))), vec![]);
    worker.take_job(job()).unwrap();
    assert_eq!(worker.take_job(job()), Err(WorkerError::Busy));
    assert_eq!(worker.current_phase(), Phase::Running);
}

#[test]
fn a_job_without_a_key_for_an_input_is_refused() {
    let mut worker = worker();
    let input = File::new("input");
    let mut execution = Execution::new("e", ExecutionCommand::System("cat".to_string()));
    execution.input(&input, "in".to_string(), false);
    let job = WorkerJob::new(ExecutionGroup::single(execution), vec![]);
    assert_eq!(
        worker.take_job(job),
        Err(WorkerError::MissingDependencyKey { uuid: input.uuid })
    );
    assert_eq!(worker.current_phase(), Phase::Idle);
}

#[test]
fn missing_blobs_are_asked_for_once_and_the_job_starts_when_all_are_there() {
    let mut worker = worker();
    let (a, b, c) = (File::new("a"), File::new("b"), File::new("c"));
    let key_ab = FileStoreKey::from_content(b"same content");
    let key_c = FileStoreKey::from_content(b"other content");
    let mut execution = Execution::new("e", ExecutionCommand::System("cat".to_string()));
    execution.input(&a, "a".to_string(), false);
    execution.input(&b, "b".to_string(), false);
    execution.input(&c, "c".to_string(), false);
    let job = WorkerJob::new(
        ExecutionGroup::single(execution),
        vec![
            DependencyKey { file: a.uuid, key: key_ab },
            DependencyKey { file: b.uuid, key: key_ab },
            DependencyKey { file: c.uuid, key: key_c },
        ],
    );
    let actions = worker.take_job(job).unwrap();
    assert_eq!(
        actions,
        vec![send(WorkerClientMessage::AskFile(key_ab)), send(WorkerClientMessage::AskFile(key_c))]
    );
    assert_eq!(worker.current_phase(), Phase::Fetching);

    // a blob that was not asked for
    let stray = FileStoreKey::from_content(b"stray");
    assert_eq!(
        worker.take_file(stray, b"stray".to_vec()),
        Err(WorkerError::NotRequired { key: stray })
    );
    // a blob whose bytes do not have its key
    assert_eq!(
        worker.take_file(key_c, b"corrupted".to_vec()),
        Err(WorkerError::WrongContent { key: key_c })
    );
    assert_eq!(worker.current_phase(), Phase::Fetching);

    let actions = worker
        .work(WorkerServerMessage::ProvideFile(key_c), b"other content".to_vec())
        .unwrap();
    assert!(actions.is_empty());
    assert_eq!(worker.current_phase(), Phase::Fetching);
    let actions = worker.take_file(key_ab, b"same content".to_vec()).unwrap();
    assert_eq!(actions, vec![WorkerAction::StartJob]);
    assert_eq!(worker.current_phase(), Phase::Running);
    assert_eq!(worker.input_key(a.uuid), Some(key_ab));
    assert_eq!(worker.input_key(c.uuid), Some(key_c));
    assert_eq!(worker.file_store().get(&key_c), Some(&b"other content".to_vec()));
    assert_eq!(worker.file_store().get(&key_ab), Some(&b"same content".to_vec()));
}

#[test]
fn a_blob_that_is_there_is_not_asked_for() {
    let mut store = FileStore::new(1 << 20, 1 << 10);
    let key = store.put(b"here".to_vec());
    let (mut worker, _) = Worker::new("w", store, "/s");
    let input = File::new("input");
    let mut execution = Execution::new("e", ExecutionCommand::System("cat".to_string()));
    execution.stdin(&input);
    let job = WorkerJob::new(
        ExecutionGroup::single(execution),
        vec![DependencyKey { file: input.uuid, key }],
    );
    assert_eq!(worker.take_job(job).unwrap(), vec![WorkerAction::StartJob]);
}

#[test]
fn a_single_execution_is_reported_as_it_ran() {
    let mut worker = worker();
    let mut execution = Execution::new("e", ExecutionCommand::System("echo".to_string()));
    execution.capture_stdout(5);
    let stdout = execution.stdout();
    let out = execution.output("result.txt".to_string());
    let missing = execution.output("optional.txt".to_string());
    let direct = compute_execution_result(&execution, &SandboxReport { outputs: vec![Some(b"42".to_vec()), None], ..success(b"hello world") });
    let job = WorkerJob::new(ExecutionGroup::single(execution), vec![]);
    worker.take_job(job).unwrap();

    let report = SandboxReport { outputs: vec![Some(b"42".to_vec()), None], ..success(b"hello world") };
    let actions = worker.sandbox_done(0, report).unwrap();
    assert_eq!(actions.len(), 1);
    match &actions[0] {
        WorkerAction::Send { message: WorkerClientMessage::WorkerDone(results, outputs), content } => {
            assert!(content.is_none());
            assert_eq!(results.len(), 1);
            // the same as computing the result directly
            assert_eq!(results[0], direct);
            assert_eq!(results[0].status, ExecutionStatus::Success);
            assert_eq!(results[0].stdout, Some(b"hello".to_vec()));
            assert_eq!(results[0].stderr, None);
            assert!(!results[0].was_cached);
            assert_eq!(
                outputs,
                &vec![
                    DependencyKey { file: stdout.uuid, key: FileStoreKey::from_content(b"hello world") },
                    DependencyKey { file: out.uuid, key: FileStoreKey::from_content(b"42") },
                    // a declared output that is not there is taken as empty
                    DependencyKey { file: missing.uuid, key: FileStoreKey::from_content(b"") },
                ]
            );
        }
        other => panic!("unexpected action {:?}", other),
    }
    assert_eq!(worker.current_phase(), Phase::Reporting);

    // the scheduler asks for two of the files, and for one that is not known
    let actions = worker
        .work(WorkerServerMessage::AskFiles(vec![out.uuid, 12345, stdout.uuid]), Vec::new())
        .unwrap();
    assert_eq!(
        actions,
        vec![
            WorkerAction::Send {
                message: WorkerClientMessage::ProvideFile(out.uuid, FileStoreKey::from_content(b"42")),
                content: Some(b"42".to_vec()),
            },
            WorkerAction::Send {
                message: WorkerClientMessage::ProvideFile(stdout.uuid, FileStoreKey::from_content(b"hello world")),
                content: Some(b"hello world".to_vec()),
            },
            send(WorkerClientMessage::GetWork),
        ]
    );
    assert_eq!(worker.current_phase(), Phase::Idle);
    assert!(worker.current_job().is_none());
}

#[test]
fn a_failure_in_a_group_kills_the_members_that_still_run() {
    let mut worker = worker();
    let mut group = ExecutionGroup::new("three");
    for name in ["zero", "one", "two"] {
        group.add_execution(Execution::new(name, ExecutionCommand::System(name.to_string())));
    }
    group.new_fifo();
    let id = group.uuid;
    worker.take_job(WorkerJob::new(group, vec![])).unwrap();
    assert!(worker.needs_fifo_dir());

    // member two ends well: nobody is killed
    assert!(worker.sandbox_done(2, success(b"")).unwrap().is_empty());
    // member zero fails: member one, the only one still running, is killed
    assert_eq!(worker.sandbox_done(0, failure(3)).unwrap(), vec![WorkerAction::KillSandbox(1)]);
    // a member cannot report twice, nor one that is not there
    assert_eq!(worker.sandbox_done(0, failure(3)), Err(WorkerError::UnexpectedResult { index: 0 }));
    assert_eq!(worker.sandbox_done(3, failure(3)), Err(WorkerError::UnexpectedResult { index: 3 }));
    // asked to kill the job, every sandbox is killed
    assert_eq!(
        worker.kill_job(id),
        vec![WorkerAction::KillSandbox(0), WorkerAction::KillSandbox(1), WorkerAction::KillSandbox(2)]
    );
    assert!(worker.kill_job(id + 1).is_empty());

    let killed = SandboxReport {
        result: SandboxResult::Success {
            exit_status: 0,
            signal: Some((9, "SIGKILL".to_string())),
            resources: ExecutionResourcesUsage { cpu_time: 1, sys_time: 0, wall_time: 2, memory: 8 },
            was_killed: true,
        },
        stdout: None,
        stderr: None,
        outputs: Vec::new(),
    };
    let actions = worker.sandbox_done(1, killed).unwrap();
    assert_eq!(actions.len(), 1);
    match &actions[0] {
        WorkerAction::Send { message: WorkerClientMessage::WorkerDone(results, outputs), .. } => {
            assert!(outputs.is_empty());
            assert_eq!(results.len(), 3);
            assert_eq!(results[0].status, ExecutionStatus::ReturnCode(3));
            assert_eq!(results[1].status, ExecutionStatus::Signal(9, "SIGKILL".to_string()));
            assert!(results[1].was_killed);
            assert_eq!(results[2].status, ExecutionStatus::Success);
        }
        other => panic!("unexpected action {:?}", other),
    }
}

#[test]
fn a_sandbox_that_reports_without_a_job_is_refused() {
    let mut worker = worker();
    assert_eq!(worker.sandbox_done(0, success(b"")), Err(WorkerError::NoJob));
}

#[test]
fn a_request_for_files_without_a_report_is_dropped() {
    let mut worker = worker();
    assert!(worker.asked_files(vec![1, 2, 3]).is_empty());
    assert_eq!(worker.current_phase(), Phase::Idle);
}

#[test]
fn a_lost_connection_kills_the_sandboxes_and_ends_the_worker() {
    let mut worker = worker();
    assert_eq!(worker.disconnected(), vec![WorkerAction::Exit]);
    let mut group = ExecutionGroup::new("two");
    group.add_execution(Execution::new("a", ExecutionCommand::System("a".to_string())));
    group.add_execution(Execution::new("b", ExecutionCommand::System("b".to_string())));
    worker.take_job(WorkerJob::new(group, vec![])).unwrap();
    assert_eq!(
        worker.disconnected(),
        vec![WorkerAction::KillSandbox(0), WorkerAction::KillSandbox(1), WorkerAction::Exit]
    );
    assert_eq!(
        worker.work(WorkerServerMessage::Exit, Vec::new()).unwrap(),
        vec![WorkerAction::Exit]
    );
}

#[test]
fn a_job_without_members_is_over_at_once() {
    let mut worker = worker();
    let actions = worker
        .take_job(WorkerJob::new(ExecutionGroup::new("nobody"), vec![]))
        .unwrap();
    assert_eq!(actions, vec![send(WorkerClientMessage::WorkerDone(vec![], vec![]))]);
    assert_eq!(worker.current_phase(), Phase::Reporting);
}

#[test]
fn a_stream_is_captured_up_to_its_limit() {
    let content = Some(b"0123456789".to_vec());
    assert_eq!(capture_stream(&content, None), None);
    assert_eq!(capture_stream(&content, Some(0)), Some(Vec::new()));
    assert_eq!(capture_stream(&content, Some(4)), Some(b"0123".to_vec()));
    assert_eq!(capture_stream(&content, Some(10)), Some(b"0123456789".to_vec()));
    assert_eq!(capture_stream(&content, Some(1000)), Some(b"0123456789".to_vec()));
    assert_eq!(capture_stream(&None, Some(4)), Some(Vec::new()));
    assert_eq!(capture_stream(&None, None), None);
}

#[test]
fn a_stream_is_read_only_where_it_is_needed() {
    let mut execution = Execution::new("e", ExecutionCommand::System("e".to_string()));
    assert!(!needs_stdout(&execution));
    assert!(!needs_stderr(&execution));
    execution.capture_stderr(10);
    execution.stdout();
    assert!(needs_stdout(&execution));
    assert!(needs_stderr(&execution));
}

#[test]
fn a_sandbox_that_could_not_start_gives_an_internal_error() {
    let execution = Execution::new("e", ExecutionCommand::System("e".to_string()));
    let report = SandboxReport {
        result: SandboxResult::Failed { error: "cannot fork".to_string() },
        stdout: Some(b"ignored".to_vec()),
        stderr: None,
        outputs: Vec::new(),
    };
    let result = compute_execution_result(&execution, &report);
    assert_eq!(result.status, ExecutionStatus::InternalError("cannot fork".to_string()));
    assert_eq!(result.resources, ExecutionResourcesUsage::zero());
    assert_eq!(result.stdout, None);
    assert!(!result.was_killed);
    assert!(!result.was_cached);
}

#[test]
fn limits_decide_the_status_before_signals_and_exit_codes() {
    let mut execution = Execution::new("e", ExecutionCommand::System("e".to_string()));
    execution.limits.cpu_time = Some(1_000_000);
    execution.limits.sys_time = Some(500_000);
    execution.limits.wall_time = Some(2_000_000);
    execution.limits.memory = Some(1024);
    let usage = |cpu_time, sys_time, wall_time, memory| ExecutionResourcesUsage { cpu_time, sys_time, wall_time, memory };
    let killed = Some((9, "SIGKILL".to_string()));
    assert_eq!(execution.status(0, None, &usage(1_000_000, 500_000, 2_000_000, 1024)), ExecutionStatus::Success);
    assert_eq!(execution.status(3, None, &usage(1, 1, 1, 1)), ExecutionStatus::ReturnCode(3));
    assert_eq!(execution.status(0, killed.clone(), &usage(1, 1, 1, 1)), ExecutionStatus::Signal(9, "SIGKILL".to_string()));
    assert_eq!(execution.status(3, killed.clone(), &usage(1, 1, 1, 1)), ExecutionStatus::Signal(9, "SIGKILL".to_string()));
    // a process that ran past its wall time limit
    assert_eq!(execution.status(0, killed.clone(), &usage(10, 10, 2_000_001, 10)), ExecutionStatus::WallTimeLimitExceeded);
    assert_eq!(execution.status(1, None, &usage(1_000_001, 0, 0, 0)), ExecutionStatus::TimeLimitExceeded);
    assert_eq!(execution.status(1, None, &usage(0, 500_001, 0, 0)), ExecutionStatus::SysTimeLimitExceeded);
    assert_eq!(execution.status(1, None, &usage(0, 0, 0, 1025)), ExecutionStatus::MemoryLimitExceeded);
    // the time on the processor is looked at first
    assert_eq!(execution.status(0, None, &usage(2_000_000, 600_000, 3_000_000, 4096)), ExecutionStatus::TimeLimitExceeded);
    // without limits nothing is exceeded
    let free = Execution::new("free", ExecutionCommand::System("e".to_string()));
    assert_eq!(free.status(0, None, &usage(u64::MAX, u64::MAX, u64::MAX, u64::MAX)), ExecutionStatus::Success);
}

#[test]
fn a_process_is_killed_when_it_outruns_its_wall_time_and_the_extra_time() {
    let mut execution = Execution::new("e", ExecutionCommand::System("e".to_string()));
    assert_eq!(kill_deadline(&execution.limits, 500), None);
    assert!(!must_kill(&execution.limits, 500, u64::MAX));
    execution.limits.wall_time = Some(2_000_000);
    assert_eq!(kill_deadline(&execution.limits, 500_000), Some(2_500_000));
    assert!(!must_kill(&execution.limits, 500_000, 2_000_001));
    assert!(!must_kill(&execution.limits, 500_000, 2_500_000));
    assert!(must_kill(&execution.limits, 500_000, 2_500_001));
    assert_eq!(kill_deadline(&execution.limits, u64::MAX), Some(u64::MAX));
    // the process that was killed for it is told that it took too long
    let report = SandboxReport {
        result: SandboxResult::Success {
            exit_status: 0,
            signal: Some((9, "SIGKILL".to_string())),
            resources: ExecutionResourcesUsage { cpu_time: 10, sys_time: 10, wall_time: 2_500_001, memory: 1 },
            was_killed: true,
        },
        stdout: None,
        stderr: None,
        outputs: Vec::new(),
    };
    let result = compute_execution_result(&execution, &report);
    assert_eq!(result.status, ExecutionStatus::WallTimeLimitExceeded);
    assert!(result.was_killed);
}

#[test]
fn the_plan_of_a_sandbox_names_what_the_store_holds() {
    let mut store = FileStore::new(1 << 20, 1 << 10);
    let tool_key = store.put(b"#!/bin/sh".to_vec());
    let (mut worker, _) = Worker::new("w", store, "/s");
    assert_eq!(worker.sandbox_plan(0), None);
    let (input, tool) = (File::new("input"), File::new("tool"));
    let input_key = FileStoreKey::from_content(b"data");
    let mut first = Execution::new("first", ExecutionCommand::Local("tool".to_string()));
    first.stdin(&input);
    first.input(&tool, "tool".to_string(), true);
    first.input(&input, "copy.txt".to_string(), false);
    let second = Execution::new("second", ExecutionCommand::System("true".to_string()));
    let mut group = ExecutionGroup::new("pair");
    group.add_execution(first);
    group.add_execution(second);
    let job = WorkerJob::new(
        group,
        vec![
            DependencyKey { file: tool.uuid, key: tool_key },
            DependencyKey { file: input.uuid, key: input_key },
        ],
    );
    worker.take_job(job).unwrap();
    // while a blob is missing nothing is planned
    assert_eq!(worker.sandbox_plan(0), None);
    worker.take_file(input_key, b"data".to_vec()).unwrap();
    assert_eq!(
        worker.sandbox_plan(0),
        Some(SandboxPlan {
            stdin: Some(input_key),
            files: vec![
                SandboxFile { path: "tool".to_string(), key: tool_key, executable: true },
                SandboxFile { path: "copy.txt".to_string(), key: input_key, executable: false },
            ],
        })
    );
    assert_eq!(worker.sandbox_plan(1), Some(SandboxPlan { stdin: None, files: vec![] }));
    assert_eq!(worker.sandbox_plan(2), None);
}

#[test]
fn a_worker_first_asks_for_work() {
    let worker = worker();
    assert_eq!(worker.ready(), vec![send(WorkerClientMessage::GetWork)]);
    assert_eq!(worker.current_phase(), Phase::Idle);
}

#[test]
fn a_job_names_each_file_once_with_the_key_named_first() {
    let first = FileStoreKey::from_content(b"first");
    let second = FileStoreKey::from_content(b"second");
    let job = WorkerJob::new(
        ExecutionGroup::new("nobody"),
        vec![
            DependencyKey { file: 1, key: first },
            DependencyKey { file: 2, key: second },
            DependencyKey { file: 1, key: second },
        ],
    );
    assert_eq!(job.dep_keys.len(), 2);
    assert_eq!(job.find(1), Some(first));
    assert_eq!(job.find(2), Some(second));
    assert_eq!(job.find(3), None);
}
