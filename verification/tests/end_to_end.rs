use task_maker::cache::Cache;
use task_maker::dag::dag::{ExecutionDAG, ExecutionEvent};
use task_maker::dag::execution::{
    Execution, ExecutionResourcesUsage, ExecutionResult, ExecutionStatus,
};
use task_maker::exec::proto::{WorkerClientMessage, WorkerJob};
use task_maker::exec::sandbox::{SandboxReport, SandboxResult};
use task_maker::exec::scheduler::{Scheduler, SchedulerAction};
use task_maker::exec::worker::{Worker, WorkerAction};
use task_maker::lang::source_file::SourceFile;
use task_maker::store::FileStore;

/// What the client saw of an evaluation.
struct Seen {
    /// The callbacks that were called, in order.
    callbacks: Vec<u64>,
    /// The results of the executions that ended, in order.
    results: Vec<(u128, ExecutionResult)>,
    /// The files that were written, with their destination and their bytes.
    written: Vec<(String, Vec<u8>)>,
    /// The executions that each sandbox ran, in order.
    ran: Vec<String>,
}

/// Evaluates a graph with one scheduler and one worker in this process.
/// `provided` holds the bytes of the files that the client provides, and
/// `sandbox` plays the sandbox.
fn evaluate(
    dag: ExecutionDAG,
    provided: Vec<(u128, Vec<u8>)>,
    scheduler: &mut Scheduler,
    sandbox: &dyn Fn(&Execution, &Worker) -> SandboxReport,
) -> Seen {
    let ExecutionDAG { data, execution_callbacks, file_callbacks } = dag;
    let mut client = ExecutionDAG::new();
    client.execution_callbacks = execution_callbacks;
    client.file_callbacks = file_callbacks;
    client.data.config = data.config.clone();
    let mut seen = Seen { callbacks: vec![], results: vec![], written: vec![], ran: vec![] };
    let (mut worker, conn) = Worker::new("local", FileStore::new(1 << 30, 1 << 20), "/sandboxes");
    let mut pending = scheduler.evaluate(data).unwrap();
    pending.extend(scheduler.worker_ready(conn.uuid));
    while !pending.is_empty() {
        let mut next = Vec::new();
        for action in pending {
            match action {
                SchedulerAction::AskFile { file } => {
                    let content = provided.iter().find(|entry| entry.0 == file).unwrap().1.clone();
                    next.extend(scheduler.file_provided(file, content));
                }
                SchedulerAction::FileReady { file, key } => {
                    let content = scheduler.store().get(&key).unwrap().clone();
                    let delivery = client.file_ready(file, &content);
                    if let Some(path) = delivery.write_to {
                        seen.written.push((path, content));
                    }
                    if let Some((callback, _)) = delivery.content {
                        seen.callbacks.push(callback);
                    }
                }
                SchedulerAction::Started { execution, .. } => {
                    seen.callbacks.extend(client.execution_event(execution, ExecutionEvent::Started));
                }
                SchedulerAction::Done { execution, result } => {
                    seen.callbacks.extend(client.execution_event(execution, ExecutionEvent::Done));
                    seen.results.push((execution, result));
                }
                SchedulerAction::Skipped { execution } => {
                    seen.callbacks.extend(client.execution_event(execution, ExecutionEvent::Skipped));
                }
                SchedulerAction::KillJob { .. } => {}
                SchedulerAction::Work { worker: to, group, keys } => {
                    assert_eq!(to, conn.uuid);
                    let job = WorkerJob::new(scheduler.group(group).clone(), keys);
                    let mut orders = worker.take_job(job).unwrap();
                    while !orders.is_empty() {
                        let mut more = Vec::new();
                        for order in orders {
                            match order {
                                WorkerAction::Send { message: WorkerClientMessage::AskFile(key), .. } => {
                                    let content = scheduler.store().get(&key).unwrap().clone();
                                    more.extend(worker.take_file(key, content).unwrap());
                                }
                                WorkerAction::StartJob => {
                                    let members = worker.current_job().unwrap().group.executions.clone();
                                    for (index, execution) in members.iter().enumerate() {
                                        seen.ran.push(execution.description.clone());
                                        let report = sandbox(execution, &worker);
                                        more.extend(worker.sandbox_done(index, report).unwrap());
                                    }
                                }
                                WorkerAction::Send {
                                    message: WorkerClientMessage::WorkerDone(results, outputs),
                                    ..
                                } => {
                                    let wanted = scheduler.missing_blobs(&outputs);
                                    for sent in worker.asked_files(wanted) {
                                        if let WorkerAction::Send { content: Some(content), .. } = sent {
                                            scheduler.store_blob(content);
                                        }
                                    }
                                    next.extend(scheduler.worker_result(conn.uuid, results, outputs));
                                    next.extend(scheduler.worker_ready(conn.uuid));
                                }
                                other => panic!("unexpected order {:?}", other),
                            }
                        }
                        orders = more;
                    }
                }
            }
        }
        pending = next;
    }
    assert!(scheduler.is_finished());
    seen
}

fn ended(exit_status: u32, stdout: &[u8], outputs: Vec<Option<Vec<u8>>>) -> SandboxReport {
    SandboxReport {
        result: SandboxResult::Success {
            exit_status,
            signal: None,
            resources: ExecutionResourcesUsage { cpu_time: 1000, sys_time: 100, wall_time: 1500, memory: 2048 },
            was_killed: false,
        },
        stdout: Some(stdout.to_vec()),
        stderr: Some(Vec::new()),
        outputs,
    }
}

#[test]
fn source_file_test_source_file_cpp() {
    let cwd = "/tmp/tm-test";
    let mut dag = ExecutionDAG::new();
    dag.data.config.copy_exe(true);

    let source = "int main() {return 0;}";
    let source_path = format!("{}/{}", cwd, "source.cpp");
    let mut source_file =
        SourceFile::new(source_path.clone(), String::new(), Some(format!("{}/{}", cwd, "bin"))).unwrap();
    let (comp, exec) = source_file.execute(&mut dag, "Testing exec", vec![], source.as_bytes(), &vec![]);
    assert!(comp.is_some());

    let (exec_start, exec_done, exec_skipped) = (1u64, 2u64, 3u64);
    dag.on_execution_start(&exec.uuid, exec_start);
    dag.on_execution_done(&exec.uuid, exec_done);
    dag.on_execution_skip(&exec.uuid, exec_skipped);
    dag.add_execution(exec);

    let provided = vec![(dag.data.provided_files[0].file.uuid, source.as_bytes().to_vec())];
    let mut scheduler = Scheduler::new(FileStore::new(1000 << 20, 1000 << 20), Cache::new());
    // a sandbox in which everything succeeds
    let seen = evaluate(dag, provided, &mut scheduler, &|execution, _| {
        ended(0, b"", execution.outputs.iter().map(|_| Some(b"binary".to_vec())).collect())
    });

    assert!(seen.callbacks.contains(&exec_start));
    assert!(seen.callbacks.contains(&exec_done));
    assert!(!seen.callbacks.contains(&exec_skipped));
    // the program is written to its destination
    assert_eq!(seen.written, vec![(format!("{}/{}", cwd, "bin"), b"binary".to_vec())]);
}

#[test]
fn a_program_is_compiled_and_run() {
    let mut dag = ExecutionDAG::new();
    let mut source = SourceFile::new("main.cpp".to_string(), String::new(), Some("main.bin".to_string())).unwrap();
    let code = b"#include <cstdio>\nint main() { puts(\"Hello!\"); }";
    let (comp, mut run) = source.execute(&mut dag, "Run of main", vec!["--x".to_string()], code, &vec![None]);
    let comp = comp.unwrap();
    run.capture_stdout(1024);
    let run_uuid = run.uuid;
    let program = source.executable.clone().unwrap().uuid;
    dag.on_execution_start(&comp, 10);
    dag.on_execution_done(&comp, 11);
    dag.on_execution_skip(&comp, 12);
    dag.on_execution_start(&run_uuid, 20);
    dag.on_execution_done(&run_uuid, 21);
    dag.on_execution_skip(&run_uuid, 22);
    dag.get_file_content(program, 3, 30);
    dag.add_execution(run);

    let provided = vec![(dag.data.provided_files[0].file.uuid, code.to_vec())];
    let mut scheduler = Scheduler::new(FileStore::new(1 << 30, 1 << 20), Cache::new());
    let sandbox = |execution: &Execution, worker: &Worker| {
        if execution.description == "Run of main" {
            // the program is there, with the bytes that the compiler wrote
            let key = worker.input_key(execution.inputs[0].file).unwrap();
            assert_eq!(worker.file_store().get(&key), Some(&b"ELF main".to_vec()));
            assert_eq!(execution.inputs[0].path, "main.bin");
            assert_eq!(execution.args, vec!["--x"]);
            ended(0, b"Hello!\n", vec![])
        } else {
            let key = worker.input_key(execution.inputs[0].file).unwrap();
            assert_eq!(worker.file_store().get(&key).unwrap().as_slice(), &code[..]);
            ended(0, b"", vec![Some(b"ELF main".to_vec())])
        }
    };
    let seen = evaluate(dag, provided, &mut scheduler, &sandbox);

    assert_eq!(seen.ran, vec!["Compilation of \"main.cpp\"", "Run of main"]);
    assert_eq!(seen.callbacks, vec![10, 11, 30, 20, 21]);
    assert_eq!(seen.results.len(), 2);
    assert_eq!(seen.results[0].0, comp);
    assert_eq!(seen.results[0].1.status, ExecutionStatus::Success);
    assert_eq!(seen.results[1].0, run_uuid);
    assert_eq!(seen.results[1].1.status, ExecutionStatus::Success);
    assert_eq!(seen.results[1].1.stdout, Some(b"Hello!\n".to_vec()));
    assert!(!seen.results[1].1.was_cached);

    // evaluated again, nothing runs: both results come from the cache
    let mut dag = ExecutionDAG::new();
    let mut source = SourceFile::new("main.cpp".to_string(), String::new(), Some("main.bin".to_string())).unwrap();
    let (_, mut run) = source.execute(&mut dag, "Run of main", vec!["--x".to_string()], code, &vec![None]);
    run.capture_stdout(1024);
    dag.add_execution(run);
    let provided = vec![(dag.data.provided_files[0].file.uuid, code.to_vec())];
    let seen = evaluate(dag, provided, &mut scheduler, &|_, _| panic!("nothing is to run"));
    assert!(seen.ran.is_empty());
    assert_eq!(seen.results.len(), 2);
    assert!(seen.results.iter().all(|(_, result)| result.was_cached));
    assert_eq!(seen.results[1].1.stdout, Some(b"Hello!\n".to_vec()));
}

#[test]
fn a_failed_compilation_skips_the_run() {
    let mut dag = ExecutionDAG::new();
    let mut source = SourceFile::new("broken.c".to_string(), String::new(), None).unwrap();
    let (comp, run) = source.execute(&mut dag, "Run of broken", vec![], b"int main( {", &vec![]);
    let comp = comp.unwrap();
    let run_uuid = run.uuid;
    dag.on_execution_done(&comp, 1);
    dag.on_execution_start(&run_uuid, 2);
    dag.on_execution_done(&run_uuid, 3);
    dag.on_execution_skip(&run_uuid, 4);
    dag.add_execution(run);
    let provided = vec![(dag.data.provided_files[0].file.uuid, b"int main( {".to_vec())];
    let mut scheduler = Scheduler::new(FileStore::new(1 << 30, 1 << 20), Cache::new());
    let seen = evaluate(dag, provided, &mut scheduler, &|_, _| SandboxReport {
        stderr: Some(b"error: expected ')'".to_vec()),
        ..ended(1, b"", vec![None])
    });
    assert_eq!(seen.ran, vec!["Compilation of \"broken.c\""]);
    assert_eq!(seen.callbacks, vec![1, 4]);
    assert_eq!(seen.results.len(), 1);
    assert_eq!(seen.results[0].1.status, ExecutionStatus::ReturnCode(1));
    assert_eq!(seen.results[0].1.stderr, Some(b"error: expected ')'".to_vec()));
}
