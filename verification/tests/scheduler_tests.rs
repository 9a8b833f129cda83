use task_maker::cache::{Cache, CacheMode};
use task_maker::dag::dag::{DagError, ExecutionDAG};
use task_maker::dag::execution::{
    Execution, ExecutionCommand, ExecutionGroup, ExecutionResourcesUsage, ExecutionResult,
    ExecutionStatus, ExecutionTag,
};
use task_maker::dag::file::File;
use task_maker::exec::model::{DependencyKey, FileState, GroupState, SchedulerStatus};
use task_maker::exec::scheduler::{Scheduler, SchedulerAction};
use task_maker::store::{FileStore, FileStoreKey};

fn scheduler() -> Scheduler {
    Scheduler::new(FileStore::new(1 << 30, 1 << 20), Cache::new())
}

fn command(name: &str) -> ExecutionCommand {
    ExecutionCommand::System(name.to_string())
}

fn result(status: ExecutionStatus) -> ExecutionResult {
    ExecutionResult {
        status,
        was_killed: false,
        was_cached: false,
        resources: ExecutionResourcesUsage { cpu_time: 10, sys_time: 1, wall_time: 12, memory: 100 },
        stdout: None,
        stderr: None,
    }
}

fn works(actions: &[SchedulerAction]) -> Vec<usize> {
    let mut groups = Vec::new();
    for action in actions {
        if let SchedulerAction::Work { group, .. } = action {
            groups.push(*group);
        }
    }
    groups
}

fn skipped(actions: &[SchedulerAction]) -> Vec<u128> {
    let mut executions = Vec::new();
    for action in actions {
        if let SchedulerAction::Skipped { execution } = action {
            executions.push(*execution);
        }
    }
    executions
}

fn done(actions: &[SchedulerAction]) -> Vec<(u128, bool)> {
    let mut executions = Vec::new();
    for action in actions {
        if let SchedulerAction::Done { execution, result } = action {
            executions.push((*execution, result.was_cached));
        }
    }
    executions
}

#[test]
fn a_graph_without_work_is_finished_at_once() {
    let mut scheduler = scheduler();
    let dag = ExecutionDAG::new();
    let actions = scheduler.evaluate(dag.data).unwrap();
    assert!(actions.is_empty());
    assert!(scheduler.is_finished());
    assert_eq!(scheduler.group_count(), 0);
}

#[test]
fn a_dangling_input_is_refused_before_anything_runs() {
    let mut scheduler = scheduler();
    let mut dag = ExecutionDAG::new();
    let nowhere = File::new("never declared");
    let mut execution = Execution::new("reader", command("cat"));
    execution.input(&nowhere, "in.txt".to_string(), false);
    let uuid = execution.uuid;
    dag.add_execution(execution);
    let outcome = scheduler.evaluate(dag.data);
    assert_eq!(
        outcome,
        Err(DagError::DanglingInput { execution: uuid, file: nowhere.uuid })
    );
    assert_eq!(scheduler.group_count(), 0);
}

#[test]
fn the_first_dangling_input_is_the_one_reported() {
    let mut dag = ExecutionDAG::new();
    let known = File::new("known");
    dag.provide_file(known.clone(), "known.txt".to_string(), b"x");
    let first = File::new("first unknown");
    let second = File::new("second unknown");
    let mut a = Execution::new("a", command("a"));
    a.input(&known, "k".to_string(), false);
    a.input(&first, "f".to_string(), false);
    let mut b = Execution::new("b", command("b"));
    b.input(&second, "s".to_string(), false);
    let a_uuid = a.uuid;
    dag.add_execution(a);
    dag.add_execution(b);
    assert_eq!(
        dag.data.validate(),
        Err(DagError::DanglingInput { execution: a_uuid, file: first.uuid })
    );
}

#[test]
fn an_execution_waits_for_its_provided_input() {
    let mut scheduler = scheduler();
    let mut dag = ExecutionDAG::new();
    let input = File::new("input");
    dag.provide_file(input.clone(), "input.txt".to_string(), b"content");
    let mut execution = Execution::new("reader", command("cat"));
    execution.input(&input, "in.txt".to_string(), false);
    let uuid = execution.uuid;
    dag.add_execution(execution);

    let actions = scheduler.evaluate(dag.data).unwrap();
    assert_eq!(actions, vec![SchedulerAction::AskFile { file: input.uuid }]);
    assert_eq!(
        scheduler.file_state(input.uuid),
        FileState::Awaited(FileStoreKey::from_content(b"content"))
    );

    // a worker that asks now gets nothing: the input is not there
    let actions = scheduler.worker_ready(7);
    assert!(actions.is_empty());
    assert!(!scheduler.is_ready(0));

    // content under another key is dropped
    let actions = scheduler.file_provided(input.uuid, b"other".to_vec());
    assert!(actions.is_empty());

    let key = FileStoreKey::from_content(b"content");
    let actions = scheduler.file_provided(input.uuid, b"content".to_vec());
    assert_eq!(
        actions,
        vec![
            SchedulerAction::FileReady { file: input.uuid, key },
            SchedulerAction::Work {
                worker: 7,
                group: 0,
                keys: vec![DependencyKey { file: input.uuid, key }],
            },
            SchedulerAction::Started { execution: uuid, worker: 7 },
        ]
    );
    assert_eq!(scheduler.group_state(0), GroupState::Running(7));
    assert_eq!(scheduler.store().get(&key), Some(&b"content".to_vec()));
}

#[test]
fn the_larger_priority_runs_first() {
    let mut scheduler = scheduler();
    let mut dag = ExecutionDAG::new();
    let mut low = Execution::new("low", command("low"));
    low.priority(1);
    let mut high = Execution::new("high", command("high"));
    high.priority(100);
    let (low_uuid, high_uuid) = (low.uuid, high.uuid);
    dag.add_execution(low);
    dag.add_execution(high);
    assert!(scheduler.evaluate(dag.data).unwrap().is_empty());

    let actions = scheduler.worker_ready(1);
    assert_eq!(works(&actions), vec![1]);
    assert!(actions.contains(&SchedulerAction::Started { execution: high_uuid, worker: 1 }));
    assert_eq!(scheduler.group_state(0), GroupState::Waiting);
    assert_eq!(scheduler.group_state(1), GroupState::Running(1));

    // the worker reports and asks again: now the other runs
    let actions = scheduler.worker_result(1, vec![result(ExecutionStatus::Success)], vec![]);
    assert_eq!(done(&actions), vec![(high_uuid, false)]);
    assert!(works(&actions).is_empty());
    let actions = scheduler.worker_ready(1);
    assert_eq!(works(&actions), vec![0]);
    assert!(actions.contains(&SchedulerAction::Started { execution: low_uuid, worker: 1 }));
}

#[test]
fn equal_priorities_run_in_the_order_of_declaration() {
    let mut scheduler = scheduler();
    let mut dag = ExecutionDAG::new();
    for name in ["first", "second", "third"] {
        let mut execution = Execution::new(name, command(name));
        execution.priority(5);
        dag.add_execution(execution);
    }
    scheduler.evaluate(dag.data).unwrap();
    assert_eq!(works(&scheduler.worker_ready(1)), vec![0]);
    assert_eq!(works(&scheduler.worker_ready(2)), vec![1]);
    assert_eq!(works(&scheduler.worker_ready(3)), vec![2]);
    assert_eq!(works(&scheduler.worker_ready(4)), Vec::<usize>::new());
}

#[test]
fn the_priority_of_a_group_is_that_of_its_best_member() {
    let mut group = ExecutionGroup::new("pair");
    let mut a = Execution::new("a", command("a"));
    a.priority(-3);
    let mut b = Execution::new("b", command("b"));
    b.priority(42);
    group.add_execution(a);
    group.add_execution(b);
    assert_eq!(group.priority(), 42);
    assert_eq!(ExecutionGroup::new("empty").priority(), 0);
}

#[test]
fn a_failure_skips_everything_downstream() {
    let mut scheduler = scheduler();
    let mut dag = ExecutionDAG::new();
    let mut a = Execution::new("A", command("a"));
    let a_out = a.output("a.out".to_string());
    let mut b = Execution::new("B", command("b"));
    b.input(&a_out, "a.in".to_string(), false);
    let b_out = b.output("b.out".to_string());
    let mut c = Execution::new("C", command("c"));
    c.input(&b_out, "b.in".to_string(), false);
    let c_out = c.output("c.out".to_string());
    let (a_uuid, b_uuid, c_uuid) = (a.uuid, b.uuid, c.uuid);
    // declared against the order of the dependencies
    dag.add_execution(c);
    dag.add_execution(b);
    dag.add_execution(a);
    assert!(scheduler.evaluate(dag.data).unwrap().is_empty());

    let actions = scheduler.worker_ready(9);
    assert_eq!(works(&actions), vec![2]);

    let actions = scheduler.worker_result(9, vec![result(ExecutionStatus::ReturnCode(1))], vec![]);
    assert_eq!(done(&actions), vec![(a_uuid, false)]);
    let mut gone = skipped(&actions);
    gone.sort();
    let mut expected = vec![b_uuid, c_uuid];
    expected.sort();
    assert_eq!(gone, expected);
    assert!(works(&actions).is_empty());
    assert_eq!(scheduler.group_state(0), GroupState::Skipped);
    assert_eq!(scheduler.group_state(1), GroupState::Skipped);
    assert_eq!(scheduler.group_state(2), GroupState::Done);
    assert_eq!(scheduler.file_state(a_out.uuid), FileState::Dead);
    assert_eq!(scheduler.file_state(b_out.uuid), FileState::Dead);
    assert_eq!(scheduler.file_state(c_out.uuid), FileState::Dead);
    assert!(scheduler.is_finished());

    // nothing is told twice
    assert!(scheduler.worker_ready(9).is_empty());
    assert!(scheduler.stop().is_empty());
}

#[test]
fn a_success_unblocks_what_waits_for_it() {
    let mut scheduler = scheduler();
    let mut dag = ExecutionDAG::new();
    let mut a = Execution::new("A", command("a"));
    let a_out = a.output("a.out".to_string());
    let mut b = Execution::new("B", command("b"));
    b.input(&a_out, "a.in".to_string(), false);
    let b_uuid = b.uuid;
    dag.add_execution(a);
    dag.add_execution(b);
    scheduler.evaluate(dag.data).unwrap();
    assert_eq!(works(&scheduler.worker_ready(1)), vec![0]);
    assert!(scheduler.worker_ready(2).is_empty());

    let key = scheduler.store_blob(b"made by a".to_vec());
    let reported = vec![DependencyKey { file: a_out.uuid, key }];
    assert!(scheduler.missing_blobs(&reported).is_empty());
    let actions = scheduler.worker_result(1, vec![result(ExecutionStatus::Success)], reported);
    assert!(actions.contains(&SchedulerAction::FileReady { file: a_out.uuid, key }));
    // worker 2 was idle and gets B
    assert!(actions.contains(&SchedulerAction::Work {
        worker: 2,
        group: 1,
        keys: vec![DependencyKey { file: a_out.uuid, key }],
    }));
    assert!(actions.contains(&SchedulerAction::Started { execution: b_uuid, worker: 2 }));
    assert_eq!(scheduler.file_state(a_out.uuid), FileState::Ready(key));
}

#[test]
fn an_output_whose_blob_is_missing_is_dead() {
    let mut scheduler = scheduler();
    let mut dag = ExecutionDAG::new();
    let mut a = Execution::new("A", command("a"));
    let a_out = a.output("a.out".to_string());
    let mut b = Execution::new("B", command("b"));
    b.input(&a_out, "a.in".to_string(), false);
    let b_uuid = b.uuid;
    dag.add_execution(a);
    dag.add_execution(b);
    scheduler.evaluate(dag.data).unwrap();
    scheduler.worker_ready(1);
    let key = FileStoreKey::from_content(b"never sent");
    let reported = vec![DependencyKey { file: a_out.uuid, key }];
    assert_eq!(scheduler.missing_blobs(&reported), vec![a_out.uuid]);
    let actions = scheduler.worker_result(1, vec![result(ExecutionStatus::Success)], reported);
    assert_eq!(skipped(&actions), vec![b_uuid]);
    assert_eq!(scheduler.file_state(a_out.uuid), FileState::Dead);
}

#[test]
fn the_second_run_of_an_execution_comes_from_the_cache() {
    let mut scheduler = scheduler();
    let mut dag = ExecutionDAG::new();
    let mut first = Execution::new("first run", command("make"));
    first.args(vec!["all".to_string()]);
    let first_out = first.output("out".to_string());
    let first_uuid = first.uuid;
    dag.add_execution(first);
    scheduler.evaluate(dag.data).unwrap();
    assert_eq!(works(&scheduler.worker_ready(1)), vec![0]);
    let key = scheduler.store_blob(b"built".to_vec());
    let actions = scheduler.worker_result(
        1,
        vec![result(ExecutionStatus::Success)],
        vec![DependencyKey { file: first_out.uuid, key }],
    );
    assert_eq!(done(&actions), vec![(first_uuid, false)]);
    assert_eq!(scheduler.cache().len(), 1);
    scheduler.worker_ready(1);

    // the same command, arguments, limits and inputs, under other identifiers
    let mut dag = ExecutionDAG::new();
    let mut second = Execution::new("second run", command("make"));
    second.args(vec!["all".to_string()]);
    let second_out = second.output("out".to_string());
    let second_uuid = second.uuid;
    dag.add_execution(second);
    let actions = scheduler.evaluate(dag.data).unwrap();
    assert_eq!(done(&actions), vec![(second_uuid, true)]);
    assert!(works(&actions).is_empty());
    assert!(actions.contains(&SchedulerAction::FileReady { file: second_out.uuid, key }));
    assert_eq!(scheduler.group_state(1), GroupState::Done);
    assert_eq!(scheduler.file_state(second_out.uuid), FileState::Ready(key));
}

#[test]
fn other_arguments_miss_the_cache() {
    let mut scheduler = scheduler();
    let mut dag = ExecutionDAG::new();
    let mut first = Execution::new("first", command("make"));
    first.args(vec!["all".to_string()]);
    dag.add_execution(first);
    scheduler.evaluate(dag.data).unwrap();
    scheduler.worker_ready(1);
    scheduler.worker_result(1, vec![result(ExecutionStatus::Success)], vec![]);
    scheduler.worker_ready(1);

    let mut dag = ExecutionDAG::new();
    let mut second = Execution::new("second", command("make"));
    second.args(vec!["clean".to_string()]);
    dag.add_execution(second);
    let actions = scheduler.evaluate(dag.data).unwrap();
    assert_eq!(works(&actions), vec![1]);
    assert!(done(&actions).is_empty());
}

#[test]
fn a_tag_kept_out_of_the_cache_runs_again() {
    let mut scheduler = scheduler();
    for round in 0..2 {
        let mut dag = ExecutionDAG::new();
        dag.data.config.cache_mode(CacheMode::Except(vec!["evaluation".to_string()]));
        let mut tagged = Execution::new("tagged", command("solve"));
        tagged.tag(ExecutionTag::from("evaluation"));
        let mut plain = Execution::new("plain", command("compile"));
        plain.tag(ExecutionTag::from("compilation"));
        let plain_uuid = plain.uuid;
        dag.add_execution(tagged);
        dag.add_execution(plain);
        let actions = scheduler.evaluate(dag.data).unwrap();
        if round == 0 {
            assert!(done(&actions).is_empty());
            scheduler.worker_ready(1);
            scheduler.worker_result(1, vec![result(ExecutionStatus::Success)], vec![]);
            scheduler.worker_ready(1);
            scheduler.worker_result(1, vec![result(ExecutionStatus::Success)], vec![]);
            assert!(scheduler.is_finished());
            assert_eq!(scheduler.cache().len(), 1);
        } else {
            // the compilation is answered by the cache, the evaluation is not
            assert_eq!(done(&actions), vec![(plain_uuid, true)]);
            assert_eq!(scheduler.group_state(2), GroupState::Waiting);
            assert_eq!(scheduler.group_state(3), GroupState::Done);
        }
    }
}

#[test]
fn a_lost_worker_fails_its_job() {
    let mut scheduler = scheduler();
    let mut dag = ExecutionDAG::new();
    let mut a = Execution::new("A", command("a"));
    let a_out = a.output("a.out".to_string());
    let mut b = Execution::new("B", command("b"));
    b.input(&a_out, "a.in".to_string(), false);
    let (a_uuid, b_uuid) = (a.uuid, b.uuid);
    dag.add_execution(a);
    dag.add_execution(b);
    scheduler.evaluate(dag.data).unwrap();
    scheduler.worker_ready(4);
    let actions = scheduler.worker_lost(4);
    assert_eq!(actions.len(), 2);
    match &actions[0] {
        SchedulerAction::Done { execution, result } => {
            assert_eq!(*execution, a_uuid);
            assert!(matches!(result.status, ExecutionStatus::InternalError(_)));
            assert!(!result.was_cached);
        }
        other => panic!("unexpected action {:?}", other),
    }
    assert_eq!(actions[1], SchedulerAction::Skipped { execution: b_uuid });
    assert!(scheduler.is_finished());
    // the failure of the worker does not enter the cache
    assert_eq!(scheduler.cache().len(), 0);
    // a late report of the lost worker is dropped
    assert!(scheduler
        .worker_result(4, vec![result(ExecutionStatus::Success)], vec![])
        .is_empty());
}

#[test]
fn a_stop_kills_what_runs_and_skips_the_rest() {
    let mut scheduler = scheduler();
    let mut dag = ExecutionDAG::new();
    let running = Execution::new("running", command("a"));
    let waiting = Execution::new("waiting", command("b"));
    let (running_uuid, waiting_uuid) = (running.uuid, waiting.uuid);
    dag.add_execution(running);
    dag.add_execution(waiting);
    scheduler.evaluate(dag.data).unwrap();
    scheduler.worker_ready(3);
    let group = scheduler.group(0).uuid;
    let actions = scheduler.stop();
    assert_eq!(
        actions,
        vec![
            SchedulerAction::KillJob { worker: 3, job: group },
            SchedulerAction::Skipped { execution: running_uuid },
            SchedulerAction::Skipped { execution: waiting_uuid },
        ]
    );
    assert!(scheduler.is_finished());
    // the report of the killed job changes nothing
    let actions = scheduler.worker_result(3, vec![result(ExecutionStatus::Signal(9, "SIGKILL".to_string()))], vec![]);
    assert!(actions.is_empty());
    assert_eq!(scheduler.group_state(0), GroupState::Skipped);
}

#[test]
fn a_report_of_the_wrong_size_fails_the_job() {
    let mut scheduler = scheduler();
    let mut dag = ExecutionDAG::new();
    let execution = Execution::new("one", command("a"));
    let uuid = execution.uuid;
    dag.add_execution(execution);
    scheduler.evaluate(dag.data).unwrap();
    scheduler.worker_ready(1);
    let actions = scheduler.worker_result(1, vec![], vec![]);
    assert_eq!(actions.len(), 1);
    match &actions[0] {
        SchedulerAction::Done { execution, result } => {
            assert_eq!(*execution, uuid);
            assert!(matches!(result.status, ExecutionStatus::InternalError(_)));
        }
        other => panic!("unexpected action {:?}", other),
    }
}

#[test]
fn a_group_runs_as_one_job() {
    let mut scheduler = scheduler();
    let mut dag = ExecutionDAG::new();
    let mut group = ExecutionGroup::new("pair");
    let first = Execution::new("first", command("a"));
    let second = Execution::new("second", command("b"));
    let (first_uuid, second_uuid) = (first.uuid, second.uuid);
    group.add_execution(first);
    group.add_execution(second);
    group.new_fifo();
    dag.add_execution_group(group);
    scheduler.evaluate(dag.data).unwrap();
    let actions = scheduler.worker_ready(1);
    assert_eq!(
        actions,
        vec![
            SchedulerAction::Work { worker: 1, group: 0, keys: vec![] },
            SchedulerAction::Started { execution: first_uuid, worker: 1 },
            SchedulerAction::Started { execution: second_uuid, worker: 1 },
        ]
    );
    let actions = scheduler.worker_result(
        1,
        vec![result(ExecutionStatus::ReturnCode(2)), result(ExecutionStatus::Signal(9, "SIGKILL".to_string()))],
        vec![],
    );
    assert_eq!(done(&actions), vec![(first_uuid, false), (second_uuid, false)]);
}

#[test]
fn the_blobs_of_ready_files_are_held_until_they_are_released() {
    let mut scheduler = Scheduler::new(FileStore::new(4, 0), Cache::new());
    let mut dag = ExecutionDAG::new();
    let input = File::new("input");
    dag.provide_file(input.clone(), "in".to_string(), b"0123456789");
    let mut execution = Execution::new("reader", command("cat"));
    execution.input(&input, "in".to_string(), false);
    let out = execution.output("out".to_string());
    dag.add_execution(execution);
    scheduler.evaluate(dag.data).unwrap();
    scheduler.worker_ready(1);
    let key = FileStoreKey::from_content(b"0123456789");
    scheduler.file_provided(input.uuid, b"0123456789".to_vec());
    assert_eq!(scheduler.store().references(&key), 1);

    // blobs that no file needs go; the input of the job that runs stays
    let stray = scheduler.store_blob(b"nobody needs this".to_vec());
    assert_eq!(scheduler.evict(), vec![stray]);
    assert_eq!(scheduler.store().get(&key), Some(&b"0123456789".to_vec()));

    let made = scheduler.store_blob(b"made".to_vec());
    scheduler.worker_result(
        1,
        vec![result(ExecutionStatus::Success)],
        vec![DependencyKey { file: out.uuid, key: made }],
    );
    assert_eq!(scheduler.store().references(&made), 1);
    assert!(scheduler.evict().is_empty());
    assert!(scheduler.is_finished());

    // once the evaluation is over the blobs are let go, and the store shrinks
    scheduler.release();
    assert_eq!(scheduler.store().references(&key), 0);
    assert_eq!(scheduler.store().references(&made), 0);
    assert_eq!(scheduler.evict(), vec![key, made]);
    assert_eq!(scheduler.store().size(), 0);
}

#[test]
fn the_status_counts_the_groups_and_the_workers() {
    let mut scheduler = scheduler();
    assert_eq!(
        scheduler.status(),
        SchedulerStatus { waiting: 0, running: 0, done: 0, skipped: 0, workers: 0 }
    );
    let mut dag = ExecutionDAG::new();
    let mut a = Execution::new("A", command("a"));
    let a_out = a.output("a.out".to_string());
    let mut b = Execution::new("B", command("b"));
    b.input(&a_out, "a.in".to_string(), false);
    dag.add_execution(a);
    dag.add_execution(b);
    dag.add_execution(Execution::new("C", command("c")));
    scheduler.evaluate(dag.data).unwrap();
    scheduler.worker_ready(1);
    scheduler.worker_ready(2);
    scheduler.worker_ready(3);
    assert_eq!(
        scheduler.status(),
        SchedulerStatus { waiting: 1, running: 2, done: 0, skipped: 0, workers: 3 }
    );
    scheduler.worker_result(1, vec![result(ExecutionStatus::ReturnCode(1))], vec![]);
    scheduler.worker_lost(3);
    assert_eq!(
        scheduler.status(),
        SchedulerStatus { waiting: 0, running: 1, done: 1, skipped: 1, workers: 2 }
    );
}
