use task_maker::cache::CacheMode;
use task_maker::dag::dag::{ContentRequest, ExecutionDAG, ExecutionDAGConfig, ExecutionEvent};
use task_maker::dag::execution::{
    Execution, ExecutionCommand, ExecutionGroup, ExecutionLimits, ExecutionResourcesUsage,
    ExecutionResult, ExecutionStatus, ExecutionTag,
};
use task_maker::dag::file::File;
use task_maker::format::evaluation::{Binding, EvaluationData};
use task_maker::format::ui::{UIExecutionStatus, UIMessage};
use task_maker::store::FileStoreKey;

fn command() -> ExecutionCommand {
    ExecutionCommand::System("true".to_string())
}

#[test]
fn a_new_graph_is_empty() {
    let dag = ExecutionDAG::new();
    assert!(dag.data.provided_files.is_empty());
    assert!(dag.data.execution_groups.is_empty());
    assert!(dag.execution_callbacks.is_empty());
    assert!(dag.file_callbacks.is_empty());
    assert_eq!(dag.data.config, ExecutionDAGConfig::new());
    assert_eq!(dag.data.validate(), Ok(()));
}

#[test]
fn the_configuration_is_set_field_by_field() {
    let mut config = ExecutionDAGConfig::new();
    assert_eq!(config.cache_mode, CacheMode::Everything);
    config.keep_sandboxes(true);
    config.dry_run(true);
    config.cache_mode(CacheMode::Nothing);
    config.copy_exe(true);
    config.copy_logs(true);
    config.extra_time(250_000);
    assert_eq!(
        config,
        ExecutionDAGConfig {
            keep_sandboxes: true,
            dry_run: true,
            cache_mode: CacheMode::Nothing,
            copy_exe: true,
            copy_logs: true,
            extra_time: 250_000,
        }
    );
}

#[test]
fn a_provided_file_is_keyed_by_its_content() {
    let mut dag = ExecutionDAG::new();
    let file = File::new("input");
    dag.provide_file(file.clone(), "/tmp/input.txt".to_string(), b"first");
    assert_eq!(dag.data.provided_files.len(), 1);
    assert_eq!(dag.data.provided_files[0].file, file);
    assert_eq!(dag.data.provided_files[0].key, FileStoreKey::from_content(b"first"));
    assert_eq!(dag.data.provided_files[0].local_path, "/tmp/input.txt");
    // providing the file again replaces what was said of it
    dag.provide_file(file.clone(), "/tmp/other.txt".to_string(), b"second");
    assert_eq!(dag.data.provided_files.len(), 1);
    assert_eq!(dag.data.provided_files[0].key, FileStoreKey::from_content(b"second"));
    assert_eq!(dag.data.provided_files[0].local_path, "/tmp/other.txt");
    dag.provide_file(File::new("another"), "x".to_string(), b"");
    assert_eq!(dag.data.provided_files.len(), 2);
}

#[test]
fn executions_are_declared_in_groups() {
    let mut dag = ExecutionDAG::new();
    let single = Execution::new("single", command());
    let single_uuid = single.uuid;
    dag.add_execution(single);
    let mut group = ExecutionGroup::new("pair");
    group.add_execution(Execution::new("a", command()));
    group.add_execution(Execution::new("b", command()));
    let fifo = group.new_fifo();
    dag.add_execution_group(group);
    assert_eq!(dag.data.execution_groups.len(), 2);
    assert_eq!(dag.data.execution_groups[0].executions.len(), 1);
    assert_eq!(dag.data.execution_groups[0].executions[0].uuid, single_uuid);
    assert_eq!(dag.data.execution_groups[0].description, "single");
    assert_eq!(dag.data.execution_groups[1].executions.len(), 2);
    assert_eq!(dag.data.execution_groups[1].fifo, vec![fifo]);
}

#[test]
fn a_new_execution_has_the_default_limits_and_nothing_else() {
    let execution = Execution::new("fresh", ExecutionCommand::Local("./run".to_string()));
    assert_eq!(execution.description, "fresh");
    assert_eq!(execution.command, ExecutionCommand::Local("./run".to_string()));
    assert!(execution.args.is_empty());
    assert!(execution.inputs.is_empty() && execution.outputs.is_empty());
    assert_eq!(execution.limits, ExecutionLimits::new());
    assert_eq!(execution.limits.nproc, Some(1));
    assert!(execution.limits.read_only);
    assert!(!execution.limits.mount_tmpfs);
    assert_eq!(execution.priority, 0);
    assert_eq!(execution.tag, None);
    assert!(execution.dependencies().is_empty());
    assert!(execution.outputs().is_empty());
}

#[test]
fn the_parts_of_an_execution_are_set_one_by_one() {
    let mut execution = Execution::new("job", command());
    let (a, b, c) = (File::new("a"), File::new("b"), File::new("c"));
    execution.input(&a, "in".to_string(), false);
    execution.input(&b, "tool".to_string(), true);
    // another file at a path that is taken replaces the first
    execution.input(&c, "in".to_string(), false);
    execution.stdin(&a);
    assert_eq!(execution.inputs.len(), 2);
    assert_eq!(execution.find_input(&"tool".to_string()), Some(1));
    assert_eq!(execution.find_input(&"nowhere".to_string()), None);
    assert_eq!(execution.dependencies(), vec![a.uuid, c.uuid, b.uuid]);

    let out = execution.output("out".to_string());
    let stderr = execution.stderr();
    let stdout = execution.stdout();
    assert_eq!(execution.stdout(), stdout);
    assert_eq!(execution.stderr(), stderr);
    assert_eq!(execution.outputs(), vec![stdout.uuid, stderr.uuid, out.uuid]);
    assert_eq!(out.description, "Output of 'job' at out");
    assert_eq!(stdout.description, "Stdout of 'job'");
    assert_eq!(stderr.description, "Stderr of 'job'");

    execution.tag(ExecutionTag::from("evaluation"));
    execution.priority(-7);
    execution.capture_stdout(100);
    execution.capture_stderr(200);
    execution.args(vec!["--x".to_string()]);
    execution.limits.read_only(false);
    execution.limits.mount_tmpfs(true);
    assert_eq!(execution.tag, Some(ExecutionTag { name: "evaluation".to_string() }));
    assert_eq!(execution.priority, -7);
    assert_eq!(execution.capture_stdout, Some(100));
    assert_eq!(execution.capture_stderr, Some(200));
    assert_eq!(execution.args, vec!["--x".to_string()]);
    assert!(!execution.limits.read_only && execution.limits.mount_tmpfs);
}

#[test]
fn a_group_reads_and_writes_what_its_members_do() {
    let mut group = ExecutionGroup::new("pair");
    let shared = File::new("shared");
    let mut first = Execution::new("first", command());
    first.input(&shared, "in".to_string(), false);
    let first_out = first.output("out".to_string());
    let mut second = Execution::new("second", command());
    second.stdin(&shared);
    let second_out = second.stdout();
    group.add_execution(first);
    group.add_execution(second);
    assert_eq!(group.dependencies(), vec![shared.uuid, shared.uuid]);
    assert_eq!(group.outputs(), vec![first_out.uuid, second_out.uuid]);
}

#[test]
fn callbacks_are_kept_in_the_order_of_their_registration() {
    let mut dag = ExecutionDAG::new();
    let (a, b) = (11u128, 22u128);
    dag.on_execution_done(&a, 1);
    dag.on_execution_start(&a, 2);
    dag.on_execution_skip(&b, 3);
    dag.on_execution_done(&a, 4);
    dag.on_execution_skip(&a, 5);
    assert_eq!(dag.execution_callbacks.len(), 2);
    assert_eq!(dag.execution_callbacks[&a].execution, a);
    assert_eq!(dag.execution_callbacks[&a].on_start, vec![2]);
    assert_eq!(dag.execution_callbacks[&a].on_done, vec![1, 4]);
    assert_eq!(dag.execution_callbacks[&a].on_skip, vec![5]);
    assert_eq!(dag.execution_callbacks[&b].on_skip, vec![3]);
}

#[test]
fn a_callback_fires_once_and_done_and_skipped_never_both() {
    let mut dag = ExecutionDAG::new();
    let a = 11u128;
    dag.on_execution_start(&a, 1);
    dag.on_execution_done(&a, 2);
    dag.on_execution_done(&a, 3);
    dag.on_execution_skip(&a, 4);
    assert_eq!(dag.execution_event(a, ExecutionEvent::Started), vec![1]);
    assert!(dag.execution_event(a, ExecutionEvent::Started).is_empty());
    assert_eq!(dag.execution_event(a, ExecutionEvent::Done), vec![2, 3]);
    assert!(dag.execution_event(a, ExecutionEvent::Done).is_empty());
    assert!(dag.execution_event(a, ExecutionEvent::Skipped).is_empty());
    // an execution without callbacks
    assert!(dag.execution_event(99, ExecutionEvent::Done).is_empty());

    let b = 22u128;
    dag.on_execution_done(&b, 5);
    dag.on_execution_skip(&b, 6);
    assert_eq!(dag.execution_event(b, ExecutionEvent::Skipped), vec![6]);
    assert!(dag.execution_event(b, ExecutionEvent::Done).is_empty());
}

#[test]
fn a_ready_file_is_written_and_its_first_bytes_are_handed_over() {
    let mut dag = ExecutionDAG::new();
    let file = 7u128;
    dag.get_file_content(file, 4, 42);
    dag.write_file_to(file, "/tmp/out".to_string());
    assert_eq!(dag.file_callbacks.len(), 1);
    assert_eq!(dag.file_callbacks[&file].get_content, Some(ContentRequest { limit: 4, callback: 42 }));
    let delivery = dag.file_ready(file, &b"0123456789".to_vec());
    assert_eq!(delivery.write_to, Some("/tmp/out".to_string()));
    assert_eq!(delivery.content, Some((42, b"0123".to_vec())));
    // the request for the bytes is answered once
    let delivery = dag.file_ready(file, &b"0123456789".to_vec());
    assert_eq!(delivery.write_to, Some("/tmp/out".to_string()));
    assert_eq!(delivery.content, None);
    // a file without callbacks
    let delivery = dag.file_ready(8, &b"x".to_vec());
    assert_eq!(delivery.write_to, None);
    assert_eq!(delivery.content, None);
}

#[test]
fn a_short_file_is_handed_over_whole_and_a_dry_run_writes_nothing() {
    let mut dag = ExecutionDAG::new();
    dag.data.config.dry_run(true);
    dag.write_file_to(7, "/tmp/out".to_string());
    dag.get_file_content(7, 100, 1);
    let delivery = dag.file_ready(7, &b"ab".to_vec());
    assert_eq!(delivery.write_to, None);
    assert_eq!(delivery.content, Some((1, b"ab".to_vec())));
}

#[test]
fn results_can_be_marked_as_cached() {
    let result = ExecutionResult {
        status: ExecutionStatus::Signal(11, "SIGSEGV".to_string()),
        was_killed: true,
        was_cached: false,
        resources: ExecutionResourcesUsage { cpu_time: 1, sys_time: 2, wall_time: 3, memory: 4 },
        stdout: Some(b"o".to_vec()),
        stderr: Some(b"e".to_vec()),
    };
    let cached = result.cached();
    assert!(cached.was_cached);
    assert_eq!(cached, ExecutionResult { was_cached: true, ..result.clone() });
    assert!(!result.status.is_success());
    assert!(!result.status.is_internal_error());
    assert!(ExecutionStatus::Success.is_success());
    assert!(ExecutionStatus::InternalError(String::new()).is_internal_error());
}

#[test]
fn an_execution_is_bound_to_what_it_means_to_the_interface() {
    let mut eval = EvaluationData::new();
    let (compilation, run) = (1u128, 2u128);
    eval.dag.on_execution_done(&run, 77);
    let first = eval.bind(compilation, Binding::Compilation { file: "a.cpp".to_string() });
    let second = eval.bind(
        run,
        Binding::IOIEvaluation { subtask: 1, testcase: 2, solution: "a.cpp".to_string() },
    );
    assert_eq!((first, second), (0, 1));
    assert_eq!(eval.dag.execution_event(compilation, ExecutionEvent::Started), vec![first]);
    assert_eq!(eval.dag.execution_event(compilation, ExecutionEvent::Skipped), vec![first]);
    assert!(eval.dag.execution_event(compilation, ExecutionEvent::Done).is_empty());
    // the callbacks that were there before come first
    assert_eq!(eval.dag.execution_event(run, ExecutionEvent::Done), vec![77, second]);

    assert_eq!(
        eval.message(first, UIExecutionStatus::Skipped),
        Some(UIMessage::Compilation { file: "a.cpp".to_string(), status: UIExecutionStatus::Skipped })
    );
    assert_eq!(
        eval.message(second, UIExecutionStatus::Started { worker: 9 }),
        Some(UIMessage::IOIEvaluation {
            subtask: 1,
            testcase: 2,
            solution: "a.cpp".to_string(),
            status: UIExecutionStatus::Started { worker: 9 },
        })
    );
    assert_eq!(eval.message(2, UIExecutionStatus::Pending), None);
    let third = eval.bind(3, Binding::IOIGeneration { subtask: 4, testcase: 5 });
    assert_eq!(
        eval.message(third, UIExecutionStatus::Pending),
        Some(UIMessage::IOIGeneration { subtask: 4, testcase: 5, status: UIExecutionStatus::Pending })
    );
}

#[test]
fn a_second_declaration_under_an_identifier_replaces_the_first() {
    let mut dag = ExecutionDAG::new();
    let other = Execution::new("other", command());
    let other_uuid = other.uuid;
    let first = Execution::new("first", command());
    let mut second = first.clone();
    second.description = "second".to_string();
    second.priority(7);
    assert_eq!(first.uuid, second.uuid);
    dag.add_execution(first);
    dag.add_execution(other);
    dag.add_execution(second.clone());
    assert_eq!(dag.data.execution_groups.len(), 2);
    assert_eq!(dag.data.execution_groups[0].executions, vec![second]);
    assert_eq!(dag.data.execution_groups[1].executions.len(), 1);
    assert_eq!(dag.data.execution_groups[1].executions[0].uuid, other_uuid);
    assert_eq!(dag.data.execution_groups[1].executions[0].description, "other");
}

#[test]
fn a_declaration_replaces_a_member_of_a_group_where_it_stands() {
    let mut dag = ExecutionDAG::new();
    let a = Execution::new("a", command());
    let b = Execution::new("b", command());
    let mut again = b.clone();
    again.args(vec!["--x".to_string()]);
    let mut group = ExecutionGroup::new("pair");
    group.add_execution(a.clone());
    group.add_execution(b);
    let group_uuid = group.uuid;
    dag.add_execution_group(group);
    dag.add_execution(again.clone());
    assert_eq!(dag.data.execution_groups.len(), 1);
    assert_eq!(dag.data.execution_groups[0].uuid, group_uuid);
    assert_eq!(dag.data.execution_groups[0].description, "pair");
    assert_eq!(dag.data.execution_groups[0].executions, vec![a, again]);
}
