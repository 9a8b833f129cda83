use task_maker::cache::CacheMode;
use task_maker::dag::dag::ExecutionDAG;
use task_maker::dag::execution::{ExecutionCommand, ExecutionLimits, ExecutionTag};
use task_maker::lang::language::Language;
use task_maker::lang::path::{extension, file_name, file_stem, join};
use task_maker::lang::source_file::{SourceFile, COMPILATION_CONTENT_LENGTH, COMPILATION_PRIORITY};
use task_maker::local::{
    client_name, client_name_from, is_confirmation, local_worker_count, plan_evaluation,
    worker_count, EvaluationError, EvaluationPlan, Opt,
};
use task_maker::store::FileStoreKey;

fn text(s: &str) -> Option<String> {
    Some(s.to_string())
}

#[test]
fn the_parts_of_a_path() {
    assert_eq!(file_name("path/to/sourcefile.cpp"), text("sourcefile.cpp"));
    assert_eq!(file_name("sourcefile.cpp"), text("sourcefile.cpp"));
    assert_eq!(file_name("/abs/x"), text("x"));
    assert_eq!(file_name("dir/"), None);
    assert_eq!(file_name(""), None);
    assert_eq!(extension("path/to/sourcefile.cpp"), text("cpp"));
    assert_eq!(extension("archive.tar.gz"), text("gz"));
    assert_eq!(extension("a.b/noext"), None);
    assert_eq!(extension(".hidden"), None);
    assert_eq!(extension("trailing."), text(""));
    assert_eq!(extension("naïve.py"), text("py"));
    assert_eq!(file_stem("path/to/sourcefile.cpp"), text("sourcefile"));
    assert_eq!(file_stem("archive.tar.gz"), text("archive.tar"));
    assert_eq!(file_stem("noext"), text("noext"));
    assert_eq!(file_stem(".hidden"), text(".hidden"));
    assert_eq!(file_stem("dir/"), None);
}

#[test]
fn paths_are_joined_under_a_base() {
    assert_eq!(join("", "a.txt"), "a.txt");
    assert_eq!(join("base", "a.txt"), "base/a.txt");
    assert_eq!(join("base/", "a.txt"), "base/a.txt");
    assert_eq!(join("base", "/abs/a.txt"), "/abs/a.txt");
    assert_eq!(join("base", ""), "base/");
}

#[test]
fn languages_are_detected_by_extension() {
    assert_eq!(Language::detect_language("a.c"), Some(Language::C));
    assert_eq!(Language::detect_language("dir/a.cpp"), Some(Language::Cpp));
    assert_eq!(Language::detect_language("a.cc"), Some(Language::Cpp));
    assert_eq!(Language::detect_language("a.cxx"), Some(Language::Cpp));
    assert_eq!(Language::detect_language("a.py"), Some(Language::Python));
    assert_eq!(Language::detect_language("a.sh"), Some(Language::Shell));
    assert_eq!(Language::detect_language("a.CPP"), None);
    assert_eq!(Language::detect_language("a.txt"), None);
    assert_eq!(Language::detect_language("cpp"), None);
    assert_eq!(Language::detect_language(".py"), None);
    assert_eq!(Language::detect_language("a.py/"), None);
}

#[test]
fn the_tables_of_the_languages() {
    assert!(Language::C.need_compilation());
    assert!(Language::Cpp.need_compilation());
    assert!(!Language::Python.need_compilation());
    assert!(!Language::Shell.need_compilation());
    assert_eq!(Language::C.name(), "C");
    assert_eq!(Language::Cpp.name(), "C++");
    assert_eq!(Language::Python.name(), "Python");
    assert_eq!(Language::Shell.name(), "Shell");
    assert_eq!(Language::C.compilation_command(), ExecutionCommand::System("gcc".to_string()));
    assert_eq!(Language::Cpp.compilation_command(), ExecutionCommand::System("g++".to_string()));
    assert_eq!(
        Language::Cpp.compilation_args("sol.cpp"),
        vec!["-O2", "-Wall", "-ggdb3", "-DEVAL", "-o", "compiled", "sol.cpp"]
    );
    assert_eq!(Language::Cpp.compiled_file_name(), "compiled");
    assert_eq!(Language::Cpp.executable_name("dir/sol.cpp", &None), "sol");
    assert_eq!(Language::Cpp.executable_name("dir/sol.cpp", &text("bin/solution")), "solution");
    assert_eq!(Language::Cpp.executable_name("dir/sol.cpp", &text("bin/")), "sol");
    assert_eq!(Language::Python.executable_name("dir/sol.py", &text("bin/solution")), "sol.py");
    assert_eq!(
        Language::Shell.runtime_command("gen.sh", &None),
        ExecutionCommand::Local("gen.sh".to_string())
    );
}

#[test]
fn a_source_file_needs_a_known_language() {
    assert!(SourceFile::new("readme.txt".to_string(), String::new(), None).is_none());
    assert!(SourceFile::new("noextension".to_string(), String::new(), None).is_none());
    let source = SourceFile::new("path/to/sourcefile.cpp".to_string(), "base".to_string(), text("exec")).unwrap();
    assert_eq!(source.name(), "sourcefile.cpp");
    assert_eq!(source.write_bin_to(), text("exec"));
    assert_eq!(source.language, Language::Cpp);
    assert_eq!(source.path, "path/to/sourcefile.cpp");
    assert_eq!(source.base_path, "base");
    assert!(source.executable.is_none());
    assert!(!source.copy_exe);
    assert_eq!(source.argument_path("input.txt"), "base/input.txt");
}

#[test]
fn a_compiled_source_file_is_compiled_once() {
    let mut dag = ExecutionDAG::new();
    let mut source = SourceFile::new("dir/test.cpp".to_string(), String::new(), None).unwrap();
    let content = b"int main() {return 0;}";
    let (comp, exec) = source.execute(&mut dag, "Execution", vec!["arg1".to_string()], content, &vec![None]);
    let comp = comp.unwrap();
    assert_eq!(dag.data.execution_groups.len(), 1);
    let compilation = &dag.data.execution_groups[0].executions[0];
    assert_eq!(compilation.uuid, comp);
    assert_eq!(compilation.description, "Compilation of \"test.cpp\"");
    assert_eq!(compilation.command, ExecutionCommand::System("g++".to_string()));
    assert_eq!(compilation.args, vec!["-O2", "-Wall", "-ggdb3", "-DEVAL", "-o", "compiled", "test.cpp"]);
    assert_eq!(compilation.tag, Some(ExecutionTag::from("compilation")));
    assert_eq!(compilation.priority, COMPILATION_PRIORITY);
    assert_eq!(COMPILATION_PRIORITY, 1_000_000_000);
    assert_eq!(compilation.capture_stdout, Some(COMPILATION_CONTENT_LENGTH));
    assert_eq!(compilation.capture_stderr, Some(10 * 1024));
    assert_eq!(compilation.limits, ExecutionLimits { nproc: None, read_only: false, mount_tmpfs: true, ..ExecutionLimits::new() });
    assert_eq!(compilation.inputs.len(), 1);
    assert_eq!(compilation.inputs[0].path, "test.cpp");
    assert!(!compilation.inputs[0].executable);
    assert_eq!(compilation.outputs.len(), 1);
    assert_eq!(compilation.outputs[0].path, "compiled");
    let program = source.executable.clone().unwrap();
    assert_eq!(compilation.outputs[0].file, program);

    // the source is provided to the graph
    assert_eq!(dag.data.provided_files.len(), 1);
    assert_eq!(dag.data.provided_files[0].file.uuid, compilation.inputs[0].file);
    assert_eq!(dag.data.provided_files[0].file.description, "Source file of \"dir/test.cpp\"");
    assert_eq!(dag.data.provided_files[0].key, FileStoreKey::from_content(content));
    assert_eq!(dag.data.provided_files[0].local_path, "dir/test.cpp");

    // the run reads the program and has the arguments
    assert_eq!(exec.description, "Execution");
    assert_eq!(exec.command, ExecutionCommand::Local("test".to_string()));
    assert_eq!(exec.args, vec!["arg1"]);
    assert_eq!(exec.inputs.len(), 1);
    assert_eq!(exec.inputs[0].path, "test");
    assert_eq!(exec.inputs[0].file, program.uuid);
    assert!(exec.inputs[0].executable);
    assert_eq!(exec.limits, ExecutionLimits::new());
    dag.add_execution(exec);
    assert_eq!(dag.data.validate(), Ok(()));

    // the second time there is no compilation
    let (comp, exec) = source.execute(&mut dag, "Execution 2", vec!["arg1".to_string()], content, &vec![]);
    assert!(comp.is_none());
    assert_eq!(exec.inputs[0].file, program.uuid);
    dag.add_execution(exec);
    assert_eq!(dag.data.execution_groups.len(), 3);
    assert_eq!(dag.data.provided_files.len(), 1);
    assert_eq!(source.executable(&mut dag, content), (program.uuid, None));
}

#[test]
fn a_script_is_its_own_program() {
    let mut dag = ExecutionDAG::new();
    let mut source = SourceFile::new("test.py".to_string(), String::new(), None).unwrap();
    let (comp, exec) = source.execute(&mut dag, "Execution", vec!["arg1".to_string()], b"print(1)", &vec![]);
    assert!(comp.is_none());
    assert!(dag.data.execution_groups.is_empty());
    assert_eq!(dag.data.provided_files.len(), 1);
    let program = source.executable.clone().unwrap();
    assert_eq!(dag.data.provided_files[0].file, program);
    assert_eq!(dag.data.provided_files[0].key, FileStoreKey::from_content(b"print(1)"));
    assert_eq!(exec.command, ExecutionCommand::Local("test.py".to_string()));
    assert_eq!(exec.inputs.len(), 1);
    assert_eq!(exec.inputs[0].path, "test.py");
    assert_eq!(exec.inputs[0].file, program.uuid);
    assert!(exec.inputs[0].executable);
}

#[test]
fn arguments_that_are_files_become_inputs() {
    let mut dag = ExecutionDAG::new();
    let mut source = SourceFile::new("gen.py".to_string(), "task/".to_string(), None).unwrap();
    let args = vec!["10".to_string(), "seed.txt".to_string(), "20".to_string()];
    let files = vec![None, Some(b"1234".to_vec())];
    let (_, exec) = source.execute(&mut dag, "Generation", args.clone(), b"print(1)", &files);
    assert_eq!(exec.args, args);
    assert_eq!(exec.inputs.len(), 2);
    assert_eq!(exec.inputs[0].path, "seed.txt");
    assert!(!exec.inputs[0].executable);
    assert_eq!(exec.inputs[1].path, "gen.py");
    assert_eq!(dag.data.provided_files.len(), 2);
    // the program was provided first, then the argument
    assert_eq!(dag.data.provided_files[1].file.uuid, exec.inputs[0].file);
    assert_eq!(dag.data.provided_files[1].key, FileStoreKey::from_content(b"1234"));
    assert_eq!(dag.data.provided_files[1].local_path, "task/seed.txt");
    assert_eq!(
        dag.data.provided_files[1].file.description,
        "Command line dependency \"task/seed.txt\" of \"gen.py\""
    );
}

#[test]
fn the_program_is_copied_where_copies_are_asked_for() {
    // nobody asks
    let mut dag = ExecutionDAG::new();
    let mut source = SourceFile::new("a.cpp".to_string(), String::new(), text("bin/a")).unwrap();
    source.prepare(&mut dag, b"");
    assert!(dag.file_callbacks.is_empty());
    // the graph asks
    let mut dag = ExecutionDAG::new();
    dag.data.config.copy_exe(true);
    let mut source = SourceFile::new("a.cpp".to_string(), String::new(), text("bin/a")).unwrap();
    source.prepare(&mut dag, b"");
    assert_eq!(dag.file_callbacks.len(), 1);
    let program = source.executable.clone().unwrap().uuid;
    assert_eq!(dag.file_callbacks[&program].file, program);
    assert_eq!(dag.file_callbacks[&program].write_to, text("bin/a"));
    // the source file asks
    let mut dag = ExecutionDAG::new();
    let mut source = SourceFile::new("a.sh".to_string(), String::new(), text("bin/a")).unwrap();
    source.copy_exe();
    assert!(source.copy_exe);
    source.prepare(&mut dag, b"");
    let program = source.executable.clone().unwrap().uuid;
    assert_eq!(dag.file_callbacks[&program].write_to, text("bin/a"));
    // without a destination nothing is copied
    let mut dag = ExecutionDAG::new();
    let mut source = SourceFile::new("a.sh".to_string(), String::new(), None).unwrap();
    source.copy_exe();
    source.prepare(&mut dag, b"");
    assert!(dag.file_callbacks.is_empty());
}

fn options() -> Opt {
    Opt {
        exclusive: false,
        task_info: false,
        clean: false,
        keep_sandboxes: false,
        dry_run: false,
        no_cache: None,
        copy_exe: false,
        copy_logs: false,
        extra_time: None,
        max_cache: 3072,
        min_cache: 2048,
        num_cores: None,
        name: None,
    }
}

fn tags() -> Vec<String> {
    vec!["compilation".to_string(), "generation".to_string(), "evaluation".to_string()]
}

#[test]
fn the_plan_of_a_plain_evaluation() {
    match plan_evaluation(&options(), &tags()).unwrap() {
        EvaluationPlan::Evaluate(setup) => {
            assert_eq!(setup.max_store_size, 3072 * 1024 * 1024);
            assert_eq!(setup.min_store_size, 2048 * 1024 * 1024);
            assert_eq!(setup.config.cache_mode, CacheMode::Everything);
            assert_eq!(setup.config.extra_time, 0);
            assert!(!setup.config.keep_sandboxes && !setup.config.dry_run);
            assert!(!setup.config.copy_exe && !setup.config.copy_logs);
        }
        other => panic!("unexpected plan {:?}", other),
    }
    let opt = Opt {
        keep_sandboxes: true,
        dry_run: true,
        copy_exe: true,
        copy_logs: true,
        extra_time: Some(500_000),
        no_cache: text("evaluation"),
        ..options()
    };
    match plan_evaluation(&opt, &tags()).unwrap() {
        EvaluationPlan::Evaluate(setup) => {
            assert_eq!(setup.config.cache_mode, CacheMode::Except(vec!["evaluation".to_string()]));
            assert_eq!(setup.config.extra_time, 500_000);
            assert!(setup.config.keep_sandboxes && setup.config.dry_run);
            assert!(setup.config.copy_exe && setup.config.copy_logs);
        }
        other => panic!("unexpected plan {:?}", other),
    }
}

#[test]
fn the_plan_is_refused_for_what_cannot_be_done() {
    let plan = |opt: Opt| plan_evaluation(&opt, &tags());
    assert_eq!(plan(Opt { exclusive: true, task_info: true, ..options() }).unwrap_err(), EvaluationError::Exclusive);
    assert_eq!(
        plan(Opt { no_cache: text("evaluation,wrong"), ..options() }).unwrap_err(),
        EvaluationError::InvalidCacheMode("wrong".to_string())
    );
    assert_eq!(
        plan(Opt { extra_time: Some(-1), ..options() }).unwrap_err(),
        EvaluationError::NegativeExtraTime(-1)
    );
    assert_eq!(
        plan(Opt { no_cache: text("wrong"), extra_time: Some(-1), ..options() }).unwrap_err(),
        EvaluationError::InvalidCacheMode("wrong".to_string())
    );
    assert_eq!(plan(Opt { max_cache: u64::MAX, ..options() }).unwrap_err(), EvaluationError::StoreTooLarge);
    assert_eq!(plan(Opt { min_cache: 1 << 44, ..options() }).unwrap_err(), EvaluationError::StoreTooLarge);
    assert!(matches!(plan(Opt { max_cache: (1 << 44) - 1, ..options() }), Ok(EvaluationPlan::Evaluate(_))));
}

#[test]
fn the_description_and_the_cleaning_need_no_valid_options() {
    let bad = Opt { no_cache: text("wrong"), extra_time: Some(-5), ..options() };
    assert!(matches!(
        plan_evaluation(&Opt { task_info: true, clean: true, ..bad }, &tags()),
        Ok(EvaluationPlan::TaskInfo)
    ));
    let bad = Opt { no_cache: text("wrong"), extra_time: Some(-5), ..options() };
    assert!(matches!(plan_evaluation(&Opt { clean: true, ..bad }, &tags()), Ok(EvaluationPlan::Clean)));
}

#[test]
fn the_number_of_workers() {
    assert_eq!(worker_count(Some(3), 8), 3);
    assert_eq!(worker_count(None, 8), 8);
    assert_eq!(worker_count(Some(0), 8), 0);
    assert_eq!(local_worker_count(Some(5)), 5);
    assert!(local_worker_count(None) >= 1);
}

#[test]
fn the_name_of_the_client() {
    assert_eq!(client_name_from(text("me"), text("user"), text("host")), "me");
    assert_eq!(client_name_from(None, text("user"), text("host")), "user@host");
    assert_eq!(client_name_from(None, None, text("host")), "unknown@host");
    assert_eq!(client_name_from(None, text("user"), None), "user@unknown");
    assert_eq!(client_name(text("given")), "given");
    assert!(client_name(None).contains('@'));
}

#[test]
fn only_a_y_says_yes() {
    for yes in ["y", "Y", "y\n", "  Y\t\r\n", "\u{a0}y\u{3000}", "\u{2003}y"] {
        assert!(is_confirmation(yes), "{:?}", yes);
    }
    for no in ["", "\n", "n", "yes", "yy", "y y", "Yy", "ÿ", "y.", "\u{200b}y", "no y"] {
        assert!(!is_confirmation(no), "{:?}", no);
    }
}

#[test]
fn descriptions_quote_and_escape_the_names() {
    let mut dag = ExecutionDAG::new();
    let mut source = SourceFile::new("dir/te\"st.c".to_string(), String::new(), None).unwrap();
    let comp = source.prepare(&mut dag, b"int main() {}");
    assert!(comp.is_some());
    let compilation = &dag.data.execution_groups[0].executions[0];
    assert_eq!(compilation.description, "Compilation of \"te\\\"st.c\"");
    assert_eq!(
        dag.data.provided_files[0].file.description,
        "Source file of \"dir/te\\\"st.c\""
    );
}
