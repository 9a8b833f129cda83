use task_maker::dag::execution::{ExecutionResourcesUsage, ExecutionResult, ExecutionStatus};
use task_maker::format::finish_ui::{
    compilation_color, compilation_label, generation_line, result_note, score_color,
    subtask_order, testcase_color, testcase_order, Color, Note, Segment,
};
use task_maker::format::task::{SubtaskInfo, Task, TestcaseInfo, FULL_SCORE};
use task_maker::format::ui_state::TestcaseGenerationState;
use task_maker::format::ui::{UIExecutionStatus, UIMessage};
use task_maker::format::ui_state::{
    CompilationStatus, SolutionEvaluationState, TestcaseEvaluationStatus, TestcaseGenerationStatus,
    UIState,
};
use task_maker::score_types::min::ScoreTypeMin;

fn task() -> Task {
    Task {
        path: "/tasks/sum".to_string(),
        name: "sum".to_string(),
        title: "Sum of two numbers".to_string(),
        time_limit: Some(1_000_000),
        memory_limit: Some(65536),
        subtasks: vec![
            SubtaskInfo {
                id: 10,
                max_score: 40 * FULL_SCORE,
                testcases: vec![TestcaseInfo { id: 0 }, TestcaseInfo { id: 1 }],
            },
            SubtaskInfo { id: 20, max_score: 60 * FULL_SCORE, testcases: vec![TestcaseInfo { id: 2 }] },
        ],
    }
}

fn result(status: ExecutionStatus) -> ExecutionResult {
    ExecutionResult {
        status,
        was_killed: false,
        was_cached: false,
        resources: ExecutionResourcesUsage { cpu_time: 1, sys_time: 1, wall_time: 1, memory: 1 },
        stdout: None,
        stderr: None,
    }
}

fn done(status: ExecutionStatus) -> UIExecutionStatus {
    UIExecutionStatus::Done { result: result(status) }
}

#[test]
fn the_task_is_searched_by_identifier() {
    let task = task();
    assert_eq!(task.find_subtask(10), Some(0));
    assert_eq!(task.find_subtask(20), Some(1));
    assert_eq!(task.find_subtask(0), None);
    assert_eq!(task.find_testcase(10, 1), Some((0, 1)));
    assert_eq!(task.find_testcase(20, 2), Some((1, 0)));
    assert_eq!(task.find_testcase(20, 1), None);
    assert_eq!(task.find_testcase(30, 0), None);
    assert_eq!(task.subtasks[0].find_testcase(1), Some(1));
    assert_eq!(task.max_score(), 100 * FULL_SCORE as u128);
}

#[test]
fn a_new_state_mirrors_the_task() {
    let state = UIState::new(task());
    assert_eq!(state.max_score, 100 * FULL_SCORE as u128);
    assert!(state.compilations.is_empty());
    assert!(state.evaluations.is_empty());
    assert_eq!(state.generations.len(), 2);
    assert_eq!(state.generations[0].testcases.len(), 2);
    assert_eq!(state.generations[1].testcases.len(), 1);
    for subtask in &state.generations {
        for testcase in &subtask.testcases {
            assert_eq!(testcase.status, TestcaseGenerationStatus::Pending);
            assert!(testcase.generation.is_none());
            assert!(testcase.validation.is_none());
            assert!(testcase.solution.is_none());
        }
    }
    let evaluation = SolutionEvaluationState::new(&state.task);
    assert_eq!(evaluation.score, None);
    assert_eq!(evaluation.subtasks.len(), 2);
    assert_eq!(evaluation.subtasks[0].testcases.len(), 2);
    assert_eq!(evaluation.subtasks[0].testcases[1].status, TestcaseEvaluationStatus::Pending);
    assert_eq!(evaluation.subtasks[1].score, None);
}

#[test]
fn the_messages_of_the_statuses() {
    assert_eq!(TestcaseEvaluationStatus::Pending.message(), "Not done");
    assert_eq!(TestcaseEvaluationStatus::Solving.message(), "Solution running");
    assert_eq!(TestcaseEvaluationStatus::Solved.message(), "Solution completed");
    assert_eq!(TestcaseEvaluationStatus::Checking.message(), "Checker running");
    assert_eq!(TestcaseEvaluationStatus::Accepted(String::new()).message(), "Output is correct");
    assert_eq!(TestcaseEvaluationStatus::Accepted("Well done".to_string()).message(), "Well done");
    assert_eq!(TestcaseEvaluationStatus::WrongAnswer(String::new()).message(), "Output is not correct");
    assert_eq!(TestcaseEvaluationStatus::WrongAnswer("Line 3 differs".to_string()).message(), "Line 3 differs");
    assert_eq!(TestcaseEvaluationStatus::Partial(String::new()).message(), "Partially correct");
    assert_eq!(TestcaseEvaluationStatus::Partial("Half".to_string()).message(), "Half");
    assert_eq!(TestcaseEvaluationStatus::TimeLimitExceeded.message(), "Time limit exceeded");
    assert_eq!(TestcaseEvaluationStatus::WallTimeLimitExceeded.message(), "Execution took too long");
    assert_eq!(TestcaseEvaluationStatus::MemoryLimitExceeded.message(), "Memory limit exceeded");
    assert_eq!(TestcaseEvaluationStatus::RuntimeError.message(), "Runtime error");
    assert_eq!(TestcaseEvaluationStatus::Failed.message(), "Execution failed");
    assert_eq!(TestcaseEvaluationStatus::Skipped.message(), "Execution skipped");
}

#[test]
fn which_statuses_are_final() {
    for status in [TestcaseEvaluationStatus::Pending, TestcaseEvaluationStatus::Solving, TestcaseEvaluationStatus::Solved, TestcaseEvaluationStatus::Checking] {
        assert!(!status.has_completed());
        assert!(!status.is_success());
        assert!(!status.is_partial());
    }
    for status in [
        TestcaseEvaluationStatus::Accepted(String::new()),
        TestcaseEvaluationStatus::WrongAnswer(String::new()),
        TestcaseEvaluationStatus::Partial(String::new()),
        TestcaseEvaluationStatus::TimeLimitExceeded,
        TestcaseEvaluationStatus::WallTimeLimitExceeded,
        TestcaseEvaluationStatus::MemoryLimitExceeded,
        TestcaseEvaluationStatus::RuntimeError,
        TestcaseEvaluationStatus::Failed,
        TestcaseEvaluationStatus::Skipped,
    ] {
        assert!(status.has_completed());
    }
    assert!(TestcaseEvaluationStatus::Accepted("x".to_string()).is_success());
    assert!(!TestcaseEvaluationStatus::Partial("x".to_string()).is_success());
    assert!(TestcaseEvaluationStatus::Partial("x".to_string()).is_partial());
    assert!(!TestcaseEvaluationStatus::WrongAnswer("x".to_string()).is_partial());
}

#[test]
fn a_compilation_goes_through_its_statuses() {
    let mut state = UIState::new(task());
    let file = || "sol.cpp".to_string();
    state.apply(UIMessage::Compilation { file: file(), status: UIExecutionStatus::Pending });
    assert_eq!(state.compilations.len(), 1);
    assert_eq!(state.compilations[0].file, "sol.cpp");
    assert_eq!(state.compilations[0].status, CompilationStatus::Pending);
    state.apply(UIMessage::Compilation { file: file(), status: UIExecutionStatus::Started { worker: 1 } });
    assert_eq!(state.compilations[0].status, CompilationStatus::Running);
    state.apply(UIMessage::Compilation { file: file(), status: done(ExecutionStatus::Success) });
    assert_eq!(
        state.compilations[0].status,
        CompilationStatus::Done { result: result(ExecutionStatus::Success) }
    );
    state.apply(UIMessage::Compilation { file: "bad.cpp".to_string(), status: done(ExecutionStatus::ReturnCode(1)) });
    assert_eq!(state.compilations.len(), 2);
    assert_eq!(
        state.compilations[1].status,
        CompilationStatus::Failed { result: result(ExecutionStatus::ReturnCode(1)) }
    );
    state.apply(UIMessage::Compilation { file: "bad.cpp".to_string(), status: UIExecutionStatus::Skipped });
    assert_eq!(state.compilations[1].status, CompilationStatus::Skipped);
    assert_eq!(state.compilations.len(), 2);
}

#[test]
fn a_generation_goes_through_its_steps() {
    let mut state = UIState::new(task());
    let started = || UIExecutionStatus::Started { worker: 3 };
    state.apply(UIMessage::IOIGeneration { subtask: 10, testcase: 1, status: started() });
    assert_eq!(state.generations[0].testcases[1].status, TestcaseGenerationStatus::Generating);
    state.apply(UIMessage::IOIGeneration { subtask: 10, testcase: 1, status: done(ExecutionStatus::Success) });
    assert_eq!(state.generations[0].testcases[1].status, TestcaseGenerationStatus::Generated);
    assert_eq!(state.generations[0].testcases[1].generation, Some(result(ExecutionStatus::Success)));
    state.apply(UIMessage::IOIValidation { subtask: 10, testcase: 1, status: started() });
    assert_eq!(state.generations[0].testcases[1].status, TestcaseGenerationStatus::Validating);
    state.apply(UIMessage::IOIValidation { subtask: 10, testcase: 1, status: done(ExecutionStatus::Success) });
    assert_eq!(state.generations[0].testcases[1].status, TestcaseGenerationStatus::Validated);
    state.apply(UIMessage::IOISolution { subtask: 10, testcase: 1, status: started() });
    assert_eq!(state.generations[0].testcases[1].status, TestcaseGenerationStatus::Solving);
    state.apply(UIMessage::IOISolution { subtask: 10, testcase: 1, status: done(ExecutionStatus::Success) });
    assert_eq!(state.generations[0].testcases[1].status, TestcaseGenerationStatus::Solved);
    assert!(state.generations[0].testcases[1].validation.is_some());
    assert!(state.generations[0].testcases[1].solution.is_some());
    // the other testcases did not move
    assert_eq!(state.generations[0].testcases[0].status, TestcaseGenerationStatus::Pending);
    assert_eq!(state.generations[1].testcases[0].status, TestcaseGenerationStatus::Pending);
    state.apply(UIMessage::IOIGeneration { subtask: 10, testcase: 1, status: UIExecutionStatus::Pending });
    assert_eq!(state.generations[0].testcases[1].status, TestcaseGenerationStatus::Pending);
}

#[test]
fn a_failed_generation_stays_failed_when_the_rest_is_skipped() {
    let mut state = UIState::new(task());
    state.apply(UIMessage::IOIGeneration { subtask: 20, testcase: 2, status: done(ExecutionStatus::ReturnCode(1)) });
    assert_eq!(state.generations[1].testcases[0].status, TestcaseGenerationStatus::Failed);
    state.apply(UIMessage::IOIValidation { subtask: 20, testcase: 2, status: UIExecutionStatus::Skipped });
    assert_eq!(state.generations[1].testcases[0].status, TestcaseGenerationStatus::Failed);
    state.apply(UIMessage::IOISolution { subtask: 20, testcase: 2, status: UIExecutionStatus::Skipped });
    assert_eq!(state.generations[1].testcases[0].status, TestcaseGenerationStatus::Failed);
    // a skipped generation is skipped whatever came before
    state.apply(UIMessage::IOIGeneration { subtask: 20, testcase: 2, status: UIExecutionStatus::Skipped });
    assert_eq!(state.generations[1].testcases[0].status, TestcaseGenerationStatus::Skipped);
    // a validation that is skipped without a failure is skipped
    state.apply(UIMessage::IOIValidation { subtask: 10, testcase: 0, status: UIExecutionStatus::Skipped });
    assert_eq!(state.generations[0].testcases[0].status, TestcaseGenerationStatus::Skipped);
    state.apply(UIMessage::IOIValidation { subtask: 10, testcase: 1, status: done(ExecutionStatus::Signal(6, "SIGABRT".to_string())) });
    assert_eq!(state.generations[0].testcases[1].status, TestcaseGenerationStatus::Failed);
}

#[test]
fn an_evaluation_follows_the_status_of_the_run() {
    let cases = [
        (ExecutionStatus::Success, TestcaseEvaluationStatus::Solved),
        (ExecutionStatus::ReturnCode(1), TestcaseEvaluationStatus::RuntimeError),
        (ExecutionStatus::Signal(11, "SIGSEGV".to_string()), TestcaseEvaluationStatus::RuntimeError),
        (ExecutionStatus::TimeLimitExceeded, TestcaseEvaluationStatus::TimeLimitExceeded),
        (ExecutionStatus::SysTimeLimitExceeded, TestcaseEvaluationStatus::TimeLimitExceeded),
        (ExecutionStatus::WallTimeLimitExceeded, TestcaseEvaluationStatus::WallTimeLimitExceeded),
        (ExecutionStatus::MemoryLimitExceeded, TestcaseEvaluationStatus::MemoryLimitExceeded),
        (ExecutionStatus::InternalError("x".to_string()), TestcaseEvaluationStatus::Failed),
    ];
    for (status, expected) in cases {
        let mut state = UIState::new(task());
        let solution = || "sol.py".to_string();
        state.apply(UIMessage::IOIEvaluation { subtask: 10, testcase: 0, solution: solution(), status: UIExecutionStatus::Pending });
        assert_eq!(state.evaluations.len(), 1);
        assert_eq!(state.evaluations[0].solution, "sol.py");
        assert_eq!(state.evaluations[0].state.subtasks[0].testcases[0].status, TestcaseEvaluationStatus::Pending);
        state.apply(UIMessage::IOIEvaluation { subtask: 10, testcase: 0, solution: solution(), status: UIExecutionStatus::Started { worker: 1 } });
        assert_eq!(state.evaluations[0].state.subtasks[0].testcases[0].status, TestcaseEvaluationStatus::Solving);
        state.apply(UIMessage::IOIEvaluation { subtask: 10, testcase: 0, solution: solution(), status: done(status.clone()) });
        let testcase = &state.evaluations[0].state.subtasks[0].testcases[0];
        assert_eq!(testcase.status, expected);
        assert_eq!(testcase.result, Some(result(status)));
        assert_eq!(state.evaluations.len(), 1);
    }
}

#[test]
fn the_checker_and_the_score_decide_the_verdict() {
    let mut state = UIState::new(task());
    let solution = || "sol.cpp".to_string();
    state.apply(UIMessage::IOIEvaluation { subtask: 10, testcase: 0, solution: solution(), status: done(ExecutionStatus::Success) });
    state.apply(UIMessage::IOIChecker { subtask: 10, testcase: 0, solution: solution(), status: UIExecutionStatus::Started { worker: 2 } });
    assert_eq!(state.evaluations[0].state.subtasks[0].testcases[0].status, TestcaseEvaluationStatus::Checking);
    state.apply(UIMessage::IOIChecker { subtask: 10, testcase: 0, solution: solution(), status: done(ExecutionStatus::Success) });
    assert!(state.evaluations[0].state.subtasks[0].testcases[0].checker.is_some());
    assert_eq!(state.evaluations[0].state.subtasks[0].testcases[0].status, TestcaseEvaluationStatus::Checking);
    state.apply(UIMessage::IOIChecker { subtask: 10, testcase: 0, solution: solution(), status: UIExecutionStatus::Skipped });
    assert_eq!(state.evaluations[0].state.subtasks[0].testcases[0].status, TestcaseEvaluationStatus::Checking);

    state.apply(UIMessage::IOITestcaseScore { subtask: 10, testcase: 0, solution: solution(), score: FULL_SCORE, message: "ok".to_string() });
    let testcase = &state.evaluations[0].state.subtasks[0].testcases[0];
    assert_eq!(testcase.score, Some(FULL_SCORE));
    assert_eq!(testcase.status, TestcaseEvaluationStatus::Accepted("ok".to_string()));

    state.apply(UIMessage::IOITestcaseScore { subtask: 10, testcase: 1, solution: solution(), score: 0, message: "no".to_string() });
    assert_eq!(state.evaluations[0].state.subtasks[0].testcases[1].status, TestcaseEvaluationStatus::WrongAnswer("no".to_string()));
    state.apply(UIMessage::IOITestcaseScore { subtask: 20, testcase: 2, solution: solution(), score: FULL_SCORE / 2, message: String::new() });
    assert_eq!(state.evaluations[0].state.subtasks[1].testcases[0].status, TestcaseEvaluationStatus::Partial(String::new()));
}

#[test]
fn the_full_score_has_a_margin_of_a_thousandth() {
    for (score, accepted) in [
        (FULL_SCORE - 1000, false),
        (FULL_SCORE - 999, true),
        (FULL_SCORE, true),
        (FULL_SCORE + 999, true),
        (FULL_SCORE + 1000, false),
        (1, false),
    ] {
        let mut state = UIState::new(task());
        state.apply(UIMessage::IOITestcaseScore { subtask: 10, testcase: 0, solution: "s".to_string(), score, message: String::new() });
        let status = &state.evaluations[0].state.subtasks[0].testcases[0].status;
        assert_eq!(status.is_success(), accepted);
        assert_eq!(status.is_partial(), !accepted);
    }
}

#[test]
fn a_score_does_not_change_a_verdict_that_is_final() {
    let mut state = UIState::new(task());
    let solution = || "slow.cpp".to_string();
    state.apply(UIMessage::IOIEvaluation { subtask: 10, testcase: 0, solution: solution(), status: done(ExecutionStatus::TimeLimitExceeded) });
    state.apply(UIMessage::IOITestcaseScore { subtask: 10, testcase: 0, solution: solution(), score: 0, message: "timeout".to_string() });
    let testcase = &state.evaluations[0].state.subtasks[0].testcases[0];
    assert_eq!(testcase.status, TestcaseEvaluationStatus::TimeLimitExceeded);
    assert_eq!(testcase.score, Some(0));
    state.apply(UIMessage::IOIEvaluation { subtask: 10, testcase: 1, solution: solution(), status: UIExecutionStatus::Skipped });
    assert_eq!(state.evaluations[0].state.subtasks[0].testcases[1].status, TestcaseEvaluationStatus::Skipped);
}

#[test]
fn scores_of_subtasks_and_tasks_are_kept_by_solution() {
    let mut state = UIState::new(task());
    state.apply(UIMessage::IOISubtaskScore { subtask: 20, solution: "a.cpp".to_string(), score: 60 * FULL_SCORE });
    state.apply(UIMessage::IOITaskScore { solution: "b.cpp".to_string(), score: 7 });
    state.apply(UIMessage::IOITaskScore { solution: "a.cpp".to_string(), score: 60 * FULL_SCORE });
    assert_eq!(state.evaluations.len(), 2);
    assert_eq!(state.evaluations[0].solution, "a.cpp");
    assert_eq!(state.evaluations[0].state.score, Some(60 * FULL_SCORE));
    assert_eq!(state.evaluations[0].state.subtasks[1].score, Some(60 * FULL_SCORE));
    assert_eq!(state.evaluations[0].state.subtasks[0].score, None);
    assert_eq!(state.evaluations[1].solution, "b.cpp");
    assert_eq!(state.evaluations[1].state.score, Some(7));
    state.apply(UIMessage::StopUI);
    assert_eq!(state.evaluations.len(), 2);
}

#[test]
fn messages_about_what_the_task_does_not_have_are_told_apart() {
    let state = UIState::new(task());
    assert!(state.accepts(&UIMessage::StopUI));
    assert!(state.accepts(&UIMessage::Compilation { file: "x".to_string(), status: UIExecutionStatus::Pending }));
    assert!(state.accepts(&UIMessage::IOIGeneration { subtask: 10, testcase: 0, status: UIExecutionStatus::Pending }));
    assert!(!state.accepts(&UIMessage::IOIGeneration { subtask: 10, testcase: 2, status: UIExecutionStatus::Pending }));
    assert!(!state.accepts(&UIMessage::IOIValidation { subtask: 11, testcase: 0, status: UIExecutionStatus::Pending }));
    assert!(!state.accepts(&UIMessage::IOISolution { subtask: 20, testcase: 0, status: UIExecutionStatus::Pending }));
    assert!(!state.accepts(&UIMessage::IOIEvaluation { subtask: 20, testcase: 0, solution: "s".to_string(), status: UIExecutionStatus::Pending }));
    assert!(!state.accepts(&UIMessage::IOIChecker { subtask: 0, testcase: 0, solution: "s".to_string(), status: UIExecutionStatus::Pending }));
    assert!(!state.accepts(&UIMessage::IOITestcaseScore { subtask: 10, testcase: 9, solution: "s".to_string(), score: 0, message: String::new() }));
    assert!(state.accepts(&UIMessage::IOISubtaskScore { subtask: 20, solution: "s".to_string(), score: 0 }));
    assert!(!state.accepts(&UIMessage::IOISubtaskScore { subtask: 21, solution: "s".to_string(), score: 0 }));
    assert!(state.accepts(&UIMessage::IOITaskScore { solution: "s".to_string(), score: 0 }));
}

#[test]
fn a_subtask_is_worth_its_worst_testcase() {
    let mut scores = ScoreTypeMin::new(task());
    assert_eq!(scores.get_task_score(), None);
    assert_eq!(scores.get_subtask_score(10), None);
    assert!(!scores.testcase_score(10, 0, FULL_SCORE));
    assert_eq!(scores.get_subtask_score(10), None);
    assert!(scores.testcase_score(10, 1, FULL_SCORE / 2));
    // half of 40 points
    assert_eq!(scores.get_subtask_score(10), Some(20 * FULL_SCORE));
    assert_eq!(scores.get_task_score(), None);
    assert!(scores.testcase_score(20, 2, FULL_SCORE));
    assert_eq!(scores.get_subtask_score(20), Some(60 * FULL_SCORE));
    assert_eq!(scores.get_task_score(), Some(80 * FULL_SCORE as u128));
    // a better score for the worst testcase raises the subtask and the task
    assert!(scores.testcase_score(10, 1, FULL_SCORE));
    assert_eq!(scores.get_subtask_score(10), Some(40 * FULL_SCORE));
    assert_eq!(scores.get_task_score(), Some(100 * FULL_SCORE as u128));
    assert_eq!(scores.get_subtask_score(30), None);
}

#[test]
fn a_score_above_the_full_score_counts_as_full_and_shares_are_rounded_down() {
    let mut task = task();
    task.subtasks.truncate(1);
    task.subtasks[0].max_score = 10;
    let mut scores = ScoreTypeMin::new(task);
    scores.testcase_score(10, 0, 3 * FULL_SCORE);
    assert!(scores.testcase_score(10, 1, 2 * FULL_SCORE));
    assert_eq!(scores.get_subtask_score(10), Some(10));
    scores.testcase_score(10, 1, 333_333);
    // 10 * 0.333333 = 3.33333, rounded down
    assert_eq!(scores.get_subtask_score(10), Some(3));
    assert_eq!(scores.get_task_score(), Some(3));
    scores.testcase_score(10, 0, 0);
    assert_eq!(scores.get_subtask_score(10), Some(0));
}

#[test]
fn the_report_shows_subtasks_and_testcases_in_ascending_order() {
    let mut task = task();
    task.subtasks[0].id = 30;
    task.subtasks[0].testcases = vec![TestcaseInfo { id: 9 }, TestcaseInfo { id: 3 }, TestcaseInfo { id: 5 }];
    task.subtasks.push(SubtaskInfo { id: 1, max_score: 0, testcases: vec![] });
    assert_eq!(subtask_order(&task), vec![1, 20, 30]);
    assert_eq!(testcase_order(&task.subtasks[0]), vec![3, 5, 9]);
    assert!(testcase_order(&task.subtasks[2]).is_empty());
}

#[test]
fn the_colours_of_the_report() {
    assert_eq!(score_color(100, 100), Color::Green);
    assert_eq!(score_color(0, 100), Color::Red);
    assert_eq!(score_color(40, 100), Color::Yellow);
    assert_eq!(score_color(0, 0), Color::Green);
    assert_eq!(testcase_color(FULL_SCORE), Color::Green);
    assert_eq!(testcase_color(0), Color::Red);
    assert_eq!(testcase_color(FULL_SCORE - 1), Color::Yellow);
    let done = CompilationStatus::Done { result: result(ExecutionStatus::Success) };
    let failed = CompilationStatus::Failed { result: result(ExecutionStatus::ReturnCode(1)) };
    assert_eq!((compilation_color(&done), compilation_label(&done).as_str()), (Color::Green, " OK  "));
    assert_eq!((compilation_color(&failed), compilation_label(&failed).as_str()), (Color::Red, "FAIL "));
    for (status, label) in [
        (CompilationStatus::Pending, "Pending"),
        (CompilationStatus::Running, "Running"),
        (CompilationStatus::Skipped, "Skipped"),
    ] {
        assert_eq!(compilation_color(&status), Color::Yellow);
        assert_eq!(compilation_label(&status), label);
    }
}

#[test]
fn the_line_of_a_generation() {
    let state = |generation: Option<ExecutionStatus>, validation: Option<ExecutionStatus>, solution: Option<ExecutionStatus>| TestcaseGenerationState {
        status: TestcaseGenerationStatus::Pending,
        generation: generation.map(result),
        validation: validation.map(result),
        solution: solution.map(result),
    };
    assert!(generation_line(&state(None, None, None)).is_empty());
    assert_eq!(
        generation_line(&state(Some(ExecutionStatus::Success), Some(ExecutionStatus::Success), Some(ExecutionStatus::ReturnCode(1)))),
        vec![
            Segment::Generation { success: true },
            Segment::Separator,
            Segment::Validation { success: true },
            Segment::Separator,
            Segment::Solution { success: false },
        ]
    );
    assert_eq!(
        generation_line(&state(Some(ExecutionStatus::TimeLimitExceeded), None, None)),
        vec![Segment::Generation { success: false }, Segment::Separator, Segment::Separator]
    );
    assert_eq!(
        generation_line(&state(None, Some(ExecutionStatus::Success), None)),
        vec![Segment::Validation { success: true }, Segment::Separator]
    );
    assert_eq!(
        generation_line(&state(None, None, Some(ExecutionStatus::Success))),
        vec![Segment::Solution { success: true }]
    );
}

#[test]
fn the_note_on_a_run_that_did_not_end_well() {
    assert_eq!(result_note(&ExecutionStatus::Success), None);
    assert_eq!(result_note(&ExecutionStatus::MemoryLimitExceeded), None);
    assert_eq!(result_note(&ExecutionStatus::ReturnCode(3)), Some(Note::Exited(3)));
    assert_eq!(
        result_note(&ExecutionStatus::Signal(11, "SIGSEGV".to_string())),
        Some(Note::Signal(11, "SIGSEGV".to_string()))
    );
    assert_eq!(
        result_note(&ExecutionStatus::InternalError("no sandbox".to_string())),
        Some(Note::InternalError("no sandbox".to_string()))
    );
}
