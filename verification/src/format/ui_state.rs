//! The state of the evaluation of a task, as a user interface shows it. The
//! state is built from the task and changes only by the messages applied to it.

use vstd::prelude::*;
use crate::dag::execution::{ExecutionResult, ExecutionStatus, ExecutionStatusView};
use crate::format::task::{
    Score, SubtaskId, SubtaskInfo, Task, TestcaseId, TestcaseInfo, FULL_SCORE, total_score,
};
use crate::format::ui::{UIExecutionStatus, UIMessage};
use crate::search::{first_position, lemma_first_position, lemma_first_position_is};

verus! {

/// The status of the compilation of a file.
#[derive(Debug, PartialEq, Eq)]
pub enum CompilationStatus {
    /// The compilation is known but it has not started yet.
    Pending,
    /// The compilation is running on a worker.
    Running,
    /// The compilation has completed.
    Done {
        /// The result of the compilation.
        result: ExecutionResult,
    },
    /// The compilation has failed.
    Failed {
        /// The result of the compilation.
        result: ExecutionResult,
    },
    /// The compilation has been skipped.
    Skipped,
}

/// Status of the generation of a testcase input and output.
#[derive(Debug, Clone, Copy, PartialEq, Eq, Structural)]
pub enum TestcaseGenerationStatus {
    /// The generation has not started yet.
    Pending,
    /// The input file is generating.
    Generating,
    /// The input file has been generated.
    Generated,
    /// The input file is being validated.
    Validating,
    /// The input file has been validated.
    Validated,
    /// The output file is generating.
    Solving,
    /// The output file has been generated.
    Solved,
    /// The generation of the testcase has failed.
    Failed,
    /// The generation has been skipped.
    Skipped,
}

/// Status of the evaluation of a solution on a testcase.
#[derive(Debug, PartialEq, Eq)]
pub enum TestcaseEvaluationStatus {
    /// The solution has not started yet.
    Pending,
    /// The solution is running.
    Solving,
    /// The solution exited successfully, waiting for the checker.
    Solved,
    /// Checker is running.
    Checking,
    /// The solution scored 100% of the testcase.
    Accepted(String),
    /// The output is wrong.
    WrongAnswer(String),
    /// The solution is partially correct.
    Partial(String),
    /// The solution timed out.
    TimeLimitExceeded,
    /// The solution exceeded the wall time limit.
    WallTimeLimitExceeded,
    /// The solution exceeded the memory limit.
    MemoryLimitExceeded,
    /// The solution crashed.
    RuntimeError,
    /// Something went wrong.
    Failed,
    /// The evaluation has been skipped.
    Skipped,
}

/// The text shown for a checker's message: the message, or `default` where it is empty.
pub open spec fn message_or(message: Seq<char>, default: Seq<char>) -> Seq<char> {
    if message.len() == 0 {
        default
    } else {
        message
    }
}

impl TestcaseEvaluationStatus {
    /// Whether the evaluation has ended, well or not.
    pub open spec fn spec_has_completed(&self) -> bool {
        !(*self is Pending || *self is Solving || *self is Solved || *self is Checking)
    }

    /// Whether the testcase evaluation has completed, either successfully or not.
    #[verifier::when_used_as_spec(spec_has_completed)]
    pub fn has_completed(&self) -> (completed: bool)
        ensures
            completed == self.spec_has_completed(),
    {
        match self {
            TestcaseEvaluationStatus::Pending
            | TestcaseEvaluationStatus::Solving
            | TestcaseEvaluationStatus::Solved
            | TestcaseEvaluationStatus::Checking => false,
            _ => true,
        }
    }

    /// Whether the testcase evaluation has completed successfully.
    pub fn is_success(&self) -> (success: bool)
        ensures
            success == (*self is Accepted),
    {
        match self {
            TestcaseEvaluationStatus::Accepted(_) => true,
            _ => false,
        }
    }

    /// Whether the testcase evaluation has completed with a partial score.
    pub fn is_partial(&self) -> (partial: bool)
        ensures
            partial == (*self is Partial),
    {
        match self {
            TestcaseEvaluationStatus::Partial(_) => true,
            _ => false,
        }
    }

    /// The text shown for the status.
    pub open spec fn spec_message(&self) -> Seq<char> {
        match *self {
            TestcaseEvaluationStatus::Pending => "Not done"@,
            TestcaseEvaluationStatus::Solving => "Solution running"@,
            TestcaseEvaluationStatus::Solved => "Solution completed"@,
            TestcaseEvaluationStatus::Checking => "Checker running"@,
            TestcaseEvaluationStatus::Accepted(s) => message_or(s@, "Output is correct"@),
            TestcaseEvaluationStatus::WrongAnswer(s) => message_or(s@, "Output is not correct"@),
            TestcaseEvaluationStatus::Partial(s) => message_or(s@, "Partially correct"@),
            TestcaseEvaluationStatus::TimeLimitExceeded => "Time limit exceeded"@,
            TestcaseEvaluationStatus::WallTimeLimitExceeded => "Execution took too long"@,
            TestcaseEvaluationStatus::MemoryLimitExceeded => "Memory limit exceeded"@,
            TestcaseEvaluationStatus::RuntimeError => "Runtime error"@,
            TestcaseEvaluationStatus::Failed => "Execution failed"@,
            TestcaseEvaluationStatus::Skipped => "Execution skipped"@,
        }
    }

    /// The text shown for the status: what the checker said where it said
    /// something, a fixed text otherwise.
    pub fn message(&self) -> (text: String)
        ensures
            text@ == self.spec_message(),
    {
        match self {
            TestcaseEvaluationStatus::Pending => "Not done".to_owned(),
            TestcaseEvaluationStatus::Solving => "Solution running".to_owned(),
            TestcaseEvaluationStatus::Solved => "Solution completed".to_owned(),
            TestcaseEvaluationStatus::Checking => "Checker running".to_owned(),
            TestcaseEvaluationStatus::Accepted(s) => {
                if s.as_str().is_empty() {
                    "Output is correct".to_owned()
                } else {
                    s.clone()
                }
            },
            TestcaseEvaluationStatus::WrongAnswer(s) => {
                if s.as_str().is_empty() {
                    "Output is not correct".to_owned()
                } else {
                    s.clone()
                }
            },
            TestcaseEvaluationStatus::Partial(s) => {
                if s.as_str().is_empty() {
                    "Partially correct".to_owned()
                } else {
                    s.clone()
                }
            },
            TestcaseEvaluationStatus::TimeLimitExceeded => "Time limit exceeded".to_owned(),
            TestcaseEvaluationStatus::WallTimeLimitExceeded => "Execution took too long".to_owned(),
            TestcaseEvaluationStatus::MemoryLimitExceeded => "Memory limit exceeded".to_owned(),
            TestcaseEvaluationStatus::RuntimeError => "Runtime error".to_owned(),
            TestcaseEvaluationStatus::Failed => "Execution failed".to_owned(),
            TestcaseEvaluationStatus::Skipped => "Execution skipped".to_owned(),
        }
    }
}

/// State of the generation of a testcase.
#[derive(Debug)]
pub struct TestcaseGenerationState {
    /// Status of the generation.
    pub status: TestcaseGenerationStatus,
    /// Result of the generation.
    pub generation: Option<ExecutionResult>,
    /// Result of the validation.
    pub validation: Option<ExecutionResult>,
    /// Result of the solution.
    pub solution: Option<ExecutionResult>,
}

/// State of the generation of a subtask.
#[derive(Debug)]
pub struct SubtaskGenerationState {
    /// State of the testcases of this subtask, in the order of the task.
    pub testcases: Vec<TestcaseGenerationState>,
}

/// State of the evaluation of a testcase.
#[derive(Debug)]
pub struct SolutionTestcaseEvaluationState {
    /// The score on that testcase.
    pub score: Option<Score>,
    /// The status of the execution.
    pub status: TestcaseEvaluationStatus,
    /// The result of the solution.
    pub result: Option<ExecutionResult>,
    /// The result of the checker.
    pub checker: Option<ExecutionResult>,
}

/// State of the evaluation of a subtask.
#[derive(Debug)]
pub struct SolutionSubtaskEvaluationState {
    /// Score of the subtask.
    pub score: Option<Score>,
    /// The state of the evaluation of the testcases, in the order of the task.
    pub testcases: Vec<SolutionTestcaseEvaluationState>,
}

/// State of the evaluation of a solution.
#[derive(Debug)]
pub struct SolutionEvaluationState {
    /// Score of the solution.
    pub score: Option<Score>,
    /// The state of the evaluation of the subtasks, in the order of the task.
    pub subtasks: Vec<SolutionSubtaskEvaluationState>,
}

/// Mathematical value of a [`SolutionSubtaskEvaluationState`].
pub struct SubtaskEvaluationView {
    pub score: Option<Score>,
    pub testcases: Seq<SolutionTestcaseEvaluationState>,
}

/// Mathematical value of a [`SolutionEvaluationState`].
pub struct SolutionEvaluationView {
    pub score: Option<Score>,
    pub subtasks: Seq<SubtaskEvaluationView>,
}

impl View for SubtaskGenerationState {
    type V = Seq<TestcaseGenerationState>;

    open spec fn view(&self) -> Seq<TestcaseGenerationState> {
        self.testcases@
    }
}

impl View for SolutionSubtaskEvaluationState {
    type V = SubtaskEvaluationView;

    open spec fn view(&self) -> SubtaskEvaluationView {
        SubtaskEvaluationView { score: self.score, testcases: self.testcases@ }
    }
}

impl View for SolutionEvaluationState {
    type V = SolutionEvaluationView;

    open spec fn view(&self) -> SolutionEvaluationView {
        SolutionEvaluationView {
            score: self.score,
            subtasks: self.subtasks@.map_values(|subtask: SolutionSubtaskEvaluationState| subtask@),
        }
    }
}

/// The state of a testcase on which the solution has not run.
pub open spec fn pending_testcase() -> SolutionTestcaseEvaluationState {
    SolutionTestcaseEvaluationState {
        score: None,
        status: TestcaseEvaluationStatus::Pending,
        result: None,
        checker: None,
    }
}

/// The state of a testcase whose generation has not started.
pub open spec fn pending_generation() -> TestcaseGenerationState {
    TestcaseGenerationState {
        status: TestcaseGenerationStatus::Pending,
        generation: None,
        validation: None,
        solution: None,
    }
}

/// The state of a solution that has not run on any testcase of these subtasks.
pub open spec fn pending_evaluation(subtasks: Seq<SubtaskInfo>) -> SolutionEvaluationView {
    SolutionEvaluationView {
        score: None,
        subtasks: subtasks.map_values(
            |subtask: SubtaskInfo|
                SubtaskEvaluationView {
                    score: None,
                    testcases: subtask.testcases@.map_values(
                        |testcase: TestcaseInfo| pending_testcase(),
                    ),
                },
        ),
    }
}

/// The state of the generation of these subtasks before it starts.
pub open spec fn pending_generations(subtasks: Seq<SubtaskInfo>) -> Seq<
    Seq<TestcaseGenerationState>,
> {
    subtasks.map_values(
        |subtask: SubtaskInfo|
            subtask.testcases@.map_values(|testcase: TestcaseInfo| pending_generation()),
    )
}

/// Whether the state has one entry for each testcase of each of these subtasks.
pub open spec fn evaluation_fits(state: SolutionEvaluationView, subtasks: Seq<SubtaskInfo>) -> bool {
    &&& state.subtasks.len() == subtasks.len()
    &&& forall|i: int|
        0 <= i < subtasks.len() ==> (#[trigger] state.subtasks[i]).testcases.len()
            == subtasks[i].testcases@.len()
}

/// Whether the state has one entry for each testcase of each of these subtasks.
pub open spec fn generations_fit(
    state: Seq<Seq<TestcaseGenerationState>>,
    subtasks: Seq<SubtaskInfo>,
) -> bool {
    &&& state.len() == subtasks.len()
    &&& forall|i: int|
        0 <= i < subtasks.len() ==> (#[trigger] state[i]).len() == subtasks[i].testcases@.len()
}

impl SolutionEvaluationState {
    /// Make a new, empty, `SolutionEvaluationState`: no score, every testcase pending.
    pub fn new(task: &Task) -> (state: SolutionEvaluationState)
        ensures
            state@ == pending_evaluation(task.subtasks@),
    {
        let mut subtasks: Vec<SolutionSubtaskEvaluationState> = Vec::new();
        let mut i: usize = 0;
        while i < task.subtasks.len()
            invariant
                i <= task.subtasks@.len(),
                subtasks@.len() == i,
                forall|k: int|
                    0 <= k < i ==> (#[trigger] subtasks@[k])@ == pending_evaluation(
                        task.subtasks@,
                    ).subtasks[k],
            decreases task.subtasks@.len() - i,
        {
            let mut testcases: Vec<SolutionTestcaseEvaluationState> = Vec::new();
            let mut j: usize = 0;
            while j < task.subtasks[i].testcases.len()
                invariant
                    i < task.subtasks@.len(),
                    j <= task.subtasks@[i as int].testcases@.len(),
                    testcases@.len() == j,
                    forall|k: int| 0 <= k < j ==> testcases@[k] == pending_testcase(),
                decreases task.subtasks@[i as int].testcases@.len() - j,
            {
                testcases.push(
                    SolutionTestcaseEvaluationState {
                        score: None,
                        status: TestcaseEvaluationStatus::Pending,
                        result: None,
                        checker: None,
                    },
                );
                j += 1;
            }
            let subtask = SolutionSubtaskEvaluationState { score: None, testcases };
            assert(subtask@.testcases =~= pending_evaluation(
                task.subtasks@,
            ).subtasks[i as int].testcases);
            subtasks.push(subtask);
            i += 1;
        }
        let state = SolutionEvaluationState { score: None, subtasks };
        assert(state@.subtasks =~= pending_evaluation(task.subtasks@).subtasks);
        state
    }
}

/// The compilation of one file.
#[derive(Debug)]
pub struct CompilationState {
    /// The source file.
    pub file: String,
    /// Where its compilation stands.
    pub status: CompilationStatus,
}

/// The evaluation of one solution.
#[derive(Debug)]
pub struct SolutionState {
    /// The source file of the solution.
    pub solution: String,
    /// Where its evaluation stands.
    pub state: SolutionEvaluationState,
}

/// The state of a IOI task, all the information for the UI are stored here.
#[derive(Debug)]
pub struct UIState {
    /// The task.
    pub task: Task,
    /// The maximum score of the task.
    pub max_score: u128,
    /// The status of the compilations, in the order in which the files were first named.
    pub compilations: Vec<CompilationState>,
    /// The state of the generation of the testcases, in the order of the task.
    pub generations: Vec<SubtaskGenerationState>,
    /// The status of the evaluations of the solutions, in the order in which
    /// the solutions were first named.
    pub evaluations: Vec<SolutionState>,
}

/// Mathematical value of a [`CompilationState`].
pub struct CompilationView {
    pub file: Seq<char>,
    pub status: CompilationStatus,
}

/// Mathematical value of a [`SolutionState`].
pub struct SolutionView {
    pub solution: Seq<char>,
    pub state: SolutionEvaluationView,
}

/// Mathematical value of what changes in a [`UIState`].
pub struct UIStateView {
    pub compilations: Seq<CompilationView>,
    pub generations: Seq<Seq<TestcaseGenerationState>>,
    pub evaluations: Seq<SolutionView>,
}

impl View for CompilationState {
    type V = CompilationView;

    open spec fn view(&self) -> CompilationView {
        CompilationView { file: self.file@, status: self.status }
    }
}

impl View for SolutionState {
    type V = SolutionView;

    open spec fn view(&self) -> SolutionView {
        SolutionView { solution: self.solution@, state: self.state@ }
    }
}

impl View for UIState {
    type V = UIStateView;

    open spec fn view(&self) -> UIStateView {
        UIStateView {
            compilations: self.compilations@.map_values(|entry: CompilationState| entry@),
            generations: self.generations@.map_values(|subtask: SubtaskGenerationState| subtask@),
            evaluations: self.evaluations@.map_values(|entry: SolutionState| entry@),
        }
    }
}

/// The step of the generation of a testcase that a message is about.
#[derive(Debug, Clone, Copy, PartialEq, Eq, Structural)]
pub enum GenerationStep {
    /// Making the input.
    Generation,
    /// Validating the input.
    Validation,
    /// Making the output with the official solution.
    Solution,
}

/// What a message changes in the state of a testcase of a solution.
#[derive(Debug)]
pub enum TestcaseChange {
    /// The run of the solution moved on.
    Run(UIExecutionStatus),
    /// The checker moved on.
    Check(UIExecutionStatus),
    /// The score was given, with what the checker said.
    Score(Score, String),
}

/// The status of a compilation after a message about it.
pub open spec fn compilation_after(status: UIExecutionStatus) -> CompilationStatus {
    match status {
        UIExecutionStatus::Pending => CompilationStatus::Pending,
        UIExecutionStatus::Started { worker } => CompilationStatus::Running,
        UIExecutionStatus::Done { result } => if result.status@ is Success {
            CompilationStatus::Done { result }
        } else {
            CompilationStatus::Failed { result }
        },
        UIExecutionStatus::Skipped => CompilationStatus::Skipped,
    }
}

/// The status of a generation while `step` runs.
pub open spec fn running_step(step: GenerationStep) -> TestcaseGenerationStatus {
    match step {
        GenerationStep::Generation => TestcaseGenerationStatus::Generating,
        GenerationStep::Validation => TestcaseGenerationStatus::Validating,
        GenerationStep::Solution => TestcaseGenerationStatus::Solving,
    }
}

/// The status of a generation once `step` has ended well.
pub open spec fn finished_step(step: GenerationStep) -> TestcaseGenerationStatus {
    match step {
        GenerationStep::Generation => TestcaseGenerationStatus::Generated,
        GenerationStep::Validation => TestcaseGenerationStatus::Validated,
        GenerationStep::Solution => TestcaseGenerationStatus::Solved,
    }
}

/// The state of the generation of a testcase after a message about `step`.
/// A result is kept under its step; a step that did not end well fails the
/// generation; a failed generation stays failed when a later step is skipped.
pub open spec fn generation_after(
    step: GenerationStep,
    before: TestcaseGenerationState,
    status: UIExecutionStatus,
) -> TestcaseGenerationState {
    match status {
        UIExecutionStatus::Pending => TestcaseGenerationState {
            status: TestcaseGenerationStatus::Pending,
            ..before
        },
        UIExecutionStatus::Started { worker } => TestcaseGenerationState {
            status: running_step(step),
            ..before
        },
        UIExecutionStatus::Done { result } => {
            let status = if result.status@ is Success {
                finished_step(step)
            } else {
                TestcaseGenerationStatus::Failed
            };
            match step {
                GenerationStep::Generation => TestcaseGenerationState {
                    status,
                    generation: Some(result),
                    ..before
                },
                GenerationStep::Validation => TestcaseGenerationState {
                    status,
                    validation: Some(result),
                    ..before
                },
                GenerationStep::Solution => TestcaseGenerationState {
                    status,
                    solution: Some(result),
                    ..before
                },
            }
        },
        UIExecutionStatus::Skipped => if step != GenerationStep::Generation
            && before.status == TestcaseGenerationStatus::Failed {
            before
        } else {
            TestcaseGenerationState { status: TestcaseGenerationStatus::Skipped, ..before }
        },
    }
}

/// The status of an evaluation whose run ended with `status`.
pub open spec fn evaluation_status_of(status: ExecutionStatusView) -> TestcaseEvaluationStatus {
    match status {
        ExecutionStatusView::Success => TestcaseEvaluationStatus::Solved,
        ExecutionStatusView::ReturnCode(_) => TestcaseEvaluationStatus::RuntimeError,
        ExecutionStatusView::Signal(_, _) => TestcaseEvaluationStatus::RuntimeError,
        ExecutionStatusView::TimeLimitExceeded => TestcaseEvaluationStatus::TimeLimitExceeded,
        ExecutionStatusView::SysTimeLimitExceeded => TestcaseEvaluationStatus::TimeLimitExceeded,
        ExecutionStatusView::WallTimeLimitExceeded => TestcaseEvaluationStatus::WallTimeLimitExceeded,
        ExecutionStatusView::MemoryLimitExceeded => TestcaseEvaluationStatus::MemoryLimitExceeded,
        ExecutionStatusView::InternalError(_) => TestcaseEvaluationStatus::Failed,
    }
}

/// Whether a score is the full score, up to a thousandth.
pub open spec fn is_full(score: Score) -> bool {
    FULL_SCORE - 1000 < score < FULL_SCORE + 1000
}

/// The status of an evaluation that got `score` before it had completed.
pub open spec fn status_of_score(score: Score, message: String) -> TestcaseEvaluationStatus {
    if score == 0 {
        TestcaseEvaluationStatus::WrongAnswer(message)
    } else if is_full(score) {
        TestcaseEvaluationStatus::Accepted(message)
    } else {
        TestcaseEvaluationStatus::Partial(message)
    }
}

/// The state of a testcase of a solution after `change`.
pub open spec fn testcase_after(
    before: SolutionTestcaseEvaluationState,
    change: TestcaseChange,
) -> SolutionTestcaseEvaluationState {
    match change {
        TestcaseChange::Run(status) => match status {
            UIExecutionStatus::Pending => before,
            UIExecutionStatus::Started { worker } => SolutionTestcaseEvaluationState {
                status: TestcaseEvaluationStatus::Solving,
                ..before
            },
            UIExecutionStatus::Done { result } => SolutionTestcaseEvaluationState {
                status: evaluation_status_of(result.status@),
                result: Some(result),
                ..before
            },
            UIExecutionStatus::Skipped => SolutionTestcaseEvaluationState {
                status: TestcaseEvaluationStatus::Skipped,
                ..before
            },
        },
        TestcaseChange::Check(status) => match status {
            UIExecutionStatus::Started { worker } => SolutionTestcaseEvaluationState {
                status: TestcaseEvaluationStatus::Checking,
                ..before
            },
            UIExecutionStatus::Done { result } => SolutionTestcaseEvaluationState {
                checker: Some(result),
                ..before
            },
            _ => before,
        },
        TestcaseChange::Score(score, message) => SolutionTestcaseEvaluationState {
            score: Some(score),
            status: if before.status.has_completed() {
                before.status
            } else {
                status_of_score(score, message)
            },
            ..before
        },
    }
}

/// The names of the files of these compilations, in order.
pub open spec fn compilation_files(entries: Seq<CompilationView>) -> Seq<Seq<char>> {
    entries.map_values(|entry: CompilationView| entry.file)
}

/// The names of these solutions, in order.
pub open spec fn solution_names(entries: Seq<SolutionView>) -> Seq<Seq<char>> {
    entries.map_values(|entry: SolutionView| entry.solution)
}

/// The compilations once `file` has `status`: in place where the file is
/// known, as a new last entry where it is not.
pub open spec fn put_compilation(
    entries: Seq<CompilationView>,
    file: Seq<char>,
    status: CompilationStatus,
) -> Seq<CompilationView> {
    let p = first_position(compilation_files(entries), file);
    if p < entries.len() {
        entries.update(p, CompilationView { file, status })
    } else {
        entries.push(CompilationView { file, status })
    }
}

/// The state of `solution` among the entries; that of a solution that has not
/// run where it is not known.
pub open spec fn solution_base(
    entries: Seq<SolutionView>,
    subtasks: Seq<SubtaskInfo>,
    solution: Seq<char>,
) -> SolutionEvaluationView {
    let p = first_position(solution_names(entries), solution);
    if p < entries.len() {
        entries[p].state
    } else {
        pending_evaluation(subtasks)
    }
}

/// The evaluations once `solution` has `state`: in place where the solution is
/// known, as a new last entry where it is not.
pub open spec fn put_solution(
    entries: Seq<SolutionView>,
    solution: Seq<char>,
    state: SolutionEvaluationView,
) -> Seq<SolutionView> {
    let p = first_position(solution_names(entries), solution);
    if p < entries.len() {
        entries.update(p, SolutionView { solution, state })
    } else {
        entries.push(SolutionView { solution, state })
    }
}

/// The state of a solution with the testcase at position `j` of the subtask
/// at position `i` replaced.
pub open spec fn with_testcase(
    state: SolutionEvaluationView,
    i: int,
    j: int,
    testcase: SolutionTestcaseEvaluationState,
) -> SolutionEvaluationView {
    SolutionEvaluationView {
        subtasks: state.subtasks.update(
            i,
            SubtaskEvaluationView {
                testcases: state.subtasks[i].testcases.update(j, testcase),
                ..state.subtasks[i]
            },
        ),
        ..state
    }
}

/// The state of a solution with the score of the subtask at position `i` set.
pub open spec fn with_subtask_score(
    state: SolutionEvaluationView,
    i: int,
    score: Score,
) -> SolutionEvaluationView {
    SolutionEvaluationView {
        subtasks: state.subtasks.update(
            i,
            SubtaskEvaluationView { score: Some(score), ..state.subtasks[i] },
        ),
        ..state
    }
}

/// The state after a message about a step of the generation of a testcase.
pub open spec fn generated(
    state: UIStateView,
    task: Task,
    subtask: SubtaskId,
    testcase: TestcaseId,
    step: GenerationStep,
    status: UIExecutionStatus,
) -> UIStateView {
    let i = task.subtask_position(subtask);
    let j = task.subtasks@[i].testcase_position(testcase);
    UIStateView {
        generations: state.generations.update(
            i,
            state.generations[i].update(j, generation_after(step, state.generations[i][j], status)),
        ),
        ..state
    }
}

/// The state after a change to a testcase of a solution. A solution that was
/// not known is first entered as one that has not run.
pub open spec fn evaluated(
    state: UIStateView,
    task: Task,
    solution: Seq<char>,
    subtask: SubtaskId,
    testcase: TestcaseId,
    change: TestcaseChange,
) -> UIStateView {
    let i = task.subtask_position(subtask);
    let j = task.subtasks@[i].testcase_position(testcase);
    let base = solution_base(state.evaluations, task.subtasks@, solution);
    UIStateView {
        evaluations: put_solution(
            state.evaluations,
            solution,
            with_testcase(base, i, j, testcase_after(base.subtasks[i].testcases[j], change)),
        ),
        ..state
    }
}

/// The state after `message` has been applied.
pub open spec fn applied(state: UIStateView, task: Task, message: UIMessage) -> UIStateView {
    match message {
        UIMessage::StopUI => state,
        UIMessage::ServerStatus { scheduler } => state,
        UIMessage::Compilation { file, status } => UIStateView {
            compilations: put_compilation(state.compilations, file@, compilation_after(status)),
            ..state
        },
        UIMessage::IOIGeneration { subtask, testcase, status } => generated(
            state,
            task,
            subtask,
            testcase,
            GenerationStep::Generation,
            status,
        ),
        UIMessage::IOIValidation { subtask, testcase, status } => generated(
            state,
            task,
            subtask,
            testcase,
            GenerationStep::Validation,
            status,
        ),
        UIMessage::IOISolution { subtask, testcase, status } => generated(
            state,
            task,
            subtask,
            testcase,
            GenerationStep::Solution,
            status,
        ),
        UIMessage::IOIEvaluation { subtask, testcase, solution, status } => evaluated(
            state,
            task,
            solution@,
            subtask,
            testcase,
            TestcaseChange::Run(status),
        ),
        UIMessage::IOIChecker { subtask, testcase, solution, status } => evaluated(
            state,
            task,
            solution@,
            subtask,
            testcase,
            TestcaseChange::Check(status),
        ),
        UIMessage::IOITestcaseScore { subtask, testcase, solution, score, message } => evaluated(
            state,
            task,
            solution@,
            subtask,
            testcase,
            TestcaseChange::Score(score, message),
        ),
        UIMessage::IOISubtaskScore { subtask, solution, score } => {
            let base = solution_base(state.evaluations, task.subtasks@, solution@);
            UIStateView {
                evaluations: put_solution(
                    state.evaluations,
                    solution@,
                    with_subtask_score(base, task.subtask_position(subtask), score),
                ),
                ..state
            }
        },
        UIMessage::IOITaskScore { solution, score } => {
            let base = solution_base(state.evaluations, task.subtasks@, solution@);
            UIStateView {
                evaluations: put_solution(
                    state.evaluations,
                    solution@,
                    SolutionEvaluationView { score: Some(score), ..base },
                ),
                ..state
            }
        },
    }
}

/// The status of a compilation after a message about it.
fn compilation_status(status: UIExecutionStatus) -> (after: CompilationStatus)
    ensures
        after == compilation_after(status),
{
    match status {
        UIExecutionStatus::Pending => CompilationStatus::Pending,
        UIExecutionStatus::Started { worker } => CompilationStatus::Running,
        UIExecutionStatus::Done { result } => if result.status.is_success() {
            CompilationStatus::Done { result }
        } else {
            CompilationStatus::Failed { result }
        },
        UIExecutionStatus::Skipped => CompilationStatus::Skipped,
    }
}

/// The status of an evaluation whose run ended with `status`.
fn evaluation_status(status: &ExecutionStatus) -> (after: TestcaseEvaluationStatus)
    ensures
        after == evaluation_status_of(status@),
{
    match status {
        ExecutionStatus::Success => TestcaseEvaluationStatus::Solved,
        ExecutionStatus::ReturnCode(_) => TestcaseEvaluationStatus::RuntimeError,
        ExecutionStatus::Signal(_, _) => TestcaseEvaluationStatus::RuntimeError,
        ExecutionStatus::TimeLimitExceeded => TestcaseEvaluationStatus::TimeLimitExceeded,
        ExecutionStatus::SysTimeLimitExceeded => TestcaseEvaluationStatus::TimeLimitExceeded,
        ExecutionStatus::WallTimeLimitExceeded => TestcaseEvaluationStatus::WallTimeLimitExceeded,
        ExecutionStatus::MemoryLimitExceeded => TestcaseEvaluationStatus::MemoryLimitExceeded,
        ExecutionStatus::InternalError(_) => TestcaseEvaluationStatus::Failed,
    }
}

impl TestcaseGenerationState {
    /// Takes in a message about `step`.
    fn apply(&mut self, step: GenerationStep, status: UIExecutionStatus)
        ensures
            *final(self) == generation_after(step, *old(self), status),
    {
        match status {
            UIExecutionStatus::Pending => {
                self.status = TestcaseGenerationStatus::Pending;
            },
            UIExecutionStatus::Started { worker } => {
                self.status = match step {
                    GenerationStep::Generation => TestcaseGenerationStatus::Generating,
                    GenerationStep::Validation => TestcaseGenerationStatus::Validating,
                    GenerationStep::Solution => TestcaseGenerationStatus::Solving,
                };
            },
            UIExecutionStatus::Done { result } => {
                if result.status.is_success() {
                    self.status = match step {
                        GenerationStep::Generation => TestcaseGenerationStatus::Generated,
                        GenerationStep::Validation => TestcaseGenerationStatus::Validated,
                        GenerationStep::Solution => TestcaseGenerationStatus::Solved,
                    };
                } else {
                    self.status = TestcaseGenerationStatus::Failed;
                }
                match step {
                    GenerationStep::Generation => {
                        self.generation = Some(result);
                    },
                    GenerationStep::Validation => {
                        self.validation = Some(result);
                    },
                    GenerationStep::Solution => {
                        self.solution = Some(result);
                    },
                }
            },
            UIExecutionStatus::Skipped => {
                let keep = match step {
                    GenerationStep::Generation => false,
                    _ => match self.status {
                        TestcaseGenerationStatus::Failed => true,
                        _ => false,
                    },
                };
                if !keep {
                    self.status = TestcaseGenerationStatus::Skipped;
                }
            },
        }
    }
}

impl SolutionTestcaseEvaluationState {
    /// Takes in a change.
    fn apply(&mut self, change: TestcaseChange)
        ensures
            *final(self) == testcase_after(*old(self), change),
    {
        match change {
            TestcaseChange::Run(status) => match status {
                UIExecutionStatus::Pending => {},
                UIExecutionStatus::Started { worker } => {
                    self.status = TestcaseEvaluationStatus::Solving;
                },
                UIExecutionStatus::Done { result } => {
                    self.status = evaluation_status(&result.status);
                    self.result = Some(result);
                },
                UIExecutionStatus::Skipped => {
                    self.status = TestcaseEvaluationStatus::Skipped;
                },
            },
            TestcaseChange::Check(status) => match status {
                UIExecutionStatus::Started { worker } => {
                    self.status = TestcaseEvaluationStatus::Checking;
                },
                UIExecutionStatus::Done { result } => {
                    self.checker = Some(result);
                },
                _ => {},
            },
            TestcaseChange::Score(score, message) => {
                self.score = Some(score);
                if !self.status.has_completed() {
                    if score == 0 {
                        self.status = TestcaseEvaluationStatus::WrongAnswer(message);
                    } else if score > FULL_SCORE - 1000 && score < FULL_SCORE + 1000 {
                        self.status = TestcaseEvaluationStatus::Accepted(message);
                    } else {
                        self.status = TestcaseEvaluationStatus::Partial(message);
                    }
                }
            },
        }
    }
}

impl UIState {
    /// Whether the state mirrors its task: the maximum score is the task's, and
    /// the generation and every solution have one entry for each testcase.
    pub open spec fn wf(&self) -> bool {
        &&& self.max_score == total_score(self.task.subtasks@)
        &&& generations_fit(self@.generations, self.task.subtasks@)
        &&& forall|k: int|
            0 <= k < self@.evaluations.len() ==> evaluation_fits(
                (#[trigger] self@.evaluations[k]).state,
                self.task.subtasks@,
            )
    }

    /// Whether `message` speaks of a subtask and a testcase that the task has.
    pub open spec fn spec_accepts(&self, message: &UIMessage) -> bool {
        match *message {
            UIMessage::IOIGeneration { subtask, testcase, .. } => self.task.has_testcase(
                subtask,
                testcase,
            ),
            UIMessage::IOIValidation { subtask, testcase, .. } => self.task.has_testcase(
                subtask,
                testcase,
            ),
            UIMessage::IOISolution { subtask, testcase, .. } => self.task.has_testcase(
                subtask,
                testcase,
            ),
            UIMessage::IOIEvaluation { subtask, testcase, .. } => self.task.has_testcase(
                subtask,
                testcase,
            ),
            UIMessage::IOIChecker { subtask, testcase, .. } => self.task.has_testcase(
                subtask,
                testcase,
            ),
            UIMessage::IOITestcaseScore { subtask, testcase, .. } => self.task.has_testcase(
                subtask,
                testcase,
            ),
            UIMessage::IOISubtaskScore { subtask, .. } => self.task.has_subtask(subtask),
            _ => true,
        }
    }

    /// Make a new `UIState`: nothing compiled, nothing evaluated, every generation pending.
    pub fn new(task: Task) -> (state: UIState)
        ensures
            state.wf(),
            state.task == task,
            state@ == (UIStateView {
                compilations: seq![],
                generations: pending_generations(task.subtasks@),
                evaluations: seq![],
            }),
    {
        let mut generations: Vec<SubtaskGenerationState> = Vec::new();
        let mut i: usize = 0;
        while i < task.subtasks.len()
            invariant
                i <= task.subtasks@.len(),
                generations@.len() == i,
                forall|k: int|
                    0 <= k < i ==> (#[trigger] generations@[k])@ == pending_generations(
                        task.subtasks@,
                    )[k],
            decreases task.subtasks@.len() - i,
        {
            let mut testcases: Vec<TestcaseGenerationState> = Vec::new();
            let mut j: usize = 0;
            while j < task.subtasks[i].testcases.len()
                invariant
                    i < task.subtasks@.len(),
                    j <= task.subtasks@[i as int].testcases@.len(),
                    testcases@.len() == j,
                    forall|k: int| 0 <= k < j ==> testcases@[k] == pending_generation(),
                decreases task.subtasks@[i as int].testcases@.len() - j,
            {
                testcases.push(
                    TestcaseGenerationState {
                        status: TestcaseGenerationStatus::Pending,
                        generation: None,
                        validation: None,
                        solution: None,
                    },
                );
                j += 1;
            }
            let subtask = SubtaskGenerationState { testcases };
            assert(subtask@ =~= pending_generations(task.subtasks@)[i as int]);
            generations.push(subtask);
            i += 1;
        }
        let max_score = task.max_score();
        let state = UIState {
            task,
            max_score,
            compilations: Vec::new(),
            generations,
            evaluations: Vec::new(),
        };
        assert(state@.generations =~= pending_generations(task.subtasks@));
        assert(state@.compilations =~= seq![]);
        assert(state@.evaluations =~= seq![]);
        state
    }

    /// Whether `message` speaks of a subtask and a testcase that the task has.
    #[verifier::when_used_as_spec(spec_accepts)]
    pub fn accepts(&self, message: &UIMessage) -> (accepted: bool)
        ensures
            accepted == self.spec_accepts(message),
    {
        match message {
            UIMessage::IOIGeneration { subtask, testcase, .. } => self.task.find_testcase(
                *subtask,
                *testcase,
            ).is_some(),
            UIMessage::IOIValidation { subtask, testcase, .. } => self.task.find_testcase(
                *subtask,
                *testcase,
            ).is_some(),
            UIMessage::IOISolution { subtask, testcase, .. } => self.task.find_testcase(
                *subtask,
                *testcase,
            ).is_some(),
            UIMessage::IOIEvaluation { subtask, testcase, .. } => self.task.find_testcase(
                *subtask,
                *testcase,
            ).is_some(),
            UIMessage::IOIChecker { subtask, testcase, .. } => self.task.find_testcase(
                *subtask,
                *testcase,
            ).is_some(),
            UIMessage::IOITestcaseScore { subtask, testcase, .. } => self.task.find_testcase(
                *subtask,
                *testcase,
            ).is_some(),
            UIMessage::IOISubtaskScore { subtask, .. } => self.task.find_subtask(*subtask).is_some(),
            _ => true,
        }
    }

    /// Gives `file` the compilation status `status`.
    fn set_compilation(&mut self, file: String, status: CompilationStatus)
        requires
            old(self).wf(),
        ensures
            final(self).wf(),
            final(self).task == old(self).task,
            final(self)@ == (UIStateView {
                compilations: put_compilation(old(self)@.compilations, file@, status),
                ..old(self)@
            }),
    {
        let ghost files = compilation_files(self@.compilations);
        let mut p: usize = 0;
        while p < self.compilations.len()
            invariant
                *self == *old(self),
                self.wf(),
                files == compilation_files(self@.compilations),
                p <= self.compilations@.len(),
                forall|k: int| 0 <= k < p ==> files[k] != file@,
            decreases self.compilations@.len() - p,
        {
            if self.compilations[p].file == file {
                proof {
                    lemma_first_position_is(files, file@, p as int);
                }
                self.compilations[p].status = status;
                assert(self@.compilations =~= put_compilation(
                    old(self)@.compilations,
                    file@,
                    status,
                ));
                assert(self@.evaluations =~= old(self)@.evaluations);
                assert(self@.generations =~= old(self)@.generations);
                return ;
            }
            p += 1;
        }
        proof {
            lemma_first_position_is(files, file@, p as int);
        }
        self.compilations.push(CompilationState { file, status });
        assert(self@.compilations =~= put_compilation(old(self)@.compilations, file@, status));
        assert(self@.evaluations =~= old(self)@.evaluations);
        assert(self@.generations =~= old(self)@.generations);
    }

    /// Takes in a message about a step of the generation of a testcase.
    fn set_generation(
        &mut self,
        subtask: SubtaskId,
        testcase: TestcaseId,
        step: GenerationStep,
        status: UIExecutionStatus,
    )
        requires
            old(self).wf(),
            old(self).task.has_testcase(subtask, testcase),
        ensures
            final(self).wf(),
            final(self).task == old(self).task,
            final(self)@ == generated(old(self)@, old(self).task, subtask, testcase, step, status),
    {
        match self.task.find_testcase(subtask, testcase) {
            Some((i, j)) => {
                assert(self@.generations[i as int].len() == self.task.subtasks@[i as int].testcases@.len());
                self.generations[i].testcases[j].apply(step, status);
                assert(self@.generations =~= generated(
                    old(self)@,
                    old(self).task,
                    subtask,
                    testcase,
                    step,
                    status,
                ).generations) by {
                    assert forall|k: int| 0 <= k < self@.generations.len() implies self@.generations[k]
                        =~= generated(
                        old(self)@,
                        old(self).task,
                        subtask,
                        testcase,
                        step,
                        status,
                    ).generations[k] by {}
                }
                assert(self@.evaluations =~= old(self)@.evaluations);
                assert(self@.compilations =~= old(self)@.compilations);
                assert(generations_fit(self@.generations, self.task.subtasks@)) by {
                    assert forall|k: int| 0 <= k < self.task.subtasks@.len() implies (
                    #[trigger] self@.generations[k]).len()
                        == self.task.subtasks@[k].testcases@.len() by {
                        assert(old(self)@.generations[k].len()
                            == self.task.subtasks@[k].testcases@.len());
                    }
                }
            },
            None => {},
        }
    }

    /// Where the evaluation of `solution` stands among the entries; the solution
    /// is first entered, as one that has not run, where it is not known.
    fn evaluation_entry(&mut self, solution: String) -> (p: usize)
        requires
            old(self).wf(),
        ensures
            final(self).wf(),
            final(self).task == old(self).task,
            p == first_position(solution_names(old(self)@.evaluations), solution@),
            p < final(self).evaluations@.len(),
            final(self).evaluations@[p as int].solution@ == solution@,
            final(self)@ == (UIStateView {
                evaluations: put_solution(
                    old(self)@.evaluations,
                    solution@,
                    solution_base(old(self)@.evaluations, old(self).task.subtasks@, solution@),
                ),
                ..old(self)@
            }),
    {
        let ghost names = solution_names(self@.evaluations);
        let mut p: usize = 0;
        while p < self.evaluations.len()
            invariant
                *self == *old(self),
                self.wf(),
                names == solution_names(self@.evaluations),
                p <= self.evaluations@.len(),
                forall|k: int| 0 <= k < p ==> names[k] != solution@,
            decreases self.evaluations@.len() - p,
        {
            if self.evaluations[p].solution == solution {
                proof {
                    lemma_first_position_is(names, solution@, p as int);
                    assert(self@.evaluations =~= put_solution(
                        old(self)@.evaluations,
                        solution@,
                        solution_base(old(self)@.evaluations, old(self).task.subtasks@, solution@),
                    ));
                }
                return p;
            }
            p += 1;
        }
        proof {
            lemma_first_position_is(names, solution@, p as int);
        }
        let state = SolutionEvaluationState::new(&self.task);
        self.evaluations.push(SolutionState { solution, state });
        proof {
            assert(self@.evaluations =~= put_solution(
                old(self)@.evaluations,
                solution@,
                solution_base(old(self)@.evaluations, old(self).task.subtasks@, solution@),
            ));
            assert(self@.compilations =~= old(self)@.compilations);
            assert(self@.generations =~= old(self)@.generations);
            assert forall|k: int| 0 <= k < self@.evaluations.len() implies evaluation_fits(
                (#[trigger] self@.evaluations[k]).state,
                self.task.subtasks@,
            ) by {
                if k < p {
                    assert(self@.evaluations[k] == old(self)@.evaluations[k]);
                }
            }
        }
        p
    }

    /// Takes in a change to a testcase of a solution.
    fn set_testcase(
        &mut self,
        solution: String,
        subtask: SubtaskId,
        testcase: TestcaseId,
        change: TestcaseChange,
    )
        requires
            old(self).wf(),
            old(self).task.has_testcase(subtask, testcase),
        ensures
            final(self).wf(),
            final(self).task == old(self).task,
            final(self)@ == evaluated(
                old(self)@,
                old(self).task,
                solution@,
                subtask,
                testcase,
                change,
            ),
    {
        let ghost name = solution@;
        let ghost base = solution_base(self@.evaluations, self.task.subtasks@, name);
        let p = self.evaluation_entry(solution);
        let ghost mid = self@;
        match self.task.find_testcase(subtask, testcase) {
            Some((i, j)) => {
                proof {
                    lemma_first_position(solution_names(old(self)@.evaluations), name);
                    assert(mid.evaluations[p as int].state == base);
                }
                assert(evaluation_fits(self@.evaluations[p as int].state, self.task.subtasks@));
                assert(self@.evaluations[p as int].state.subtasks[i as int]
                    == self.evaluations@[p as int].state.subtasks@[i as int]@);
                let ghost before = self.evaluations@[p as int].state;
                self.evaluations[p].state.subtasks[i].testcases[j].apply(change);
                proof {
                    let after = with_testcase(
                        base,
                        i as int,
                        j as int,
                        testcase_after(base.subtasks[i as int].testcases[j as int], change),
                    );
                    assert forall|a: int| 0 <= a < after.subtasks.len() implies self.evaluations@[p as int].state@.subtasks[a]
                        == after.subtasks[a] by {
                        assert(before@.subtasks[a] == before.subtasks@[a]@);
                        if a == i {
                            assert(self.evaluations@[p as int].state.subtasks@[a]@.testcases
                                =~= after.subtasks[a].testcases);
                        }
                    }
                    assert(self.evaluations@[p as int].state@.subtasks =~= after.subtasks);
                    assert(self@.evaluations =~= mid.evaluations.update(
                        p as int,
                        SolutionView { solution: name, state: after },
                    ));
                    assert(self@.evaluations =~= put_solution(old(self)@.evaluations, name, after));
                    assert(self@.compilations =~= old(self)@.compilations);
                    assert(self@.generations =~= old(self)@.generations);
                    assert forall|k: int| 0 <= k < self@.evaluations.len() implies evaluation_fits(
                        (#[trigger] self@.evaluations[k]).state,
                        self.task.subtasks@,
                    ) by {
                        if k != p {
                            assert(self@.evaluations[k] == mid.evaluations[k]);
                        } else {
                            assert forall|a: int| 0 <= a < self.task.subtasks@.len() implies (
                            #[trigger] after.subtasks[a]).testcases.len()
                                == self.task.subtasks@[a].testcases@.len() by {
                                assert(mid.evaluations[p as int].state.subtasks[a].testcases.len()
                                    == self.task.subtasks@[a].testcases@.len());
                            }
                        }
                    }
                }
            },
            None => {},
        }
    }

    /// Sets the score of a solution on a subtask.
    fn set_subtask_score(&mut self, solution: String, subtask: SubtaskId, score: Score)
        requires
            old(self).wf(),
            old(self).task.has_subtask(subtask),
        ensures
            final(self).wf(),
            final(self).task == old(self).task,
            final(self)@ == (UIStateView {
                evaluations: put_solution(
                    old(self)@.evaluations,
                    solution@,
                    with_subtask_score(
                        solution_base(old(self)@.evaluations, old(self).task.subtasks@, solution@),
                        old(self).task.subtask_position(subtask),
                        score,
                    ),
                ),
                ..old(self)@
            }),
    {
        let ghost name = solution@;
        let ghost base = solution_base(self@.evaluations, self.task.subtasks@, name);
        let p = self.evaluation_entry(solution);
        let ghost mid = self@;
        match self.task.find_subtask(subtask) {
            Some(i) => {
                proof {
                    lemma_first_position(solution_names(old(self)@.evaluations), name);
                    assert(mid.evaluations[p as int].state == base);
                }
                assert(evaluation_fits(self@.evaluations[p as int].state, self.task.subtasks@));
                assert(self@.evaluations[p as int].state.subtasks[i as int]
                    == self.evaluations@[p as int].state.subtasks@[i as int]@);
                let ghost before = self.evaluations@[p as int].state;
                self.evaluations[p].state.subtasks[i].score = Some(score);
                proof {
                    let after = with_subtask_score(base, i as int, score);
                    assert forall|a: int| 0 <= a < after.subtasks.len() implies self.evaluations@[p as int].state@.subtasks[a]
                        == after.subtasks[a] by {
                        assert(before@.subtasks[a] == before.subtasks@[a]@);
                        if a == i {
                            assert(self.evaluations@[p as int].state.subtasks@[a]@.testcases
                                =~= after.subtasks[a].testcases);
                        }
                    }
                    assert(self.evaluations@[p as int].state@.subtasks =~= after.subtasks);
                    assert(self@.evaluations =~= mid.evaluations.update(
                        p as int,
                        SolutionView { solution: name, state: after },
                    ));
                    assert(self@.evaluations =~= put_solution(old(self)@.evaluations, name, after));
                    assert(self@.compilations =~= old(self)@.compilations);
                    assert(self@.generations =~= old(self)@.generations);
                    assert forall|k: int| 0 <= k < self@.evaluations.len() implies evaluation_fits(
                        (#[trigger] self@.evaluations[k]).state,
                        self.task.subtasks@,
                    ) by {
                        if k != p {
                            assert(self@.evaluations[k] == mid.evaluations[k]);
                        } else {
                            assert forall|a: int| 0 <= a < self.task.subtasks@.len() implies (
                            #[trigger] after.subtasks[a]).testcases.len()
                                == self.task.subtasks@[a].testcases@.len() by {
                                assert(mid.evaluations[p as int].state.subtasks[a].testcases.len()
                                    == self.task.subtasks@[a].testcases@.len());
                            }
                        }
                    }
                }
            },
            None => {},
        }
    }

    /// Sets the score of a solution on the task.
    fn set_task_score(&mut self, solution: String, score: Score)
        requires
            old(self).wf(),
        ensures
            final(self).wf(),
            final(self).task == old(self).task,
            final(self)@ == (UIStateView {
                evaluations: put_solution(
                    old(self)@.evaluations,
                    solution@,
                    SolutionEvaluationView {
                        score: Some(score),
                        ..solution_base(old(self)@.evaluations, old(self).task.subtasks@, solution@)
                    },
                ),
                ..old(self)@
            }),
    {
        let ghost name = solution@;
        let ghost base = solution_base(self@.evaluations, self.task.subtasks@, name);
        let p = self.evaluation_entry(solution);
        let ghost mid = self@;
        self.evaluations[p].state.score = Some(score);
        proof {
            let after = SolutionEvaluationView { score: Some(score), ..base };
            assert(self.evaluations@[p as int].state@.subtasks =~= after.subtasks);
            assert(self@.evaluations =~= mid.evaluations.update(
                p as int,
                SolutionView { solution: name, state: after },
            ));
            assert(self@.evaluations =~= put_solution(old(self)@.evaluations, name, after));
            assert(self@.compilations =~= old(self)@.compilations);
            assert(self@.generations =~= old(self)@.generations);
            assert forall|k: int| 0 <= k < self@.evaluations.len() implies evaluation_fits(
                (#[trigger] self@.evaluations[k]).state,
                self.task.subtasks@,
            ) by {
                if k != p {
                    assert(self@.evaluations[k] == mid.evaluations[k]);
                } else {
                    assert forall|a: int| 0 <= a < self.task.subtasks@.len() implies (
                    #[trigger] after.subtasks[a]).testcases.len()
                        == self.task.subtasks@[a].testcases@.len() by {
                        assert(mid.evaluations[p as int].state.subtasks[a].testcases.len()
                            == self.task.subtasks@[a].testcases@.len());
                    }
                }
            }
        }
    }

    /// Apply a `UIMessage` to this state. A message about a compilation or a
    /// solution that is not known yet makes its entry; every other message
    /// changes the entry it names and nothing else.
    pub fn apply(&mut self, message: UIMessage)
        requires
            old(self).wf(),
            old(self).spec_accepts(&message),
        ensures
            final(self).wf(),
            final(self).task == old(self).task,
            final(self).max_score == old(self).max_score,
            final(self)@ == applied(old(self)@, old(self).task, message),
    {
        match message {
            UIMessage::StopUI => {},
            UIMessage::ServerStatus { scheduler } => {},
            UIMessage::Compilation { file, status } => {
                self.set_compilation(file, compilation_status(status));
            },
            UIMessage::IOIGeneration { subtask, testcase, status } => {
                self.set_generation(subtask, testcase, GenerationStep::Generation, status);
            },
            UIMessage::IOIValidation { subtask, testcase, status } => {
                self.set_generation(subtask, testcase, GenerationStep::Validation, status);
            },
            UIMessage::IOISolution { subtask, testcase, status } => {
                self.set_generation(subtask, testcase, GenerationStep::Solution, status);
            },
            UIMessage::IOIEvaluation { subtask, testcase, solution, status } => {
                self.set_testcase(solution, subtask, testcase, TestcaseChange::Run(status));
            },
            UIMessage::IOIChecker { subtask, testcase, solution, status } => {
                self.set_testcase(solution, subtask, testcase, TestcaseChange::Check(status));
            },
            UIMessage::IOITestcaseScore { subtask, testcase, solution, score, message } => {
                self.set_testcase(solution, subtask, testcase, TestcaseChange::Score(score, message));
            },
            UIMessage::IOISubtaskScore { subtask, solution, score } => {
                self.set_subtask_score(solution, subtask, score);
            },
            UIMessage::IOITaskScore { solution, score } => {
                self.set_task_score(solution, score);
            },
        }
    }
}

} // verus!
