//! The messages that an evaluation sends to the user interface.

use vstd::prelude::*;
use crate::dag::execution::ExecutionResult;
use crate::dag::file::WorkerUuid;
use crate::exec::model::SchedulerStatus;
use crate::format::task::{Score, SubtaskId, TestcaseId};

verus! {

/// Where an execution stands, as the user interface is told.
#[derive(Debug, PartialEq, Eq)]
pub enum UIExecutionStatus {
    /// The execution is known and has not started.
    Pending,
    /// The execution runs on a worker.
    Started {
        /// The worker that runs it.
        worker: WorkerUuid,
    },
    /// The execution has ended.
    Done {
        /// Its result.
        result: ExecutionResult,
    },
    /// The execution will never run.
    Skipped,
}

/// A message to the user interface.
#[derive(Debug, PartialEq, Eq)]
pub enum UIMessage {
    /// The evaluation is over: the interface stops.
    StopUI,
    /// Where the scheduler stands.
    ServerStatus {
        /// How many groups stand where.
        scheduler: SchedulerStatus,
    },
    /// A source file is being compiled.
    Compilation {
        /// The source file.
        file: String,
        /// Where the compilation stands.
        status: UIExecutionStatus,
    },
    /// The input of a testcase is being generated.
    IOIGeneration {
        subtask: SubtaskId,
        testcase: TestcaseId,
        /// Where the generation stands.
        status: UIExecutionStatus,
    },
    /// The input of a testcase is being validated.
    IOIValidation {
        subtask: SubtaskId,
        testcase: TestcaseId,
        /// Where the validation stands.
        status: UIExecutionStatus,
    },
    /// The output of a testcase is being made by the official solution.
    IOISolution {
        subtask: SubtaskId,
        testcase: TestcaseId,
        /// Where the official solution stands.
        status: UIExecutionStatus,
    },
    /// A solution is being run on a testcase.
    IOIEvaluation {
        subtask: SubtaskId,
        testcase: TestcaseId,
        /// The source file of the solution.
        solution: String,
        /// Where the run stands.
        status: UIExecutionStatus,
    },
    /// The output of a solution on a testcase is being checked.
    IOIChecker {
        subtask: SubtaskId,
        testcase: TestcaseId,
        /// The source file of the solution.
        solution: String,
        /// Where the checker stands.
        status: UIExecutionStatus,
    },
    /// A solution got its score on a testcase.
    IOITestcaseScore {
        subtask: SubtaskId,
        testcase: TestcaseId,
        /// The source file of the solution.
        solution: String,
        /// The score, between nothing and the full score.
        score: Score,
        /// What the checker said.
        message: String,
    },
    /// A solution got its score on a subtask.
    IOISubtaskScore {
        subtask: SubtaskId,
        /// The source file of the solution.
        solution: String,
        /// The score.
        score: Score,
    },
    /// A solution got its score on the task.
    IOITaskScore {
        /// The source file of the solution.
        solution: String,
        /// The score.
        score: Score,
    },
}

} // verus!
