//! The evaluation of a task as its builder sees it: the graph, and what each
//! execution of the graph means to the user interface.

use vstd::prelude::*;
use crate::dag::dag::{
    fired, lemma_added_fires, CallbackId, ExecutionCallbacks, ExecutionDAG, ExecutionEvent,
    FileCallbacks,
};
use crate::dag::file::{ExecutionUuid, FileUuid};
use crate::format::task::{SubtaskId, TestcaseId};
use crate::format::ui::{UIExecutionStatus, UIMessage};

verus! {

/// What an execution of the graph is, to the user interface.
#[derive(Debug, PartialEq, Eq)]
pub enum Binding {
    /// The compilation of a source file.
    Compilation {
        /// The source file.
        file: String,
    },
    /// The generation of the input of a testcase.
    IOIGeneration { subtask: SubtaskId, testcase: TestcaseId },
    /// The validation of the input of a testcase.
    IOIValidation { subtask: SubtaskId, testcase: TestcaseId },
    /// The making of the output of a testcase by the official solution.
    IOISolution { subtask: SubtaskId, testcase: TestcaseId },
    /// The run of a solution on a testcase.
    IOIEvaluation {
        subtask: SubtaskId,
        testcase: TestcaseId,
        /// The source file of the solution.
        solution: String,
    },
    /// The check of the output of a solution on a testcase.
    IOIChecker {
        subtask: SubtaskId,
        testcase: TestcaseId,
        /// The source file of the solution.
        solution: String,
    },
}

/// The graph of an evaluation, and what its executions mean to the user
/// interface. A callback of the graph is named by the position of its
/// binding.
#[derive(Debug)]
pub struct EvaluationData {
    /// The graph.
    pub dag: ExecutionDAG,
    /// What the callbacks of the graph stand for, by their names.
    pub bindings: Vec<Binding>,
}

/// The message that tells the user interface where the execution behind
/// `binding` stands.
pub open spec fn bound_message(binding: Binding, status: UIExecutionStatus) -> UIMessage {
    match binding {
        Binding::Compilation { file } => UIMessage::Compilation { file, status },
        Binding::IOIGeneration { subtask, testcase } => UIMessage::IOIGeneration {
            subtask,
            testcase,
            status,
        },
        Binding::IOIValidation { subtask, testcase } => UIMessage::IOIValidation {
            subtask,
            testcase,
            status,
        },
        Binding::IOISolution { subtask, testcase } => UIMessage::IOISolution {
            subtask,
            testcase,
            status,
        },
        Binding::IOIEvaluation { subtask, testcase, solution } => UIMessage::IOIEvaluation {
            subtask,
            testcase,
            solution,
            status,
        },
        Binding::IOIChecker { subtask, testcase, solution } => UIMessage::IOIChecker {
            subtask,
            testcase,
            solution,
            status,
        },
    }
}

impl EvaluationData {
    /// An evaluation with an empty graph.
    pub fn new() -> (data: EvaluationData)
        ensures
            data.bindings@.len() == 0,
            data.dag.data.provided_files@.len() == 0,
            data.dag.data.execution_groups@.len() == 0,
            data.dag.execution_callbacks@ == Map::<ExecutionUuid, ExecutionCallbacks>::empty(),
            data.dag.file_callbacks@ == Map::<FileUuid, FileCallbacks>::empty(),
    {
        EvaluationData { dag: ExecutionDAG::new(), bindings: Vec::new() }
    }

    /// Binds an execution to what it means to the user interface: the
    /// binding gets a name, and the graph is told to call that name when
    /// the execution starts, when it ends and when it is skipped, behind the
    /// callbacks that were registered before.
    pub fn bind(&mut self, execution: ExecutionUuid, binding: Binding) -> (name: CallbackId)
        ensures
            name == old(self).bindings@.len(),
            final(self).bindings@ == old(self).bindings@.push(binding),
            final(self).dag.data == old(self).dag.data,
            final(self).dag.file_callbacks == old(self).dag.file_callbacks,
            forall|event: ExecutionEvent| #[trigger]
                fired(final(self).dag.execution_callbacks@, execution, event) == fired(
                    old(self).dag.execution_callbacks@,
                    execution,
                    event,
                ).push(name),
            forall|other: ExecutionUuid, event: ExecutionEvent|
                other != execution ==> #[trigger] fired(
                    final(self).dag.execution_callbacks@,
                    other,
                    event,
                ) == fired(old(self).dag.execution_callbacks@, other, event),
    {
        let name = self.bindings.len() as u64;
        self.bindings.push(binding);
        let ghost first = self.dag.execution_callbacks@;
        self.dag.on_execution_start(&execution, name);
        let ghost second = self.dag.execution_callbacks@;
        self.dag.on_execution_done(&execution, name);
        let ghost third = self.dag.execution_callbacks@;
        self.dag.on_execution_skip(&execution, name);
        let ghost last = self.dag.execution_callbacks@;
        proof {
            assert forall|other: ExecutionUuid, event: ExecutionEvent|
                {
                    &&& (other != execution ==> #[trigger] fired(last, other, event) == fired(
                        first,
                        other,
                        event,
                    ))
                    &&& other == execution ==> fired(last, other, event) == fired(
                        first,
                        other,
                        event,
                    ).push(name)
                } by {
                lemma_added_fires(first, second, execution, seq![name], seq![], seq![], other);
                lemma_added_fires(second, third, execution, seq![], seq![name], seq![], other);
                lemma_added_fires(third, last, execution, seq![], seq![], seq![name], other);
                let empty = Seq::<CallbackId>::empty();
                assert(fired(first, execution, event) + empty =~= fired(first, execution, event));
                assert(fired(second, execution, event) + empty =~= fired(second, execution, event));
                assert(fired(third, execution, event) + empty =~= fired(third, execution, event));
                assert(fired(first, execution, event) + seq![name] =~= fired(
                    first,
                    execution,
                    event,
                ).push(name));
                assert(fired(second, execution, event) + seq![name] =~= fired(
                    second,
                    execution,
                    event,
                ).push(name));
                assert(fired(third, execution, event) + seq![name] =~= fired(
                    third,
                    execution,
                    event,
                ).push(name));
            }
            assert forall|event: ExecutionEvent| #[trigger]
                fired(last, execution, event) == fired(first, execution, event).push(name) by {
                assert(execution == execution ==> fired(last, execution, event) == fired(
                    first,
                    execution,
                    event,
                ).push(name));
            }
        }
        name
    }

    /// The message for the user interface when the callback `name` is
    /// called because its execution stands at `status`; nothing for a name
    /// that was not given by [`Self::bind`].
    pub fn message(&self, name: CallbackId, status: UIExecutionStatus) -> (message: Option<
        UIMessage,
    >)
        ensures
            message == (if name < self.bindings@.len() {
                Some(bound_message(self.bindings@[name as int], status))
            } else {
                None
            }),
    {
        if name >= self.bindings.len() as u64 {
            return None;
        }
        let message = match &self.bindings[name as usize] {
            Binding::Compilation { file } => UIMessage::Compilation { file: file.clone(), status },
            Binding::IOIGeneration { subtask, testcase } => UIMessage::IOIGeneration {
                subtask: *subtask,
                testcase: *testcase,
                status,
            },
            Binding::IOIValidation { subtask, testcase } => UIMessage::IOIValidation {
                subtask: *subtask,
                testcase: *testcase,
                status,
            },
            Binding::IOISolution { subtask, testcase } => UIMessage::IOISolution {
                subtask: *subtask,
                testcase: *testcase,
                status,
            },
            Binding::IOIEvaluation { subtask, testcase, solution } => UIMessage::IOIEvaluation {
                subtask: *subtask,
                testcase: *testcase,
                solution: solution.clone(),
                status,
            },
            Binding::IOIChecker { subtask, testcase, solution } => UIMessage::IOIChecker {
                subtask: *subtask,
                testcase: *testcase,
                solution: solution.clone(),
                status,
            },
        };
        Some(message)
    }
}

} // verus!
