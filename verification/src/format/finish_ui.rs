//! What the report at the end of an evaluation shows, and in which order and
//! colour. Printing it is left to whoever owns the terminal.

use itertools::Itertools;
use vstd::prelude::*;
use crate::dag::execution::{ExecutionResult, ExecutionStatus, ExecutionStatusView};
use crate::format::task::{
    subtask_ids, testcase_ids, Score, SubtaskId, SubtaskInfo, Task, TestcaseId, FULL_SCORE,
};
use crate::format::ui_state::{CompilationStatus, TestcaseGenerationState};

verus! {

/// The colours of the report.
#[derive(Debug, Clone, Copy, PartialEq, Eq, Structural)]
pub enum Color {
    /// For what went wrong.
    Red,
    /// For what went well.
    Green,
    /// For what is neither.
    Yellow,
    /// For the titles.
    Blue,
}

/// Whether the numbers are in ascending order.
pub open spec fn ascending(numbers: Seq<u32>) -> bool {
    forall|i: int, j: int| 0 <= i <= j < numbers.len() ==> numbers[i] <= numbers[j]
}

/// Sorts numbers with `itertools::Itertools::sorted`, which gives all the
/// elements of an iterator in ascending order: the result holds what
/// `numbers` holds, as often, and is in ascending order.
#[verifier::external_body]
fn sorted_numbers(numbers: Vec<u32>) -> (sorted: Vec<u32>)
    ensures
        sorted@.to_multiset() == numbers@.to_multiset(),
        ascending(sorted@),
{
    numbers.into_iter().sorted().collect()
}

/// The identifiers of the subtasks of a task, in the order in which the
/// report shows them: ascending.
pub fn subtask_order(task: &Task) -> (order: Vec<SubtaskId>)
    ensures
        order@.to_multiset() == subtask_ids(task.subtasks@).to_multiset(),
        ascending(order@),
{
    let mut ids: Vec<SubtaskId> = Vec::new();
    let mut i: usize = 0;
    while i < task.subtasks.len()
        invariant
            i <= task.subtasks@.len(),
            ids@ == subtask_ids(task.subtasks@).take(i as int),
        decreases task.subtasks@.len() - i,
    {
        ids.push(task.subtasks[i].id);
        assert(ids@ =~= subtask_ids(task.subtasks@).take(i + 1));
        i += 1;
    }
    assert(subtask_ids(task.subtasks@).take(i as int) =~= subtask_ids(task.subtasks@));
    sorted_numbers(ids)
}

/// The identifiers of the testcases of a subtask, in the order in which the
/// report shows them: ascending.
pub fn testcase_order(subtask: &SubtaskInfo) -> (order: Vec<TestcaseId>)
    ensures
        order@.to_multiset() == testcase_ids(subtask.testcases@).to_multiset(),
        ascending(order@),
{
    let mut ids: Vec<TestcaseId> = Vec::new();
    let mut i: usize = 0;
    while i < subtask.testcases.len()
        invariant
            i <= subtask.testcases@.len(),
            ids@ == testcase_ids(subtask.testcases@).take(i as int),
        decreases subtask.testcases@.len() - i,
    {
        ids.push(subtask.testcases[i].id);
        assert(ids@ =~= testcase_ids(subtask.testcases@).take(i + 1));
        i += 1;
    }
    assert(testcase_ids(subtask.testcases@).take(i as int) =~= testcase_ids(subtask.testcases@));
    sorted_numbers(ids)
}

/// The colour of a score out of `max_score`: green for all of it, red for
/// nothing, yellow for what lies between.
pub fn score_color(score: u128, max_score: u128) -> (color: Color)
    ensures
        color == (if score == max_score {
            Color::Green
        } else if score == 0 {
            Color::Red
        } else {
            Color::Yellow
        }),
{
    if score == max_score {
        Color::Green
    } else if score == 0 {
        Color::Red
    } else {
        Color::Yellow
    }
}

/// The colour of the score of a testcase: green for the full score, red for
/// nothing, yellow for what lies between.
pub fn testcase_color(score: Score) -> (color: Color)
    ensures
        color == (if score == FULL_SCORE {
            Color::Green
        } else if score == 0 {
            Color::Red
        } else {
            Color::Yellow
        }),
{
    if score == FULL_SCORE {
        Color::Green
    } else if score == 0 {
        Color::Red
    } else {
        Color::Yellow
    }
}

/// The colour in which the status of a compilation is shown.
pub fn compilation_color(status: &CompilationStatus) -> (color: Color)
    ensures
        color == (match *status {
            CompilationStatus::Done { .. } => Color::Green,
            CompilationStatus::Failed { .. } => Color::Red,
            _ => Color::Yellow,
        }),
{
    match status {
        CompilationStatus::Done { .. } => Color::Green,
        CompilationStatus::Failed { .. } => Color::Red,
        _ => Color::Yellow,
    }
}

/// The text that stands for the status of a compilation.
pub open spec fn compilation_text(status: CompilationStatus) -> Seq<char> {
    match status {
        CompilationStatus::Pending => "Pending"@,
        CompilationStatus::Running => "Running"@,
        CompilationStatus::Done { .. } => " OK  "@,
        CompilationStatus::Failed { .. } => "FAIL "@,
        CompilationStatus::Skipped => "Skipped"@,
    }
}

/// The text that stands for the status of a compilation.
pub fn compilation_label(status: &CompilationStatus) -> (label: String)
    ensures
        label@ == compilation_text(*status),
{
    match status {
        CompilationStatus::Pending => "Pending".to_owned(),
        CompilationStatus::Running => "Running".to_owned(),
        CompilationStatus::Done { .. } => " OK  ".to_owned(),
        CompilationStatus::Failed { .. } => "FAIL ".to_owned(),
        CompilationStatus::Skipped => "Skipped".to_owned(),
    }
}

/// A step of the generation of a testcase, as the report shows it.
#[derive(Debug, Clone, Copy, PartialEq, Eq, Structural)]
pub enum Segment {
    /// The input was generated, or the generation failed.
    Generation { success: bool },
    /// What stands between two steps.
    Separator,
    /// The input was validated, or the validation failed.
    Validation { success: bool },
    /// The output was made, or the official solution failed.
    Solution { success: bool },
}

/// Whether a step that is known ended well.
pub open spec fn succeeded(result: Option<ExecutionResult>) -> bool {
    result matches Some(known) && known.status@ is Success
}

/// The line of the report for the generation of a testcase: each step that
/// has a result, with a separator behind the generation if it has one, and
/// one behind the validation if either of the two has one.
pub open spec fn generation_segments(testcase: TestcaseGenerationState) -> Seq<Segment> {
    (if testcase.generation is Some {
        seq![Segment::Generation { success: succeeded(testcase.generation) }, Segment::Separator]
    } else {
        seq![]
    }) + (if testcase.validation is Some {
        seq![Segment::Validation { success: succeeded(testcase.validation) }]
    } else {
        seq![]
    }) + (if testcase.generation is Some || testcase.validation is Some {
        seq![Segment::Separator]
    } else {
        seq![]
    }) + (if testcase.solution is Some {
        seq![Segment::Solution { success: succeeded(testcase.solution) }]
    } else {
        seq![]
    })
}

/// The line of the report for the generation of a testcase.
pub fn generation_line(testcase: &TestcaseGenerationState) -> (line: Vec<Segment>)
    ensures
        line@ == generation_segments(*testcase),
{
    let mut line: Vec<Segment> = Vec::new();
    let mut first = true;
    if let Some(result) = &testcase.generation {
        line.push(Segment::Generation { success: result.status.is_success() });
        first = false;
    }
    if !first {
        line.push(Segment::Separator);
    }
    if let Some(result) = &testcase.validation {
        line.push(Segment::Validation { success: result.status.is_success() });
        first = false;
    }
    if !first {
        line.push(Segment::Separator);
    }
    if let Some(result) = &testcase.solution {
        line.push(Segment::Solution { success: result.status.is_success() });
    }
    assert(line@ =~= generation_segments(*testcase));
    line
}

/// What the report adds to the verdict of a testcase, for a run that did not end well.
#[derive(Debug, PartialEq, Eq)]
pub enum Note {
    /// The process exited with this status.
    Exited(u32),
    /// The process was stopped by this signal; the second field is its name.
    Signal(u32, String),
    /// The sandbox failed for this reason.
    InternalError(String),
}

/// What the report adds to the verdict of a testcase.
pub fn result_note(status: &ExecutionStatus) -> (note: Option<Note>)
    ensures
        match status@ {
            ExecutionStatusView::ReturnCode(code) => note == Some(Note::Exited(code)),
            ExecutionStatusView::Signal(signal, name) => note matches Some(Note::Signal(number, text))
                && number == signal && text@ == name,
            ExecutionStatusView::InternalError(error) => note matches Some(
                Note::InternalError(text),
            ) && text@ == error,
            _ => note is None,
        },
{
    match status {
        ExecutionStatus::ReturnCode(code) => Some(Note::Exited(*code)),
        ExecutionStatus::Signal(signal, name) => Some(Note::Signal(*signal, name.clone())),
        ExecutionStatus::InternalError(error) => Some(Note::InternalError(error.clone())),
        _ => None,
    }
}

} // verus!
