//! The description of a task.

use vstd::prelude::*;
use crate::search::{first_position, lemma_first_position_is, occurs};

verus! {

/// Identifier of a subtask.
pub type SubtaskId = u32;

/// Identifier of a testcase.
pub type TestcaseId = u32;

/// A score, in millionths of a point.
pub type Score = u64;

/// The score of a testcase that is solved in full.
pub const FULL_SCORE: Score = 1_000_000;

/// A testcase of a subtask.
#[derive(Debug, Clone, Copy, PartialEq, Eq, Structural)]
pub struct TestcaseInfo {
    /// Identifier of the testcase.
    pub id: TestcaseId,
}

/// A subtask of a task.
#[derive(Debug, Clone, PartialEq, Eq)]
pub struct SubtaskInfo {
    /// Identifier of the subtask.
    pub id: SubtaskId,
    /// The score of a solution that solves every testcase of the subtask.
    pub max_score: Score,
    /// The testcases of the subtask.
    pub testcases: Vec<TestcaseInfo>,
}

/// A task.
#[derive(Debug, Clone, PartialEq, Eq)]
pub struct Task {
    /// Directory of the task.
    pub path: String,
    /// Short name of the task.
    pub name: String,
    /// Title of the task.
    pub title: String,
    /// Time limit of the solutions, in microseconds.
    pub time_limit: Option<u64>,
    /// Memory limit of the solutions, in KiB.
    pub memory_limit: Option<u64>,
    /// The subtasks of the task.
    pub subtasks: Vec<SubtaskInfo>,
}

/// The identifiers of these testcases, in order.
pub open spec fn testcase_ids(testcases: Seq<TestcaseInfo>) -> Seq<TestcaseId> {
    testcases.map_values(|testcase: TestcaseInfo| testcase.id)
}

/// The identifiers of these subtasks, in order.
pub open spec fn subtask_ids(subtasks: Seq<SubtaskInfo>) -> Seq<SubtaskId> {
    subtasks.map_values(|subtask: SubtaskInfo| subtask.id)
}

/// The sum of the maximum scores of these subtasks.
pub open spec fn total_score(subtasks: Seq<SubtaskInfo>) -> nat
    decreases subtasks.len(),
{
    if subtasks.len() == 0 {
        0
    } else {
        total_score(subtasks.drop_last()) + subtasks.last().max_score as nat
    }
}

impl SubtaskInfo {
    /// Position of the testcase with this identifier: the first, where several have it.
    pub open spec fn testcase_position(&self, testcase: TestcaseId) -> int {
        first_position(testcase_ids(self.testcases@), testcase)
    }

    /// Whether the subtask has a testcase with this identifier.
    pub open spec fn has_testcase(&self, testcase: TestcaseId) -> bool {
        occurs(testcase_ids(self.testcases@), testcase)
    }

    /// Where the testcase with this identifier stands.
    pub fn find_testcase(&self, testcase: TestcaseId) -> (found: Option<usize>)
        ensures
            found is Some == self.has_testcase(testcase),
            found matches Some(j) ==> j == self.testcase_position(testcase) && j
                < self.testcases@.len(),
    {
        let mut j: usize = 0;
        while j < self.testcases.len()
            invariant
                j <= self.testcases@.len(),
                forall|k: int| 0 <= k < j ==> testcase_ids(self.testcases@)[k] != testcase,
            decreases self.testcases@.len() - j,
        {
            if self.testcases[j].id == testcase {
                proof {
                    lemma_first_position_is(testcase_ids(self.testcases@), testcase, j as int);
                }
                return Some(j);
            }
            j += 1;
        }
        proof {
            lemma_first_position_is(testcase_ids(self.testcases@), testcase, j as int);
        }
        None
    }
}

impl Task {
    /// Position of the subtask with this identifier: the first, where several have it.
    pub open spec fn subtask_position(&self, subtask: SubtaskId) -> int {
        first_position(subtask_ids(self.subtasks@), subtask)
    }

    /// Whether the task has a subtask with this identifier.
    pub open spec fn has_subtask(&self, subtask: SubtaskId) -> bool {
        occurs(subtask_ids(self.subtasks@), subtask)
    }

    /// Whether the task has this testcase in this subtask.
    pub open spec fn has_testcase(&self, subtask: SubtaskId, testcase: TestcaseId) -> bool {
        self.has_subtask(subtask) && self.subtasks@[self.subtask_position(subtask)].has_testcase(
            testcase,
        )
    }

    /// Where the subtask with this identifier stands.
    pub fn find_subtask(&self, subtask: SubtaskId) -> (found: Option<usize>)
        ensures
            found is Some == self.has_subtask(subtask),
            found matches Some(i) ==> i == self.subtask_position(subtask) && i
                < self.subtasks@.len(),
    {
        let mut i: usize = 0;
        while i < self.subtasks.len()
            invariant
                i <= self.subtasks@.len(),
                forall|k: int| 0 <= k < i ==> subtask_ids(self.subtasks@)[k] != subtask,
            decreases self.subtasks@.len() - i,
        {
            if self.subtasks[i].id == subtask {
                proof {
                    lemma_first_position_is(subtask_ids(self.subtasks@), subtask, i as int);
                }
                return Some(i);
            }
            i += 1;
        }
        proof {
            lemma_first_position_is(subtask_ids(self.subtasks@), subtask, i as int);
        }
        None
    }

    /// Where this testcase of this subtask stands: the position of the subtask
    /// and, within it, that of the testcase.
    pub fn find_testcase(&self, subtask: SubtaskId, testcase: TestcaseId) -> (found: Option<
        (usize, usize),
    >)
        ensures
            found is Some == self.has_testcase(subtask, testcase),
            found matches Some((i, j)) ==> {
                &&& i == self.subtask_position(subtask)
                &&& i < self.subtasks@.len()
                &&& j == self.subtasks@[i as int].testcase_position(testcase)
                &&& j < self.subtasks@[i as int].testcases@.len()
            },
    {
        match self.find_subtask(subtask) {
            Some(i) => match self.subtasks[i].find_testcase(testcase) {
                Some(j) => Some((i, j)),
                None => None,
            },
            None => None,
        }
    }

    /// The largest score a solution can get: the sum over the subtasks.
    pub fn max_score(&self) -> (total: u128)
        ensures
            total == total_score(self.subtasks@),
    {
        let mut total: u128 = 0;
        let mut i: usize = 0;
        while i < self.subtasks.len()
            invariant
                i <= self.subtasks@.len(),
                total == total_score(self.subtasks@.take(i as int)),
                total <= i * 0xffff_ffff_ffff_ffff,
            decreases self.subtasks@.len() - i,
        {
            assert(self.subtasks@.take(i + 1).drop_last() == self.subtasks@.take(i as int));
            assert((i + 1) * 0xffff_ffff_ffff_ffff == i * 0xffff_ffff_ffff_ffff
                + 0xffff_ffff_ffff_ffff) by (nonlinear_arith);
            assert(i * 0xffff_ffff_ffff_ffff <= 0xffff_ffff_ffff_ffff * 0xffff_ffff_ffff_ffff)
                by (nonlinear_arith)
                requires
                    i <= 0xffff_ffff_ffff_ffff,
            ;
            total = total + self.subtasks[i].max_score as u128;
            i += 1;
        }
        assert(self.subtasks@.take(i as int) == self.subtasks@);
        total
    }
}

} // verus!
