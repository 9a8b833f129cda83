//! The score type `min`: a subtask is worth what its worst testcase is worth.

use vstd::prelude::*;
use crate::format::task::{Score, SubtaskId, Task, TestcaseId, FULL_SCORE};

verus! {

/// The scores of a subtask.
#[derive(Debug)]
pub struct SubtaskScores {
    /// The score of a solution that solves every testcase of the subtask.
    pub max_score: Score,
    /// The score of each testcase, in the order of the task, once it is known.
    pub testcases: Vec<Option<Score>>,
    /// The score of the subtask, once that of each of its testcases is known.
    pub score: Option<Score>,
}

/// The score type `min`, for each subtask takes the value of worst testcase
/// score.
#[derive(Debug)]
pub struct ScoreTypeMin {
    /// The task that is scored.
    pub task: Task,
    /// The scores of the subtasks, in the order of the task.
    pub subtasks: Vec<SubtaskScores>,
    /// The score of the task, once that of each of its subtasks is known.
    pub task_score: Option<u128>,
}

/// Whether each of the scores is known.
pub open spec fn all_known(scores: Seq<Option<Score>>) -> bool {
    forall|i: int| 0 <= i < scores.len() ==> (#[trigger] scores[i]) is Some
}

/// The least of the known scores and of the full score.
pub open spec fn least(scores: Seq<Option<Score>>) -> Score
    decreases scores.len(),
{
    if scores.len() == 0 {
        FULL_SCORE
    } else {
        let rest = least(scores.drop_last());
        match scores.last() {
            Some(score) => if score < rest {
                score
            } else {
                rest
            },
            None => rest,
        }
    }
}

/// The score of a subtask worth `max_score` whose testcases have `scores`:
/// the share of `max_score` that the worst testcase got, rounded down.
pub open spec fn subtask_score_of(max_score: Score, scores: Seq<Option<Score>>) -> int {
    (least(scores) as int * max_score as int) / (FULL_SCORE as int)
}

/// The scores of these subtasks, in order.
pub open spec fn subtask_scores(subtasks: Seq<SubtaskScores>) -> Seq<Option<Score>> {
    subtasks.map_values(|subtask: SubtaskScores| subtask.score)
}

/// The sum of the known scores.
pub open spec fn sum_of(scores: Seq<Option<Score>>) -> nat
    decreases scores.len(),
{
    if scores.len() == 0 {
        0
    } else {
        sum_of(scores.drop_last()) + match scores.last() {
            Some(score) => score as nat,
            None => 0,
        }
    }
}

/// No score is below the least.
pub proof fn lemma_least_bound(scores: Seq<Option<Score>>)
    ensures
        least(scores) <= FULL_SCORE,
    decreases scores.len(),
{
    if scores.len() > 0 {
        lemma_least_bound(scores.drop_last());
    }
}

/// The least of the scores, if each is known.
fn worst_of(scores: &Vec<Option<Score>>) -> (worst: Option<Score>)
    ensures
        worst is Some == all_known(scores@),
        worst matches Some(value) ==> value == least(scores@),
{
    let mut worst: Score = FULL_SCORE;
    let mut k: usize = 0;
    while k < scores.len()
        invariant
            k <= scores@.len(),
            worst == least(scores@.take(k as int)),
            forall|m: int| 0 <= m < k ==> (#[trigger] scores@[m]) is Some,
        decreases scores@.len() - k,
    {
        proof {
            assert(scores@.take(k + 1).drop_last() =~= scores@.take(k as int));
        }
        match scores[k] {
            Some(value) => {
                if value < worst {
                    worst = value;
                }
            },
            None => {
                return None;
            },
        }
        k += 1;
    }
    proof {
        assert(scores@.take(k as int) =~= scores@);
    }
    Some(worst)
}

/// The sum of the scores of the subtasks, if each is known.
fn total_of(subtasks: &Vec<SubtaskScores>) -> (total: Option<u128>)
    ensures
        total is Some == all_known(subtask_scores(subtasks@)),
        total matches Some(value) ==> value == sum_of(subtask_scores(subtasks@)),
{
    let ghost marks = subtask_scores(subtasks@);
    let mut total: u128 = 0;
    let mut g: usize = 0;
    while g < subtasks.len()
        invariant
            marks == subtask_scores(subtasks@),
            g <= marks.len(),
            marks.len() == subtasks@.len(),
            total == sum_of(marks.take(g as int)),
            total <= g * 0xffff_ffff_ffff_ffff,
            forall|m: int| 0 <= m < g ==> (#[trigger] marks[m]) is Some,
        decreases marks.len() - g,
    {
        proof {
            assert(marks.take(g + 1).drop_last() =~= marks.take(g as int));
            assert(marks[g as int] == subtasks@[g as int].score);
            assert((g + 1) * 0xffff_ffff_ffff_ffff == g * 0xffff_ffff_ffff_ffff
                + 0xffff_ffff_ffff_ffff) by (nonlinear_arith);
            assert(g * 0xffff_ffff_ffff_ffff <= 0xffff_ffff_ffff_ffff * 0xffff_ffff_ffff_ffff)
                by (nonlinear_arith)
                requires
                    g <= 0xffff_ffff_ffff_ffff,
            ;
        }
        match subtasks[g].score {
            Some(value) => {
                total = total + value as u128;
            },
            None => {
                return None;
            },
        }
        g += 1;
    }
    proof {
        assert(marks.take(g as int) =~= marks);
    }
    Some(total)
}

/// The share `worst` of `max_score`, rounded down.
fn share(worst: Score, max_score: Score) -> (part: Score)
    requires
        worst <= FULL_SCORE,
    ensures
        part == (worst as int * max_score as int) / (FULL_SCORE as int),
{
    proof {
        assert(0 <= (worst as int) * (max_score as int) <= (FULL_SCORE as int) * (max_score as int))
            by (nonlinear_arith)
            requires
                0 <= worst <= FULL_SCORE,
                0 <= max_score,
        ;
        assert((FULL_SCORE as int) * (max_score as int) <= 0xffff_ffff_ffff_ffff_ffff_ffff_ffff_ffff)
            by (nonlinear_arith)
            requires
                FULL_SCORE == 1_000_000,
                max_score <= 0xffff_ffff_ffff_ffff,
        ;
        assert(((worst as int) * (max_score as int)) / (FULL_SCORE as int) <= max_score as int)
            by (nonlinear_arith)
            requires
                0 <= (worst as int) * (max_score as int) <= (FULL_SCORE as int) * (max_score as int),
                FULL_SCORE == 1_000_000,
        ;
    }
    let whole: u128 = (worst as u128) * (max_score as u128) / (FULL_SCORE as u128);
    whole as Score
}

impl ScoreTypeMin {
    /// Whether the scores mirror the task: one entry for each subtask, with
    /// its maximum score, and one for each of its testcases.
    pub open spec fn wf(&self) -> bool {
        &&& self.subtasks@.len() == self.task.subtasks@.len()
        &&& forall|i: int|
            0 <= i < self.subtasks@.len() ==> (#[trigger] self.subtasks@[i]).testcases@.len()
                == self.task.subtasks@[i].testcases@.len() && self.subtasks@[i].max_score
                == self.task.subtasks@[i].max_score
    }

    /// Make a new ScoreTypeMin: no score is known.
    pub fn new(task: Task) -> (scores: ScoreTypeMin)
        ensures
            scores.wf(),
            scores.task == task,
            scores.task_score is None,
            forall|i: int|
                0 <= i < scores.subtasks@.len() ==> (#[trigger] scores.subtasks@[i]).score is None
                    && forall|j: int|
                    0 <= j < scores.subtasks@[i].testcases@.len() ==> (
                    #[trigger] scores.subtasks@[i].testcases@[j]) is None,
    {
        let mut subtasks: Vec<SubtaskScores> = Vec::new();
        let mut i: usize = 0;
        while i < task.subtasks.len()
            invariant
                i <= task.subtasks@.len(),
                subtasks@.len() == i,
                forall|k: int|
                    0 <= k < i ==> {
                        &&& (#[trigger] subtasks@[k]).testcases@.len()
                            == task.subtasks@[k].testcases@.len()
                        &&& subtasks@[k].max_score == task.subtasks@[k].max_score
                        &&& subtasks@[k].score is None
                        &&& forall|j: int|
                            0 <= j < subtasks@[k].testcases@.len() ==> (
                            #[trigger] subtasks@[k].testcases@[j]) is None
                    },
            decreases task.subtasks@.len() - i,
        {
            let mut testcases: Vec<Option<Score>> = Vec::new();
            let mut j: usize = 0;
            while j < task.subtasks[i].testcases.len()
                invariant
                    i < task.subtasks@.len(),
                    j <= task.subtasks@[i as int].testcases@.len(),
                    testcases@.len() == j,
                    forall|k: int| 0 <= k < j ==> (#[trigger] testcases@[k]) is None,
                decreases task.subtasks@[i as int].testcases@.len() - j,
            {
                testcases.push(None);
                j += 1;
            }
            subtasks.push(
                SubtaskScores { max_score: task.subtasks[i].max_score, testcases, score: None },
            );
            i += 1;
        }
        ScoreTypeMin { task, subtasks, task_score: None }
    }

    /// Takes in the score of a testcase, and tells whether the score of its
    /// subtask is known from now on. Once the score of each testcase of the
    /// subtask is known, so is that of the subtask: the share of its maximum
    /// score that its worst testcase got. Once the score of each subtask is
    /// known, so is that of the task: their sum.
    pub fn testcase_score(&mut self, subtask: SubtaskId, testcase: TestcaseId, score: Score) -> (known:
        bool)
        requires
            old(self).wf(),
            old(self).task.has_testcase(subtask, testcase),
        ensures
            final(self).wf(),
            final(self).task == old(self).task,
            ({
                let i = old(self).task.subtask_position(subtask);
                let j = old(self).task.subtasks@[i].testcase_position(testcase);
                let scores = old(self).subtasks@[i].testcases@.update(j, Some(score));
                &&& final(self).subtasks@.len() == old(self).subtasks@.len()
                &&& forall|k: int|
                    0 <= k < old(self).subtasks@.len() && k != i ==> final(self).subtasks@[k]
                        == old(self).subtasks@[k]
                &&& final(self).subtasks@[i].testcases@ == scores
                &&& final(self).subtasks@[i].max_score == old(self).subtasks@[i].max_score
                &&& known == all_known(scores)
                &&& final(self).subtasks@[i].score == (if known {
                    Some(subtask_score_of(old(self).subtasks@[i].max_score, scores) as Score)
                } else {
                    old(self).subtasks@[i].score
                })
                &&& final(self).task_score == (if known && all_known(
                    subtask_scores(final(self).subtasks@),
                ) {
                    Some(sum_of(subtask_scores(final(self).subtasks@)) as u128)
                } else {
                    old(self).task_score
                })
            }),
    {
        let (i, j) = match self.task.find_testcase(subtask, testcase) {
            Some(found) => found,
            None => (0, 0),
        };
        self.subtasks[i].testcases[j] = Some(score);
        match worst_of(&self.subtasks[i].testcases) {
            Some(worst) => {
                // all the testcases are ready, update the subtask score
                proof {
                    lemma_least_bound(self.subtasks@[i as int].testcases@);
                }
                self.subtasks[i].score = Some(share(worst, self.subtasks[i].max_score));
                match total_of(&self.subtasks) {
                    Some(total) => {
                        // all the subtasks are ready, update the task
                        self.task_score = Some(total);
                    },
                    None => {},
                }
                true
            },
            None => false,
        }
    }

    /// The score of a subtask, once it is known.
    pub fn get_subtask_score(&self, subtask: SubtaskId) -> (score: Option<Score>)
        requires
            self.wf(),
        ensures
            score == (if self.task.has_subtask(subtask) {
                self.subtasks@[self.task.subtask_position(subtask)].score
            } else {
                None
            }),
    {
        match self.task.find_subtask(subtask) {
            Some(i) => self.subtasks[i].score,
            None => None,
        }
    }

    /// The score of the task, once it is known.
    pub fn get_task_score(&self) -> (score: Option<u128>)
        ensures
            score == self.task_score,
    {
        self.task_score
    }
}

} // verus!
