//! How the scores of the testcases make the score of a task.

pub mod min;
