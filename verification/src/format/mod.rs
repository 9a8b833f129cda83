//! Tasks made of subtasks and testcases, and the state that a user interface
//! keeps while one is evaluated.

pub mod evaluation;
pub mod finish_ui;
pub mod task;
pub mod ui;
pub mod ui_state;
