//! The computation graph built by a client: files, executions and callbacks.

pub mod dag;
pub mod execution;
pub mod file;
