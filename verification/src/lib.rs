//! Execution engine for graphs of sandboxed processes: the graph model, the
//! scheduler that orders the work, the worker that runs it, and the
//! content-addressed store and result cache that let finished work be reused.

pub mod cache;
pub mod dag;
pub mod exec;
pub mod fingerprint;
pub mod format;
pub mod lang;
pub mod local;
pub mod score_types;
pub mod search;
pub mod store;
