//! The engine that evaluates a graph: the scheduler, the workers, and the
//! messages between them and the client.

pub mod invariants;
pub mod laws;
pub mod model;
pub mod proto;
pub mod runs;
pub mod sandbox;
pub mod scheduler;
pub mod steps;
pub mod transfer;
pub mod worker;
