//! Handles of the files that flow through a computation graph.

use vstd::prelude::*;

verus! {

/// Identifier of a file of the graph.
pub type FileUuid = u128;

/// Identifier of an execution.
pub type ExecutionUuid = u128;

/// Identifier of a group of executions that run together.
pub type ExecutionGroupUuid = u128;

/// Identifier of a worker.
pub type WorkerUuid = u128;

/// Draws a new random identifier with `uuid::Uuid::new_v4` and packs it into an
/// integer with `Uuid::as_u128`. The value comes from the system's random
/// source, so nothing is claimed about it.
#[verifier::external_body]
pub(crate) fn fresh_uuid() -> (id: u128) {
    uuid::Uuid::new_v4().as_u128()
}

/// A handle to a file whose content may not exist yet: either the client
/// provides it, or one execution produces it.
#[derive(Debug, PartialEq, Eq)]
pub struct File {
    /// Identifier of the file.
    pub uuid: FileUuid,
    /// What the file is, for humans.
    pub description: String,
}

impl File {
    /// Makes a handle with a new identifier.
    pub fn new(description: &str) -> (file: File)
        ensures
            file.description@ == description@,
    {
        File { uuid: fresh_uuid(), description: description.to_owned() }
    }
}

impl Clone for File {
    fn clone(&self) -> (file: File)
        ensures
            file == *self,
    {
        File { uuid: self.uuid, description: self.description.clone() }
    }
}

} // verus!
