//! The runs of the scheduler: the events that it takes in, one after the
//! other, and what it has done and become after them.

use vstd::prelude::*;
use crate::cache::CacheModeView;
use crate::dag::dag::ProvidedFile;
use crate::dag::execution::{ExecutionGroup, ExecutionResultView};
use crate::dag::file::{FileUuid, WorkerUuid};
use crate::exec::model::{after, held_step, unchanged, DependencyKey, SchedulerView, Step};
use crate::store::{stored, FileStoreKey};

verus! {

/// An event that the scheduler takes in.
pub enum Event {
    /// A worker asks for work.
    WorkerAsked { worker: WorkerUuid },
    /// The client hands over a graph.
    Ingested { provided: Seq<ProvidedFile>, groups: Seq<ExecutionGroup>, mode: CacheModeView },
    /// The client sends the content of a file it provides.
    FileArrived { file: FileUuid, content: Seq<u8> },
    /// A blob is put into the store.
    BlobStored { content: Seq<u8> },
    /// A worker reports the results of its job.
    ResultArrived {
        worker: WorkerUuid,
        results: Seq<ExecutionResultView>,
        reported: Seq<DependencyKey>,
    },
    /// A worker is lost.
    WorkerGone { worker: WorkerUuid },
    /// The client asks for a stop.
    Stopped,
    /// The scheduler lets go of the blobs it holds.
    Released,
    /// The store evicts what it may.
    Evicted,
}

/// Whether the scheduler, after the event, takes a reference to the blobs of
/// the files that became ready during it.
pub open spec fn holds_after(event: Event) -> bool {
    event is WorkerAsked || event is Ingested || event is FileArrived || event is ResultArrived
        || event is WorkerGone
}

/// The state after an event, and the actions that the event calls for.
pub open spec fn next(view: SchedulerView, event: Event) -> Step {
    if holds_after(event) {
        held_step(view, taken_in(view, event))
    } else {
        taken_in(view, event)
    }
}

/// The state once an event is taken in, before the scheduler takes
/// references to the blobs of the files that became ready.
pub open spec fn taken_in(view: SchedulerView, event: Event) -> Step {
    match event {
        Event::WorkerAsked { worker } => view.worker_asked(worker),
        Event::Ingested { provided, groups, mode } => view.ingested(provided, groups, mode),
        Event::FileArrived { file, content } => view.file_arrived(file, content),
        Event::BlobStored { content } => unchanged(
            SchedulerView {
                store: stored(view.store, FileStoreKey::of(content), content),
                ..view
            },
        ),
        Event::ResultArrived { worker, results, reported } => view.result_arrived(
            worker,
            results,
            reported,
        ),
        Event::WorkerGone { worker } => view.worker_gone(worker),
        Event::Stopped => view.stopped(),
        Event::Released => unchanged(view.released()),
        Event::Evicted => unchanged(view.evicted()),
    }
}

/// The state after a sequence of events, and all the actions they called for, in order.
pub open spec fn run(view: SchedulerView, events: Seq<Event>) -> Step
    decreases events.len(),
{
    if events.len() == 0 {
        unchanged(view)
    } else {
        let before = run(view, events.drop_last());
        after(before.actions, next(before.view, events.last()))
    }
}

/// A scheduler that has seen nothing: no group, no file, no worker.
pub open spec fn fresh(view: SchedulerView) -> bool {
    &&& view.groups.len() == 0
    &&& view.states.len() == 0
    &&& view.files.len() == 0
    &&& view.file_states.len() == 0
    &&& view.workers.len() == 0
}

} // verus!
