//! File-system events, watcher options and the handlers that receive events.

use vstd::prelude::*;

verus! {

/// Kind of a file-system event.
#[derive(Debug, Clone, Copy, PartialEq, Eq, Structural)]
pub enum FsEventKind {
    Change,
    Remove,
    Create,
}

/// A file-system event on one path.
#[derive(Debug, Clone, PartialEq, Eq)]
pub struct FsEvent {
    pub path: String,
    pub kind: FsEventKind,
}

/// The view of an event: its path's characters and its kind.
pub open spec fn event_view(e: FsEvent) -> (Seq<char>, FsEventKind) {
    (e.path@, e.kind)
}

/// The views of a sequence of events.
pub open spec fn events_view(es: Seq<FsEvent>) -> Seq<(Seq<char>, FsEventKind)> {
    es.map_values(|e: FsEvent| event_view(e))
}

/// Receives the aggregated changes once the aggregate timeout has passed.
pub trait EventAggregateHandler: Send {
    fn on_aggregate(&self, changed: Vec<String>, deleted: Vec<String>);
}

/// Receives each event as soon as it arrives.
pub trait EventHandler: Send {
    fn on_change(&self, path: String);

    fn on_delete(&self, path: String);
}

/// Watcher settings.
#[derive(Debug)]
pub struct FsWatcherOptions {
    /// Aggregate timeout in milliseconds (50 when absent).
    pub aggregate_timeout: Option<u32>,
    /// Whether to follow symbolic links.
    pub follow_symlinks: bool,
    /// Polling interval in milliseconds, for VM or NFS setups.
    pub poll_interval: Option<u32>,
}

impl Default for FsWatcherOptions {
    fn default() -> (r: Self)
        ensures
            r.aggregate_timeout is None,
            !r.follow_symlinks,
            r.poll_interval is None,
    {
        FsWatcherOptions { aggregate_timeout: None, follow_symlinks: false, poll_interval: None }
    }
}

} // verus!
