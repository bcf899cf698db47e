//! What a file watcher does on each event from the file system.

use vstd::prelude::*;

verus! {

/// Seconds the file system watcher waits to merge events on a file.
pub const INTERVAL: u64 = 10;

/// What a watcher does next.
#[derive(Debug, Clone, Copy, PartialEq, Eq, Structural)]
pub enum WatchAction {
    /// Read the file and upload it to its gist, then wait for the next event.
    Upload,
    /// Stop watching the file and end the watcher.
    Stop,
}

/// The step a watcher takes on what it received: an event of the file
/// (`event_ok`) makes it upload the whole file; a closed event channel
/// makes it stop.
pub fn watch_step(event_ok: bool) -> (a: WatchAction)
    ensures
        a == (if event_ok {
            WatchAction::Upload
        } else {
            WatchAction::Stop
        }),
{
    if event_ok {
        WatchAction::Upload
    } else {
        WatchAction::Stop
    }
}

} // verus!
