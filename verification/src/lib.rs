//! Verified core of sync-memo: a small client/daemon pair that keeps local
//! memo files in sync with GitHub gists.  The library holds the message
//! formats exchanged over the daemon's socket, the decisions the daemon takes
//! on each request, and the shape of the GitHub gist requests and replies.
//! Sockets, files, HTTP, threads and logging live in the application crate.

pub mod json;
pub mod client;
pub mod daemon;
pub mod handler;
pub mod github;
pub mod watcher;
