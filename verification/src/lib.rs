//! A replicated, event-sourced object store with git-like synchronization.
//!
//! Objects are never written in place. An application hands the store
//! actions; each action, wrapped in an action object with metadata and
//! signatures, makes the next version of one object. Action objects are
//! grouped into commits. A replica keeps a log of local commits that are not
//! published yet and a log of remote commits that the server has signed, and
//! every object keeps the chain of actions behind each of its two versions.
//!
//! The modules, leaves first: `records` frames byte records for files;
//! `prelude` signs bytes and names the files; `sync` holds the data model,
//! the rules of the chains, the logs, and the push and pull protocol. What
//! is proved of the whole stands in `sync::converge`, for replicas that take
//! in the same commits, and in `sync::handover`, for a commit on its way
//! from its author over the server to a client.
pub mod prelude;
pub mod records;
pub mod sync;
