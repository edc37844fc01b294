//! The build daemon: its IPC protocol types, configuration, session states
//! and the handling of file-watcher events.
pub mod protocol;
pub mod session;
pub mod state;
pub mod watcher;
pub mod query;
