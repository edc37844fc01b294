//! The remote cache: wire protocol types, errors and client bookkeeping.
pub mod error;
pub mod protocol;
pub mod client;
