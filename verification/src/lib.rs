//! rninja: the verified core of a Ninja-compatible build tool with caching.
//!
//! The library holds the manifest lexer and parser, the build graph, the
//! depfile reader, the build-log and cache-entry formats, the remote cache
//! protocol types and the small state machines that drive a build.  Every
//! function here carries a contract that Verus checks.
pub mod text;
pub mod strmap;
pub mod error;
pub mod parser;
pub mod graph;
pub mod cache;
pub mod buildlog;
pub mod server;
pub mod executor;
pub mod metrics;
pub mod daemon;
pub mod config;
pub mod output;
pub mod tools;
pub mod trace;
pub mod admin;
