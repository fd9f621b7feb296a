//! Verified core of the mcpg.cloud tenant CLI: coordinate resolution, request
//! targets, config-version diffs, name resolution and the text the commands
//! print. The HTTP and terminal edges live in the binary around this crate.

pub mod api;
pub mod coords;
pub mod deploy;
pub mod diff;
pub mod names;
pub mod report;
pub mod sse;
pub mod target;
pub mod text;
