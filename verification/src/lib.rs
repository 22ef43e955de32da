//! Dependency-discovery and incremental-compilation core of a small build
//! tool for C projects.
//!
//! The library scans a source tree for `#include` directives, distinguishes
//! project-local translation units from opaque system dependencies, names
//! compiled artifacts deterministically, decides which units are stale, and
//! assembles compile and link command lines.  All file-system reads, process
//! invocation and argument parsing live outside the library; the functions
//! here compute on plain values and carry contracts for what they return.

pub mod cli;
pub mod compile;
pub mod includes;
pub mod init;
pub mod paths;
pub mod run;
pub mod test_framework;
pub mod text;
