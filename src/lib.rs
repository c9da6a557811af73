//! Searches the environments of running processes for variables that match
//! a pattern.
//!
//! The library holds the logic of a scan: cutting the kernel's NUL-delimited
//! command-line and environment blobs into segments, matching each
//! environment segment against a compiled pattern, splitting matches into
//! key and value, and deciding what a scan reports for each process.
//! Reading the per-process pseudo-files is left to the caller.
//!
//! Matching works on raw bytes. Only a segment that matches is split and
//! decoded, and a matching segment whose key or value is not valid UTF-8
//! fails the inspection of its process, as one without `=` does; the scan
//! itself always goes on.

pub mod cmdline;
pub mod entry;
pub mod error;
pub mod inspect;
pub mod pattern;
pub mod report;
pub mod segments;
mod text;

pub use cmdline::load_cmdline;
pub use entry::{parse_entry, split_entry};
pub use error::InspectError;
pub use inspect::{grep_file, EnvVariable, Process};
pub use pattern::{MatchPattern, PatternError};
pub use report::{scan_step, ScanStep};
pub use segments::split_segments;
