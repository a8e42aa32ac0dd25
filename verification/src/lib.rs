//! Orchestration core of a lint runner: which files to lint, which linters
//! to run on them, how their results are merged, patched, rendered and
//! recorded.

pub mod board;
pub mod fingerprint;
pub mod glob;
pub mod invocation;
pub mod issue;
pub mod layout;
pub mod ledger;
pub mod orchestrate;
pub mod patch;
pub mod paths;
pub mod registry;
pub mod render;
pub mod report;
pub mod style;
pub mod text;
