//! Tracing helpers and mail-triage logic for a notmuch mail store.

pub mod memhelp;
pub mod triage;
pub mod report;
pub mod cache;
pub mod cursor;
