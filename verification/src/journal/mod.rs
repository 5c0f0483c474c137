//! Crash-recovery journals of dirty documents.
pub mod runtime;
