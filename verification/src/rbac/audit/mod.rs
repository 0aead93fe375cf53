//! The audit trail: recorded decisions, rules over them, and summaries.
pub mod analyzer;
pub mod entry;
pub mod logger;
pub mod policy;
pub mod sink;
