//! Roles, permissions, and what decides between them.
pub mod audit;
pub mod cache;
pub mod constraints;
pub mod dynamic;
pub mod engine;
pub mod hierarchy;
pub mod identity_subject;
pub mod memory;
pub mod policy;
pub mod registry;
pub mod scope;
pub mod session;
pub mod session_db;
pub mod subject;
pub mod traits;
pub mod workspace_guard;
