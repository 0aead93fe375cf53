//! Separation of duty, cardinality, prerequisites and time windows.
pub mod policies;
pub mod store;
pub mod validator;
