//! Registration and login.
pub mod accounts;
pub mod auth;
pub mod default_engine;
pub mod rate_limiter;
pub mod users;
pub mod validation;
