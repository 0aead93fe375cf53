//! Role-based access control and authentication rules.
pub mod base64url;
pub mod collections;
pub mod error;
pub mod ids;
pub mod order;
pub mod rbac;
pub mod score;
pub mod service;
pub mod text;
pub mod time;
