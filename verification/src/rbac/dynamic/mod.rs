//! Risk-based decisions on top of the static roles.
//!
//! A request is weighed in five dimensions, the total is mapped to an autonomy level, and only
//! the two highest levels allow. Missing evidence raises the risk.
pub mod anomaly;
pub mod arbiter;
pub mod delegator;
pub mod domain;
pub mod metrics;
pub mod policy;
pub mod trust;
pub mod verdict;
