//! Further factors: networks, authenticators, messages.
pub mod address;
pub mod network_source;
pub mod sms;
pub mod web_authn;
