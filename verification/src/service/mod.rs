//! Authentication: names, passwords, attempts, and further factors.
pub mod login;
pub mod verify;
