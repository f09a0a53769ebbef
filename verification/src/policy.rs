//! The policy filter: admission of requests by an embedded policy engine.

pub mod admission;
pub mod delegation;
pub mod registration;
pub mod transport;
