//! What each endpoint of the service decides and changes, given what the
//! platform told it: whether the caller is a controller, the address a
//! signature recovers, and what the outside services answered.
pub mod balance;
pub mod chains;
pub mod controllers;
pub mod subscriptions;
pub mod whitelist;
pub mod signatures;
pub mod http;
