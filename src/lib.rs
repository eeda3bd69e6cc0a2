//! A bounded, time-expiring key/value cache and the request protocol that
//! drives it: operation parsing, dispatch, and reply construction.
pub mod operation;
pub mod echo;
pub mod reply;
pub mod service;
pub mod store;
