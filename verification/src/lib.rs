//! Session lifecycle for a federated social-networking client.
//!
//! The crate covers the logic that decides whether a cached session can be
//! reused, how the minimal session record is framed and encoded for
//! persistence, and how a failed resumption falls back to a password login.
//! All file and network traffic stays with the caller: the functions here
//! take the outcome of each outside call as a plain value and return the
//! next decision.

pub mod auth;
pub mod codec;
