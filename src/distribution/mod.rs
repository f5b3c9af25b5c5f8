//! Identifiers and decisions of the OCI distribution protocol.

pub mod auth;
pub mod client;
pub mod name;
pub mod reference;

pub use auth::{AuthChallenge, StoredAuth};
pub use client::{Client, Decision};
pub use name::Name;
pub use reference::Reference;
