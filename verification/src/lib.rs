//! Capability-token issuance and verification, and multi-stage interactive
//! authentication negotiation.
//!
//! The crate has two tightly coupled halves:
//! - the token lifecycle: building a signed token that embeds restrictive
//!   conditions (subject, purpose, expiry) and checking that a presented
//!   token's conditions still hold;
//! - the negotiation engine: tracking which authentication stages a client
//!   has completed and deciding whether any acceptable sequence of stages
//!   is fully satisfied.

pub mod access_token;
pub mod authentication;
pub mod bytes;
pub mod caveat;
pub mod crypto;
pub mod error;
pub mod login;
pub mod token;
pub mod transport;
pub mod wire;

pub use error::APIError;
