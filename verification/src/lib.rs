//! Delegated spend authorization for a token-bearing account.
//!
//! An owner (the *delegator*) grants a counterparty (the *delegate*) the
//! capability to move funds on its behalf, may later revoke that capability,
//! and the delegate may execute a transfer while the capability is active.
//! The crate provides:
//!
//! * an instruction decoder that turns an opaque byte payload into one of
//!   three typed operations,
//! * a codec for the delegate's persisted permission record, packed into a
//!   fixed-plus-variable-length byte buffer, and
//! * the authorization state machine that validates a call, mutates the
//!   persisted record, and describes the call the external transfer engine
//!   must perform.
//!
//! The external transfer engine itself is an outside collaborator; this crate
//! only builds the instructions it consumes.

pub mod account;
pub mod delegate;
pub mod delegate_instruction;
pub mod engine;
pub mod processor;
