//! Signed chat events and peer identity checks.
//!
//! The crate frames and parses its wire formats byte by byte, signs and
//! verifies events with Ed25519, and holds the decisions of the identity
//! challenge, of peer collection and of the command line as functions from
//! state and input to the next step. Sockets, timers, files and the terminal
//! are the caller's.

pub mod chat_event;
pub mod command;
pub mod config;
pub mod discovery;
pub mod error;
pub mod identity;
pub mod primitives;
pub mod text;
pub mod wire;
