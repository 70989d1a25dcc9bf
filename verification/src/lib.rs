//! A scriptable stand-in server for a Bolt-style binary wire protocol.
//!
//! The crate holds the protocol engine: the handshake negotiator, the value
//! codec, the script compiler, the node executor and the per-connection
//! session state. Everything that touches a socket, a clock or a runtime is
//! left to the caller, which feeds plain values in and acts on the plain
//! values that come back.

pub mod bolt_agent;
pub mod error;
pub mod handshake;
pub mod jolt;
pub mod mapping;
pub mod script_parser;
pub mod stub_engine;
