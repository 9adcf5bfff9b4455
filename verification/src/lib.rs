//! Verified client core for a JSON-RPC tool-invocation protocol.
//!
//! The library holds the wire model (a JSON value type with its renderer and
//! parser), the JSON-RPC envelope codec, the three transport state machines,
//! the protocol client core, the OAuth authorization-code flow decisions, and
//! the credential store. All I/O (process spawning, HTTP, sockets, files) is
//! left to an unverified shell that drives these state machines.

pub mod text;
pub mod assoc;
pub mod json;
pub mod rpc;
pub mod transport;
pub mod protocol;
pub mod client;
pub mod store;
pub mod pkce;
pub mod oauth;
pub mod config;
pub mod flags;
pub mod laws;
pub mod error;
