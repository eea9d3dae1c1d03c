//! A registry of clients for a server that keeps no state of its own.
//!
//! The server knows its clients only through handles that do not own them
//! ([`ClientHandle`]). Whatever it keeps about a client is a checkpoint: a
//! cached copy that it can lose at any time and take again from the client
//! while the client lives. A server that is replaced starts from an empty
//! [`Server`] and lets the clients that are still alive register again.
//!
//! * [`handle`]: the handle, and the few `std::sync` calls everything rests on.
//! * [`registry`]: the registry as a mathematical value, and its transitions.
//! * [`server`]: the registry as the server holds it, proved against that value.
//! * [`laws`]: what holds of every registry.

pub mod handle;
pub mod laws;
pub mod registry;
pub mod server;

pub use crate::handle::{ClientHandle, Dead};
pub use crate::registry::{Operation, Registry};
pub use crate::server::{AlreadyRegistered, Server, ServerSideClientObj};
