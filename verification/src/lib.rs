//! A line-based TCP chat: the wire protocol, the decisions of the client and
//! server sessions, and the registry of connected clients, with their contracts.

pub mod comms;
pub mod server;
pub mod text;
