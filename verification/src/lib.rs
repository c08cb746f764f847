//! A line-oriented chat relay: the wire format, the server's registry of
//! connected names with its broadcast rule, the per-connection state machine
//! of the server, and the client's session with its outbound send buffer.
//!
//! Everything here works on plain values. Sockets, terminals and readiness
//! polling belong to the program around this library, which feeds events in
//! and carries the resulting actions out.

pub mod wire;
pub mod registry;
pub mod handler;
pub mod client;
