//! Core of a Raft consensus replica: the role state machine, the log
//! replication and vote protocol handlers, the driver-loop decisions, and the
//! fixed 32-byte wire format. Everything here is pure computation on plain
//! values; sockets, threads and timers live outside the library and feed
//! frames and responses into the handlers.

pub mod laws;
pub mod replica;
pub mod state;
pub mod wire;
