//! Verified core of a TCP-to-UDP tunnel endpoint.
//!
//! Every datagram crossing the stream transport is carried as a frame: a
//! big-endian 16-bit length followed by exactly that many payload bytes.
//! The modules here hold the wire format, the incremental de-framing pump,
//! the coupling of a session's two pumps and the listener startup rules.
//! Sockets, tasks and logging live outside the library.

pub mod error;
pub mod bridge;
pub mod deframe;
pub mod frame;
pub mod startup;

pub use error::{SessionError, Tcp2UdpError};
