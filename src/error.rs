use vstd::prelude::*;

verus! {

/// Error returned by startup if the listener set cannot be established.
#[derive(Debug, Clone, Copy, PartialEq, Eq, Structural)]
pub enum Tcp2UdpError {
    /// No TCP listen addresses given in the options.
    NoTcpListenAddrs,
    /// The listen address at `index` (in configuration order) could not be bound.
    ListenerBind { index: usize },
}

impl Tcp2UdpError {
    /// Human-readable description of the error.
    pub fn description(&self) -> (r: &'static str)
        ensures
            *self == Tcp2UdpError::NoTcpListenAddrs ==> r@ == "Invalid options, no TCP listen addresses"@,
            self is ListenerBind ==> r@ == "Failed to bind a TCP listening socket"@,
    {
        match self {
            Tcp2UdpError::NoTcpListenAddrs => "Invalid options, no TCP listen addresses",
            Tcp2UdpError::ListenerBind { .. } => "Failed to bind a TCP listening socket",
        }
    }
}

/// Why a single session ended abnormally. Each kind is fatal to its session
/// only, never to the process or to other sessions.
#[derive(Debug, Clone, Copy, PartialEq, Eq, Structural)]
pub enum SessionError {
    /// The session's datagram socket could not be bound.
    Bind,
    /// The session's datagram socket could not be connected to the target.
    Connect,
    /// The stream ended in the middle of a frame.
    TruncatedFrame,
    /// A received datagram is longer than a frame header can describe.
    FrameTooLarge,
    /// A read, write, send or receive on either transport failed.
    Transport,
}

} // verus!
