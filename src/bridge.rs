use vstd::prelude::*;

use crate::error::SessionError;

verus! {

/// One of the two pumps of a session.
#[derive(Debug, Clone, Copy, PartialEq, Eq, Structural)]
pub enum Direction {
    /// Reads frames from the stream and sends their payloads as datagrams.
    StreamToDatagram,
    /// Receives datagrams and writes them to the stream as frames.
    DatagramToStream,
}

/// The pump running alongside `d`.
pub open spec fn other_spec(d: Direction) -> Direction {
    match d {
        Direction::StreamToDatagram => Direction::DatagramToStream,
        Direction::DatagramToStream => Direction::StreamToDatagram,
    }
}

impl Direction {
    /// The pump running alongside this one.
    pub fn other(self) -> (r: Direction)
        ensures
            r == other_spec(self),
    {
        match self {
            Direction::StreamToDatagram => Direction::DatagramToStream,
            Direction::DatagramToStream => Direction::StreamToDatagram,
        }
    }
}

/// What the session must do after a pump stopped.
#[derive(Debug, Clone, Copy)]
pub enum BridgeAction {
    /// Cancel the named pump, which is still running, and report its stop.
    Cancel(Direction),
    /// Both pumps have stopped: release both sockets and end the session
    /// with this outcome.
    Finish(Result<(), SessionError>),
}

/// Abstract state of a bridge: which pumps run, and the outcome recorded
/// from the first pump that stopped.
pub struct BridgeState {
    pub stream_to_datagram: bool,
    pub datagram_to_stream: bool,
    pub outcome: Result<(), SessionError>,
}

impl BridgeState {
    pub open spec fn running(self, d: Direction) -> bool {
        match d {
            Direction::StreamToDatagram => self.stream_to_datagram,
            Direction::DatagramToStream => self.datagram_to_stream,
        }
    }

    /// Both pumps have stopped.
    pub open spec fn finished(self) -> bool {
        !self.stream_to_datagram && !self.datagram_to_stream
    }
}

/// Couples the termination of a session's two pumps: the first pump to stop
/// decides the session's outcome and gets its sibling cancelled; the session
/// ends once both have stopped.
pub struct Bridge {
    stream_to_datagram: bool,
    datagram_to_stream: bool,
    outcome: Result<(), SessionError>,
}

impl View for Bridge {
    type V = BridgeState;

    closed spec fn view(&self) -> BridgeState {
        BridgeState {
            stream_to_datagram: self.stream_to_datagram,
            datagram_to_stream: self.datagram_to_stream,
            outcome: self.outcome,
        }
    }
}

impl Bridge {
    /// A bridge whose two pumps are both running.
    pub fn new() -> (r: Bridge)
        ensures
            r@.stream_to_datagram,
            r@.datagram_to_stream,
            r@.outcome == Ok::<(), SessionError>(()),
    {
        Bridge { stream_to_datagram: true, datagram_to_stream: true, outcome: Ok(()) }
    }

    /// Whether the pump `d` is still running.
    pub fn is_running(&self, d: Direction) -> (r: bool)
        ensures
            r == self@.running(d),
    {
        match d {
            Direction::StreamToDatagram => self.stream_to_datagram,
            Direction::DatagramToStream => self.datagram_to_stream,
        }
    }

    /// Whether both pumps have stopped.
    pub fn is_finished(&self) -> (r: bool)
        ensures
            r == self@.finished(),
    {
        !self.stream_to_datagram && !self.datagram_to_stream
    }

    /// Records that pump `d` stopped with `result` (cleanly or on an error),
    /// either on its own or because it was cancelled. If its sibling still
    /// runs, the sibling is to be cancelled; once both have stopped the
    /// session finishes with the result of the pump that stopped first.
    pub fn on_pump_stopped(&mut self, d: Direction, result: Result<(), SessionError>) -> (r:
        BridgeAction)
        ensures
            !final(self)@.running(d),
            final(self)@.running(other_spec(d)) == old(self)@.running(other_spec(d)),
            old(self)@.running(d) && old(self)@.running(other_spec(d)) ==> final(self)@.outcome
                == result,
            !(old(self)@.running(d) && old(self)@.running(other_spec(d))) ==> final(self)@.outcome
                == old(self)@.outcome,
            old(self)@.running(other_spec(d)) ==> r == BridgeAction::Cancel(other_spec(d)),
            !old(self)@.running(other_spec(d)) ==> r == BridgeAction::Finish(
                final(self)@.outcome,
            ),
    {
        let other = d.other();
        let first = self.is_running(d) && self.is_running(other);
        if first {
            self.outcome = result;
        }
        match d {
            Direction::StreamToDatagram => self.stream_to_datagram = false,
            Direction::DatagramToStream => self.datagram_to_stream = false,
        }
        if self.is_running(other) {
            BridgeAction::Cancel(other)
        } else {
            BridgeAction::Finish(self.outcome)
        }
    }
}

} // verus!
