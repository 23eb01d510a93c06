use vstd::prelude::*;

verus! {

/// Error produced by a datagram transport: an I/O failure, or a bounded
/// wait that expired with nothing delivered.
#[derive(Clone, Copy, Debug, PartialEq, Eq, Structural)]
pub enum SocketError {
    Generic,
    Timeout,
}

/// A message-oriented transport that can hand one datagram to the peer per
/// call. Implementations live outside the library (plain UDP, a secured
/// session); the client is agnostic to which one it is given.
pub trait SendBytes {
    fn send(&mut self, buf: &[u8]) -> Result<(), SocketError>;
}

/// A message-oriented transport that delivers one inbound datagram per call.
/// An implementation is expected to bound each call by a timeout and report
/// an expired wait as `Timeout`, so that the client's acknowledgement waits
/// stay bounded and a silent peer is told apart from a broken socket.
pub trait RecieveBytes {
    fn recv(&mut self) -> Result<Vec<u8>, SocketError>;
}

} // verus!
