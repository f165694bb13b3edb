//! The errors of the network layer.

use vstd::prelude::*;

verus! {

/// Why a network operation failed.
#[derive(Clone, Copy, Debug, PartialEq, Eq, Structural)]
pub enum NetworkError {
    /// The permitted number of connections has been reached.
    TooManyConnections,
    /// The node was about to connect to itself, or is connected to itself.
    SelfConnectAttempt,
    /// A connection to the peer is being set up already.
    PeerAlreadyConnecting,
    /// The peer is connected already.
    PeerAlreadyConnected,
    /// The peer is not connected.
    PeerNotConnected,
    /// The other side broke the rules of the handshake, or the handshake broke off.
    InvalidHandshake,
    /// The handshake took too long.
    HandshakeTimeout,
    /// The Noise protocol reported an error.
    Noise,
    /// Bytes could not be read as the value that they should hold, or the reverse.
    Encoding,
    /// Reading from or writing to the connection failed.
    Io,
    /// The storage refused a write.
    Storage,
}

} // verus!
