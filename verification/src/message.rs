//! What nodes tell each other.

use vstd::prelude::*;

use crate::addr::SocketAddr;
use crate::encoding::{
    decode_pair, encode_pair, le_bytes, le_value, lemma_integers_fit, lemma_le_round_trip,
    pair_bytes,
};
use crate::error::NetworkError;

verus! {

/// Where a message goes.
#[derive(Clone, Copy, Debug, PartialEq, Eq)]
pub enum Direction {
    /// To the peer at the address.
    Outbound(SocketAddr),
}

/// What a message says.
#[derive(Clone, Debug, PartialEq, Eq)]
pub enum Payload {
    /// A request for addresses of peers.
    GetPeers,
    /// Addresses of peers.
    Peers(Vec<SocketAddr>),
    /// A sign of life, with the height of the sender's chain.
    Ping(u32),
}

/// A message and where it goes.
#[derive(Clone, Debug, PartialEq, Eq)]
pub struct Message {
    /// Where the message goes.
    pub direction: Direction,
    /// What the message says.
    pub payload: Payload,
}

impl Message {
    /// Creates a message.
    pub fn new(direction: Direction, payload: Payload) -> (r: Message)
        ensures
            r == (Message { direction, payload }),
    {
        Message { direction, payload }
    }
}

/// What a node tells of itself during the handshake.
#[derive(Clone, Copy, Debug, PartialEq, Eq)]
pub struct Version {
    /// The version of the protocol.
    pub version: u64,
    /// The port on which the node listens.
    pub listening_port: u16,
}

impl Version {
    /// The bytes that stand for the version on the wire.
    pub open spec fn wire(self) -> Seq<u8> {
        pair_bytes(self.version, self.listening_port)
    }

    /// Creates a version.
    pub fn new(version: u64, listening_port: u16) -> (r: Version)
        ensures
            r == (Version { version, listening_port }),
    {
        Version { version, listening_port }
    }

    /// Writes the version as bytes.
    pub fn serialize(&self) -> (r: Result<Vec<u8>, NetworkError>)
        ensures
            r matches Ok(bytes) && bytes@ == self.wire(),
    {
        match encode_pair(self.version, self.listening_port) {
            Ok(bytes) => Ok(bytes),
            Err(_) => Err(NetworkError::Encoding),
        }
    }

    /// Reads a version from bytes. Bytes behind it are ignored.
    pub fn deserialize(bytes: &[u8]) -> (r: Result<Version, NetworkError>)
        ensures
            match r {
                Ok(v) => bytes@.len() >= 10 && v.version == le_value(bytes@.subrange(0, 8))
                    && v.listening_port == le_value(bytes@.subrange(8, 10)),
                Err(e) => e == NetworkError::Encoding && bytes@.len() < 10,
            },
    {
        match decode_pair(bytes) {
            Ok(pair) => Ok(Version { version: pair.0, listening_port: pair.1 }),
            Err(_) => Err(NetworkError::Encoding),
        }
    }
}

/// Reading gives back what was written: the bytes of a version, with anything behind them, are
/// long enough to be read and hold the version's two numbers where reading looks for them.
pub proof fn lemma_version_round_trip(v: Version, behind: Seq<u8>)
    ensures
        v.wire().len() == 10,
        (v.wire() + behind).len() >= 10,
        le_value((v.wire() + behind).subrange(0, 8)) == v.version,
        le_value((v.wire() + behind).subrange(8, 10)) == v.listening_port,
{
    lemma_integers_fit(v.version, v.listening_port);
    lemma_le_round_trip(v.version as nat, 8);
    lemma_le_round_trip(v.listening_port as nat, 2);
    let bytes = v.wire() + behind;
    assert(bytes.subrange(0, 8) =~= le_bytes(v.version as nat, 8));
    assert(bytes.subrange(8, 10) =~= le_bytes(v.listening_port as nat, 2));
}

} // verus!
