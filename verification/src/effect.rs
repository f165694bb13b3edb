//! What a node decides and leaves to the code around it to carry out.

use vstd::prelude::*;

use crate::addr::SocketAddr;
use crate::message::Message;

verus! {

/// A step in the world outside. The steps of a list are carried out in its order.
#[derive(Clone, Debug, PartialEq, Eq)]
pub enum Effect {
    /// Tell the consensus layer that the download of blocks has ended.
    FinishedSyncingBlocks,
    /// Give up the outbound channel of the peer, if there is one, and stop listening to the peer.
    CloseChannel(SocketAddr),
    /// Keep the outbound channel that the handshake with the peer has opened, and start to listen
    /// to the peer.
    KeepChannel(SocketAddr),
    /// Try to connect to the peer, and tell the node how that ended.
    Connect(SocketAddr),
    /// Record in the peer book that a ping goes out to the peer.
    RecordPing(SocketAddr),
    /// Send the message.
    Send(Message),
    /// Disconnect from the peer.
    Disconnect(SocketAddr),
    /// Write the peer book to the storage.
    SavePeerBook,
}

} // verus!
