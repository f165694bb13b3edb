//! The peer book as bytes for the storage.

use vstd::prelude::*;

use crate::addr::SocketAddr;
use crate::encoding::{encode_rows, rows_bytes, PeerRow};
use crate::error::NetworkError;
use crate::node::Node;
use crate::peer_book::{has_status, PeerInfo, PeerStatus};

verus! {

/// The number that stands for a status in the storage.
pub open spec fn spec_status_code(status: PeerStatus) -> u8 {
    match status {
        PeerStatus::Connecting => 0,
        PeerStatus::Connected => 1,
        PeerStatus::Disconnected => 2,
    }
}

/// The row that stands for a peer in the storage.
pub open spec fn spec_row(p: PeerInfo) -> PeerRow {
    let status = spec_status_code(p.status);
    let time = match p.last_connected {
        Some(t) => Some((t.secs, t.nanos)),
        None => None,
    };
    match p.address {
        SocketAddr::V4 { ip, port } => (false, ip as u128, port, 0, 0, status, time),
        SocketAddr::V6 { ip, port, flowinfo, scope_id } => (
            true,
            ip,
            port,
            flowinfo,
            scope_id,
            status,
            time,
        ),
    }
}

/// The rows that stand for a peer book in the storage.
pub open spec fn book_rows(peers: Seq<PeerInfo>) -> Seq<PeerRow> {
    peers.map_values(|p: PeerInfo| spec_row(p))
}

/// Returns the number that stands for a status in the storage.
fn status_code(status: PeerStatus) -> (r: u8)
    ensures
        r == spec_status_code(status),
{
    match status {
        PeerStatus::Connecting => 0,
        PeerStatus::Connected => 1,
        PeerStatus::Disconnected => 2,
    }
}

/// Returns the row that stands for a peer in the storage.
fn row(p: PeerInfo) -> (r: PeerRow)
    ensures
        r == spec_row(p),
{
    let status: u8 = status_code(p.status);
    let time: Option<(i64, u32)> = match p.last_connected {
        Some(t) => Some((t.secs, t.nanos)),
        None => None,
    };
    match p.address {
        SocketAddr::V4 { ip, port } => (false, ip as u128, port, 0, 0, status, time),
        SocketAddr::V6 { ip, port, flowinfo, scope_id } => (
            true,
            ip,
            port,
            flowinfo,
            scope_id,
            status,
            time,
        ),
    }
}

impl Node {
    /// The node has its own address among its connected peers.
    pub open spec fn connected_to_itself(&self) -> bool {
        self.local_address matches Some(own) && has_status(
            self.peer_book@,
            own,
            PeerStatus::Connected,
        )
    }

    /// Saving the peer book of the node gives `r`.
    pub open spec fn saves(&self, r: Result<Option<Vec<u8>>, NetworkError>) -> bool {
        match r {
            Ok(Some(bytes)) => !self.connected_to_itself() && self.consensus is Some && bytes@
                == rows_bytes(book_rows(self.peer_book@)),
            Ok(None) => !self.connected_to_itself() && self.consensus is None,
            Err(e) => e == NetworkError::SelfConnectAttempt && self.connected_to_itself(),
        }
    }

    /// Checks that the node is not connected to itself, and turns the peer book into the bytes that
    /// are to be stored. Without a consensus layer there is no storage, and nothing to store.
    pub fn save_peer_book_to_storage(&self) -> (r: Result<Option<Vec<u8>>, NetworkError>)
        requires
            self.wf(),
        ensures
            self.saves(r),
    {
        if let Some(own_address) = self.local_address {
            if self.peer_book.is_connected(own_address) {
                return Err(NetworkError::SelfConnectAttempt);
            }
        }
        let mut rows: Vec<PeerRow> = Vec::new();
        let mut i: usize = 0;
        while i < self.peer_book.peers.len()
            invariant
                i <= self.peer_book.peers.len(),
                rows@ =~= book_rows(self.peer_book@.take(i as int)),
            decreases self.peer_book.peers.len() - i,
        {
            rows.push(row(self.peer_book.peers[i]));
            i += 1;
        }
        assert(self.peer_book@.take(i as int) =~= self.peer_book@);
        match encode_rows(&rows) {
            Ok(bytes) => {
                if self.consensus.is_some() {
                    Ok(Some(bytes))
                } else {
                    Ok(None)
                }
            },
            Err(_) => Err(NetworkError::Encoding),
        }
    }
}

} // verus!
