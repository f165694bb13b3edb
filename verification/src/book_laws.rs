//! What the operations on the peer book do to its records, field by field.

use vstd::prelude::*;

use crate::addr::SocketAddr;
use crate::peer_book::{
    added, addrs_where, connected, connected_addrs, connecting, connecting_addrs, disconnected,
    disconnected_addrs, has_status, known, lemma_addrs_where_contains, pinged, syncing,
    with_status, with_status_except, PeerBook, PeerInfo, PeerQuality, PeerStatus,
};
use crate::time::{whole_seconds, Timestamp};

verus! {

/// A book is well formed exactly where no address is listed twice, every time in it lies within the
/// calendar, and every connected peer has a time of connection.
pub proof fn law_well_formed_book(book: PeerBook)
    ensures
        book.wf() <==> {
            &&& forall|i: int, j: int|
                0 <= i < j < book.peers@.len() ==> (#[trigger] book.peers@[i]).address != (
                #[trigger] book.peers@[j]).address
            &&& forall|i: int|
                0 <= i < book.peers@.len() ==> {
                    let p = #[trigger] book.peers@[i];
                    match p.last_connected {
                        Some(t) => -8_334_601_228_800 <= t.secs <= 8_210_266_876_799 && t.nanos
                            < 1_000_000_000,
                        None => p.status != PeerStatus::Connected,
                    }
                }
        },
{
    let peers = book.peers@;
    if book.wf() {
        assert forall|i: int| 0 <= i < peers.len() implies {
            let p = #[trigger] peers[i];
            match p.last_connected {
                Some(t) => -8_334_601_228_800 <= t.secs <= 8_210_266_876_799 && t.nanos
                    < 1_000_000_000,
                None => p.status != PeerStatus::Connected,
            }
        } by {
            assert(book@[i].wf());
        }
    }
}

/// What is asked of the book rests on the address, the status and the download of the records alone:
/// an address is known where a record has it, stands with a status where a record has both, and is
/// downloaded from where a connected record with it says so.
pub proof fn law_questions(peers: Seq<PeerInfo>, a: SocketAddr, status: PeerStatus)
    ensures
        known(peers, a) <==> exists|i: int|
            0 <= i < peers.len() && (#[trigger] peers[i]).address == a,
        has_status(peers, a, status) <==> exists|i: int|
            0 <= i < peers.len() && (#[trigger] peers[i]).address == a && peers[i].status == status,
        syncing(peers, a) <==> exists|i: int|
            0 <= i < peers.len() && (#[trigger] peers[i]).address == a && peers[i].status
                == PeerStatus::Connected && peers[i].quality.syncing_blocks,
{
}

/// The lists of addresses are those of the records with the status, in the order of the book.
pub proof fn law_lists(peers: Seq<PeerInfo>)
    ensures
        connected_addrs(peers) == peers.filter(
            |p: PeerInfo| p.status == PeerStatus::Connected,
        ).map_values(|p: PeerInfo| p.address),
        connecting_addrs(peers) == peers.filter(
            |p: PeerInfo| p.status == PeerStatus::Connecting,
        ).map_values(|p: PeerInfo| p.address),
        disconnected_addrs(peers) == peers.filter(
            |p: PeerInfo| p.status == PeerStatus::Disconnected,
        ).map_values(|p: PeerInfo| p.address),
{
    assert(with_status(PeerStatus::Connected) =~= |p: PeerInfo| p.status == PeerStatus::Connected);
    assert(with_status(PeerStatus::Connecting) =~= |p: PeerInfo|
        p.status == PeerStatus::Connecting);
    assert(with_status(PeerStatus::Disconnected) =~= |p: PeerInfo|
        p.status == PeerStatus::Disconnected);
}

/// The list of the addresses with a status but one leaves out that one only.
pub proof fn law_list_but_one(peers: Seq<PeerInfo>, status: PeerStatus, address: SocketAddr)
    ensures
        addrs_where(peers, with_status_except(status, address)) == peers.filter(
            |p: PeerInfo| p.status == status && p.address != address,
        ).map_values(|p: PeerInfo| p.address),
        forall|a: SocketAddr| #[trigger]
            addrs_where(peers, with_status_except(status, address)).contains(a) <==> a != address
                && exists|i: int|
                0 <= i < peers.len() && (#[trigger] peers[i]).address == a && peers[i].status
                    == status,
{
    assert(with_status_except(status, address) =~= |p: PeerInfo|
        p.status == status && p.address != address);
    assert forall|a: SocketAddr| #[trigger]
        addrs_where(peers, with_status_except(status, address)).contains(a) <==> a != address
            && exists|i: int|
            0 <= i < peers.len() && (#[trigger] peers[i]).address == a && peers[i].status
                == status by {
        lemma_addrs_where_contains(peers, with_status_except(status, address), a);
    }
}

/// Marking a peer as being connected to changes the status of its record and nothing else. An
/// unknown peer enters the book behind the others.
pub proof fn law_connecting(peers: Seq<PeerInfo>, a: SocketAddr, after: Seq<PeerInfo>)
    requires
        after == connecting(peers, a),
    ensures
        (exists|i: int| 0 <= i < peers.len() && (#[trigger] peers[i]).address == a) ==> after.len()
            == peers.len(),
        forall|i: int|
            0 <= i < peers.len() ==> #[trigger] after[i] == if peers[i].address == a {
                PeerInfo {
                    address: a,
                    status: PeerStatus::Connecting,
                    last_connected: peers[i].last_connected,
                    quality: peers[i].quality,
                }
            } else {
                peers[i]
            },
        (forall|i: int| 0 <= i < peers.len() ==> (#[trigger] peers[i]).address != a) ==> after.len()
            == peers.len() + 1 && after.last() == (PeerInfo {
            address: a,
            status: PeerStatus::Connecting,
            last_connected: None,
            quality: PeerQuality {
                rtt_ms: 0,
                failures: 0,
                syncing_blocks: false,
                last_ping_sent: None,
            },
        }),
{
}

/// Marking a peer as connected sets the status and the time of its record and starts its quality
/// afresh. An unknown peer enters the book behind the others.
pub proof fn law_connected(
    peers: Seq<PeerInfo>,
    a: SocketAddr,
    now: Timestamp,
    after: Seq<PeerInfo>,
)
    requires
        after == connected(peers, a, now),
    ensures
        (exists|i: int| 0 <= i < peers.len() && (#[trigger] peers[i]).address == a) ==> after.len()
            == peers.len(),
        forall|i: int|
            0 <= i < peers.len() && peers[i].address != a ==> #[trigger] after[i] == peers[i],
        (forall|i: int| 0 <= i < peers.len() ==> (#[trigger] peers[i]).address != a) ==> after.len()
            == peers.len() + 1,
        forall|i: int|
            0 <= i < after.len() && (i < peers.len() ==> peers[i].address == a)
                ==> #[trigger] after[i] == (PeerInfo {
                address: a,
                status: PeerStatus::Connected,
                last_connected: Some(now),
                quality: PeerQuality {
                    rtt_ms: 0,
                    failures: 0,
                    syncing_blocks: false,
                    last_ping_sent: None,
                },
            }),
{
}

/// Marking a peer as disconnected changes the status of its record and nothing else. An unknown
/// peer enters the book behind the others.
pub proof fn law_disconnected(peers: Seq<PeerInfo>, a: SocketAddr, after: Seq<PeerInfo>)
    requires
        after == disconnected(peers, a),
    ensures
        (exists|i: int| 0 <= i < peers.len() && (#[trigger] peers[i]).address == a) ==> after.len()
            == peers.len(),
        forall|i: int|
            0 <= i < peers.len() ==> #[trigger] after[i] == if peers[i].address == a {
                PeerInfo {
                    address: a,
                    status: PeerStatus::Disconnected,
                    last_connected: peers[i].last_connected,
                    quality: peers[i].quality,
                }
            } else {
                peers[i]
            },
        (forall|i: int| 0 <= i < peers.len() ==> (#[trigger] peers[i]).address != a) ==> after.len()
            == peers.len() + 1 && after.last() == (PeerInfo {
            address: a,
            status: PeerStatus::Disconnected,
            last_connected: None,
            quality: PeerQuality {
                rtt_ms: 0,
                failures: 0,
                syncing_blocks: false,
                last_ping_sent: None,
            },
        }),
{
}

/// Entering a peer in the book changes nothing where it is known, and otherwise puts a disconnected
/// peer that was never connected behind the others.
pub proof fn law_added(peers: Seq<PeerInfo>, a: SocketAddr, after: Seq<PeerInfo>)
    requires
        after == added(peers, a),
    ensures
        (exists|i: int| 0 <= i < peers.len() && (#[trigger] peers[i]).address == a) ==> after
            == peers,
        (forall|i: int| 0 <= i < peers.len() ==> (#[trigger] peers[i]).address != a) ==> after
            == peers.push(
            PeerInfo {
                address: a,
                status: PeerStatus::Disconnected,
                last_connected: None,
                quality: PeerQuality {
                    rtt_ms: 0,
                    failures: 0,
                    syncing_blocks: false,
                    last_ping_sent: None,
                },
            },
        ),
{
}

/// Recording a ping sets the time of the last ping of the peer, where it is connected, and nothing
/// else.
pub proof fn law_pinged(
    peers: Seq<PeerInfo>,
    a: SocketAddr,
    now: Timestamp,
    after: Seq<PeerInfo>,
)
    requires
        after == pinged(peers, a, now),
    ensures
        after.len() == peers.len(),
        forall|i: int|
            0 <= i < peers.len() ==> #[trigger] after[i] == if peers[i].address == a
                && peers[i].status == PeerStatus::Connected {
                PeerInfo {
                    address: a,
                    status: PeerStatus::Connected,
                    last_connected: peers[i].last_connected,
                    quality: PeerQuality {
                        rtt_ms: peers[i].quality.rtt_ms,
                        failures: peers[i].quality.failures,
                        syncing_blocks: peers[i].quality.syncing_blocks,
                        last_ping_sent: Some(now),
                    },
                }
            } else {
                peers[i]
            },
{
}

/// Times are ordered by their seconds, and within a second by their nanoseconds: of two times one is
/// no later than the other, and where both are, they are the same.
pub proof fn law_time_order(s: Timestamp, t: Timestamp, u: Timestamp)
    ensures
        s.secs < t.secs ==> s.no_later_than(t) && !t.no_later_than(s),
        s.secs == t.secs && s.nanos < t.nanos ==> s.no_later_than(t) && !t.no_later_than(s),
        s.no_later_than(t) || t.no_later_than(s),
        s.no_later_than(t) && t.no_later_than(s) <==> s == t,
        s.no_later_than(t) && t.no_later_than(u) ==> s.no_later_than(u),
{
}

/// The times within the calendar are those between its first second and its last, outside leap
/// seconds.
pub proof fn law_calendar(t: Timestamp)
    ensures
        t.valid() <==> -8_334_601_228_800 <= t.secs <= 8_210_266_876_799 && t.nanos < 1_000_000_000,
{
}

/// More than `limit` whole seconds have passed exactly where a further second has passed since the
/// time `limit` seconds after the start.
pub proof fn law_whole_seconds(now: Timestamp, since: Timestamp, limit: int)
    requires
        limit >= 0,
        now.nanos < 1_000_000_000,
        since.nanos < 1_000_000_000,
    ensures
        whole_seconds(now, since) > limit <==> now.secs - since.secs > limit + 1 || (now.secs
            - since.secs == limit + 1 && now.nanos >= since.nanos),
{
}

} // verus!
