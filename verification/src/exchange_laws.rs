//! What is told to other nodes, heard from them and stored, in terms of the records.

use vstd::prelude::*;

use crate::addr::SocketAddr;
use crate::book_laws::law_list_but_one;
use crate::effect::Effect;
use crate::encoding::{all_row_bytes, lemma_le_length, unsigned};
use crate::error::NetworkError;
use crate::exchange::{all_added, answer_effects};
use crate::laws::{law_inbound_peers, law_selection, law_stored_book_tells_peers};
use crate::message::Direction;
use crate::node::Node;
use crate::peer_book::{
    distinct, known, lemma_addrs_where_distinct, with_status_except, PeerInfo, PeerQuality,
    PeerStatus,
};
use crate::random::is_selection;
use crate::storage::{book_rows, spec_row};

verus! {

/// A request for peers is answered with one message to the one that asks. The candidates are the
/// connected peers, or the disconnected ones if the node is a bootnode, without the one that asks,
/// whatever else their records say. As many are sent as the settings permit, or all where there are
/// no more, each once. A bootnode then disconnects from the one that asks, and no other node does.
pub proof fn law_answer(node: Node, remote: SocketAddr, effects: Seq<Effect>)
    requires
        node.wf(),
        node.answers(remote, effects),
    ensures
        ({
            let peers = node.peer_book.peers@;
            let wanted = if node.config.is_bootnode {
                PeerStatus::Disconnected
            } else {
                PeerStatus::Connected
            };
            let candidates = peers.filter(
                |p: PeerInfo| p.status == wanted && p.address != remote,
            ).len();
            let limit = node.config.shared_peer_count;
            let message = effects[0]->Send_0;
            let sent = message.payload->Peers_0@;
            &&& effects.len() == if node.config.is_bootnode {
                2int
            } else {
                1int
            }
            &&& node.config.is_bootnode ==> effects[1] == Effect::Disconnect(remote)
            &&& effects[0] is Send
            &&& message.direction == Direction::Outbound(remote)
            &&& message.payload is Peers
            &&& sent.len() == if limit <= candidates {
                limit as int
            } else {
                candidates as int
            }
            &&& sent.no_duplicates()
            &&& forall|a: SocketAddr| #[trigger]
                sent.contains(a) ==> a != remote && exists|i: int|
                    0 <= i < peers.len() && (#[trigger] peers[i]).address == a && peers[i].status
                        == wanted
            &&& candidates <= limit ==> forall|i: int|
                0 <= i < peers.len() && (#[trigger] peers[i]).status == wanted && peers[i].address
                    != remote ==> sent.contains(peers[i].address)
        }),
{
    let peers = node.peer_book.peers@;
    let wanted = if node.config.is_bootnode {
        PeerStatus::Disconnected
    } else {
        PeerStatus::Connected
    };
    let limit = node.config.shared_peer_count as int;
    let chosen = choose|chosen: Vec<SocketAddr>|
        is_selection(chosen@, node.shareable(remote), limit) && effects
            == #[trigger] answer_effects(node.config.is_bootnode, remote, chosen);
    law_list_but_one(peers, wanted, remote);
    lemma_addrs_where_distinct(peers, with_status_except(wanted, remote));
    law_selection(chosen@, node.shareable(remote), limit);
    if node.shareable(remote).len() <= limit {
        assert forall|i: int|
            0 <= i < peers.len() && (#[trigger] peers[i]).status == wanted && peers[i].address
                != remote implies chosen@.contains(peers[i].address) by {
            assert(node.shareable(remote).contains(peers[i].address));
        }
    }
}

/// The peers that a node may tell of are those with the status that it tells of, without the one
/// that asks, in the order of the book.
pub proof fn law_candidates(node: Node, remote: SocketAddr)
    ensures
        !node.config.is_bootnode ==> node.shareable(remote) == node.peer_book.peers@.filter(
            |p: PeerInfo| p.status == PeerStatus::Connected && p.address != remote,
        ).map_values(|p: PeerInfo| p.address),
        node.config.is_bootnode ==> node.shareable(remote) == node.peer_book.peers@.filter(
            |p: PeerInfo| p.status == PeerStatus::Disconnected && p.address != remote,
        ).map_values(|p: PeerInfo| p.address),
{
    assert(with_status_except(PeerStatus::Connected, remote) =~= |p: PeerInfo|
        p.status == PeerStatus::Connected && p.address != remote);
    assert(with_status_except(PeerStatus::Disconnected, remote) =~= |p: PeerInfo|
        p.status == PeerStatus::Disconnected && p.address != remote);
}

/// Entering addresses in a book without double records makes none.
proof fn lemma_all_added_distinct(peers: Seq<PeerInfo>, addrs: Seq<SocketAddr>)
    requires
        distinct(peers),
    ensures
        distinct(all_added(peers, addrs)),
    decreases addrs.len(),
{
    if addrs.len() > 0 {
        lemma_all_added_distinct(peers, addrs.drop_last());
        let before = all_added(peers, addrs.drop_last());
        let after = all_added(peers, addrs);
        if !known(before, addrs.last()) {
            assert forall|i: int, j: int| 0 <= i < j < after.len() implies (
            #[trigger] after[i]).address != (#[trigger] after[j]).address by {
                assert(before[i].address != addrs.last());
                if j < before.len() {
                    assert(before[i].address != before[j].address);
                }
            }
        }
    }
}

/// Every address in an inbound list but the node's own stands in the book afterwards, however many
/// peers are connected or permitted. Records that are there stay as they are. Those that are added
/// are disconnected, were never connected, and are of listed addresses that were not in the book,
/// each once.
pub proof fn law_hears_of_peers(pre: Node, inbound: Seq<SocketAddr>, post: Node)
    requires
        pre.wf(),
        pre.local_address is Some,
        pre.takes_in(inbound, &post),
    ensures
        ({
            let before = pre.peer_book.peers@;
            let after = post.peer_book.peers@;
            let own = pre.local_address->0;
            &&& before.len() <= after.len()
            &&& forall|i: int| 0 <= i < before.len() ==> #[trigger] after[i] == before[i]
            &&& forall|k: int|
                0 <= k < inbound.len() && #[trigger] inbound[k] != own ==> exists|i: int|
                    0 <= i < after.len() && (#[trigger] after[i]).address == inbound[k]
            &&& forall|i: int|
                before.len() <= i < after.len() ==> {
                    let p = #[trigger] after[i];
                    p == (PeerInfo {
                        address: p.address,
                        status: PeerStatus::Disconnected,
                        last_connected: None,
                        quality: PeerQuality {
                            rtt_ms: 0,
                            failures: 0,
                            syncing_blocks: false,
                            last_ping_sent: None,
                        },
                    }) && p.address != own && inbound.contains(p.address)
                }
            &&& forall|i: int, j: int|
                0 <= i < j < after.len() ==> (#[trigger] after[i]).address != (
                #[trigger] after[j]).address
            &&& post.config == pre.config
            &&& post.local_address == pre.local_address
            &&& post.consensus == pre.consensus
        }),
{
    let before = pre.peer_book.peers@;
    let after = post.peer_book.peers@;
    let own = pre.local_address->0;
    law_inbound_peers(pre, inbound);
    lemma_all_added_distinct(before, pre.welcome(inbound));
    assert forall|i: int| 0 <= i < before.len() implies #[trigger] after[i] == before[i] by {
        assert(after.take(before.len() as int)[i] == after[i]);
    }
    assert forall|k: int| 0 <= k < inbound.len() && #[trigger] inbound[k] != own implies exists|
        i: int,
    |
        0 <= i < after.len() && (#[trigger] after[i]).address == inbound[k] by {
        assert(known(after, inbound[k]));
    }
}

/// Saving fails exactly where the node's own address, as a whole, is that of a connected record.
/// Otherwise there are bytes to store where there is a consensus layer, and nothing where there is
/// none.
pub proof fn law_save(node: Node, r: Result<Option<Vec<u8>>, NetworkError>)
    requires
        node.saves(r),
    ensures
        ({
            let peers = node.peer_book.peers@;
            let itself = node.local_address is Some && exists|i: int|
                0 <= i < peers.len() && (#[trigger] peers[i]).address == node.local_address->0
                    && peers[i].status == PeerStatus::Connected;
            &&& itself ==> r == Err::<Option<Vec<u8>>, NetworkError>(
                NetworkError::SelfConnectAttempt,
            )
            &&& !itself && node.consensus is None ==> r == Ok::<Option<Vec<u8>>, NetworkError>(None)
            &&& !itself && node.consensus is Some ==> r is Ok && r->Ok_0 is Some
        }),
{
}

/// What is stored rests on the addresses, the statuses and the times of connection, and tells them
/// all: the bytes of two nodes are the same exactly where these are, record by record.
pub proof fn law_saved_bytes(a: Node, x: Vec<u8>, b: Node, y: Vec<u8>)
    requires
        a.saves(Ok(Some(x))),
        b.saves(Ok(Some(y))),
    ensures
        x@ == y@ <==> a.peer_book.peers@.len() == b.peer_book.peers@.len() && forall|i: int|
            0 <= i < a.peer_book.peers@.len() ==> {
                let p = #[trigger] a.peer_book.peers@[i];
                let q = b.peer_book.peers@[i];
                p.address == q.address && p.status == q.status && p.last_connected
                    == q.last_connected
            },
{
    let s = a.peer_book.peers@;
    let t = b.peer_book.peers@;
    assert(s.len() == a.peer_book.peers.len() && t.len() == b.peer_book.peers.len());
    if x@ == y@ {
        law_stored_book_tells_peers(s, t);
    }
    if s.len() == t.len() && forall|i: int|
        0 <= i < s.len() ==> {
            let p = #[trigger] s[i];
            let q = t[i];
            p.address == q.address && p.status == q.status && p.last_connected == q.last_connected
        } {
        assert forall|i: int| 0 <= i < s.len() implies spec_row(#[trigger] s[i]) == spec_row(
            t[i],
        ) by {}
        assert(book_rows(s) =~= book_rows(t));
    }
}

/// The bytes of rows take up 29 each, and 12 more where there is a time of connection.
proof fn lemma_all_rows_length(peers: Seq<PeerInfo>)
    ensures
        all_row_bytes(book_rows(peers)).len() == 29 * peers.len() + 12 * peers.filter(
            |p: PeerInfo| p.last_connected is Some,
        ).len(),
    decreases peers.len(),
{
    let pred = |p: PeerInfo| p.last_connected is Some;
    let rows = book_rows(peers);
    if peers.len() > 0 {
        let rest = peers.drop_first();
        let row = spec_row(peers[0]);
        lemma_all_rows_length(rest);
        assert(book_rows(rest) =~= rows.drop_first());
        lemma_le_length(row.1 as nat, 16);
        lemma_le_length(row.2 as nat, 2);
        lemma_le_length(row.3 as nat, 4);
        lemma_le_length(row.4 as nat, 4);
        if let Some(time) = row.6 {
            lemma_le_length(unsigned(time.0), 8);
            lemma_le_length(time.1 as nat, 4);
        }
        assert(peers =~= seq![peers[0]] + rest);
        rest.lemma_filter_prepend(peers[0], pred);
    } else {
        reveal(Seq::filter);
    }
}

/// What is stored takes up 8 bytes, 29 more for each peer, and 12 more for each peer that has ever
/// been connected: no peer is left out.
pub proof fn law_saved_length(node: Node, bytes: Vec<u8>)
    requires
        node.saves(Ok(Some(bytes))),
    ensures
        bytes@.len() == 8 + 29 * node.peer_book.peers@.len() + 12 * node.peer_book.peers@.filter(
            |p: PeerInfo| p.last_connected is Some,
        ).len(),
{
    lemma_all_rows_length(node.peer_book.peers@);
    lemma_le_length(node.peer_book.peers@.len(), 8);
}

} // verus!
