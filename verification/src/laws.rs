//! What holds of the node across its operations.

use vstd::prelude::*;

use crate::addr::SocketAddr;
use crate::effect::Effect;
use crate::encoding::{lemma_rows_injective, rows_bytes};
use crate::error::NetworkError;
use crate::exchange::{all_added, other_than};
use crate::handshake::{result_of, HandshakeEnd};
use crate::message::{Direction, Message, Payload};
use crate::node::{attempt_effects, attempt_outcome, disconnect_effects, Node};
use crate::peer_book::{
    addrs_where, connected, connected_addrs, connecting, connecting_addrs, disconnected,
    disconnected_addrs, distinct, has_status, known, lemma_addrs_where_contains,
    lemma_addrs_where_distinct, lemma_addrs_where_step, lemma_modify_wf, lemma_only_place, modify,
    syncing, with_status, with_status_except, PeerInfo, PeerStatus,
};
use crate::random::is_selection;
use crate::recency::most_recent_first;
use crate::storage::{book_rows, spec_row};
use crate::time::Timestamp;
use crate::update::{
    closing_effects, dial_order, disconnect_listed, disconnect_where, lemma_dial_order,
    lemma_disconnect_one_more, low_quality, maintain_effects, maintain_stage, maintained,
    missing_bootnodes, not_listed, overstaying, ping_effects, seek_effects, seeks_peers,
    start_stage, surplus,
};

verus! {

/// The number of connections made and being made.
pub open spec fn connections(peers: Seq<PeerInfo>) -> nat {
    connected_addrs(peers).len() + connecting_addrs(peers).len()
}

/// Replacing a record changes the size of a selection by what the two records contribute.
proof fn lemma_count_update(
    peers: Seq<PeerInfo>,
    i: int,
    q: PeerInfo,
    pred: spec_fn(PeerInfo) -> bool,
)
    requires
        0 <= i < peers.len(),
    ensures
        addrs_where(peers.update(i, q), pred).len() == addrs_where(peers, pred).len() - (if pred(
            peers[i],
        ) {
            1int
        } else {
            0int
        }) + (if pred(q) {
            1int
        } else {
            0int
        }),
    decreases peers.len(),
{
    let n = peers.len() - 1;
    let after = peers.update(i, q);
    assert(peers.take(n + 1) =~= peers);
    assert(after.take(n + 1) =~= after);
    lemma_addrs_where_step(peers, n, pred);
    lemma_addrs_where_step(after, n, pred);
    if i == n {
        assert(after.take(n) =~= peers.take(n));
    } else {
        assert(after.take(n) =~= peers.take(n).update(i, q));
        lemma_count_update(peers.take(n), i, q, pred);
    }
}

/// A new record adds to the size of a selection what it contributes.
proof fn lemma_count_push(peers: Seq<PeerInfo>, q: PeerInfo, pred: spec_fn(PeerInfo) -> bool)
    ensures
        addrs_where(peers.push(q), pred).len() == addrs_where(peers, pred).len() + (if pred(q) {
            1int
        } else {
            0int
        }),
{
    let n = peers.len() as int;
    let after = peers.push(q);
    assert(after.take(n) =~= peers);
    assert(after.take(n + 1) =~= after);
    lemma_addrs_where_step(after, n, pred);
}

/// Changing records so that none enters a selection does not make the selection larger.
proof fn lemma_count_map(
    peers: Seq<PeerInfo>,
    g: spec_fn(PeerInfo) -> PeerInfo,
    pred: spec_fn(PeerInfo) -> bool,
)
    requires
        forall|p: PeerInfo| pred(#[trigger] g(p)) ==> pred(p),
    ensures
        addrs_where(peers.map_values(g), pred).len() <= addrs_where(peers, pred).len(),
    decreases peers.len(),
{
    reveal(Seq::filter);
    let after = peers.map_values(g);
    if peers.len() > 0 {
        let n = peers.len() - 1;
        assert(peers.take(n + 1) =~= peers);
        assert(after.take(n + 1) =~= after);
        assert(after.take(n) =~= peers.take(n).map_values(g));
        lemma_addrs_where_step(peers, n, pred);
        lemma_addrs_where_step(after, n, pred);
        lemma_count_map(peers.take(n), g, pred);
    } else {
        assert(after =~= peers);
    }
}

/// Changing the record of a known address is replacing one record.
proof fn lemma_modify_is_update(
    peers: Seq<PeerInfo>,
    i: int,
    f: spec_fn(PeerInfo) -> PeerInfo,
)
    requires
        distinct(peers),
        0 <= i < peers.len(),
    ensures
        modify(peers, peers[i].address, f) == peers.update(i, f(peers[i])),
{
    lemma_only_place(peers, i);
    assert(known(peers, peers[i].address));
    assert(modify(peers, peers[i].address, f) =~= peers.update(i, f(peers[i])));
}

/// The sizes of a selection before and after the record of `address` has been changed.
proof fn lemma_count_modify(
    peers: Seq<PeerInfo>,
    address: SocketAddr,
    f: spec_fn(PeerInfo) -> PeerInfo,
    pred: spec_fn(PeerInfo) -> bool,
) -> (before: PeerInfo)
    requires
        distinct(peers),
    ensures
        before.address == address,
        known(peers, address) ==> peers.contains(before),
        !known(peers, address) ==> before == PeerInfo::newcomer(address) && addrs_where(
            modify(peers, address, f),
            pred,
        ).len() == addrs_where(peers, pred).len() + (if pred(f(before)) {
            1int
        } else {
            0int
        }),
        known(peers, address) ==> addrs_where(modify(peers, address, f), pred).len()
            == addrs_where(peers, pred).len() - (if pred(before) {
            1int
        } else {
            0int
        }) + (if pred(f(before)) {
            1int
        } else {
            0int
        }),
{
    if known(peers, address) {
        let i = choose|i: int| 0 <= i < peers.len() && (#[trigger] peers[i]).address == address;
        lemma_modify_is_update(peers, i, f);
        lemma_count_update(peers, i, f(peers[i]), pred);
        peers[i]
    } else {
        lemma_count_push(peers, f(PeerInfo::newcomer(address)), pred);
        PeerInfo::newcomer(address)
    }
}

/// A connection attempt that is not refused counts as one more connection being made, and the
/// permitted number of connections is kept to.
pub proof fn law_attempt_keeps_to_maximum(node: Node, remote: SocketAddr)
    requires
        node.wf(),
        node.refusal(remote) is None,
    ensures
        connected_addrs(connecting(node.peer_book@, remote)).len() == node.connected_count(),
        connecting_addrs(connecting(node.peer_book@, remote)).len() == node.connecting_count() + 1,
        connections(connecting(node.peer_book@, remote))
            <= node.config.maximum_number_of_connected_peers,
{
    let peers = node.peer_book@;
    let f = |p: PeerInfo| p.to_connecting();
    let p1 = lemma_count_modify(peers, remote, f, with_status(PeerStatus::Connected));
    let p2 = lemma_count_modify(peers, remote, f, with_status(PeerStatus::Connecting));
    if known(peers, remote) {
        let i = choose|i: int| 0 <= i < peers.len() && peers[i] == p1;
        let j = choose|j: int| 0 <= j < peers.len() && peers[j] == p2;
        assert(peers[i].address == remote && peers[j].address == remote);
    }
}

/// A handshake that succeeds turns a connection being made into one that is made: their number
/// stays the same.
pub proof fn law_handshake_keeps_number(peers: Seq<PeerInfo>, remote: SocketAddr, now: Timestamp)
    requires
        distinct(peers),
        has_status(peers, remote, PeerStatus::Connecting),
    ensures
        connected_addrs(connected(peers, remote, now)).len() == connected_addrs(peers).len() + 1,
        connections(connected(peers, remote, now)) == connections(peers),
        has_status(connected(peers, remote, now), remote, PeerStatus::Connected),
{
    let f = |p: PeerInfo| p.to_connected(now);
    let i = choose|i: int|
        0 <= i < peers.len() && (#[trigger] peers[i]).address == remote && peers[i].status
            == PeerStatus::Connecting;
    lemma_modify_is_update(peers, i, f);
    lemma_count_update(peers, i, f(peers[i]), with_status(PeerStatus::Connected));
    lemma_count_update(peers, i, f(peers[i]), with_status(PeerStatus::Connecting));
    assert(connected(peers, remote, now)[i].address == remote);
}

/// Disconnecting never adds a connection, and leaves the peer among the disconnected ones only.
/// Other peers are not touched.
pub proof fn law_disconnect(peers: Seq<PeerInfo>, remote: SocketAddr)
    requires
        distinct(peers),
    ensures
        connections(disconnected(peers, remote)) <= connections(peers),
        has_status(disconnected(peers, remote), remote, PeerStatus::Disconnected),
        !has_status(disconnected(peers, remote), remote, PeerStatus::Connected),
        !has_status(disconnected(peers, remote), remote, PeerStatus::Connecting),
        forall|i: int|
            0 <= i < peers.len() && (#[trigger] peers[i]).address != remote ==> disconnected(
                peers,
                remote,
            )[i] == peers[i],
{
    let f = |p: PeerInfo| p.to_disconnected();
    let after = disconnected(peers, remote);
    let p1 = lemma_count_modify(peers, remote, f, with_status(PeerStatus::Connected));
    let p2 = lemma_count_modify(peers, remote, f, with_status(PeerStatus::Connecting));
    if known(peers, remote) {
        let i = choose|i: int| 0 <= i < peers.len() && (#[trigger] peers[i]).address == remote;
        assert(after[i].address == remote);
    } else {
        assert(after[peers.len() as int].address == remote);
    }
}

/// Disconnecting a second time changes nothing more, and does not end a download of blocks again.
pub proof fn law_disconnect_twice(
    peers: Seq<PeerInfo>,
    has_consensus: bool,
    remote: SocketAddr,
)
    requires
        distinct(peers),
    ensures
        disconnected(disconnected(peers, remote), remote) == disconnected(peers, remote),
        disconnect_effects(disconnected(peers, remote), has_consensus, remote) == seq![
            Effect::CloseChannel(remote),
        ],
{
    let after = disconnected(peers, remote);
    law_disconnect(peers, remote);
    assert(known(after, remote));
    assert(disconnected(after, remote) =~= after);
    if syncing(after, remote) {
        assert(has_status(after, remote, PeerStatus::Connected));
    }
}

/// A failed attempt leaves no trace among the connections: after an accepted attempt and a
/// disconnection there are no more than before.
pub proof fn law_failed_attempt(node: Node, remote: SocketAddr)
    requires
        node.wf(),
        node.refusal(remote) is None,
    ensures
        connections(disconnected(connecting(node.peer_book@, remote), remote)) == connections(
            node.peer_book@,
        ),
{
    let peers = node.peer_book@;
    law_attempt_keeps_to_maximum(node, remote);
    lemma_modify_wf(peers, remote, |p: PeerInfo| p.to_connecting());
    let mid = connecting(peers, remote);
    let f = |p: PeerInfo| p.to_disconnected();
    if known(peers, remote) {
        let i = choose|i: int| 0 <= i < peers.len() && (#[trigger] peers[i]).address == remote;
        lemma_modify_is_update(peers, i, |p: PeerInfo| p.to_connecting());
        assert(mid[i].address == remote && mid[i].status == PeerStatus::Connecting);
        lemma_modify_is_update(mid, i, f);
        lemma_count_update(mid, i, f(mid[i]), with_status(PeerStatus::Connected));
        lemma_count_update(mid, i, f(mid[i]), with_status(PeerStatus::Connecting));
    } else {
        let i = peers.len() as int;
        assert(mid[i].address == remote && mid[i].status == PeerStatus::Connecting);
        lemma_modify_is_update(mid, i, f);
        lemma_count_update(mid, i, f(mid[i]), with_status(PeerStatus::Connected));
        lemma_count_update(mid, i, f(mid[i]), with_status(PeerStatus::Connecting));
    }
}

/// The end of an attempt, whatever it is, touches no peer but the one that was tried: a failure does
/// not disconnect from another peer, nor does it keep another attempt from going on.
pub proof fn law_attempt_touches_one_peer(
    peers: Seq<PeerInfo>,
    remote: SocketAddr,
    result: Result<(), NetworkError>,
    after: Seq<PeerInfo>,
    other: SocketAddr,
    status: PeerStatus,
)
    requires
        attempt_outcome(peers, remote, result, after),
        other != remote,
    ensures
        has_status(after, other, status) <==> has_status(peers, other, status),
        forall|i: int|
            0 <= i < peers.len() && (#[trigger] peers[i]).address != remote ==> after[i]
                == peers[i],
{
    assert(peers.len() <= after.len());
    assert forall|i: int| 0 <= i < peers.len() implies (#[trigger] peers[i]).address
        == after[i].address by {}
    if has_status(peers, other, status) {
        let i = choose|i: int|
            0 <= i < peers.len() && (#[trigger] peers[i]).address == other && peers[i].status
                == status;
        assert(after[i] == peers[i]);
    }
    if has_status(after, other, status) {
        let i = choose|i: int|
            0 <= i < after.len() && (#[trigger] after[i]).address == other && after[i].status
                == status;
        assert(i < peers.len());
        assert(after[i] == peers[i]);
    }
}

/// An attempt that was not refused and succeeds leaves the peer connected, its channel kept, and the
/// permitted number of connections kept to.
pub proof fn law_successful_attempt(
    node: Node,
    remote: SocketAddr,
    end: HandshakeEnd,
    after: Seq<PeerInfo>,
)
    requires
        node.wf(),
        node.refusal(remote) is None,
        result_of(end) is Ok,
        attempt_outcome(connecting(node.peer_book@, remote), remote, result_of(end), after),
    ensures
        has_status(after, remote, PeerStatus::Connected),
        attempt_effects(
            connecting(node.peer_book@, remote),
            node.consensus is Some,
            remote,
            result_of(end),
        ) == seq![Effect::KeepChannel(remote)],
        connected_addrs(after).len() == node.connected_count() + 1,
        connections(after) <= node.config.maximum_number_of_connected_peers,
{
    let peers = node.peer_book@;
    let mid = connecting(peers, remote);
    law_attempt_keeps_to_maximum(node, remote);
    lemma_modify_wf(peers, remote, |p: PeerInfo| p.to_connecting());
    if known(peers, remote) {
        let i = choose|i: int| 0 <= i < peers.len() && (#[trigger] peers[i]).address == remote;
        assert(mid[i].address == remote && mid[i].status == PeerStatus::Connecting);
    } else {
        let i = peers.len() as int;
        assert(mid[i].address == remote && mid[i].status == PeerStatus::Connecting);
    }
    let now = choose|now: Timestamp|
        now.valid() && after == #[trigger] connected(mid, remote, now);
    law_handshake_keeps_number(mid, remote, now);
}

/// An attempt that fails, for whatever reason, is followed by a disconnection from the peer: it is
/// left among the disconnected ones only, and its channel is given up.
pub proof fn law_failed_attempt_disconnects(
    peers: Seq<PeerInfo>,
    has_consensus: bool,
    remote: SocketAddr,
    end: HandshakeEnd,
    after: Seq<PeerInfo>,
)
    requires
        distinct(peers),
        result_of(end) is Err,
        attempt_outcome(peers, remote, result_of(end), after),
    ensures
        after == disconnected(peers, remote),
        has_status(after, remote, PeerStatus::Disconnected),
        !has_status(after, remote, PeerStatus::Connected),
        !has_status(after, remote, PeerStatus::Connecting),
        attempt_effects(peers, has_consensus, remote, result_of(end)).last()
            == Effect::CloseChannel(remote),
{
    law_disconnect(peers, remote);
}

/// A node never connects to itself: an address that leads back to it is always refused.
pub proof fn law_never_connects_to_itself(node: Node, remote: SocketAddr)
    requires
        node.local_address is Some,
        Node::leads_back(node.local_address->0, remote),
    ensures
        node.refusal(remote) == Some(NetworkError::TooManyConnections) || node.refusal(remote)
            == Some(NetworkError::SelfConnectAttempt),
        node.has_room() ==> node.refusal(remote) == Some(NetworkError::SelfConnectAttempt),
{
}

/// Disconnecting from connected peers, each listed once, makes their number smaller by as many.
proof fn lemma_count_disconnect_listed(peers: Seq<PeerInfo>, addrs: Seq<SocketAddr>)
    requires
        distinct(peers),
        addrs.no_duplicates(),
        forall|k: int|
            0 <= k < addrs.len() ==> has_status(peers, #[trigger] addrs[k], PeerStatus::Connected),
    ensures
        distinct(disconnect_listed(peers, addrs)),
        connected_addrs(disconnect_listed(peers, addrs)).len() == connected_addrs(peers).len()
            - addrs.len(),
    decreases addrs.len(),
{
    let after = disconnect_listed(peers, addrs);
    assert forall|i: int, j: int| 0 <= i < j < after.len() implies (#[trigger] after[i]).address
        != (#[trigger] after[j]).address by {
        assert(peers[i].address != peers[j].address);
    }
    if addrs.len() == 0 {
        assert(after =~= peers);
    } else {
        let rest = addrs.drop_last();
        let a = addrs.last();
        assert forall|k: int| 0 <= k < rest.len() implies has_status(
            peers,
            #[trigger] rest[k],
            PeerStatus::Connected,
        ) by {
            assert(rest[k] == addrs[k]);
        }
        assert(rest.no_duplicates());
        lemma_count_disconnect_listed(peers, rest);
        assert(!rest.contains(a));
        assert(has_status(peers, addrs[addrs.len() - 1], PeerStatus::Connected));
        let i = choose|i: int|
            0 <= i < peers.len() && (#[trigger] peers[i]).address == a && peers[i].status
                == PeerStatus::Connected;
        lemma_disconnect_one_more(peers, true, rest, a);
        assert(rest.push(a) =~= addrs);
        let before = disconnect_listed(peers, rest);
        let f = |p: PeerInfo| p.to_disconnected();
        assert(before[i] == peers[i]);
        lemma_modify_is_update(before, i, f);
        lemma_count_update(before, i, f(before[i]), with_status(PeerStatus::Connected));
    }
}

/// Marking selected peers as disconnected keeps the records apart and connects nobody.
proof fn lemma_disconnect_where(peers: Seq<PeerInfo>, pred: spec_fn(PeerInfo) -> bool)
    ensures
        distinct(peers) ==> distinct(disconnect_where(peers, pred)),
        connected_addrs(disconnect_where(peers, pred)).len() <= connected_addrs(peers).len(),
{
    let after = disconnect_where(peers, pred);
    lemma_count_map(
        peers,
        |p: PeerInfo|
            if pred(p) {
                p.to_disconnected()
            } else {
                p
            },
        with_status(PeerStatus::Connected),
    );
    if distinct(peers) {
        assert forall|i: int, j: int| 0 <= i < j < after.len() implies (
        #[trigger] after[i]).address != (#[trigger] after[j]).address by {
            assert(peers[i].address != peers[j].address);
        }
    }
}

/// Which peers the second stage of an update has dropped as surplus.
pub proof fn lemma_dropped(
    pre: Node,
    count: int,
    now: Timestamp,
    post: Node,
    effects: Seq<Effect>,
) -> (dropped: Seq<SocketAddr>)
    requires
        maintain_stage(pre, count, now, post, effects),
    ensures
        most_recent_first(
            pre.peer_book@,
            surplus(pre.config, count, pre.connected_count() as int),
            dropped,
        ),
        post.peer_book@ == maintained(pre.config, pre.peer_book@, dropped, now),
        effects == maintain_effects(pre, count, dropped, now),
{
    choose|dropped: Seq<SocketAddr>|
        most_recent_first(
            pre.peer_book@,
            surplus(pre.config, count, pre.connected_count() as int),
            dropped,
        ) && post.peer_book@ == maintained(pre.config, pre.peer_book@, dropped, now) && effects
            == #[trigger] maintain_effects(pre, count, dropped, now)
}

/// An update keeps to the permitted number of connected peers: once both stages have been taken,
/// with no other change to the peer book between them, there are no more than that.
pub proof fn law_update_keeps_to_maximum(
    pre: Node,
    mid: Node,
    post: Node,
    now: Timestamp,
    first: Seq<Effect>,
    second: Seq<Effect>,
)
    requires
        pre.wf(),
        start_stage(pre, mid, first),
        maintain_stage(mid, pre.connected_count() as int, now, post, second),
    ensures
        post.connected_count() <= pre.config.maximum_number_of_connected_peers,
        post.connected_count() <= pre.connected_count(),
{
    lemma_disconnect_where(pre.peer_book@, low_quality());
    let peers = mid.peer_book@;
    let count = pre.connected_count() as int;
    let dropped = lemma_dropped(mid, count, now, post, second);
    lemma_count_disconnect_listed(peers, dropped);
    lemma_disconnect_where(disconnect_listed(peers, dropped), overstaying(now));
}

/// The second stage of an update drops exactly the surplus, as far as the peers are there, on a
/// node that is no bootnode.
pub proof fn law_surplus_goes(
    pre: Node,
    count: int,
    now: Timestamp,
    post: Node,
    effects: Seq<Effect>,
)
    requires
        pre.wf(),
        !pre.config.is_bootnode,
        maintain_stage(pre, count, now, post, effects),
    ensures
        post.connected_count() == pre.connected_count() - surplus(
            pre.config,
            count,
            pre.connected_count() as int,
        ),
{
    let dropped = lemma_dropped(pre, count, now, post, effects);
    lemma_count_disconnect_listed(pre.peer_book@, dropped);
}

/// After the first stage of an update no connected peer has a round-trip time that is too high or
/// too many failures, and every peer of better quality stands as before.
pub proof fn law_no_low_quality_peer_stays(pre: Node, post: Node, effects: Seq<Effect>)
    requires
        start_stage(pre, post, effects),
    ensures
        post.peer_book@.len() == pre.peer_book@.len(),
        forall|i: int|
            0 <= i < post.peer_book@.len() ==> !low_quality()(#[trigger] post.peer_book@[i]),
        forall|i: int|
            0 <= i < pre.peer_book@.len() && !low_quality()(#[trigger] pre.peer_book@[i])
                ==> post.peer_book@[i] == pre.peer_book@[i],
{
}

/// After the second stage of an update on a bootnode no connected peer has been connected for
/// longer than a bootnode keeps it.
pub proof fn law_no_peer_overstays_with_bootnode(
    pre: Node,
    count: int,
    now: Timestamp,
    post: Node,
    effects: Seq<Effect>,
)
    requires
        pre.config.is_bootnode,
        maintain_stage(pre, count, now, post, effects),
    ensures
        forall|i: int|
            0 <= i < post.peer_book@.len() ==> !overstaying(now)(#[trigger] post.peer_book@[i]),
{
}

/// A step that only takes leave of a peer.
pub open spec fn only_closes(effect: Effect) -> bool {
    effect is FinishedSyncingBlocks || effect is CloseChannel
}

/// Disconnecting from peers takes only such steps.
proof fn lemma_closing_only_closes(
    peers: Seq<PeerInfo>,
    has_consensus: bool,
    addrs: Seq<SocketAddr>,
)
    ensures
        forall|k: int|
            0 <= k < closing_effects(peers, has_consensus, addrs).len() ==> only_closes(
                #[trigger] closing_effects(peers, has_consensus, addrs)[k],
            ),
    decreases addrs.len(),
{
    if addrs.len() > 0 {
        let before = closing_effects(peers, has_consensus, addrs.drop_last());
        let last = disconnect_effects(peers, has_consensus, addrs.last());
        lemma_closing_only_closes(peers, has_consensus, addrs.drop_last());
        assert forall|k: int|
            0 <= k < closing_effects(peers, has_consensus, addrs).len() implies only_closes(
            #[trigger] closing_effects(peers, has_consensus, addrs)[k],
        ) by {
            if k < before.len() {
                assert(only_closes(before[k]));
            } else {
                assert(only_closes(last[k - before.len()]));
            }
        }
    }
}

/// A node that has enough connected peers, or is a bootnode, does not look for more: the first
/// stage of its update only takes leave of peers.
pub proof fn law_only_seekers_dial(pre: Node, post: Node, effects: Seq<Effect>)
    requires
        start_stage(pre, post, effects),
        !seeks_peers(pre.config, pre.connected_count() as int),
    ensures
        forall|k: int| 0 <= k < effects.len() ==> only_closes(#[trigger] effects[k]),
{
    lemma_closing_only_closes(
        pre.peer_book@,
        pre.consensus is Some,
        addrs_where(pre.peer_book@, low_quality()),
    );
}

/// A bootnode sends nothing of its own accord: the second stage of its update only takes leave of
/// peers and saves the peer book.
pub proof fn law_bootnode_sends_nothing(
    pre: Node,
    count: int,
    now: Timestamp,
    post: Node,
    effects: Seq<Effect>,
)
    requires
        pre.config.is_bootnode,
        maintain_stage(pre, count, now, post, effects),
    ensures
        forall|k: int|
            0 <= k < effects.len() ==> only_closes(#[trigger] effects[k]) || effects[k]
                == Effect::SavePeerBook,
{
    let dropped = lemma_dropped(pre, count, now, post, effects);
    let trimmed = disconnect_listed(pre.peer_book@, dropped);
    lemma_closing_only_closes(pre.peer_book@, pre.consensus is Some, dropped);
    lemma_closing_only_closes(
        trimmed,
        pre.consensus is Some,
        addrs_where(trimmed, overstaying(now)),
    );
}

/// The peer book is saved at the end of an update exactly where a peer was connected when it
/// started.
pub proof fn law_update_saves(
    pre: Node,
    count: int,
    now: Timestamp,
    post: Node,
    effects: Seq<Effect>,
)
    requires
        maintain_stage(pre, count, now, post, effects),
    ensures
        count != 0 ==> effects.len() > 0 && effects.last() == Effect::SavePeerBook,
        count == 0 ==> !effects.contains(Effect::SavePeerBook),
{
    let dropped = lemma_dropped(pre, count, now, post, effects);
    let trimmed = disconnect_listed(pre.peer_book@, dropped);
    lemma_closing_only_closes(pre.peer_book@, pre.consensus is Some, dropped);
    lemma_closing_only_closes(
        trimmed,
        pre.consensus is Some,
        addrs_where(trimmed, overstaying(now)),
    );
    if count == 0 && effects.contains(Effect::SavePeerBook) {
        let k = choose|k: int| 0 <= k < effects.len() && effects[k] == Effect::SavePeerBook;
        assert(only_closes(effects[k]));
    }
}

/// The connected peers are listed each once, and no others are.
pub proof fn law_connected_addrs(peers: Seq<PeerInfo>)
    requires
        distinct(peers),
    ensures
        connected_addrs(peers).no_duplicates(),
        forall|a: SocketAddr| #[trigger]
            connected_addrs(peers).contains(a) <==> has_status(peers, a, PeerStatus::Connected),
{
    lemma_addrs_where_distinct(peers, with_status(PeerStatus::Connected));
    assert forall|a: SocketAddr| #[trigger]
        connected_addrs(peers).contains(a) <==> has_status(peers, a, PeerStatus::Connected) by {
        lemma_addrs_where_contains(peers, with_status(PeerStatus::Connected), a);
    }
}

/// Each listed peer is sent one ping with the given height, recorded just before, in the order of
/// the list, and nothing else is done.
pub proof fn law_one_ping_each(addrs: Seq<SocketAddr>, height: u32)
    ensures
        ping_effects(addrs, height).len() == 2 * addrs.len(),
        forall|k: int|
            #![trigger addrs[k]]
            0 <= k < addrs.len() ==> ping_effects(addrs, height)[2 * k] == Effect::RecordPing(
                addrs[k],
            ) && ping_effects(addrs, height)[2 * k + 1] == Effect::Send(
                Message { direction: Direction::Outbound(addrs[k]), payload: Payload::Ping(height) },
            ),
    decreases addrs.len(),
{
    if addrs.len() > 0 {
        law_one_ping_each(addrs.drop_last(), height);
        assert forall|k: int| #![trigger addrs[k]] 0 <= k < addrs.len() implies ping_effects(
            addrs,
            height,
        )[2 * k] == Effect::RecordPing(addrs[k]) && ping_effects(addrs, height)[2 * k + 1]
            == Effect::Send(
            Message { direction: Direction::Outbound(addrs[k]), payload: Payload::Ping(height) },
        ) by {
            if k < addrs.len() - 1 {
                assert(addrs.drop_last()[k] == addrs[k]);
            }
        }
    }
}

/// A node that looks for peers tries a bootnode exactly where it is not connected.
pub proof fn law_tries_missing_bootnodes(node: Node, a: SocketAddr)
    requires
        node.wf(),
    ensures
        missing_bootnodes(node.config, node.peer_book@).contains(a)
            <==> node.config.bootnodes@.contains(a) && !has_status(
            node.peer_book@,
            a,
            PeerStatus::Connected,
        ),
{
    let peers = node.peer_book@;
    let pred = not_listed(connected_addrs(peers));
    let all = node.config.bootnodes@;
    law_connected_addrs(peers);
    if missing_bootnodes(node.config, peers).contains(a) {
        let k = choose|k: int|
            0 <= k < all.filter(pred).len() && all.filter(pred)[k] == a;
        all.lemma_filter_pred(pred, k);
        all.lemma_filter_contains_rev(pred, a);
    }
    if all.contains(a) && pred(a) {
        let i = choose|i: int| 0 <= i < all.len() && all[i] == a;
        all.lemma_filter_contains(pred, i);
    }
}

/// A node that looks for peers tries every peer that is then disconnected, and every bootnode that
/// is not connected.
pub proof fn law_seeker_tries_all(pre: Node, post: Node, effects: Seq<Effect>, a: SocketAddr)
    requires
        pre.wf(),
        start_stage(pre, post, effects),
        seeks_peers(pre.config, pre.connected_count() as int),
    ensures
        has_status(post.peer_book@, a, PeerStatus::Disconnected) ==> effects.contains(
            Effect::Connect(a),
        ),
        pre.config.bootnodes@.contains(a) && !has_status(
            post.peer_book@,
            a,
            PeerStatus::Connected,
        ) ==> effects.contains(Effect::Connect(a)),
{
    let peers = post.peer_book@;
    let count = pre.connected_count() as int;
    let closing = closing_effects(
        pre.peer_book@,
        pre.consensus is Some,
        addrs_where(pre.peer_book@, low_quality()),
    );
    let all = disconnected_addrs(peers);
    let amount = pre.config.minimum_number_of_connected_peers - count;
    let chosen = choose|chosen: Seq<SocketAddr>|
        is_selection(chosen, all, amount) && effects == closing + #[trigger] seek_effects(
            pre.config,
            peers,
            chosen,
        );
    let order = dial_order(chosen, all);
    let missing = missing_bootnodes(pre.config, peers);
    lemma_disconnect_where(pre.peer_book@, low_quality());
    lemma_addrs_where_distinct(peers, with_status(PeerStatus::Disconnected));
    lemma_dial_order(chosen, all, amount);
    lemma_addrs_where_contains(peers, with_status(PeerStatus::Disconnected), a);
    if has_status(peers, a, PeerStatus::Disconnected) {
        assert(order.contains(a));
        let k = choose|k: int| 0 <= k < order.len() && order[k] == a;
        assert(effects[closing.len() + missing.len() + k] == Effect::Connect(a));
    }
    if pre.config.bootnodes@.contains(a) && !has_status(peers, a, PeerStatus::Connected) {
        let pred = not_listed(connected_addrs(peers));
        lemma_addrs_where_contains(peers, with_status(PeerStatus::Connected), a);
        let i = choose|i: int|
            0 <= i < pre.config.bootnodes@.len() && pre.config.bootnodes@[i] == a;
        pre.config.bootnodes@.lemma_filter_contains(pred, i);
        let k = choose|k: int| 0 <= k < missing.len() && missing[k] == a;
        assert(effects[closing.len() + k] == Effect::Connect(a));
    }
}

/// What is selected from candidates that are listed once each is listed once, too, and each is a
/// candidate. Where as many are asked for as there are, all are selected.
pub proof fn law_selection(chosen: Seq<SocketAddr>, candidates: Seq<SocketAddr>, amount: int)
    requires
        candidates.no_duplicates(),
        is_selection(chosen, candidates, amount),
    ensures
        chosen.no_duplicates(),
        chosen.len() <= amount,
        forall|a: SocketAddr| #[trigger] chosen.contains(a) ==> candidates.contains(a),
        candidates.len() <= amount ==> (forall|a: SocketAddr| #[trigger]
            candidates.contains(a) ==> chosen.contains(a)),
{
    broadcast use vstd::seq_lib::group_to_multiset_ensures;

    let c = chosen.to_multiset();
    let all = candidates.to_multiset();
    candidates.lemma_multiset_has_no_duplicates();
    assert forall|a: SocketAddr| #[trigger] chosen.contains(a) implies candidates.contains(a) by {
        assert(c.count(a) > 0);
        assert(c.count(a) <= all.count(a));
    }
    assert forall|a: SocketAddr| c.contains(a) implies c.count(a) == 1 by {
        assert(c.count(a) <= all.count(a));
        assert(all.contains(a));
    }
    chosen.lemma_multiset_has_no_duplicates_conv();
    if candidates.len() <= amount {
        candidates.unique_seq_to_set();
        chosen.unique_seq_to_set();
        assert(chosen.to_set().subset_of(candidates.to_set()));
        vstd::set_lib::lemma_len_subset(chosen.to_set(), candidates.to_set());
        vstd::set_lib::lemma_subset_equality(chosen.to_set(), candidates.to_set());
        assert forall|a: SocketAddr| #[trigger] candidates.contains(a) implies chosen.contains(
            a,
        ) by {
            assert(candidates.to_set().contains(a));
            assert(chosen.to_set().contains(a));
        }
    }
}

/// The peers that a node tells another of: never the one that asks, none twice, no more than the
/// settings permit; connected ones, or disconnected ones if the node is a bootnode.
pub proof fn law_shared_peers(node: Node, remote: SocketAddr, chosen: Seq<SocketAddr>)
    requires
        node.wf(),
        is_selection(chosen, node.shareable(remote), node.config.shared_peer_count as int),
    ensures
        !chosen.contains(remote),
        chosen.no_duplicates(),
        chosen.len() <= node.config.shared_peer_count,
        forall|a: SocketAddr| #[trigger]
            chosen.contains(a) ==> has_status(
                node.peer_book@,
                a,
                if node.config.is_bootnode {
                    PeerStatus::Disconnected
                } else {
                    PeerStatus::Connected
                },
            ),
{
    let peers = node.peer_book@;
    let status = if node.config.is_bootnode {
        PeerStatus::Disconnected
    } else {
        PeerStatus::Connected
    };
    let pred = with_status_except(status, remote);
    lemma_addrs_where_distinct(peers, pred);
    law_selection(chosen, node.shareable(remote), node.config.shared_peer_count as int);
    assert forall|a: SocketAddr| #[trigger] chosen.contains(a) implies has_status(
        peers,
        a,
        status,
    ) && a != remote by {
        assert(node.shareable(remote).contains(a));
        lemma_addrs_where_contains(peers, pred, a);
    }
}

/// Entering addresses in the book keeps every record that is there, makes every address known, and
/// adds nothing but records of newcomers that are listed and were not known.
proof fn lemma_all_added(peers: Seq<PeerInfo>, addrs: Seq<SocketAddr>)
    ensures
        peers.len() <= all_added(peers, addrs).len() <= peers.len() + addrs.len(),
        all_added(peers, addrs).take(peers.len() as int) == peers,
        forall|k: int|
            0 <= k < addrs.len() ==> known(all_added(peers, addrs), #[trigger] addrs[k]),
        forall|i: int|
            peers.len() <= i < all_added(peers, addrs).len() ==> {
                let p = #[trigger] all_added(peers, addrs)[i];
                p == PeerInfo::newcomer(p.address) && addrs.contains(p.address) && !known(
                    peers,
                    p.address,
                )
            },
    decreases addrs.len(),
{
    if addrs.len() == 0 {
        assert(peers.take(peers.len() as int) =~= peers);
    } else {
        let rest = addrs.drop_last();
        let a = addrs.last();
        let before = all_added(peers, rest);
        let after = all_added(peers, addrs);
        lemma_all_added(peers, rest);
        assert(after.take(peers.len() as int) =~= peers) by {
            assert(after.take(peers.len() as int) =~= before.take(peers.len() as int));
        }
        assert forall|k: int| 0 <= k < addrs.len() implies known(after, #[trigger] addrs[k]) by {
            if k < rest.len() {
                assert(known(before, rest[k]));
                let i = choose|i: int|
                    0 <= i < before.len() && (#[trigger] before[i]).address == addrs[k];
                assert(after[i] == before[i]);
            } else if !known(before, a) {
                assert(after[before.len() as int].address == a);
            }
        }
        assert forall|i: int| peers.len() <= i < after.len() implies {
            let p = #[trigger] after[i];
            p == PeerInfo::newcomer(p.address) && addrs.contains(p.address) && !known(
                peers,
                p.address,
            )
        } by {
            let p = after[i];
            if i < before.len() {
                assert(before[i] == p);
                let k = choose|k: int| 0 <= k < rest.len() && rest[k] == p.address;
                assert(addrs[k] == p.address);
            } else {
                assert(addrs[addrs.len() - 1] == p.address);
                if known(peers, p.address) {
                    let j = choose|j: int|
                        0 <= j < peers.len() && (#[trigger] peers[j]).address == p.address;
                    assert(before.take(peers.len() as int)[j] == before[j]);
                    assert(known(before, a));
                }
            }
        }
    }
}

/// An inbound list of peers touches no known peer. Every listed address other than the node's own
/// is known afterwards, and what is added is listed, was unknown before, is disconnected, and is
/// never the node's own address.
pub proof fn law_inbound_peers(node: Node, inbound: Seq<SocketAddr>)
    requires
        node.local_address is Some,
    ensures
        ({
            let before = node.peer_book@;
            let after = all_added(before, node.welcome(inbound));
            &&& after.take(before.len() as int) == before
            &&& before.len() <= after.len() <= before.len() + inbound.len()
            &&& forall|i: int|
                before.len() <= i < after.len() ==> {
                    let p = #[trigger] after[i];
                    p == PeerInfo::newcomer(p.address) && inbound.contains(p.address) && !known(
                        before,
                        p.address,
                    ) && p.address != node.local_address->0
                }
            &&& forall|k: int|
                0 <= k < inbound.len() && inbound[k] != node.local_address->0 ==> known(
                    after,
                    #[trigger] inbound[k],
                )
        }),
{
    let before = node.peer_book@;
    let own = node.local_address->0;
    let pred = other_than(own);
    let welcome = node.welcome(inbound);
    let after = all_added(before, welcome);
    lemma_all_added(before, welcome);
    inbound.lemma_filter_len(pred);
    assert forall|i: int| before.len() <= i < after.len() implies {
        let p = #[trigger] after[i];
        p == PeerInfo::newcomer(p.address) && inbound.contains(p.address) && !known(
            before,
            p.address,
        ) && p.address != own
    } by {
        let p = after[i];
        assert(welcome.contains(p.address));
        let k = choose|k: int| 0 <= k < welcome.len() && welcome[k] == p.address;
        inbound.lemma_filter_pred(pred, k);
        inbound.lemma_filter_contains_rev(pred, p.address);
    }
    assert forall|k: int| 0 <= k < inbound.len() && inbound[k] != own implies known(
        after,
        #[trigger] inbound[k],
    ) by {
        inbound.lemma_filter_contains(pred, k);
        let j = choose|j: int| 0 <= j < welcome.len() && welcome[j] == inbound[k];
        assert(known(after, welcome[j]));
    }
}

/// What is stored tells the peer book: two books that are stored as the same bytes list the same
/// addresses in the same order, each with the same status and the same time of the last connection.
pub proof fn law_stored_book_tells_peers(a: Seq<PeerInfo>, b: Seq<PeerInfo>)
    requires
        a.len() <= u64::MAX,
        b.len() <= u64::MAX,
        rows_bytes(book_rows(a)) == rows_bytes(book_rows(b)),
    ensures
        a.len() == b.len(),
        forall|i: int|
            #![trigger a[i]]
            0 <= i < a.len() ==> a[i].address == b[i].address && a[i].status == b[i].status
                && a[i].last_connected == b[i].last_connected,
{
    lemma_rows_injective(book_rows(a), book_rows(b));
    assert forall|i: int| #![trigger a[i]] 0 <= i < a.len() implies a[i].address == b[i].address
        && a[i].status == b[i].status && a[i].last_connected == b[i].last_connected by {
        assert(book_rows(a)[i] == spec_row(a[i]));
        assert(book_rows(b)[i] == spec_row(b[i]));
    }
}

} // verus!
