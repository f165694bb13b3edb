//! What a periodic update does, in terms of the records and the settings.

use vstd::prelude::*;

use crate::addr::SocketAddr;
use crate::book_laws::{law_lists, law_whole_seconds};
use crate::effect::Effect;
use crate::laws::lemma_dropped;
use crate::message::{Direction, Message, Payload};
use crate::node::{disconnect_effects, Node};
use crate::peer_book::{
    addrs_where, all_wf, connected_addrs, disconnected_addrs, distinct, has_status,
    lemma_addrs_where_contains, lemma_addrs_where_distinct, lemma_only_place, syncing, with_status,
    PeerInfo, PeerStatus,
};
use crate::random::is_selection;
use crate::recency::most_recent_first;
use crate::time::Timestamp;
use crate::update::{
    closing_effects, dial_order, disconnect_listed, disconnect_where, getpeers_effects,
    lemma_dial_order, low_quality, maintain_stage, not_listed, overstaying, ping_effects,
    seek_effects, updates, UpdateStage,
};

verus! {

/// The steps that taking leave of a connected peer takes outside the peer book: the end of the
/// download of blocks from it, where there is one, and the closing of its channel.
pub open spec fn leave_taking(p: PeerInfo, has_consensus: bool) -> Seq<Effect> {
    if has_consensus && p.quality.syncing_blocks {
        seq![Effect::FinishedSyncingBlocks, Effect::CloseChannel(p.address)]
    } else {
        seq![Effect::CloseChannel(p.address)]
    }
}

/// The record of a peer with its status changed to disconnected.
pub open spec fn left(p: PeerInfo) -> PeerInfo {
    PeerInfo {
        address: p.address,
        status: PeerStatus::Disconnected,
        last_connected: p.last_connected,
        quality: p.quality,
    }
}

/// The list of a mapped sequence of lists ends with that of the last element.
proof fn lemma_flat_map_last<A>(s: Seq<A>, f: spec_fn(A) -> Seq<Effect>)
    requires
        s.len() > 0,
    ensures
        s.flat_map(f) == s.drop_last().flat_map(f) + f(s.last()),
{
    assert(s.drop_last().push(s.last()) =~= s);
    s.drop_last().lemma_flat_map_push(f, s.last());
}

/// The steps that disconnecting from connected peers takes are those of each of them.
proof fn lemma_closing(peers: Seq<PeerInfo>, has_consensus: bool, leaving: Seq<PeerInfo>)
    requires
        distinct(peers),
        forall|k: int|
            0 <= k < leaving.len() ==> peers.contains(#[trigger] leaving[k]) && leaving[k].status
                == PeerStatus::Connected,
    ensures
        closing_effects(peers, has_consensus, leaving.map_values(|p: PeerInfo| p.address))
            == leaving.flat_map(|p: PeerInfo| leave_taking(p, has_consensus)),
    decreases leaving.len(),
{
    let f = |p: PeerInfo| leave_taking(p, has_consensus);
    let addrs = leaving.map_values(|p: PeerInfo| p.address);
    if leaving.len() > 0 {
        let rest = leaving.drop_last();
        let p = leaving.last();
        assert forall|k: int| 0 <= k < rest.len() implies peers.contains(#[trigger] rest[k])
            && rest[k].status == PeerStatus::Connected by {
            assert(rest[k] == leaving[k]);
        }
        lemma_closing(peers, has_consensus, rest);
        assert(addrs.drop_last() =~= rest.map_values(|p: PeerInfo| p.address));
        lemma_flat_map_last(leaving, f);
        assert(peers.contains(leaving[leaving.len() - 1]));
        let i = choose|i: int| 0 <= i < peers.len() && peers[i] == p;
        lemma_only_place(peers, i);
        assert(syncing(peers, p.address) <==> p.quality.syncing_blocks);
        assert(disconnect_effects(peers, has_consensus, p.address) =~= leave_taking(
            p,
            has_consensus,
        ));
    } else {
        assert(leaving.map_values(f).len() == 0);
    }
}

/// What a filter selects is connected and in the book, where the filter says so.
proof fn lemma_selected(peers: Seq<PeerInfo>, pred: spec_fn(PeerInfo) -> bool)
    ensures
        forall|k: int|
            0 <= k < peers.filter(pred).len() ==> peers.contains(#[trigger] peers.filter(pred)[k])
                && pred(peers.filter(pred)[k]),
{
    let selected = peers.filter(pred);
    assert forall|k: int| 0 <= k < selected.len() implies peers.contains(#[trigger] selected[k])
        && pred(selected[k]) by {
        peers.lemma_filter_pred(pred, k);
        assert(selected.contains(selected[k]));
        peers.lemma_filter_contains_rev(pred, selected[k]);
    }
}

/// The pings of the listed peers, as a list of lists.
proof fn lemma_pings(connected: Seq<PeerInfo>, height: u32)
    ensures
        ping_effects(connected.map_values(|p: PeerInfo| p.address), height) == connected.flat_map(
            |p: PeerInfo|
                seq![
                    Effect::RecordPing(p.address),
                    Effect::Send(
                        Message {
                            direction: Direction::Outbound(p.address),
                            payload: Payload::Ping(height),
                        },
                    ),
                ],
        ),
    decreases connected.len(),
{
    let f = |p: PeerInfo|
        seq![
            Effect::RecordPing(p.address),
            Effect::Send(
                Message {
                    direction: Direction::Outbound(p.address),
                    payload: Payload::Ping(height),
                },
            ),
        ];
    let addrs = connected.map_values(|p: PeerInfo| p.address);
    if connected.len() > 0 {
        lemma_pings(connected.drop_last(), height);
        assert(addrs.drop_last() =~= connected.drop_last().map_values(|p: PeerInfo| p.address));
        lemma_flat_map_last(connected, f);
    } else {
        assert(connected.map_values(f).len() == 0);
    }
}

/// The first stage of an update disconnects from the connected peers whose round-trip time exceeds
/// 1000 milliseconds or that have more than 10 failures. It changes nothing but the status of their
/// records, and hands on how many peers were connected before.
pub proof fn law_start_drops(
    pre: Node,
    post: Node,
    next: UpdateStage,
    effects: Seq<Effect>,
)
    requires
        updates(pre, UpdateStage::Start, post, next, effects),
    ensures
        post.peer_book.peers@.len() == pre.peer_book.peers@.len(),
        forall|i: int|
            0 <= i < pre.peer_book.peers@.len() ==> {
                let p = #[trigger] pre.peer_book.peers@[i];
                post.peer_book.peers@[i] == if p.status == PeerStatus::Connected && (
                p.quality.rtt_ms > 1000 || p.quality.failures > 10) {
                    left(p)
                } else {
                    p
                }
            },
        next is Maintain && next->Maintain_0 == pre.peer_book.peers@.filter(
            |p: PeerInfo| p.status == PeerStatus::Connected,
        ).len(),
        post.config == pre.config,
        post.local_address == pre.local_address,
        post.consensus == pre.consensus,
{
    law_lists(pre.peer_book.peers@);
}

/// The steps of the first stage. It takes leave of the peers that it drops. Then, on a node that is
/// no bootnode and had fewer connected peers before the update than the minimum, however few, it
/// tries the bootnodes that are not connected, in the order of the settings, and every disconnected
/// peer, each once, and asks every connected peer for more. On any other node it does no more.
pub proof fn law_start_effects(
    pre: Node,
    post: Node,
    next: UpdateStage,
    effects: Seq<Effect>,
) -> (order: Seq<SocketAddr>)
    requires
        pre.wf(),
        updates(pre, UpdateStage::Start, post, next, effects),
    ensures
        ({
            let before = pre.peer_book.peers@;
            let after = post.peer_book.peers@;
            let closing = before.filter(
                |p: PeerInfo|
                    p.status == PeerStatus::Connected && (p.quality.rtt_ms > 1000
                        || p.quality.failures > 10),
            ).flat_map(|p: PeerInfo| leave_taking(p, pre.consensus is Some));
            let few = before.filter(|p: PeerInfo| p.status == PeerStatus::Connected).len()
                < pre.config.minimum_number_of_connected_peers;
            &&& (pre.config.is_bootnode || !few) ==> effects == closing
            &&& !pre.config.is_bootnode && few ==> {
                &&& effects == closing + pre.config.bootnodes@.filter(
                    |a: SocketAddr|
                        !exists|i: int|
                            0 <= i < after.len() && (#[trigger] after[i]).address == a
                                && after[i].status == PeerStatus::Connected,
                ).map_values(|a: SocketAddr| Effect::Connect(a)) + order.map_values(
                    |a: SocketAddr| Effect::Connect(a),
                ) + after.filter(|p: PeerInfo| p.status == PeerStatus::Connected).map_values(
                    |p: PeerInfo|
                        Effect::Send(
                            Message {
                                direction: Direction::Outbound(p.address),
                                payload: Payload::GetPeers,
                            },
                        ),
                )
                &&& order.no_duplicates()
                &&& forall|a: SocketAddr| #[trigger]
                    order.contains(a) <==> exists|i: int|
                        0 <= i < after.len() && (#[trigger] after[i]).address == a
                            && after[i].status == PeerStatus::Disconnected
            }
        }),
{
    let before = pre.peer_book.peers@;
    let after = post.peer_book.peers@;
    let has_consensus = pre.consensus is Some;
    let low = |p: PeerInfo|
        p.status == PeerStatus::Connected && (p.quality.rtt_ms > 1000 || p.quality.failures > 10);
    let count = pre.connected_count() as int;
    let closing = closing_effects(before, has_consensus, addrs_where(before, low_quality()));
    law_lists(before);
    law_lists(after);
    assert(low_quality() =~= low);
    lemma_selected(before, low);
    lemma_closing(before, has_consensus, before.filter(low));
    assert(distinct(after)) by {
        assert forall|i: int, j: int| 0 <= i < j < after.len() implies (#[trigger] after[i]).address
            != (#[trigger] after[j]).address by {
            assert(before[i].address != before[j].address);
        }
    }
    if !pre.config.is_bootnode && count < pre.config.minimum_number_of_connected_peers {
        let all = disconnected_addrs(after);
        let amount = pre.config.minimum_number_of_connected_peers - count;
        let chosen = choose|chosen: Seq<SocketAddr>|
            is_selection(chosen, all, amount) && effects == closing + #[trigger] seek_effects(
                pre.config,
                after,
                chosen,
            );
        let order = dial_order(chosen, all);
        lemma_addrs_where_distinct(after, with_status(PeerStatus::Disconnected));
        lemma_dial_order(chosen, all, amount);
        assert forall|a: SocketAddr| #[trigger] order.contains(a) <==> exists|i: int|
            0 <= i < after.len() && (#[trigger] after[i]).address == a && after[i].status
                == PeerStatus::Disconnected by {
            lemma_addrs_where_contains(after, with_status(PeerStatus::Disconnected), a);
        }
        let absent = |a: SocketAddr|
            !exists|i: int|
                0 <= i < after.len() && (#[trigger] after[i]).address == a && after[i].status
                    == PeerStatus::Connected;
        assert(not_listed(connected_addrs(after)) =~= absent) by {
            assert forall|a: SocketAddr| #[trigger]
                not_listed(connected_addrs(after))(a) == absent(a) by {
                lemma_addrs_where_contains(after, with_status(PeerStatus::Connected), a);
            }
        }
        let present = after.filter(|p: PeerInfo| p.status == PeerStatus::Connected);
        assert(getpeers_effects(connected_addrs(after)) =~= present.map_values(
            |p: PeerInfo|
                Effect::Send(
                    Message {
                        direction: Direction::Outbound(p.address),
                        payload: Payload::GetPeers,
                    },
                ),
        ));
        assert(effects =~= closing + pre.config.bootnodes@.filter(absent).map_values(
            |a: SocketAddr| Effect::Connect(a),
        ) + order.map_values(|a: SocketAddr| Effect::Connect(a)) + present.map_values(
            |p: PeerInfo|
                Effect::Send(
                    Message {
                        direction: Direction::Outbound(p.address),
                        payload: Payload::GetPeers,
                    },
                ),
        ));
        order
    } else {
        Seq::empty()
    }
}

/// A node that is no bootnode and had fewer connected peers before the update than the minimum, zero
/// of them among these, tries every bootnode that is not connected and every disconnected peer, and
/// asks every connected peer for more.
pub proof fn law_few_peers_are_made_more(
    pre: Node,
    post: Node,
    next: UpdateStage,
    effects: Seq<Effect>,
)
    requires
        pre.wf(),
        updates(pre, UpdateStage::Start, post, next, effects),
        !pre.config.is_bootnode,
        pre.peer_book.peers@.filter(|p: PeerInfo| p.status == PeerStatus::Connected).len()
            < pre.config.minimum_number_of_connected_peers,
    ensures
        forall|k: int|
            0 <= k < pre.config.bootnodes@.len() && !(exists|i: int|
                0 <= i < post.peer_book.peers@.len() && (
                #[trigger] post.peer_book.peers@[i]).address == pre.config.bootnodes@[k]
                    && post.peer_book.peers@[i].status == PeerStatus::Connected)
                ==> effects.contains(Effect::Connect(#[trigger] pre.config.bootnodes@[k])),
        forall|i: int|
            0 <= i < post.peer_book.peers@.len() && (#[trigger] post.peer_book.peers@[i]).status
                == PeerStatus::Disconnected ==> effects.contains(
                Effect::Connect(post.peer_book.peers@[i].address),
            ),
        forall|i: int|
            0 <= i < post.peer_book.peers@.len() && (#[trigger] post.peer_book.peers@[i]).status
                == PeerStatus::Connected ==> effects.contains(
                Effect::Send(
                    Message {
                        direction: Direction::Outbound(post.peer_book.peers@[i].address),
                        payload: Payload::GetPeers,
                    },
                ),
            ),
{
    let after = post.peer_book.peers@;
    let order = law_start_effects(pre, post, next, effects);
    let closing = pre.peer_book.peers@.filter(
        |p: PeerInfo|
            p.status == PeerStatus::Connected && (p.quality.rtt_ms > 1000 || p.quality.failures
                > 10),
    ).flat_map(|p: PeerInfo| leave_taking(p, pre.consensus is Some));
    let absent = |a: SocketAddr|
        !exists|i: int|
            0 <= i < after.len() && (#[trigger] after[i]).address == a && after[i].status
                == PeerStatus::Connected;
    let missing = pre.config.bootnodes@.filter(absent);
    let here = |p: PeerInfo| p.status == PeerStatus::Connected;
    let present = after.filter(here);
    let bootnodes = pre.config.bootnodes@;
    assert forall|k: int|
        0 <= k < bootnodes.len() && !(exists|i: int|
            0 <= i < after.len() && (#[trigger] after[i]).address == bootnodes[k]
                && after[i].status == PeerStatus::Connected) implies effects.contains(
        Effect::Connect(#[trigger] bootnodes[k]),
    ) by {
        assert(absent(bootnodes[k]));
        bootnodes.lemma_filter_contains(absent, k);
        let j = choose|j: int| 0 <= j < missing.len() && missing[j] == bootnodes[k];
        assert(effects[closing.len() + j] == Effect::Connect(bootnodes[k]));
    }
    assert forall|i: int|
        0 <= i < after.len() && (#[trigger] after[i]).status
            == PeerStatus::Disconnected implies effects.contains(
        Effect::Connect(after[i].address),
    ) by {
        assert(order.contains(after[i].address));
        let j = choose|j: int| 0 <= j < order.len() && order[j] == after[i].address;
        assert(effects[closing.len() + missing.len() + j] == Effect::Connect(after[i].address));
    }
    assert forall|i: int|
        0 <= i < after.len() && (#[trigger] after[i]).status
            == PeerStatus::Connected implies effects.contains(
        Effect::Send(
            Message {
                direction: Direction::Outbound(after[i].address),
                payload: Payload::GetPeers,
            },
        ),
    ) by {
        after.lemma_filter_contains(here, i);
        let j = choose|j: int| 0 <= j < present.len() && present[j] == after[i];
        assert(effects[closing.len() + missing.len() + order.len() + j] == Effect::Send(
            Message {
                direction: Direction::Outbound(after[i].address),
                payload: Payload::GetPeers,
            },
        ));
    }
}

/// The peer `p` was connected no later than the peer `q`.
pub open spec fn connected_no_later(p: PeerInfo, q: PeerInfo) -> bool {
    match (p.last_connected, q.last_connected) {
        (Some(s), Some(t)) => s.secs < t.secs || (s.secs == t.secs && s.nanos <= t.nanos),
        _ => false,
    }
}

/// Eleven seconds or more have passed at `now` since the peer `p` was connected.
pub open spec fn connected_for_long(p: PeerInfo, now: Timestamp) -> bool {
    match p.last_connected {
        Some(t) => now.secs - t.secs > 11 || (now.secs - t.secs == 11 && now.nanos >= t.nanos),
        None => false,
    }
}

/// The record of an address that stands in the book.
spec fn record_of(peers: Seq<PeerInfo>, a: SocketAddr) -> PeerInfo {
    peers[choose|i: int| 0 <= i < peers.len() && (#[trigger] peers[i]).address == a]
}

/// The records of connected peers that are listed once each.
proof fn lemma_records(peers: Seq<PeerInfo>, addrs: Seq<SocketAddr>) -> (records: Seq<PeerInfo>)
    requires
        distinct(peers),
        addrs.no_duplicates(),
        forall|k: int|
            0 <= k < addrs.len() ==> has_status(peers, #[trigger] addrs[k], PeerStatus::Connected),
    ensures
        records.len() == addrs.len(),
        records.map_values(|p: PeerInfo| p.address) == addrs,
        records.no_duplicates(),
        forall|k: int|
            0 <= k < records.len() ==> peers.contains(#[trigger] records[k]) && records[k].status
                == PeerStatus::Connected,
        forall|i: int|
            0 <= i < peers.len() ==> (records.contains(#[trigger] peers[i]) <==> addrs.contains(
                peers[i].address,
            )),
{
    let records = addrs.map_values(|a: SocketAddr| record_of(peers, a));
    assert forall|k: int| 0 <= k < records.len() implies peers.contains(#[trigger] records[k])
        && records[k].status == PeerStatus::Connected && records[k].address == addrs[k] by {
        assert(has_status(peers, addrs[k], PeerStatus::Connected));
        let i = choose|i: int|
            0 <= i < peers.len() && (#[trigger] peers[i]).address == addrs[k] && peers[i].status
                == PeerStatus::Connected;
        let j = choose|j: int| 0 <= j < peers.len() && (#[trigger] peers[j]).address == addrs[k];
        lemma_only_place(peers, i);
        assert(j == i);
        assert(peers[j] == records[k]);
    }
    assert(records.map_values(|p: PeerInfo| p.address) =~= addrs);
    assert forall|i: int| 0 <= i < peers.len() implies (records.contains(#[trigger] peers[i])
        <==> addrs.contains(peers[i].address)) by {
        if records.contains(peers[i]) {
            let k = choose|k: int| 0 <= k < records.len() && records[k] == peers[i];
            assert(addrs[k] == peers[i].address);
        }
        if addrs.contains(peers[i].address) {
            let k = choose|k: int| 0 <= k < addrs.len() && addrs[k] == peers[i].address;
            assert(peers.contains(records[k]));
            let j = choose|j: int| 0 <= j < peers.len() && peers[j] == records[k];
            lemma_only_place(peers, i);
            assert(j == i);
        }
    }
    records
}

/// Filtering changed records is filtering the records, where those that are selected are unchanged.
proof fn lemma_filter_of_map(
    s: Seq<PeerInfo>,
    g: spec_fn(PeerInfo) -> PeerInfo,
    pred: spec_fn(PeerInfo) -> bool,
    q: spec_fn(PeerInfo) -> bool,
)
    requires
        forall|k: int|
            0 <= k < s.len() ==> (pred(g(#[trigger] s[k])) <==> q(s[k])) && (q(s[k]) ==> g(s[k])
                == s[k]),
    ensures
        s.map_values(g).filter(pred) == s.filter(q),
    decreases s.len(),
{
    reveal(Seq::filter);
    if s.len() > 0 {
        let rest = s.drop_last();
        assert forall|k: int| 0 <= k < rest.len() implies (pred(g(#[trigger] rest[k])) <==> q(
            rest[k],
        )) && (q(rest[k]) ==> g(rest[k]) == rest[k]) by {
            assert(rest[k] == s[k]);
        }
        lemma_filter_of_map(rest, g, pred, q);
        assert(s.map_values(g).drop_last() =~= rest.map_values(g));
        assert(s[s.len() - 1] == s.last());
    } else {
        assert(s.map_values(g) =~= s);
    }
}

/// The records of the most recently connected peers are no earlier than the other connected ones, and
/// the latest comes first.
proof fn lemma_recency(peers: Seq<PeerInfo>, addrs: Seq<SocketAddr>, dropped: Seq<PeerInfo>)
    requires
        distinct(peers),
        all_wf(peers),
        most_recent_first(peers, addrs.len() as int, addrs),
        dropped.map_values(|p: PeerInfo| p.address) == addrs,
        forall|k: int|
            0 <= k < dropped.len() ==> peers.contains(#[trigger] dropped[k]) && dropped[k].status
                == PeerStatus::Connected,
        forall|i: int|
            0 <= i < peers.len() ==> (dropped.contains(#[trigger] peers[i]) <==> addrs.contains(
                peers[i].address,
            )),
    ensures
        forall|i: int, k: int|
            0 <= i < peers.len() && 0 <= k < dropped.len() && (#[trigger] peers[i]).status
                == PeerStatus::Connected && !dropped.contains(peers[i]) ==> connected_no_later(
                peers[i],
                #[trigger] dropped[k],
            ),
        forall|k: int, l: int|
            0 <= k < l < dropped.len() ==> connected_no_later(
                #[trigger] dropped[l],
                #[trigger] dropped[k],
            ),
{
    assert forall|i: int, k: int|
        0 <= i < peers.len() && 0 <= k < dropped.len() && (#[trigger] peers[i]).status
            == PeerStatus::Connected && !dropped.contains(peers[i]) implies connected_no_later(
        peers[i],
        #[trigger] dropped[k],
    ) by {
        assert(peers.contains(dropped[k]));
        let j = choose|j: int| 0 <= j < peers.len() && peers[j] == dropped[k];
        assert(dropped.contains(peers[j]));
        assert(peers[i].wf() && peers[j].wf());
    }
    assert forall|k: int, l: int| 0 <= k < l < dropped.len() implies connected_no_later(
        #[trigger] dropped[l],
        #[trigger] dropped[k],
    ) by {
        assert(peers.contains(dropped[k]) && peers.contains(dropped[l]));
        let i = choose|i: int| 0 <= i < peers.len() && peers[i] == dropped[k];
        let j = choose|j: int| 0 <= j < peers.len() && peers[j] == dropped[l];
        assert(dropped.map_values(|p: PeerInfo| p.address)[k] == addrs[k]);
        assert(dropped.map_values(|p: PeerInfo| p.address)[l] == addrs[l]);
        assert(peers[i].address == addrs[k] && peers[j].address == addrs[l]);
        assert(peers[i].wf() && peers[j].wf());
    }
}

/// What a bootnode drops besides the surplus, and what that takes.
proof fn lemma_overstayed(
    peers: Seq<PeerInfo>,
    addrs: Seq<SocketAddr>,
    dropped: Seq<PeerInfo>,
    now: Timestamp,
    has_consensus: bool,
) -> (overstayed: Seq<PeerInfo>)
    requires
        distinct(peers),
        all_wf(peers),
        now.valid(),
        forall|i: int|
            0 <= i < peers.len() ==> (dropped.contains(#[trigger] peers[i]) <==> addrs.contains(
                peers[i].address,
            )),
    ensures
        overstayed == peers.filter(
            |p: PeerInfo|
                p.status == PeerStatus::Connected && !dropped.contains(p) && connected_for_long(
                    p,
                    now,
                ),
        ),
        ({
            let trimmed = disconnect_listed(peers, addrs);
            let after = disconnect_where(trimmed, overstaying(now));
            &&& closing_effects(
                trimmed,
                has_consensus,
                addrs_where(trimmed, overstaying(now)),
            ) == overstayed.flat_map(|p: PeerInfo| leave_taking(p, has_consensus))
            &&& forall|i: int|
                0 <= i < peers.len() ==> after[i] == if dropped.contains(#[trigger] peers[i])
                    || overstayed.contains(peers[i]) {
                    left(peers[i])
                } else {
                    peers[i]
                }
        }),
{
    let trimmed = disconnect_listed(peers, addrs);
    let after = disconnect_where(trimmed, overstaying(now));
    let g = |p: PeerInfo| if addrs.contains(p.address) { p.to_disconnected() } else { p };
    let q = |p: PeerInfo|
        p.status == PeerStatus::Connected && !dropped.contains(p) && connected_for_long(p, now);
    let overstayed = peers.filter(q);
    assert(trimmed =~= peers.map_values(g));
    assert(distinct(trimmed)) by {
        assert forall|i: int, j: int| 0 <= i < j < trimmed.len() implies (
        #[trigger] trimmed[i]).address != (#[trigger] trimmed[j]).address by {
            assert(peers[i].address != peers[j].address);
        }
    }
    assert forall|i: int| 0 <= i < peers.len() implies (overstaying(now)(g(#[trigger] peers[i]))
        <==> q(peers[i])) && (q(peers[i]) ==> g(peers[i]) == peers[i]) by {
        assert(peers[i].wf());
        if let Some(t) = peers[i].last_connected {
            law_whole_seconds(now, t, 10);
        }
    }
    lemma_filter_of_map(peers, g, overstaying(now), q);
    lemma_selected(trimmed, overstaying(now));
    lemma_closing(trimmed, has_consensus, overstayed);
    assert forall|i: int| 0 <= i < peers.len() implies after[i] == if dropped.contains(
        #[trigger] peers[i],
    ) || overstayed.contains(peers[i]) {
        left(peers[i])
    } else {
        peers[i]
    } by {
        if overstayed.contains(peers[i]) {
            let k = choose|k: int| 0 <= k < overstayed.len() && overstayed[k] == peers[i];
            peers.lemma_filter_pred(q, k);
        }
        if q(peers[i]) {
            peers.lemma_filter_contains(q, i);
        }
        assert(trimmed[i] == g(peers[i]));
    }
    overstayed
}

/// The second stage of an update that started with `count` connected peers. Where these were more
/// than the permitted number, as many of the connected peers are dropped as there were too many, or
/// all where there are not so many: those that were connected last, the latest first. A bootnode
/// also drops the other connected peers that have been connected for eleven seconds or more. Nothing
/// else in the book changes. The steps are the leave-taking from each of them, and then, where
/// `count` is not zero, a recorded ping with the height of the chain to every peer that is still
/// connected, unless the node is a bootnode, and the saving of the book.
pub proof fn law_maintain(
    pre: Node,
    count: usize,
    post: Node,
    next: UpdateStage,
    effects: Seq<Effect>,
) -> (r: (Seq<PeerInfo>, Seq<PeerInfo>, Timestamp))
    requires
        pre.wf(),
        updates(pre, UpdateStage::Maintain(count), post, next, effects),
    ensures
        ({
            let peers = pre.peer_book.peers@;
            let after = post.peer_book.peers@;
            let dropped = r.0;
            let overstayed = r.1;
            let now = r.2;
            let has_consensus = pre.consensus is Some;
            let present = peers.filter(|p: PeerInfo| p.status == PeerStatus::Connected).len();
            let over = count - pre.config.maximum_number_of_connected_peers;
            let height = match pre.consensus {
                Some(consensus) => consensus.current_block_height,
                None => 0u32,
            };
            let closing = dropped.flat_map(|p: PeerInfo| leave_taking(p, has_consensus))
                + overstayed.flat_map(|p: PeerInfo| leave_taking(p, has_consensus));
            let pings = after.filter(|p: PeerInfo| p.status == PeerStatus::Connected).flat_map(
                |p: PeerInfo|
                    seq![
                        Effect::RecordPing(p.address),
                        Effect::Send(
                            Message {
                                direction: Direction::Outbound(p.address),
                                payload: Payload::Ping(height),
                            },
                        ),
                    ],
            );
            &&& -8_334_601_228_800 <= now.secs <= 8_210_266_876_799
            &&& now.nanos < 1_000_000_000
            &&& next == UpdateStage::Done
            &&& dropped.len() == if over <= 0 {
                0
            } else if over <= present {
                over
            } else {
                present as int
            }
            &&& dropped.no_duplicates()
            &&& forall|k: int|
                0 <= k < dropped.len() ==> peers.contains(#[trigger] dropped[k])
                    && dropped[k].status == PeerStatus::Connected
            &&& forall|i: int, k: int|
                0 <= i < peers.len() && 0 <= k < dropped.len() && (#[trigger] peers[i]).status
                    == PeerStatus::Connected && !dropped.contains(peers[i]) ==> connected_no_later(
                    peers[i],
                    #[trigger] dropped[k],
                )
            &&& forall|k: int, l: int|
                0 <= k < l < dropped.len() ==> connected_no_later(
                    #[trigger] dropped[l],
                    #[trigger] dropped[k],
                )
            &&& pre.config.is_bootnode ==> overstayed == peers.filter(
                |p: PeerInfo|
                    p.status == PeerStatus::Connected && !dropped.contains(p)
                        && connected_for_long(p, now),
            )
            &&& !pre.config.is_bootnode ==> overstayed.len() == 0
            &&& after.len() == peers.len()
            &&& forall|i: int|
                0 <= i < peers.len() ==> after[i] == if dropped.contains(#[trigger] peers[i])
                    || overstayed.contains(peers[i]) {
                    left(peers[i])
                } else {
                    peers[i]
                }
            &&& count == 0 ==> effects == closing
            &&& count != 0 && pre.config.is_bootnode ==> effects == closing.push(
                Effect::SavePeerBook,
            )
            &&& count != 0 && !pre.config.is_bootnode ==> effects == (closing + pings).push(
                Effect::SavePeerBook,
            )
            &&& post.config == pre.config
            &&& post.local_address == pre.local_address
            &&& post.consensus == pre.consensus
        }),
{
    let peers = pre.peer_book.peers@;
    let after = post.peer_book.peers@;
    let has_consensus = pre.consensus is Some;
    let number = count as int;
    let now = choose|now: Timestamp|
        now.valid() && #[trigger] maintain_stage(pre, number, now, post, effects);
    let addrs = lemma_dropped(pre, number, now, post, effects);
    let dropped = lemma_records(peers, addrs);
    law_lists(peers);
    lemma_recency(peers, addrs, dropped);
    lemma_closing(peers, has_consensus, dropped);
    let trimmed = disconnect_listed(peers, addrs);
    if pre.config.is_bootnode {
        let overstayed = lemma_overstayed(peers, addrs, dropped, now, has_consensus);
        if count != 0 {
            assert(effects =~= (closing_effects(peers, has_consensus, addrs) + closing_effects(
                trimmed,
                has_consensus,
                addrs_where(trimmed, overstaying(now)),
            )).push(Effect::SavePeerBook));
        }
        (dropped, overstayed, now)
    } else {
        let overstayed = Seq::<PeerInfo>::empty();
        let f = |p: PeerInfo| leave_taking(p, has_consensus);
        assert(overstayed.map_values(f).len() == 0);
        assert(overstayed.flat_map(f) =~= Seq::empty());
        law_lists(after);
        lemma_pings(
            after.filter(|p: PeerInfo| p.status == PeerStatus::Connected),
            pre.ping_height(),
        );
        if count != 0 {
            assert(effects =~= (closing_effects(peers, has_consensus, addrs) + Seq::empty()
                + ping_effects(connected_addrs(trimmed), pre.ping_height())).push(
                Effect::SavePeerBook,
            ));
        }
        (dropped, overstayed, now)
    }
}

/// An update that is over does nothing more.
pub proof fn law_done_is_done(pre: Node, post: Node, next: UpdateStage, effects: Seq<Effect>)
    requires
        updates(pre, UpdateStage::Done, post, next, effects),
    ensures
        post == pre,
        effects.len() == 0,
        next == UpdateStage::Done,
{
}

} // verus!
