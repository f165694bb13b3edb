//! The periodic update: dropping bad, surplus and overstaying peers, looking for new ones, and
//! keeping in touch with the rest.

use vstd::prelude::*;

use crate::addr::SocketAddr;
use crate::config::Config;
use crate::effect::Effect;
use crate::laws::law_selection;
use crate::message::{Direction, Message, Payload};
use crate::node::{disconnect_effects, Node};
use crate::peer_book::{
    addrs_where, connected_addrs, disconnected, disconnected_addrs, distinct, has_status, known,
    lemma_addrs_where_contains, lemma_addrs_where_distinct, lemma_addrs_where_step,
    lemma_only_place, syncing, with_status, PeerInfo, PeerStatus,
};
use crate::random::{is_selection, pick};
use crate::recency::most_recent_first;
use crate::time::{seconds_between, utc_now, whole_seconds, Timestamp};

verus! {

/// A peer with a longer round-trip time, in milliseconds, is dropped.
pub const MAX_RTT_MS: u64 = 1000;

/// A peer with more failures is dropped.
pub const MAX_FAILURES: u32 = 10;

/// A bootnode drops a peer that has been connected for more whole seconds.
pub const BOOTNODE_CONNECTION_SECS: i64 = 10;

/// Selects the connected peers whose round-trip time is too high or that have too many failures.
pub open spec fn low_quality() -> spec_fn(PeerInfo) -> bool {
    |p: PeerInfo|
        p.status == PeerStatus::Connected && (p.quality.rtt_ms > MAX_RTT_MS || p.quality.failures
            > MAX_FAILURES)
}

/// Selects the connected peers that have been connected for too long to stay with a bootnode.
pub open spec fn overstaying(now: Timestamp) -> spec_fn(PeerInfo) -> bool {
    |p: PeerInfo|
        p.status == PeerStatus::Connected && whole_seconds(now, p.last_connected->0)
            > BOOTNODE_CONNECTION_SECS
}

/// The book with every peer that `pred` selects marked as disconnected.
pub open spec fn disconnect_where(
    peers: Seq<PeerInfo>,
    pred: spec_fn(PeerInfo) -> bool,
) -> Seq<PeerInfo> {
    peers.map_values(|p: PeerInfo| if pred(p) { p.to_disconnected() } else { p })
}

/// The book with every peer listed in `addrs` marked as disconnected.
pub open spec fn disconnect_listed(
    peers: Seq<PeerInfo>,
    addrs: Seq<SocketAddr>,
) -> Seq<PeerInfo> {
    peers.map_values(
        |p: PeerInfo| if addrs.contains(p.address) { p.to_disconnected() } else { p },
    )
}

/// The steps outside the peer book that disconnecting from the listed peers takes.
pub open spec fn closing_effects(
    peers: Seq<PeerInfo>,
    has_consensus: bool,
    addrs: Seq<SocketAddr>,
) -> Seq<Effect>
    decreases addrs.len(),
{
    if addrs.len() == 0 {
        Seq::empty()
    } else {
        closing_effects(peers, has_consensus, addrs.drop_last()) + disconnect_effects(
            peers,
            has_consensus,
            addrs.last(),
        )
    }
}

/// Connection attempts to the listed peers.
pub open spec fn connect_effects(addrs: Seq<SocketAddr>) -> Seq<Effect> {
    addrs.map_values(|a: SocketAddr| Effect::Connect(a))
}

/// Requests for peers, to the listed peers.
pub open spec fn getpeers_effects(addrs: Seq<SocketAddr>) -> Seq<Effect> {
    addrs.map_values(
        |a: SocketAddr|
            Effect::Send(Message { direction: Direction::Outbound(a), payload: Payload::GetPeers }),
    )
}

/// Pings to the listed peers, each recorded just before it is sent.
pub open spec fn ping_effects(addrs: Seq<SocketAddr>, height: u32) -> Seq<Effect>
    decreases addrs.len(),
{
    if addrs.len() == 0 {
        Seq::empty()
    } else {
        ping_effects(addrs.drop_last(), height) + seq![
            Effect::RecordPing(addrs.last()),
            Effect::Send(
                Message {
                    direction: Direction::Outbound(addrs.last()),
                    payload: Payload::Ping(height),
                },
            ),
        ]
    }
}

/// Selects the addresses that are not listed.
pub open spec fn not_listed(addrs: Seq<SocketAddr>) -> spec_fn(SocketAddr) -> bool {
    |a: SocketAddr| !addrs.contains(a)
}

/// All addresses in the order in which they are tried: the chosen ones first, then the others.
pub open spec fn dial_order(chosen: Seq<SocketAddr>, all: Seq<SocketAddr>) -> Seq<SocketAddr> {
    chosen + all.filter(not_listed(chosen))
}

/// The bootnodes that are not connected, in the order of the settings.
pub open spec fn missing_bootnodes(config: Config, peers: Seq<PeerInfo>) -> Seq<SocketAddr> {
    config.bootnodes@.filter(not_listed(connected_addrs(peers)))
}

/// One more element joins the filtered sequence where `pred` selects it.
pub proof fn lemma_filter_step(
    s: Seq<SocketAddr>,
    i: int,
    pred: spec_fn(SocketAddr) -> bool,
)
    requires
        0 <= i < s.len(),
    ensures
        s.take(i + 1).filter(pred) == if pred(s[i]) {
            s.take(i).filter(pred).push(s[i])
        } else {
            s.take(i).filter(pred)
        },
{
    reveal(Seq::filter);
    assert(s.take(i + 1).drop_last() =~= s.take(i));
}

/// A filtered sequence holds no element twice where the sequence does not.
proof fn lemma_filter_distinct(s: Seq<SocketAddr>, pred: spec_fn(SocketAddr) -> bool)
    requires
        s.no_duplicates(),
    ensures
        s.filter(pred).no_duplicates(),
    decreases s.len(),
{
    reveal(Seq::filter);
    if s.len() > 0 {
        let rest = s.drop_last();
        lemma_filter_distinct(rest, pred);
        if rest.filter(pred).contains(s.last()) {
            rest.lemma_filter_contains_rev(pred, s.last());
        }
    }
}

/// Trying some of the addresses first changes only the order: all are tried, each once.
pub proof fn lemma_dial_order(chosen: Seq<SocketAddr>, all: Seq<SocketAddr>, amount: int)
    requires
        all.no_duplicates(),
        is_selection(chosen, all, amount),
    ensures
        dial_order(chosen, all).no_duplicates(),
        dial_order(chosen, all).len() == all.len(),
        forall|a: SocketAddr| #[trigger]
            dial_order(chosen, all).contains(a) <==> all.contains(a),
{
    let pred = not_listed(chosen);
    let others = all.filter(pred);
    let order = dial_order(chosen, all);
    law_selection(chosen, all, amount);
    lemma_filter_distinct(all, pred);
    assert forall|k: int| 0 <= k < others.len() implies !chosen.contains(#[trigger] others[k]) by {
        all.lemma_filter_pred(pred, k);
    }
    assert(order.no_duplicates()) by {
        assert forall|k: int, l: int| 0 <= k < l < order.len() implies order[k] != order[l] by {
            if k < chosen.len() && chosen.len() <= l {
                assert(order[l] == others[l - chosen.len()]);
                assert(chosen.contains(order[k]));
            }
        }
    }
    assert forall|a: SocketAddr| #[trigger] order.contains(a) <==> all.contains(a) by {
        if order.contains(a) {
            let k = choose|k: int| 0 <= k < order.len() && order[k] == a;
            if k < chosen.len() {
                assert(chosen.contains(a));
            } else {
                assert(others[k - chosen.len()] == a);
                assert(others.contains(a));
                all.lemma_filter_contains_rev(pred, a);
            }
        }
        if all.contains(a) {
            if chosen.contains(a) {
                let k = choose|k: int| 0 <= k < chosen.len() && chosen[k] == a;
                assert(order[k] == a);
            } else {
                let i = choose|i: int| 0 <= i < all.len() && all[i] == a;
                all.lemma_filter_contains(pred, i);
                let k = choose|k: int| 0 <= k < others.len() && others[k] == a;
                assert(order[chosen.len() + k] == a);
            }
        }
    }
    order.unique_seq_to_set();
    all.unique_seq_to_set();
    assert(order.to_set() =~= all.to_set());
}

/// Disconnecting from one more peer, which is known and not in the list yet.
pub proof fn lemma_disconnect_one_more(
    peers: Seq<PeerInfo>,
    has_consensus: bool,
    addrs: Seq<SocketAddr>,
    a: SocketAddr,
)
    requires
        known(peers, a),
        !addrs.contains(a),
    ensures
        disconnected(disconnect_listed(peers, addrs), a) == disconnect_listed(
            peers,
            addrs.push(a),
        ),
        disconnect_effects(disconnect_listed(peers, addrs), has_consensus, a)
            == disconnect_effects(peers, has_consensus, a),
{
    let before = disconnect_listed(peers, addrs);
    let i = choose|i: int| 0 <= i < peers.len() && (#[trigger] peers[i]).address == a;
    assert(before[i].address == a);
    assert(known(before, a));
    assert forall|x: SocketAddr| #[trigger] addrs.push(a).contains(x) <==> addrs.contains(x) || x
        == a by {
        if addrs.contains(x) {
            let k = choose|k: int| 0 <= k < addrs.len() && addrs[k] == x;
            assert(addrs.push(a)[k] == x);
        }
        if x == a {
            assert(addrs.push(a)[addrs.len() as int] == x);
        }
    }
    assert(disconnected(before, a) =~= disconnect_listed(peers, addrs.push(a)));
    if syncing(peers, a) {
        let j = choose|j: int|
            0 <= j < peers.len() && (#[trigger] peers[j]).address == a && peers[j].status
                == PeerStatus::Connected && peers[j].quality.syncing_blocks;
        assert(before[j] == peers[j]);
    }
    if syncing(before, a) {
        let j = choose|j: int|
            0 <= j < before.len() && (#[trigger] before[j]).address == a && before[j].status
                == PeerStatus::Connected && before[j].quality.syncing_blocks;
        assert(before[j] == peers[j]);
    }
}

/// Disconnecting from the peers that a selection lists is disconnecting from the selected peers.
pub proof fn lemma_disconnect_selected(peers: Seq<PeerInfo>, pred: spec_fn(PeerInfo) -> bool)
    requires
        distinct(peers),
    ensures
        disconnect_listed(peers, addrs_where(peers, pred)) == disconnect_where(peers, pred),
{
    let addrs = addrs_where(peers, pred);
    assert forall|i: int| 0 <= i < peers.len() implies (addrs.contains(
        (#[trigger] peers[i]).address,
    ) <==> pred(peers[i])) by {
        lemma_addrs_where_contains(peers, pred, peers[i].address);
        lemma_only_place(peers, i);
    }
    assert(disconnect_listed(peers, addrs) =~= disconnect_where(peers, pred));
}

impl Node {
    /// Disconnects from the listed peers, one after another.
    fn disconnect_all(&mut self, addrs: &Vec<SocketAddr>, effects: &mut Vec<Effect>)
        requires
            old(self).wf(),
            addrs@.no_duplicates(),
            forall|k: int| 0 <= k < addrs@.len() ==> known(old(self).peer_book@, #[trigger] addrs@[k]),
        ensures
            final(self).wf(),
            final(self).same_but_book(old(self)),
            final(self).peer_book@ == disconnect_listed(old(self).peer_book@, addrs@),
            final(effects)@ == old(effects)@ + closing_effects(
                old(self).peer_book@,
                old(self).consensus is Some,
                addrs@,
            ),
    {
        let ghost peers = self.peer_book@;
        let ghost has_consensus = self.consensus is Some;
        let mut i: usize = 0;
        assert(peers =~= disconnect_listed(peers, addrs@.take(0)));
        assert(effects@ =~= old(effects)@ + closing_effects(
            peers,
            has_consensus,
            addrs@.take(0),
        ));
        while i < addrs.len()
            invariant
                i <= addrs.len(),
                self.wf(),
                self.same_but_book(old(self)),
                has_consensus == (old(self).consensus is Some),
                addrs@.no_duplicates(),
                forall|k: int| 0 <= k < addrs@.len() ==> known(peers, #[trigger] addrs@[k]),
                self.peer_book@ == disconnect_listed(peers, addrs@.take(i as int)),
                effects@ == old(effects)@ + closing_effects(
                    peers,
                    has_consensus,
                    addrs@.take(i as int),
                ),
            decreases addrs.len() - i,
        {
            let a = addrs[i];
            proof {
                let done = addrs@.take(i as int);
                assert(!done.contains(a));
                assert(addrs@.take(i + 1) =~= done.push(a));
                assert(done.push(a).drop_last() =~= done);
                assert(known(peers, addrs@[i as int]));
                lemma_disconnect_one_more(peers, has_consensus, done, a);
            }
            let _ = self.disconnect_from_peer(a, effects);
            i += 1;
            assert(effects@ =~= old(effects)@ + closing_effects(
                peers,
                has_consensus,
                addrs@.take(i as int),
            ));
        }
        assert(addrs@.take(i as int) =~= addrs@);
    }
}

/// Writes down a connection attempt to each listed peer.
pub fn connect_all(addrs: &Vec<SocketAddr>) -> (r: Vec<Effect>)
    ensures
        r@ == connect_effects(addrs@),
{
    let mut effects: Vec<Effect> = Vec::new();
    let mut i: usize = 0;
    while i < addrs.len()
        invariant
            i <= addrs.len(),
            effects@ =~= connect_effects(addrs@.take(i as int)),
        decreases addrs.len() - i,
    {
        effects.push(Effect::Connect(addrs[i]));
        i += 1;
    }
    assert(addrs@.take(i as int) =~= addrs@);
    effects
}

/// Tells whether an address is listed.
fn is_listed(addrs: &Vec<SocketAddr>, address: SocketAddr) -> (r: bool)
    ensures
        r == addrs@.contains(address),
{
    let mut i: usize = 0;
    while i < addrs.len()
        invariant
            i <= addrs.len(),
            forall|j: int| 0 <= j < i ==> #[trigger] addrs@[j] != address,
        decreases addrs.len() - i,
    {
        if addrs[i] == address {
            return true;
        }
        i += 1;
    }
    false
}

/// Returns the addresses that are not listed.
fn unlisted(all: &Vec<SocketAddr>, listed: &Vec<SocketAddr>) -> (r: Vec<SocketAddr>)
    ensures
        r@ == all@.filter(not_listed(listed@)),
{
    let ghost pred = not_listed(listed@);
    let mut found: Vec<SocketAddr> = Vec::new();
    let mut i: usize = 0;
    proof {
        reveal(Seq::filter);
        assert(found@ =~= all@.take(0).filter(pred));
    }
    while i < all.len()
        invariant
            i <= all.len(),
            pred == not_listed(listed@),
            found@ == all@.take(i as int).filter(pred),
        decreases all.len() - i,
    {
        proof {
            lemma_filter_step(all@, i as int, pred);
        }
        if !is_listed(listed, all[i]) {
            found.push(all[i]);
        }
        i += 1;
    }
    assert(all@.take(i as int) =~= all@);
    found
}

impl Node {
    /// Returns the addresses of the connected peers whose round-trip time is too high or that have
    /// too many failures.
    pub fn low_quality_peers(&self) -> (r: Vec<SocketAddr>)
        ensures
            r@ == addrs_where(self.peer_book@, low_quality()),
    {
        let mut found: Vec<SocketAddr> = Vec::new();
        let mut i: usize = 0;
        let ghost peers = self.peer_book@;
        proof {
            reveal(Seq::filter);
            assert(found@ =~= addrs_where(peers.take(0), low_quality()));
        }
        while i < self.peer_book.peers.len()
            invariant
                peers == self.peer_book@,
                i <= peers.len(),
                found@ == addrs_where(peers.take(i as int), low_quality()),
            decreases peers.len() - i,
        {
            proof {
                lemma_addrs_where_step(peers, i as int, low_quality());
            }
            let p = self.peer_book.peers[i];
            if p.status == PeerStatus::Connected && (p.quality.rtt_ms > MAX_RTT_MS
                || p.quality.failures > MAX_FAILURES) {
                found.push(p.address);
            }
            i += 1;
        }
        assert(peers.take(i as int) =~= peers);
        found
    }

    /// Disconnects from the connected peers whose round-trip time is too high or that have too
    /// many failures.
    pub fn drop_low_quality_peers(&mut self) -> (effects: Vec<Effect>)
        requires
            old(self).wf(),
        ensures
            final(self).wf(),
            final(self).same_but_book(old(self)),
            final(self).peer_book@ == disconnect_where(old(self).peer_book@, low_quality()),
            effects@ == closing_effects(
                old(self).peer_book@,
                old(self).consensus is Some,
                addrs_where(old(self).peer_book@, low_quality()),
            ),
    {
        let ghost peers = self.peer_book@;
        let addrs = self.low_quality_peers();
        let mut effects: Vec<Effect> = Vec::new();
        proof {
            lemma_selected_known(peers, low_quality());
            lemma_disconnect_selected(peers, low_quality());
        }
        self.disconnect_all(&addrs, &mut effects);
        assert(Seq::<Effect>::empty() + effects@ =~= effects@);
        effects
    }

    /// Decides on connection attempts to the bootnodes of the network that are not connected.
    pub fn connect_to_bootnodes(&self) -> (effects: Vec<Effect>)
        ensures
            effects@ == connect_effects(missing_bootnodes(self.config, self.peer_book@)),
    {
        let connected_peers = self.connected_addrs();
        let missing = unlisted(&self.config.bootnodes, &connected_peers);
        connect_all(&missing)
    }

    /// Decides on a connection attempt to every disconnected peer: first to `count` of them, picked
    /// at random, and then to the others.
    pub fn connect_to_disconnected_peers(&self, count: usize) -> (effects: Vec<Effect>)
        requires
            self.wf(),
        ensures
            exists|chosen: Seq<SocketAddr>|
                is_selection(chosen, disconnected_addrs(self.peer_book@), count as int)
                    && effects@ == connect_effects(
                    #[trigger] dial_order(chosen, disconnected_addrs(self.peer_book@)),
                ),
            effects@.len() == disconnected_addrs(self.peer_book@).len(),
            forall|a: SocketAddr| #[trigger]
                effects@.contains(Effect::Connect(a)) <==> has_status(
                    self.peer_book@,
                    a,
                    PeerStatus::Disconnected,
                ),
            effects@.no_duplicates(),
    {
        let all = self.peer_book.disconnected_addrs();
        let mut order = pick(self.peer_book.disconnected_addrs(), count);
        let ghost chosen = order@;
        let mut others = unlisted(&all, &order);
        order.append(&mut others);
        proof {
            assert(order@ =~= dial_order(chosen, all@));
            lemma_addrs_where_distinct(self.peer_book@, with_status(PeerStatus::Disconnected));
            lemma_dial_order(chosen, all@, count as int);
            let effects = connect_effects(order@);
            assert forall|a: SocketAddr| #[trigger]
                effects.contains(Effect::Connect(a)) <==> has_status(
                    self.peer_book@,
                    a,
                    PeerStatus::Disconnected,
                ) by {
                lemma_addrs_where_contains(
                    self.peer_book@,
                    with_status(PeerStatus::Disconnected),
                    a,
                );
                if order@.contains(a) {
                    let k = choose|k: int| 0 <= k < order@.len() && order@[k] == a;
                    assert(effects[k] == Effect::Connect(a));
                }
                if effects.contains(Effect::Connect(a)) {
                    let k = choose|k: int|
                        0 <= k < effects.len() && effects[k] == Effect::Connect(a);
                    assert(order@[k] == a);
                }
            }
        }
        connect_all(&order)
    }

    /// Decides on a request for more peers to every connected peer.
    pub fn broadcast_getpeers_requests(&self) -> (effects: Vec<Effect>)
        ensures
            effects@ == getpeers_effects(connected_addrs(self.peer_book@)),
    {
        let addrs = self.connected_addrs();
        let mut effects: Vec<Effect> = Vec::new();
        let mut i: usize = 0;
        while i < addrs.len()
            invariant
                i <= addrs.len(),
                effects@ =~= getpeers_effects(addrs@.take(i as int)),
            decreases addrs.len() - i,
        {
            effects.push(
                Effect::Send(Message::new(Direction::Outbound(addrs[i]), Payload::GetPeers)),
            );
            i += 1;
        }
        assert(addrs@.take(i as int) =~= addrs@);
        effects
    }

    /// The block height that a ping tells: that of the consensus layer, or zero without one.
    pub open spec fn ping_height(&self) -> u32 {
        match self.consensus {
            Some(consensus) => consensus.current_block_height,
            None => 0,
        }
    }

    /// Decides on a ping to every connected peer.
    pub fn broadcast_pings(&self) -> (effects: Vec<Effect>)
        ensures
            effects@ == ping_effects(connected_addrs(self.peer_book@), self.ping_height()),
    {
        let current_block_height: u32 = match self.consensus {
            Some(consensus) => consensus.current_block_height,
            None => 0,
        };
        let addrs = self.connected_addrs();
        let mut effects: Vec<Effect> = Vec::new();
        let mut i: usize = 0;
        assert(effects@ =~= ping_effects(addrs@.take(0), current_block_height));
        while i < addrs.len()
            invariant
                i <= addrs.len(),
                effects@ == ping_effects(addrs@.take(i as int), current_block_height),
            decreases addrs.len() - i,
        {
            assert(addrs@.take(i + 1).drop_last() =~= addrs@.take(i as int));
            effects.push(Effect::RecordPing(addrs[i]));
            effects.push(
                Effect::Send(
                    Message::new(
                        Direction::Outbound(addrs[i]),
                        Payload::Ping(current_block_height),
                    ),
                ),
            );
            i += 1;
            assert(effects@ =~= ping_effects(addrs@.take(i as int), current_block_height));
        }
        assert(addrs@.take(i as int) =~= addrs@);
        effects
    }
}

/// Every selected address is in the book, once.
proof fn lemma_selected_known(peers: Seq<PeerInfo>, pred: spec_fn(PeerInfo) -> bool)
    requires
        distinct(peers),
    ensures
        addrs_where(peers, pred).no_duplicates(),
        forall|k: int|
            0 <= k < addrs_where(peers, pred).len() ==> known(
                peers,
                #[trigger] addrs_where(peers, pred)[k],
            ),
{
    let addrs = addrs_where(peers, pred);
    lemma_addrs_where_distinct(peers, pred);
    assert forall|k: int| 0 <= k < addrs.len() implies known(peers, #[trigger] addrs[k]) by {
        assert(addrs.contains(addrs[k]));
        lemma_addrs_where_contains(peers, pred, addrs[k]);
    }
}

/// How far a periodic update has come.
#[derive(Clone, Copy, Debug, PartialEq, Eq)]
pub enum UpdateStage {
    /// Nothing has been done.
    Start,
    /// Bad peers have been dropped and new ones sought. The number is that of the peers that were
    /// connected when the update started.
    Maintain(usize),
    /// The update is over.
    Done,
}

/// A node with `count` connected peers looks for more: it is no bootnode and has too few.
pub open spec fn seeks_peers(config: Config, count: int) -> bool {
    !config.is_bootnode && count < config.minimum_number_of_connected_peers
}

/// How many connected peers a node that has `present` of them drops to keep to the permitted
/// number, if it had `count` when the update started.
pub open spec fn surplus(config: Config, count: int, present: int) -> int {
    let over = count - config.maximum_number_of_connected_peers;
    if over <= 0 {
        0
    } else if over <= present {
        over
    } else {
        present
    }
}

/// The steps by which a node looks for more peers: it tries the bootnodes that are not connected
/// and the disconnected peers, the chosen ones first, and asks every connected peer.
pub open spec fn seek_effects(
    config: Config,
    peers: Seq<PeerInfo>,
    chosen: Seq<SocketAddr>,
) -> Seq<Effect> {
    connect_effects(missing_bootnodes(config, peers)) + connect_effects(
        dial_order(chosen, disconnected_addrs(peers)),
    ) + getpeers_effects(connected_addrs(peers))
}

/// The first stage of an update: the peers of low quality go, and then, where there were too few
/// connected peers to begin with, the node looks for more. It tries as many disconnected peers as
/// are missing first, and those are picked at random.
pub open spec fn start_stage(pre: Node, post: Node, effects: Seq<Effect>) -> bool {
    let closing = closing_effects(
        pre.peer_book@,
        pre.consensus is Some,
        addrs_where(pre.peer_book@, low_quality()),
    );
    let count = pre.connected_count() as int;
    &&& post.same_but_book(&pre)
    &&& post.peer_book@ == disconnect_where(pre.peer_book@, low_quality())
    &&& if seeks_peers(pre.config, count) {
        exists|chosen: Seq<SocketAddr>|
            is_selection(
                chosen,
                disconnected_addrs(post.peer_book@),
                pre.config.minimum_number_of_connected_peers - count,
            ) && effects == closing + #[trigger] seek_effects(
                pre.config,
                post.peer_book@,
                chosen,
            )
    } else {
        effects == closing
    }
}

/// The book after the most recent surplus peers are gone and, on a bootnode, those that overstay.
pub open spec fn maintained(
    config: Config,
    peers: Seq<PeerInfo>,
    dropped: Seq<SocketAddr>,
    now: Timestamp,
) -> Seq<PeerInfo> {
    if config.is_bootnode {
        disconnect_where(disconnect_listed(peers, dropped), overstaying(now))
    } else {
        disconnect_listed(peers, dropped)
    }
}

/// The steps of the second stage: the surplus peers go, and on a bootnode those that overstay.
/// Then, if any peer was connected when the update started, the node pings every connected peer,
/// unless it is a bootnode, and saves the peer book.
pub open spec fn maintain_effects(
    pre: Node,
    count: int,
    dropped: Seq<SocketAddr>,
    now: Timestamp,
) -> Seq<Effect> {
    let has_consensus = pre.consensus is Some;
    let trimmed = disconnect_listed(pre.peer_book@, dropped);
    let closing = closing_effects(pre.peer_book@, has_consensus, dropped) + if pre.config.is_bootnode {
        closing_effects(trimmed, has_consensus, addrs_where(trimmed, overstaying(now)))
    } else {
        Seq::empty()
    };
    if count == 0 {
        closing
    } else if pre.config.is_bootnode {
        closing + seq![Effect::SavePeerBook]
    } else {
        closing + ping_effects(connected_addrs(trimmed), pre.ping_height()) + seq![
            Effect::SavePeerBook,
        ]
    }
}

/// The second stage of an update that started with `count` connected peers, at `now`.
pub open spec fn maintain_stage(
    pre: Node,
    count: int,
    now: Timestamp,
    post: Node,
    effects: Seq<Effect>,
) -> bool {
    &&& post.same_but_book(&pre)
    &&& exists|dropped: Seq<SocketAddr>|
        most_recent_first(
            pre.peer_book@,
            surplus(pre.config, count, pre.connected_count() as int),
            dropped,
        ) && post.peer_book@ == maintained(pre.config, pre.peer_book@, dropped, now) && effects
            == #[trigger] maintain_effects(pre, count, dropped, now)
}

/// The second stage of an update, at the time that the clock shows, whatever that is.
pub open spec fn maintain_stage_now(
    pre: Node,
    count: int,
    post: Node,
    effects: Seq<Effect>,
) -> bool {
    exists|now: Timestamp|
        now.valid() && #[trigger] maintain_stage(pre, count, now, post, effects)
}

/// A stage of an update takes the node from `pre` to `post`, and is followed by the stage `next`
/// once `effects` have been carried out.
pub open spec fn updates(
    pre: Node,
    stage: UpdateStage,
    post: Node,
    next: UpdateStage,
    effects: Seq<Effect>,
) -> bool {
    match stage {
        UpdateStage::Start => start_stage(pre, post, effects) && (
        next matches UpdateStage::Maintain(count) && count == pre.connected_count()),
        UpdateStage::Maintain(count) => maintain_stage_now(pre, count as int, post, effects) && next
            == UpdateStage::Done,
        UpdateStage::Done => post == pre && effects.len() == 0 && next == UpdateStage::Done,
    }
}

impl Node {
    /// Disconnects from the most recently connected peers, as many as there were too many when the
    /// update started, and returns which.
    fn drop_surplus_peers(
        &mut self,
        number_of_connected_peers: usize,
        effects: &mut Vec<Effect>,
    ) -> (dropped: Vec<SocketAddr>)
        requires
            old(self).wf(),
        ensures
            final(self).wf(),
            final(self).same_but_book(old(self)),
            most_recent_first(
                old(self).peer_book@,
                surplus(
                    old(self).config,
                    number_of_connected_peers as int,
                    old(self).connected_count() as int,
                ),
                dropped@,
            ),
            final(self).peer_book@ == disconnect_listed(old(self).peer_book@, dropped@),
            final(effects)@ == old(effects)@ + closing_effects(
                old(self).peer_book@,
                old(self).consensus is Some,
                dropped@,
            ),
    {
        let max_peers: usize = self.config.maximum_number_of_connected_peers as usize;
        let number_to_disconnect: usize = if number_of_connected_peers > max_peers {
            number_of_connected_peers - max_peers
        } else {
            0
        };
        let dropped = self.most_recent_peers(number_to_disconnect);
        proof {
            assert forall|k: int| 0 <= k < dropped@.len() implies known(
                self.peer_book@,
                #[trigger] dropped@[k],
            ) by {
                assert(has_status(self.peer_book@, dropped@[k], PeerStatus::Connected));
            }
        }
        self.disconnect_all(&dropped, effects);
        dropped
    }

    /// Returns the addresses of the peers that have been connected for too long to stay with a
    /// bootnode.
    pub fn overstaying_peers(&self, now: Timestamp) -> (r: Vec<SocketAddr>)
        requires
            self.wf(),
            now.valid(),
        ensures
            r@ == addrs_where(self.peer_book@, overstaying(now)),
    {
        let mut found: Vec<SocketAddr> = Vec::new();
        let mut i: usize = 0;
        let ghost peers = self.peer_book@;
        proof {
            reveal(Seq::filter);
            assert(found@ =~= addrs_where(peers.take(0), overstaying(now)));
        }
        while i < self.peer_book.peers.len()
            invariant
                self.wf(),
                now.valid(),
                peers == self.peer_book@,
                i <= peers.len(),
                found@ == addrs_where(peers.take(i as int), overstaying(now)),
            decreases peers.len() - i,
        {
            proof {
                lemma_addrs_where_step(peers, i as int, overstaying(now));
                assert(peers[i as int].wf());
            }
            let p = self.peer_book.peers[i];
            if p.status == PeerStatus::Connected {
                if let Some(last_connected) = p.last_connected {
                    if seconds_between(now, last_connected) > BOOTNODE_CONNECTION_SECS {
                        found.push(p.address);
                    }
                }
            }
            i += 1;
        }
        assert(peers.take(i as int) =~= peers);
        found
    }

    /// Disconnects from the peers that have been connected for too long to stay with a bootnode.
    fn drop_overstaying_peers(&mut self, now: Timestamp, effects: &mut Vec<Effect>)
        requires
            old(self).wf(),
            now.valid(),
        ensures
            final(self).wf(),
            final(self).same_but_book(old(self)),
            final(self).peer_book@ == disconnect_where(old(self).peer_book@, overstaying(now)),
            final(effects)@ == old(effects)@ + closing_effects(
                old(self).peer_book@,
                old(self).consensus is Some,
                addrs_where(old(self).peer_book@, overstaying(now)),
            ),
    {
        let ghost peers = self.peer_book@;
        let addrs = self.overstaying_peers(now);
        proof {
            lemma_selected_known(peers, overstaying(now));
            lemma_disconnect_selected(peers, overstaying(now));
        }
        self.disconnect_all(&addrs, effects);
    }

    /// The second stage of an update that started with the given number of connected peers, with
    /// the clock at `now`.
    pub fn maintain_peers(&mut self, number_of_connected_peers: usize, now: Timestamp) -> (effects:
        Vec<Effect>)
        requires
            old(self).wf(),
            now.valid(),
        ensures
            final(self).wf(),
            maintain_stage(
                *old(self),
                number_of_connected_peers as int,
                now,
                *final(self),
                effects@,
            ),
    {
        let ghost pre = *self;
        let mut effects: Vec<Effect> = Vec::new();
        let dropped = self.drop_surplus_peers(number_of_connected_peers, &mut effects);
        if self.config.is_bootnode {
            self.drop_overstaying_peers(now, &mut effects);
        }
        if number_of_connected_peers != 0 {
            if !self.config.is_bootnode {
                let mut pings = self.broadcast_pings();
                effects.append(&mut pings);
            }
            effects.push(Effect::SavePeerBook);
        }
        assert(effects@ =~= maintain_effects(
            pre,
            number_of_connected_peers as int,
            dropped@,
            now,
        ));
        effects
    }

    /// The first stage of an update.
    fn start_update(&mut self) -> (effects: Vec<Effect>)
        requires
            old(self).wf(),
        ensures
            final(self).wf(),
            start_stage(*old(self), *final(self), effects@),
    {
        let ghost pre = *self;
        let number_of_connected_peers: usize = self.peer_book.number_of_connected_peers();
        let mut effects = self.drop_low_quality_peers();
        let ghost closing = effects@;
        if !self.config.is_bootnode {
            let min_peers: usize = self.config.minimum_number_of_connected_peers as usize;
            if number_of_connected_peers < min_peers {
                let mut to_bootnodes = self.connect_to_bootnodes();
                effects.append(&mut to_bootnodes);
                let mut to_peers = self.connect_to_disconnected_peers(
                    min_peers - number_of_connected_peers,
                );
                let ghost attempts = to_peers@;
                effects.append(&mut to_peers);
                let mut requests = self.broadcast_getpeers_requests();
                effects.append(&mut requests);
                proof {
                    let chosen = choose|chosen: Seq<SocketAddr>|
                        is_selection(
                            chosen,
                            disconnected_addrs(self.peer_book@),
                            min_peers - number_of_connected_peers,
                        ) && attempts == connect_effects(
                            #[trigger] dial_order(chosen, disconnected_addrs(self.peer_book@)),
                        );
                    assert(effects@ =~= closing + seek_effects(
                        pre.config,
                        self.peer_book@,
                        chosen,
                    ));
                }
            }
        }
        effects
    }

    /// Takes a periodic update one stage further: decides which peers to drop, drops them from the
    /// peer book, and returns the next stage with what is to be carried out before it.
    pub fn update_peers(&mut self, stage: UpdateStage) -> (r: (UpdateStage, Vec<Effect>))
        requires
            old(self).wf(),
        ensures
            final(self).wf(),
            updates(*old(self), stage, *final(self), r.0, r.1@),
    {
        match stage {
            UpdateStage::Start => {
                let number_of_connected_peers: usize = self.peer_book.number_of_connected_peers();
                let effects = self.start_update();
                (UpdateStage::Maintain(number_of_connected_peers), effects)
            },
            UpdateStage::Maintain(number_of_connected_peers) => {
                let now = utc_now();
                let effects = self.maintain_peers(number_of_connected_peers, now);
                assert(maintain_stage_now(
                    *old(self),
                    number_of_connected_peers as int,
                    *self,
                    effects@,
                ));
                (UpdateStage::Done, effects)
            },
            UpdateStage::Done => (UpdateStage::Done, Vec::new()),
        }
    }
}

} // verus!
