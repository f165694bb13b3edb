//! Which of the connected peers were connected last.

use vstd::prelude::*;

use crate::addr::SocketAddr;
use crate::node::Node;
use crate::peer_book::{
    connected_addrs, distinct, has_status, lemma_addrs_where_step, lemma_only_place, with_status,
    PeerInfo, PeerStatus,
};
use crate::time::Timestamp;

verus! {

/// `dropped` are `count` connected peers, the most recently connected first, and no connected
/// peer that is left was connected later than any of them.
pub open spec fn most_recent_first(
    peers: Seq<PeerInfo>,
    count: int,
    dropped: Seq<SocketAddr>,
) -> bool {
    &&& dropped.len() == count
    &&& dropped.no_duplicates()
    &&& forall|k: int|
        0 <= k < dropped.len() ==> has_status(peers, #[trigger] dropped[k], PeerStatus::Connected)
    &&& forall|i: int, j: int|
        #![trigger peers[i], peers[j]]
        0 <= i < peers.len() && 0 <= j < peers.len() && peers[i].status == PeerStatus::Connected
            && peers[j].status == PeerStatus::Connected && dropped.contains(peers[i].address)
            && !dropped.contains(peers[j].address)
            ==> peers[j].last_connected->0.no_later_than(peers[i].last_connected->0)
    &&& forall|i: int, j: int, k: int, l: int|
        #![trigger peers[i], peers[j], dropped[k], dropped[l]]
        0 <= i < peers.len() && 0 <= j < peers.len() && 0 <= k < l < dropped.len()
            && peers[i].address == dropped[k] && peers[j].address == dropped[l]
            ==> peers[j].last_connected->0.no_later_than(peers[i].last_connected->0)
}

/// The peers in `entries` are listed by the time of their last connection, the earliest first.
spec fn by_time(entries: Seq<(SocketAddr, Timestamp)>) -> bool {
    forall|k: int, l: int|
        0 <= k < l < entries.len() ==> (#[trigger] entries[k]).1.no_later_than(
            (#[trigger] entries[l]).1,
        )
}

/// `entry` is one of the first `n` records of the book, and connected.
spec fn is_entry(peers: Seq<PeerInfo>, n: int, entry: (SocketAddr, Timestamp)) -> bool {
    exists|i: int|
        0 <= i < n && (#[trigger] peers[i]).address == entry.0 && peers[i].status
            == PeerStatus::Connected && peers[i].last_connected == Some(entry.1)
}

/// `entries` are the connected peers among the first `n` records of the book, by time.
spec fn lists_connected(
    peers: Seq<PeerInfo>,
    n: int,
    entries: Seq<(SocketAddr, Timestamp)>,
) -> bool {
    &&& by_time(entries)
    &&& entries.len() == connected_addrs(peers.take(n)).len()
    &&& forall|k: int| 0 <= k < entries.len() ==> is_entry(peers, n, #[trigger] entries[k])
    &&& forall|i: int|
        0 <= i < n && (#[trigger] peers[i]).status == PeerStatus::Connected ==> entries.contains(
            (peers[i].address, peers[i].last_connected->0),
        )
    &&& forall|k: int, l: int|
        0 <= k < l < entries.len() ==> (#[trigger] entries[k]).0 != (#[trigger] entries[l]).0
}

/// Inserts an entry behind every entry that is no later.
fn insert_by_time(entries: &mut Vec<(SocketAddr, Timestamp)>, entry: (SocketAddr, Timestamp))
    requires
        by_time(old(entries)@),
    ensures
        by_time(final(entries)@),
        exists|at: int|
            0 <= at <= old(entries)@.len() && final(entries)@ == #[trigger] old(entries)@.insert(
                at,
                entry,
            ),
{
    let mut at: usize = entries.len();
    while at > 0 && !entries[at - 1].1.is_no_later_than(entry.1)
        invariant
            at <= entries@.len(),
            forall|k: int|
                at <= k < entries@.len() ==> !(#[trigger] entries@[k]).1.no_later_than(entry.1),
        decreases at,
    {
        at -= 1;
    }
    let ghost before = entries@;
    entries.insert(at, entry);
    proof {
        let after = before.insert(at as int, entry);
        assert forall|k: int, l: int| 0 <= k < l < after.len() implies (
        #[trigger] after[k]).1.no_later_than((#[trigger] after[l]).1) by {
            let k0 = if k < at { k } else { k - 1 };
            let l0 = if l < at { l } else { l - 1 };
            if k != at && l != at {
                assert(before[k0].1.no_later_than(before[l0].1));
            } else if k == at {
                assert(!before[l0].1.no_later_than(entry.1));
            } else {
                assert(before[k0] == after[k]);
                if k < at - 1 {
                    assert(before[k].1.no_later_than(before[at - 1].1));
                }
            }
        }
    }
}

/// The list of the connected peers grows by one.
proof fn lemma_lists_one_more(
    peers: Seq<PeerInfo>,
    n: int,
    entries: Seq<(SocketAddr, Timestamp)>,
    at: int,
)
    requires
        distinct(peers),
        0 <= n < peers.len(),
        peers[n].status == PeerStatus::Connected,
        peers[n].last_connected is Some,
        lists_connected(peers, n, entries),
        0 <= at <= entries.len(),
        by_time(entries.insert(at, (peers[n].address, peers[n].last_connected->0))),
    ensures
        lists_connected(
            peers,
            n + 1,
            entries.insert(at, (peers[n].address, peers[n].last_connected->0)),
        ),
{
    let entry = (peers[n].address, peers[n].last_connected->0);
    let after = entries.insert(at, entry);
    lemma_addrs_where_step(peers, n, with_status(PeerStatus::Connected));
    assert forall|k: int| 0 <= k < after.len() implies is_entry(
        peers,
        n + 1,
        #[trigger] after[k],
    ) by {
        if k == at {
            assert(peers[n].address == entry.0);
        } else {
            let k0 = if k < at { k } else { k - 1 };
            assert(is_entry(peers, n, entries[k0]));
        }
    }
    assert forall|i: int|
        0 <= i < n + 1 && (#[trigger] peers[i]).status
            == PeerStatus::Connected implies after.contains(
        (peers[i].address, peers[i].last_connected->0),
    ) by {
        if i == n {
            assert(after[at] == entry);
        } else {
            let e = (peers[i].address, peers[i].last_connected->0);
            assert(entries.contains(e));
            let k = choose|k: int| 0 <= k < entries.len() && entries[k] == e;
            let k1 = if k < at { k } else { k + 1 };
            assert(after[k1] == e);
        }
    }
    assert forall|k: int, l: int| 0 <= k < l < after.len() implies (#[trigger] after[k]).0 != (
    #[trigger] after[l]).0 by {
        let k0 = if k < at { k } else { k - 1 };
        let l0 = if l < at { l } else { l - 1 };
        lemma_only_place(peers, n);
        if k == at {
            assert(is_entry(peers, n, entries[l0]));
        } else if l == at {
            assert(is_entry(peers, n, entries[k0]));
        } else {
            assert(entries[k0].0 != entries[l0].0);
        }
    }
}

/// The last entries of the list, taken from its end, are the most recently connected peers.
proof fn lemma_last_are_most_recent(
    peers: Seq<PeerInfo>,
    entries: Seq<(SocketAddr, Timestamp)>,
    dropped: Seq<SocketAddr>,
)
    requires
        distinct(peers),
        lists_connected(peers, peers.len() as int, entries),
        dropped.len() <= entries.len(),
        forall|k: int|
            0 <= k < dropped.len() ==> #[trigger] dropped[k] == entries[entries.len() - 1 - k].0,
    ensures
        most_recent_first(peers, dropped.len() as int, dropped),
{
    let n = entries.len();
    assert forall|k: int| 0 <= k < dropped.len() implies has_status(
        peers,
        #[trigger] dropped[k],
        PeerStatus::Connected,
    ) by {
        assert(is_entry(peers, peers.len() as int, entries[n - 1 - k]));
    }
    assert forall|k: int, l: int| 0 <= k < dropped.len() && 0 <= l < dropped.len() && k
        != l implies dropped[k] != dropped[l] by {
        if k < l {
            assert(entries[n - 1 - l].0 != entries[n - 1 - k].0);
        } else {
            assert(entries[n - 1 - k].0 != entries[n - 1 - l].0);
        }
    }
    assert forall|i: int, k: int|
        0 <= i < peers.len() && 0 <= k < dropped.len() && (#[trigger] peers[i]).address == (
        #[trigger] dropped[k]) implies peers[i].last_connected == Some(entries[n - 1 - k].1) by {
        assert(is_entry(peers, peers.len() as int, entries[n - 1 - k]));
        lemma_only_place(peers, i);
    }
    assert forall|i: int, j: int|
        #![trigger peers[i], peers[j]]
        0 <= i < peers.len() && 0 <= j < peers.len() && peers[i].status == PeerStatus::Connected
            && peers[j].status == PeerStatus::Connected && dropped.contains(peers[i].address)
            && !dropped.contains(
            peers[j].address,
        ) implies peers[j].last_connected->0.no_later_than(peers[i].last_connected->0) by {
        let k = choose|k: int| 0 <= k < dropped.len() && dropped[k] == peers[i].address;
        assert(peers[i].last_connected == Some(entries[n - 1 - k].1));
        let e = (peers[j].address, peers[j].last_connected->0);
        assert(entries.contains(e));
        let l = choose|l: int| 0 <= l < entries.len() && entries[l] == e;
        if l >= n - dropped.len() {
            assert(dropped[n - 1 - l] == peers[j].address);
        }
        assert(entries[l].1.no_later_than(entries[n - 1 - k].1));
    }
    assert forall|i: int, j: int, k: int, l: int|
        #![trigger peers[i], peers[j], dropped[k], dropped[l]]
        0 <= i < peers.len() && 0 <= j < peers.len() && 0 <= k < l < dropped.len()
            && peers[i].address == dropped[k] && peers[j].address
            == dropped[l] implies peers[j].last_connected->0.no_later_than(
        peers[i].last_connected->0,
    ) by {
        assert(peers[i].last_connected == Some(entries[n - 1 - k].1));
        assert(peers[j].last_connected == Some(entries[n - 1 - l].1));
        assert(entries[n - 1 - l].1.no_later_than(entries[n - 1 - k].1));
    }
}

impl Node {
    /// Returns the `count` most recently connected peers, the latest first, or all connected peers
    /// where there are not so many. The order of peers that were connected at the same time is
    /// open.
    pub fn most_recent_peers(&self, count: usize) -> (dropped: Vec<SocketAddr>)
        requires
            self.wf(),
        ensures
            most_recent_first(
                self.peer_book@,
                if count <= self.connected_count() {
                    count as int
                } else {
                    self.connected_count() as int
                },
                dropped@,
            ),
    {
        let ghost peers = self.peer_book@;
        let mut connected: Vec<(SocketAddr, Timestamp)> = Vec::new();
        let mut i: usize = 0;
        proof {
            reveal(Seq::filter);
            assert(connected_addrs(peers.take(0)).len() == 0);
        }
        while i < self.peer_book.peers.len()
            invariant
                self.wf(),
                peers == self.peer_book@,
                i <= peers.len(),
                lists_connected(peers, i as int, connected@),
            decreases peers.len() - i,
        {
            let p = self.peer_book.peers[i];
            let ghost before = connected@;
            if p.status == PeerStatus::Connected {
                assert(peers[i as int].wf());
                if let Some(time) = p.last_connected {
                    insert_by_time(&mut connected, (p.address, time));
                    proof {
                        let at = choose|at: int|
                            0 <= at <= before.len() && connected@ == #[trigger] before.insert(
                                at,
                                (p.address, time),
                            );
                        lemma_lists_one_more(peers, i as int, before, at);
                    }
                }
            } else {
                proof {
                    lemma_addrs_where_step(peers, i as int, with_status(PeerStatus::Connected));
                    assert forall|k: int| 0 <= k < before.len() implies is_entry(
                        peers,
                        i + 1,
                        #[trigger] before[k],
                    ) by {
                        assert(is_entry(peers, i as int, before[k]));
                    }
                }
            }
            i += 1;
        }
        let ghost entries = connected@;
        assert(peers.take(i as int) =~= peers);
        let mut dropped: Vec<SocketAddr> = Vec::new();
        while dropped.len() < count && connected.len() > 0
            invariant
                connected@.len() + dropped@.len() == entries.len(),
                dropped@.len() <= count,
                connected@ == entries.take(connected@.len() as int),
                forall|k: int|
                    0 <= k < dropped@.len() ==> #[trigger] dropped@[k] == entries[entries.len() - 1
                        - k].0,
            decreases connected@.len(),
        {
            if let Some(entry) = connected.pop() {
                dropped.push(entry.0);
                assert(connected@ =~= entries.take(connected@.len() as int));
            }
        }
        proof {
            lemma_last_are_most_recent(peers, entries, dropped@);
        }
        dropped
    }
}

} // verus!
