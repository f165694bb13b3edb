//! The peer book: every peer that the node has heard of, and how it stands with each.

use vstd::prelude::*;

use crate::addr::SocketAddr;
use crate::error::NetworkError;
use crate::time::Timestamp;

verus! {

/// How the node stands with a peer.
#[derive(Clone, Copy, Debug, PartialEq, Eq, Structural)]
pub enum PeerStatus {
    /// A connection is being set up.
    Connecting,
    /// The peer is connected.
    Connected,
    /// The peer is known and not connected.
    Disconnected,
}

/// How well the connection to a peer works.
#[derive(Clone, Copy, Debug, PartialEq, Eq)]
pub struct PeerQuality {
    /// The round-trip time of the last ping, in milliseconds.
    pub rtt_ms: u64,
    /// The number of failures seen on the connection.
    pub failures: u32,
    /// The node is downloading blocks from the peer.
    pub syncing_blocks: bool,
    /// When the last ping was sent.
    pub last_ping_sent: Option<Timestamp>,
}

/// What the node knows of a peer.
#[derive(Clone, Copy, Debug, PartialEq, Eq)]
pub struct PeerInfo {
    /// Where the peer listens.
    pub address: SocketAddr,
    /// How the node stands with the peer.
    pub status: PeerStatus,
    /// When the peer was last connected.
    pub last_connected: Option<Timestamp>,
    /// How well the connection works.
    pub quality: PeerQuality,
}

/// The quality of a connection on which nothing has happened yet.
pub open spec fn fresh_quality() -> PeerQuality {
    PeerQuality { rtt_ms: 0, failures: 0, syncing_blocks: false, last_ping_sent: None }
}

impl PeerInfo {
    /// What is known of a peer of which only the address has been heard.
    pub open spec fn newcomer(address: SocketAddr) -> PeerInfo {
        PeerInfo {
            address,
            status: PeerStatus::Disconnected,
            last_connected: None,
            quality: fresh_quality(),
        }
    }

    /// The same peer while a connection is being set up.
    pub open spec fn to_connecting(self) -> PeerInfo {
        PeerInfo { status: PeerStatus::Connecting, ..self }
    }

    /// The same peer once it has been connected at `now`, with a fresh quality record.
    pub open spec fn to_connected(self, now: Timestamp) -> PeerInfo {
        PeerInfo {
            status: PeerStatus::Connected,
            last_connected: Some(now),
            quality: fresh_quality(),
            ..self
        }
    }

    /// The same peer once it has been disconnected.
    pub open spec fn to_disconnected(self) -> PeerInfo {
        PeerInfo { status: PeerStatus::Disconnected, ..self }
    }

    /// The same peer once a ping has gone out to it at `now`.
    pub open spec fn to_pinged(self, now: Timestamp) -> PeerInfo {
        PeerInfo { quality: PeerQuality { last_ping_sent: Some(now), ..self.quality }, ..self }
    }

    /// The times in the record lie within the calendar, and a connected peer has been connected
    /// at some time.
    pub open spec fn wf(self) -> bool {
        &&& self.last_connected matches Some(t) ==> t.valid()
        &&& self.status == PeerStatus::Connected ==> self.last_connected is Some
    }

    /// Creates the record of a peer of which only the address has been heard.
    pub fn new(address: SocketAddr) -> (r: PeerInfo)
        ensures
            r == PeerInfo::newcomer(address),
            r.wf(),
    {
        PeerInfo {
            address,
            status: PeerStatus::Disconnected,
            last_connected: None,
            quality: PeerQuality {
                rtt_ms: 0,
                failures: 0,
                syncing_blocks: false,
                last_ping_sent: None,
            },
        }
    }
}

/// `address` stands in the book.
pub open spec fn known(peers: Seq<PeerInfo>, address: SocketAddr) -> bool {
    exists|i: int| 0 <= i < peers.len() && (#[trigger] peers[i]).address == address
}

/// `address` stands in the book with the given status.
pub open spec fn has_status(peers: Seq<PeerInfo>, address: SocketAddr, status: PeerStatus) -> bool {
    exists|i: int|
        0 <= i < peers.len() && (#[trigger] peers[i]).address == address && peers[i].status
            == status
}

/// The node is downloading blocks from the connected peer at `address`.
pub open spec fn syncing(peers: Seq<PeerInfo>, address: SocketAddr) -> bool {
    exists|i: int|
        0 <= i < peers.len() && (#[trigger] peers[i]).address == address && peers[i].status
            == PeerStatus::Connected && peers[i].quality.syncing_blocks
}

/// No two records are of the same address.
pub open spec fn distinct(peers: Seq<PeerInfo>) -> bool {
    forall|i: int, j: int|
        0 <= i < j < peers.len() ==> (#[trigger] peers[i]).address != (#[trigger] peers[j]).address
}

/// Every record is well formed.
pub open spec fn all_wf(peers: Seq<PeerInfo>) -> bool {
    forall|i: int| 0 <= i < peers.len() ==> (#[trigger] peers[i]).wf()
}

/// The book with the record of `address` changed by `f`. An unknown address enters the book
/// first.
pub open spec fn modify(
    peers: Seq<PeerInfo>,
    address: SocketAddr,
    f: spec_fn(PeerInfo) -> PeerInfo,
) -> Seq<PeerInfo> {
    if known(peers, address) {
        peers.map_values(|p: PeerInfo| if p.address == address { f(p) } else { p })
    } else {
        peers.push(f(PeerInfo::newcomer(address)))
    }
}

/// The book with `address` marked as being connected to.
pub open spec fn connecting(peers: Seq<PeerInfo>, address: SocketAddr) -> Seq<PeerInfo> {
    modify(peers, address, |p: PeerInfo| p.to_connecting())
}

/// The book with `address` marked as connected since `now`.
pub open spec fn connected(
    peers: Seq<PeerInfo>,
    address: SocketAddr,
    now: Timestamp,
) -> Seq<PeerInfo> {
    modify(peers, address, |p: PeerInfo| p.to_connected(now))
}

/// The book with `address` marked as disconnected.
pub open spec fn disconnected(peers: Seq<PeerInfo>, address: SocketAddr) -> Seq<PeerInfo> {
    modify(peers, address, |p: PeerInfo| p.to_disconnected())
}

/// The book with `address` in it.
pub open spec fn added(peers: Seq<PeerInfo>, address: SocketAddr) -> Seq<PeerInfo> {
    if known(peers, address) {
        peers
    } else {
        peers.push(PeerInfo::newcomer(address))
    }
}

/// The book once a ping has gone out at `now` to `address`, where that peer is connected.
pub open spec fn pinged(
    peers: Seq<PeerInfo>,
    address: SocketAddr,
    now: Timestamp,
) -> Seq<PeerInfo> {
    peers.map_values(
        |p: PeerInfo|
            if p.address == address && p.status == PeerStatus::Connected {
                p.to_pinged(now)
            } else {
                p
            },
    )
}

/// Selects the peers with the given status.
pub open spec fn with_status(status: PeerStatus) -> spec_fn(PeerInfo) -> bool {
    |p: PeerInfo| p.status == status
}

/// Selects the peers with the given status whose address is not `address`.
pub open spec fn with_status_except(
    status: PeerStatus,
    address: SocketAddr,
) -> spec_fn(PeerInfo) -> bool {
    |p: PeerInfo| p.status == status && p.address != address
}

/// The addresses of the peers that `pred` selects, in the order of the book.
pub open spec fn addrs_where(
    peers: Seq<PeerInfo>,
    pred: spec_fn(PeerInfo) -> bool,
) -> Seq<SocketAddr> {
    peers.filter(pred).map_values(|p: PeerInfo| p.address)
}

/// The addresses of the connected peers, in the order of the book.
pub open spec fn connected_addrs(peers: Seq<PeerInfo>) -> Seq<SocketAddr> {
    addrs_where(peers, with_status(PeerStatus::Connected))
}

/// The addresses of the peers to which a connection is being set up, in the order of the book.
pub open spec fn connecting_addrs(peers: Seq<PeerInfo>) -> Seq<SocketAddr> {
    addrs_where(peers, with_status(PeerStatus::Connecting))
}

/// The addresses of the disconnected peers, in the order of the book.
pub open spec fn disconnected_addrs(peers: Seq<PeerInfo>) -> Seq<SocketAddr> {
    addrs_where(peers, with_status(PeerStatus::Disconnected))
}

/// One more record adds its address to the selection where `pred` selects it.
pub proof fn lemma_addrs_where_step(
    peers: Seq<PeerInfo>,
    i: int,
    pred: spec_fn(PeerInfo) -> bool,
)
    requires
        0 <= i < peers.len(),
    ensures
        addrs_where(peers.take(i + 1), pred) == if pred(peers[i]) {
            addrs_where(peers.take(i), pred).push(peers[i].address)
        } else {
            addrs_where(peers.take(i), pred)
        },
{
    reveal(Seq::filter);
    let s = peers.take(i + 1);
    assert(s.drop_last() =~= peers.take(i));
    assert(s.last() == peers[i]);
    assert(addrs_where(s, pred) =~= if pred(peers[i]) {
        addrs_where(peers.take(i), pred).push(peers[i].address)
    } else {
        addrs_where(peers.take(i), pred)
    });
}

/// An address is selected exactly where a record with it is.
pub proof fn lemma_addrs_where_contains(
    peers: Seq<PeerInfo>,
    pred: spec_fn(PeerInfo) -> bool,
    address: SocketAddr,
)
    ensures
        addrs_where(peers, pred).contains(address) <==> exists|i: int|
            0 <= i < peers.len() && (#[trigger] peers[i]).address == address && pred(peers[i]),
    decreases peers.len(),
{
    reveal(Seq::filter);
    let addrs = addrs_where(peers, pred);
    if peers.len() > 0 {
        let n = peers.len() - 1;
        let rest = peers.drop_last();
        assert(peers.take(n) =~= rest);
        assert(peers.take(n + 1) =~= peers);
        lemma_addrs_where_step(peers, n, pred);
        lemma_addrs_where_contains(rest, pred, address);
        let before = addrs_where(rest, pred);
        if addrs.contains(address) {
            let k = choose|k: int| 0 <= k < addrs.len() && addrs[k] == address;
            if k < before.len() {
                assert(before[k] == address);
                assert(before.contains(address));
                let i = choose|i: int|
                    0 <= i < rest.len() && (#[trigger] rest[i]).address == address && pred(rest[i]);
                assert(peers[i] == rest[i]);
            } else {
                assert(peers[n].address == address && pred(peers[n]));
            }
        }
        if exists|i: int|
            0 <= i < peers.len() && (#[trigger] peers[i]).address == address && pred(peers[i]) {
            let i = choose|i: int|
                0 <= i < peers.len() && (#[trigger] peers[i]).address == address && pred(peers[i]);
            if i < n {
                assert(rest[i] == peers[i]);
                assert(before.contains(address));
                let k = choose|k: int| 0 <= k < before.len() && before[k] == address;
                assert(addrs[k] == address);
            } else {
                assert(addrs[before.len() as int] == address);
            }
        }
    } else {
        assert(addrs.len() == 0);
    }
}

/// In a book without double records no address is selected twice.
pub proof fn lemma_addrs_where_distinct(peers: Seq<PeerInfo>, pred: spec_fn(PeerInfo) -> bool)
    requires
        distinct(peers),
    ensures
        addrs_where(peers, pred).no_duplicates(),
        addrs_where(peers, pred).len() <= peers.len(),
    decreases peers.len(),
{
    reveal(Seq::filter);
    if peers.len() > 0 {
        let n = peers.len() - 1;
        let rest = peers.drop_last();
        assert(peers.take(n) =~= rest);
        assert(peers.take(n + 1) =~= peers);
        lemma_addrs_where_step(peers, n, pred);
        lemma_addrs_where_distinct(rest, pred);
        lemma_addrs_where_contains(rest, pred, peers[n].address);
        assert(!addrs_where(rest, pred).contains(peers[n].address));
    }
}

/// Two selections that never meet hold no more addresses than the book has records.
pub proof fn lemma_disjoint_selections(
    peers: Seq<PeerInfo>,
    p: spec_fn(PeerInfo) -> bool,
    q: spec_fn(PeerInfo) -> bool,
)
    requires
        forall|x: PeerInfo| !(#[trigger] p(x) && #[trigger] q(x)),
    ensures
        addrs_where(peers, p).len() + addrs_where(peers, q).len() <= peers.len(),
    decreases peers.len(),
{
    reveal(Seq::filter);
    if peers.len() > 0 {
        let n = peers.len() - 1;
        let rest = peers.drop_last();
        assert(peers.take(n) =~= rest);
        assert(peers.take(n + 1) =~= peers);
        lemma_addrs_where_step(peers, n, p);
        lemma_addrs_where_step(peers, n, q);
        lemma_disjoint_selections(rest, p, q);
    }
}

/// Changing one record keeps the book well formed where the change keeps the address and leaves
/// the record well formed.
pub proof fn lemma_modify_wf(
    peers: Seq<PeerInfo>,
    address: SocketAddr,
    f: spec_fn(PeerInfo) -> PeerInfo,
)
    requires
        distinct(peers),
        all_wf(peers),
        forall|p: PeerInfo| (#[trigger] f(p)).address == p.address,
        forall|p: PeerInfo| p.wf() ==> (#[trigger] f(p)).wf(),
    ensures
        distinct(modify(peers, address, f)),
        all_wf(modify(peers, address, f)),
{
    let after = modify(peers, address, f);
    if known(peers, address) {
        assert forall|i: int, j: int| 0 <= i < j < after.len() implies (
        #[trigger] after[i]).address != (#[trigger] after[j]).address by {
            assert(peers[i].address != peers[j].address);
        }
        assert forall|i: int| 0 <= i < after.len() implies (#[trigger] after[i]).wf() by {
            assert(peers[i].wf());
        }
    } else {
        let p = PeerInfo::newcomer(address);
        assert(p.wf());
        assert forall|i: int, j: int| 0 <= i < j < after.len() implies (
        #[trigger] after[i]).address != (#[trigger] after[j]).address by {
            assert(peers[i].address != address);
            if j < peers.len() {
                assert(peers[i].address != peers[j].address);
            }
        }
        assert forall|i: int| 0 <= i < after.len() implies (#[trigger] after[i]).wf() by {
            if i < peers.len() {
                assert(peers[i].wf());
            }
        }
    }
}

/// In a book without double records an address stands in one place only.
pub proof fn lemma_only_place(peers: Seq<PeerInfo>, i: int)
    requires
        distinct(peers),
        0 <= i < peers.len(),
    ensures
        forall|j: int|
            0 <= j < peers.len() && j != i ==> (#[trigger] peers[j]).address != peers[i].address,
{
    assert forall|j: int| 0 <= j < peers.len() && j != i implies (#[trigger] peers[j]).address
        != peers[i].address by {
        if j < i {
            assert(peers[j].address != peers[i].address);
        } else {
            assert(peers[i].address != peers[j].address);
        }
    }
}

/// The peers that the node has heard of. No address is listed twice, and the time of the last
/// connection is on record for every connected peer.
#[derive(Clone, Debug, PartialEq, Eq)]
pub struct PeerBook {
    /// The records, in the order in which the peers were first heard of.
    pub peers: Vec<PeerInfo>,
}

impl View for PeerBook {
    type V = Seq<PeerInfo>;

    open spec fn view(&self) -> Seq<PeerInfo> {
        self.peers@
    }
}

impl PeerBook {
    /// No address is listed twice, and every record is well formed.
    pub open spec fn wf(&self) -> bool {
        &&& distinct(self@)
        &&& all_wf(self@)
    }

    /// Creates a book without peers.
    pub fn new() -> (r: PeerBook)
        ensures
            r@ == Seq::<PeerInfo>::empty(),
            r.wf(),
    {
        PeerBook { peers: Vec::new() }
    }

    /// Finds the record of an address.
    fn position(&self, address: SocketAddr) -> (r: Option<usize>)
        ensures
            match r {
                Some(i) => i < self@.len() && self@[i as int].address == address,
                None => !known(self@, address),
            },
    {
        let mut i: usize = 0;
        while i < self.peers.len()
            invariant
                i <= self.peers.len(),
                forall|j: int| 0 <= j < i ==> (#[trigger] self@[j]).address != address,
            decreases self.peers.len() - i,
        {
            if self.peers[i].address == address {
                return Some(i);
            }
            i += 1;
        }
        None
    }

    /// Tells whether `address` stands in the book with the given status.
    fn is_status(&self, address: SocketAddr, status: PeerStatus) -> (r: bool)
        requires
            self.wf(),
        ensures
            r == has_status(self@, address, status),
    {
        match self.position(address) {
            Some(i) => {
                proof {
                    lemma_only_place(self@, i as int);
                }
                self.peers[i].status == status
            },
            None => false,
        }
    }

    /// Tells whether a connection to `address` is being set up.
    pub fn is_connecting(&self, address: SocketAddr) -> (r: bool)
        requires
            self.wf(),
        ensures
            r == has_status(self@, address, PeerStatus::Connecting),
    {
        self.is_status(address, PeerStatus::Connecting)
    }

    /// Tells whether the peer at `address` is connected.
    pub fn is_connected(&self, address: SocketAddr) -> (r: bool)
        requires
            self.wf(),
        ensures
            r == has_status(self@, address, PeerStatus::Connected),
    {
        self.is_status(address, PeerStatus::Connected)
    }

    /// Tells whether the peer at `address` is known and not connected.
    pub fn is_disconnected(&self, address: SocketAddr) -> (r: bool)
        requires
            self.wf(),
        ensures
            r == has_status(self@, address, PeerStatus::Disconnected),
    {
        self.is_status(address, PeerStatus::Disconnected)
    }

    /// Returns the record of a connected peer.
    pub fn get_peer(&self, address: SocketAddr) -> (r: Result<PeerInfo, NetworkError>)
        requires
            self.wf(),
        ensures
            match r {
                Ok(p) => self@.contains(p) && p.address == address && p.status
                    == PeerStatus::Connected,
                Err(e) => e == NetworkError::PeerNotConnected && !has_status(
                    self@,
                    address,
                    PeerStatus::Connected,
                ),
            },
    {
        match self.position(address) {
            Some(i) => {
                if self.is_connected(address) {
                    proof {
                        let j = choose|j: int|
                            0 <= j < self@.len() && (#[trigger] self@[j]).address == address
                                && self@[j].status == PeerStatus::Connected;
                        lemma_only_place(self@, i as int);
                        assert(self@[i as int] == self@[j]);
                    }
                    Ok(self.peers[i])
                } else {
                    Err(NetworkError::PeerNotConnected)
                }
            },
            None => Err(NetworkError::PeerNotConnected),
        }
    }

    /// Tells whether the node is downloading blocks from the peer at `address`.
    pub fn is_syncing_blocks(&self, address: SocketAddr) -> (r: bool)
        requires
            self.wf(),
        ensures
            r == syncing(self@, address),
    {
        match self.get_peer(address) {
            Ok(p) => {
                proof {
                    let i = choose|i: int| 0 <= i < self@.len() && self@[i] == p;
                    lemma_only_place(self@, i as int);
                }
                p.quality.syncing_blocks
            },
            Err(_) => false,
        }
    }

    /// Returns the addresses of the peers with the given status.
    fn addrs(&self, status: PeerStatus) -> (r: Vec<SocketAddr>)
        ensures
            r@ == addrs_where(self@, with_status(status)),
    {
        let mut found: Vec<SocketAddr> = Vec::new();
        let mut i: usize = 0;
        let ghost pred = with_status(status);
        proof {
            reveal(Seq::filter);
            assert(found@ =~= addrs_where(self@.take(0), pred));
        }
        while i < self.peers.len()
            invariant
                i <= self.peers.len(),
                pred == with_status(status),
                found@ == addrs_where(self@.take(i as int), pred),
            decreases self.peers.len() - i,
        {
            proof {
                lemma_addrs_where_step(self@, i as int, pred);
            }
            if self.peers[i].status == status {
                found.push(self.peers[i].address);
            }
            i += 1;
        }
        assert(self@.take(i as int) =~= self@);
        found
    }

    /// Returns the addresses of the connected peers.
    pub fn connected_addrs(&self) -> (r: Vec<SocketAddr>)
        ensures
            r@ == connected_addrs(self@),
    {
        self.addrs(PeerStatus::Connected)
    }

    /// Returns the addresses of the disconnected peers.
    pub fn disconnected_addrs(&self) -> (r: Vec<SocketAddr>)
        ensures
            r@ == disconnected_addrs(self@),
    {
        self.addrs(PeerStatus::Disconnected)
    }

    /// Returns the number of connected peers.
    pub fn number_of_connected_peers(&self) -> (r: usize)
        ensures
            r == connected_addrs(self@).len(),
    {
        self.addrs(PeerStatus::Connected).len()
    }

    /// Returns the number of peers to which a connection is being set up.
    pub fn number_of_connecting_peers(&self) -> (r: usize)
        ensures
            r == connecting_addrs(self@).len(),
    {
        self.addrs(PeerStatus::Connecting).len()
    }

    /// Returns the addresses of the peers with the given status, without `address`.
    pub fn addrs_except(&self, status: PeerStatus, address: SocketAddr) -> (r: Vec<SocketAddr>)
        ensures
            r@ == addrs_where(self@, with_status_except(status, address)),
    {
        let mut found: Vec<SocketAddr> = Vec::new();
        let mut i: usize = 0;
        let ghost pred = with_status_except(status, address);
        proof {
            reveal(Seq::filter);
            assert(found@ =~= addrs_where(self@.take(0), pred));
        }
        while i < self.peers.len()
            invariant
                i <= self.peers.len(),
                pred == with_status_except(status, address),
                found@ == addrs_where(self@.take(i as int), pred),
            decreases self.peers.len() - i,
        {
            proof {
                lemma_addrs_where_step(self@, i as int, pred);
            }
            if self.peers[i].status == status && self.peers[i].address != address {
                found.push(self.peers[i].address);
            }
            i += 1;
        }
        assert(self@.take(i as int) =~= self@);
        found
    }

    /// Writes `record` in the place of the record of the same address, or behind the last one.
    fn put(&mut self, record: PeerInfo)
        requires
            old(self).wf(),
        ensures
            final(self)@ == modify(old(self)@, record.address, |p: PeerInfo| record),
    {
        match self.position(record.address) {
            Some(i) => {
                proof {
                    lemma_only_place(self@, i as int);
                }
                self.peers.set(i, record);
                assert(self@ =~= modify(old(self)@, record.address, |p: PeerInfo| record));
            },
            None => {
                self.peers.push(record);
            },
        }
    }

    /// Returns the record of `address`, or that of a newcomer where it is unknown.
    fn record(&self, address: SocketAddr) -> (r: PeerInfo)
        requires
            self.wf(),
        ensures
            r.address == address,
            r.wf(),
            known(self@, address) ==> self@.contains(r),
            !known(self@, address) ==> r == PeerInfo::newcomer(address),
    {
        match self.position(address) {
            Some(i) => self.peers[i],
            None => PeerInfo::new(address),
        }
    }

    /// Marks `address` as being connected to. Refuses a peer that is connected.
    pub fn set_connecting(&mut self, address: SocketAddr) -> (r: Result<(), NetworkError>)
        requires
            old(self).wf(),
        ensures
            final(self).wf(),
            match r {
                Ok(_) => !has_status(old(self)@, address, PeerStatus::Connected) && final(self)@
                    == connecting(old(self)@, address),
                Err(e) => e == NetworkError::PeerAlreadyConnected && has_status(
                    old(self)@,
                    address,
                    PeerStatus::Connected,
                ) && final(self)@ == old(self)@,
            },
    {
        if self.is_connected(address) {
            return Err(NetworkError::PeerAlreadyConnected);
        }
        let mut record = self.record(address);
        let ghost before = record;
        record.status = PeerStatus::Connecting;
        self.put(record);
        proof {
            let f = |p: PeerInfo| p.to_connecting();
            lemma_modify_of_record(old(self)@, before, f, record);
            lemma_modify_wf(old(self)@, address, f);
        }
        Ok(())
    }

    /// Marks `address` as connected since `now`.
    pub fn set_connected(&mut self, address: SocketAddr, now: Timestamp)
        requires
            old(self).wf(),
            now.valid(),
        ensures
            final(self).wf(),
            final(self)@ == connected(old(self)@, address, now),
    {
        let mut record = self.record(address);
        let ghost before = record;
        record.status = PeerStatus::Connected;
        record.last_connected = Some(now);
        record.quality =
        PeerQuality { rtt_ms: 0, failures: 0, syncing_blocks: false, last_ping_sent: None };
        self.put(record);
        proof {
            let f = |p: PeerInfo| p.to_connected(now);
            lemma_modify_of_record(old(self)@, before, f, record);
            lemma_modify_wf(old(self)@, address, f);
        }
    }

    /// Marks `address` as disconnected.
    pub fn set_disconnected(&mut self, address: SocketAddr) -> (r: Result<(), NetworkError>)
        requires
            old(self).wf(),
        ensures
            r is Ok,
            final(self).wf(),
            final(self)@ == disconnected(old(self)@, address),
    {
        let mut record = self.record(address);
        let ghost before = record;
        record.status = PeerStatus::Disconnected;
        self.put(record);
        proof {
            let f = |p: PeerInfo| p.to_disconnected();
            lemma_modify_of_record(old(self)@, before, f, record);
            lemma_modify_wf(old(self)@, address, f);
        }
        Ok(())
    }

    /// Enters `address` among the disconnected peers, unless it is known.
    pub fn add_peer(&mut self, address: SocketAddr)
        requires
            old(self).wf(),
        ensures
            final(self).wf(),
            final(self)@ == added(old(self)@, address),
    {
        if self.position(address).is_none() {
            self.peers.push(PeerInfo::new(address));
            proof {
                lemma_modify_wf(old(self)@, address, |p: PeerInfo| p);
            }
        }
    }

    /// Records that a ping goes out at `now` to `address`, where that peer is connected.
    pub fn sending_ping(&mut self, address: SocketAddr, now: Timestamp)
        requires
            old(self).wf(),
        ensures
            final(self).wf(),
            final(self)@ == pinged(old(self)@, address, now),
    {
        if self.is_connected(address) {
            let mut record = self.record(address);
            let ghost before = record;
            record.quality.last_ping_sent = Some(now);
            self.put(record);
            proof {
                let f = |p: PeerInfo| p.to_pinged(now);
                lemma_modify_of_record(old(self)@, before, f, record);
                lemma_modify_wf(old(self)@, address, f);
                let i = choose|i: int|
                    0 <= i < old(self)@.len() && (#[trigger] old(self)@[i]).address == address
                        && old(self)@[i].status == PeerStatus::Connected;
                lemma_only_place(old(self)@, i as int);
                assert(self@ =~= pinged(old(self)@, address, now));
            }
        } else {
            assert(self@ =~= pinged(old(self)@, address, now));
        }
    }
}

/// Putting the changed record of an address is changing the record of that address.
proof fn lemma_modify_of_record(
    peers: Seq<PeerInfo>,
    before: PeerInfo,
    f: spec_fn(PeerInfo) -> PeerInfo,
    after: PeerInfo,
)
    requires
        distinct(peers),
        known(peers, before.address) ==> peers.contains(before),
        !known(peers, before.address) ==> before == PeerInfo::newcomer(before.address),
        after == f(before),
    ensures
        modify(peers, before.address, |p: PeerInfo| after) == modify(peers, before.address, f),
{
    let address = before.address;
    if known(peers, address) {
        let i = choose|i: int| 0 <= i < peers.len() && peers[i] == before;
        lemma_only_place(peers, i as int);
        assert(modify(peers, address, |p: PeerInfo| after) =~= modify(peers, address, f));
    }
}

} // verus!
