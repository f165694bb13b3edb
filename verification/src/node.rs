//! The node, and the start and the end of its connections.

use vstd::prelude::*;

use crate::addr::SocketAddr;
use crate::config::Config;
use crate::effect::Effect;
use crate::error::NetworkError;
use crate::handshake::{handshake_result, result_of, HandshakeEnd};
use crate::peer_book::{
    connected, connected_addrs, connecting, connecting_addrs, disconnected, has_status,
    lemma_disjoint_selections, pinged, syncing, with_status, PeerBook, PeerInfo, PeerStatus,
};
use crate::time::{utc_now, Timestamp};

verus! {

/// What the node knows of the consensus layer.
#[derive(Clone, Copy, Debug, PartialEq, Eq)]
pub struct Consensus {
    /// The height of the chain.
    pub current_block_height: u32,
}

/// A node: its settings, its own address once it listens, the consensus layer if it has one, and
/// its peer book.
#[derive(Clone, Debug, PartialEq, Eq)]
pub struct Node {
    /// The settings.
    pub config: Config,
    /// The address on which the node listens.
    pub local_address: Option<SocketAddr>,
    /// The consensus layer.
    pub consensus: Option<Consensus>,
    /// The peers.
    pub peer_book: PeerBook,
}

/// The steps that disconnecting from `address` takes outside the peer book.
pub open spec fn disconnect_effects(
    peers: Seq<PeerInfo>,
    has_consensus: bool,
    address: SocketAddr,
) -> Seq<Effect> {
    if has_consensus && syncing(peers, address) {
        seq![Effect::FinishedSyncingBlocks, Effect::CloseChannel(address)]
    } else {
        seq![Effect::CloseChannel(address)]
    }
}

/// The steps outside the peer book that the end of an attempt to connect to `address` takes: the
/// channel is kept where the attempt succeeded, and is given up where it failed.
pub open spec fn attempt_effects(
    peers: Seq<PeerInfo>,
    has_consensus: bool,
    address: SocketAddr,
    result: Result<(), NetworkError>,
) -> Seq<Effect> {
    match result {
        Ok(_) => seq![Effect::KeepChannel(address)],
        Err(_) => disconnect_effects(peers, has_consensus, address),
    }
}

/// The peer book once an attempt to connect to `address` is over: the peer is connected, since
/// some time that the clock has shown, or disconnected.
pub open spec fn attempt_outcome(
    peers: Seq<PeerInfo>,
    address: SocketAddr,
    result: Result<(), NetworkError>,
    after: Seq<PeerInfo>,
) -> bool {
    match result {
        Ok(_) => exists|now: Timestamp|
            now.valid() && after == #[trigger] connected(peers, address, now),
        Err(_) => after == disconnected(peers, address),
    }
}

impl Node {
    /// The peer book is well formed.
    pub open spec fn wf(&self) -> bool {
        self.peer_book.wf()
    }

    /// Only the peer book differs between the two nodes.
    pub open spec fn same_but_book(&self, other: &Node) -> bool {
        &&& self.config == other.config
        &&& self.local_address == other.local_address
        &&& self.consensus == other.consensus
    }

    /// The number of connected peers.
    pub open spec fn connected_count(&self) -> nat {
        connected_addrs(self.peer_book@).len()
    }

    /// The number of peers to which a connection is being set up.
    pub open spec fn connecting_count(&self) -> nat {
        connecting_addrs(self.peer_book@).len()
    }

    /// There is room for one more connection, with those being set up counted as made.
    pub open spec fn has_room(&self) -> bool {
        self.connected_count() + self.connecting_count()
            < self.config.maximum_number_of_connected_peers
    }

    /// `remote` leads back to a node that listens on `own`: it is the same address, or an address
    /// of this machine with the same port.
    pub open spec fn leads_back(own: SocketAddr, remote: SocketAddr) -> bool {
        ||| remote == own
        ||| (remote.spec_ip().unspecified() || remote.spec_ip().loopback()) && remote.spec_port()
            == own.spec_port()
    }

    /// Why the node will not connect to `remote`, if there is a reason. The first that applies
    /// counts.
    pub open spec fn refusal(&self, remote: SocketAddr) -> Option<NetworkError> {
        if !self.has_room() {
            Some(NetworkError::TooManyConnections)
        } else if Node::leads_back(self.local_address->0, remote) {
            Some(NetworkError::SelfConnectAttempt)
        } else if has_status(self.peer_book@, remote, PeerStatus::Connecting) {
            Some(NetworkError::PeerAlreadyConnecting)
        } else if has_status(self.peer_book@, remote, PeerStatus::Connected) {
            Some(NetworkError::PeerAlreadyConnected)
        } else {
            None
        }
    }

    /// Starting to connect to `remote` takes the node from `self` to `post` and gives `r`.
    pub open spec fn initiates(
        &self,
        remote: SocketAddr,
        r: Result<(), NetworkError>,
        post: &Node,
    ) -> bool {
        &&& post.same_but_book(self)
        &&& match self.refusal(remote) {
            Some(e) => r == Err::<(), NetworkError>(e) && post.peer_book@ == self.peer_book@,
            None => r is Ok && post.peer_book@ == connecting(self.peer_book@, remote),
        }
    }

    /// Disconnecting from `remote` takes the node from `self` to `post`, and what is left to do
    /// outside the peer book from `before` to `after`.
    pub open spec fn disconnects(
        &self,
        remote: SocketAddr,
        post: &Node,
        before: Seq<Effect>,
        after: Seq<Effect>,
    ) -> bool {
        &&& post.same_but_book(self)
        &&& post.peer_book@ == disconnected(self.peer_book@, remote)
        &&& after == before + disconnect_effects(
            self.peer_book@,
            self.consensus is Some,
            remote,
        )
    }

    /// The end of an attempt to connect to `remote` takes the node from `self` to `post`, gives `r`,
    /// and takes what is left to do outside the peer book from `before` to `after`.
    pub open spec fn ends_attempt(
        &self,
        remote: SocketAddr,
        end: HandshakeEnd,
        r: Result<(), NetworkError>,
        post: &Node,
        before: Seq<Effect>,
        after: Seq<Effect>,
    ) -> bool {
        &&& r == result_of(end)
        &&& post.same_but_book(self)
        &&& attempt_outcome(self.peer_book@, remote, result_of(end), post.peer_book@)
        &&& after == before + attempt_effects(
            self.peer_book@,
            self.consensus is Some,
            remote,
            result_of(end),
        )
    }

    /// Creates a node that knows no peers.
    pub fn new(
        config: Config,
        local_address: Option<SocketAddr>,
        consensus: Option<Consensus>,
    ) -> (r: Node)
        ensures
            r.wf(),
            r.config == config,
            r.local_address == local_address,
            r.consensus == consensus,
            r.peer_book@ == Seq::<PeerInfo>::empty(),
    {
        Node { config, local_address, consensus, peer_book: PeerBook::new() }
    }

    /// Returns the addresses of the connected peers.
    pub fn connected_addrs(&self) -> (r: Vec<SocketAddr>)
        ensures
            r@ == connected_addrs(self.peer_book@),
    {
        self.peer_book.connected_addrs()
    }

    /// Tells whether there is room for one more connection.
    pub fn can_connect(&self) -> (r: bool)
        ensures
            r == self.has_room(),
    {
        let num_connected: usize = self.peer_book.number_of_connected_peers();
        let num_connecting: usize = self.peer_book.number_of_connecting_peers();
        let max_peers: usize = self.config.maximum_number_of_connected_peers as usize;
        proof {
            lemma_disjoint_selections(
                self.peer_book@,
                with_status(PeerStatus::Connected),
                with_status(PeerStatus::Connecting),
            );
            assert(self.peer_book@.len() == self.peer_book.peers.len());
        }
        !(num_connected >= max_peers || num_connected + num_connecting >= max_peers)
    }

    /// Starts to connect to `remote_address`: either marks the peer as being connected to, or
    /// refuses and changes nothing. The own address must be known by now.
    pub fn initiate_connection(&mut self, remote_address: SocketAddr) -> (r: Result<
        (),
        NetworkError,
    >)
        requires
            old(self).wf(),
            old(self).local_address is Some,
        ensures
            final(self).wf(),
            old(self).initiates(remote_address, r, final(self)),
    {
        let own_address = self.local_address.unwrap();
        if !self.can_connect() {
            return Err(NetworkError::TooManyConnections);
        }
        if remote_address == own_address || ((remote_address.ip().is_unspecified()
            || remote_address.ip().is_loopback()) && remote_address.port() == own_address.port()) {
            return Err(NetworkError::SelfConnectAttempt);
        }
        if self.peer_book.is_connecting(remote_address) {
            return Err(NetworkError::PeerAlreadyConnecting);
        }
        if self.peer_book.is_connected(remote_address) {
            return Err(NetworkError::PeerAlreadyConnected);
        }
        self.peer_book.set_connecting(remote_address)
    }

    /// Records that the handshake with `remote_address` succeeded at `now`.
    pub fn connection_established(&mut self, remote_address: SocketAddr, now: Timestamp)
        requires
            old(self).wf(),
            now.valid(),
        ensures
            final(self).wf(),
            final(self).same_but_book(old(self)),
            final(self).peer_book@ == connected(
                old(self).peer_book@,
                remote_address,
                now,
            ),
    {
        self.peer_book.set_connected(remote_address, now)
    }

    /// Records that the handshake with `remote_address` has just succeeded. When that was is open:
    /// it is what the clock shows.
    pub fn complete_connection(&mut self, remote_address: SocketAddr)
        requires
            old(self).wf(),
        ensures
            final(self).wf(),
            final(self).same_but_book(old(self)),
            exists|now: Timestamp|
                now.valid() && final(self).peer_book@ == #[trigger] connected(
                    old(self).peer_book@,
                    remote_address,
                    now,
                ),
    {
        let now = utc_now();
        self.connection_established(remote_address, now)
    }

    /// Records that a ping goes out to `remote_address`. When that was is open: it is what the
    /// clock shows.
    pub fn sending_ping(&mut self, remote_address: SocketAddr)
        requires
            old(self).wf(),
        ensures
            final(self).wf(),
            final(self).same_but_book(old(self)),
            exists|now: Timestamp|
                now.valid() && final(self).peer_book@ == #[trigger] pinged(
                    old(self).peer_book@,
                    remote_address,
                    now,
                ),
    {
        let now = utc_now();
        self.peer_book.sending_ping(remote_address, now)
    }

    /// Disconnects from `remote_address`, and adds to `effects` what is left to do outside the
    /// peer book: the download of blocks from the peer ends, and its channel closes.
    pub fn disconnect_from_peer(
        &mut self,
        remote_address: SocketAddr,
        effects: &mut Vec<Effect>,
    ) -> (r: Result<(), NetworkError>)
        requires
            old(self).wf(),
        ensures
            r is Ok,
            final(self).wf(),
            old(self).disconnects(remote_address, final(self), old(effects)@, final(effects)@),
    {
        if self.consensus.is_some() && self.peer_book.is_syncing_blocks(remote_address) {
            effects.push(Effect::FinishedSyncingBlocks);
        }
        effects.push(Effect::CloseChannel(remote_address));
        assert(effects@ =~= old(effects)@ + disconnect_effects(
            old(self).peer_book@,
            old(self).consensus is Some,
            remote_address,
        ));
        self.peer_book.set_disconnected(remote_address)
    }

    /// Takes note of how an attempt to connect to `remote_address` ended, and adds to `effects` what
    /// is left to do outside the peer book. After a success the peer is connected and its channel
    /// is kept. After a failure, of which a refusal is one, the node disconnects from the peer.
    pub fn attempt_over(
        &mut self,
        remote_address: SocketAddr,
        end: HandshakeEnd,
        effects: &mut Vec<Effect>,
    ) -> (r: Result<(), NetworkError>)
        requires
            old(self).wf(),
        ensures
            final(self).wf(),
            old(self).ends_attempt(
                remote_address,
                end,
                r,
                final(self),
                old(effects)@,
                final(effects)@,
            ),
    {
        let result = handshake_result(end);
        match result {
            Ok(_) => {
                self.complete_connection(remote_address);
                effects.push(Effect::KeepChannel(remote_address));
                assert(effects@ =~= old(effects)@ + seq![Effect::KeepChannel(remote_address)]);
            },
            Err(_) => {
                let _ = self.disconnect_from_peer(remote_address, effects);
            },
        }
        result
    }
}

} // verus!
