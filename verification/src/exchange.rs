//! Telling other nodes of peers, and hearing of peers from them.

use vstd::prelude::*;

use crate::addr::SocketAddr;
use crate::effect::Effect;
use crate::message::{Direction, Message, Payload};
use crate::node::Node;
use crate::peer_book::{added, addrs_where, with_status_except, PeerInfo, PeerStatus};
use crate::random::{pick, is_selection};
use crate::update::lemma_filter_step;

verus! {

/// The steps by which a node answers a request for peers: it sends the chosen ones, and a
/// bootnode is then done with the peer and disconnects from it.
pub open spec fn answer_effects(
    is_bootnode: bool,
    remote_address: SocketAddr,
    chosen: Vec<SocketAddr>,
) -> Seq<Effect> {
    let answer = Effect::Send(
        Message {
            direction: Direction::Outbound(remote_address),
            payload: Payload::Peers(chosen),
        },
    );
    if is_bootnode {
        seq![answer, Effect::Disconnect(remote_address)]
    } else {
        seq![answer]
    }
}

/// Selects the addresses other than `address`.
pub open spec fn other_than(address: SocketAddr) -> spec_fn(SocketAddr) -> bool {
    |a: SocketAddr| a != address
}

/// The book with all the listed addresses in it, entered one after another.
pub open spec fn all_added(peers: Seq<PeerInfo>, addrs: Seq<SocketAddr>) -> Seq<PeerInfo>
    decreases addrs.len(),
{
    if addrs.len() == 0 {
        peers
    } else {
        added(all_added(peers, addrs.drop_last()), addrs.last())
    }
}

impl Node {
    /// The peers that a node may tell `remote_address` of: its connected peers, or, if it is a
    /// bootnode, its disconnected peers, in either case without the one that asks.
    pub open spec fn shareable(&self, remote_address: SocketAddr) -> Seq<SocketAddr> {
        addrs_where(
            self.peer_book@,
            with_status_except(
                if self.config.is_bootnode {
                    PeerStatus::Disconnected
                } else {
                    PeerStatus::Connected
                },
                remote_address,
            ),
        )
    }

    /// The addresses that an inbound list of peers adds to those that the node knows or will know:
    /// all but the node's own.
    pub open spec fn welcome(&self, inbound: Seq<SocketAddr>) -> Seq<SocketAddr> {
        inbound.filter(other_than(self.local_address->0))
    }

    /// Answering a request for peers of `remote_address` takes the steps `effects`.
    pub open spec fn answers(&self, remote_address: SocketAddr, effects: Seq<Effect>) -> bool {
        exists|chosen: Vec<SocketAddr>|
            is_selection(
                chosen@,
                self.shareable(remote_address),
                self.config.shared_peer_count as int,
            ) && effects == #[trigger] answer_effects(
                self.config.is_bootnode,
                remote_address,
                chosen,
            )
    }

    /// Hearing of the peers `inbound` takes the node from `self` to `post`.
    pub open spec fn takes_in(&self, inbound: Seq<SocketAddr>, post: &Node) -> bool {
        &&& post.same_but_book(self)
        &&& post.peer_book@ == all_added(self.peer_book@, self.welcome(inbound))
    }

    /// Returns the peers that the node may tell `remote_address` of.
    pub fn shareable_peers(&self, remote_address: SocketAddr) -> (r: Vec<SocketAddr>)
        ensures
            r@ == self.shareable(remote_address),
    {
        if !self.config.is_bootnode {
            self.peer_book.addrs_except(PeerStatus::Connected, remote_address)
        } else {
            self.peer_book.addrs_except(PeerStatus::Disconnected, remote_address)
        }
    }

    /// Answers a request for peers with the given ones.
    pub fn answer_with_peers(&self, remote_address: SocketAddr, peers: Vec<SocketAddr>) -> (effects:
        Vec<Effect>)
        ensures
            effects@ == answer_effects(self.config.is_bootnode, remote_address, peers),
    {
        let mut effects: Vec<Effect> = Vec::new();
        effects.push(
            Effect::Send(Message::new(Direction::Outbound(remote_address), Payload::Peers(peers))),
        );
        if self.config.is_bootnode {
            effects.push(Effect::Disconnect(remote_address));
        }
        effects
    }

    /// Answers a request for peers with some that are picked at random.
    pub fn send_peers(&self, remote_address: SocketAddr) -> (effects: Vec<Effect>)
        ensures
            self.answers(remote_address, effects@),
    {
        let peers = pick(
            self.shareable_peers(remote_address),
            self.config.shared_peer_count as usize,
        );
        self.answer_with_peers(remote_address, peers)
    }

    /// Enters all peers that another node has sent in the peer book, as far as they are new,
    /// without the node's own address. The own address must be known by now.
    pub fn process_inbound_peers(&mut self, peers: Vec<SocketAddr>)
        requires
            old(self).wf(),
            old(self).local_address is Some,
        ensures
            final(self).wf(),
            old(self).takes_in(peers@, final(self)),
    {
        let local_address = self.local_address.unwrap();
        let ghost pred = other_than(local_address);
        let ghost book = self.peer_book@;
        let mut i: usize = 0;
        proof {
            reveal(Seq::filter);
            assert(peers@.take(0).filter(pred) =~= Seq::empty());
        }
        while i < peers.len()
            invariant
                i <= peers.len(),
                self.wf(),
                self.same_but_book(old(self)),
                pred == other_than(local_address),
                self.peer_book@ == all_added(book, peers@.take(i as int).filter(pred)),
            decreases peers.len() - i,
        {
            proof {
                let before = peers@.take(i as int).filter(pred);
                lemma_filter_step(peers@, i as int, pred);
                assert(before.push(peers@[i as int]).drop_last() =~= before);
            }
            if peers[i] != local_address {
                self.peer_book.add_peer(peers[i]);
            }
            i += 1;
        }
        assert(peers@.take(i as int) =~= peers@);
    }
}

} // verus!
