//! What starting, ending and completing connections does, in terms of the records and the settings.

use vstd::prelude::*;

use crate::addr::{IpAddr, SocketAddr};
use crate::book_laws::{law_connected, law_connecting, law_disconnected, law_lists, law_pinged};
use crate::effect::Effect;
use crate::error::NetworkError;
use crate::handshake::{
    framed, law_sent_message_tells_length, overhead, own_version, Attempt, AttemptStage,
    AttemptStep, Handshake, HandshakeEnd, StreamEvent,
};
use crate::message::{lemma_version_round_trip, Version};
use crate::node::Node;
use crate::peer_book::{connected, connecting, pinged, PeerInfo, PeerQuality, PeerStatus};
use crate::time::Timestamp;

verus! {

/// The unspecified addresses are those with no bit set. The loopback addresses are those of IPv4
/// whose first byte is 127, and the one of IPv6 whose only bit is the last.
pub proof fn law_special_addresses(v4: u32, v6: u128)
    ensures
        IpAddr::V4(v4).unspecified() <==> v4 == 0,
        IpAddr::V6(v6).unspecified() <==> v6 == 0,
        IpAddr::V4(v4).loopback() <==> v4 / 0x100_0000 == 127,
        IpAddr::V6(v6).loopback() <==> v6 == 1,
{
}

/// The parts of an address are those that it was made of.
pub proof fn law_parts_of_address(v4: u32, v6: u128, port: u16, flowinfo: u32, scope_id: u32)
    ensures
        (SocketAddr::V4 { ip: v4, port }).spec_ip() == IpAddr::V4(v4),
        (SocketAddr::V4 { ip: v4, port }).spec_port() == port,
        (SocketAddr::V6 { ip: v6, port, flowinfo, scope_id }).spec_ip() == IpAddr::V6(v6),
        (SocketAddr::V6 { ip: v6, port, flowinfo, scope_id }).spec_port() == port,
{
}

/// The port of an address.
pub open spec fn port_of(a: SocketAddr) -> u16 {
    match a {
        SocketAddr::V4 { ip: _, port } => port,
        SocketAddr::V6 { ip: _, port, flowinfo: _, scope_id: _ } => port,
    }
}

/// An address leads back to a node exactly where it is the node's own, or has the node's port and is
/// `0.0.0.0`, `::`, `::1` or any address of IPv4 that starts with 127.
pub proof fn law_leads_back(own: SocketAddr, remote: SocketAddr)
    ensures
        Node::leads_back(own, remote) <==> remote == own || match (own, remote) {
            (SocketAddr::V4 { ip: _, port: p }, SocketAddr::V4 { ip, port }) => p == port && (ip
                == 0 || ip / 0x100_0000 == 127),
            (
                SocketAddr::V6 { ip: _, port: p, flowinfo: _, scope_id: _ },
                SocketAddr::V4 { ip, port },
            ) => p == port && (ip == 0 || ip / 0x100_0000 == 127),
            (
                SocketAddr::V4 { ip: _, port: p },
                SocketAddr::V6 { ip, port, flowinfo: _, scope_id: _ },
            ) => p == port && ip <= 1,
            (
                SocketAddr::V6 { ip: _, port: p, flowinfo: _, scope_id: _ },
                SocketAddr::V6 { ip, port, flowinfo: _, scope_id: _ },
            ) => p == port && ip <= 1,
        },
{
}

/// A node has room exactly where the records that are connected or being connected to are fewer than
/// the permitted number.
pub proof fn law_room(node: Node)
    ensures
        node.has_room() <==> node.peer_book.peers@.filter(
            |p: PeerInfo| p.status == PeerStatus::Connected,
        ).len() + node.peer_book.peers@.filter(
            |p: PeerInfo| p.status == PeerStatus::Connecting,
        ).len() < node.config.maximum_number_of_connected_peers,
        node.connected_count() == node.peer_book.peers@.filter(
            |p: PeerInfo| p.status == PeerStatus::Connected,
        ).len(),
{
    law_lists(node.peer_book.peers@);
}

/// A node that has room dials every address that is not its own, is not one of this machine with the
/// node's port, and does not stand in the book as connecting or connected. Whatever else the record
/// of the address holds, its status alone changes, and no other record does.
pub proof fn law_dials_free_peer(
    pre: Node,
    remote: SocketAddr,
    r: Result<(), NetworkError>,
    post: Node,
)
    requires
        pre.initiates(remote, r, &post),
        pre.local_address is Some,
        pre.peer_book.peers@.filter(|p: PeerInfo| p.status == PeerStatus::Connected).len()
            + pre.peer_book.peers@.filter(|p: PeerInfo| p.status == PeerStatus::Connecting).len()
            < pre.config.maximum_number_of_connected_peers,
        remote != pre.local_address->0,
        port_of(remote) == port_of(pre.local_address->0) ==> match remote {
            SocketAddr::V4 { ip, port: _ } => ip != 0 && ip / 0x100_0000 != 127,
            SocketAddr::V6 { ip, port: _, flowinfo: _, scope_id: _ } => ip > 1,
        },
        forall|i: int|
            0 <= i < pre.peer_book.peers@.len() && (#[trigger] pre.peer_book.peers@[i]).address
                == remote ==> pre.peer_book.peers@[i].status == PeerStatus::Disconnected,
    ensures
        r is Ok,
        exists|i: int|
            0 <= i < post.peer_book.peers@.len() && (#[trigger] post.peer_book.peers@[i]).address
                == remote,
        forall|i: int|
            0 <= i < post.peer_book.peers@.len() && (#[trigger] post.peer_book.peers@[i]).address
                == remote ==> post.peer_book.peers@[i].status == PeerStatus::Connecting,
        forall|i: int|
            0 <= i < pre.peer_book.peers@.len() ==> {
                let p = #[trigger] pre.peer_book.peers@[i];
                let q = post.peer_book.peers@[i];
                q.address == p.address && q.last_connected == p.last_connected && q.quality
                    == p.quality && (p.address != remote ==> q == p)
            },
        post.config == pre.config,
        post.local_address == pre.local_address,
        post.consensus == pre.consensus,
{
    let before = pre.peer_book.peers@;
    let after = post.peer_book.peers@;
    law_room(pre);
    law_leads_back(pre.local_address->0, remote);
    assert(after == connecting(before, remote));
    law_connecting(before, remote, after);
    if exists|i: int| 0 <= i < before.len() && (#[trigger] before[i]).address == remote {
        let i = choose|i: int| 0 <= i < before.len() && (#[trigger] before[i]).address == remote;
        assert(after[i].address == remote);
    } else {
        assert(after[before.len() as int].address == remote);
    }
}

/// A node refuses to dial where it has no room, where the address is its own or one of this machine
/// with the node's port, and where the address stands in the book as connecting or connected. The
/// error tells the first of these that applies, and nothing changes.
pub proof fn law_refuses_for_cause(
    pre: Node,
    remote: SocketAddr,
    r: Result<(), NetworkError>,
    post: Node,
)
    requires
        pre.initiates(remote, r, &post),
        pre.local_address is Some,
    ensures
        ({
            let peers = pre.peer_book.peers@;
            let own = pre.local_address->0;
            let full = peers.filter(|p: PeerInfo| p.status == PeerStatus::Connected).len()
                + peers.filter(|p: PeerInfo| p.status == PeerStatus::Connecting).len()
                >= pre.config.maximum_number_of_connected_peers;
            let own_machine = match remote {
                SocketAddr::V4 { ip, port: _ } => ip == 0 || ip / 0x100_0000 == 127,
                SocketAddr::V6 { ip, port: _, flowinfo: _, scope_id: _ } => ip <= 1,
            };
            let itself = remote == own || (port_of(remote) == port_of(own) && own_machine);
            let dialled = exists|i: int|
                0 <= i < peers.len() && (#[trigger] peers[i]).address == remote && peers[i].status
                    == PeerStatus::Connecting;
            let present = exists|i: int|
                0 <= i < peers.len() && (#[trigger] peers[i]).address == remote && peers[i].status
                    == PeerStatus::Connected;
            &&& r == Err::<(), NetworkError>(NetworkError::TooManyConnections) <==> full
            &&& r == Err::<(), NetworkError>(NetworkError::SelfConnectAttempt) <==> !full && itself
            &&& r == Err::<(), NetworkError>(NetworkError::PeerAlreadyConnecting) <==> !full
                && !itself && dialled
            &&& r == Err::<(), NetworkError>(NetworkError::PeerAlreadyConnected) <==> !full
                && !itself && !dialled && present
            &&& r is Ok <==> !full && !itself && !dialled && !present
            &&& r is Err ==> post.peer_book.peers@ == peers && post.config == pre.config
                && post.local_address == pre.local_address && post.consensus == pre.consensus
        }),
{
    law_room(pre);
    law_leads_back(pre.local_address->0, remote);
}

/// Disconnecting from a peer adds to the steps at hand: first the end of the download, exactly where
/// there is a consensus layer and the record of the peer is connected and says that blocks are being
/// downloaded, whatever else it says; then the closing of the peer's channel. The record's status
/// changes, and nothing else does.
pub proof fn law_disconnect_from_peer(
    pre: Node,
    remote: SocketAddr,
    post: Node,
    before: Seq<Effect>,
    after: Seq<Effect>,
)
    requires
        pre.disconnects(remote, &post, before, after),
    ensures
        ({
            let peers = pre.peer_book.peers@;
            let downloads = pre.consensus is Some && exists|i: int|
                0 <= i < peers.len() && (#[trigger] peers[i]).address == remote && peers[i].status
                    == PeerStatus::Connected && peers[i].quality.syncing_blocks;
            &&& downloads ==> after == before.push(Effect::FinishedSyncingBlocks).push(
                Effect::CloseChannel(remote),
            )
            &&& !downloads ==> after == before.push(Effect::CloseChannel(remote))
            &&& forall|i: int|
                0 <= i < peers.len() ==> {
                    let p = #[trigger] peers[i];
                    post.peer_book.peers@[i] == if p.address == remote {
                        PeerInfo {
                            address: remote,
                            status: PeerStatus::Disconnected,
                            last_connected: p.last_connected,
                            quality: p.quality,
                        }
                    } else {
                        p
                    }
                }
            &&& forall|i: int|
                peers.len() <= i < post.peer_book.peers@.len() ==> (
                #[trigger] post.peer_book.peers@[i]).address == remote
                    && post.peer_book.peers@[i].status == PeerStatus::Disconnected
            &&& post.config == pre.config
            &&& post.local_address == pre.local_address
            &&& post.consensus == pre.consensus
        }),
{
    let peers = pre.peer_book.peers@;
    law_disconnected(peers, remote, post.peer_book.peers@);
    if pre.consensus is Some && exists|i: int|
        0 <= i < peers.len() && (#[trigger] peers[i]).address == remote && peers[i].status
            == PeerStatus::Connected && peers[i].quality.syncing_blocks {
        assert(after =~= before.push(Effect::FinishedSyncingBlocks).push(
            Effect::CloseChannel(remote),
        ));
    } else {
        assert(after =~= before.push(Effect::CloseChannel(remote)));
    }
    assert forall|i: int| peers.len() <= i < post.peer_book.peers@.len() implies (
    #[trigger] post.peer_book.peers@[i]).address == remote && post.peer_book.peers@[i].status
        == PeerStatus::Disconnected by {
        if exists|j: int| 0 <= j < peers.len() && (#[trigger] peers[j]).address == remote {
        } else {
            assert(post.peer_book.peers@[i] == post.peer_book.peers@.last());
        }
    }
}

/// A ping to any peer, recorded before, makes no difference to what disconnecting from a peer takes.
pub proof fn law_ping_then_disconnect(
    pre: Node,
    pinged_node: Node,
    to: SocketAddr,
    now: Timestamp,
    remote: SocketAddr,
    post: Node,
    pinged_post: Node,
    before: Seq<Effect>,
    after: Seq<Effect>,
    pinged_after: Seq<Effect>,
)
    requires
        pinged_node.peer_book.peers@ == pinged(pre.peer_book.peers@, to, now),
        pinged_node.consensus == pre.consensus,
        pre.disconnects(remote, &post, before, after),
        pinged_node.disconnects(remote, &pinged_post, before, pinged_after),
    ensures
        pinged_after == after,
{
    let peers = pre.peer_book.peers@;
    let later = pinged_node.peer_book.peers@;
    law_pinged(peers, to, now, later);
    law_disconnect_from_peer(pre, remote, post, before, after);
    law_disconnect_from_peer(pinged_node, remote, pinged_post, before, pinged_after);
    assert forall|i: int| 0 <= i < peers.len() implies (#[trigger] peers[i]).address
        == later[i].address && peers[i].status == later[i].status
        && peers[i].quality.syncing_blocks == later[i].quality.syncing_blocks by {}
    if exists|i: int|
        0 <= i < peers.len() && (#[trigger] peers[i]).address == remote && peers[i].status
            == PeerStatus::Connected && peers[i].quality.syncing_blocks {
        let i = choose|i: int|
            0 <= i < peers.len() && (#[trigger] peers[i]).address == remote && peers[i].status
                == PeerStatus::Connected && peers[i].quality.syncing_blocks;
        assert(later[i].address == remote);
    }
    if exists|i: int|
        0 <= i < later.len() && (#[trigger] later[i]).address == remote && later[i].status
            == PeerStatus::Connected && later[i].quality.syncing_blocks {
        let i = choose|i: int|
            0 <= i < later.len() && (#[trigger] later[i]).address == remote && later[i].status
                == PeerStatus::Connected && later[i].quality.syncing_blocks;
        assert(peers[i].address == remote);
    }
}

/// An attempt that ran to its end gives what it came to, one that broke off an invalid handshake, and
/// one that took too long a timeout.
pub proof fn law_result_of_attempt(
    pre: Node,
    remote: SocketAddr,
    end: HandshakeEnd,
    r: Result<(), NetworkError>,
    post: Node,
    before: Seq<Effect>,
    after: Seq<Effect>,
)
    requires
        pre.ends_attempt(remote, end, r, &post, before, after),
    ensures
        forall|result: Result<(), NetworkError>|
            end == HandshakeEnd::Finished(result) ==> r == result,
        end == HandshakeEnd::Aborted ==> r == Err::<(), NetworkError>(
            NetworkError::InvalidHandshake,
        ),
        end == HandshakeEnd::TimedOut ==> r == Err::<(), NetworkError>(
            NetworkError::HandshakeTimeout,
        ),
{
}

/// An attempt that succeeded, and no other, has the peer's channel kept. The peer's record is then
/// connected since a time that the calendar covers, with a fresh quality, and stands in the book
/// once. No other record changes.
pub proof fn law_attempt_succeeded(
    pre: Node,
    remote: SocketAddr,
    end: HandshakeEnd,
    r: Result<(), NetworkError>,
    post: Node,
    before: Seq<Effect>,
    after: Seq<Effect>,
)
    requires
        pre.ends_attempt(remote, end, r, &post, before, after),
        r is Ok,
    ensures
        after == before.push(Effect::KeepChannel(remote)),
        exists|now: Timestamp|
            -8_334_601_228_800 <= now.secs <= 8_210_266_876_799 && now.nanos < 1_000_000_000
                && #[trigger] connected_record(post, remote, now),
        forall|i: int|
            0 <= i < pre.peer_book.peers@.len() && (#[trigger] pre.peer_book.peers@[i]).address
                != remote ==> post.peer_book.peers@[i] == pre.peer_book.peers@[i],
        post.config == pre.config,
        post.local_address == pre.local_address,
        post.consensus == pre.consensus,
{
    let peers = pre.peer_book.peers@;
    let later = post.peer_book.peers@;
    assert(after =~= before.push(Effect::KeepChannel(remote)));
    let now = choose|now: Timestamp|
        now.valid() && later == #[trigger] connected(peers, remote, now);
    law_connected(peers, remote, now, later);
    if exists|i: int| 0 <= i < peers.len() && (#[trigger] peers[i]).address == remote {
        let i = choose|i: int| 0 <= i < peers.len() && (#[trigger] peers[i]).address == remote;
        assert(later[i].address == remote);
    } else {
        assert(later[peers.len() as int].address == remote);
    }
    assert(connected_record(post, remote, now));
}

/// The address stands in the book, and every record of it is connected since `now`, with a fresh
/// quality.
pub open spec fn connected_record(node: Node, a: SocketAddr, now: Timestamp) -> bool {
    let peers = node.peer_book.peers@;
    &&& exists|i: int| 0 <= i < peers.len() && (#[trigger] peers[i]).address == a
    &&& forall|i: int|
        0 <= i < peers.len() && (#[trigger] peers[i]).address == a ==> peers[i] == (PeerInfo {
            address: a,
            status: PeerStatus::Connected,
            last_connected: Some(now),
            quality: PeerQuality {
                rtt_ms: 0,
                failures: 0,
                syncing_blocks: false,
                last_ping_sent: None,
            },
        })
}

/// An attempt that failed does what disconnecting from the peer does.
pub proof fn law_attempt_failed(
    pre: Node,
    remote: SocketAddr,
    end: HandshakeEnd,
    r: Result<(), NetworkError>,
    post: Node,
    before: Seq<Effect>,
    after: Seq<Effect>,
)
    requires
        pre.ends_attempt(remote, end, r, &post, before, after),
        r is Err,
    ensures
        pre.disconnects(remote, &post, before, after),
{
}

/// A node is well formed exactly where its peer book is.
pub proof fn law_well_formed_node(node: Node)
    ensures
        node.wf() <==> node.peer_book.wf(),
{
}

/// The version that a node sends is the first of the protocol, with the port on which it listens.
pub proof fn law_own_version(port: u16)
    ensures
        own_version(port).version == 1,
        own_version(port).listening_port == port,
{
}

/// A message of any length is sent whole, behind one byte that differs from its length by a multiple
/// of 256.
pub proof fn law_frame(message: Seq<u8>)
    ensures
        framed(message).len() == message.len() + 1,
        framed(message).drop_first() == message,
        (message.len() - framed(message)[0]) % 256 == 0,
{
    assert(framed(message).drop_first() =~= message);
}

/// The initiator writes before the first message, and after the second where the keys agree, and at
/// no other time. Its first message has 48 bytes besides the payload, and its second 64.
pub proof fn law_turns(handshake: Handshake)
    ensures
        handshake.step() == 0 ==> handshake.may_write(),
        handshake.step() == 1 ==> !handshake.may_write(),
        handshake.step() == 2 ==> (handshake.may_write() <==> handshake.agrees()),
        handshake.step() >= 3 ==> !handshake.may_write(),
        handshake.wf() <==> handshake.step() <= 3,
        overhead(0) == 48,
        overhead(2) == 64,
{
}

/// While an attempt waits for the second message one message has gone through, and while it sends
/// the third all three have, in a handshake with the attempt's own key and port.
pub proof fn law_attempt_in_step(attempt: Attempt)
    requires
        attempt.wf(),
        attempt.stage != AttemptStage::Opening,
        attempt.stage != AttemptStage::Over,
    ensures
        attempt.handshake is Some,
        attempt.handshake->0.step() == if attempt.stage == AttemptStage::Closing {
            3nat
        } else {
            1nat
        },
        attempt.handshake->0.key() == attempt.psk@,
        attempt.handshake->0.port() == attempt.listening_port,
{
}

/// An attempt that ends with an error is over and says which error.
pub proof fn law_attempt_ends(attempt: Attempt, step: AttemptStep, error: NetworkError)
    ensures
        attempt.ends_with(step, error) <==> attempt.stage == AttemptStage::Over && step
            == AttemptStep::End(Err(error)),
{
}

/// The first bytes that an attempt sends were written by a handshake that had the attempt's key and
/// port and had sent nothing before.
pub proof fn law_attempt_begins(attempt: Attempt, bytes: Seq<u8>) -> (start: Handshake)
    requires
        attempt.has_begun(bytes),
    ensures
        attempt.handshake is Some,
        start.step() == 0,
        start.key() == attempt.psk@,
        start.port() == attempt.listening_port,
        start.writes(Seq::empty(), bytes, &attempt.handshake->0),
        bytes.len() == 49,
        bytes[0] == 48,
{
    let start = choose|start: Handshake|
        start.step() == 0 && attempt.owns(start) && #[trigger] start.writes(
            Seq::empty(),
            bytes,
            &attempt.handshake->0,
        );
    law_sent_message_tells_length(start, Seq::empty(), bytes, attempt.handshake->0);
    start
}

/// A failure of the stream ends an attempt at any stage, as a failure of the stream.
pub proof fn law_stream_fails(pre: Attempt, post: Attempt, step: AttemptStep)
    requires
        pre.advances(StreamEvent::Failed, &post, step),
    ensures
        post.stage == AttemptStage::Over,
        step == AttemptStep::End(Err(NetworkError::Io)),
{
}

/// An attempt starts exactly where the pre-shared key has 32 bytes: it sends 49 bytes, of which the
/// first tells that 48 follow, and waits for one. With any other key it ends.
pub proof fn law_stream_opens(pre: Attempt, post: Attempt, step: AttemptStep)
    requires
        pre.advances(StreamEvent::Opened, &post, step),
        pre.stage == AttemptStage::Opening,
    ensures
        pre.psk@.len() == 32 ==> {
            &&& post.stage == AttemptStage::AwaitingLength
            &&& step is SendAndReceive
            &&& step->SendAndReceive_1 == 1
            &&& step->SendAndReceive_0@.len() == 49
            &&& step->SendAndReceive_0@[0] == 48
        },
        pre.psk@.len() != 32 ==> post.stage == AttemptStage::Over && step == AttemptStep::End(
            Err(NetworkError::Noise),
        ),
        post.psk@ == pre.psk@,
        post.listening_port == pre.listening_port,
{
    if pre.psk@.len() == 32 {
        let start = law_attempt_begins(post, step->SendAndReceive_0@);
    }
}

/// The byte before the second message is taken at its word, whatever it is, but for zero, which ends
/// the attempt. The handshake is not touched.
pub proof fn law_length_arrives(pre: Attempt, bytes: Vec<u8>, post: Attempt, step: AttemptStep)
    requires
        pre.advances(StreamEvent::Received(bytes), &post, step),
        pre.stage == AttemptStage::AwaitingLength,
        bytes@.len() == 1,
    ensures
        forall|length: usize|
            1 <= length <= 255 && bytes@[0] == length ==> post.stage
                == AttemptStage::AwaitingMessage(length) && step == AttemptStep::Receive(length),
        bytes@[0] == 0 ==> post.stage == AttemptStage::Over && step == AttemptStep::End(
            Err(NetworkError::InvalidHandshake),
        ),
        post.handshake == pre.handshake,
{
}

/// A second message that can be read, holds the ten bytes of a version or more, and brings a key that
/// agrees, is answered with the node's own version. It makes 75 bytes, of which the first tells that
/// 74 follow. Any other message ends the attempt: as no version, where it can be read and is too
/// short for one, and otherwise as an error of the Noise protocol.
pub proof fn law_reply_arrives(pre: Attempt, bytes: Vec<u8>, post: Attempt, step: AttemptStep)
    requires
        pre.advances(StreamEvent::Received(bytes), &post, step),
        pre.stage is AwaitingMessage,
    ensures
        ({
            let reading = pre.handshake->0.reads(bytes@);
            let later = pre.handshake->0.after_read(bytes@);
            let good = reading is Some && reading->0.len() >= 10 && later.agrees();
            &&& good ==> {
                &&& post.stage == AttemptStage::Closing
                &&& step is Send
                &&& post.handshake is Some
                &&& later.writes(
                    (Version { version: 1, listening_port: pre.listening_port }).wire(),
                    step->Send_0@,
                    &post.handshake->0,
                )
                &&& step->Send_0@.len() == 75
                &&& step->Send_0@[0] == 74
            }
            &&& !good ==> post.stage == AttemptStage::Over && step == AttemptStep::End(
                Err(
                    if reading is Some && reading->0.len() < 10 {
                        NetworkError::Encoding
                    } else {
                        NetworkError::Noise
                    },
                ),
            )
        }),
{
    let reading = pre.handshake->0.reads(bytes@);
    let later = pre.handshake->0.after_read(bytes@);
    if reading is Some && reading->0.len() >= 10 && later.agrees() {
        let version = Version { version: 1, listening_port: pre.listening_port };
        lemma_version_round_trip(version, Seq::empty());
        assert(own_version(pre.listening_port) == version);
        law_sent_message_tells_length(later, version.wire(), step->Send_0@, post.handshake->0);
    }
}

/// Once the third message is out the attempt has succeeded, and the session is that of the handshake
/// that wrote it.
pub proof fn law_third_message_is_out(pre: Attempt, post: Attempt, step: AttemptStep)
    requires
        pre.advances(StreamEvent::Sent, &post, step),
        pre.stage == AttemptStage::Closing,
    ensures
        post.stage == AttemptStage::Over,
        step == AttemptStep::End(Ok(())),
        post.session == Some(pre.handshake->0.session()),
{
}

} // verus!
