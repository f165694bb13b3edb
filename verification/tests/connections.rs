use peers::addr::SocketAddr;
use peers::config::Config;
use peers::effect::Effect;
use peers::error::NetworkError;
use peers::handshake::{handshake_result, HandshakeEnd};
use peers::node::{Consensus, Node};
use peers::time::Timestamp;

fn addr(n: u16) -> SocketAddr {
    SocketAddr::V4 { ip: 0x0a00_0001, port: n }
}

fn at(secs: i64) -> Timestamp {
    Timestamp { secs, nanos: 0 }
}

fn node(max: u16) -> Node {
    let config = Config {
        is_bootnode: false,
        bootnodes: vec![],
        minimum_number_of_connected_peers: 1,
        maximum_number_of_connected_peers: max,
        shared_peer_count: 25,
    };
    Node::new(config, Some(addr(4131)), None)
}

#[test]
fn room_counts_connections_being_made() {
    let mut node = node(2);
    assert!(node.can_connect());
    node.connection_established(addr(1), at(1));
    assert!(node.can_connect());
    assert_eq!(node.initiate_connection(addr(2)), Ok(()));
    assert!(!node.can_connect());
    assert!(node.peer_book.is_connecting(addr(2)));
    assert_eq!(node.connected_addrs(), vec![addr(1)]);
}

#[test]
fn no_room_without_permitted_connections() {
    assert!(!node(0).can_connect());
}

#[test]
fn too_many_connections() {
    let mut node = node(1);
    node.connection_established(addr(1), at(1));
    let before = node.clone();
    assert_eq!(node.initiate_connection(addr(2)), Err(NetworkError::TooManyConnections));
    // This reason comes before all others.
    assert_eq!(node.initiate_connection(addr(1)), Err(NetworkError::TooManyConnections));
    assert_eq!(node.initiate_connection(addr(4131)), Err(NetworkError::TooManyConnections));
    assert_eq!(node, before);
}

#[test]
fn no_connection_to_itself() {
    let mut node = node(9);
    let before = node.clone();
    let own = [
        addr(4131),
        SocketAddr::V4 { ip: 0, port: 4131 },
        SocketAddr::V4 { ip: 0x7f00_0001, port: 4131 },
        SocketAddr::V6 { ip: 0, port: 4131, flowinfo: 0, scope_id: 0 },
        SocketAddr::V6 { ip: 1, port: 4131, flowinfo: 0, scope_id: 0 },
    ];
    for remote in own {
        assert_eq!(node.initiate_connection(remote), Err(NetworkError::SelfConnectAttempt));
    }
    assert_eq!(node, before);
    // Another port on this machine, or the same port elsewhere, is another node.
    assert_eq!(node.initiate_connection(SocketAddr::V4 { ip: 0x7f00_0001, port: 1 }), Ok(()));
    assert_eq!(node.initiate_connection(SocketAddr::V4 { ip: 0x0a00_0002, port: 4131 }), Ok(()));
}

#[test]
fn no_second_attempt_at_the_same_time() {
    let mut node = node(9);
    assert_eq!(node.initiate_connection(addr(1)), Ok(()));
    assert_eq!(node.initiate_connection(addr(1)), Err(NetworkError::PeerAlreadyConnecting));
    node.connection_established(addr(1), at(7));
    assert_eq!(node.initiate_connection(addr(1)), Err(NetworkError::PeerAlreadyConnected));
    assert_eq!(node.peer_book.peers[0].last_connected, Some(at(7)));
}

#[test]
fn a_failed_attempt_can_be_repeated() {
    let mut node = node(1);
    assert_eq!(node.initiate_connection(addr(1)), Ok(()));
    let mut effects = vec![];
    assert_eq!(node.disconnect_from_peer(addr(1), &mut effects), Ok(()));
    assert_eq!(effects, vec![Effect::CloseChannel(addr(1))]);
    assert!(node.peer_book.is_disconnected(addr(1)));
    assert_eq!(node.initiate_connection(addr(1)), Ok(()));
}

#[test]
fn a_successful_attempt_connects_and_keeps_the_channel() {
    let mut node = node(2);
    node.peer_book.add_peer(addr(2));
    let other = node.peer_book.peers[0];
    assert_eq!(node.initiate_connection(addr(1)), Ok(()));
    let mut effects = vec![Effect::SavePeerBook];
    assert_eq!(node.attempt_over(addr(1), HandshakeEnd::Finished(Ok(())), &mut effects), Ok(()));
    assert_eq!(effects, vec![Effect::SavePeerBook, Effect::KeepChannel(addr(1))]);
    assert_eq!(node.connected_addrs(), vec![addr(1)]);
    assert!(node.peer_book.peers[1].last_connected.unwrap().secs > 1_600_000_000);
    assert_eq!(node.peer_book.peers[0], other);
}

#[test]
fn a_failed_attempt_disconnects_from_that_peer_only() {
    let ends = [
        (HandshakeEnd::Finished(Err(NetworkError::Io)), NetworkError::Io),
        (HandshakeEnd::Aborted, NetworkError::InvalidHandshake),
        (HandshakeEnd::TimedOut, NetworkError::HandshakeTimeout),
    ];
    for (end, error) in ends {
        let mut node = node(3);
        node.connection_established(addr(2), at(1));
        assert_eq!(node.initiate_connection(addr(1)), Ok(()));
        assert_eq!(node.initiate_connection(addr(3)), Ok(()));
        let mut effects = vec![];
        assert_eq!(node.attempt_over(addr(1), end, &mut effects), Err(error));
        assert_eq!(effects, vec![Effect::CloseChannel(addr(1))]);
        assert!(node.peer_book.is_disconnected(addr(1)));
        assert!(node.peer_book.is_connected(addr(2)));
        assert!(node.peer_book.is_connecting(addr(3)));
    }
}

#[test]
fn a_refused_attempt_disconnects_too() {
    let mut node = node(3);
    node.connection_established(addr(1), at(1));
    let refusal = node.initiate_connection(addr(1)).unwrap_err();
    let mut effects = vec![];
    let end = HandshakeEnd::Finished(Err(refusal));
    assert_eq!(
        node.attempt_over(addr(1), end, &mut effects),
        Err(NetworkError::PeerAlreadyConnected)
    );
    assert!(node.peer_book.is_disconnected(addr(1)));
}

#[test]
fn completing_a_connection_reads_the_clock() {
    let mut node = node(1);
    assert_eq!(node.initiate_connection(addr(1)), Ok(()));
    node.complete_connection(addr(1));
    assert!(node.peer_book.is_connected(addr(1)));
    let time = node.peer_book.peers[0].last_connected.unwrap();
    assert!(time.secs > 1_600_000_000);
    assert!(time.nanos < 1_000_000_000);
    node.sending_ping(addr(1));
    let ping = node.peer_book.peers[0].quality.last_ping_sent.unwrap();
    assert!(time.is_no_later_than(ping));
}

#[test]
fn disconnecting_ends_a_download() {
    let mut node = node(9);
    node.connection_established(addr(1), at(1));
    node.connection_established(addr(2), at(1));
    node.peer_book.peers[0].quality.syncing_blocks = true;
    node.consensus = Some(Consensus { current_block_height: 3 });
    let mut effects = vec![];
    node.disconnect_from_peer(addr(1), &mut effects).unwrap();
    node.disconnect_from_peer(addr(2), &mut effects).unwrap();
    node.disconnect_from_peer(addr(1), &mut effects).unwrap();
    assert_eq!(
        effects,
        vec![
            Effect::FinishedSyncingBlocks,
            Effect::CloseChannel(addr(1)),
            Effect::CloseChannel(addr(2)),
            Effect::CloseChannel(addr(1)),
        ]
    );
    assert!(node.connected_addrs().is_empty());
}

#[test]
fn without_consensus_no_download_ends() {
    let mut node = node(9);
    node.connection_established(addr(1), at(1));
    node.peer_book.peers[0].quality.syncing_blocks = true;
    let mut effects = vec![];
    node.disconnect_from_peer(addr(1), &mut effects).unwrap();
    assert_eq!(effects, vec![Effect::CloseChannel(addr(1))]);
}

#[test]
fn the_end_of_the_handshake_decides() {
    assert_eq!(handshake_result(HandshakeEnd::Finished(Ok(()))), Ok(()));
    assert_eq!(
        handshake_result(HandshakeEnd::Finished(Err(NetworkError::Io))),
        Err(NetworkError::Io)
    );
    assert_eq!(handshake_result(HandshakeEnd::Aborted), Err(NetworkError::InvalidHandshake));
    assert_eq!(handshake_result(HandshakeEnd::TimedOut), Err(NetworkError::HandshakeTimeout));
}
