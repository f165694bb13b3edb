use peers::addr::SocketAddr;
use peers::config::Config;
use peers::effect::Effect;
use peers::error::NetworkError;
use peers::message::{Direction, Message, Payload};
use peers::node::{Consensus, Node};
use peers::peer_book::PeerInfo;
use peers::time::Timestamp;

fn addr(n: u16) -> SocketAddr {
    SocketAddr::V4 { ip: 0x0a00_0001, port: n }
}

fn at(secs: i64) -> Timestamp {
    Timestamp { secs, nanos: 9 }
}

fn node(is_bootnode: bool) -> Node {
    let config = Config {
        is_bootnode,
        bootnodes: vec![],
        minimum_number_of_connected_peers: 1,
        maximum_number_of_connected_peers: 4,
        shared_peer_count: 2,
    };
    Node::new(config, Some(addr(4131)), None)
}

fn answer(to: u16, peers: Vec<SocketAddr>) -> Effect {
    Effect::Send(Message::new(Direction::Outbound(addr(to)), Payload::Peers(peers)))
}

#[test]
fn connected_peers_are_shared() {
    let mut node = node(false);
    for n in 1..=3 {
        node.connection_established(addr(n), at(1));
    }
    node.peer_book.add_peer(addr(4));
    assert_eq!(node.shareable_peers(addr(2)), vec![addr(1), addr(3)]);
    let effects = node.send_peers(addr(2));
    assert!(
        effects == vec![answer(2, vec![addr(1), addr(3)])]
            || effects == vec![answer(2, vec![addr(3), addr(1)])]
    );
}

#[test]
fn a_bootnode_shares_disconnected_peers_and_leaves() {
    let mut node = node(true);
    node.connection_established(addr(1), at(1));
    node.connection_established(addr(2), at(1));
    node.peer_book.add_peer(addr(3));
    assert_eq!(node.shareable_peers(addr(1)), vec![addr(3)]);
    assert_eq!(
        node.send_peers(addr(1)),
        vec![answer(1, vec![addr(3)]), Effect::Disconnect(addr(1))]
    );
}

#[test]
fn no_more_peers_are_shared_than_permitted() {
    let mut node = node(false);
    for n in 1..=30 {
        node.connection_established(addr(n), at(1));
    }
    match &node.send_peers(addr(7))[0] {
        Effect::Send(Message { payload: Payload::Peers(peers), .. }) => {
            assert_eq!(peers.len(), 2);
            assert_ne!(peers[0], peers[1]);
            assert!(!peers.contains(&addr(7)));
        }
        other => panic!("no answer: {:?}", other),
    }
    assert_eq!(node.answer_with_peers(addr(7), vec![]), vec![answer(7, vec![])]);
}

#[test]
fn inbound_peers_enter_the_book() {
    let mut node = node(false);
    node.connection_established(addr(1), at(1));
    let before = node.peer_book.peers[0];
    node.process_inbound_peers(vec![addr(4131), addr(1), addr(2), addr(3), addr(2)]);
    assert_eq!(
        node.peer_book.peers,
        vec![before, PeerInfo::new(addr(2)), PeerInfo::new(addr(3))]
    );
    node.process_inbound_peers(vec![addr(2), addr(4)]);
    assert_eq!(node.peer_book.disconnected_addrs(), vec![addr(2), addr(3), addr(4)]);
}

#[test]
fn all_inbound_peers_enter_however_many_are_permitted() {
    let mut node = node(false);
    node.config.maximum_number_of_connected_peers = 1;
    node.process_inbound_peers(vec![addr(8), addr(9)]);
    assert_eq!(node.peer_book.disconnected_addrs(), vec![addr(8), addr(9)]);
    node.connection_established(addr(8), at(1));
    node.process_inbound_peers(vec![addr(10)]);
    assert_eq!(node.peer_book.disconnected_addrs(), vec![addr(9), addr(10)]);
}

#[test]
fn the_peer_book_as_bytes() {
    let mut node = node(false);
    node.consensus = Some(Consensus { current_block_height: 0 });
    node.connection_established(addr(0x0203), Timestamp { secs: -2, nanos: 0x01020304 });
    node.peer_book.add_peer(SocketAddr::V6 {
        ip: 0x0102_0304_0506_0708_090a_0b0c_0d0e_0f10,
        port: 0x1112,
        flowinfo: 0x1314_1516,
        scope_id: 0x1718_191a,
    });
    let mut expected = vec![2, 0, 0, 0, 0, 0, 0, 0];
    expected.extend([0]);
    expected.extend([1, 0, 0, 10, 0, 0, 0, 0, 0, 0, 0, 0, 0, 0, 0, 0]);
    expected.extend([3, 2]);
    expected.extend([0; 8]);
    expected.extend([1]);
    expected.extend([1, 0xfe, 0xff, 0xff, 0xff, 0xff, 0xff, 0xff, 0xff, 4, 3, 2, 1]);
    expected.extend([1]);
    expected.extend([16, 15, 14, 13, 12, 11, 10, 9, 8, 7, 6, 5, 4, 3, 2, 1]);
    expected.extend([0x12, 0x11]);
    expected.extend([0x16, 0x15, 0x14, 0x13]);
    expected.extend([0x1a, 0x19, 0x18, 0x17]);
    expected.extend([2]);
    expected.extend([0]);
    assert_eq!(node.save_peer_book_to_storage(), Ok(Some(expected)));
}

#[test]
fn an_empty_peer_book_as_bytes() {
    let mut node = node(false);
    node.consensus = Some(Consensus { current_block_height: 0 });
    assert_eq!(node.save_peer_book_to_storage(), Ok(Some(vec![0; 8])));
}

#[test]
fn without_consensus_nothing_is_stored() {
    let mut node = node(false);
    node.connection_established(addr(1), at(1));
    assert_eq!(node.save_peer_book_to_storage(), Ok(None));
}

#[test]
fn a_node_connected_to_itself_is_not_stored() {
    let mut node = node(false);
    node.consensus = Some(Consensus { current_block_height: 0 });
    node.connection_established(addr(4131), at(1));
    assert_eq!(node.save_peer_book_to_storage(), Err(NetworkError::SelfConnectAttempt));
    node.local_address = None;
    assert!(node.save_peer_book_to_storage().is_ok());
}

#[test]
fn different_peer_books_are_stored_differently() {
    let mut first = node(false);
    first.consensus = Some(Consensus { current_block_height: 0 });
    first.connection_established(addr(1), at(1));
    let mut second = first.clone();
    assert_eq!(first.save_peer_book_to_storage(), second.save_peer_book_to_storage());
    let mut effects = Vec::new();
    assert_eq!(second.disconnect_from_peer(addr(1), &mut effects), Ok(()));
    assert_ne!(first.save_peer_book_to_storage(), second.save_peer_book_to_storage());
    second.connection_established(addr(1), at(2));
    assert_ne!(first.save_peer_book_to_storage(), second.save_peer_book_to_storage());
}
