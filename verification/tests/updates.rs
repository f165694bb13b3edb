use peers::addr::SocketAddr;
use peers::config::Config;
use peers::effect::Effect;
use peers::message::{Direction, Message, Payload};
use peers::node::{Consensus, Node};
use peers::time::{Timestamp, MAX_SECS, MIN_SECS};
use peers::update::{connect_all, UpdateStage};

fn addr(n: u16) -> SocketAddr {
    SocketAddr::V4 { ip: 0x0a00_0001, port: n }
}

fn at(secs: i64) -> Timestamp {
    Timestamp { secs, nanos: 0 }
}

fn node(min: u16, max: u16) -> Node {
    let config = Config {
        is_bootnode: false,
        bootnodes: vec![addr(100), addr(101)],
        minimum_number_of_connected_peers: min,
        maximum_number_of_connected_peers: max,
        shared_peer_count: 25,
    };
    Node::new(config, Some(addr(4131)), Some(Consensus { current_block_height: 42 }))
}

fn bootnode(max: u16) -> Node {
    let mut node = node(10, max);
    node.config.is_bootnode = true;
    node
}

fn send(to: u16, payload: Payload) -> Effect {
    Effect::Send(Message::new(Direction::Outbound(addr(to)), payload))
}

fn close(n: u16) -> Effect {
    Effect::CloseChannel(addr(n))
}

#[test]
fn peers_of_low_quality_are_dropped() {
    let mut node = node(0, 10);
    for n in 1..=5 {
        node.connection_established(addr(n), at(n as i64));
    }
    node.peer_book.peers[0].quality.rtt_ms = 1000;
    node.peer_book.peers[1].quality.rtt_ms = 1001;
    node.peer_book.peers[2].quality.failures = 10;
    node.peer_book.peers[3].quality.failures = 11;
    node.peer_book.peers[3].quality.syncing_blocks = true;
    assert_eq!(node.low_quality_peers(), vec![addr(2), addr(4)]);
    let (stage, effects) = node.update_peers(UpdateStage::Start);
    assert_eq!(stage, UpdateStage::Maintain(5));
    assert_eq!(effects, vec![close(2), Effect::FinishedSyncingBlocks, close(4)]);
    assert_eq!(node.connected_addrs(), vec![addr(1), addr(3), addr(5)]);
    assert!(node.low_quality_peers().is_empty());
}

#[test]
fn disconnected_peers_have_no_quality() {
    let mut node = node(0, 10);
    node.peer_book.add_peer(addr(1));
    node.peer_book.peers[0].quality.rtt_ms = 5000;
    assert!(node.low_quality_peers().is_empty());
    assert!(node.drop_low_quality_peers().is_empty());
}

#[test]
fn a_node_with_too_few_peers_looks_for_more() {
    let mut node = node(3, 10);
    node.connection_established(addr(1), at(1));
    node.connection_established(addr(101), at(1));
    node.peer_book.add_peer(addr(2));
    let (stage, effects) = node.update_peers(UpdateStage::Start);
    assert_eq!(stage, UpdateStage::Maintain(2));
    assert_eq!(
        effects,
        vec![
            Effect::Connect(addr(100)),
            Effect::Connect(addr(2)),
            send(1, Payload::GetPeers),
            send(101, Payload::GetPeers),
        ]
    );
}

#[test]
fn a_dropped_peer_can_be_tried_again() {
    let mut node = node(2, 10);
    node.config.bootnodes.clear();
    node.connection_established(addr(1), at(1));
    node.peer_book.peers[0].quality.failures = 11;
    let (_, effects) = node.update_peers(UpdateStage::Start);
    assert_eq!(effects, vec![close(1), Effect::Connect(addr(1))]);
}

#[test]
fn every_disconnected_peer_is_tried_once() {
    let mut node = node(4, 10);
    node.config.bootnodes.clear();
    node.connection_established(addr(1), at(1));
    for n in 10..30 {
        node.peer_book.add_peer(addr(n));
    }
    let (_, effects) = node.update_peers(UpdateStage::Start);
    assert_eq!(effects.len(), 21);
    let mut picked = vec![];
    for effect in &effects[..20] {
        match effect {
            Effect::Connect(a) => {
                assert!((10..30).contains(&a.port()));
                assert!(!picked.contains(a));
                picked.push(*a);
            }
            other => panic!("no attempt: {:?}", other),
        }
    }
    assert_eq!(effects[20], send(1, Payload::GetPeers));
}

#[test]
fn picks_are_left_to_chance() {
    let mut node = node(1, 10);
    for n in 0..1000 {
        node.peer_book.add_peer(addr(n));
    }
    let first = node.connect_to_disconnected_peers(20);
    let mut differs = false;
    for _ in 0..10 {
        let next = node.connect_to_disconnected_peers(20);
        assert_eq!(next.len(), 1000);
        differs = differs || next[..20] != first[..20];
    }
    assert!(differs);
    // Behind those that were picked, the others follow in the order of the book.
    let behind = |effects: &[Effect]| {
        let mut ports = vec![];
        for effect in effects {
            if let Effect::Connect(a) = effect {
                ports.push(a.port());
            }
        }
        ports
    };
    let others = behind(&first[20..]);
    assert_eq!(others.len(), 980);
    assert!(others.windows(2).all(|pair| pair[0] < pair[1]));
    assert_eq!(behind(&node.connect_to_disconnected_peers(0)), (0..1000).collect::<Vec<u16>>());
    assert_eq!(node.connect_to_disconnected_peers(usize::MAX).len(), 1000);
}

#[test]
fn a_node_with_enough_peers_looks_for_none() {
    let mut node = node(1, 10);
    node.connection_established(addr(1), at(1));
    node.peer_book.add_peer(addr(2));
    let (_, effects) = node.update_peers(UpdateStage::Start);
    assert!(effects.is_empty());
}

#[test]
fn a_bootnode_looks_for_no_peers() {
    let mut node = bootnode(10);
    node.peer_book.add_peer(addr(2));
    let (stage, effects) = node.update_peers(UpdateStage::Start);
    assert_eq!(stage, UpdateStage::Maintain(0));
    assert!(effects.is_empty());
}

#[test]
fn connected_bootnodes_are_not_tried() {
    let mut node = node(1, 10);
    assert_eq!(
        node.connect_to_bootnodes(),
        vec![Effect::Connect(addr(100)), Effect::Connect(addr(101))]
    );
    node.connection_established(addr(100), at(1));
    assert_eq!(node.connect_to_bootnodes(), vec![Effect::Connect(addr(101))]);
    assert_eq!(connect_all(&vec![addr(5)]), vec![Effect::Connect(addr(5))]);
}

#[test]
fn the_most_recent_peers_go_first() {
    let mut node = node(0, 2);
    node.connection_established(addr(1), at(30));
    node.connection_established(addr(2), at(10));
    node.connection_established(addr(3), at(40));
    node.connection_established(addr(4), at(20));
    assert_eq!(node.most_recent_peers(2), vec![addr(3), addr(1)]);
    assert_eq!(node.most_recent_peers(9), vec![addr(3), addr(1), addr(4), addr(2)]);
    assert!(node.most_recent_peers(0).is_empty());
    let effects = node.maintain_peers(4, at(50));
    assert_eq!(node.connected_addrs(), vec![addr(2), addr(4)]);
    assert_eq!(
        effects,
        vec![
            close(3),
            close(1),
            Effect::RecordPing(addr(2)),
            send(2, Payload::Ping(42)),
            Effect::RecordPing(addr(4)),
            send(4, Payload::Ping(42)),
            Effect::SavePeerBook,
        ]
    );
}

#[test]
fn nanoseconds_tell_which_peer_is_more_recent() {
    let mut node = node(0, 1);
    node.connection_established(addr(1), Timestamp { secs: 5, nanos: 2 });
    node.connection_established(addr(2), Timestamp { secs: 5, nanos: 1 });
    assert_eq!(node.most_recent_peers(1), vec![addr(1)]);
}

#[test]
fn no_more_are_dropped_than_are_there() {
    let mut node = node(0, 1);
    node.connection_established(addr(1), at(1));
    // Nine were connected when the update started, and eight of them have left since.
    node.maintain_peers(9, at(2));
    assert!(node.connected_addrs().is_empty());
}

#[test]
fn an_update_keeps_to_the_maximum() {
    let mut node = node(0, 3);
    for n in 1..=7 {
        node.connection_established(addr(n), at(n as i64));
    }
    node.peer_book.peers[0].quality.failures = 11;
    let mut stage = UpdateStage::Start;
    while stage != UpdateStage::Done {
        let (next, _) = node.update_peers(stage);
        stage = next;
    }
    // Four were too many to begin with, besides the one of low quality.
    assert_eq!(node.connected_addrs(), vec![addr(2), addr(3)]);
    let (stage, effects) = node.update_peers(UpdateStage::Done);
    assert_eq!(stage, UpdateStage::Done);
    assert!(effects.is_empty());
}

#[test]
fn a_bootnode_drops_peers_after_a_while() {
    let mut node = bootnode(10);
    node.connection_established(addr(1), at(100));
    node.connection_established(addr(2), Timestamp { secs: 100, nanos: 1 });
    node.connection_established(addr(3), at(101));
    node.connection_established(addr(4), at(200));
    node.peer_book.add_peer(addr(5));
    assert_eq!(node.overstaying_peers(at(111)), vec![addr(1)]);
    assert_eq!(
        node.overstaying_peers(Timestamp { secs: 110, nanos: 999_999_999 }),
        Vec::<SocketAddr>::new()
    );
    let effects = node.maintain_peers(4, at(111));
    assert_eq!(effects, vec![close(1), Effect::SavePeerBook]);
    assert_eq!(node.connected_addrs(), vec![addr(2), addr(3), addr(4)]);
    assert!(node.overstaying_peers(at(111)).is_empty());
}

#[test]
fn the_calendar_has_its_limits() {
    let mut node = bootnode(10);
    node.connection_established(addr(1), Timestamp { secs: MIN_SECS, nanos: 0 });
    let end = Timestamp { secs: MAX_SECS, nanos: 999_999_999 };
    assert_eq!(node.overstaying_peers(end), vec![addr(1)]);
    assert!(chrono::DateTime::from_timestamp(MIN_SECS - 1, 0).is_none());
    assert!(chrono::DateTime::from_timestamp(MAX_SECS + 1, 0).is_none());
}

#[test]
fn other_nodes_keep_peers() {
    let mut node = node(0, 10);
    node.connection_established(addr(1), at(100));
    node.maintain_peers(1, at(100_000));
    assert_eq!(node.connected_addrs(), vec![addr(1)]);
}

#[test]
fn a_bootnode_overstay_goes_by_the_clock() {
    let mut node = bootnode(10);
    node.connection_established(addr(1), at(100));
    node.complete_connection(addr(2));
    let (stage, effects) = node.update_peers(UpdateStage::Maintain(2));
    assert_eq!(stage, UpdateStage::Done);
    assert_eq!(effects, vec![close(1), Effect::SavePeerBook]);
    assert_eq!(node.connected_addrs(), vec![addr(2)]);
}

#[test]
fn without_peers_nothing_is_saved() {
    let mut node = node(0, 10);
    let effects = node.maintain_peers(0, at(1));
    assert!(effects.is_empty());
    // Even where the last peer has just been dropped, the book is saved.
    let effects = node.maintain_peers(1, at(1));
    assert_eq!(effects, vec![Effect::SavePeerBook]);
}

#[test]
fn pings_tell_the_block_height() {
    let mut node = node(0, 10);
    node.connection_established(addr(1), at(1));
    assert_eq!(
        node.broadcast_pings(),
        vec![Effect::RecordPing(addr(1)), send(1, Payload::Ping(42))]
    );
    node.consensus = None;
    assert_eq!(
        node.broadcast_pings(),
        vec![Effect::RecordPing(addr(1)), send(1, Payload::Ping(0))]
    );
}

#[test]
fn every_connected_peer_is_asked_for_peers() {
    let mut node = node(0, 10);
    node.connection_established(addr(1), at(1));
    node.peer_book.add_peer(addr(2));
    node.connection_established(addr(3), at(1));
    assert_eq!(
        node.broadcast_getpeers_requests(),
        vec![send(1, Payload::GetPeers), send(3, Payload::GetPeers)]
    );
}
