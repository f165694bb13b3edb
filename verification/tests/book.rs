use peers::addr::SocketAddr;
use peers::error::NetworkError;
use peers::peer_book::{PeerBook, PeerInfo, PeerStatus};
use peers::time::Timestamp;

fn addr(n: u16) -> SocketAddr {
    SocketAddr::V4 { ip: 0x0a00_0001, port: n }
}

fn at(secs: i64) -> Timestamp {
    Timestamp { secs, nanos: 0 }
}

#[test]
fn a_new_book_is_empty() {
    let book = PeerBook::new();
    assert_eq!(book.number_of_connected_peers(), 0);
    assert_eq!(book.number_of_connecting_peers(), 0);
    assert!(book.connected_addrs().is_empty());
    assert!(!book.is_disconnected(addr(1)));
}

#[test]
fn a_peer_goes_through_all_states() {
    let mut book = PeerBook::new();
    book.add_peer(addr(1));
    assert!(book.is_disconnected(addr(1)));
    assert_eq!(book.set_connecting(addr(1)), Ok(()));
    assert!(book.is_connecting(addr(1)));
    assert_eq!(book.number_of_connecting_peers(), 1);
    assert!(!book.is_disconnected(addr(1)));
    book.set_connected(addr(1), at(5));
    assert!(book.is_connected(addr(1)));
    assert!(!book.is_connecting(addr(1)));
    assert_eq!(book.number_of_connected_peers(), 1);
    assert_eq!(book.peers[0].last_connected, Some(at(5)));
    assert_eq!(book.set_disconnected(addr(1)), Ok(()));
    assert!(book.is_disconnected(addr(1)));
    assert_eq!(book.number_of_connected_peers(), 0);
    // The time of the last connection stays on record.
    assert_eq!(book.peers[0].last_connected, Some(at(5)));
    assert_eq!(book.peers.len(), 1);
}

#[test]
fn a_connected_peer_is_not_connected_to_again() {
    let mut book = PeerBook::new();
    book.set_connected(addr(1), at(5));
    assert_eq!(book.set_connecting(addr(1)), Err(NetworkError::PeerAlreadyConnected));
    assert!(book.is_connected(addr(1)));
}

#[test]
fn adding_a_known_peer_changes_nothing() {
    let mut book = PeerBook::new();
    book.set_connected(addr(1), at(5));
    book.add_peer(addr(2));
    let before = book.clone();
    book.add_peer(addr(1));
    book.add_peer(addr(2));
    assert_eq!(book, before);
    assert_eq!(book.peers[1], PeerInfo::new(addr(2)));
}

#[test]
fn disconnecting_an_unknown_peer_enters_it() {
    let mut book = PeerBook::new();
    assert_eq!(book.set_disconnected(addr(9)), Ok(()));
    assert!(book.is_disconnected(addr(9)));
}

#[test]
fn disconnecting_twice_changes_nothing_more() {
    let mut book = PeerBook::new();
    book.set_connected(addr(1), at(5));
    book.set_connected(addr(2), at(6));
    book.set_disconnected(addr(1)).unwrap();
    let before = book.clone();
    book.set_disconnected(addr(1)).unwrap();
    assert_eq!(book, before);
    assert!(book.is_connected(addr(2)));
}

#[test]
fn a_connection_starts_with_a_fresh_quality_record() {
    let mut book = PeerBook::new();
    book.set_connected(addr(1), at(5));
    book.peers[0].quality.failures = 7;
    book.peers[0].quality.rtt_ms = 900;
    book.peers[0].quality.syncing_blocks = true;
    assert!(book.is_syncing_blocks(addr(1)));
    book.set_disconnected(addr(1)).unwrap();
    assert!(!book.is_syncing_blocks(addr(1)));
    book.set_connected(addr(1), at(6));
    assert_eq!(book.peers[0].quality.failures, 0);
    assert_eq!(book.peers[0].quality.rtt_ms, 0);
    assert!(!book.is_syncing_blocks(addr(1)));
}

#[test]
fn only_connected_peers_are_handed_out() {
    let mut book = PeerBook::new();
    book.add_peer(addr(1));
    assert_eq!(book.get_peer(addr(1)), Err(NetworkError::PeerNotConnected));
    assert_eq!(book.get_peer(addr(2)), Err(NetworkError::PeerNotConnected));
    book.set_connected(addr(1), at(1));
    assert_eq!(book.get_peer(addr(1)).unwrap().address, addr(1));
}

#[test]
fn pings_are_recorded_for_connected_peers() {
    let mut book = PeerBook::new();
    book.add_peer(addr(1));
    book.set_connected(addr(2), at(1));
    book.sending_ping(addr(1), at(3));
    book.sending_ping(addr(2), at(4));
    book.sending_ping(addr(3), at(5));
    assert_eq!(book.peers.len(), 2);
    assert_eq!(book.peers[0].quality.last_ping_sent, None);
    assert_eq!(book.peers[1].quality.last_ping_sent, Some(at(4)));
}

#[test]
fn listings_by_status() {
    let mut book = PeerBook::new();
    book.set_connected(addr(1), at(1));
    book.add_peer(addr(2));
    book.set_connected(addr(3), at(1));
    book.set_connecting(addr(4)).unwrap();
    assert_eq!(book.connected_addrs(), vec![addr(1), addr(3)]);
    assert_eq!(book.disconnected_addrs(), vec![addr(2)]);
    assert_eq!(book.addrs_except(PeerStatus::Connected, addr(1)), vec![addr(3)]);
    assert_eq!(book.addrs_except(PeerStatus::Disconnected, addr(1)), vec![addr(2)]);
}
