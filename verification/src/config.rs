//! The settings of a node.

use vstd::prelude::*;

use crate::addr::SocketAddr;

verus! {

/// The settings that govern which peers a node keeps.
#[derive(Clone, Debug, PartialEq, Eq)]
pub struct Config {
    /// The node is a bootnode: it introduces peers to each other and keeps none itself.
    pub is_bootnode: bool,
    /// The default bootnodes of the network.
    pub bootnodes: Vec<SocketAddr>,
    /// With fewer connected peers the node looks for more.
    pub minimum_number_of_connected_peers: u16,
    /// With more connected peers the node drops some.
    pub maximum_number_of_connected_peers: u16,
    /// How many peers the node tells another node of at a time.
    pub shared_peer_count: u16,
}

} // verus!
