# peers

Peer maintenance for a network node, verified with Verus: which peers the node keeps, drops,
dials and tells other nodes of, and the handshake that opens a connection.

A node decides and leaves the doing to the code around it. Its operations change the peer book and
return a list of effects (send, connect, close, save), which are carried out in order.

- `src/peer_book.rs`: the peers and how the node stands with each.
- `src/node.rs`: starting, completing and ending connections.
- `src/update.rs`, `src/recency.rs`: the periodic update, in two stages.
- `src/exchange.rs`: telling other nodes of peers, and hearing of peers from them.
- `src/handshake.rs`: the initiator's side of the Noise handshake, one step at a time.
- `src/storage.rs`, `src/encoding.rs`, `src/message.rs`: what is stored and sent, as bytes.
- `src/random.rs`, `src/time.rs`: the edges to chance and to the clock.
- `src/laws.rs`: what holds across operations.
- `app/`: sockets, tasks and locks around the library.
