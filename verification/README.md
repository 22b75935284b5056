# zchronod

The verified core of a small peer-to-peer chat and key-value setup: clients
talk to a node over a WebSocket, and the node forwards each message to the
agent it is addressed to.

- `src/varint.rs`, `src/wire.rs`, `src/message.rs`: the protobuf encoding of
  `ZMessage`, built on `prost`'s field primitives, with the proof that decoding
  an encoded message gives it back.
- `src/clock.rs`: vector clocks and their merge, with its lattice laws.
- `src/client.rs`: framing what the user types, and the state of a key-value
  client that keeps the clock of what it has observed.
- `src/node.rs`: decoding a frame and the hex agent id it is addressed to.
- `src/db.rs`: database file paths, handles and the registry of open databases.
- `app/`: the command-line client, the WebSocket plumbing and file-system
  access around the library.
