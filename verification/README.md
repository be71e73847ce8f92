# vnt_channel

The transport channel of a peer-to-peer virtual network: it keeps the routes to the peers, sends
packets over the best of them, and receives packets over TCP and UDP.

- `src/` is the verified library. It decides which route a packet takes, which routes are kept,
  how packets are framed in a TCP stream, and how the parts of a channel answer to what happens
  to them. Its contracts speak of a `ContextView`, the mathematical value of what the parts of a
  channel share; `laws.rs` states what the functions promise together.
- `app/` holds the sockets, threads, tasks and locks. It carries out what the library decides and
  tells it what happened.
- `tests/` runs the library.
