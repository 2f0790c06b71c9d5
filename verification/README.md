# taiga

Core of the TAIGA mesh network, written in Verus: routing, exit choice,
fragmentation and reassembly, the sealing of one onion layer, the onion
plan and the small wire formats are proved against their contracts; the
layering loop with its JSON encoding, sockets, the on-disk buffer, Android
glue and the text dashboard are plain Rust in `app/`.

Layout of `src/`:

- `types` — node identifiers, statuses, freedom levels, routes, needles,
  proxy messages and onion layers, with their mathematical views.
- `routing` — the routing table: freedom-aware path-vector updates with
  loop protection, lookups and exit-node selection, and the laws of an
  exchange with a neighbour.
- `resin` — cutting payloads into needles and reassembling them in any
  order.
- `crypto` — ECIES-style sealing (x25519 + ChaCha20-Poly1305) through
  trusted wrappers of the outside crates.
- `mycelium` — the node core: discovery, identity rotation, onion plans.
- `node` — the decisions of the needle loop (duplicates, delivery,
  forwarding or storing), freedom probing and dashboard rows.
- `peers`, `framing`, `bytes` — what the transports keep of neighbours,
  length-prefixed frames and big-endian integers.
- `dtn` — store-and-forward records and their expiry.
- `socks5` — the SOCKS5 handshake as a step function.
- `jni_bridge`, `ui` — Android bridge state and the journal.

The tests in `tests/` exercise the library with the real outside crates
linked.
