# vuvuzela

Metadata-private messaging in the style of Vuvuzela: clients exchange
fixed-size encrypted messages through dead drops, requests travel through a
chain of servers as onions (one layer per server), and cover traffic hides
which dead drops are used by real conversations.

The library in `src/` is verified with Verus. Every public function states in
its contract what it returns and how it changes its arguments, over
mathematical models (`Seq`, `Map`) of bytes, stores and onions. Where a result
depends on the operating system's random source (keys, dead drop indices,
nonces), the contract states what holds whatever the source gives or however
it fails, and a verified function that takes the drawn values (such as
`wrap_onion_with_keys` or `Server::place_noise`) states the rest exactly.

Layout:

- `bytes.rs`: little-endian encodings and byte helpers, with their lemmas.
- `primitives.rs`: SHA-256, AES-256-GCM and randomness, the trusted boundary
  (with bincode's wrappers in `codec.rs`).
- `types.rs`, `config.rs`: keys, dead drop IDs, messages, configuration.
- `crypto.rs`: key and dead drop derivation, padding, message encryption.
- `x25519.rs`: shared secrets of key pairs; both sides agree.
- `dead_drop.rs`: the per-round dead drop store.
- `codec.rs`: the wire encoding of onion layers, requests and invitations,
  made by bincode and stated byte by byte.
- `onion.rs`: wrapping and peeling onions.
- `server.rs`: servers and server chains; a wrapped request is delivered.
- `client.rs`: the client state machine and its cover traffic.
- `protocol/`: conversations, dialing and cover traffic generation.
- `demo.rs`: one round of the two-client demo.

`app/` holds the command-line demo and the floating-point Laplace sampling of
noise counts, which the library takes as plain numbers.
