# void

Peer-to-peer messaging over Tor: an identity is a v3 onion address derived
from an Ed25519 seed, peers talk over signed sessions, direct messages are
sealed with X25519 → HKDF-SHA256 → ChaCha20-Poly1305, groups share a key
sealed pairwise, and online peers hold envelopes for offline ones.

## Layout

- `src/` — the library, verified with Verus. Every decision of the
  messenger is a function here with a contract: identities and onion
  addresses (`crypto`, `base32`), conversation keys and sealing
  (`dm_crypto`, `messages`), wire data and associated data (`proto_dm`,
  `proto_groups`, `frames`, `handshake`), invitation links (`invite`,
  `percent`), groups and their membership (`groups`), contacts and
  requests (`contacts`), sessions, presence and relaying (`session`), the
  engine's rules (`engine`), the Tor configuration and control protocol
  (`tor`, `tor_control`) and the seed file (`seed_file`). Calls into the
  cryptographic and encoding crates go through the trusted wrappers of
  `primitives` (and two in `std_glue` and `tor`), whose contracts are
  believed, not proved.
- `tests/` — tests of the library on concrete values.
- `app/` — the program around the library: the Tor process, sockets,
  SQLite, JSON files, serialisation of wire frames, and a line-oriented
  front end. It asks the library what to do and does the I/O.
