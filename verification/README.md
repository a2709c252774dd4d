# ogtp

Verified building blocks of the OpenGate Transfer Protocol, an encrypted multipath transport over
UDP.

- `src/` is the library, verified with Verus against its contracts: the wire formats and their
  codecs, the handshake with its stateless retry cookies, transcript and key schedule, identity and
  manifest authentication, the Merkle tree of an object, packet protection, loss recovery,
  congestion control on one path and coupled over several, ECN validation, flow control, and the
  bounded queues, timers and socket profiles of the runtime.
- `tests/` exercises the library from outside, with SHA-384 and HMAC from independent crates.
- `app/` holds the sockets: a portable adapter on the standard library and a batched one for Linux.

Cryptographic primitives are not part of the library. It reaches them through provider traits,
whose contracts say what the rest of the library relies on.

Four items of `src/` are trusted instead of verified, and each says in its doc comment what it
claims:

- `manifest::utf8_text` calls `core::str::from_utf8`;
- `runtime::pool::zeroize_bytes` calls `zeroize::Zeroize::zeroize`;
- `runtime::identity` declares `RandomState::new`, and its `drawn_number` calls
  `BuildHasher::hash_one`. Nothing is claimed of either result.
