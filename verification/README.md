# phinet_core

The verified core of the ΦNET overlay network, written in Verus.

- `src/` is the library: handshakes and sessions, onion layers, hidden-service
  rendezvous, path selection, streams, replay protection, and the decisions that a
  node takes when a cell, a message or a timer reaches it. Each executable function
  states in its contract what it computes. The functions named `law_…` state what
  holds of several of them together.
- `tests/` runs the library on concrete values, with the cryptographic crates linked.
- `app/` is the ordinary Rust around it: sockets, plugin processes, files, records
  for serialisation, and the loops that perform what the library decides.

What the proofs rest on is marked `external_body` or `assume_specification` in `src/`:
the calls into the cryptographic crates (`crypto.rs`, `pow.rs`, `timing.rs`), the
random number generator (`path_select.rs`), the strings and numbers of JSON
(`fields.rs`), channels (`channels.rs`), text (`text.rs`), the clock (`clock.rs`), and
the home directory and paths below it (`store.rs`). The comment above each names the outside function and says what is taken for granted.

Times are numbers: Unix seconds for what is kept, nanoseconds since an origin of the
caller's choice for padding and rate control. Secrets are byte arrays.
