# zosh

Core types and explorer logic of the zosh bridge, verified with Verus.

- `src/` is the verified library: blocks and their hashes, BFT vote
  validation, extrinsics, the block history window, merkle roots, the
  text encodings of ids, and the logic of the explorer service (rebuilding
  stored blocks, the records served to clients, request parsing, paging and
  the steps of the WebSocket subscriptions). Calls into `blake3`, `blake2b_simd`,
  `ed25519-dalek`, `hex` and `bs58` stand behind small trusted wrappers whose
  contracts state what those crates compute.
- `tests/` runs the library on concrete values.
- `app/` is the explorer web service: configuration, SQLite storage, the
  HTTP/WebSocket handlers and serializable copies of the library's records.

Not part of this crate: the node's command line (the Zcash light client and
the Solana client commands) and the block subscriber that feeds the
explorer over the node's RPC. They rest on the node's RPC, wallet and
Solana client crates, which this crate does not build on. `app/hook.rs`
holds what the service does with a finalized block once a feed hands it
one.

The original's maps keyed by 32-byte hashes (the bundles of an extrinsic,
the votes of a header, the bundle maps of the state) are kept as lists of
`(key, value)` entries in strictly increasing key order (`bundles_ordered`,
`votes_ordered`, `State::well_formed`): vstd specifies `BTreeMap` only for
key types whose order it specifies, and it specifies none for byte arrays,
so a `BTreeMap` here would come with no contract on its contents.
