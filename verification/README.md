# MiniChain

A small permissioned ledger for signed records (certificates, course
completions, official documents): transactions are signed with Ed25519,
grouped into blocks linked by SHA-256 hashes and Merkle roots, approved by a
two-thirds quorum of validators, stored, snapshotted and replicated between
trusted nodes.

## Layout

- `src/` — the library, verified with Verus: hexadecimal and text order,
  canonical JSON, transactions, blocks, Merkle trees, chain validation, the
  validator registry and authority consensus, the mempool, the storage model
  (commit plans, indexes, snapshots, record evidence), the peer protocol's
  decisions (envelopes, peer table, synchronization) and the HTTP API's rules
  (errors, roles, tokens, rate limits, paging).
- `tests/` — tests of the library on concrete values.
- `app/` — the `minichain` program: command line, redb database, TCP peer
  node, axum REST API and WebSocket events, and the demonstrations. It
  serializes the library's types and performs the I/O the library decides on.
