# blockrock

A proof-of-authority ledger whose logic is verified with Verus.

- `src/` is the library. Transactions are signed over canonical,
  length-prefixed bytes and identified by the SHA-256 of those bytes; blocks
  are hashed with BLAKE2b and sealed by an authority with Ed25519. The chain
  replays every block over a fixed initial allocation, so its balances and
  nonces are always those the replay gives. A mempool batches submissions,
  with a cap per datum and a cap on the whole pool. Peer synchronisation
  adopts a longer valid chain sharing our genesis and appends announced
  blocks that extend our tip. Around the chain: the request handling of the
  REST and gRPC APIs, the parsing of the configuration, and the cycle
  counting of the monitoring loop.
- `tests/` exercises the library on concrete scenarios.
- `app/` is the node binary: configuration from the environment, the key and
  chain files, the REST server, the block-time tick and the monitoring loop
  (whose measurements are floating point).

Every public function states its result in `ensures`; the properties that
relate several operations are proved as `lemma_*` functions next to the
code they speak of.
