# txpool

The rules of a transaction pool, verified with Verus.

- `src/verification.rs`: the rules on a single transaction.
- `src/insertion.rs`: the course of a batch of new transactions.
- `src/notification.rs`: the handling of what consensus reports.
- `src/packing.rs`, `src/block.rs`: the limits and the contents of a new block.
- `src/model.rs`, `src/pool.rs`: the state of the pool and its operations.
- `src/laws.rs`: what the pool promises over more than one call.
- `src/u256.rs`, `src/hash.rs`, `src/text.rs`, `src/txmap.rs`: numbers, hashes,
  texts and maps. The arithmetic of 256-bit numbers and the parsing of
  addresses come from `ethereum-types` and are trusted.
- `app/`: the pool behind locks, beside the deferred pool, the block data and
  the state of a node.
