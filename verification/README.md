# ckb_filter

Block filters for light clients of a CKB node, verified with Verus.

- `src/` is the verified library:
  - `types`: hashes, scripts, cells, transactions, blocks.
  - `hash`: the chain's blake2b hash (through `blake2b-rs`).
  - `bloom`: peers' bloom filters as raw buckets, lookups and merges
    (through `bloom-filters`).
  - `filter`: the bloom filter protocol: which transactions a filter
    selects, how `GetFilteredBlocks` replies are cut, and the filters peers
    set, extend and clear.
  - `gcs`: the golomb-coded-set filter of a block (through
    `golomb-coded-set`).
  - `gcs_filter`: the golomb-coded-set filter protocol: ranges,
    checkpoints and replies.
  - `store`: the column/key/value writes of a store transaction, with
    read-after-write laws.
  - `size`: the unit a byte count is shown in.
  - `specs`: the requests and expected replies of the node-level checks.
- `app/` holds what runs around it: the database and network plumbing,
  timers and channels, caches behind locks, and the floating-point parts
  (filter sizing from a false-positive rate, sizes with decimals).
- `tests/` exercises the library with the real outside crates.
