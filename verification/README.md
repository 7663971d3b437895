# optimistic_sync

Optimistic headers-only syncing, with its behaviour stated in contracts and proved by Verus.

All the sources of blocks are assumed to form the same chain. Blocks are requested ahead of the
best block, from a random source, and verified in order, one by one. Where a block turns out not to
be valid, everything is requested anew, and not from the source that has sent it.

- `src/sync.rs`: the state machine, `OptimisticHeadersSync`.
- `src/queue.rs`: the queue of block requests.
- `src/sources.rs`: the sources, on top of the `slab` crate.
- `src/block.rs`: the verification of a block.
- `src/laws.rs`: what holds of the syncing as a whole.
- `src/runs.rs`: what holds after any series of calls.
- `src/format.rs`: printing.
- `src/ffi_api.rs`: the answers of the foreign function interface.
- `app/`: the state machine together with a tree of blocks, and the asynchronous entry points of
  the foreign function interface.
