# dsm_sdk

The decision core of the DSM client SDK, verified with Verus.

- `src/` is the library. Each module states its contracts over mathematical
  models (`Seq`, `Map`, spec functions and views) and proves them: the session
  lock and snapshot projection, the inbox poller's flags and cadence, the
  settlement-slot tally and its quorum intersection, the quorum-bind
  runner's attribution and backoff, the route-commit binder, parent-binding
  stamp and AMM re-simulation, the settlement receipt codec and storage
  keys, route-chain write planning over a committed set, the economic leaf
  cache, the SoFi advance decisions, the recovery key caches and their
  sealing at rest, and the choice among posted recovery evidence (the PDSMT
  head chain, the anchored authority, the one distinct anchor, receipt or
  proof, and a relationship's ancestry walk). The `lemma_*` proof functions
  state the laws that span several functions.
- Calls into `chacha20poly1305`, `bip39`, `rand` and std's string
  primitives stand behind small trusted wrappers whose contracts say what
  those crates document.
- `app/` is the runtime shell: the poller's tokio task, the process-global
  session and recovery state, the quorum-bind runner's async loop with its
  jittered backoff, the readers of the posted recovery cells, the drivers
  of the library's step machines (resuming a fenced settlement, binding a
  settlement behind its durability gate and fence, publishing a route's
  anchor and pending pointers, resolving the pending SoFi position,
  fulfilling), the activation context from the persisted recovery state,
  and environment lookups. It performs I/O and calls the library for every
  decision.
- `tests/` runs the library on concrete values.
