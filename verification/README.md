# titan

The rune-indexing logic of the Titan Bitcoin indexer, written in Verus and proved against
its contracts.

- `src/` is the verified library. It parses transactions into rune state changes (edicts,
  mints, etchings, burns, cenotaphs), saves them into the index tables and reverts them,
  keeps the address index, orders mempool transactions, detects reorganizations, decides each
  step of a run that brings the index up to the node's tip (as a state machine whose actions
  the caller performs), encodes index keys and rune entries, and holds the indexer's
  settings and caches: the store's reads across the chain's and the mempool's tables (outputs marked spent by the mempool,
  transactions with their status, pages of rune transactions, address outputs), and the
  updater's cache that reads through its current update, the batches handed to the writer,
  a read cache and the store. Calls into
  `bitcoin`, `ordinals` and `clru` stand behind small trusted wrappers whose contracts say
  what the library relies on.
- `tests/` runs the library on concrete transactions and tables.
- `app/` is a small command-line program: it reads raw transactions, indexes them in memory
  with the library, and prints the events they raise.

Laws proved in the library include: a transaction's runes are conserved by allocation,
reverting a transaction right after saving it restores the runes, their names, numbers and
count, the outputs, the state change and the stored transaction (provided that no rune is
burned outside the mempool, the burns are distinct and can be negated, the inputs were
unspent and the new outputs absent, the etched rune is new and neither minted nor burned by
the same transaction, and the counts leave room), mempool transactions only touch pending
counts, a stored rune entry loads back unchanged, an inscription id reads back from its text,
a mempool order never puts a transaction before one it spends, grouping outputs by script
gives each script exactly its own outputs in order, a run keeps fewer blocks unflushed than
the commit interval and checks for reorganisations only on its first block or at the tip, an
RPC client pool never holds more idle clients than its capacity, the reordering buffer of a
block fetch hands out, over any blocks received, each height once and in order, every block
as it was received, and the updater's cache reads back what was set in it and reads the same
after handing its update to the writer.
