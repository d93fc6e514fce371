# prism

The part of a Prism node that collects transactions and mines blocks, verified with Verus.

- `src/transaction/`: transactions, the bytes that stand for them, and their hashes.
- `src/miner/memory_pool.rs`: the pool of transactions that wait for a block. Its model is in
  `pool_view.rs`, and what its operations keep and undo is in `pool_laws.rs`.
- `src/miner/context.rs`: the mining loop, as a machine that asks for what it cannot compute. Its
  model is in `context_view.rs`, and what it keeps to is in `context_laws.rs`.
- `src/table.rs`, `src/order.rs`: tables with records as keys, and sets listed in order.
- `src/block.rs`, `src/config.rs`, `src/crypto/`: blocks, parameters, hashes and signatures.
- `app/`: the thread that serves the requests of the machine, with its channels.

SHA-256 comes from `ring`, and the encoding of transactions from `bincode`. What is taken on trust
of the two is said at the functions that call them.
