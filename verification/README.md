# pnvm_lib

Transactions over shared objects in memory that may be persistent, written in
Verus: every function of `src/` is proved to meet its contract.

- `src/txn.rs`: identifiers, and the table in which transactions see each other's
  progress.
- `src/tcore.rs`: the store of shared objects, with their versions and locks, and
  the tags by which a piece remembers what it read and wrote.
- `src/piece.rs`, `src/plog.rs`: the units of work, and what is logged and flushed.
- `src/parnvm/nvm_txn.rs`: a transaction as a sequence of pieces. `execute_txn`,
  `execute_piece` and `commit` begin an execution, a single piece and a commit;
  `step_txn` takes the next step. Each names the action (run a piece, wait, flush,
  write a commit record) that has to come before the step after it.
- `src/parnvm/nvm_txn_occ.rs`: pieces under optimistic concurrency control, with
  `step_piece` for the steps of a commit that is logged, flushed and recorded.
- `src/workload.rs`: the plan of the demonstration workload.
- `src/laws/`: what holds of the library as a whole, as proof functions.
- `app/`: a program that drives transactions on several threads.

The table and the store are plain values. Whoever shares them between threads
guards them, as `app/driver.rs` does with reader-writer locks, and calls of the
library are atomic to each other.
