# payments_ledger

An in-memory payments ledger verified with Verus.

- `src/accounts.rs`: the account table, a map from account identifiers to
  accounts with pairwise distinct identifiers.
- `src/easy.rs`: the basic ledger (create, deposit, transfer, freeze,
  unfreeze), specified by `apply` over the map of accounts.
- `src/hard.rs`: the audited ledger (adds withdrawals, sequential transaction
  identifiers, a history and atomic batches), specified by `apply` and
  `apply_all`, with its laws proved as proof functions.
- `tests/`: scenario tests for both ledgers.
