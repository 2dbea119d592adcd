# science_vault

A Verus-verified model of the Science Vault chain logic.

- `src/vault.rs` — the vault pallet: element hashes registered by paying a
  fee, owned by accounts, with sources attached by their owners and deletion
  by root.
- `src/reward.rs` — the reputation pallet: contributions, rewards,
  punishments, slashes, and the periodic evaluation round that re-computes
  every reputation against the best raw reputation and pays accounts.
- `src/weight.rs`, `src/weights.rs` — execution weights and the benchmarked
  weights of the runtime.
- `src/perbill.rs` — parts-per-billion fractions, computed by `sp_arithmetic`.
- `src/handlers.rs` — fee conversions and the owner lookup used by the runtime.
- `src/dispatch.rs` — origins and errors.

Storage is held in plain Rust values (`HashMap`, `Vec`); each call states in
its contract the new storage, the error it ends with, and that a failed call
changes nothing. Work that belongs to the balances ledger (withdrawing the
fee, depositing payouts) is returned to the caller as plain values:
`vault::Pallet::fee_due` says which fee to withdraw, and
`reward::Pallet::process_evaluation_queue` returns the payouts to deposit.
