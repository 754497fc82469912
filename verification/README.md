# lending

A lending protocol for the Soroban smart-contract platform: a loan lifecycle
(request, approval, activation, repayment, default), a multi-asset collateral
vault valued through oracle prices, multisig pause control, a
governance-controlled platform fee, and flash-loan terms.

The protocol's logic is a library verified with Verus; a thin contract
crate puts it on the ledger.

## Layout

- `src/` — the verified library.
  - `types.rs` — identities, loans, payments, collateral entries, errors.
  - `rates.rs` — protocol constants, interest, fee shares, liquidation threshold.
  - `median.rs` — median of oracle price samples, with its laws.
  - `account_map.rs` — a map keyed by account identity.
  - `model.rs` — the abstract contract state (`LendingView`), the invariant
    every reachable state satisfies (`view_ok`), and the outcome of each
    entry point as a function of the state and the call.
  - `vault.rs` — deposits into and withdrawals from a collateral position.
  - `state.rs` — `LendingContract`: the stored state and the entry points,
    each proved to produce exactly the outcome `model.rs` describes; a
    rejected call leaves the state unchanged.
  - `stored.rs` — the state as plain lists, for ledger storage, and the
    checks a stored state must pass to be resumed.
  - `laws.rs` — properties that span calls: multisig voting thresholds, the
    loan lifecycle, loan creation, payments, rate-switch cooldown, and the
    collateral vault.
- `tests/` — tests of the library on concrete values.
- `app/` — the Soroban contract: caller authorisation, instance storage,
  events, token transfers, flash-loan callbacks, loyalty and referral
  contract calls, and code upgrades, around the library.
