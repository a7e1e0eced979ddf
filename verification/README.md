# remitwise

Verified core of the RemitWise Soroban contracts, written in Verus.

- `src/insurance.rs` — the insurance policy registry: creation with per-type
  premium/coverage bounds and a per-owner cap on active policies, premium
  payments (single and batched), external references, deactivation,
  archiving and restoring, paginated listing, storage statistics and premium
  totals, each with an exact specification over `InsuranceView`, plus the
  registry invariant and the laws relating the operations.
- `src/orchestrator.rs` — admission of unsigned flows (amount check and
  execution lock) and of signed flow requests (deadline window,
  per-account nonces, execution lock, and the request hash
  `u64_le(SHA-256("flow" || nonce_le || amount_le || deadline_le)[..8])`
  that binds a request to its parameters; this scheme is the library's own
  choice) and the execution statistics and
  bounded audit log kept when a flow completes.
- `src/common.rs` — shared page-limit normalisation and coverage types.
- `src/checksum.rs`, `src/hex.rs` — the snapshot checksum
  (`SHA-256(version_le || format || payload)`, hex encoded).
- `app/` — the Soroban contract shell (storage, signatures, ledger time,
  events) around the registry, and the golden-checksum printer.
