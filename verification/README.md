# aether

The core logic of the Aether node and its programs, written in Verus: every
public function in `src/` carries a `requires`/`ensures` contract that Verus
proves, and Verus checks every function there, helpers included.

## Layout

- `src/` — the verified library, one module per component:
  - programs: `token` (AIC token), `amm` (constant-product pool, with
    `math` and `bignum` for overflow-free arithmetic), `staking`,
    `governance`, `escrow` (AI job escrow), `account` (account
    abstraction), `reputation` (integer selection rules);
  - state: `merkle` (sparse Merkle tree and proofs), `storage` (write
    batches and pruning plans), `snapshots` (names, listing, compression,
    import checks);
  - runtime: `runtime` (host functions, mock state), `ledger_state`,
    `scheduler` (parallel batches), `wasm` (module checks, the host
    calls contracts make, entry-point fallback),
    `gas_costs`;
  - rollup: `rollup` (fraud proofs, state commitments);
  - interfaces: `rpc` (method routing, parameter parsing, transfer
    request checks), `client`
    (SDK: endpoints, HTTP framing, builders), `contract` (contract SDK);
  - shared: `types`, `keymap`, `seqfind`, `text`, `bytes`, `hashing`.

`KeyMap` is a map kept as an association list with a `Map` view.  It takes
the place of `HashMap` for keys that are byte strings, addresses or tuples:
with such keys the specifications of std's `HashMap` give no facts about its
operations (not even its length after one insert), so the contracts here
could not be stated over it.
- `tests/` — tests of the library against concrete values.
- `app/` — the parts that cannot be verified: floating-point reputation
  scores, snapshot files on disk, rayon execution of scheduled batches, the
  HTTP round trip of the RPC client, and reading RPC requests from JSON.

Calls into outside crates (`sha2`, `zstd`, `hex`, `num-bigint`,
`serde_json`) go through small trusted wrappers whose contracts are stated
next to them.
