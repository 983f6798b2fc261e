# coralswap

The core of the CoralSwap automated market maker on Soroban, written in
Verus: the functions of `src/` are verified by Verus against their
contracts, and the outside 256-bit operations they call are stated in
a few trusted wrappers in `src/wide.rs`.

- `src/` — the verified library:
  - `math`, `wide`, `liquidity`, `flash_loan`: fixed-point and 256-bit
    arithmetic (over `ethnum`), the constant-product swap, the single-sided
    deposit split, LP minting and burning, flash-loan fees;
  - `pair`: the pair's stored records, reentrancy lock and oracle update;
  - `factory`: the pair registry, pause, fee settings, per-pair fee
    overrides and the timelocked multisig upgrade;
  - `router_helpers`, `routing`, `router`: pricing, best-path search over
    one to three hops, swap and liquidity plans, commit-reveal;
  - `commitment`, `hashing`: the byte layouts that are hashed, and the
    commitment and deployment-salt hashes (SHA-256 by the host);
  - `events`: event topics, payloads and their split into topics and data,
    and the topic naming convention;
  - `receivers`, `ledger`: the flash-loan receivers and token stubs the
    pair is exercised against.
- `tests/` — concrete scenarios and edge cases run against the library.
- `app/` — the Soroban contracts (factory, router, flash-loan receivers)
  that load state from the ledger, call the library and carry out what it
  decides: storage, transfers, pair calls, deployments, events.
