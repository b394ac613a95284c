# aum_oracle

Verified logic of an AUM (assets under management) oracle for CosmWasm chains:
messengers submit Binance and Jupiter/Solana account data, a round-based
consensus agrees on it, and contracts turn the agreed data into an AUM in uwBTC,
record exchange rates and publish their time-weighted average.

- `src/` — the library, proved with Verus:
  - `items`, `decimal`: median-window consensus on numbers, fixed-point decimals;
  - `consensus`: rounds, configuration and the publication state machine;
  - `jupiter`, `jupiter_cleanup`, `jupiter_consensus`, `jupiter_receiver`,
    `jupiter_aum`: Solana data, its validation, cleaning, consensus and pricing;
  - `binance`: Binance data, its cleaning, consensus and AUM;
  - `twaer`, `aum`: exchange-rate histories and their time-weighted averages;
  - `waitosaur`: the lock that published data releases;
  - `receiver`, `sequences`, `strings`, `sample_data`: shared pieces.
- `tests/` — tests of the library on concrete values.
- `app/` — the contracts' entry points: storage, queries, address checks, JSON.
