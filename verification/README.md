# hexfetch

The verified core of a HEX statistics server (and its ESP32 variant): decoding of
on-chain call results, the day-indexed history and its backfill bookkeeping, miner
records, settings limits, the text protocols of the HTTP API (query strings, entity
tags, content types), asset compression choices and the decisions of the background
jobs. Every function in `src/` carries a contract checked by Verus.

- `src/` — the library, verified with Verus.
- `tests/` — tests of the library on concrete values.
- `app/` — the server program: HTTP, files, network and float arithmetic, built on the
  library.
