# ramshield

The decision core of a DDoS-mitigation engine, written in Verus: every
function in `src/` carries a contract that Verus proves.

- `src/` — the library: wire formats (IPC frames, WAL records and
  segments, XDP map keys), sketches (count-min, HyperLogLog, Bloom), the
  per-flush detection step (aggregation, promotion, record merge, subnet
  gates, block decisions), the key-value store
  with its byte accounting, the enforcement ledger and its WAL replay, the
  brute-force detector, HMAC frame authentication with a replay store,
  configuration defaults, bounds and overrides, metrics, the mesh clock and
  CRDT set. Floating-point scores are held as IEEE-754 bit patterns.
- `app/` — the program around it: the brute-force monitor binary, file and
  socket I/O, threads and channels, serde and TOML, and the floating-point
  estimators (EWMA, CUSUM, Holt-Winters, the Bayesian forecaster).
- `tests/` — tests of the library on concrete values.

Outside crates the library calls (CRC-32, LZ4, HMAC-SHA-256, hex, aHash,
DashMap, UUID) are reached through small wrappers whose contracts are
trusted; their doc comments say what each one claims.
