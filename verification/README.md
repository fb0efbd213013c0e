# stocksman

The core of a read-only crypto charting workbench, written in Verus: the
provider-neutral market-data contracts, the in-memory candle store, the
offline replay provider and the Binance Spot adapter's normalization, the
user-configuration rules, and the request handling of the private loopback
backend. Verus proves the contracts of the library's functions; the few
small wrappers that call chrono, reqwest, rusqlite, serde_json or std
directly are marked `external_body`, and Verus believes their contracts
without proof.

## Layout

- `src/market_data.rs`, `src/price.rs`, `src/text.rs`: canonical instruments,
  intervals, candles and history requests with their validation rules. Prices
  and volumes are IEEE-754 binary64 values held as bit patterns, so the rules
  on them are integer arithmetic.
- `src/series.rs`, `src/time_sort.rs`: ordered candle series and the stable
  time sort used by history queries.
- `src/candle_store.rs`: the candle cache (ordered snapshots, ignored
  duplicates, revisions, atomic batches, gap detection) and its laws.
- `src/calendar.rs`: calendar-month steps, computed by chrono.
- `src/providers/`: the offline replay provider and the Binance adapter's
  request checks, query, error mapping and kline normalization.
- `src/configuration.rs`: the persisted configuration document and its rules.
- `src/http_request.rs`, `src/http_api.rs`: reading a request from the bytes
  received, routing, query parsing and the answers of the loopback API.
- `src/supervisor.rs`: the status the shell reports and the decisions of the
  loop that starts and restarts the backend.
- `app/`: the executable around the library: sockets, SQLite, HTTPS calls,
  JSON encoding, the generated offline fixture and the process supervision.
- `tests/`: tests of the library on concrete values.
