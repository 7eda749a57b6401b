# ict_monitor

A verified library for monitoring markets by ICT rules: it aggregates candles,
keeps their history whole, follows divergences between correlated instruments,
turns them into trade candidates and alerts, and backtests the alerts.

Every function of the library carries a contract over mathematical models of its
data, and Verus proves that the code meets it. Prices are fixed-point integers in
billionths, multiples of the risk in quintillionths, times are milliseconds since
the Unix epoch, and what happens outside (databases, the market feed, the clock)
reaches the library as plain values.

## Layout

- `src/types.rs`, `src/detector.rs`: candles, timeframes, structures and divergences
- `src/calendar.rs`, `src/aggregator.rs`, `src/h4.rs`: trading days and candle building
- `src/boundaries.rs`, `src/aggregator_laws.rs`, `src/h4_laws.rs`: what holds of candle
  boundaries and of the candles that are built
- `src/history.rs`, `src/upkeep.rs`, `src/charts.rs`: completeness of stored candles,
  plans of repair, charts
- `src/subscription.rs`, `src/watchlist.rs`, `src/params.rs`, `src/config.rs`: what is
  monitored and how it is configured
- `src/smt/`: feeding, replaying and publishing divergences
- `src/structures.rs`, `src/inbox.rs`: what the interface lists
- `src/candidate/`, `src/alert/`: life cycles of candidates, alerts and their messages
- `src/backtest/`: simulation of alerts on one-minute candles, statistics and reports
- `src/text.rs`, `src/sorting.rs`, `src/table.rs`, `src/identity.rs`: shared tools

Laws that relate several functions are public proof functions whose names begin
with `law_`. Calls into other crates (`chrono`, `chrono-tz`, `blake3`, `url`,
`serde_json`) stand behind small wrappers whose contracts are trusted.

`app/` holds what is not verified: files, databases, the network, and the loops
that carry out what the library plans. `tests/` runs the library on concrete
values.
