# trader_claw

The verified core of a crypto and prediction-market trading agent, written
in Verus.

`src/` holds the logic, with contracts that Verus proves (the request
timestamp, which reads the clock, promises nothing of the time it reads):

- `runner` — the registry of live strategy runners (status transitions,
  restore after a restart, emergency stop of live runners, listing order);
- `windows` — market-window arithmetic and the decisions of the Polymarket
  runner (decision minute, early fire, drift capture, window turn, outcome
  source, watchdog, automatic restarts, hour gate, loss streaks);
- `dates` — `%Y-%m-%d` date ranges (parsed by chrono) and the paging of the
  Binance and Polymarket history downloads;
- `timeline` — the stable chronological merge of candles and funding
  snapshots and the synthetic funding schedule of the event backtest;
- `binance` — request signing (HMAC-SHA256, hex) and the query strings of
  the futures endpoints;
- `lines`, `text`, `paths` — line splitting as `str::lines` does it, the
  rolling runner log, the credential update of the configuration file,
  string and path helpers;
- `selector`, `settlement`, `ticks`, `scripts`, `symbols`, `intervals`,
  `tools` — the asset selector's record, bet settlement, tick-file pruning,
  script patching, symbol conventions, interval parsing and tool outputs;
- `edge`, `backfill` — the verdict of the edge validation and the selection
  and tally of the historical-resolution backfill.

`app/` is the plain Rust around it: file and network I/O, SQLite, serde
copies of the library types, and the floating-point computations (the
Rhai backtest engines, the statistics of the edge validation).
`tests/` runs the library on concrete values.

Not here: the runner loops themselves (Polymarket, tick, crypto and
funding-arbitrage), `start_runner`, the order, resolution and stop-loss
monitors, the portfolio guard, the tick recorder's start and stop, the
strategy-core engine backtests with `merge_params`, the historical
backfill's I/O and the bundled default scripts. They rest on the
`polymarket_trader`, `strategy_core`, `risk_manager` and
`hyperliquid_trader` crates and on modules and script files that this
source tree does not hold. The runner decisions in `windows` therefore
have no caller yet besides the tests.
