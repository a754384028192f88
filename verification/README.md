# retirement

A trading bot for Polymarket's 5-minute crypto up/down binary markets. It
streams Binance trades for price context and Polymarket order books for
signals, runs pluggable strategies, and executes their orders against a
simulated executor with portfolio tracking.

The project is split in two crates:

- `src/` is the library, written in Verus: the order-book maintenance, the
  feed-message decoders, the strategies, the fee model, the portfolio, the
  simulated fill rule and the engine's per-event decisions, with contracts
  that Verus proves. A few small functions stand at the edge and are
  trusted rather than proved: the clock reading, lower-casing, and reading
  and writing JSON lists of strings, each calling std or `serde_json`.
- `app/` is the program around it: command-line parsing, logging, the
  WebSocket and REST feeds, the timers and the event loop. It hands each
  event to the library's `EngineCore` and performs the orders it gets back.

## Numbers

Prices, sizes, balances and fees are fixed-point integers with eight decimal
places (`decimal::UNITS_PER_ONE` units make 1). Feed messages carry decimal
strings; `decimal::parse_decimal` reads them exactly, and a value with more
than eight decimals or too large for a `u64` is refused rather than rounded.

## Layout

```
src/
  decimal.rs            fixed-point units and the decimal-string parser
  strmap.rs             string-keyed map that keeps insertion order
  text.rs               string helpers (decimal formatting, lower-casing)
  clock.rs              wall-clock reading
  types/                markets, ticks, orders, price levels, order books
  sources/binance/      trade messages, stream URL
  sources/polymarket/   Gamma market records, market-channel events, URLs
  strategy/             Strategy trait, registry, spread and arbitrage strategies
  portfolio/            fee model, in-memory portfolio
  execution/simulated.rs  simulated fills (price rounded to the cent)
  config/               CLI model, operation mode, pair table, AppConfig
  engine/runner.rs      epoch slugs, strategy window, EngineCore
app/
  main.rs, cli.rs       argument parsing, logging
  wire.rs               serde copies of the message types
  feeds.rs              Binance and Polymarket clients
  executor.rs           simulated executor task
  runner.rs             the event loop and market rolling
tests/                  tests of the library
```

## Order books

Bids are kept best (highest) first and asks best (lowest) first. A price
change sets, adds or removes one level, and the book is then brought in line
with the best bid and ask the feed reports alongside it: bids above the
reported best bid and asks below the reported best ask are taken off.

## Market rolling

Markets are 5-minute epochs. At each epoch boundary the engine clears its
order-book state, looks the new epoch's markets up by slug
(`<pair>-updown-5m-<epoch start>`), and resubscribes to the new assets.
Strategies pause during the first and last 8 seconds of each epoch.

## Usage

```bash
# all pairs, simulate-live mode
retirement
# selected pairs
retirement --pairs btc,eth
retirement --log-level info
```
