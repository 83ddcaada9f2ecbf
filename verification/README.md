# astrax

The core of a spot exchange, verified with Verus.

- `src/domain.rs`: assets, markets, orders, trades and their labels.
- `src/engine.rs`: the order book of one market and its matching engine
  (price-time priority, trades at the resting order's price).
- `src/balance.rs`: per-user available and locked balances, and the
  settlement of trades against them.
- `src/funds.rs`: what an order locks when placed and releases when cancelled.
- `src/records.rs`: the stored form of orders and balances.
- `src/api.rs`: the requests and responses of the HTTP interface.
- `src/actors.rs`: what the owner of a book or of the ledger answers to each
  command, and which records it writes.
- `src/book_laws.rs`, `src/ledger_laws.rs`: properties of the book and the
  ledger, proved over their specifications.
- `app/`: the HTTP server, the actors that own the books and the ledger,
  Postgres persistence, and latency benchmarks.
