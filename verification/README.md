# oracle_proxy

A BTC/USD oracle proxy: it aggregates exchange prices, compares them with the
last committed Chainlink price, raises round alerts, ingests Polymarket order
books and serves everything over WebSocket, HTTP and a terminal dashboard.

- `src/` — the library, verified with Verus: feed message reading (trades and
  book updates), Chainlink reply decoding with its price range, alert edge
  detection, price freshness and feed latency, price history, reconnect
  backoff, market window slugs and discovery records, order-book state and
  round-market selection, sampling and writer buffering rules, WebSocket
  subscriptions, condition frames and frame numbering, dashboard rows and text
  formatting, HTTP request and order-field rules, the pre-signed transaction
  queue, configuration.
- `tests/` — tests of the library.
- `app/` — the service around it: network and database I/O, the float
  arithmetic (median, deviation, indicators, book metrics, LMSR), the servers
  and the terminal UI.
