# trend_arb

Spot-trading plumbing for Binance, Gate.io and OKX, and best-bid market data
over pooled websockets, with the decision-making parts verified by Verus.

## Layout

- `src/` — the verified library.
  - `text.rs`: UTF-8 bytes of strings, decimal text of integers, parsing.
  - `clock.rs`: wall-clock readings through `std` and `chrono` that give
    `None` instead of panicking on a clock before the Unix epoch, and the
    monotonic `tokio` clock the write pacing runs on.
  - `crypto.rs`: HMAC-SHA256/512, SHA-256, hex and base64, as the `hmac`,
    `sha2`, `hex` and `base64` crates compute them (trusted wrappers).
  - `fix/message.rs`: building, framing, extracting and reading FIX messages,
    and the Kraken logon.
  - `trade/`: request types, signatures and the connection/login state of the
    Binance, Gate.io and OKX websocket trading clients; the shared parameter
    sort and query string, the reconnection counter and the error type.
  - `web_socket/`: frame kinds, write pacing, and `WsConnectionPool`, the
    bookkeeping of a pool of connections sharing a market's subscriptions.
  - `deepdata/`: the settings and messages of the best-bid clients, and the
    quantity sold after a price-jump buy (decimal arithmetic of
    `rust_decimal`).
- `app/` — the program: async websocket I/O, JSON (serde) forms of the
  messages, the trading clients' connection loops, the market-data readers
  and the price-jump trading, which works on floating-point prices.
- `tests/` — tests of the library.

The laws the library proves are public proof functions named `lemma_*`
(for example `lemma_extract_returns_built_message`, `lemma_sorted_by_key`,
`lemma_reconnect_gives_up`, `lemma_batch_keeps_capacity`,
`lemma_extract_waits_on_any_prefix`, `lemma_backoff_exponential`).
