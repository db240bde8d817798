# tradier_events

A client for a brokerage's market-event stream, split in two:

- `src/` is the verified library (Verus): the JSON subscription payload
  (`payload`, over the string escaping in `json`), the session answer and the
  session id taken out of it (`session`), the splitting of the typed ticker line
  (`tickers`), and the plain data of the trading model (`primitives`, `trading`).
- `app/` is the program around it: HTTP and websocket I/O, reading the
  terminal, parsing the float-valued market events, printing them, and the
  floating-point option pricing.
