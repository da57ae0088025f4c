# dex_arbitr

Perpetual spread arbitrage between venues: Lighter, its Robinhood deployment, SoDEX and
Entropy. A pair of markets is watched through a sliding window of its spread; a grid of
steps round the mean of that window says when to open, to add, to reduce and to close,
one step at a time and with both legs taken at the market.

- `src/` is the library. Every function in it carries a contract and is verified with
  Verus: decimals and text, books and spreads, the grid engine, positions, sizing, risk,
  reconciliation with the venues, the scan for pairs worth trading, and the decisions of
  the trading loop. Nothing in it does I/O and nothing in it panics; time comes in as an
  argument, and arithmetic that leaves the range of a decimal is an error value.
- `tests/` runs the library on concrete values.
- `app/` is the program round it: settings files, HTTP and web sockets, the sidecar
  process that signs orders, and the loop that hands books and fills to the library and
  carries out what it decides.

Where to start reading:

| module | what it holds |
|--------|---------------|
| `decimal`, `text`, `keymap`, `ranking`, `clock` | numbers, texts, maps, orders and time |
| `domain::window_grid` | the grid engine: lines, persistence, decisions |
| `app::window_spread` | the sliding windows and their means |
| `app::pair_look`, `app::pair_step` | a look at a pair, from what is switched on to its order |
| `app::burst`, `app::burst_look` | filling a position in rounds |
| `app::order`, `app::outcome`, `app::positions` | an order from its hand-over to its end, and what is held |
| `app::reconcile`, `app::audit`, `app::naked` | memory against the venues, and legs that stand open |
| `app::scan`, `app::candidates`, `app::scan_loop`, `app::scan_state` | the scan |
| `app::live`, `app::snapshot`, `app::monitor` | what a page is told |
| `app::intervention`, `app::reduce_only`, `app::backoff`, `app::limits` | what holds trading back |
| `exchange` | the venues' messages |

Public proof functions named `law_...` state what holds across several functions.

What the proofs rest on: the wrappers in `decimal` (round `rust_decimal`), in `text`
(round the standard library's string functions) and one in `exchange::bridge` (round its
paths). Each says in its doc comment what it claims.
