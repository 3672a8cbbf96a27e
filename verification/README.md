# updown

A trading program for the up and down markets of Polymarket, around a verified
library.

- `src/` is the library, verified with Verus. `trader` decides what to buy on a
  snapshot of a market and what a closed market has earned, by the rules of
  `strategy`; `monitor` follows a market and reads the messages of its price feed;
  `slug` and `discovery` name and find markets; `history` reads old trades;
  `redeem` and `config` hold what the program is started with.
- Prices and amounts are numbers of the binary64 format, held by their bits in
  `binary64` and computed on with integers, so that every decision is stated and
  proved on exact values. `text`, `table`, `json`, `decimal` and `calendar` are
  what the rest stands on.
- `*_laws` hold what is proved of several functions together.
- `tests/` runs the library, with the machine's own numbers beside it.
- `app/` is the program: arguments, files, sockets and the exchange.
