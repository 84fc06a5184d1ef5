# arbiview

The core of a desk that earns funding on Binance and Bybit: it holds a long leg on
one venue against a short leg on the other, and collects the difference in funding.

`src/` is a verified library. It takes what the exchanges said, as plain values, and
decides: which routes are worth offering, which orders to send next, what a batch of
orders came to, when a leg is exposed and has to be closed, what to tell the person
at the other end of the chat. Every function states what it returns or changes, and
Verus proves it. Nothing in it reads a clock, a file or a socket.

| Module | What it holds |
| --- | --- |
| `num` | binary64 numbers by their bit patterns, with proved rounding, decimals and sums |
| `text`, `json`, `parsing`, `sorting` | text, JSON values, request fields, stable orders |
| `config`, `failure`, `models`, `ledger` | settings, failures and the data that is passed around |
| `signing` | what is signed for the two exchanges |
| `market` | decoding of quotes, routes, scans, the search for opportunities, projections, averages and history |
| `account_stream` | private account streams |
| `trading` | order plans, fills, paired opening and closing, batches, guards, protection |
| `advisor`, `spread_strategy`, `funding_cycle_strategy` | what to enter, hold and leave |
| `telegram` | commands, confirmations, menus and notices of the bot |

Work that alternates with the exchanges is written as runs: a run says which order or
request comes next, and is told what came of it.

`app/` is the service around the library: HTTP routes, websockets, the Telegram
client, persistence and timers.

Prices, quantities and returns are `num::Double`. Its operations are those of IEEE 754
binary64 with rounding to the nearest even, so results agree bit for bit with `f64`
wherever they are numbers. Of the sign and the payload of a result that is not a number
`f64` promises nothing.
