# maker_bot

A market-making bot for the Up/Down markets of Polymarket, with a verified core.

`src/` is the core, written in Verus. It decides everything and does no I/O: every clock
reading, message and reply comes in as an argument, and what has to be done goes out as a
value (an action, an effect, a command).

| Module | What it holds |
| --- | --- |
| `double` | binary64 numbers as bit patterns, with correctly rounded arithmetic and decimal texts |
| `text` | the operations on texts that the rest needs |
| `config` | the configuration, its defaults, and how secrets go over it |
| `events` | the events that the parts of the bot tell each other |
| `startup` | how often the database is tried |
| `store` | the concurrent maps of `dashmap`, with what is believed of them |
| `feeds` | price streams, order books, their connections and the hub that joins them |
| `fees` | the fees of the exchange |
| `strategy` | quotes, risk limits, the endgame strategy, and the life of a market |
| `position` | what is held of each token, and the merging of complete sets |
| `executor` | the life of an order, the amounts that are sent, and the cycle that places and replaces orders |
| `discovery` | which markets must exist now, by the clock and the calendar of the east coast, and the rounds that look for them |
| `telegram` | commands, answers and alerts |

Prices and sizes are floats at the edge of the core and `Double` in it. A contract that speaks
of `x.plus(y)` therefore speaks of the rounded sum, bit for bit.

What a `DashMap` holds is a mathematical map from keys to values; the order in which it is
walked is left open, so a contract about such a walk says that some order exists.

`app/` is the program around the core: sockets, HTTP, the database, signing and logging.
`tests/` runs the core on concrete values.
