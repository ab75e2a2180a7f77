# corral

An attention board for coding-agent sessions that run on one machine, with the
daemon that routes messages between them. The library is written in Verus: every
function states what it returns or changes, and Verus proves it.

## Layout

- `src/` — the library.
  - `text`, `path`, `json`, `order` — characters, texts, paths, documents, sorting.
  - `discovery`, `launch`, `approved_commands`, `curation` — the records that agents
    announce, the commands they may be started with, and what is published of them.
  - `model`, `engine`, `watch` — the board's content, and how it follows the records
    and the agents' sockets.
  - `nav`, `click`, `menu`, `transition`, `picker`, `palette`, `placement`, `focus` —
    what the operator does on the board.
  - `rpc`, `prompt`, `history`, `paths` — lines on the wire, and places on disk.
  - `daemon/` — requests, verdicts, routing, registration, the tray, the audit log.
  - `board/` — the terminal interface: geometry, drawing, keys and clicks; and the
    routing of messages left in an outbox.
  - `agentwrap`, `lister` — the wrapper that puts an agent's stdio on a socket, and
    the table of wrapped agents.
- `tests/` — the library's tests.
- `app/` — the programs around the library: files, sockets, windows, the terminal,
  the tray.

## What is proved

Contracts are stated over mathematical models: a text is a sequence of characters, a
document a tree, the approved kinds a map, the board a record of agents. Functions
named `law_…` state what holds across functions, such as

- a record that is published reads back as it was vetted;
- only records of a kind that the operator registered, with the commands that were
  registered, are published;
- only what the whitelist or the operator allows is performed, and everything else
  waits for a decision; an approval covers the one submission it was given for;
- a line added to the whitelist grants its pair, and no other;
- every agent has one place on the board, and every cell of a card that is drawn hits
  that card;
- moves between columns stay on the stops, and one that the agent does not confirm
  is forgotten.

What is believed without proof is marked `external_body` or `assume_specification`:
reading and printing JSON with `serde_json`, splitting the screen with `ratatui`, and
four functions of `std` on characters and strings. Each says above it what it claims.

## Limits

Times are nanoseconds of a monotonic clock, paths are texts, and what lies on disk or
behind a socket is handed to the library as values. `app/` reads and writes, and calls
the library for every decision.
