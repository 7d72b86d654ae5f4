# Herald

A split-flap message board: a 6×22 grid of character and colour tiles that a
server rotates through a queue of messages and countdowns, and that viewers
watch flip into place.

The logic lives in the library under `src/`, written in Verus, with each
function's behaviour stated in its contract and proved:

- `board`, `layout`, `markup`, `text` — the grid, text layout (wrapping,
  alignment, templates, character normalisation) and colour markup;
- `countdown` — rendering the time left through a format template;
- `animation`, `watch`, `terminal` — flip animations, the terminal viewer's
  decisions and the box-drawn board;
- `queue`, `rotation`, `rate_limit`, `viewers`, `api` — queue order, rotation,
  rate limiting, viewer heartbeats and the server's request handling;
- `cli`, `client`, `web`, `dates`, `clock` — the command-line client, its API
  errors, the browser front end's decisions, date parsing and the clock.

`app/` holds the program around it: the Axum/SQLite server, the command-line
client and the ratatui viewer. `tests/` exercises the library.
