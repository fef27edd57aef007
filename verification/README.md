# forge

A streaming-first terminal coding agent. The library in `src/` is verified
with Verus; `app/` is the program around it.

## The library

- `agent_loop` is one user turn as a state machine: it says what is awaited
  (a model request, the next event, a permission, a tool, a save), takes the
  reply, and says what is to be reported. `turn_laws` proves what holds of
  whole turns.
- `history`, `protocol`, `recovery` keep the conversation in the order that
  providers demand.
- `context`, `compact`, `budget` count tokens, compact the history and stop
  runaway turns.
- `openai`, `responses`, `anthropic` write the requests and read the streams
  of the three wire protocols; `provider` holds what they share, `json` the
  values.
- `permissions`, `approval`, `runtime`, `registry`, `support` decide what may
  run and what is known.
- `shell`, `session`, `startup`, `config` are the tool's limits, the stored
  sessions, and how a conversation starts.
- `tui_app`, `ui` are the user interface's state and what it shows.

Outside crates are called through a few functions whose contracts are stated
and not proved: serde_json reads and writes JSON text, chrono reads
timestamps, uuid reads and writes ids, unicode-width measures columns.

## The program

`app/` talks HTTP, runs commands, stores sessions in SQLite and draws the
terminal. `forge` opens the user interface; `forge check "prompt"` runs one
turn without it.
