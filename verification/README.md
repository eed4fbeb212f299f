# bullpen

A durable agent harness, with its logic verified by Verus.

A bullpen is a roster of relievers you call in, pull back, and send out again:
agent runs survive the process that started them. Every step of a run is
recorded before the next effect happens, a crashed run is recovered when its
session is next opened, and a delegated task reattaches to the child it already
has.

## Layout

- `src/` is the library. Every function in it carries a contract, and the laws
  that span functions stand beside them as proof functions named `law_…`.
  - `llm` — messages, provider wire formats, server-sent events, retries
  - `agent` — the loop, as a machine from what came back to what to do next
  - `store` — sessions, the conversation tree, the execution log, recovery, the
    inbox, workers, plans
  - `harness` — the loop's journal over the store, child agents, worktrees
  - `tools` — what each tool call asks for and what its outcome says
  - `sandbox` — write confinement
  - `auth` — credentials and login flows
  - `cli` — what the command line and the dashboard show
  - `text`, `path`, `json`, `hash`, `ids` — the ground the rest stands on
- `app/` is the command: files, processes, sockets, SQLite and the terminal
  around the library.
- `tests/` runs the library on concrete values.

## What is trusted

Calls into other crates stand behind declarations whose contracts are believed
rather than proved: JSON text (`serde_json`), SHA-256 (`sha2`), base64
(`base64`), random bytes (`getrandom`), ids (`uuid`), regular expressions
(`regex`), globs (`globset`), archives (`zip`, `tar`, `flate2`), and two functions
of the standard library. Each says above it what it claims.
