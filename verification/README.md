# tally

Wake routing for teams of agents: an agent registers the contexts it
handles, another dispatches a *wake* (a payload with a timeout) to it, the
target reads its inbox and completes the wake with a response, and the
dispatcher receives that response — or a timeout once the wake's deadline
passes. The runtime serves this over HTTP (a Cloudflare Worker in front of
one Durable Object per team); `tally` is its command-line client.

## Layout

- `src/` — the verified library (Verus).
  - `store.rs` — a team's durable state (`TeamStore`) and its operations:
    register/unregister, dispatch (with inbox overflow eviction), complete,
    alarm firing, inbox pages and team status; each proved to follow a
    transition function on the mathematical model `TeamStoreView`.
  - `lifecycle.rs` — laws over that model: the state invariant and its
    preservation, complete-once, terminal rows never change, timeouts at
    (and only at) the deadline, idempotent alarms and registration, reads
    after dispatch.
  - `footprint.rs` — which storage rows each operation reads and writes,
    and that loading those rows is enough for it to decide and write alike.
  - `team_api.rs` — the team object's internal routes: request validation,
    error replies, dispatch outcomes, inbox query parsing.
  - `gateway.rs` — the public front end: bearer parsing, authentication
    decisions, public↔internal shapes.
  - `replies.rs`, `errors.rs` — errors and their HTTP replies.
  - `codec.rs`, `iso8601.rs`, `text.rs` — base64, ULID text, ISO-8601 time.
  - `cli.rs`, `commands.rs`, `config.rs` — the command-line grammar and what
    the commands compute.
- `tests/` — tests of the library, including end-to-end HTTP scenarios run
  in process.
- `app/` — the `tally` program and the Worker/Durable Object glue: I/O,
  storage, clocks and waiting.
