# runtrail

A local-first event trail for agentic development workflows: one compact JSON
object per line (`.runtrail/events.jsonl`) recording commands, repository
state, CI context and notes.

Layout:

- `src/` — the library, verified with Verus:
  - `text.rs`: whitespace, decimal rendering, lexicographic order of texts;
  - `json.rs`: JSON values, their compact text, member lookup;
  - `event.rs`: the schema v1 envelope, stamping new events, validation;
  - `index.rs`: index entries and counts per event name;
  - `repair.rs`: event filters and the agent repair prompt;
  - `cli.rs`: `key=value` attributes and event bodies read as JSON,
    environment allowlists, the next sequence number, `tail` lines and the
    `ci github-context` allowlist;
  - `redact.rs`: hiding the values of secret options in logged command
    lines;
  - `command.rs`: the `command.start` and `command.end` events of `run`.
- `app/` — the `runtrail` command line (`log`, `tail`, `validate`, `run`,
  `ci github-context`, `repair-prompt`, `completions`): argument parsing,
  files, processes, the environment and JSON (de)serialization.
- `tests/` — tests of the library.
