# rule_system

A project-level rule manager: rules live in a per-project SQLite database
(`<project_root>/.codex-rules/rules.db`), and each session only records which
rules it selected. The crate is written in Verus: the library in `src/`
states contracts that Verus proves, apart from a few small wrappers around
calls into the standard library, serde_json and serde_yaml (the clock,
lowercasing, path prefixes, string pushes, JSON text and the YAML parse),
whose contracts are trusted.

## Layout

- `src/` — the verified library.
  - `text`, `split`, `tags`, `numbers`, `order`: text handling (trimming,
    splitting, tag lists, decimal numbers, text order) with their models.
  - `status`, `session`: rule statuses, session ids and the project root.
  - `store`, `db`, `query`: the rules and selections tables as ordered
    sequences with their invariant, and the queries on them.
  - `ops`, `picks`: adding, updating, deprecating, deleting and selecting
    rules.
  - `legacy`, `scan`: reading rules from old YAML files and importing them.
  - `cli`, `payload`, `commands`, `picking`: command-line options, the
    reports the commands print, and the commands themselves.
  - `picker`, `window`, `layout`: the checklist's state machine, the rows
    and texts it shows, and where its controls go.
  - `json`: the JSON text of tag lists.
  - `laws`: properties that relate several operations.
- `tests/` — tests of the library on concrete values.
- `app/` — the program around the library: arguments, environment, files,
  the SQLite connection, JSON output, reading the YAML files and the Win32
  windows.
