# hermes_native

The native side of the Hermes desktop app, as a Verus-verified library
(`src/`) and a thin Node.js addon around it (`app/`).

- `src/sse.rs` — the chat stream: splitting a stream into blocks at blank
  lines, reading the `event:` and `data:` lines of a block, and what a chunk
  says (end marker, error, text, tool progress, usage).
- `src/sessions.rs` — the session cache document (`sessions.json`): reading
  the listed sessions, writing the cache, deleting and retitling sessions,
  titles for untitled sessions, and the newest-first order.
- `src/config.rs` — the agent's `config.yaml`: the configuration read from
  its text (the empty object where there is no file) and the YAML written
  back.
- `src/kanban.rs` — the `hermes kanban` command lines and responses.
- `src/json.rs` — JSON values as plain data, with member lookup; JSON text
  is parsed with `serde_json::from_str` and pretty-printed with
  `serde_json::to_string_pretty`, YAML is read and written with serde_yaml,
  each behind one trusted wrapper.
- `src/text.rs` — white space, trimming and UTF-8 widths.
- `src/common.rs`, `src/profiles.rs`, `src/hermes.rs`, `src/models.rs`,
  `src/ssh_tunnel.rs` — home and desktop directories, profiles, the
  installation check, models and the tunnel status.

`app/` reads and writes files, the SQLite database and the environment, runs
the `hermes` command, and exports the functions to JavaScript through napi.
