# opencode-hooks

opencode has no shell hooks: the only way to see what a session is doing is a
JavaScript plugin. This library makes that plugin. It renders the plugin's
source from a list of events and the shell commands that write each status,
decides where the file lies, when it is written and when it is left alone, and
how it is removed. The Rust of it is verified with Verus.

- `src/paths.rs`: the plugin path, from the home directory and
  `XDG_CONFIG_HOME`; paths are bytes, as on Unix.
- `src/events.rs`: statuses, targets, events, and the status writer's commands.
- `src/json.rs`: what is taken on trust of `serde_json`.
- `src/json_text.rs`: the text of a JSON object of strings.
- `src/template.rs`, `src/render.rs`: the plugin's source.
- `src/plugin_file.rs`: whose a file is, installing, removing.
- `src/reporter.rs`: the rule by which the plugin's handlers turn events into
  statuses. opencode runs the JavaScript in `src/template.rs`; the rule stands
  beside it so that what it promises can be proved.
- `src/render_laws.rs`, `src/layout_laws.rs`, `src/file_laws.rs`,
  `src/reporter_laws.rs`: what holds of all of these together.
- `src/text.rs`: runs of bytes and characters.
- `app/`: the same on a real file system.
