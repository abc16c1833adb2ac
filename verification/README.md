# matrix-gotify-bridge

A bridge that forwards Gotify notifications to Matrix rooms, with
multi-stream routing (application IDs to one or many rooms), per-stream
message templates and optional end-to-end encryption.

Layout:

- `src/` — the verified library:
  - `config.rs`: configuration sections, validation (`Config::from_raw`),
    WebSocket address derivation, template path resolution, the lists of
    template files and rooms to prepare;
  - `router.rs`: which rooms (and templates) a message of an application goes to;
  - `template.rs`: filling message templates;
  - `gotify.rs`: Gotify message shapes and the choice between them;
  - `rooms.rs`: room references and their validation, the alias cache, the
    room-joining state machine and the Markdown message body;
  - `status.rs`: the start-up status table;
  - `backoff.rs`: reconnection pauses;
  - `paths.rs`: paths compared by their parts, as `Path` compares them;
  - `text.rs`, `unique.rs`: string operations and first-occurrence deduplication.
- `app/` — the program: command line, files, YAML/JSON parsing, the Gotify
  WebSocket and the Matrix client.
- `tests/` — tests of the library on concrete values.
