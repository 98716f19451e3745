# syntaxis

The core of a browser-based code workspace, written in Verus: every function
in `src/` carries a `requires`/`ensures` contract and is proved by the
verifier.

What the library covers:

- **Editor**: language detection from paths, language-server selection,
  `.editorconfig` resolution and application, word completion, search and
  replace, text buffers, edits coming from the code editor.
- **Git**: status and log parsing, argument and ref validation, unified-diff
  hunks with fingerprints, conflict-marker parsing and resolution, worktrees.
- **Agent host**: the chat protocol between client and host, the mapping of
  Pi's JSON records into conversation items and models, the session state
  machine, session registries, exports.
- **Language servers**: `Content-Length` framing of JSON-RPC messages and
  the checks on what a server sends.
- **App shell**: routes and navigation, notifications, workspace events and
  project templates.

Laws that span several functions are public proof functions next to the
functions they speak of (for example `framing::chunk_boundaries_do_not_matter`,
`editor_config::applying_the_config_again_changes_nothing`,
`diff::hunks_reassemble_the_patch`, `agent::offered_level_is_kept`).

Calls into outside crates (`regex`, `serde_json`, `similar`, `uuid`,
`base64`, `url`) sit behind small trusted wrappers whose doc comments say
what is assumed of them.

Layout:

- `src/`: the verified library; `src/lib.rs` lists its modules.
- `tests/`: tests that run the compiled library against concrete values.
- `app/`: unverified plumbing around the library: blocking language-server
  stream I/O, the loop that feeds Pi's output to a session and carries out
  its actions, the runner of client actions and renames, and conversion between parsed JSON and the library's values.
