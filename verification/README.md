# rrsreadline

Shell-independent history suggestions: given the shell history and what the
user has typed, the engine proposes matching past commands, newest first, and
tracks which suggestion is selected as the user moves through the list.

- `src/` is the library, verified with Verus:
  - `matching.rs`: prefix / substring matching, optional case folding, limit.
  - `history.rs`: the history file format (plain and Zsh extended lines).
  - `config.rs`: defaults per shell, TOML overrides, `~` expansion.
  - `state.rs`: the selection state machine driven by editor events.
  - `command.rs`: the output of the `suggest` command (each command once).
  - `text.rs`: character-level helpers.
- `app/main.rs` is the command-line program: it reads `HOME`, the
  configuration file and the history file, and prints the library's results.
- `tests/` exercises the library on concrete inputs.
