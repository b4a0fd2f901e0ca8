# flagpick

A picker for shell command options, with its logic verified by Verus.

The shell hands `flagpick shell-edit zsh --cursor <n>` its buffer on standard
input; the picker lets the user search and choose an option, and prints the
edited buffer. `flagpick inspect <command...>` and
`flagpick schema <command...> --format json` discover a command's options by
probing its help output under strict bounds.

## Layout

- `src/` — the verified library:
  - `buffer`: edits applied to a shell buffer, all against the original text;
  - `picker`: the option picker's state and the edit that confirming yields;
  - `schema`, `schema/validation`: the command schema and its validation rules;
  - `parser`: reading generic `--help` output into a schema;
  - `adapters`, `discovery`: which commands may be probed, how, and what is
    done with the output;
  - `probe`: probe limits, output capture and the probe lifecycle decisions;
  - `cache`: cache keys and which records are served or stored;
  - `cli`: the program's arguments;
  - `scan`, `text`: character-level helpers.
- `app/` — the program around the library: terminal session, process
  spawning, cache files and JSON.
- `tests/` — tests of the library.
