# airplayrelay

The AirPlay 2 sidecar of a multi-device audio relay, as a verified library
plus a thin program around it.

- `src/` — the decisions, each proved against its contract:
  - `flags.rs`: the `--device`/`-d`, `--pin`, `--store`, `--timeout` flags;
  - `devices.rs`: discovered receivers and the `list` output;
  - `pick.rs`: the choice of a receiver by exact id, else by part of its name;
  - `paths.rs`: where the pairing keys are stored;
  - `render.rs`: the settings `render` runs with;
  - `frames.rs`: cutting PCM read from a pipe into whole frames;
  - `read.rs`: retrying a read that a signal interrupted;
  - `text.rs`: string helpers (equality, search, decimal numbers).
- `app/main.rs` — argv, environment, discovery, pairing, streaming, stdin.
- `tests/` — tests of the library on concrete values.
