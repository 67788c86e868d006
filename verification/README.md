# githops

A git hooks manager configured by one committed `githops.yaml`: hooks,
reusable command definitions, includes of external script files, dependency
ordering, parallel waves and content-based caching.

## Layout

- `src/` — the library, verified with Verus: the configuration model and
  command resolution (`config`, `namemap`), parsing and navigating included JSON, TOML and
  YAML files (`document`, `yaml`), dependency checks,
  execution waves and cycle detection (`check`, `waves`, `run`), hook script
  planning (`sync_hooks`, `hooks`), cache keys (`cache`), YAML rewriting
  (`yaml`), migration from husky and lefthook (`migrate`), the graph UI's
  edits and views (`graph`, `state`, `order`), shell completions
  (`completions`), log lines (`logger`), the starter configuration (`init`)
  and the command-line choices (`cli`).
- `app/` — the `githops` program around the library: argument parsing,
  files, processes, HTTP and WebSocket serving, serde and JSON Schema.
- `tests/` — tests of the library.

## Commands not provided

The `self-update` command, which downloads newer releases of the binary from
GitHub, is not part of this program; install new versions through the usual
channel (`cargo install` or a release download) instead.
