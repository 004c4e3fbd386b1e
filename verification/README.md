# aps — Agentic Prompt Sync, verified core

`aps` syncs agentic assets (AGENTS.md files, Cursor rules, hooks and skills,
agent skills) from git repositories or local directories into a project, as
a YAML manifest (`aps.yaml`) declares, and records what it installed in a
lockfile (`aps.lock.yaml`).

## Layout

- `src/` is the library, written in Verus. Every function carries a contract
  and is proved against it: manifest validation, GitHub URL reading, path
  arithmetic, the lockfile and its text forms, checksums, catalog
  generation, skill discovery, hooks validation, the decisions an install
  takes (when an entry is up to date, how conflicts are handled, how an asset
  is put in place), orphan detection, the sync report and the status report.
  Laws that relate several functions are stated as public proof functions
  named `law_*`.
- `app/` is the command-line program around the library: argument parsing,
  file and directory operations, calls to `git`, prompts and printing. It
  hands the library plain values and acts on what the library decides.
- `tests/` runs the library on concrete values.

The few calls into other crates that the library makes (hashing, hex
encoding, URL parsing, shell expansion, time formatting) go through small
wrappers whose contracts say what the library relies on.
