# swiss

The verified core of Swiss, a file-driven bootstrapper for workstations and
service hosts. A YAML manifest declares packages, cargo tools, git-sourced
tools, files and shell integration; Swiss turns it into a plan of steps and
runs it.

Layout:

- `src/` — the library, verified with Verus: the manifest model
  (`parser`), manifest composition (`config_loader`: YAML merge, includes,
  profiles), planning (`plan`, `shellgen`), path and variable expansion
  (`expand`, `paths`), bounded startup-file blocks (`blocks`), diagnostics
  (`doctor`), the cache model (`persistence`), run bookkeeping (`report`,
  `executor`), command lines of the external tools (`commands`) and the
  decisions behind each `swiss` command (`session`). `strmap` and `text`
  hold the sorted string map and the string primitives the rest builds on.
- `app/` — the `swiss` binary: argument parsing with clap, YAML parsing with
  serde_yaml, the rkyv cache file, processes, files and terminal output.
- `tests/` — tests of the library.
