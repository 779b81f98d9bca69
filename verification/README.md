# kse_core

The core of the 量潮 DevOps lab tooling: submodule scanning and health,
release lifecycle, version detection, planning files, test and build
reports, and CI validation. The library in `src/` is written in Verus; every
function carries a contract and is proved against it.

## Layout

- `src/text.rs` — character-level text operations (`trim`, `lines`, `split`,
  integer parsing, decimal printing) with their specifications.
- `src/model/` — submodule state, the seven-way status and its summaries;
  the release record store, replayed from its journal.
- `src/code.rs`, `src/commands/` — health diagnosis, CI script export,
  history queries, `.gitmodules` editing, the stage / publish / cancel
  decisions, release notes and prechecks, plan/test/build run summaries.
- `src/contract.rs` — the DevOps contract model, its defaults, the old and
  new document formats, language detection and version status.
- `src/detect.rs`, `src/cli_detect.rs` — next-version inference per scope.
- `src/gix_scan.rs` — `.gitmodules` parsing and the in-process scan's
  status ladder and ordering.
- `src/plan.rs`, `src/test_report.rs`, `src/build_status.rs`,
  `src/preflight.rs`, `src/validate.rs`, `src/git_experiment.rs` — the
  roadmap commands and the status reports.
- `app/` — the command-line program: file and process I/O, git2 / gix /
  SQLite / YAML / JSON access and the model service, calling the library
  for every decision.
- `tests/` — example-based tests of the library.
