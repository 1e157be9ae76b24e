# copybara

Migrates the history of one git repository into another, as a starlark configuration
file (`core.workflow`, `git.origin`, `git.destination`) describes it.

- `src/` is the library, verified with Verus: the workflow's decisions as a state machine
  (`workflow.rs`), the `GitOrigin-RevId` trailer that records where a migrated commit came
  from and the search for the last migrated revision (`history.rs`), the cache paths of
  clones and the test for git metadata (`paths.rs`), the log lines printed while a
  migration runs (`report.rs`), and the configuration values.
- `app/` is the program: argument handling, the starlark evaluator and its value types,
  and the git and file-system work that the library's decisions ask for.
- `tests/` runs the library on concrete inputs.
