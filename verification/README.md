# walkflow

Step through a GitHub Actions workflow locally, one step at a time, pausing
between steps to look around in a shell, edit a failing command and retry.

The decisions of the tool are a library verified with Verus:

- `src/workflow.rs` — the workflow, job and step types; step labels; job selection.
- `src/cli.rs` — choosing the step to start from (`--from`) and the workflow file.
- `src/runner.rs` — the state carried between steps: environment layering,
  `$GITHUB_PATH` additions, shell invocation.
- `src/github_env.rs` — the `KEY=VALUE` and heredoc lines a step writes to `$GITHUB_ENV`.
- `src/prompt.rs` — reading the answers given at the prompts.
- `src/walk.rs` — walking a job as a state machine from event to action.
- `src/envmap.rs` — `IndexMap` seen as a sequence of entries.
- `src/text.rs` — text functions (lines, trimming, searching, numbers, paths).

`app/` is the command-line program: argument parsing, reading YAML, printing,
prompting and spawning processes, driven by the library's decisions.
