# Kickoff

A herdr plugin that opens a popup form for starting a new workspace: pick a
directory (from zoxide's list, or a typed `/path` or `~/path`), a harness (a
coding-agent CLI, or the plain Shell), a branch (In Place or in a git
Worktree) and a title, then launch.

The form's logic is a Verus library with its contracts proved:

- `src/text.rs`: string helpers (trimming, words, lines, splitting) over
  character sequences.
- `src/filter.rs`, `src/fuzzy.rs`: the directory matchers (every term as a
  substring in zoxide's order; or fzf-style subsequence scoring).
- `src/git.rs`: branch-name rules, branch status, and what the Launcher
  reads from git's output.
- `src/config.rs`: the built-in harnesses and how configured ones merge in.
- `src/app.rs`: the form as a state machine over key presses, with a
  mathematical model (`FormView`) of its state; `src/app_laws.rs` holds the
  properties that hold across key presses.
- `src/json.rs`: JSON documents as the library reads them, parsed by
  serde_json and walked by verified code.
- `src/herdr.rs`: the herdr and git calls a submitted request turns into,
  one step at a time, what herdr's replies report, and the messages shown
  when calls fail.
- `src/ui.rs`, `src/startup.rs`, `src/harness.rs`: what the form shows, what
  it gathers at start-up, and where a harness's program is looked for.

`app/` is the binary around it: the terminal, the processes it runs
(herdr, git, zoxide), the filesystem and reading `config.toml`.
