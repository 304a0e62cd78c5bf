# ez-workspaces

A workspace and session manager for git repositories: each task gets its own
session (usually a git worktree beside the repository, under `.ez/`), and an
fzf browser moves between repositories and sessions. Plugins speak JSON over
stdin and stdout and give sessions their physical meaning (worktrees, tmux).

## Layout

- `src/` is the library, written in Verus: the session tree and its
  rendering, deletion and renaming, name building (each prompt round of every
  naming mode; `app/` only repeats a round that asks again), the current-session
  detection, repository registration and ownership, labels, configuration
  values, plugin views and keybinds, what the browser's keys mean, how lists
  are ordered (most recently used first), the selector's arguments and the
  reading of its output, the rows and layout of the keybind help, and the decisions of
  a pull-request status refresher (which sessions, what each one gives, the
  counts of a cycle; the command line has no command that runs one). Every function carries a contract proved by Verus;
  calls into outside crates (md5, regex, chrono, uuid, dirs, which, toml,
  console, serde_json) sit behind small trusted wrappers whose contracts name what they
  return.
- `app/` is the `ez` program around the library: the command line (clap),
  the TOML files (serde), running git, fzf and plugin processes, and printing.
- `tests/` runs the library on concrete values.
