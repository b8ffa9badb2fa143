# grove

`grove` discovers Git checkouts, lets you select one with `fzf`, and opens or reuses an
independent tmux session for it. It also switches between sessions, closes the current one
for another, and creates configured default sessions.

## Layout

- `src/` is the library, verified with Verus. It holds every decision the program takes, each
  with a contract:
  - `config`: the configuration, its checks and where it is read from;
  - `git`, `path`: what a directory is (checkout, linked worktree, bare repository), discovery
    order, a bare repository's worktrees and the re-validation of a selected checkout. A path
    is held as text (invalid UTF-8 replaced, as shown to the user), with its bytes when they
    are not valid UTF-8, by which paths are compared, and whether its last names are valid
    Unicode, which decides the names shown;
  - `probing`: the questions asked of Git about a directory, in order, and the probes already
    made, so that each directory is probed once;
  - `picker`: picker rows aligned in columns, home directories shortened, the `fzf` input and
    how its answer is read;
  - `naming`: session names, free among the running ones;
  - `tmux`: tmux command lines, the session listing and its metadata, and session creation as
    a state machine that rolls back on failure;
  - `opening`, `switching`, `refresh`, `layout`: the commands' steps, as functions from state
    and answer to next state and action (a refresh kills before it creates and stops at the
    first failure);
  - `text`, `seqs`, `sort`, `words`, `external`: text helpers, and the calls into `std`,
    `unicode-width` and `sha2` whose contracts are assumed.
- `app/` is the program: command-line parsing, reading files and the environment, walking the
  search roots, running `git`, `tmux` and `fzf`, and carrying out the actions the library
  returns.
- `tests/` runs the library on concrete values.
