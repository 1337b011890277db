# stashroom

The core of a desktop Git client, verified with Verus.

`src/` is the library. It holds what the client decides, each function with
a contract that Verus proves:

- `status`: the status entry shown for the flags Git reports for a path, and
  the status of a working tree, ordered by path;
- `diff`: assembling the diff of one file from a walk over a Git diff, the
  diff of a file Git does not track yet, and the binary-content heuristic;
- `patch` and `stage`: the patches that stage or unstage a hunk or a
  selection of added lines, and the rules that refuse a request;
- `fuzzy` and `history`: fuzzy file-name matching and its score, commit
  summaries and their ref labels, paging of the log, the hunks of a
  commit's diff, and the search of the history for files;
- `repo`, `watch` and `bridge`: the registry of open repositories, the
  watched repositories and the gathering of bursts of filesystem changes,
  and the decisions of the user-interface commands;
- `discard` and `persistence`: discarding with a backup, restoring from
  backups, and the stored workspace and settings;
- `text`, `paths` and `order`: text, path and ordering helpers with their
  models.

`app/` runs the commands: it reads and writes repositories with `git2`,
watches the disk with `notify`, stores JSON with `serde`, and hands every
decision to the library.

`tests/` exercises the library on concrete values.
