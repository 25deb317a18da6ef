# ifttt_lint

Enforces atomic cross-file changes through `LINT.IfChange` /
`LINT.ThenChange` comment directives: when a diff touches the content of a
watched block, every target the block names must change too.

The library under `src/` is written in Verus and proved against its
contracts; `app/` is the command-line program around it (argument handling,
git, the file system, JSON output).

## Layout

- `text`, `msg` — character-sequence helpers and message building.
- `languages`, `skip` — comment styles per file type, and the regions
  (strings, fenced code, heredocs, …) in which directives are not read.
- `directive`, `parser` — reading directives out of a file's text.
- `udiff` — turning a unified diff into the changed lines of each file.
- `lines`, `pairs` — sorted changed lines, `IfChange`/`ThenChange` pairs, and
  whether a pair's content changed.
- `check` — the check itself: which files to read, the structural checks,
  the co-change checks, and the reverse lookup after deletions.
- `vcs`, `vcs_mock`, `git`, `jj` — the backend interface, an in-memory
  backend, the git-specific parsing (log ranges, `NO_IFTTT` tags,
  `ls-files`, `grep` output, glob expansion, file arguments) and the
  `jj file list` parsing.
- `diagnostic`, `reports` — findings, their order, and their text forms.
- `run` — the decisions of a run: what to read, what to check, how it ends.
- `ext` — the calls into `std` and into `regex`, `globset` and `patchkit`,
  with the contracts the library relies on.

What the backend answers (file contents, existence, search results) depends
on the disk; the contracts of the functions that ask it state the result for
whatever was answered, and the functions that take an answer as an argument
state it exactly.
