# git_tree_viz

A git history visualiser whose logic is verified with Verus.

- `src/` — the verified library: commit and diff reading (`parser`), branch
  lines, remote and commit URLs (`url`), themes and contributor colours
  (`theme`), release checks and version order (`updater`), GitHub search
  requests (`search`), the device-flow sign-in and repository lists (`auth`),
  recently opened repositories (`recent`), the screens' decisions
  (`components`) and the application state (`app`). Every public function has
  a contract; the laws of the library are proof functions next to the code
  they speak of.
- `tests/` — tests on concrete values, including comparisons with the
  standard library's string methods and with direct computations on
  generated inputs.
- `app/` — a command-line front end: file and network I/O, reading
  repositories with git, and the floating-point drawing of the SVG export.
