# arte

A design-truth board: software is specified and traced as a graph of nodes
(intents, impls, controls, validations), one `key: value` file per node under
`.truth/`, linked upward by `serves`. From that graph the library derives
coverage, status roll-ups, the verify tally, the work loop's next move and the
merge check, and it models the viewer's boards, keys and undo history.

Layout:

- `src/` — the library, written in Verus. Each public function states in its
  contract what it returns or changes; the `law_*` proof functions state what
  holds across calls (undo restores a saved board, a missing test is a hole and
  never a green write, promotion waits for a green verify, and so on).
- `tests/` — executable tests on concrete values.
- `app/` — the `arte` command line: reading and writing files, running lane
  commands and printing. It makes no decision of its own.
