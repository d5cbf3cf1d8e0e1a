# conescope

The decision logic of the Conescope views (a multi-instance terminal
manager), written in Verus with its behaviour stated in contracts.

- `src/` is the verified library: colour parsing and worktree colours,
  the file tree model (listing, ordering, folding, selection, keyboard,
  clipboard, rename steps), editor tabs, the markdown preview's block
  builder (fed by pulldown-cmark), path checks, worktree planning, the
  sidebar and settings rules, the git panel and diff line styling, the
  question card's keys and labels, scratch-file restore and the window's
  keyboard actions.
- `app/` is the host side that stays outside Verus: `f32` colours and
  scrollbar geometry, and the disk work (reading folders, probing paths,
  renaming, copying, trashing).
- `tests/` runs the library on concrete values.
