# jjf

A fuzzy finder TUI for jujutsu (`jj`) revisions: bookmarks as collapsible groups
of their recent revisions, fuzzy search, Vim keys, and `jj`'s own ANSI colouring.

- `src/` is the verified library:
  - `text.rs`: splitting, `lines`, `splitn`, `join`, white space, each with a
    specification of what the corresponding `str` method yields;
  - `style.rs`: colours and modifiers of a terminal style;
  - `ansi.rs`: SGR sequences and lines carrying ANSI escapes, read into styled runs;
  - `log.rs`: the two `jj log` outputs read into log entries;
  - `tree.rs`: bookmarks, revisions and the flattened tree rows;
  - `search.rs`: the fuzzy matcher (`frizbee`) behind a trusted wrapper;
  - `app.rs`: the finder's state, a model of it, and its reaction to each key.
- `app/` is the program: command line, running `jj`, drawing with `ratatui`,
  reading keys with `crossterm`.
- `tests/` runs the library on concrete inputs.
