# ndir

Navigate directories inline in your shell: an arrow-key directory browser that
draws right below the prompt, with fuzzy filtering.

## Layout

- `src/` — the verified library (Verus):
  - `navigator.rs` — the navigation state machine: what each key does
    (`handle_key`), the follow-ups once a path is resolved or a directory is
    re-read (`NavState::resolved`, `NavState::relisted`), and keeping the
    cursor on the list (`NavState::settle`); with the laws that hold of them.
  - `scroll.rs` — the scroll window (`adjust_scroll`).
  - `entries.rs` — arranging a directory listing (hidden entries, files,
    directories first, case-insensitive order).
  - `order.rs` — lexicographic order on names and a stable ordering of keys.
  - `fuzzy.rs` — the fuzzy filter over the skim matcher and the ranking of
    its matches.
  - `render.rs` — the lines of each frame, their text and styles, and the
    renderer's bookkeeping of what is on screen.
  - `keys.rs` — key presses as the navigator sees them.
  - `paths.rs`, `text.rs` — the calls into the standard library for paths
    and strings, with what is assumed of them.
- `app/` — the program: arguments, terminal I/O, reading directories,
  resolving paths, the clipboard.
- `tests/` — tests of the library.

Shell setup: add `eval "$(ndir --init)"` to `~/.zshrc`.
