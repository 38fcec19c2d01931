# tasky

A desktop task manager (GTD views, Eisenhower matrix, quick capture in the
style of todo.txt, recurrence, dependencies, completion from git commits,
Markdown export) whose core is a library verified with Verus.

## Layout

- `src/` — the verified library.
  - `domain/` — tasks, projects, tags, statuses, recurrence rules, the
    Eisenhower quadrants, blocking, next occurrences, the quick-add parser
    and the orders the views sort by.
  - `date.rs` — calendar dates and timestamps over chrono, with the calendar
    facts the recurrence laws need.
  - `store/` — the in-memory repository, its model as maps and sets, the
    storage error and the decoding of stored rows.
  - `views.rs`, `panels.rs` — what each view lists, the keyboard, the
    sections and the detail panel.
  - `sync.rs`, `gitlink.rs` — the Markdown export and the decisions around
    git (keyword matching, remotes, messages).
  - `config.rs`, `update.rs`, `icon.rs`, `text.rs` — preferences, update
    messages, the tray icon bitmap and text helpers.
- `app/` — the program: the egui window, the SQLite store, git, files,
  processes, the tray and the preferences file.
- `tests/` — tests of the library on concrete values.
