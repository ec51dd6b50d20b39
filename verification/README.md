# rustfiles

The core of a Windows file manager, verified with Verus, and the desktop
application around it.

## Layout

- `src/` — the verified library. Verus proves each function against its
  contract; the few trusted wrappers around std (clock, case mapping,
  path joining, `String::push`) state what std documents of them.
  - `error.rs` — error codes and the error value shown to the user.
  - `text.rs` — character-level helpers (comparison, decimal forms, lower
    and upper case).
  - `normalize.rs`, `path_safety.rs` — the lexical model of Windows paths,
    child-name validation, path classification and the guards run before
    destructive operations.
  - `listing.rs` — filtering, ordering (folders first, stable) and paging
    of directory listings.
  - `search.rs` — query matching, result batching and the decisions of a
    running search.
  - `tasks.rs` — the task state machine and the registries of search and
    file tasks.
  - `clipboard.rs`, `drag.rs` — clipboard and drag-and-drop operations.
  - `scheduler.rs`, `observability.rs` — work priorities, report
    acknowledgements and performance samples.
  - `runtime.rs`, `settings.rs`, `system.rs`, `types.rs` — the test-mode
    guard, default settings, drive and side-bar data, shared types.
- `app/` — the Tauri application: commands, file-system and shell access,
  the search worker thread and the serializable copies of the library's
  types.
- `tests/` — tests of the library on concrete values.

The library never touches the disk or the environment, and reads the clock
only through the trusted wrappers in `observability.rs`: the application
reads what the library needs and hands it over as plain values.
