# my_task_manager

A resident task manager for macOS: an overlay called up by a global hotkey
shows the current step of the current task and its interruption note; a switch
records a note and moves to the next step in one commit, which also carries a
switch record (version 1 of the schema has no table for it yet, so the storage
only logs it); a rest timer raises an intervention after a stretch of
continuous work.

The library (`src/`) holds every decision and is verified with Verus:

- `domain/` — instants and their ISO 8601 text (`mod.rs`, `chronology.rs`),
  tasks and steps (`task.rs`), the current position (`position.rs`), settings
  (`setting.rs`), the rest timer's decisions (`rest.rs`), switch records
  (`switch.rs`) and the core that applies every change through one path and one
  commit (`state.rs`).
- `ports/storage.rs` — what the core asks of persistence.
- `adapters/` — the pure parts of the adapters: the overlay's and the panel's
  state machines, the hotkeys' decisions, the status item's text, the
  application menu's tables, the wall clock, and the stored rows of tasks and
  of the current position with their decoders and encoders.
- `commands.rs` — what the command boundary computes: snapshots, the
  disclosure list, task definitions from the creation form.

The crate under `app/` is the process around it: Tauri, SQLite, the global
shortcuts, the status item and autostart. It performs the I/O and wires the
process together; the decisions it acts on come from the library.

Laws are stated as public proof functions named `law_*` and as `ensures`
clauses of the functions they are about.
