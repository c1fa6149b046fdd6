# tc_middleware

The decisions of a small HTTP service that manages Taskchampion tasks,
as a library verified with Verus, and the service around it.

- `src/` — the verified library.
  - `text.rs`: string equality and order, strictly ascending string lists,
    and the standard library's case conversions and quoting.
  - `tag.rs`: how Taskchampion reads a string as a tag.
  - `models.rs`: task records (what the service reads of a stored task), the
    shown form of a task, request bodies.
  - `order.rs`: the stable newest-first order of tasks, with its laws.
  - `select.rs`: choosing, counting and showing tasks.
  - `handlers/`: what each request answers, and for writes the edits to make,
    with a model (`TaskState`) of what the edits do to a stored task.
- `app/` — the service: configuration, SQLite storage and the sync server
  (through Taskchampion), HTTP routing (axum), JSON forms of the library's
  types, and the urgency score.
- `tests/` — tests of the library.
