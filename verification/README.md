# flowy_grid

The grid editor of a collaborative workspace: a grid has fields (its
columns), blocks (groups of rows) and rows of cells. The editor creates,
changes, duplicates, retypes and deletes fields, adds and updates blocks,
creates, updates and deletes rows and cells, records a local revision for
every change of the grid's metadata, and keeps the notifications that the
client is owed.

The library is written in Verus; every function in `src/` carries a
contract that Verus proves.

- `src/entities.rs`: the data model (fields, type options, blocks, rows,
  cells, changesets, errors) and its views.
- `src/grid_meta_pad.rs`: the grid's fields and blocks and the edits on
  them; no two fields and no two blocks share an id.
- `src/block_meta_manager.rs`: the rows of each block; no two rows share an
  id.
- `src/revision.rs`: the local revisions and the revision id counter.
- `src/grid_editor.rs`: the editor, specified as steps on a value that holds
  everything it keeps (`GridEditorView`); it keeps rows only for blocks of
  the grid, and no row holds two cells of one field.
- `src/event_map.rs`: the grid module's events, their numbers on the wire,
  and the handler of each.
- `src/user_status.rs`: a user's status and the details a client sees.
- `src/text.rs`: decimal text of numbers.
- `src/laws.rs`: properties that span operations (a write reads back,
  deletes remove, counts follow rows, revisions form a chain, and more).

`app/` wraps the editor for async callers behind a `tokio` lock, hands the
notifications to a sink, and gives the events their display names.
