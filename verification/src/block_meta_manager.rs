//! The rows of the grid, kept per block.
//!
//! No two rows share an id, in one block or across blocks, and no two
//! blocks share an id. The specification also says when no row has two
//! cells of one field, which the editor keeps of every row.
use vstd::prelude::*;
use vstd::string::StringExecFns;
use crate::entities::{
    CellMeta, ErrorCode, FlowyError, GridBlockSnapshot, RowMeta, RowMetaChangeset, RowMetaView, cell_fields_unique,
    row_views,
};
use crate::grid_meta_pad::opt_view;

verus! {

/// The rows of one block.
pub struct BlockRows {
    block_id: String,
    rows: Vec<RowMeta>,
}

/// The rows of one block, as a value.
pub struct BlockRowsView {
    pub block_id: Seq<char>,
    pub rows: Seq<RowMetaView>,
}

impl View for BlockRows {
    type V = BlockRowsView;

    closed spec fn view(&self) -> BlockRowsView {
        BlockRowsView { block_id: self.block_id@, rows: row_views(self.rows@) }
    }
}

// ---------------------------------------------------------------------------
// Specification

/// No two blocks share an id.
pub open spec fn entry_ids_unique(v: Seq<BlockRowsView>) -> bool {
    forall|i: int, j: int|
        0 <= i < v.len() && 0 <= j < v.len() && i != j ==> #[trigger] v[i].block_id != #[trigger] v[j].block_id
}

/// No two rows share an id, in one block or across blocks.
pub open spec fn row_ids_unique(v: Seq<BlockRowsView>) -> bool {
    forall|b1: int, i1: int, b2: int, i2: int|
        0 <= b1 < v.len() && 0 <= b2 < v.len() && 0 <= i1 < v[b1].rows.len() && 0 <= i2
            < v[b2].rows.len() && (b1 != b2 || i1 != i2) ==> #[trigger] v[b1].rows[i1].id
            != #[trigger] v[b2].rows[i2].id
}

/// Whether rows are kept for the block.
pub open spec fn has_entry(v: Seq<BlockRowsView>, block_id: Seq<char>) -> bool {
    exists|i: int| 0 <= i < v.len() && #[trigger] v[i].block_id == block_id
}

/// The position of the block's rows.
pub open spec fn entry_index(v: Seq<BlockRowsView>, block_id: Seq<char>) -> int {
    choose|i: int| 0 <= i < v.len() && #[trigger] v[i].block_id == block_id
}

/// The rows of a block; none for a block of which nothing is kept.
pub open spec fn rows_in(v: Seq<BlockRowsView>, block_id: Seq<char>) -> Seq<RowMetaView> {
    if has_entry(v, block_id) {
        v[entry_index(v, block_id)].rows
    } else {
        Seq::empty()
    }
}

/// The blocks with the rows of one block replaced; a block of which nothing
/// was kept is added at the end.
pub open spec fn set_rows(v: Seq<BlockRowsView>, block_id: Seq<char>, rows: Seq<RowMetaView>) -> Seq<
    BlockRowsView,
> {
    if has_entry(v, block_id) {
        v.update(entry_index(v, block_id), BlockRowsView { block_id, rows })
    } else {
        v.push(BlockRowsView { block_id, rows })
    }
}

/// Whether some row of the sequence has the id.
pub open spec fn has_row_in(rows: Seq<RowMetaView>, row_id: Seq<char>) -> bool {
    exists|i: int| 0 <= i < rows.len() && #[trigger] rows[i].id == row_id
}

/// The position of the row with the id.
pub open spec fn row_index_in(rows: Seq<RowMetaView>, row_id: Seq<char>) -> int {
    choose|i: int| 0 <= i < rows.len() && #[trigger] rows[i].id == row_id
}

/// Whether some block has a row with the id.
pub open spec fn has_row(v: Seq<BlockRowsView>, row_id: Seq<char>) -> bool {
    exists|b: int| 0 <= b < v.len() && #[trigger] has_row_in(v[b].rows, row_id)
}

/// The position of the block that has the row with the id.
pub open spec fn row_block_index(v: Seq<BlockRowsView>, row_id: Seq<char>) -> int {
    choose|b: int| 0 <= b < v.len() && #[trigger] has_row_in(v[b].rows, row_id)
}

/// The row with the id.
pub open spec fn row_with_id(v: Seq<BlockRowsView>, row_id: Seq<char>) -> RowMetaView {
    let rows = v[row_block_index(v, row_id)].rows;
    rows[row_index_in(rows, row_id)]
}

/// The rows after a new row is placed right after the row `start`, where
/// that row is among them, and at the end otherwise.
pub open spec fn rows_after_create(rows: Seq<RowMetaView>, row: RowMetaView, start: Option<Seq<char>>) -> Seq<
    RowMetaView,
> {
    match start {
        Some(s) => if has_row_in(rows, s) {
            rows.insert(row_index_in(rows, s) + 1, row)
        } else {
            rows.push(row)
        },
        None => rows.push(row),
    }
}

/// The cells without those of the field.
pub open spec fn cells_without(cells: Seq<CellMeta>, field_id: Seq<char>) -> Seq<CellMeta>
    decreases cells.len(),
{
    if cells.len() == 0 {
        cells
    } else {
        let rest = cells_without(cells.drop_last(), field_id);
        if cells.last().field_id@ == field_id {
            rest
        } else {
            rest.push(cells.last())
        }
    }
}

/// The cells with each of `updates` set, in their order: a cell replaces
/// the cells of its field.
pub open spec fn cells_after_set(cells: Seq<CellMeta>, updates: Seq<CellMeta>) -> Seq<CellMeta>
    decreases updates.len(),
{
    if updates.len() == 0 {
        cells
    } else {
        let before = cells_after_set(cells, updates.drop_last());
        cells_without(before, updates.last().field_id@).push(updates.last())
    }
}

/// Whether a row update changes anything: a height, a visibility or some
/// cell is given.
pub open spec fn row_update_changes(height: Option<i32>, visibility: Option<bool>, cells: Seq<CellMeta>) -> bool {
    height.is_some() || visibility.is_some() || cells.len() > 0
}

/// A row after an update: a given height or visibility replaces the row's,
/// and each given cell is set.
pub open spec fn row_after_update(
    row: RowMetaView,
    height: Option<i32>,
    visibility: Option<bool>,
    cells: Seq<CellMeta>,
) -> RowMetaView {
    RowMetaView {
        height: match height {
            Some(h) => h,
            None => row.height,
        },
        visibility: match visibility {
            Some(b) => b,
            None => row.visibility,
        },
        cells: cells_after_set(row.cells, cells),
        ..row
    }
}

/// The blocks after the row with the id is updated; nothing changes where no
/// block has the row.
pub open spec fn rows_after_row_update(
    v: Seq<BlockRowsView>,
    row_id: Seq<char>,
    height: Option<i32>,
    visibility: Option<bool>,
    cells: Seq<CellMeta>,
) -> Seq<BlockRowsView> {
    if has_row(v, row_id) {
        let b = row_block_index(v, row_id);
        let i = row_index_in(v[b].rows, row_id);
        v.update(
            b,
            BlockRowsView {
                block_id: v[b].block_id,
                rows: v[b].rows.update(i, row_after_update(v[b].rows[i], height, visibility, cells)),
            },
        )
    } else {
        v
    }
}

/// The rows without those whose id is one of `ids`.
pub open spec fn rows_without(rows: Seq<RowMetaView>, ids: Seq<Seq<char>>) -> Seq<RowMetaView>
    decreases rows.len(),
{
    if rows.len() == 0 {
        rows
    } else {
        let rest = rows_without(rows.drop_last(), ids);
        if ids.contains(rows.last().id) {
            rest
        } else {
            rest.push(rows.last())
        }
    }
}

/// The blocks after the rows whose id is one of `ids` are deleted from the
/// block; nothing changes where nothing is kept for the block.
pub open spec fn rows_after_delete(v: Seq<BlockRowsView>, block_id: Seq<char>, ids: Seq<Seq<char>>) -> Seq<BlockRowsView> {
    if has_entry(v, block_id) {
        set_rows(v, block_id, rows_without(rows_in(v, block_id), ids))
    } else {
        v
    }
}

/// Whether no row of the sequence has two cells of one field.
pub open spec fn rows_cells_unique(rows: Seq<RowMetaView>) -> bool {
    forall|i: int| 0 <= i < rows.len() ==> cell_fields_unique(#[trigger] rows[i].cells)
}

/// Whether no row of any block has two cells of one field.
pub open spec fn row_cells_unique(v: Seq<BlockRowsView>) -> bool {
    forall|b: int| 0 <= b < v.len() ==> rows_cells_unique(#[trigger] v[b].rows)
}

// ---------------------------------------------------------------------------
// Lemmas

/// In blocks with unique ids, a position holding the id is its index.
pub proof fn lemma_entry_index(v: Seq<BlockRowsView>, block_id: Seq<char>, i: int)
    requires
        entry_ids_unique(v),
        0 <= i < v.len(),
        v[i].block_id == block_id,
    ensures
        has_entry(v, block_id),
        entry_index(v, block_id) == i,
{
    assert(has_entry(v, block_id));
}

/// In rows with unique ids, a position holding the id is its index.
pub proof fn lemma_row_index(v: Seq<BlockRowsView>, b: int, i: int)
    requires
        row_ids_unique(v),
        0 <= b < v.len(),
        0 <= i < v[b].rows.len(),
    ensures
        has_row_in(v[b].rows, v[b].rows[i].id),
        row_index_in(v[b].rows, v[b].rows[i].id) == i,
        has_row(v, v[b].rows[i].id),
        row_block_index(v, v[b].rows[i].id) == b,
        row_with_id(v, v[b].rows[i].id) == v[b].rows[i],
{
    let id = v[b].rows[i].id;
    assert(has_row_in(v[b].rows, id));
    let k = row_index_in(v[b].rows, id);
    assert(v[b].rows[k].id == id);
    assert(has_row(v, id));
    let c = row_block_index(v, id);
    let j = choose|j: int| 0 <= j < v[c].rows.len() && #[trigger] v[c].rows[j].id == id;
    assert(v[c].rows[j].id == id);
}

/// Replacing the rows of one block keeps all row ids unique when the new
/// rows have unique ids, each of which the block had or is a fresh one.
pub proof fn lemma_replace_rows_unique(
    v: Seq<BlockRowsView>,
    e: int,
    rows: Seq<RowMetaView>,
    fresh: Seq<char>,
)
    requires
        row_ids_unique(v),
        0 <= e < v.len(),
        forall|i: int, j: int|
            0 <= i < rows.len() && 0 <= j < rows.len() && i != j ==> #[trigger] rows[i].id
                != #[trigger] rows[j].id,
        forall|i: int|
            0 <= i < rows.len() ==> #[trigger] rows[i].id == fresh || has_row_in(v[e].rows, rows[i].id),
        !has_row(v, fresh),
    ensures
        row_ids_unique(v.update(e, BlockRowsView { block_id: v[e].block_id, rows })),
{
    let w = v.update(e, BlockRowsView { block_id: v[e].block_id, rows });
    assert forall|b1: int, i1: int, b2: int, i2: int|
        0 <= b1 < w.len() && 0 <= b2 < w.len() && 0 <= i1 < w[b1].rows.len() && 0 <= i2
            < w[b2].rows.len() && (b1 != b2 || i1 != i2) implies #[trigger] w[b1].rows[i1].id
        != #[trigger] w[b2].rows[i2].id by {
        if b1 == e && b2 == e {
        } else if b1 == e {
            assert(w[b2] == v[b2]);
            if rows[i1].id == fresh {
                assert(!has_row_in(v[b2].rows, fresh));
            } else {
                let j = choose|j: int| 0 <= j < v[e].rows.len() && #[trigger] v[e].rows[j].id == rows[i1].id;
                assert(v[e].rows[j].id != v[b2].rows[i2].id);
            }
        } else if b2 == e {
            assert(w[b1] == v[b1]);
            if rows[i2].id == fresh {
                assert(!has_row_in(v[b1].rows, fresh));
            } else {
                let j = choose|j: int| 0 <= j < v[e].rows.len() && #[trigger] v[e].rows[j].id == rows[i2].id;
                assert(v[e].rows[j].id != v[b1].rows[i1].id);
            }
        } else {
            assert(w[b1] == v[b1]);
            assert(w[b2] == v[b2]);
        }
    }
}

/// The cells without those of the field are cells that the original holds,
/// none of the field; they are of distinct fields where the original's are.
pub proof fn lemma_cells_without(cells: Seq<CellMeta>, field_id: Seq<char>)
    ensures
        forall|i: int|
            0 <= i < cells_without(cells, field_id).len() ==> #[trigger] cells_without(cells, field_id)[i].field_id@
                != field_id,
        forall|i: int|
            0 <= i < cells_without(cells, field_id).len() ==> cells.contains(
                #[trigger] cells_without(cells, field_id)[i],
            ),
        cell_fields_unique(cells) ==> cell_fields_unique(cells_without(cells, field_id)),
    decreases cells.len(),
{
    if cells.len() > 0 {
        let init = cells.drop_last();
        let last = cells.last();
        lemma_cells_without(init, field_id);
        let rest = cells_without(init, field_id);
        let r = cells_without(cells, field_id);
        assert forall|i: int| 0 <= i < rest.len() implies cells.contains(#[trigger] rest[i]) by {
            let k = choose|k: int| 0 <= k < init.len() && init[k] == rest[i];
            assert(cells[k] == init[k]);
        }
        if cell_fields_unique(cells) {
            assert forall|i: int, j: int|
                0 <= i < init.len() && 0 <= j < init.len() && i != j implies #[trigger] init[i].field_id@
                != #[trigger] init[j].field_id@ by {
                assert(init[i] == cells[i] && init[j] == cells[j]);
            }
        }
        if last.field_id@ != field_id {
            assert(r == rest.push(last));
            assert forall|i: int| 0 <= i < r.len() implies cells.contains(#[trigger] r[i]) by {
                if i < rest.len() {
                    assert(r[i] == rest[i]);
                } else {
                    assert(cells[cells.len() - 1] == r[i]);
                }
            }
            if cell_fields_unique(cells) {
                assert forall|i: int, j: int|
                    0 <= i < r.len() && 0 <= j < r.len() && i != j implies #[trigger] r[i].field_id@
                    != #[trigger] r[j].field_id@ by {
                    if i < rest.len() && j < rest.len() {
                        assert(r[i] == rest[i] && r[j] == rest[j]);
                    } else if i < rest.len() {
                        let k = choose|k: int| 0 <= k < init.len() && init[k] == rest[i];
                        assert(cells[k].field_id@ != cells[cells.len() - 1].field_id@);
                    } else {
                        let k = choose|k: int| 0 <= k < init.len() && init[k] == rest[j];
                        assert(cells[k].field_id@ != cells[cells.len() - 1].field_id@);
                    }
                }
            }
        }
    }
}

/// Setting cells keeps at most one cell for each field.
pub proof fn lemma_cells_after_set_unique(cells: Seq<CellMeta>, updates: Seq<CellMeta>)
    requires
        cell_fields_unique(cells),
    ensures
        cell_fields_unique(cells_after_set(cells, updates)),
    decreases updates.len(),
{
    if updates.len() > 0 {
        lemma_cells_after_set_unique(cells, updates.drop_last());
        let before = cells_after_set(cells, updates.drop_last());
        let u = updates.last();
        lemma_cells_without(before, u.field_id@);
        let w = cells_without(before, u.field_id@);
        let r = w.push(u);
        assert forall|i: int, j: int|
            0 <= i < r.len() && 0 <= j < r.len() && i != j implies #[trigger] r[i].field_id@
            != #[trigger] r[j].field_id@ by {
            if i < w.len() && j < w.len() {
                assert(r[i] == w[i] && r[j] == w[j]);
            } else if i < w.len() {
                assert(r[i] == w[i]);
            } else {
                assert(r[j] == w[j]);
            }
        }
    }
}

/// Deleting rows keeps every remaining row's cells of distinct fields.
pub proof fn lemma_rows_without_cells(rows: Seq<RowMetaView>, ids: Seq<Seq<char>>)
    requires
        rows_cells_unique(rows),
    ensures
        rows_cells_unique(rows_without(rows, ids)),
    decreases rows.len(),
{
    if rows.len() > 0 {
        let init = rows.drop_last();
        assert forall|i: int| 0 <= i < init.len() implies cell_fields_unique(#[trigger] init[i].cells) by {
            assert(init[i] == rows[i]);
        }
        lemma_rows_without_cells(init, ids);
        let rest = rows_without(init, ids);
        if !ids.contains(rows.last().id) {
            let r = rest.push(rows.last());
            assert forall|i: int| 0 <= i < r.len() implies cell_fields_unique(#[trigger] r[i].cells) by {
                if i < rest.len() {
                    assert(r[i] == rest[i]);
                } else {
                    assert(r[i] == rows[rows.len() - 1]);
                }
            }
        }
    }
}

/// Setting the rows of a block to rows with cells of distinct fields keeps
/// every row's cells of distinct fields.
pub proof fn lemma_set_rows_cells(v: Seq<BlockRowsView>, block_id: Seq<char>, rows: Seq<RowMetaView>)
    requires
        row_cells_unique(v),
        rows_cells_unique(rows),
    ensures
        row_cells_unique(set_rows(v, block_id, rows)),
        rows_cells_unique(rows_in(v, block_id)),
{
    let w = set_rows(v, block_id, rows);
    assert forall|b: int| 0 <= b < w.len() implies rows_cells_unique(#[trigger] w[b].rows) by {
        if has_entry(v, block_id) {
            if b != entry_index(v, block_id) {
                assert(w[b] == v[b]);
            }
        } else if b < v.len() {
            assert(w[b] == v[b]);
        }
    }
    if has_entry(v, block_id) {
        assert(rows_cells_unique(v[entry_index(v, block_id)].rows));
    } else {
        assert(rows_in(v, block_id) =~= Seq::<RowMetaView>::empty());
    }
}

/// Deleting rows keeps every remaining row's cells of distinct fields.
pub proof fn lemma_delete_cells(v: Seq<BlockRowsView>, block_id: Seq<char>, ids: Seq<Seq<char>>)
    requires
        row_cells_unique(v),
    ensures
        row_cells_unique(rows_after_delete(v, block_id, ids)),
{
    if has_entry(v, block_id) {
        lemma_set_rows_cells(v, block_id, Seq::empty());
        lemma_rows_without_cells(rows_in(v, block_id), ids);
        lemma_set_rows_cells(v, block_id, rows_without(rows_in(v, block_id), ids));
    }
}

/// Updating a row keeps every row's cells of distinct fields.
pub proof fn lemma_row_update_cells(
    v: Seq<BlockRowsView>,
    row_id: Seq<char>,
    height: Option<i32>,
    visibility: Option<bool>,
    cells: Seq<CellMeta>,
)
    requires
        row_cells_unique(v),
    ensures
        row_cells_unique(rows_after_row_update(v, row_id, height, visibility, cells)),
{
    if has_row(v, row_id) {
        let b = row_block_index(v, row_id);
        let i = row_index_in(v[b].rows, row_id);
        let rows = v[b].rows;
        assert(rows_cells_unique(rows));
        lemma_cells_after_set_unique(rows[i].cells, cells);
        let nrows = rows.update(i, row_after_update(rows[i], height, visibility, cells));
        assert forall|k: int| 0 <= k < nrows.len() implies cell_fields_unique(#[trigger] nrows[k].cells) by {
            if k != i {
                assert(nrows[k] == rows[k]);
            }
        }
        let w = rows_after_row_update(v, row_id, height, visibility, cells);
        assert forall|c: int| 0 <= c < w.len() implies rows_cells_unique(#[trigger] w[c].rows) by {
            if c != b {
                assert(w[c] == v[c]);
            } else {
                assert(w[c].rows == nrows);
            }
        }
    }
}

/// Placing a row whose cells are of distinct fields keeps every row's cells
/// of distinct fields.
pub proof fn lemma_create_cells(rows: Seq<RowMetaView>, row: RowMetaView, start: Option<Seq<char>>)
    requires
        rows_cells_unique(rows),
        cell_fields_unique(row.cells),
    ensures
        rows_cells_unique(rows_after_create(rows, row, start)),
{
    let r = rows_after_create(rows, row, start);
    if start is Some && has_row_in(rows, start->0) {
        let k = row_index_in(rows, start->0) + 1;
        assert forall|i: int| 0 <= i < r.len() implies cell_fields_unique(#[trigger] r[i].cells) by {
            if i < k {
                assert(r[i] == rows[i]);
            } else if i > k {
                assert(r[i] == rows[i - 1]);
            }
        }
    } else {
        assert forall|i: int| 0 <= i < r.len() implies cell_fields_unique(#[trigger] r[i].cells) by {
            if i < rows.len() {
                assert(r[i] == rows[i]);
            }
        }
    }
}

/// The view of a vector of rows after an insertion.
pub proof fn lemma_row_views_insert(v: Seq<RowMeta>, k: int, r: RowMeta)
    requires
        0 <= k <= v.len(),
    ensures
        row_views(v.insert(k, r)) == row_views(v).insert(k, r@),
{
    assert(row_views(v.insert(k, r)) =~= row_views(v).insert(k, r@));
}

/// The view of a vector of rows after a push.
pub proof fn lemma_row_views_push(v: Seq<RowMeta>, r: RowMeta)
    ensures
        row_views(v.push(r)) == row_views(v).push(r@),
{
    assert(row_views(v.push(r)) =~= row_views(v).push(r@));
}

/// The view of a vector of rows after an element is replaced.
pub proof fn lemma_row_views_update(v: Seq<RowMeta>, k: int, r: RowMeta)
    requires
        0 <= k < v.len(),
    ensures
        row_views(v.update(k, r)) == row_views(v).update(k, r@),
{
    assert(row_views(v.update(k, r)) =~= row_views(v).update(k, r@));
}

/// Ids of a block's rows are unique among themselves.
pub open spec fn ids_unique_in(rows: Seq<RowMetaView>) -> bool {
    forall|i: int, j: int|
        0 <= i < rows.len() && 0 <= j < rows.len() && i != j ==> #[trigger] rows[i].id != #[trigger] rows[j].id
}

/// Unique row ids across blocks are unique within each block.
pub proof fn lemma_unique_in_block(v: Seq<BlockRowsView>, b: int)
    requires
        row_ids_unique(v),
        0 <= b < v.len(),
    ensures
        ids_unique_in(v[b].rows),
{
    let rows = v[b].rows;
    assert forall|i: int, j: int| 0 <= i < rows.len() && 0 <= j < rows.len() && i != j implies #[trigger] rows[i].id
        != #[trigger] rows[j].id by {
        assert(v[b].rows[i].id != v[b].rows[j].id);
    }
}

/// Inserting a row with a fresh id keeps the ids of the rows unique, and
/// every id after it is the fresh one or one of before.
pub proof fn lemma_insert_row(rows: Seq<RowMetaView>, k: int, row: RowMetaView)
    requires
        ids_unique_in(rows),
        !has_row_in(rows, row.id),
        0 <= k <= rows.len(),
    ensures
        ids_unique_in(rows.insert(k, row)),
        forall|i: int|
            0 <= i < rows.insert(k, row).len() ==> #[trigger] rows.insert(k, row)[i].id == row.id
                || has_row_in(rows, rows.insert(k, row)[i].id),
{
    let s = rows.insert(k, row);
    assert forall|i: int, j: int| 0 <= i < s.len() && 0 <= j < s.len() && i != j implies #[trigger] s[i].id
        != #[trigger] s[j].id by {
        let oi = if i < k { i } else { i - 1 };
        let oj = if j < k { j } else { j - 1 };
        if i == k {
            assert(s[j] == rows[oj]);
        } else if j == k {
            assert(s[i] == rows[oi]);
        } else {
            assert(s[i] == rows[oi]);
            assert(s[j] == rows[oj]);
        }
    }
    assert forall|i: int| 0 <= i < s.len() implies #[trigger] s[i].id == row.id || has_row_in(rows, s[i].id) by {
        if i < k {
            assert(s[i] == rows[i]);
        } else if i > k {
            assert(s[i] == rows[i - 1]);
        }
    }
}

/// Replacing a row by one with the same id keeps the ids.
pub proof fn lemma_update_row(rows: Seq<RowMetaView>, k: int, row: RowMetaView)
    requires
        ids_unique_in(rows),
        0 <= k < rows.len(),
        rows[k].id == row.id,
    ensures
        ids_unique_in(rows.update(k, row)),
        forall|i: int|
            0 <= i < rows.update(k, row).len() ==> #[trigger] rows.update(k, row)[i].id == row.id
                || has_row_in(rows, rows.update(k, row)[i].id),
{
    let s = rows.update(k, row);
    assert forall|i: int, j: int| 0 <= i < s.len() && 0 <= j < s.len() && i != j implies #[trigger] s[i].id
        != #[trigger] s[j].id by {
        assert(s[i].id == rows[i].id);
        assert(s[j].id == rows[j].id);
    }
    assert forall|i: int| 0 <= i < s.len() implies #[trigger] s[i].id == row.id || has_row_in(rows, s[i].id) by {
        assert(s[i].id == rows[i].id);
    }
}

/// Dropping rows keeps the ids of the rest unique, each of them one of
/// before.
pub proof fn lemma_rows_without(rows: Seq<RowMetaView>, ids: Seq<Seq<char>>)
    requires
        ids_unique_in(rows),
    ensures
        ids_unique_in(rows_without(rows, ids)),
        forall|i: int|
            0 <= i < rows_without(rows, ids).len() ==> has_row_in(rows, #[trigger] rows_without(rows, ids)[i].id),
        forall|i: int|
            0 <= i < rows_without(rows, ids).len() ==> !ids.contains(#[trigger] rows_without(rows, ids)[i].id),
    decreases rows.len(),
{
    if rows.len() > 0 {
        let init = rows.drop_last();
        assert(ids_unique_in(init)) by {
            assert forall|i: int, j: int| 0 <= i < init.len() && 0 <= j < init.len() && i != j implies #[trigger] init[i].id
                != #[trigger] init[j].id by {
                assert(init[i] == rows[i] && init[j] == rows[j]);
            }
        }
        lemma_rows_without(init, ids);
        let rest = rows_without(init, ids);
        let res = rows_without(rows, ids);
        assert forall|i: int| 0 <= i < res.len() implies has_row_in(rows, #[trigger] res[i].id) by {
            if i < rest.len() {
                assert(res[i] == rest[i]);
                let j = choose|j: int| 0 <= j < init.len() && #[trigger] init[j].id == rest[i].id;
                assert(rows[j] == init[j]);
            } else {
                assert(res[i] == rows.last());
                assert(rows[rows.len() - 1].id == res[i].id);
            }
        }
        if !ids.contains(rows.last().id) {
            assert forall|i: int, j: int| 0 <= i < res.len() && 0 <= j < res.len() && i != j implies #[trigger] res[i].id
                != #[trigger] res[j].id by {
                if i < rest.len() && j < rest.len() {
                } else if i < rest.len() {
                    let k = choose|k: int| 0 <= k < init.len() && #[trigger] init[k].id == rest[i].id;
                    assert(rows[k] == init[k]);
                    assert(rows[k].id != rows[rows.len() - 1].id);
                } else if j < rest.len() {
                    let k = choose|k: int| 0 <= k < init.len() && #[trigger] init[k].id == rest[j].id;
                    assert(rows[k] == init[k]);
                    assert(rows[k].id != rows[rows.len() - 1].id);
                }
            }
        }
    }
}

/// Adding a block with one row of a fresh id keeps all ids unique.
pub proof fn lemma_push_entry_unique(v: Seq<BlockRowsView>, block_id: Seq<char>, rows: Seq<RowMetaView>)
    requires
        row_ids_unique(v),
        entry_ids_unique(v),
        !has_entry(v, block_id),
        ids_unique_in(rows),
        forall|i: int| 0 <= i < rows.len() ==> !has_row(v, #[trigger] rows[i].id),
    ensures
        row_ids_unique(v.push(BlockRowsView { block_id, rows })),
        entry_ids_unique(v.push(BlockRowsView { block_id, rows })),
{
    let w = v.push(BlockRowsView { block_id, rows });
    assert forall|b1: int, i1: int, b2: int, i2: int|
        0 <= b1 < w.len() && 0 <= b2 < w.len() && 0 <= i1 < w[b1].rows.len() && 0 <= i2
            < w[b2].rows.len() && (b1 != b2 || i1 != i2) implies #[trigger] w[b1].rows[i1].id
        != #[trigger] w[b2].rows[i2].id by {
        if b1 < v.len() && b2 < v.len() {
            assert(w[b1] == v[b1] && w[b2] == v[b2]);
        } else if b1 < v.len() {
            assert(w[b1] == v[b1]);
            assert(!has_row(v, rows[i2].id));
            assert(!has_row_in(v[b1].rows, rows[i2].id));
        } else if b2 < v.len() {
            assert(w[b2] == v[b2]);
            assert(!has_row(v, rows[i1].id));
            assert(!has_row_in(v[b2].rows, rows[i1].id));
        }
    }
    assert forall|i: int, j: int| 0 <= i < w.len() && 0 <= j < w.len() && i != j implies #[trigger] w[i].block_id
        != #[trigger] w[j].block_id by {
        if i < v.len() && j < v.len() {
            assert(w[i] == v[i] && w[j] == v[j]);
        } else if i < v.len() {
            assert(w[i] == v[i]);
        } else {
            assert(w[j] == v[j]);
        }
    }
}

/// Replacing the rows of one block by some of them keeps all row ids
/// unique.
pub proof fn lemma_replace_rows_subset_unique(v: Seq<BlockRowsView>, e: int, rows: Seq<RowMetaView>)
    requires
        row_ids_unique(v),
        0 <= e < v.len(),
        ids_unique_in(rows),
        forall|i: int| 0 <= i < rows.len() ==> has_row_in(v[e].rows, #[trigger] rows[i].id),
    ensures
        row_ids_unique(v.update(e, BlockRowsView { block_id: v[e].block_id, rows })),
{
    let w = v.update(e, BlockRowsView { block_id: v[e].block_id, rows });
    assert forall|b1: int, i1: int, b2: int, i2: int|
        0 <= b1 < w.len() && 0 <= b2 < w.len() && 0 <= i1 < w[b1].rows.len() && 0 <= i2
            < w[b2].rows.len() && (b1 != b2 || i1 != i2) implies #[trigger] w[b1].rows[i1].id
        != #[trigger] w[b2].rows[i2].id by {
        if b1 == e && b2 == e {
        } else if b1 == e {
            assert(w[b2] == v[b2]);
            assert(has_row_in(v[e].rows, rows[i1].id));
            let j = choose|j: int| 0 <= j < v[e].rows.len() && #[trigger] v[e].rows[j].id == rows[i1].id;
            assert(v[e].rows[j].id != v[b2].rows[i2].id);
        } else if b2 == e {
            assert(w[b1] == v[b1]);
            assert(has_row_in(v[e].rows, rows[i2].id));
            let j = choose|j: int| 0 <= j < v[e].rows.len() && #[trigger] v[e].rows[j].id == rows[i2].id;
            assert(v[e].rows[j].id != v[b1].rows[i1].id);
        } else {
            assert(w[b1] == v[b1]);
            assert(w[b2] == v[b2]);
        }
    }
}

/// Replacing a block's entry by one with the same id keeps block ids unique.
pub proof fn lemma_replace_entry_ids(v: Seq<BlockRowsView>, e: int, rows: Seq<RowMetaView>)
    requires
        entry_ids_unique(v),
        0 <= e < v.len(),
    ensures
        entry_ids_unique(v.update(e, BlockRowsView { block_id: v[e].block_id, rows })),
{
    let w = v.update(e, BlockRowsView { block_id: v[e].block_id, rows });
    assert forall|i: int, j: int| 0 <= i < w.len() && 0 <= j < w.len() && i != j implies #[trigger] w[i].block_id
        != #[trigger] w[j].block_id by {
        assert(w[i].block_id == v[i].block_id);
        assert(w[j].block_id == v[j].block_id);
    }
}

/// A row of a block's rows is a row of the blocks.
pub proof fn lemma_rows_in_has_row(v: Seq<BlockRowsView>, block_id: Seq<char>, x: Seq<char>)
    requires
        has_row_in(rows_in(v, block_id), x),
    ensures
        has_row(v, x),
{
    if has_entry(v, block_id) {
        let e = entry_index(v, block_id);
        assert(has_row_in(v[e].rows, x));
    }
}

/// A row of the blocks after a block's rows are replaced was a row before
/// or is one of the new rows.
pub proof fn lemma_has_row_after_set(v: Seq<BlockRowsView>, block_id: Seq<char>, rows: Seq<RowMetaView>, x: Seq<char>)
    requires
        has_row(set_rows(v, block_id, rows), x),
    ensures
        has_row(v, x) || has_row_in(rows, x),
{
    let w = set_rows(v, block_id, rows);
    let b = choose|b: int| 0 <= b < w.len() && #[trigger] has_row_in(w[b].rows, x);
    if has_entry(v, block_id) {
        let e = entry_index(v, block_id);
        if b != e {
            assert(w[b] == v[b]);
        }
    } else {
        if b < v.len() {
            assert(w[b] == v[b]);
        }
    }
}

/// The rows of a block after they were set are those set.
pub proof fn lemma_rows_in_set_rows(v: Seq<BlockRowsView>, block_id: Seq<char>, rows: Seq<RowMetaView>)
    requires
        entry_ids_unique(v),
    ensures
        rows_in(set_rows(v, block_id, rows), block_id) == rows,
        entry_ids_unique(set_rows(v, block_id, rows)),
{
    let w = set_rows(v, block_id, rows);
    if has_entry(v, block_id) {
        let e = entry_index(v, block_id);
        lemma_replace_entry_ids(v, e, rows);
        lemma_entry_index(w, block_id, e);
    } else {
        assert forall|i: int, j: int| 0 <= i < w.len() && 0 <= j < w.len() && i != j implies #[trigger] w[i].block_id
            != #[trigger] w[j].block_id by {
            if i < v.len() && j < v.len() {
                assert(w[i] == v[i] && w[j] == v[j]);
            } else if i < v.len() {
                assert(w[i] == v[i]);
            } else {
                assert(w[j] == v[j]);
            }
        }
        lemma_entry_index(w, block_id, v.len() as int);
    }
}

/// Setting a block's rows twice is setting them once to the second rows.
pub proof fn lemma_set_rows_twice(v: Seq<BlockRowsView>, block_id: Seq<char>, a: Seq<RowMetaView>, b: Seq<RowMetaView>)
    requires
        entry_ids_unique(v),
    ensures
        set_rows(set_rows(v, block_id, a), block_id, b) == set_rows(v, block_id, b),
{
    let w = set_rows(v, block_id, a);
    lemma_rows_in_set_rows(v, block_id, a);
    if has_entry(v, block_id) {
        let e = entry_index(v, block_id);
        lemma_replace_entry_ids(v, e, a);
        lemma_entry_index(w, block_id, e);
        assert(set_rows(w, block_id, b) =~= set_rows(v, block_id, b));
    } else {
        lemma_entry_index(w, block_id, v.len() as int);
        assert(set_rows(w, block_id, b) =~= set_rows(v, block_id, b));
    }
}

// ---------------------------------------------------------------------------
// Executable helpers on cells and rows

/// The cells without those of the field.
pub fn cells_without_vec(cells: Vec<CellMeta>, field_id: &String) -> (res: Vec<CellMeta>)
    ensures
        res@ == cells_without(cells@, field_id@),
{
    let mut kept: Vec<CellMeta> = Vec::new();
    let mut i: usize = 0;
    let n = cells.len();
    while i < n
        invariant
            n == cells.len(),
            i <= n,
            kept@ == cells_without(cells@.take(i as int), field_id@),
        decreases n - i,
    {
        assert(cells@.take(i as int + 1).drop_last() =~= cells@.take(i as int));
        if cells[i].field_id != *field_id {
            kept.push(cells[i].clone());
        }
        i = i + 1;
    }
    assert(cells@.take(n as int) =~= cells@);
    kept
}

/// The cells with each of `updates` set, in their order.
pub fn cells_after_set_vec(cells: Vec<CellMeta>, updates: Vec<CellMeta>) -> (res: Vec<CellMeta>)
    ensures
        res@ == cells_after_set(cells@, updates@),
{
    let mut cur = cells;
    let mut i: usize = 0;
    let n = updates.len();
    while i < n
        invariant
            n == updates.len(),
            i <= n,
            cur@ == cells_after_set(cells@, updates@.take(i as int)),
        decreases n - i,
    {
        assert(updates@.take(i as int + 1).drop_last() =~= updates@.take(i as int));
        let c = updates[i].clone();
        let mut next = cells_without_vec(cur, &c.field_id);
        next.push(c);
        cur = next;
        i = i + 1;
    }
    assert(updates@.take(n as int) =~= updates@);
    cur
}

/// A row after a changeset, and whether the changeset changes anything.
pub fn apply_row_changeset(row: RowMeta, changeset: RowMetaChangeset) -> (res: (RowMeta, bool))
    ensures
        res.0@ == row_after_update(row@, changeset.height, changeset.visibility, changeset.cell_by_field_id@),
        res.1 == row_update_changes(changeset.height, changeset.visibility, changeset.cell_by_field_id@),
{
    let ghost cs = changeset;
    let mut row = row;
    let RowMetaChangeset { row_id: _, height, visibility, cell_by_field_id } = changeset;
    let mut changed = false;
    if let Some(h) = height {
        row.height = h;
        changed = true;
    }
    if let Some(b) = visibility {
        row.visibility = b;
        changed = true;
    }
    if cell_by_field_id.len() > 0 {
        changed = true;
    }
    let mut cells: Vec<CellMeta> = Vec::new();
    std::mem::swap(&mut cells, &mut row.cell_by_field_id);
    row.cell_by_field_id = cells_after_set_vec(cells, cell_by_field_id);
    (row, changed)
}

/// The character sequences of a sequence of strings.
pub open spec fn id_views(ids: Seq<String>) -> Seq<Seq<char>> {
    ids.map_values(|s: String| s@)
}

/// Whether one of the ids is `id`.
pub fn contains_id(ids: &Vec<String>, id: &String) -> (res: bool)
    ensures
        res == id_views(ids@).contains(id@),
{
    let mut i: usize = 0;
    while i < ids.len()
        invariant
            i <= ids@.len(),
            forall|k: int| 0 <= k < i ==> #[trigger] ids@[k]@ != id@,
        decreases ids.len() - i,
    {
        if ids[i] == *id {
            assert(id_views(ids@)[i as int] == id@);
            return true;
        }
        i = i + 1;
    }
    proof {
        let iv = id_views(ids@);
        assert forall|k: int| 0 <= k < iv.len() implies #[trigger] iv[k] != id@ by {
            assert(iv[k] == ids@[k]@);
        }
    }
    false
}

/// The rows without those whose id is one of `ids`.
pub fn rows_without_vec(rows: &Vec<RowMeta>, ids: &Vec<String>) -> (res: Vec<RowMeta>)
    ensures
        row_views(res@) == rows_without(row_views(rows@), id_views(ids@)),
{
    let ghost rv = row_views(rows@);
    let mut kept: Vec<RowMeta> = Vec::new();
    let mut i: usize = 0;
    while i < rows.len()
        invariant
            rv == row_views(rows@),
            i <= rows@.len(),
            row_views(kept@) == rows_without(rv.take(i as int), id_views(ids@)),
        decreases rows.len() - i,
    {
        assert(rv.take(i as int + 1).drop_last() =~= rv.take(i as int));
        assert(rv.take(i as int + 1).last() == rows@[i as int]@);
        if !contains_id(ids, &rows[i].id) {
            let r = rows[i].clone();
            proof {
                lemma_row_views_push(kept@, r);
            }
            kept.push(r);
        }
        i = i + 1;
    }
    assert(rv.take(rows@.len() as int) =~= rv);
    kept
}

// ---------------------------------------------------------------------------
// The manager

/// The rows of every block of the grid.
pub struct GridBlockMetaEditorManager {
    blocks: Vec<BlockRows>,
}

/// The values of a vector of blocks' rows.
pub open spec fn entry_views(v: Seq<BlockRows>) -> Seq<BlockRowsView> {
    v.map_values(|b: BlockRows| b@)
}

/// Whether the row at (`b2`, `i2`) is another row with the id of the row at
/// (`b`, `i`).
pub open spec fn elsewhere_at(v: Seq<BlockRowsView>, b: int, i: int, b2: int, i2: int) -> bool {
    &&& 0 <= b2 < v.len()
    &&& 0 <= i2 < v[b2].rows.len()
    &&& (b2 != b || i2 != i)
    &&& v[b2].rows[i2].id == v[b].rows[i].id
}

/// Whether another row has the id of the row at (`b`, `i`).
pub open spec fn id_elsewhere(v: Seq<BlockRowsView>, b: int, i: int) -> bool {
    exists|b2: int, i2: int| #[trigger] elsewhere_at(v, b, i, b2, i2)
}

/// The rows of blocks, as snapshots give them.
pub open spec fn snapshot_views(snapshots: Seq<GridBlockSnapshot>) -> Seq<BlockRowsView> {
    snapshots.map_values(
        |s: GridBlockSnapshot| BlockRowsView { block_id: s.block_id@, rows: row_views(s.row_metas@) },
    )
}

/// Whether no two cells are of one field.
pub fn cells_unique_vec(cells: &Vec<CellMeta>) -> (res: bool)
    ensures
        res == cell_fields_unique(cells@),
{
    let n = cells.len();
    let mut i: usize = 0;
    while i < n
        invariant
            n == cells@.len(),
            i <= n,
            forall|a: int, b: int|
                0 <= a < i && 0 <= b < n && a != b ==> #[trigger] cells@[a].field_id@ != #[trigger] cells@[b].field_id@,
        decreases n - i,
    {
        let mut j: usize = 0;
        while j < n
            invariant
                n == cells@.len(),
                i < n,
                j <= n,
                forall|a: int, b: int|
                    0 <= a < i && 0 <= b < n && a != b ==> #[trigger] cells@[a].field_id@
                        != #[trigger] cells@[b].field_id@,
                forall|b: int| 0 <= b < j && b != i ==> cells@[i as int].field_id@ != #[trigger] cells@[b].field_id@,
            decreases n - j,
        {
            if i != j && cells[i].field_id == cells[j].field_id {
                return false;
            }
            j = j + 1;
        }
        i = i + 1;
    }
    true
}

/// Whether no row of the snapshots has two cells of one field.
pub fn snapshots_cells_unique(snapshots: &Vec<GridBlockSnapshot>) -> (res: bool)
    ensures
        res == row_cells_unique(snapshot_views(snapshots@)),
{
    let ghost sv = snapshot_views(snapshots@);
    let mut b: usize = 0;
    while b < snapshots.len()
        invariant
            sv == snapshot_views(snapshots@),
            b <= snapshots@.len(),
            forall|c: int| 0 <= c < b ==> rows_cells_unique(#[trigger] sv[c].rows),
        decreases snapshots.len() - b,
    {
        let rows = &snapshots[b].row_metas;
        assert(sv[b as int].rows == row_views(rows@));
        let mut i: usize = 0;
        while i < rows.len()
            invariant
                sv == snapshot_views(snapshots@),
                b < snapshots@.len(),
                sv[b as int].rows == row_views(rows@),
                i <= rows@.len(),
                forall|k: int| 0 <= k < i ==> cell_fields_unique(#[trigger] rows@[k].cell_by_field_id@),
            decreases rows.len() - i,
        {
            if !cells_unique_vec(&rows[i].cell_by_field_id) {
                assert(sv[b as int].rows[i as int].cells == rows@[i as int].cell_by_field_id@);
                assert(!rows_cells_unique(sv[b as int].rows));
                return false;
            }
            i = i + 1;
        }
        assert forall|k: int| 0 <= k < sv[b as int].rows.len() implies cell_fields_unique(
            #[trigger] sv[b as int].rows[k].cells,
        ) by {
            assert(sv[b as int].rows[k].cells == rows@[k].cell_by_field_id@);
        }
        b = b + 1;
    }
    true
}

impl GridBlockMetaEditorManager {
    /// The blocks' rows.
    pub closed spec fn blocks_view(&self) -> Seq<BlockRowsView> {
        entry_views(self.blocks@)
    }

    /// No two blocks and no two rows share an id.
    pub open spec fn wf(&self) -> bool {
        &&& entry_ids_unique(self.blocks_view())
        &&& row_ids_unique(self.blocks_view())
    }

    /// No rows yet.
    pub fn new() -> (manager: GridBlockMetaEditorManager)
        ensures
            manager.wf(),
            manager.blocks_view() == Seq::<BlockRowsView>::empty(),
    {
        let manager = GridBlockMetaEditorManager { blocks: Vec::new() };
        assert(manager.blocks_view() =~= Seq::<BlockRowsView>::empty());
        manager
    }

    /// The position of the block's rows.
    fn entry_position(&self, block_id: &String) -> (res: Option<usize>)
        requires
            self.wf(),
        ensures
            match res {
                Some(e) => {
                    &&& has_entry(self.blocks_view(), block_id@)
                    &&& e == entry_index(self.blocks_view(), block_id@)
                    &&& e < self.blocks_view().len()
                },
                None => !has_entry(self.blocks_view(), block_id@),
            },
    {
        let mut i: usize = 0;
        while i < self.blocks.len()
            invariant
                self.wf(),
                i <= self.blocks@.len(),
                forall|k: int| 0 <= k < i ==> #[trigger] self.blocks@[k].block_id@ != block_id@,
            decreases self.blocks.len() - i,
        {
            if self.blocks[i].block_id == *block_id {
                proof {
                    lemma_entry_index(self.blocks_view(), block_id@, i as int);
                }
                return Some(i);
            }
            i = i + 1;
        }
        proof {
            let v = self.blocks_view();
            assert forall|k: int| 0 <= k < v.len() implies #[trigger] v[k].block_id != block_id@ by {
                assert(v[k].block_id == self.blocks@[k].block_id@);
            }
        }
        None
    }

    /// The position of the row in the block at `e`.
    fn row_position(&self, e: usize, row_id: &String) -> (res: Option<usize>)
        requires
            self.wf(),
            e < self.blocks_view().len(),
        ensures
            match res {
                Some(i) => {
                    &&& has_row_in(self.blocks_view()[e as int].rows, row_id@)
                    &&& i == row_index_in(self.blocks_view()[e as int].rows, row_id@)
                    &&& i < self.blocks_view()[e as int].rows.len()
                },
                None => !has_row_in(self.blocks_view()[e as int].rows, row_id@),
            },
    {
        let ghost v = self.blocks_view();
        assert(v[e as int] == self.blocks@[e as int]@);
        let rows = &self.blocks[e].rows;
        let mut i: usize = 0;
        while i < rows.len()
            invariant
                self.wf(),
                v == self.blocks_view(),
                e < v.len(),
                v[e as int].rows == row_views(rows@),
                i <= rows@.len(),
                forall|k: int| 0 <= k < i ==> #[trigger] rows@[k].id@ != row_id@,
            decreases rows.len() - i,
        {
            if rows[i].id == *row_id {
                proof {
                    assert(v[e as int].rows[i as int].id == row_id@);
                    lemma_row_index(v, e as int, i as int);
                }
                return Some(i);
            }
            i = i + 1;
        }
        proof {
            let rs = v[e as int].rows;
            assert forall|k: int| 0 <= k < rs.len() implies #[trigger] rs[k].id != row_id@ by {
                assert(rs[k].id == rows@[k].id@);
            }
        }
        None
    }

    /// Where the row is: the position of its block and its position there.
    fn locate_row(&self, row_id: &String) -> (res: Option<(usize, usize)>)
        requires
            self.wf(),
        ensures
            match res {
                Some((b, i)) => {
                    &&& has_row(self.blocks_view(), row_id@)
                    &&& b == row_block_index(self.blocks_view(), row_id@)
                    &&& b < self.blocks_view().len()
                    &&& i == row_index_in(self.blocks_view()[b as int].rows, row_id@)
                    &&& i < self.blocks_view()[b as int].rows.len()
                    &&& self.blocks_view()[b as int].rows[i as int] == row_with_id(self.blocks_view(), row_id@)
                },
                None => !has_row(self.blocks_view(), row_id@),
            },
    {
        let mut b: usize = 0;
        while b < self.blocks.len()
            invariant
                self.wf(),
                b <= self.blocks@.len(),
                self.blocks_view().len() == self.blocks@.len(),
                forall|k: int| 0 <= k < b ==> !#[trigger] has_row_in(self.blocks_view()[k].rows, row_id@),
            decreases self.blocks.len() - b,
        {
            match self.row_position(b, row_id) {
                Some(i) => {
                    proof {
                        lemma_row_index(self.blocks_view(), b as int, i as int);
                    }
                    return Some((b, i));
                },
                None => {},
            }
            b = b + 1;
        }
        None
    }

    /// Whether some block has a row with the id.
    pub fn contains_row(&self, row_id: &String) -> (res: bool)
        requires
            self.wf(),
        ensures
            res == has_row(self.blocks_view(), row_id@),
    {
        self.locate_row(row_id).is_some()
    }

    /// The row with the id.
    pub fn get_row_meta(&self, row_id: &String) -> (res: Option<RowMeta>)
        requires
            self.wf(),
        ensures
            match res {
                Some(row) => has_row(self.blocks_view(), row_id@) && row@ == row_with_id(self.blocks_view(), row_id@),
                None => !has_row(self.blocks_view(), row_id@),
            },
    {
        match self.locate_row(row_id) {
            Some((b, i)) => {
                assert(self.blocks_view()[b as int] == self.blocks@[b as int]@);
                Some(self.blocks[b].rows[i].clone())
            },
            None => None,
        }
    }

    /// The rows of the block; none for a block of which nothing is kept.
    pub fn get_rows(&self, block_id: &String) -> (res: Vec<RowMeta>)
        requires
            self.wf(),
        ensures
            row_views(res@) == rows_in(self.blocks_view(), block_id@),
    {
        match self.entry_position(block_id) {
            Some(e) => {
                assert(self.blocks_view()[e as int] == self.blocks@[e as int]@);
                let res = self.blocks[e].rows.clone();
                proof {
                    let src = self.blocks@[e as int].rows@;
                    assert forall|k: int| 0 <= k < res@.len() implies #[trigger] res@[k]@ == src[k]@ by {
                        assert(cloned::<RowMeta>(src[k], res@[k]));
                    }
                    assert(row_views(res@) =~= row_views(src));
                }
                res
            },
            None => {
                let res: Vec<RowMeta> = Vec::new();
                assert(row_views(res@) =~= Seq::<RowMetaView>::empty());
                res
            },
        }
    }

    /// The rows of each of the blocks, in the order of the ids.
    pub fn make_block_snapshots(&self, block_ids: Vec<String>) -> (res: Vec<GridBlockSnapshot>)
        requires
            self.wf(),
        ensures
            res@.len() == block_ids@.len(),
            forall|k: int|
                0 <= k < res@.len() ==> #[trigger] res@[k].block_id == block_ids@[k] && row_views(
                    res@[k].row_metas@,
                ) == rows_in(self.blocks_view(), block_ids@[k]@),
    {
        let mut res: Vec<GridBlockSnapshot> = Vec::new();
        let mut i: usize = 0;
        while i < block_ids.len()
            invariant
                self.wf(),
                i <= block_ids@.len(),
                res@.len() == i,
                forall|k: int|
                    0 <= k < i ==> #[trigger] res@[k].block_id == block_ids@[k] && row_views(
                        res@[k].row_metas@,
                    ) == rows_in(self.blocks_view(), block_ids@[k]@),
            decreases block_ids.len() - i,
        {
            let rows = self.get_rows(&block_ids[i]);
            res.push(GridBlockSnapshot { block_id: block_ids[i].clone(), row_metas: rows });
            i = i + 1;
        }
        res
    }

    /// Replaces the rows of the block at `e`.
    fn replace_rows(&mut self, e: usize, rows: Vec<RowMeta>)
        requires
            e < old(self).blocks_view().len(),
        ensures
            final(self).blocks_view() == old(self).blocks_view().update(
                e as int,
                BlockRowsView { block_id: old(self).blocks_view()[e as int].block_id, rows: row_views(rows@) },
            ),
    {
        let ghost old_blocks = self.blocks@;
        let mut entry = self.blocks.remove(e);
        entry.rows = rows;
        self.blocks.insert(e, entry);
        proof {
            assert(self.blocks@ =~= old_blocks.update(e as int, entry));
            assert(entry_views(self.blocks@) =~= entry_views(old_blocks).update(e as int, entry@));
        }
    }

    /// Takes the rows of the block at `e`, leaving it none.
    fn take_rows(&mut self, e: usize) -> (rows: Vec<RowMeta>)
        requires
            e < old(self).blocks_view().len(),
        ensures
            row_views(rows@) == old(self).blocks_view()[e as int].rows,
            final(self).blocks_view() == old(self).blocks_view().update(
                e as int,
                BlockRowsView { block_id: old(self).blocks_view()[e as int].block_id, rows: Seq::empty() },
            ),
    {
        let ghost old_blocks = self.blocks@;
        let mut entry = self.blocks.remove(e);
        let mut rows: Vec<RowMeta> = Vec::new();
        std::mem::swap(&mut rows, &mut entry.rows);
        self.blocks.insert(e, entry);
        proof {
            assert(old_blocks[e as int]@.rows == row_views(rows@));
            assert(row_views(entry.rows@) =~= Seq::<RowMetaView>::empty());
            assert(self.blocks@ =~= old_blocks.update(e as int, entry));
            assert(entry_views(self.blocks@) =~= entry_views(old_blocks).update(e as int, entry@));
        }
        rows
    }

    /// The position of the block's rows, adding an empty block where nothing
    /// is kept for it.
    fn entry_or_insert(&mut self, block_id: &String) -> (e: usize)
        requires
            old(self).wf(),
        ensures
            final(self).wf(),
            has_entry(final(self).blocks_view(), block_id@),
            e == entry_index(final(self).blocks_view(), block_id@),
            e < final(self).blocks_view().len(),
            final(self).blocks_view() == (if has_entry(old(self).blocks_view(), block_id@) {
                old(self).blocks_view()
            } else {
                old(self).blocks_view().push(BlockRowsView { block_id: block_id@, rows: Seq::empty() })
            }),
            rows_in(final(self).blocks_view(), block_id@) == rows_in(old(self).blocks_view(), block_id@),
    {
        match self.entry_position(block_id) {
            Some(e) => e,
            None => {
                let ghost v = self.blocks_view();
                let ghost old_blocks = self.blocks@;
                let entry = BlockRows { block_id: block_id.clone(), rows: Vec::new() };
                assert(entry@ == BlockRowsView { block_id: block_id@, rows: Seq::<RowMetaView>::empty() }) by {
                    assert(row_views(entry.rows@) =~= Seq::<RowMetaView>::empty());
                }
                self.blocks.push(entry);
                proof {
                    assert(entry_views(self.blocks@) =~= entry_views(old_blocks).push(entry@));
                    lemma_push_entry_unique(v, block_id@, Seq::empty());
                    lemma_entry_index(self.blocks_view(), block_id@, v.len() as int);
                }
                self.blocks.len() - 1
            },
        }
    }

    /// Adds a row to the block, right after the row `start_row_id` where the
    /// block has it and at the end otherwise; a block of which nothing was
    /// kept is added. Returns the number of rows of the block.
    pub fn create_row(&mut self, block_id: &String, row_meta: RowMeta, start_row_id: Option<String>) -> (row_count: i32)
        requires
            old(self).wf(),
            !has_row(old(self).blocks_view(), row_meta.id@),
        ensures
            final(self).wf(),
            final(self).blocks_view() == set_rows(
                old(self).blocks_view(),
                block_id@,
                rows_after_create(rows_in(old(self).blocks_view(), block_id@), row_meta@, opt_view(start_row_id)),
            ),
            row_count == rows_in(final(self).blocks_view(), block_id@).len() as i32,
    {
        let ghost v0 = self.blocks_view();
        let e = self.entry_or_insert(block_id);
        let ghost v1 = self.blocks_view();
        proof {
            if !has_entry(v0, block_id@) {
                assert forall|b: int| 0 <= b < v1.len() implies !#[trigger] has_row_in(v1[b].rows, row_meta.id@) by {
                    if b < v0.len() {
                        assert(v1[b] == v0[b]);
                    } else {
                        assert(v1[b].rows =~= Seq::<RowMetaView>::empty());
                    }
                }
            }
            assert(!has_row(v1, row_meta.id@));
            lemma_unique_in_block(v1, e as int);
            assert(v1[e as int].rows == rows_in(v0, block_id@));
        }
        let pos = match &start_row_id {
            Some(s) => self.row_position(e, s),
            None => None,
        };
        let mut rows = self.take_rows(e);
        let ghost old_rows = row_views(rows@);
        let ghost new_rows = rows_after_create(old_rows, row_meta@, opt_view(start_row_id));
        proof {
            assert(!has_row_in(v1[e as int].rows, row_meta.id@));
        }
        let len = rows.len();
        assert(old_rows.len() == len);
        match pos {
            Some(i) => {
                proof {
                    lemma_row_views_insert(rows@, i as int + 1, row_meta);
                    lemma_insert_row(old_rows, i as int + 1, row_meta@);
                }
                rows.insert(i + 1, row_meta);
            },
            None => {
                proof {
                    lemma_row_views_push(rows@, row_meta);
                    lemma_insert_row(old_rows, old_rows.len() as int, row_meta@);
                    assert(old_rows.insert(old_rows.len() as int, row_meta@) =~= old_rows.push(row_meta@));
                }
                rows.push(row_meta);
            },
        }
        let n = rows.len();
        self.replace_rows(e, rows);
        proof {
            assert(row_views(rows@) == new_rows);
            lemma_replace_rows_unique(v1, e as int, new_rows, row_meta@.id);
            lemma_replace_entry_ids(v1, e as int, new_rows);
            let v2 = self.blocks_view();
            assert(v2 == v1.update(e as int, BlockRowsView { block_id: block_id@, rows: new_rows }));
            if !has_entry(v0, block_id@) {
                assert(v2 =~= v0.push(BlockRowsView { block_id: block_id@, rows: new_rows }));
            }
            lemma_entry_index(v2, block_id@, e as int);
        }
        #[verifier::truncate]
        (n as i32)
    }

    /// The number of rows of the block.
    pub fn row_count(&self, block_id: &String) -> (count: i32)
        requires
            self.wf(),
        ensures
            count == rows_in(self.blocks_view(), block_id@).len() as i32,
    {
        match self.entry_position(block_id) {
            Some(e) => {
                assert(self.blocks_view()[e as int] == self.blocks@[e as int]@);
                #[verifier::truncate]
                (self.blocks[e].rows.len() as i32)
            },
            None => 0,
        }
    }

    /// Adds rows at the end of the block, in their order; a block of which
    /// nothing was kept is added, where there are rows to add. Returns the
    /// number of rows of the block.
    pub fn insert_rows(&mut self, block_id: &String, rows: Vec<RowMeta>) -> (row_count: i32)
        requires
            old(self).wf(),
            forall|i: int| 0 <= i < rows@.len() ==> !has_row(old(self).blocks_view(), #[trigger] rows@[i].id@),
            forall|i: int, j: int|
                0 <= i < rows@.len() && 0 <= j < rows@.len() && i != j ==> #[trigger] rows@[i].id@
                    != #[trigger] rows@[j].id@,
        ensures
            final(self).wf(),
            final(self).blocks_view() == (if rows@.len() == 0 {
                old(self).blocks_view()
            } else {
                set_rows(
                    old(self).blocks_view(),
                    block_id@,
                    rows_in(old(self).blocks_view(), block_id@) + row_views(rows@),
                )
            }),
            row_count == rows_in(final(self).blocks_view(), block_id@).len() as i32,
    {
        if rows.len() == 0 {
            return self.row_count(block_id);
        }
        let ghost v0 = self.blocks_view();
        let ghost base = rows_in(v0, block_id@);
        let ghost rv = row_views(rows@);
        let mut count: i32 = 0;
        let mut i: usize = 0;
        while i < rows.len()
            invariant
                self.wf(),
                entry_ids_unique(v0),
                base == rows_in(v0, block_id@),
                rv == row_views(rows@),
                i <= rows@.len(),
                forall|k: int| i <= k < rv.len() ==> !has_row(self.blocks_view(), #[trigger] rv[k].id),
                forall|a: int, b: int|
                    0 <= a < rv.len() && 0 <= b < rv.len() && a != b ==> #[trigger] rv[a].id != #[trigger] rv[b].id,
                i == 0 ==> self.blocks_view() == v0,
                i > 0 ==> self.blocks_view() == set_rows(v0, block_id@, base + rv.take(i as int)),
                i > 0 ==> count == rows_in(self.blocks_view(), block_id@).len() as i32,
            decreases rows.len() - i,
        {
            let ghost cur = self.blocks_view();
            proof {
                if i == 0 {
                    assert(base + rv.take(0) =~= base);
                } else {
                    lemma_rows_in_set_rows(v0, block_id@, base + rv.take(i as int));
                }
                assert(rows_in(cur, block_id@) == base + rv.take(i as int));
                assert(rv[i as int] == rows@[i as int]@);
            }
            let row = rows[i].clone();
            assert(row@.id == rv[i as int].id);
            count = self.create_row(block_id, row, None);
            proof {
                let next = self.blocks_view();
                let grown = rows_in(cur, block_id@).push(row@);
                assert(next == set_rows(cur, block_id@, grown));
                assert forall|k: int| i + 1 <= k < rv.len() implies !has_row(next, #[trigger] rv[k].id) by {
                    if has_row(next, rv[k].id) {
                        lemma_has_row_after_set(cur, block_id@, grown, rv[k].id);
                        if has_row_in(grown, rv[k].id) {
                            let j = choose|j: int| 0 <= j < grown.len() && #[trigger] grown[j].id == rv[k].id;
                            if j < grown.len() - 1 {
                                assert(rows_in(cur, block_id@)[j].id == rv[k].id);
                                assert(has_row_in(rows_in(cur, block_id@), rv[k].id));
                                lemma_rows_in_has_row(cur, block_id@, rv[k].id);
                            } else {
                                assert(rv[i as int].id == rv[k].id);
                            }
                        }
                    }
                }
                assert(base + rv.take(i as int + 1) =~= (base + rv.take(i as int)).push(rv[i as int]));
                if i > 0 {
                    lemma_set_rows_twice(v0, block_id@, base + rv.take(i as int), grown);
                }
            }
            i = i + 1;
        }
        proof {
            assert(rv.take(rows@.len() as int) =~= rv);
        }
        count
    }

    /// Applies a changeset to the row that it names: a new height, a new
    /// visibility, and cells to set. Nothing changes where no block has the
    /// row; the result says whether anything changed.
    pub fn update_row(&mut self, changeset: RowMetaChangeset) -> (changed: bool)
        requires
            old(self).wf(),
        ensures
            final(self).wf(),
            final(self).blocks_view() == rows_after_row_update(
                old(self).blocks_view(),
                changeset.row_id@,
                changeset.height,
                changeset.visibility,
                changeset.cell_by_field_id@,
            ),
            changed == (has_row(old(self).blocks_view(), changeset.row_id@) && row_update_changes(
                changeset.height,
                changeset.visibility,
                changeset.cell_by_field_id@,
            )),
    {
        let ghost v = self.blocks_view();
        let ghost cs = changeset;
        let (b, i) = match self.locate_row(&changeset.row_id) {
            Some(p) => p,
            None => return false,
        };
        let mut rows = self.take_rows(b);
        let ghost old_exec = rows@;
        let ghost old_rows = row_views(rows@);
        let row = rows.remove(i);
        let (row, changed) = apply_row_changeset(row, changeset);
        rows.insert(i, row);
        self.replace_rows(b, rows);
        proof {
            assert(rows@ =~= old_exec.update(i as int, row));
            lemma_row_views_update(old_exec, i as int, row);
            lemma_unique_in_block(v, b as int);
            lemma_update_row(old_rows, i as int, row@);
            let new_rows = old_rows.update(i as int, row@);
            assert forall|k: int| 0 <= k < new_rows.len() implies has_row_in(v[b as int].rows, #[trigger] new_rows[k].id) by {
                if k == i {
                    assert(v[b as int].rows[k].id == new_rows[k].id);
                } else {
                    assert(new_rows[k] == v[b as int].rows[k]);
                }
            }
            lemma_replace_rows_subset_unique(v, b as int, new_rows);
            lemma_replace_entry_ids(v, b as int, new_rows);
        }
        changed
    }

    /// Deletes the block's rows whose id is one of `row_ids`; nothing changes
    /// where nothing is kept for the block. Returns the number of rows of the
    /// block.
    pub fn delete_rows(&mut self, block_id: &String, row_ids: Vec<String>) -> (row_count: i32)
        requires
            old(self).wf(),
        ensures
            final(self).wf(),
            final(self).blocks_view() == rows_after_delete(old(self).blocks_view(), block_id@, id_views(row_ids@)),
            row_count == rows_in(final(self).blocks_view(), block_id@).len() as i32,
    {
        let ghost v0 = self.blocks_view();
        let e = match self.entry_position(block_id) {
            Some(e) => e,
            None => return 0,
        };
        proof {
            lemma_unique_in_block(v0, e as int);
        }
        let rows = self.take_rows(e);
        let kept = rows_without_vec(&rows, &row_ids);
        let n = kept.len();
        let ghost new_rows = row_views(kept@);
        self.replace_rows(e, kept);
        proof {
            lemma_rows_without(v0[e as int].rows, id_views(row_ids@));
            lemma_replace_rows_subset_unique(v0, e as int, new_rows);
            lemma_replace_entry_ids(v0, e as int, new_rows);
            let v2 = self.blocks_view();
            assert(v2 == v0.update(e as int, BlockRowsView { block_id: block_id@, rows: new_rows }));
            lemma_entry_index(v2, block_id@, e as int);
        }
        #[verifier::truncate]
        (n as i32)
    }

    /// The rows of the blocks that the snapshots give, in their order; an
    /// error where two blocks or two rows share an id.
    pub fn from_snapshots(snapshots: Vec<GridBlockSnapshot>) -> (res: Result<GridBlockMetaEditorManager, FlowyError>)
        ensures
            match res {
                Ok(manager) => {
                    &&& manager.wf()
                    &&& manager.blocks_view() == snapshot_views(snapshots@)
                },
                Err(e) => {
                    &&& e.code == ErrorCode::Internal
                    &&& !(entry_ids_unique(snapshot_views(snapshots@)) && row_ids_unique(snapshot_views(snapshots@)))
                },
            },
    {
        let ghost sv = snapshot_views(snapshots@);
        let mut blocks: Vec<BlockRows> = Vec::new();
        let mut k: usize = 0;
        while k < snapshots.len()
            invariant
                sv == snapshot_views(snapshots@),
                k <= snapshots@.len(),
                entry_views(blocks@) == sv.take(k as int),
            decreases snapshots.len() - k,
        {
            let snap = &snapshots[k];
            let rows = snap.row_metas.clone();
            let entry = BlockRows { block_id: snap.block_id.clone(), rows };
            proof {
                assert forall|j: int| 0 <= j < rows@.len() implies #[trigger] rows@[j]@ == snap.row_metas@[j]@ by {
                    assert(cloned::<RowMeta>(snap.row_metas@[j], rows@[j]));
                }
                assert(row_views(rows@) =~= row_views(snap.row_metas@));
                assert(entry@ == sv[k as int]);
            }
            let ghost before = blocks@;
            blocks.push(entry);
            proof {
                assert(entry_views(blocks@) =~= entry_views(before).push(entry@));
                assert(sv.take(k as int + 1) =~= sv.take(k as int).push(sv[k as int]));
            }
            k = k + 1;
        }
        assert(sv.take(snapshots@.len() as int) =~= sv);
        let manager = GridBlockMetaEditorManager { blocks };
        let n = manager.blocks.len();
        let mut i: usize = 0;
        while i < n
            invariant
                sv == manager.blocks_view(),
                sv == snapshot_views(snapshots@),
                n == sv.len(),
                i <= n,
                forall|a: int, b: int|
                    0 <= a < i && 0 <= b < n && a != b ==> #[trigger] sv[a].block_id != #[trigger] sv[b].block_id,
            decreases n - i,
        {
            let mut j: usize = 0;
            while j < n
                invariant
                    sv == manager.blocks_view(),
                    sv == snapshot_views(snapshots@),
                    n == sv.len(),
                    i < n,
                    j <= n,
                    forall|a: int, b: int|
                        0 <= a < i && 0 <= b < n && a != b ==> #[trigger] sv[a].block_id != #[trigger] sv[b].block_id,
                    forall|b: int| 0 <= b < j && b != i ==> sv[i as int].block_id != #[trigger] sv[b].block_id,
                decreases n - j,
            {
                assert(sv[i as int] == manager.blocks@[i as int]@ && sv[j as int] == manager.blocks@[j as int]@);
                if i != j && manager.blocks[i].block_id == manager.blocks[j].block_id {
                    assert(sv[i as int].block_id == sv[j as int].block_id);
                    return Err(FlowyError::internal(String::from_str("Duplicate block id in the grid")));
                }
                j = j + 1;
            }
            i = i + 1;
        }
        let mut b: usize = 0;
        while b < n
            invariant
                sv == manager.blocks_view(),
                sv == snapshot_views(snapshots@),
                n == sv.len(),
                entry_ids_unique(sv),
                b <= n,
                forall|b1: int, i1: int|
                    0 <= b1 < b && 0 <= i1 < sv[b1].rows.len() ==> !#[trigger] id_elsewhere(sv, b1, i1),
            decreases n - b,
        {
            assert(sv[b as int] == manager.blocks@[b as int]@);
            let m = manager.blocks[b].rows.len();
            let mut i: usize = 0;
            while i < m
                invariant
                    sv == manager.blocks_view(),
                    sv == snapshot_views(snapshots@),
                    n == sv.len(),
                    entry_ids_unique(sv),
                    b < n,
                    m == sv[b as int].rows.len(),
                    i <= m,
                    forall|b1: int, i1: int|
                        0 <= b1 < b && 0 <= i1 < sv[b1].rows.len() ==> !#[trigger] id_elsewhere(sv, b1, i1),
                    forall|i1: int| 0 <= i1 < i ==> !#[trigger] id_elsewhere(sv, b as int, i1),
                decreases m - i,
            {
                if manager.row_id_elsewhere(b, i) {
                    proof {
                        let w = choose|b2: int, i2: int| elsewhere_at(sv, b as int, i as int, b2, i2);
                        assert(elsewhere_at(sv, b as int, i as int, w.0, w.1));
                    }
                    return Err(FlowyError::internal(String::from_str("Duplicate row id in the grid")));
                }
                i = i + 1;
            }
            b = b + 1;
        }
        proof {
            assert forall|b1: int, i1: int, b2: int, i2: int|
                0 <= b1 < sv.len() && 0 <= b2 < sv.len() && 0 <= i1 < sv[b1].rows.len() && 0 <= i2
                    < sv[b2].rows.len() && (b1 != b2 || i1 != i2) implies #[trigger] sv[b1].rows[i1].id
                != #[trigger] sv[b2].rows[i2].id by {
                if sv[b1].rows[i1].id == sv[b2].rows[i2].id {
                    assert(elsewhere_at(sv, b1, i1, b2, i2));
                    assert(id_elsewhere(sv, b1, i1));
                }
            }
        }
        Ok(manager)
    }

    /// Whether a row other than the one at (`b`, `i`) has its id.
    fn row_id_elsewhere(&self, b: usize, i: usize) -> (res: bool)
        requires
            b < self.blocks_view().len(),
            i < self.blocks_view()[b as int].rows.len(),
        ensures
            res == id_elsewhere(self.blocks_view(), b as int, i as int),
    {
        let ghost v = self.blocks_view();
        assert(v[b as int] == self.blocks@[b as int]@);
        assert(v[b as int].rows[i as int] == self.blocks@[b as int].rows@[i as int]@);
        let id = &self.blocks[b].rows[i].id;
        let n = self.blocks.len();
        let mut b2: usize = 0;
        while b2 < n
            invariant
                v == self.blocks_view(),
                n == v.len(),
                b < n,
                i < v[b as int].rows.len(),
                id@ == v[b as int].rows[i as int].id,
                b2 <= n,
                forall|c: int, j: int| 0 <= c < b2 ==> !#[trigger] elsewhere_at(v, b as int, i as int, c, j),
            decreases n - b2,
        {
            assert(v[b2 as int] == self.blocks@[b2 as int]@);
            let rows = &self.blocks[b2].rows;
            let mut i2: usize = 0;
            while i2 < rows.len()
                invariant
                    v == self.blocks_view(),
                    n == v.len(),
                    b < n,
                    b2 < n,
                    i < v[b as int].rows.len(),
                    id@ == v[b as int].rows[i as int].id,
                    v[b2 as int].rows == row_views(rows@),
                    i2 <= rows@.len(),
                    forall|c: int, j: int| 0 <= c < b2 ==> !#[trigger] elsewhere_at(v, b as int, i as int, c, j),
                    forall|j: int| 0 <= j < i2 ==> !#[trigger] elsewhere_at(v, b as int, i as int, b2 as int, j),
                decreases rows.len() - i2,
            {
                assert(v[b2 as int].rows[i2 as int] == rows@[i2 as int]@);
                if (b2 != b || i2 != i) && rows[i2].id == *id {
                    assert(elsewhere_at(v, b as int, i as int, b2 as int, i2 as int));
                    return true;
                }
                i2 = i2 + 1;
            }
            proof {
                assert forall|j: int| !#[trigger] elsewhere_at(v, b as int, i as int, b2 as int, j) by {
                    if 0 <= j < i2 {
                    }
                }
            }
            b2 = b2 + 1;
        }
        false
    }
}

} // verus!
