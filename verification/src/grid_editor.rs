//! The grid editor: edits of the grid's fields, blocks and rows, the local
//! revision that each change of the grid's metadata records, and the
//! notifications that tell the client what changed.
//!
//! The editor keeps the notifications that it owes the client; whoever runs
//! the editor takes them with `take_notifications` and delivers them.
use vstd::prelude::*;
use vstd::string::StringExecFns;
use crate::block_meta_manager::{
    BlockRowsView, GridBlockMetaEditorManager, cells_after_set, cells_after_set_vec, entry_ids_unique, entry_index,
    has_entry, has_row, id_views, lemma_cells_after_set_unique, lemma_create_cells, lemma_delete_cells, lemma_row_update_cells,
    lemma_set_rows_cells, row_cells_unique, snapshots_cells_unique, row_ids_unique, rows_after_delete,
    row_with_id, rows_after_create, rows_after_row_update, rows_in, rows_without, set_rows, snapshot_views,
};
use crate::entities::{
    Cell, CellMeta, CellMetaChangeset, CreateFieldParams, CreateRowMetaPayload, ErrorCode, Field,
    FieldChangesetParams, FieldMeta, FieldMetaView, FieldOrder, FieldType, FieldView, FlowyError,
    Grid, GridBlock, GridBlockMeta, GridBlockMetaChangeset, GridBlockOrder, GridBlockSnapshot, GridChangeset,
    GridChangesetView, GridMeta, GridMetaView, Row,
    RowMeta, RowMetaChangeset, RowMetaView, RowOrder, RowView, TypeOptionEntry, field_list_views,
    field_view_of, field_views, orders, row_views, spec_default_cell_width, cell_fields_unique,
};
use crate::grid_meta_pad::{
    GridMetaPad, apply_field_changeset, block_changeset_changes, blocks_after_update, changeset_changes,
    duplicate_of, field_index, fields_after_create, fields_for_orders, has_block, has_field,
    lemma_block_index_unique, opt_view, switch_field_type,
};
use crate::revision::{Revision, RevisionManager};
use crate::text::{decimal, decimal_string};

verus! {

/// Height of a new row.
pub const DEFAULT_ROW_HEIGHT: i32 = 36;

/// What the editor tells the client: all fields after a change of the
/// fields, and one field after a change of it.
#[derive(Debug)]
pub enum GridNotification {
    DidUpdateFields(Vec<Field>),
    DidUpdateField(FieldMeta),
}

/// A notification as a value.
pub enum NotificationView {
    DidUpdateFields(Seq<FieldView>),
    DidUpdateField(FieldMetaView),
}

impl View for GridNotification {
    type V = NotificationView;

    open spec fn view(&self) -> NotificationView {
        match self {
            GridNotification::DidUpdateFields(fields) => NotificationView::DidUpdateFields(
                field_list_views(fields@),
            ),
            GridNotification::DidUpdateField(field) => NotificationView::DidUpdateField(field@),
        }
    }
}

/// The values of a sequence of notifications.
pub open spec fn notification_views(ns: Seq<GridNotification>) -> Seq<NotificationView> {
    ns.map_values(|n: GridNotification| n@)
}

/// A revision as a value.
pub struct RevisionView {
    pub object_id: Seq<char>,
    pub base_rev_id: i64,
    pub rev_id: i64,
    pub delta: Seq<u8>,
    pub user_id: Seq<char>,
    pub md5: Seq<char>,
}

/// The values of a sequence of revisions.
pub open spec fn revision_views(revs: Seq<Revision>) -> Seq<RevisionView> {
    revs.map_values(
        |r: Revision|
            RevisionView {
                object_id: r.object_id@,
                base_rev_id: r.base_rev_id,
                rev_id: r.rev_id,
                delta: r.delta_data@,
                user_id: r.user_id@,
                md5: r.md5@,
            },
    )
}

/// Everything that the editor holds, as a value.
pub struct GridEditorView {
    pub grid_id: Seq<char>,
    pub grid_meta_id: Seq<char>,
    pub user_id: Seq<char>,
    pub fields: Seq<FieldMetaView>,
    pub blocks: Seq<GridBlockMeta>,
    pub rows: Seq<BlockRowsView>,
    pub rev_id: i64,
    pub revisions: Seq<RevisionView>,
    pub notifications: Seq<NotificationView>,
}

// ---------------------------------------------------------------------------
// Specification of the editor's steps

/// The grid's metadata document that the editor holds.
pub open spec fn grid_of(s: GridEditorView) -> GridMetaView {
    GridMetaView { grid_id: s.grid_meta_id, fields: s.fields, blocks: s.blocks }
}

/// Whether `change` is a result that `encode` gives for the documents
/// `before` and `after`.
pub open spec fn encoded_by<E: Fn(&GridMeta, &GridMeta) -> GridChangeset>(
    encode: E,
    before: GridMetaView,
    after: GridMetaView,
    change: GridChangesetView,
) -> bool {
    exists|a: GridMeta, b: GridMeta, r: GridChangeset|
        a@ == before && b@ == after && r@ == change && #[trigger] call_ensures(encode, (&a, &b), r)
}

/// Whether `json` is a result that `decode` gives for the encoded type
/// option `data` of a field of type `field_type`.
pub open spec fn decoded_by<D: Fn(Vec<u8>, &FieldType) -> String>(
    decode: D,
    data: Vec<u8>,
    field_type: FieldType,
    json: String,
) -> bool {
    call_ensures(decode, (data, &field_type), json)
}

/// Whether `res` is a result that `serialize` gives for cell data of the
/// field.
pub open spec fn serialized_by<S: Fn(&String, &FieldMeta) -> Result<String, FlowyError>>(
    serialize: S,
    data: String,
    field: FieldMetaView,
    res: Result<String, FlowyError>,
) -> bool {
    exists|m: FieldMeta| m@ == field && #[trigger] call_ensures(serialize, (&data, &m), res)
}

/// The editor after a change of the grid's metadata, when there was one: a
/// local revision from the latest revision id to the next, holding the
/// change's delta and md5.
pub open spec fn record_change(s: GridEditorView, changed: bool, change: GridChangesetView) -> GridEditorView {
    if changed {
        GridEditorView {
            rev_id: s.rev_id.wrapping_add(1),
            revisions: s.revisions.push(
                RevisionView {
                    object_id: s.grid_id,
                    base_rev_id: s.rev_id,
                    rev_id: s.rev_id.wrapping_add(1),
                    delta: change.delta,
                    user_id: s.user_id,
                    md5: change.md5,
                },
            ),
            ..s
        }
    } else {
        s
    }
}

/// The editor after it tells the client all fields.
pub open spec fn notify_fields(s: GridEditorView) -> GridEditorView {
    GridEditorView {
        notifications: s.notifications.push(
            NotificationView::DidUpdateFields(s.fields.map_values(|f: FieldMetaView| field_view_of(f))),
        ),
        ..s
    }
}

/// The editor after it tells the client the field with the id, where the
/// grid has it.
pub open spec fn notify_field(s: GridEditorView, field_id: Seq<char>) -> GridEditorView {
    if has_field(s.fields, field_id) {
        GridEditorView {
            notifications: s.notifications.push(
                NotificationView::DidUpdateField(s.fields[field_index(s.fields, field_id)]),
            ),
            ..s
        }
    } else {
        s
    }
}

/// The editor with other fields.
pub open spec fn with_fields(s: GridEditorView, fields: Seq<FieldMetaView>) -> GridEditorView {
    GridEditorView { fields, ..s }
}

/// The editor with other blocks.
pub open spec fn with_blocks(s: GridEditorView, blocks: Seq<GridBlockMeta>) -> GridEditorView {
    GridEditorView { blocks, ..s }
}

/// The editor with other rows.
pub open spec fn with_rows(s: GridEditorView, rows: Seq<BlockRowsView>) -> GridEditorView {
    GridEditorView { rows, ..s }
}

/// The changeset that creating a field already in the grid applies to it:
/// every property of the field, and its type option.
pub open spec fn create_changeset(p: CreateFieldParams) -> FieldChangesetParams {
    FieldChangesetParams {
        field_id: p.field.id,
        grid_id: p.grid_id,
        name: Some(p.field.name),
        desc: Some(p.field.desc),
        field_type: Some(p.field.field_type),
        frozen: Some(p.field.frozen),
        visibility: Some(p.field.visibility),
        width: Some(p.field.width),
        type_option_data: Some(p.type_option_data),
    }
}

/// The field meta that a new field becomes: its properties, and the given
/// type option as that of its type.
pub open spec fn new_field_meta(field: Field, type_option: String) -> FieldMetaView {
    FieldMetaView {
        id: field.id@,
        name: field.name@,
        desc: field.desc@,
        field_type: field.field_type,
        frozen: field.frozen,
        visibility: field.visibility,
        width: field.width,
        type_options: seq![TypeOptionEntry { field_type: field.field_type, data: type_option }],
    }
}

/// The editor after a field is created, or overwritten where the grid has
/// one with its id; `type_option` is the field's type option in JSON, and
/// `change` the change of the grid's document that the revision records.
pub open spec fn after_create_field(
    s: GridEditorView,
    p: CreateFieldParams,
    type_option: String,
    change: GridChangesetView,
) -> GridEditorView {
    let fields = if has_field(s.fields, p.field.id@) {
        let i = field_index(s.fields, p.field.id@);
        s.fields.update(i, apply_field_changeset(s.fields[i], create_changeset(p), Some(type_option)))
    } else {
        fields_after_create(s.fields, new_field_meta(p.field, type_option), opt_view(p.start_field_id))
    };
    notify_fields(record_change(with_fields(s, fields), true, change))
}

/// The fields after a changeset of the field that it names.
pub open spec fn fields_after_update(
    fields: Seq<FieldMetaView>,
    p: FieldChangesetParams,
    type_option: Option<String>,
) -> Seq<FieldMetaView> {
    let i = field_index(fields, p.field_id@);
    fields.update(i, apply_field_changeset(fields[i], p, type_option))
}

/// The editor after a changeset of a field that the grid has, with
/// `type_option` as its type option in JSON.
pub open spec fn after_update_field(
    s: GridEditorView,
    p: FieldChangesetParams,
    type_option: Option<String>,
    change: GridChangesetView,
) -> GridEditorView {
    notify_field(
        notify_fields(
            record_change(
                with_fields(s, fields_after_update(s.fields, p, type_option)),
                changeset_changes(p, type_option),
                change,
            ),
        ),
        p.field_id@,
    )
}

/// The editor after the field with the id is deleted.
pub open spec fn after_delete_field(s: GridEditorView, field_id: Seq<char>, change: GridChangesetView) -> GridEditorView {
    let fields = if has_field(s.fields, field_id) {
        s.fields.remove(field_index(s.fields, field_id))
    } else {
        s.fields
    };
    notify_fields(record_change(with_fields(s, fields), has_field(s.fields, field_id), change))
}

/// The editor after the field with the id is switched to another type.
pub open spec fn after_switch_field(
    s: GridEditorView,
    field_id: Seq<char>,
    field_type: FieldType,
    default_type_option: String,
    change: GridChangesetView,
) -> GridEditorView {
    let fields = if has_field(s.fields, field_id) {
        let i = field_index(s.fields, field_id);
        s.fields.update(i, switch_field_type(s.fields[i], field_type, default_type_option))
    } else {
        s.fields
    };
    notify_field(
        notify_fields(record_change(with_fields(s, fields), has_field(s.fields, field_id), change)),
        field_id,
    )
}

/// The editor after the field with the id is duplicated under a new id.
pub open spec fn after_duplicate_field(
    s: GridEditorView,
    field_id: Seq<char>,
    new_id: Seq<char>,
    change: GridChangesetView,
) -> GridEditorView {
    let changed = has_field(s.fields, field_id) && !has_field(s.fields, new_id);
    let fields = if changed {
        let i = field_index(s.fields, field_id);
        s.fields.insert(i + 1, duplicate_of(s.fields[i], new_id))
    } else {
        s.fields
    };
    notify_fields(record_change(with_fields(s, fields), changed, change))
}

/// The editor after a block is added.
pub open spec fn after_create_block(s: GridEditorView, block: GridBlockMeta, change: GridChangesetView) -> GridEditorView {
    let changed = !has_block(s.blocks, block.block_id@);
    let blocks = if changed {
        s.blocks.push(block)
    } else {
        s.blocks
    };
    record_change(with_blocks(s, blocks), changed, change)
}

/// The editor after a block changeset.
pub open spec fn after_update_block(s: GridEditorView, cs: GridBlockMetaChangeset, change: GridChangesetView) -> GridEditorView {
    record_change(
        with_blocks(s, blocks_after_update(s.blocks, cs)),
        has_block(s.blocks, cs.block_id@) && block_changeset_changes(cs),
        change,
    )
}

/// The grid's metadata after a block's row count is set.
pub open spec fn after_row_count(s: GridEditorView, block_id: String, row_count: i32, change: GridChangesetView) -> GridEditorView {
    after_update_block(
        s,
        GridBlockMetaChangeset { block_id, start_row_index: None, row_count: Some(row_count) },
        change,
    )
}

/// The block that new rows go to: the last one.
pub open spec fn current_block_id(s: GridEditorView) -> String {
    s.blocks.last().block_id
}

/// A new empty row.
pub open spec fn new_row(row_id: Seq<char>, block_id: Seq<char>) -> RowMetaView {
    RowMetaView { id: row_id, block_id, cells: Seq::empty(), height: DEFAULT_ROW_HEIGHT, visibility: true }
}

/// The editor after a new empty row is placed in the last block, right
/// after the row `start` where that block has it.
pub open spec fn after_create_row(
    s: GridEditorView,
    start: Option<Seq<char>>,
    row_id: Seq<char>,
    change: GridChangesetView,
) -> GridEditorView {
    let block_id = current_block_id(s);
    let rows = set_rows(
        s.rows,
        block_id@,
        rows_after_create(rows_in(s.rows, block_id@), new_row(row_id, block_id@), start),
    );
    after_row_count(with_rows(s, rows), block_id, rows_in(rows, block_id@).len() as i32, change)
}

/// The row that a payload makes in the block; of several cells of one
/// field, the last counts.
pub open spec fn payload_row(ctx: CreateRowMetaPayload, block_id: Seq<char>) -> RowMetaView {
    RowMetaView {
        id: ctx.row_id@,
        block_id,
        cells: cells_after_set(Seq::empty(), ctx.cell_by_field_id@),
        height: ctx.height,
        visibility: ctx.visibility,
    }
}

/// The rows that payloads make in the block.
pub open spec fn payload_rows(contexts: Seq<CreateRowMetaPayload>, block_id: Seq<char>) -> Seq<RowMetaView> {
    contexts.map_values(|c: CreateRowMetaPayload| payload_row(c, block_id))
}

/// Whether the payloads' row ids are new and differ from each other.
pub open spec fn payload_ids_fresh(s: GridEditorView, contexts: Seq<CreateRowMetaPayload>) -> bool {
    &&& forall|i: int| 0 <= i < contexts.len() ==> !has_row(s.rows, #[trigger] contexts[i].row_id@)
    &&& forall|i: int, j: int|
        0 <= i < contexts.len() && 0 <= j < contexts.len() && i != j ==> #[trigger] contexts[i].row_id@
            != #[trigger] contexts[j].row_id@
}

/// The editor after rows made from payloads are added at the end of the last
/// block.
pub open spec fn after_insert_rows(
    s: GridEditorView,
    contexts: Seq<CreateRowMetaPayload>,
    change: GridChangesetView,
) -> GridEditorView {
    if contexts.len() == 0 {
        s
    } else {
        let block_id = current_block_id(s);
        let rows = set_rows(s.rows, block_id@, rows_in(s.rows, block_id@) + payload_rows(contexts, block_id@));
        after_row_count(with_rows(s, rows), block_id, rows_in(rows, block_id@).len() as i32, change)
    }
}

/// The cells that setting a cell of the field to `data` stores: the cell,
/// where there is data.
pub open spec fn cells_to_store(field_id: String, data: Option<String>) -> Seq<CellMeta> {
    match data {
        Some(data) => seq![CellMeta { field_id, data }],
        None => Seq::empty(),
    }
}

/// The message of the error for a cell of a field that the grid lacks.
pub open spec fn missing_field_message(field_id: Seq<char>) -> Seq<char> {
    "Can not find the field with id: "@ + field_id
}

/// The message of the error for a grid without blocks.
pub open spec fn no_block_message() -> Seq<char> {
    "There is no grid block in this grid"@
}

/// The message of the error for a new row whose id is taken.
pub open spec fn row_exists_message() -> Seq<char> {
    "A row with this id already exists"@
}

/// The distinct blocks of row orders, in the order of their first
/// appearance.
pub open spec fn order_blocks(orders: Seq<RowOrder>) -> Seq<String>
    decreases orders.len(),
{
    if orders.len() == 0 {
        Seq::empty()
    } else {
        let rest = order_blocks(orders.drop_last());
        if exists|k: int| 0 <= k < rest.len() && #[trigger] rest[k]@ == orders.last().block_id@ {
            rest
        } else {
            rest.push(orders.last().block_id)
        }
    }
}

/// The ids of the rows that the orders place in the block.
pub open spec fn order_row_ids(orders: Seq<RowOrder>, block_id: Seq<char>) -> Seq<Seq<char>>
    decreases orders.len(),
{
    if orders.len() == 0 {
        Seq::empty()
    } else {
        let rest = order_row_ids(orders.drop_last(), block_id);
        if orders.last().block_id@ == block_id {
            rest.push(orders.last().row_id@)
        } else {
            rest
        }
    }
}

/// The editor after the rows with the ids are deleted from the block, and
/// the block's row count is set.
pub open spec fn after_delete_block_rows(
    s: GridEditorView,
    block_id: String,
    ids: Seq<Seq<char>>,
    change: GridChangesetView,
) -> GridEditorView {
    let rows = rows_after_delete(s.rows, block_id@, ids);
    after_row_count(with_rows(s, rows), block_id, rows_in(rows, block_id@).len() as i32, change)
}

/// The editor after the rows of the orders are deleted, block by block;
/// `changes` holds the change of the grid's document for each block.
pub open spec fn after_delete_groups(
    s: GridEditorView,
    orders: Seq<RowOrder>,
    blocks: Seq<String>,
    changes: Seq<GridChangesetView>,
) -> GridEditorView
    decreases blocks.len(),
{
    if blocks.len() == 0 {
        s
    } else {
        let before = after_delete_groups(s, orders, blocks.drop_last(), changes.drop_last());
        after_delete_block_rows(before, blocks.last(), order_row_ids(orders, blocks.last()@), changes.last())
    }
}

/// Whether each block's change of the grid's document is a result that
/// `encode` gives for the document before and after that block's step,
/// where the step changes the document.
pub open spec fn delete_changes_encoded<E: Fn(&GridMeta, &GridMeta) -> GridChangeset>(
    encode: E,
    s: GridEditorView,
    orders: Seq<RowOrder>,
    blocks: Seq<String>,
    changes: Seq<GridChangesetView>,
) -> bool
    decreases blocks.len(),
{
    if blocks.len() == 0 {
        true
    } else {
        let before = after_delete_groups(s, orders, blocks.drop_last(), changes.drop_last());
        let after = after_delete_groups(s, orders, blocks, changes);
        &&& delete_changes_encoded(encode, s, orders, blocks.drop_last(), changes.drop_last())
        &&& has_block(before.blocks, blocks.last()@) ==> encoded_by(
            encode,
            grid_of(before),
            grid_of(after),
            changes.last(),
        )
    }
}

/// The editor after the rows of the orders are deleted.
pub open spec fn after_delete_rows(
    s: GridEditorView,
    orders: Seq<RowOrder>,
    changes: Seq<GridChangesetView>,
) -> GridEditorView {
    after_delete_groups(s, orders, order_blocks(orders), changes)
}

/// The cell of a stored cell, as a client sees it.
pub open spec fn cell_of(c: CellMeta) -> Cell {
    Cell { field_id: c.field_id, content: c.data }
}

/// The cells of the grid's fields, as a client sees them.
pub open spec fn cells_for_fields(fields: Seq<FieldMetaView>, cells: Seq<CellMeta>) -> Seq<Cell>
    decreases cells.len(),
{
    if cells.len() == 0 {
        Seq::empty()
    } else {
        let rest = cells_for_fields(fields, cells.drop_last());
        if has_field(fields, cells.last().field_id@) {
            rest.push(cell_of(cells.last()))
        } else {
            rest
        }
    }
}

/// A row as a client sees it: its cells of the grid's fields.
pub open spec fn row_view_for(fields: Seq<FieldMetaView>, row: RowMetaView) -> RowView {
    RowView { id: row.id, cells: cells_for_fields(fields, row.cells), height: row.height }
}

/// The cell of the field; where several cells name it, the last counts.
pub open spec fn cell_for_field(cells: Seq<CellMeta>, field_id: Seq<char>) -> Option<CellMeta>
    decreases cells.len(),
{
    if cells.len() == 0 {
        None
    } else if cells.last().field_id@ == field_id {
        Some(cells.last())
    } else {
        cell_for_field(cells.drop_last(), field_id)
    }
}

/// Whether a grid block is the block with the id and lists the orders of
/// the rows.
pub open spec fn lists_rows(block: GridBlock, block_id: Seq<char>, rows: Seq<RowMetaView>) -> bool {
    &&& block.id@ == block_id
    &&& block.row_orders@.len() == rows.len()
    &&& forall|j: int| 0 <= j < rows.len() ==> orders(#[trigger] block.row_orders@[j], rows[j])
}

/// The ids of the blocks that a request names: those given, or all the
/// grid's blocks.
pub open spec fn requested_blocks(s: GridEditorView, block_ids: Option<Vec<String>>) -> Seq<Seq<char>> {
    match block_ids {
        Some(ids) => ids@.map_values(|id: String| id@),
        None => s.blocks.map_values(|b: GridBlockMeta| b.block_id@),
    }
}

/// The fields that one order names: the field, where the grid has it.
pub proof fn lemma_single_order(fields: Seq<FieldMetaView>, orders: Seq<FieldOrder>)
    requires
        orders.len() == 1,
    ensures
        fields_for_orders(fields, orders) == (if has_field(fields, orders[0].field_id@) {
            seq![fields[field_index(fields, orders[0].field_id@)]]
        } else {
            Seq::<FieldMetaView>::empty()
        }),
{
    assert(orders.drop_last() =~= Seq::<FieldOrder>::empty());
    assert(fields_for_orders(fields, orders.drop_last()) == Seq::<FieldMetaView>::empty());
    assert(orders.last() == orders[0]);
    if has_field(fields, orders[0].field_id@) {
        assert(Seq::<FieldMetaView>::empty().push(fields[field_index(fields, orders[0].field_id@)]) =~= seq![
            fields[field_index(fields, orders[0].field_id@)],
        ]);
    }
}

// ---------------------------------------------------------------------------
// Executable helpers

/// Whether some field has the id.
pub fn field_exists(fields: &Vec<FieldMeta>, field_id: &String) -> (res: bool)
    ensures
        res == has_field(field_views(fields@), field_id@),
{
    let mut i: usize = 0;
    while i < fields.len()
        invariant
            i <= fields@.len(),
            forall|k: int| 0 <= k < i ==> #[trigger] fields@[k].id@ != field_id@,
        decreases fields.len() - i,
    {
        if fields[i].id == *field_id {
            assert(field_views(fields@)[i as int].id == field_id@);
            return true;
        }
        i = i + 1;
    }
    proof {
        let fv = field_views(fields@);
        assert forall|k: int| 0 <= k < fv.len() implies #[trigger] fv[k].id != field_id@ by {
            assert(fv[k].id == fields@[k].id@);
        }
    }
    false
}

/// The rows as a client sees them: each with its cells of the fields.
pub fn make_rows_from_row_metas(fields: &Vec<FieldMeta>, row_metas: &Vec<RowMeta>) -> (rows: Vec<Row>)
    ensures
        rows@.len() == row_metas@.len(),
        forall|k: int|
            0 <= k < rows@.len() ==> #[trigger] rows@[k]@ == row_view_for(field_views(fields@), row_metas@[k]@),
{
    let ghost fv = field_views(fields@);
    let mut rows: Vec<Row> = Vec::new();
    let mut r: usize = 0;
    while r < row_metas.len()
        invariant
            fv == field_views(fields@),
            r <= row_metas@.len(),
            rows@.len() == r,
            forall|k: int| 0 <= k < r ==> #[trigger] rows@[k]@ == row_view_for(fv, row_metas@[k]@),
        decreases row_metas.len() - r,
    {
        let meta = &row_metas[r];
        let ghost cells = meta.cell_by_field_id@;
        let mut out: Vec<Cell> = Vec::new();
        let mut i: usize = 0;
        while i < meta.cell_by_field_id.len()
            invariant
                fv == field_views(fields@),
                cells == meta.cell_by_field_id@,
                i <= cells.len(),
                out@ == cells_for_fields(fv, cells.take(i as int)),
            decreases meta.cell_by_field_id.len() - i,
        {
            assert(cells.take(i as int + 1).drop_last() =~= cells.take(i as int));
            let c = &meta.cell_by_field_id[i];
            if field_exists(fields, &c.field_id) {
                out.push(Cell { field_id: c.field_id.clone(), content: c.data.clone() });
            }
            i = i + 1;
        }
        assert(cells.take(cells.len() as int) =~= cells);
        rows.push(Row { id: meta.id.clone(), cell_by_field_id: out, height: meta.height });
        r = r + 1;
    }
    rows
}

/// The cell of the field; where several cells name it, the last counts.
pub fn find_cell(cells: &Vec<CellMeta>, field_id: &String) -> (res: Option<CellMeta>)
    ensures
        res == cell_for_field(cells@, field_id@),
{
    let mut i: usize = cells.len();
    assert(cells@.take(i as int) =~= cells@);
    while i > 0
        invariant
            i <= cells@.len(),
            cell_for_field(cells@, field_id@) == cell_for_field(cells@.take(i as int), field_id@),
        decreases i,
    {
        let ghost t = cells@.take(i as int);
        assert(t.drop_last() =~= cells@.take(i as int - 1));
        assert(t.last() == cells@[i as int - 1]);
        if cells[i - 1].field_id == *field_id {
            return Some(cells[i - 1].clone());
        }
        i = i - 1;
    }
    None
}

/// A block with the order of its rows, from a snapshot of its rows.
pub fn make_grid_block(snapshot: &GridBlockSnapshot) -> (block: GridBlock)
    ensures
        lists_rows(block, snapshot.block_id@, row_views(snapshot.row_metas@)),
{
    let ghost rows = row_views(snapshot.row_metas@);
    let mut row_orders: Vec<RowOrder> = Vec::new();
    let mut j: usize = 0;
    while j < snapshot.row_metas.len()
        invariant
            rows == row_views(snapshot.row_metas@),
            j <= rows.len(),
            row_orders@.len() == j,
            forall|m: int| 0 <= m < j ==> orders(#[trigger] row_orders@[m], rows[m]),
        decreases snapshot.row_metas.len() - j,
    {
        row_orders.push(RowOrder::from_row_meta(&snapshot.row_metas[j]));
        j = j + 1;
    }
    GridBlock { id: snapshot.block_id.clone(), row_orders }
}

/// The distinct blocks of row orders, in the order of their first
/// appearance.
pub fn group_row_orders(row_orders: &Vec<RowOrder>) -> (blocks: Vec<String>)
    ensures
        blocks@ == order_blocks(row_orders@),
{
    let mut blocks: Vec<String> = Vec::new();
    let mut i: usize = 0;
    while i < row_orders.len()
        invariant
            i <= row_orders@.len(),
            blocks@ == order_blocks(row_orders@.take(i as int)),
        decreases row_orders.len() - i,
    {
        let ghost t = row_orders@.take(i as int + 1);
        assert(t.drop_last() =~= row_orders@.take(i as int));
        assert(t.last() == row_orders@[i as int]);
        let id = &row_orders[i].block_id;
        let mut seen = false;
        let mut k: usize = 0;
        while k < blocks.len()
            invariant
                k <= blocks@.len(),
                seen == exists|j: int| 0 <= j < k && #[trigger] blocks@[j]@ == id@,
            decreases blocks.len() - k,
        {
            if blocks[k] == *id {
                seen = true;
            }
            k = k + 1;
        }
        if !seen {
            blocks.push(id.clone());
        }
        i = i + 1;
    }
    assert(row_orders@.take(row_orders@.len() as int) =~= row_orders@);
    blocks
}

/// The ids of the rows that the orders place in the block.
pub fn row_ids_of_block(row_orders: &Vec<RowOrder>, block_id: &String) -> (ids: Vec<String>)
    ensures
        id_views(ids@) == order_row_ids(row_orders@, block_id@),
{
    let mut ids: Vec<String> = Vec::new();
    let mut i: usize = 0;
    while i < row_orders.len()
        invariant
            i <= row_orders@.len(),
            id_views(ids@) == order_row_ids(row_orders@.take(i as int), block_id@),
        decreases row_orders.len() - i,
    {
        let ghost t = row_orders@.take(i as int + 1);
        assert(t.drop_last() =~= row_orders@.take(i as int));
        assert(t.last() == row_orders@[i as int]);
        if row_orders[i].block_id == *block_id {
            let ghost before = ids@;
            ids.push(row_orders[i].row_id.clone());
            assert(id_views(ids@) =~= id_views(before).push(
                row_orders@[i as int].row_id@,
            ));
        }
        i = i + 1;
    }
    assert(row_orders@.take(row_orders@.len() as int) =~= row_orders@);
    ids
}


/// Whether the snapshots are of the blocks, one each and in their order.
pub fn snapshots_match_blocks(snapshots: &Vec<GridBlockSnapshot>, blocks: &Vec<GridBlockMeta>) -> (res: bool)
    ensures
        res == (snapshot_block_ids(snapshots@) == grid_block_ids(blocks@)),
{
    if snapshots.len() != blocks.len() {
        assert(snapshot_block_ids(snapshots@).len() != grid_block_ids(blocks@).len());
        return false;
    }
    let mut i: usize = 0;
    while i < blocks.len()
        invariant
            snapshots@.len() == blocks@.len(),
            i <= blocks@.len(),
            forall|k: int| 0 <= k < i ==> #[trigger] snapshots@[k].block_id@ == blocks@[k].block_id@,
        decreases blocks.len() - i,
    {
        if snapshots[i].block_id != blocks[i].block_id {
            assert(snapshot_block_ids(snapshots@)[i as int] != grid_block_ids(blocks@)[i as int]);
            return false;
        }
        i = i + 1;
    }
    assert(snapshot_block_ids(snapshots@) =~= grid_block_ids(blocks@));
    true
}

/// Snapshots of the blocks, one each and in their order, keep rows only of
/// those blocks, and no two of them are of one block.
pub proof fn lemma_snapshots_of_blocks(snapshots: Seq<GridBlockSnapshot>, blocks: Seq<GridBlockMeta>)
    requires
        snapshot_block_ids(snapshots) == grid_block_ids(blocks),
        crate::grid_meta_pad::block_ids_unique(blocks),
    ensures
        rows_of_grid_blocks(snapshot_views(snapshots), blocks),
        entry_ids_unique(snapshot_views(snapshots)),
{
    let sv = snapshot_views(snapshots);
    assert(snapshot_block_ids(snapshots).len() == snapshots.len());
    assert(grid_block_ids(blocks).len() == blocks.len());
    assert forall|i: int| 0 <= i < sv.len() implies has_block(blocks, #[trigger] sv[i].block_id) by {
        assert(sv[i].block_id == snapshots[i].block_id@);
        assert(snapshot_block_ids(snapshots)[i] == grid_block_ids(blocks)[i]);
        assert(blocks[i].block_id@ == sv[i].block_id);
    }
    assert forall|i: int, j: int|
        0 <= i < sv.len() && 0 <= j < sv.len() && i != j implies #[trigger] sv[i].block_id
        != #[trigger] sv[j].block_id by {
        assert(sv[i].block_id == snapshots[i].block_id@);
        assert(sv[j].block_id == snapshots[j].block_id@);
        assert(snapshot_block_ids(snapshots)[i] == grid_block_ids(blocks)[i]);
        assert(snapshot_block_ids(snapshots)[j] == grid_block_ids(blocks)[j]);
        assert(blocks[i].block_id@ != blocks[j].block_id@);
    }
}

/// Setting the rows of a block of the grid keeps the rows kept those of
/// blocks of the grid.
pub proof fn lemma_set_rows_of_grid_block(
    v: Seq<BlockRowsView>,
    blocks: Seq<GridBlockMeta>,
    block_id: Seq<char>,
    rows: Seq<RowMetaView>,
)
    requires
        rows_of_grid_blocks(v, blocks),
        has_block(blocks, block_id),
    ensures
        rows_of_grid_blocks(set_rows(v, block_id, rows), blocks),
{
    let w = set_rows(v, block_id, rows);
    assert forall|i: int| 0 <= i < w.len() implies has_block(blocks, #[trigger] w[i].block_id) by {
        if has_entry(v, block_id) {
            if i != entry_index(v, block_id) {
                assert(w[i] == v[i]);
            }
        } else if i < v.len() {
            assert(w[i] == v[i]);
        }
    }
}

/// Deleting rows keeps the rows kept those of blocks of the grid.
pub proof fn lemma_delete_of_grid_blocks(
    v: Seq<BlockRowsView>,
    blocks: Seq<GridBlockMeta>,
    block_id: Seq<char>,
    ids: Seq<Seq<char>>,
)
    requires
        rows_of_grid_blocks(v, blocks),
    ensures
        rows_of_grid_blocks(rows_after_delete(v, block_id, ids), blocks),
{
    if has_entry(v, block_id) {
        let e = entry_index(v, block_id);
        assert(has_block(blocks, v[e].block_id));
        lemma_set_rows_of_grid_block(v, blocks, block_id, rows_without(rows_in(v, block_id), ids));
    }
}

/// Updating a row keeps the rows kept those of blocks of the grid.
pub proof fn lemma_row_update_of_grid_blocks(
    v: Seq<BlockRowsView>,
    blocks: Seq<GridBlockMeta>,
    row_id: Seq<char>,
    height: Option<i32>,
    visibility: Option<bool>,
    cells: Seq<CellMeta>,
)
    requires
        rows_of_grid_blocks(v, blocks),
    ensures
        rows_of_grid_blocks(rows_after_row_update(v, row_id, height, visibility, cells), blocks),
{
    let w = rows_after_row_update(v, row_id, height, visibility, cells);
    assert forall|i: int| 0 <= i < w.len() implies has_block(blocks, #[trigger] w[i].block_id) by {
        assert(w[i].block_id == v[i].block_id);
    }
}

/// Rows kept only for blocks of the grid stay so where every block of the
/// grid stays one.
pub proof fn lemma_blocks_kept(v: Seq<BlockRowsView>, b0: Seq<GridBlockMeta>, b1: Seq<GridBlockMeta>)
    requires
        rows_of_grid_blocks(v, b0),
        forall|id: Seq<char>| #[trigger] has_block(b0, id) ==> has_block(b1, id),
    ensures
        rows_of_grid_blocks(v, b1),
{
    assert forall|i: int| 0 <= i < v.len() implies has_block(b1, #[trigger] v[i].block_id) by {
        assert(has_block(b0, v[i].block_id));
    }
}

// ---------------------------------------------------------------------------
// The editor

/// Edits one grid.
pub struct ClientGridEditor {
    grid_id: String,
    user_id: String,
    pad: GridMetaPad,
    rev_manager: RevisionManager,
    block_meta_manager: GridBlockMetaEditorManager,
    notifications: Vec<GridNotification>,
}

impl View for ClientGridEditor {
    type V = GridEditorView;

    closed spec fn view(&self) -> GridEditorView {
        GridEditorView {
            grid_id: self.grid_id@,
            grid_meta_id: self.pad.grid_id_view(),
            user_id: self.user_id@,
            fields: self.pad.fields_view(),
            blocks: self.pad.blocks_view(),
            rows: self.block_meta_manager.blocks_view(),
            rev_id: self.rev_manager.rev_id_view(),
            revisions: revision_views(self.rev_manager.revisions_view()),
            notifications: notification_views(self.notifications@),
        }
    }
}

/// Each revision goes from the id of the one before it to the next id, and
/// the latest revision id is that of the last revision.
pub open spec fn revisions_chained(revs: Seq<RevisionView>, rev_id: i64) -> bool {
    &&& forall|i: int| 0 < i < revs.len() ==> #[trigger] revs[i].base_rev_id == revs[i - 1].rev_id
    &&& forall|i: int| 0 <= i < revs.len() ==> #[trigger] revs[i].rev_id == revs[i].base_rev_id.wrapping_add(1)
    &&& revs.len() > 0 ==> revs.last().rev_id == rev_id
}

/// The ids of the blocks that the snapshots are of, in their order.
pub open spec fn snapshot_block_ids(snapshots: Seq<GridBlockSnapshot>) -> Seq<Seq<char>> {
    snapshots.map_values(|s: GridBlockSnapshot| s.block_id@)
}

/// The ids of the blocks, in their order.
pub open spec fn grid_block_ids(blocks: Seq<GridBlockMeta>) -> Seq<Seq<char>> {
    blocks.map_values(|b: GridBlockMeta| b.block_id@)
}

/// Whether every block whose rows are kept is a block of the grid.
pub open spec fn rows_of_grid_blocks(rows: Seq<BlockRowsView>, blocks: Seq<GridBlockMeta>) -> bool {
    forall|i: int| 0 <= i < rows.len() ==> has_block(blocks, #[trigger] rows[i].block_id)
}

/// What holds of every editor: no two fields, no two blocks and no two rows
/// share an id, no row has two cells of one field, every block whose rows
/// are kept is a block of the grid, and the revisions form a chain that ends
/// at the latest revision id.
pub open spec fn view_wf(s: GridEditorView) -> bool {
    &&& crate::grid_meta_pad::field_ids_unique(s.fields)
    &&& crate::grid_meta_pad::block_ids_unique(s.blocks)
    &&& crate::block_meta_manager::entry_ids_unique(s.rows)
    &&& crate::block_meta_manager::row_ids_unique(s.rows)
    &&& crate::block_meta_manager::row_cells_unique(s.rows)
    &&& rows_of_grid_blocks(s.rows, s.blocks)
    &&& revisions_chained(s.revisions, s.rev_id)
}

impl ClientGridEditor {
    /// The editor's parts agree: its revisions are the grid's, no two
    /// fields, blocks or rows share an id, no row has two cells of one
    /// field, and the rows kept are those of blocks of the grid.
    pub closed spec fn wf(&self) -> bool {
        &&& self.pad.wf()
        &&& self.block_meta_manager.wf()
        &&& crate::block_meta_manager::row_cells_unique(self.block_meta_manager.blocks_view())
        &&& rows_of_grid_blocks(self.block_meta_manager.blocks_view(), self.pad.blocks_view())
        &&& self.rev_manager.object_id_view() == self.grid_id@
        &&& revisions_chained(self@.revisions, self@.rev_id)
    }

    /// What holds of every editor holds of this one.
    pub proof fn lemma_wf(&self)
        requires
            self.wf(),
        ensures
            view_wf(self@),
    {
    }

    /// An editor of the grid with the given metadata, for the user, whose
    /// latest revision has the given id, holding the rows that the snapshots
    /// give for the grid's blocks. An error where the snapshots are not of
    /// the grid's blocks, one each and in their order, where two rows of the
    /// snapshots share an id, or where a row has two cells of one field.
    pub fn new(
        grid_id: &str,
        user_id: String,
        pad: GridMetaPad,
        rev_id: i64,
        block_rows: Vec<GridBlockSnapshot>,
    ) -> (res: Result<ClientGridEditor, FlowyError>)
        requires
            pad.wf(),
        ensures
            match res {
                Ok(editor) => {
                    &&& editor.wf()
                    &&& snapshot_block_ids(block_rows@) == grid_block_ids(pad.blocks_view())
                    &&& row_ids_unique(snapshot_views(block_rows@))
                    &&& row_cells_unique(snapshot_views(block_rows@))
                    &&& editor@.grid_id == grid_id@
                    &&& editor@.grid_meta_id == pad.grid_id_view()
                    &&& editor@.user_id == user_id@
                    &&& editor@.fields == pad.fields_view()
                    &&& editor@.blocks == pad.blocks_view()
                    &&& editor@.rows == snapshot_views(block_rows@)
                    &&& editor@.rev_id == rev_id
                    &&& editor@.revisions == Seq::<RevisionView>::empty()
                    &&& editor@.notifications == Seq::<NotificationView>::empty()
                },
                Err(e) => {
                    &&& e.code == ErrorCode::Internal
                    &&& !(snapshot_block_ids(block_rows@) == grid_block_ids(pad.blocks_view()) && row_ids_unique(
                        snapshot_views(block_rows@),
                    ) && row_cells_unique(snapshot_views(block_rows@)))
                },
            },
    {
        let blocks = pad.get_block_metas();
        if !snapshots_match_blocks(&block_rows, &blocks) {
            return Err(FlowyError::internal(String::from_str("The block snapshots are not those of the grid's blocks")));
        }
        if !snapshots_cells_unique(&block_rows) {
            return Err(FlowyError::internal(String::from_str("A row of the snapshots has two cells of one field")));
        }
        proof {
            lemma_snapshots_of_blocks(block_rows@, pad.blocks_view());
        }
        let ghost sv = snapshot_views(block_rows@);
        let block_meta_manager = match GridBlockMetaEditorManager::from_snapshots(block_rows) {
            Ok(m) => m,
            Err(e) => return Err(e),
        };
        let grid_id = grid_id.to_owned();
        let editor = ClientGridEditor {
            grid_id: grid_id.clone(),
            user_id,
            pad,
            rev_manager: RevisionManager::new(grid_id, rev_id),
            block_meta_manager,
            notifications: Vec::new(),
        };
        assert(revision_views(editor.rev_manager.revisions_view()) =~= Seq::<RevisionView>::empty());
        assert(notification_views(editor.notifications@) =~= Seq::<NotificationView>::empty());
        Ok(editor)
    }

    /// Records a local revision of a change of the grid's document, with the
    /// change's delta and md5.
    fn apply_change(&mut self, change: GridChangeset)
        requires
            old(self).wf(),
        ensures
            final(self).wf(),
            final(self)@ == record_change(old(self)@, true, change@),
    {
        let ghost revs = self.rev_manager.revisions_view();
        let ghost cv = change@;
        let GridChangeset { delta, md5 } = change;
        let (base_rev_id, rev_id) = self.rev_manager.next_rev_id_pair();
        let object_id = self.rev_manager.object_id().clone();
        let revision = Revision::new(&object_id, base_rev_id, rev_id, delta, &self.user_id, md5);
        self.rev_manager.add_local_revision(revision);
        proof {
            assert(revision_views(revs.push(revision)) =~= revision_views(revs).push(
                RevisionView {
                    object_id: self.grid_id@,
                    base_rev_id,
                    rev_id,
                    delta: cv.delta,
                    user_id: self.user_id@,
                    md5: cv.md5,
                },
            ));
        }
    }

    /// Records a revision where an edit changed the grid's document: the
    /// change that `encode` gives for the document `before` the edit and the
    /// document now.
    fn record_edit<E: Fn(&GridMeta, &GridMeta) -> GridChangeset>(
        &mut self,
        changed: bool,
        before: GridMeta,
        encode: &E,
    ) -> (change: Ghost<GridChangesetView>)
        requires
            old(self).wf(),
            forall|a: &GridMeta, b: &GridMeta| #[trigger] encode.requires((a, b)),
        ensures
            final(self).wf(),
            final(self)@ == record_change(old(self)@, changed, change@),
            changed ==> encoded_by(*encode, before@, grid_of(old(self)@), change@),
    {
        if changed {
            let after = self.pad.snapshot();
            let c = encode(&before, &after);
            let ghost cv = c@;
            assert(encoded_by(*encode, before@, grid_of(self@), cv));
            self.apply_change(c);
            Ghost(cv)
        } else {
            Ghost(GridChangesetView { delta: Seq::empty(), md5: Seq::empty() })
        }
    }

    /// Owes the client a notification.
    fn push_notification(&mut self, notification: GridNotification)
        ensures
            final(self)@ == (GridEditorView {
                notifications: old(self)@.notifications.push(notification@),
                ..old(self)@
            }),
            final(self).wf() == old(self).wf(),
    {
        let ghost ns = self.notifications@;
        self.notifications.push(notification);
        assert(notification_views(ns.push(notification)) =~= notification_views(ns).push(notification@));
    }

    /// Tells the client all fields.
    fn notify_did_update_fields(&mut self)
        requires
            old(self).wf(),
        ensures
            final(self).wf(),
            final(self)@ == notify_fields(old(self)@),
    {
        let field_metas = self.pad.get_field_metas(None);
        let ghost fv = self.pad.fields_view();
        let mut fields: Vec<Field> = Vec::new();
        let mut i: usize = 0;
        let ghost metas = field_metas@;
        while i < field_metas.len()
            invariant
                metas == field_metas@,
                field_views(metas) == fv,
                i <= metas.len(),
                field_list_views(fields@) == fv.take(i as int).map_values(|f: FieldMetaView| field_view_of(f)),
            decreases field_metas.len() - i,
        {
            let meta = field_metas[i].clone();
            let ghost before = fields@;
            let field = Field::from_field_meta(meta);
            fields.push(field);
            proof {
                assert(fv[i as int] == metas[i as int]@);
                assert(field_list_views(fields@) =~= field_list_views(before).push(field@));
                assert(fv.take(i as int + 1).map_values(|f: FieldMetaView| field_view_of(f)) =~= fv.take(
                    i as int,
                ).map_values(|f: FieldMetaView| field_view_of(f)).push(field_view_of(fv[i as int])));
            }
            i = i + 1;
        }
        assert(fv.take(metas.len() as int) =~= fv);
        self.push_notification(GridNotification::DidUpdateFields(fields));
    }
    /// Tells the client the field with the id, where the grid has it.
    fn notify_did_update_field(&mut self, field_id: &String)
        requires
            old(self).wf(),
        ensures
            final(self).wf(),
            final(self)@ == notify_field(old(self)@, field_id@),
    {
        let mut orders: Vec<FieldOrder> = Vec::new();
        orders.push(FieldOrder { field_id: field_id.clone() });
        let ghost ov = orders@;
        let ghost fv = self.pad.fields_view();
        let mut field_metas = self.pad.get_field_metas(Some(orders));
        proof {
            lemma_single_order(fv, ov);
        }
        let ghost found = field_metas@;
        match field_metas.pop() {
            Some(field_meta) => {
                proof {
                    assert(found.len() > 0);
                    assert(field_views(found).len() == found.len());
                    assert(has_field(fv, field_id@));
                    assert(field_meta@ == field_views(found)[0]);
                }
                self.push_notification(GridNotification::DidUpdateField(field_meta));
            },
            None => {
                proof {
                    assert(field_views(found).len() == 0);
                }
            },
        }
    }

    /// Creates a field, placed before the field `start_field_id` where the
    /// grid has it; where the grid has a field with the same id, that field
    /// takes every property of the new one. Its type option is what `decode`
    /// gives for the encoded type option and the field's type. Records a
    /// revision with the change that `encode` gives for the grid's document
    /// before and after, and tells the client all fields.
    pub fn create_field<D: Fn(Vec<u8>, &FieldType) -> String, E: Fn(&GridMeta, &GridMeta) -> GridChangeset>(
        &mut self,
        params: CreateFieldParams,
        decode: &D,
        encode: &E,
    ) -> (res: Result<(), FlowyError>)
        requires
            old(self).wf(),
            forall|d: Vec<u8>, t: &FieldType| #[trigger] decode.requires((d, t)),
            forall|a: &GridMeta, b: &GridMeta| #[trigger] encode.requires((a, b)),
        ensures
            final(self).wf(),
            res.is_ok(),
            exists|type_option: String, change: GridChangesetView|
                {
                    &&& decoded_by(*decode, params.type_option_data, params.field.field_type, type_option)
                    &&& final(self)@ == after_create_field(old(self)@, params, type_option, change)
                    &&& encoded_by(*encode, grid_of(old(self)@), grid_of(final(self)@), change)
                },
    {
        let ghost p = params;
        let ghost s0 = self@;
        let CreateFieldParams { grid_id, field, type_option_data, start_field_id } = params;
        let type_option = decode(type_option_data, &field.field_type);
        let ghost json = type_option;
        let before = self.pad.snapshot();
        let changed = if self.pad.contain_field(field.id.as_str()) {
            let changeset = FieldChangesetParams {
                field_id: field.id,
                grid_id,
                name: Some(field.name),
                desc: Some(field.desc),
                field_type: Some(field.field_type),
                frozen: Some(field.frozen),
                visibility: Some(field.visibility),
                width: Some(field.width),
                type_option_data: None,
            };
            proof {
                let i = field_index(s0.fields, p.field.id@);
                assert(apply_field_changeset(s0.fields[i], changeset, Some(json)) == apply_field_changeset(
                    s0.fields[i],
                    create_changeset(p),
                    Some(json),
                ));
            }
            self.pad.update_field(changeset, Some(type_option))
        } else {
            let field_type = field.field_type;
            let mut type_options: Vec<TypeOptionEntry> = Vec::new();
            type_options.push(TypeOptionEntry { field_type, data: type_option });
            let field_meta = FieldMeta {
                id: field.id,
                name: field.name,
                desc: field.desc,
                field_type,
                frozen: field.frozen,
                visibility: field.visibility,
                width: field.width,
                type_options,
            };
            assert(field_meta@.type_options =~= seq![TypeOptionEntry { field_type, data: json }]);
            self.pad.create_field(field_meta, start_field_id)
        };
        let ghost s1 = self@;
        let change = self.record_edit(changed, before, encode);
        self.notify_did_update_fields();
        assert(grid_of(self@) == grid_of(s1));
        assert(decoded_by(*decode, p.type_option_data, p.field.field_type, json));
        assert(self@ == after_create_field(s0, p, json, change@));
        assert(encoded_by(*encode, grid_of(s0), grid_of(self@), change@));
        Ok(())
    }

    /// A new field of the given type, named after the number of fields
    /// ("Property 3" where the grid has two), with the given id and the given
    /// type option as that of its type. The grid does not change.
    pub fn create_next_field_meta(&self, field_type: FieldType, field_id: String, default_type_option: String) -> (res:
        Result<FieldMeta, FlowyError>)
        requires
            self.wf(),
            self@.fields.len() < usize::MAX,
        ensures
            res matches Ok(meta) && meta@ == (FieldMetaView {
                id: field_id@,
                name: "Property "@ + decimal((self@.fields.len() + 1) as nat),
                desc: Seq::empty(),
                field_type,
                frozen: false,
                visibility: true,
                width: spec_default_cell_width(field_type),
                type_options: seq![TypeOptionEntry { field_type, data: default_type_option }],
            }),
    {
        let count = self.pad.fields().len();
        let number = decimal_string(count + 1);
        let name = String::from_str("Property ").concat(number.as_str());
        let mut type_options: Vec<TypeOptionEntry> = Vec::new();
        type_options.push(TypeOptionEntry { field_type, data: default_type_option });
        let meta = FieldMeta {
            id: field_id,
            name,
            desc: String::new(),
            field_type,
            frozen: false,
            visibility: true,
            width: field_type.default_cell_width(),
            type_options,
        };
        assert(meta@.type_options =~= seq![TypeOptionEntry { field_type, data: default_type_option }]);
        Ok(meta)
    }

    /// Whether the grid has a field with the id.
    pub fn contain_field(&self, field_id: &str) -> (res: bool)
        requires
            self.wf(),
        ensures
            res == has_field(self@.fields, field_id@),
    {
        self.pad.contain_field(field_id)
    }

    /// Applies a changeset to the field that it names; an error where the
    /// grid has no such field. A given type option is what `decode` gives for
    /// it and the field's type before the change. Records a revision, with the
    /// change that `encode` gives, where the changeset changes something, then
    /// tells the client all fields and the field.
    pub fn update_field<D: Fn(Vec<u8>, &FieldType) -> String, E: Fn(&GridMeta, &GridMeta) -> GridChangeset>(
        &mut self,
        params: FieldChangesetParams,
        decode: &D,
        encode: &E,
    ) -> (res: Result<(), FlowyError>)
        requires
            old(self).wf(),
            forall|d: Vec<u8>, t: &FieldType| #[trigger] decode.requires((d, t)),
            forall|a: &GridMeta, b: &GridMeta| #[trigger] encode.requires((a, b)),
        ensures
            final(self).wf(),
            match res {
                Ok(()) => {
                    &&& has_field(old(self)@.fields, params.field_id@)
                    &&& exists|type_option: Option<String>, change: GridChangesetView|
                        {
                            &&& match params.type_option_data {
                                Some(data) => type_option is Some && decoded_by(
                                    *decode,
                                    data,
                                    old(self)@.fields[field_index(old(self)@.fields, params.field_id@)].field_type,
                                    type_option->0,
                                ),
                                None => type_option is None,
                            }
                            &&& final(self)@ == after_update_field(old(self)@, params, type_option, change)
                            &&& changeset_changes(params, type_option) ==> encoded_by(
                                *encode,
                                grid_of(old(self)@),
                                grid_of(final(self)@),
                                change,
                            )
                        }
                },
                Err(e) => !has_field(old(self)@.fields, params.field_id@) && e.code
                    == ErrorCode::FieldDoesNotExist && final(self)@ == old(self)@,
            },
    {
        let ghost p = params;
        let ghost s0 = self@;
        let field_id = params.field_id.clone();
        let field_type = match self.pad.get_field(field_id.as_str()) {
            None => return Err(FlowyError::from_code(ErrorCode::FieldDoesNotExist)),
            Some(field_meta) => field_meta.field_type,
        };
        let mut params = params;
        let mut data: Option<Vec<u8>> = None;
        std::mem::swap(&mut data, &mut params.type_option_data);
        let type_option = match data {
            Some(d) => Some(decode(d, &field_type)),
            None => None,
        };
        let ghost json = type_option;
        proof {
            let i = field_index(s0.fields, p.field_id@);
            assert(apply_field_changeset(s0.fields[i], params, json) == apply_field_changeset(
                s0.fields[i],
                p,
                json,
            ));
        }
        let before = self.pad.snapshot();
        let changed = self.pad.update_field(params, type_option);
        let ghost s1 = self@;
        let change = self.record_edit(changed, before, encode);
        self.notify_did_update_fields();
        self.notify_did_update_field(&field_id);
        assert(grid_of(self@) == grid_of(s1));
        assert(self@ == after_update_field(s0, p, json, change@));
        Ok(())
    }

    /// Deletes the field with the id. Records a revision, with the change that
    /// `encode` gives, where the grid had it, then tells the client all
    /// fields.
    pub fn delete_field<E: Fn(&GridMeta, &GridMeta) -> GridChangeset>(&mut self, field_id: &str, encode: &E) -> (res:
        Result<(), FlowyError>)
        requires
            old(self).wf(),
            forall|a: &GridMeta, b: &GridMeta| #[trigger] encode.requires((a, b)),
        ensures
            final(self).wf(),
            res.is_ok(),
            exists|change: GridChangesetView|
                {
                    &&& final(self)@ == after_delete_field(old(self)@, field_id@, change)
                    &&& has_field(old(self)@.fields, field_id@) ==> encoded_by(
                        *encode,
                        grid_of(old(self)@),
                        grid_of(final(self)@),
                        change,
                    )
                },
    {
        let ghost s0 = self@;
        let before = self.pad.snapshot();
        let changed = self.pad.delete_field(field_id);
        let ghost s1 = self@;
        let change = self.record_edit(changed, before, encode);
        self.notify_did_update_fields();
        assert(grid_of(self@) == grid_of(s1));
        assert(self@ == after_delete_field(s0, field_id@, change@));
        Ok(())
    }

    /// Switches the field with the id to another field type, giving it the
    /// default type option of that type where it has none. Records a revision,
    /// with the change that `encode` gives, where the grid has the field, then
    /// tells the client all fields and the field.
    pub fn switch_to_field_type<E: Fn(&GridMeta, &GridMeta) -> GridChangeset>(
        &mut self,
        field_id: &str,
        field_type: &FieldType,
        default_type_option: String,
        encode: &E,
    ) -> (res: Result<(), FlowyError>)
        requires
            old(self).wf(),
            forall|a: &GridMeta, b: &GridMeta| #[trigger] encode.requires((a, b)),
        ensures
            final(self).wf(),
            res.is_ok(),
            exists|change: GridChangesetView|
                {
                    &&& final(self)@ == after_switch_field(
                        old(self)@,
                        field_id@,
                        *field_type,
                        default_type_option,
                        change,
                    )
                    &&& has_field(old(self)@.fields, field_id@) ==> encoded_by(
                        *encode,
                        grid_of(old(self)@),
                        grid_of(final(self)@),
                        change,
                    )
                },
    {
        let ghost s0 = self@;
        let before = self.pad.snapshot();
        let changed = self.pad.switch_to_field(field_id, *field_type, default_type_option);
        let ghost s1 = self@;
        let change = self.record_edit(changed, before, encode);
        self.notify_did_update_fields();
        let id = field_id.to_owned();
        self.notify_did_update_field(&id);
        assert(grid_of(self@) == grid_of(s1));
        assert(self@ == after_switch_field(s0, field_id@, *field_type, default_type_option, change@));
        Ok(())
    }

    /// Places a copy of the field with the id right after it, under the id
    /// `new_field_id` and with " (copy)" after its name; nothing changes where
    /// the grid lacks the field or has a field with the new id. Records a
    /// revision, with the change that `encode` gives, where the grid changed,
    /// then tells the client all fields.
    pub fn duplicate_field<E: Fn(&GridMeta, &GridMeta) -> GridChangeset>(
        &mut self,
        field_id: &str,
        new_field_id: String,
        encode: &E,
    ) -> (res: Result<(), FlowyError>)
        requires
            old(self).wf(),
            forall|a: &GridMeta, b: &GridMeta| #[trigger] encode.requires((a, b)),
        ensures
            final(self).wf(),
            res.is_ok(),
            exists|change: GridChangesetView|
                {
                    &&& final(self)@ == after_duplicate_field(old(self)@, field_id@, new_field_id@, change)
                    &&& (has_field(old(self)@.fields, field_id@) && !has_field(old(self)@.fields, new_field_id@))
                        ==> encoded_by(*encode, grid_of(old(self)@), grid_of(final(self)@), change)
                },
    {
        let ghost s0 = self@;
        let ghost nid = new_field_id@;
        let before = self.pad.snapshot();
        let changed = self.pad.duplicate_field(field_id, new_field_id);
        let ghost s1 = self@;
        let change = self.record_edit(changed, before, encode);
        self.notify_did_update_fields();
        assert(grid_of(self@) == grid_of(s1));
        assert(self@ == after_duplicate_field(s0, field_id@, nid, change@));
        Ok(())
    }

    /// The field with the id, where the grid has it.
    pub fn get_field(&self, field_id: &str) -> (res: Result<Option<FieldMeta>, FlowyError>)
        requires
            self.wf(),
        ensures
            match res {
                Ok(Some(meta)) => has_field(self@.fields, field_id@) && meta@ == self@.fields[field_index(
                    self@.fields,
                    field_id@,
                )],
                Ok(None) => !has_field(self@.fields, field_id@),
                Err(_) => false,
            },
    {
        match self.pad.get_field(field_id) {
            None => Ok(None),
            Some(field_meta) => Ok(Some(field_meta.clone())),
        }
    }

    /// Adds a block at the end; nothing changes where the grid has a block
    /// with its id. Records a revision, with the change that `encode` gives,
    /// where the grid changed.
    pub fn create_block<E: Fn(&GridMeta, &GridMeta) -> GridChangeset>(&mut self, grid_block: GridBlockMeta, encode: &E) -> (res:
        Result<(), FlowyError>)
        requires
            old(self).wf(),
            forall|a: &GridMeta, b: &GridMeta| #[trigger] encode.requires((a, b)),
        ensures
            final(self).wf(),
            res.is_ok(),
            exists|change: GridChangesetView|
                {
                    &&& final(self)@ == after_create_block(old(self)@, grid_block, change)
                    &&& !has_block(old(self)@.blocks, grid_block.block_id@) ==> encoded_by(
                        *encode,
                        grid_of(old(self)@),
                        grid_of(final(self)@),
                        change,
                    )
                },
    {
        let ghost s0 = self@;
        let ghost g = grid_block;
        let before = self.pad.snapshot();
        let changed = self.pad.create_block_meta(grid_block);
        proof {
            let b0 = s0.blocks;
            let b1 = self.pad.blocks_view();
            assert forall|id: Seq<char>| #[trigger] has_block(b0, id) implies has_block(b1, id) by {
                let k = choose|k: int| 0 <= k < b0.len() && #[trigger] b0[k].block_id@ == id;
                assert(b1[k] == b0[k]);
            }
            lemma_blocks_kept(s0.rows, b0, b1);
        }
        let change = self.record_edit(changed, before, encode);
        assert(self@ == after_create_block(s0, g, change@));
        Ok(())
    }

    /// Applies a changeset to the block that it names, and records a
    /// revision where the grid changed; returns the change recorded.
    fn update_block_with<E: Fn(&GridMeta, &GridMeta) -> GridChangeset>(
        &mut self,
        changeset: GridBlockMetaChangeset,
        encode: &E,
    ) -> (change: Ghost<GridChangesetView>)
        requires
            old(self).wf(),
            forall|a: &GridMeta, b: &GridMeta| #[trigger] encode.requires((a, b)),
        ensures
            final(self).wf(),
            final(self)@ == after_update_block(old(self)@, changeset, change@),
            (has_block(old(self)@.blocks, changeset.block_id@) && block_changeset_changes(changeset)) ==> encoded_by(
                *encode,
                grid_of(old(self)@),
                grid_of(final(self)@),
                change@,
            ),
    {
        let ghost s0 = self@;
        let before = self.pad.snapshot();
        let changed = self.pad.update_block_meta(changeset);
        proof {
            let b0 = s0.blocks;
            let b1 = self.pad.blocks_view();
            assert forall|id: Seq<char>| #[trigger] has_block(b0, id) implies has_block(b1, id) by {
                let k = choose|k: int| 0 <= k < b0.len() && #[trigger] b0[k].block_id@ == id;
                assert(b1[k].block_id == b0[k].block_id);
            }
            lemma_blocks_kept(s0.rows, b0, b1);
        }
        self.record_edit(changed, before, encode)
    }

    /// Applies a changeset to the block that it names. Records a revision,
    /// with the change that `encode` gives, where the grid changed.
    pub fn update_block<E: Fn(&GridMeta, &GridMeta) -> GridChangeset>(
        &mut self,
        changeset: GridBlockMetaChangeset,
        encode: &E,
    ) -> (res: Result<(), FlowyError>)
        requires
            old(self).wf(),
            forall|a: &GridMeta, b: &GridMeta| #[trigger] encode.requires((a, b)),
        ensures
            final(self).wf(),
            res.is_ok(),
            exists|change: GridChangesetView|
                {
                    &&& final(self)@ == after_update_block(old(self)@, changeset, change)
                    &&& (has_block(old(self)@.blocks, changeset.block_id@) && block_changeset_changes(changeset))
                        ==> encoded_by(*encode, grid_of(old(self)@), grid_of(final(self)@), change)
                },
    {
        let ghost cs = changeset;
        let ghost s0 = self@;
        let change = self.update_block_with(changeset, encode);
        assert(self@ == after_update_block(s0, cs, change@));
        Ok(())
    }

    /// The block that new rows go to: the last one; an error where the grid
    /// has no block.
    fn block_id(&self) -> (res: Result<String, FlowyError>)
        requires
            self.wf(),
        ensures
            match res {
                Ok(id) => self@.blocks.len() > 0 && id == current_block_id(self@),
                Err(e) => self@.blocks.len() == 0 && e.code == ErrorCode::Internal && e.msg@ == no_block_message(),
            },
    {
        let blocks = self.pad.get_block_metas();
        if blocks.len() == 0 {
            Err(FlowyError::internal(String::from_str("There is no grid block in this grid")))
        } else {
            Ok(blocks[blocks.len() - 1].block_id.clone())
        }
    }

    /// Whether the payloads' row ids are new and differ from each other.
    fn payload_ids_are_fresh(&self, contexts: &Vec<CreateRowMetaPayload>) -> (res: bool)
        requires
            self.wf(),
        ensures
            res == payload_ids_fresh(self@, contexts@),
    {
        let mut i: usize = 0;
        while i < contexts.len()
            invariant
                self.wf(),
                i <= contexts@.len(),
                forall|k: int| 0 <= k < i ==> !has_row(self@.rows, #[trigger] contexts@[k].row_id@),
                forall|a: int, b: int|
                    0 <= a < i && 0 <= b < contexts@.len() && a != b ==> #[trigger] contexts@[a].row_id@
                        != #[trigger] contexts@[b].row_id@,
            decreases contexts.len() - i,
        {
            if self.block_meta_manager.contains_row(&contexts[i].row_id) {
                return false;
            }
            let mut j: usize = 0;
            while j < contexts.len()
                invariant
                    i < contexts@.len(),
                    j <= contexts@.len(),
                    forall|a: int, b: int|
                        0 <= a < i && 0 <= b < contexts@.len() && a != b ==> #[trigger] contexts@[a].row_id@
                            != #[trigger] contexts@[b].row_id@,
                    forall|b: int| 0 <= b < j && b != i ==> contexts@[i as int].row_id@ != #[trigger] contexts@[b].row_id@,
                decreases contexts.len() - j,
            {
                if i != j && contexts[i].row_id == contexts[j].row_id {
                    return false;
                }
                j = j + 1;
            }
            i = i + 1;
        }
        true
    }

    /// Places a new empty row, with the id `row_id`, in the last block, right
    /// after the row `start_row_id` where that block has it; sets the
    /// block's row count and records a revision. An error where the grid has
    /// no block, or where a row has the id.
    pub fn create_row<E: Fn(&GridMeta, &GridMeta) -> GridChangeset>(
        &mut self,
        start_row_id: Option<String>,
        row_id: String,
        encode: &E,
    ) -> (res: Result<RowOrder, FlowyError>)
        requires
            old(self).wf(),
            forall|a: &GridMeta, b: &GridMeta| #[trigger] encode.requires((a, b)),
        ensures
            final(self).wf(),
            match res {
                Ok(order) => {
                    &&& old(self)@.blocks.len() > 0
                    &&& !has_row(old(self)@.rows, row_id@)
                    &&& exists|change: GridChangesetView|
                        {
                            &&& final(self)@ == after_create_row(old(self)@, opt_view(start_row_id), row_id@, change)
                            &&& encoded_by(*encode, grid_of(old(self)@), grid_of(final(self)@), change)
                        }
                    &&& orders(order, new_row(row_id@, current_block_id(old(self)@)@))
                },
                Err(e) => {
                    &&& final(self)@ == old(self)@
                    &&& e.code == ErrorCode::Internal
                    &&& (if old(self)@.blocks.len() == 0 {
                        e.msg@ == no_block_message()
                    } else {
                        has_row(old(self)@.rows, row_id@) && e.msg@ == row_exists_message()
                    })
                },
            },
    {
        let block_id = match self.block_id() {
            Ok(id) => id,
            Err(e) => return Err(e),
        };
        if self.block_meta_manager.contains_row(&row_id) {
            return Err(FlowyError::internal(String::from_str("A row with this id already exists")));
        }
        let row_meta = RowMeta {
            id: row_id,
            block_id: block_id.clone(),
            cell_by_field_id: Vec::new(),
            height: DEFAULT_ROW_HEIGHT,
            visibility: true,
        };
        assert(row_meta@ == new_row(row_id@, block_id@));
        let ghost s0 = self@;
        let ghost rid = row_id@;
        let ghost start = opt_view(start_row_id);
        let row_order = RowOrder::from_row_meta(&row_meta);
        proof {
            lemma_set_rows_cells(s0.rows, block_id@, Seq::empty());
            lemma_create_cells(rows_in(s0.rows, block_id@), row_meta@, start);
            lemma_set_rows_cells(s0.rows, block_id@, rows_after_create(rows_in(s0.rows, block_id@), row_meta@, start));
        }
        let row_count = self.block_meta_manager.create_row(&block_id, row_meta, start_row_id);
        let changeset = GridBlockMetaChangeset::from_row_count(&block_id, row_count);
        let ghost mid = self@;
        proof {
            lemma_block_index_unique(self@.blocks, block_id@, self@.blocks.len() - 1);
            assert(changeset == GridBlockMetaChangeset { block_id, start_row_index: None, row_count: Some(row_count) });
            assert(mid == with_rows(s0, mid.rows));
            assert(grid_of(mid) == grid_of(s0));
        }
        let change = self.update_block_with(changeset, encode);
        assert(self@ == after_create_row(s0, start, rid, change@));
        assert(encoded_by(*encode, grid_of(s0), grid_of(self@), change@));
        Ok(row_order)
    }

    /// Adds the rows that the payloads make at the end of the last block, in
    /// their order; sets the block's row count and records a revision where
    /// there are rows. An error where the grid has no block, or where a row
    /// id is taken or given twice.
    pub fn insert_rows<E: Fn(&GridMeta, &GridMeta) -> GridChangeset>(
        &mut self,
        contexts: Vec<CreateRowMetaPayload>,
        encode: &E,
    ) -> (res: Result<Vec<RowOrder>, FlowyError>)
        requires
            old(self).wf(),
            forall|a: &GridMeta, b: &GridMeta| #[trigger] encode.requires((a, b)),
        ensures
            final(self).wf(),
            match res {
                Ok(row_orders) => {
                    &&& old(self)@.blocks.len() > 0
                    &&& payload_ids_fresh(old(self)@, contexts@)
                    &&& exists|change: GridChangesetView|
                        {
                            &&& final(self)@ == after_insert_rows(old(self)@, contexts@, change)
                            &&& contexts@.len() > 0 ==> encoded_by(
                                *encode,
                                grid_of(old(self)@),
                                grid_of(final(self)@),
                                change,
                            )
                        }
                    &&& row_orders@.len() == contexts@.len()
                    &&& forall|k: int|
                        0 <= k < row_orders@.len() ==> orders(
                            #[trigger] row_orders@[k],
                            payload_row(contexts@[k], current_block_id(old(self)@)@),
                        )
                },
                Err(e) => {
                    &&& final(self)@ == old(self)@
                    &&& e.code == ErrorCode::Internal
                    &&& (if old(self)@.blocks.len() == 0 {
                        e.msg@ == no_block_message()
                    } else {
                        !payload_ids_fresh(old(self)@, contexts@) && e.msg@ == row_exists_message()
                    })
                },
            },
    {
        let block_id = match self.block_id() {
            Ok(id) => id,
            Err(e) => return Err(e),
        };
        if !self.payload_ids_are_fresh(&contexts) {
            return Err(FlowyError::internal(String::from_str("A row with this id already exists")));
        }
        let ghost s0 = self@;
        let mut rows: Vec<RowMeta> = Vec::new();
        let mut row_orders: Vec<RowOrder> = Vec::new();
        let mut i: usize = 0;
        while i < contexts.len()
            invariant
                i <= contexts@.len(),
                row_views(rows@) == payload_rows(contexts@.take(i as int), block_id@),
                row_orders@.len() == i,
                forall|k: int|
                    0 <= k < i ==> orders(#[trigger] row_orders@[k], payload_row(contexts@[k], block_id@)),
            decreases contexts.len() - i,
        {
            let ctx = &contexts[i];
            let no_cells: Vec<CellMeta> = Vec::new();
            assert(no_cells@ =~= Seq::<CellMeta>::empty());
            let row_meta = RowMeta {
                id: ctx.row_id.clone(),
                block_id: block_id.clone(),
                cell_by_field_id: cells_after_set_vec(no_cells, crate::entities::clone_cells(&ctx.cell_by_field_id)),
                height: ctx.height,
                visibility: ctx.visibility,
            };
            row_orders.push(RowOrder::from_row_meta(&row_meta));
            let ghost before = rows@;
            rows.push(row_meta);
            proof {
                assert(row_views(rows@) =~= row_views(before).push(row_meta@));
                assert(payload_rows(contexts@.take(i as int + 1), block_id@) =~= payload_rows(
                    contexts@.take(i as int),
                    block_id@,
                ).push(payload_row(contexts@[i as int], block_id@)));
            }
            i = i + 1;
        }
        assert(contexts@.take(contexts@.len() as int) =~= contexts@);
        if rows.len() > 0 {
            proof {
                let rv = row_views(rows@);
                assert forall|k: int| 0 <= k < rows@.len() implies !has_row(s0.rows, #[trigger] rows@[k].id@) by {
                    assert(rv[k] == rows@[k]@);
                    assert(rv[k].id == contexts@[k].row_id@);
                }
                assert forall|a: int, b: int|
                    0 <= a < rows@.len() && 0 <= b < rows@.len() && a != b implies #[trigger] rows@[a].id@
                        != #[trigger] rows@[b].id@ by {
                    assert(rv[a] == rows@[a]@ && rv[b] == rows@[b]@);
                }
                let pr = payload_rows(contexts@, block_id@);
                assert forall|k: int| 0 <= k < pr.len() implies cell_fields_unique(#[trigger] pr[k].cells) by {
                    lemma_cells_after_set_unique(Seq::empty(), contexts@[k].cell_by_field_id@);
                }
                lemma_set_rows_cells(s0.rows, block_id@, Seq::empty());
                let old_rows = rows_in(s0.rows, block_id@);
                let all = old_rows + pr;
                assert forall|k: int| 0 <= k < all.len() implies cell_fields_unique(#[trigger] all[k].cells) by {
                    if k < old_rows.len() {
                        assert(all[k] == old_rows[k]);
                    } else {
                        assert(all[k] == pr[k - old_rows.len()]);
                    }
                }
                lemma_set_rows_cells(s0.rows, block_id@, all);
            }
            let row_count = self.block_meta_manager.insert_rows(&block_id, rows);
            let changeset = GridBlockMetaChangeset::from_row_count(&block_id, row_count);
            let ghost mid = self@;
            proof {
                lemma_block_index_unique(self@.blocks, block_id@, self@.blocks.len() - 1);
                assert(changeset == GridBlockMetaChangeset { block_id, start_row_index: None, row_count: Some(row_count) });
                assert(mid == with_rows(s0, mid.rows));
                assert(grid_of(mid) == grid_of(s0));
            }
            let change = self.update_block_with(changeset, encode);
            assert(self@ == after_insert_rows(s0, contexts@, change@));
            assert(encoded_by(*encode, grid_of(s0), grid_of(self@), change@));
        } else {
            assert(after_insert_rows(s0, contexts@, GridChangesetView { delta: Seq::empty(), md5: Seq::empty() })
                == s0);
        }
        Ok(row_orders)
    }

    /// Applies a changeset to the row that it names: a new height, a new
    /// visibility, and cells to set; nothing changes where no block has the
    /// row.
    pub fn update_row(&mut self, changeset: RowMetaChangeset) -> (res: Result<(), FlowyError>)
        requires
            old(self).wf(),
        ensures
            final(self).wf(),
            res.is_ok(),
            final(self)@ == with_rows(
                old(self)@,
                rows_after_row_update(
                    old(self)@.rows,
                    changeset.row_id@,
                    changeset.height,
                    changeset.visibility,
                    changeset.cell_by_field_id@,
                ),
            ),
    {
        proof {
            lemma_row_update_cells(
                self@.rows,
                changeset.row_id@,
                changeset.height,
                changeset.visibility,
                changeset.cell_by_field_id@,
            );
            lemma_row_update_of_grid_blocks(
                self@.rows,
                self@.blocks,
                changeset.row_id@,
                changeset.height,
                changeset.visibility,
                changeset.cell_by_field_id@,
            );
        }
        let _ = self.block_meta_manager.update_row(changeset);
        Ok(())
    }

    /// Sets a cell of a row to the stored form of the changeset's data: what
    /// `serialize` gives for the data and the field. An error where the
    /// changeset holds data for a field that the grid lacks, and the error of
    /// `serialize` where it fails; nothing changes then. Nothing changes where
    /// no block has the row.
    pub fn update_cell<S: Fn(&String, &FieldMeta) -> Result<String, FlowyError>>(
        &mut self,
        changeset: CellMetaChangeset,
        serialize: &S,
    ) -> (res: Result<(), FlowyError>)
        requires
            old(self).wf(),
            forall|d: &String, m: &FieldMeta| #[trigger] serialize.requires((d, m)),
        ensures
            final(self).wf(),
            match res {
                Ok(()) => match changeset.data {
                    Some(data) => {
                        &&& has_field(old(self)@.fields, changeset.field_id@)
                        &&& exists|stored: String|
                            {
                                &&& serialized_by(
                                    *serialize,
                                    data,
                                    old(self)@.fields[field_index(old(self)@.fields, changeset.field_id@)],
                                    Ok(stored),
                                )
                                &&& final(self)@ == with_rows(
                                    old(self)@,
                                    rows_after_row_update(
                                        old(self)@.rows,
                                        changeset.row_id@,
                                        None,
                                        None,
                                        cells_to_store(changeset.field_id, Some(stored)),
                                    ),
                                )
                            }
                    },
                    None => final(self)@ == with_rows(
                        old(self)@,
                        rows_after_row_update(old(self)@.rows, changeset.row_id@, None, None, Seq::empty()),
                    ),
                },
                Err(e) => {
                    &&& final(self)@ == old(self)@
                    &&& changeset.data is Some
                    &&& if has_field(old(self)@.fields, changeset.field_id@) {
                        serialized_by(
                            *serialize,
                            changeset.data->0,
                            old(self)@.fields[field_index(old(self)@.fields, changeset.field_id@)],
                            Err(e),
                        )
                    } else {
                        e.code == ErrorCode::Internal && e.msg@ == missing_field_message(changeset.field_id@)
                    }
                },
            },
    {
        let ghost s0 = self@;
        let CellMetaChangeset { grid_id, row_id, field_id, data } = changeset;
        let stored = match data {
            Some(d) => {
                match self.pad.get_field(field_id.as_str()) {
                    None => {
                        let msg = String::from_str("Can not find the field with id: ").concat(field_id.as_str());
                        return Err(FlowyError::internal(msg));
                    },
                    Some(field_meta) => {
                        let r = serialize(&d, field_meta);
                        assert(serialized_by(
                            *serialize,
                            d,
                            s0.fields[field_index(s0.fields, field_id@)],
                            r,
                        ));
                        match r {
                            Ok(v) => Some(v),
                            Err(e) => return Err(e),
                        }
                    },
                }
            },
            None => None,
        };
        let row_changeset = RowMetaChangeset::from_cell_changeset(CellMetaChangeset { grid_id, row_id, field_id, data: stored });
        proof {
            lemma_row_update_cells(
                s0.rows,
                row_changeset.row_id@,
                row_changeset.height,
                row_changeset.visibility,
                row_changeset.cell_by_field_id@,
            );
        }
        let _ = self.block_meta_manager.update_row(row_changeset);
        Ok(())
    }

    /// The rows of each requested block: those given, or all the grid's
    /// blocks.
    pub fn grid_block_snapshots(&self, block_ids: Option<Vec<String>>) -> (res: Result<Vec<GridBlockSnapshot>, FlowyError>)
        requires
            self.wf(),
        ensures
            res matches Ok(snapshots) && snapshots@.len() == requested_blocks(self@, block_ids).len() && (forall|k: int|
                0 <= k < snapshots@.len() ==> #[trigger] snapshots@[k].block_id@ == requested_blocks(self@, block_ids)[k]
                    && row_views(snapshots@[k].row_metas@) == rows_in(
                    self@.rows,
                    requested_blocks(self@, block_ids)[k],
                )),
    {
        let ghost req = requested_blocks(self@, block_ids);
        let ids = match block_ids {
            None => {
                let blocks = self.pad.get_block_metas();
                let mut ids: Vec<String> = Vec::new();
                let mut i: usize = 0;
                while i < blocks.len()
                    invariant
                        i <= blocks@.len(),
                        ids@.len() == i,
                        forall|k: int| 0 <= k < i ==> #[trigger] ids@[k]@ == blocks@[k].block_id@,
                    decreases blocks.len() - i,
                {
                    ids.push(blocks[i].block_id.clone());
                    i = i + 1;
                }
                ids
            },
            Some(ids) => ids,
        };
        let snapshots = self.block_meta_manager.make_block_snapshots(ids);
        Ok(snapshots)
    }

    /// The rows of the block, as a client sees them.
    pub fn get_rows(&self, block_id: &str) -> (res: Result<Vec<Row>, FlowyError>)
        requires
            self.wf(),
        ensures
            res matches Ok(rows) && rows@.len() == rows_in(self@.rows, block_id@).len() && (forall|k: int|
                0 <= k < rows@.len() ==> #[trigger] rows@[k]@ == row_view_for(
                    self@.fields,
                    rows_in(self@.rows, block_id@)[k],
                )),
    {
        let mut block_ids: Vec<String> = Vec::new();
        block_ids.push(block_id.to_owned());
        let ghost req = requested_blocks(self@, Some(block_ids));
        assert(req[0] == block_id@);
        let mut snapshots = match self.grid_block_snapshots(Some(block_ids)) {
            Ok(s) => s,
            Err(e) => return Err(e),
        };
        let ghost all = snapshots@;
        if snapshots.len() == 1 {
            let snapshot = snapshots.pop().unwrap();
            assert(snapshot == all[0]);
            assert(all[0].block_id@ == req[0]);
            assert(row_views(snapshot.row_metas@) == rows_in(self@.rows, block_id@));
            let field_metas = self.pad.get_field_metas(None);
            let rows = make_rows_from_row_metas(&field_metas, &snapshot.row_metas);
            proof {
                assert forall|k: int| 0 <= k < rows@.len() implies #[trigger] rows@[k]@ == row_view_for(
                    self@.fields,
                    rows_in(self@.rows, block_id@)[k],
                ) by {
                    assert(row_views(snapshot.row_metas@)[k] == snapshot.row_metas@[k]@);
                }
            }
            Ok(rows)
        } else {
            Ok(Vec::new())
        }
    }

    /// The row with the id, as a client sees it.
    pub fn get_row(&self, row_id: &str) -> (res: Result<Option<Row>, FlowyError>)
        requires
            self.wf(),
        ensures
            match res {
                Ok(Some(row)) => has_row(self@.rows, row_id@) && row@ == row_view_for(
                    self@.fields,
                    row_with_id(self@.rows, row_id@),
                ),
                Ok(None) => !has_row(self@.rows, row_id@),
                Err(_) => false,
            },
    {
        let id = row_id.to_owned();
        match self.block_meta_manager.get_row_meta(&id) {
            None => Ok(None),
            Some(row_meta) => {
                let field_metas = self.pad.get_field_metas(None);
                let mut row_metas: Vec<RowMeta> = Vec::new();
                row_metas.push(row_meta);
                let mut rows = make_rows_from_row_metas(&field_metas, &row_metas);
                Ok(rows.pop())
            },
        }
    }

    /// The cell of the field in the row with the id; where several cells
    /// name the field, the last counts.
    pub fn get_cell_meta(&self, row_id: &str, field_id: &str) -> (res: Result<Option<CellMeta>, FlowyError>)
        requires
            self.wf(),
        ensures
            res == Ok::<Option<CellMeta>, FlowyError>(
                if has_row(self@.rows, row_id@) {
                    cell_for_field(row_with_id(self@.rows, row_id@).cells, field_id@)
                } else {
                    None
                },
            ),
    {
        let id = row_id.to_owned();
        match self.block_meta_manager.get_row_meta(&id) {
            None => Ok(None),
            Some(row_meta) => {
                let fid = field_id.to_owned();
                Ok(find_cell(&row_meta.cell_by_field_id, &fid))
            },
        }
    }

    /// Each requested block with the order of its rows: those given, or all
    /// the grid's blocks.
    pub fn get_blocks(&self, block_ids: Option<Vec<String>>) -> (res: Result<Vec<GridBlock>, FlowyError>)
        requires
            self.wf(),
        ensures
            res matches Ok(blocks) && blocks@.len() == requested_blocks(self@, block_ids).len() && (forall|k: int|
                0 <= k < blocks@.len() ==> lists_rows(
                    #[trigger] blocks@[k],
                    requested_blocks(self@, block_ids)[k],
                    rows_in(self@.rows, requested_blocks(self@, block_ids)[k]),
                )),
    {
        let snapshots = match self.grid_block_snapshots(block_ids) {
            Ok(s) => s,
            Err(e) => return Err(e),
        };
        let mut blocks: Vec<GridBlock> = Vec::new();
        let mut i: usize = 0;
        while i < snapshots.len()
            invariant
                i <= snapshots@.len(),
                blocks@.len() == i,
                forall|k: int|
                    0 <= k < i ==> lists_rows(
                        #[trigger] blocks@[k],
                        snapshots@[k].block_id@,
                        row_views(snapshots@[k].row_metas@),
                    ),
            decreases snapshots.len() - i,
        {
            blocks.push(make_grid_block(&snapshots[i]));
            i = i + 1;
        }
        Ok(blocks)
    }

    /// The grid's blocks.
    pub fn get_block_metas(&self) -> (res: Result<Vec<GridBlockMeta>, FlowyError>)
        requires
            self.wf(),
        ensures
            res matches Ok(blocks) && blocks@ == self@.blocks,
    {
        Ok(self.pad.get_block_metas())
    }

    /// Deletes the rows of the orders, block by block in the order in which
    /// the blocks first appear; sets each block's row count and records a
    /// revision for each block that the grid has.
    pub fn delete_rows<E: Fn(&GridMeta, &GridMeta) -> GridChangeset>(
        &mut self,
        row_orders: Vec<RowOrder>,
        encode: &E,
    ) -> (res: Result<(), FlowyError>)
        requires
            old(self).wf(),
            forall|a: &GridMeta, b: &GridMeta| #[trigger] encode.requires((a, b)),
        ensures
            final(self).wf(),
            res.is_ok(),
            exists|changes: Seq<GridChangesetView>|
                {
                    &&& changes.len() == order_blocks(row_orders@).len()
                    &&& final(self)@ == after_delete_rows(old(self)@, row_orders@, changes)
                    &&& delete_changes_encoded(*encode, old(self)@, row_orders@, order_blocks(row_orders@), changes)
                },
    {
        let ghost s0 = self@;
        let groups = group_row_orders(&row_orders);
        let ghost mut changes: Seq<GridChangesetView> = Seq::empty();
        let mut i: usize = 0;
        while i < groups.len()
            invariant
                self.wf(),
                groups@ == order_blocks(row_orders@),
                i <= groups@.len(),
                changes.len() == i,
                self@ == after_delete_groups(s0, row_orders@, groups@.take(i as int), changes),
                delete_changes_encoded(*encode, s0, row_orders@, groups@.take(i as int), changes),
                forall|a: &GridMeta, b: &GridMeta| #[trigger] encode.requires((a, b)),
            decreases groups.len() - i,
        {
            let ghost prev = self@;
            let block_id = &groups[i];
            let row_ids = row_ids_of_block(&row_orders, block_id);
            proof {
                lemma_delete_cells(self@.rows, block_id@, id_views(row_ids@));
                lemma_delete_of_grid_blocks(self@.rows, self@.blocks, block_id@, id_views(row_ids@));
            }
            let row_count = self.block_meta_manager.delete_rows(block_id, row_ids);
            let changeset = GridBlockMetaChangeset::from_row_count(block_id, row_count);
            let change = self.update_block_with(changeset, encode);
            proof {
                let t = groups@.take(i as int + 1);
                let cs = changes.push(change@);
                assert(t.drop_last() =~= groups@.take(i as int));
                assert(t.last() == groups@[i as int]);
                assert(cs.drop_last() =~= changes);
                assert(cs.last() == change@);
                assert(self@ == after_delete_groups(s0, row_orders@, t, cs));
                assert(grid_of(prev) == grid_of(with_rows(prev, self@.rows)));
                assert(delete_changes_encoded(*encode, s0, row_orders@, t, cs));
                changes = cs;
            }
            i = i + 1;
        }
        assert(groups@.take(groups@.len() as int) =~= groups@);
        assert(self@ == after_delete_rows(s0, row_orders@, changes));
        assert(delete_changes_encoded(*encode, s0, row_orders@, order_blocks(row_orders@), changes));
        Ok(())
    }

    /// The grid as a client lays it out: its id and the order of its fields
    /// and blocks.
    pub fn grid_data(&self) -> (res: Result<Grid, FlowyError>)
        requires
            self.wf(),
        ensures
            res matches Ok(grid) && grid.id@ == self@.grid_id && grid.field_orders@.len() == self@.fields.len()
                && (forall|k: int|
                0 <= k < grid.field_orders@.len() ==> #[trigger] grid.field_orders@[k].field_id@
                    == self@.fields[k].id) && grid.block_orders@.len() == self@.blocks.len() && (forall|k: int|
                0 <= k < grid.block_orders@.len() ==> #[trigger] grid.block_orders@[k].block_id@
                    == self@.blocks[k].block_id@),
    {
        let field_orders = self.pad.get_field_orders();
        let blocks = self.pad.get_block_metas();
        let mut block_orders: Vec<GridBlockOrder> = Vec::new();
        let mut i: usize = 0;
        while i < blocks.len()
            invariant
                i <= blocks@.len(),
                block_orders@.len() == i,
                forall|k: int| 0 <= k < i ==> #[trigger] block_orders@[k].block_id@ == blocks@[k].block_id@,
            decreases blocks.len() - i,
        {
            block_orders.push(GridBlockOrder { block_id: blocks[i].block_id.clone() });
            i = i + 1;
        }
        Ok(Grid { id: self.grid_id.clone(), field_orders, block_orders })
    }

    /// All fields where no orders are given; else the fields that the orders
    /// name, in their order.
    pub fn get_field_metas(&self, field_orders: Option<Vec<FieldOrder>>) -> (res: Result<Vec<FieldMeta>, FlowyError>)
        requires
            self.wf(),
        ensures
            res matches Ok(metas) && field_views(metas@) == (match field_orders {
                None => self@.fields,
                Some(orders) => fields_for_orders(self@.fields, orders@),
            }),
    {
        Ok(self.pad.get_field_metas(field_orders))
    }

    /// The notifications owed to the client, oldest first; none are owed
    /// afterwards.
    pub fn take_notifications(&mut self) -> (res: Vec<GridNotification>)
        requires
            old(self).wf(),
        ensures
            final(self).wf(),
            notification_views(res@) == old(self)@.notifications,
            final(self)@ == (GridEditorView { notifications: Seq::empty(), ..old(self)@ }),
    {
        let mut res: Vec<GridNotification> = Vec::new();
        std::mem::swap(&mut res, &mut self.notifications);
        assert(notification_views(self.notifications@) =~= Seq::<NotificationView>::empty());
        res
    }

    /// The local revisions, oldest first.
    pub fn revisions(&self) -> (res: &Vec<Revision>)
        ensures
            revision_views(res@) == self@.revisions,
    {
        self.rev_manager.revisions()
    }

    /// The id of the latest revision.
    pub fn rev_id(&self) -> (res: i64)
        ensures
            res == self@.rev_id,
    {
        self.rev_manager.rev_id()
    }

    /// The id of the grid.
    pub fn grid_id(&self) -> (res: &String)
        ensures
            res@ == self@.grid_id,
    {
        &self.grid_id
    }

}

} // verus!
