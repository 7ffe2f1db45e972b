//! Properties of the grid that span several operations, proved over the
//! specifications that the operations' contracts use.
use vstd::prelude::*;
use crate::block_meta_manager::{
    BlockRowsView, cells_after_set, cells_without, entry_ids_unique, entry_index, has_entry, has_row,
    has_row_in, lemma_entry_index, lemma_replace_rows_subset_unique, lemma_row_index,
    lemma_rows_in_has_row, lemma_rows_in_set_rows, lemma_unique_in_block, lemma_update_row,
    row_after_update, row_block_index, row_index_in, row_with_id, rows_after_create,
    row_ids_unique, rows_after_row_update, rows_in, rows_without, set_rows,
};
use crate::entities::{
    Cell, CellMeta, CreateFieldParams, CreateRowMetaPayload, FieldChangesetParams, FieldMetaView, FieldOrder,
    FieldType, GridBlockMetaChangeset, GridChangesetView, RowMetaView, RowOrder, TypeOptionEntry, field_view_of,
};
use crate::event_map::{GridEvent, event_value, grid_event_table, handler_in};
use crate::grid_editor::{
    DEFAULT_ROW_HEIGHT, GridEditorView, NotificationView, RevisionView, after_create_field, after_create_row,
    after_switch_field, after_update_block,
    after_delete_block_rows, after_delete_field, after_delete_groups, after_delete_rows,
    after_duplicate_field, after_insert_rows, after_update_field, cell_for_field, cells_for_fields, cells_to_store,
    create_changeset, current_block_id, new_field_meta, new_row, order_blocks, order_row_ids,
    payload_rows, record_change, revisions_chained, row_view_for, view_wf, with_rows,
};
use crate::grid_meta_pad::{
    apply_field_changeset, block_index, duplicate_of, field_ids_unique, field_index, fields_for_orders, has_field,
    lemma_block_index_unique, lemma_field_index_unique, lemma_insert_keeps_unique,
    lemma_remove_keeps_unique, lemma_update_keeps_unique, opt_view, without_type_option, has_block,
};
use crate::text::{decimal, digit_char};
use crate::user_status::{UserStatus, status_value};

verus! {

/// Different events stand for different numbers on the wire, so the event
/// that the number of an event stands for is that event.
pub proof fn law_event_values_distinct(a: GridEvent, b: GridEvent)
    requires
        event_value(a) == event_value(b),
    ensures
        a == b,
{
}

/// Different user statuses stand for different numbers on the wire.
pub proof fn law_status_values_distinct(a: UserStatus, b: UserStatus)
    requires
        status_value(a) == status_value(b),
    ensures
        a == b,
{
}

/// The grid module answers every event except the request for a field's
/// select options, and no two events share a handler.
pub proof fn law_grid_module_routes(a: GridEvent, b: GridEvent)
    ensures
        handler_in(grid_event_table(), a) is None <==> a == GridEvent::GetSelectOptions,
        handler_in(grid_event_table(), a) is Some && handler_in(grid_event_table(), a) == handler_in(
            grid_event_table(),
            b,
        ) ==> a == b,
{
    reveal_with_fuel(handler_in, 15);
}

/// A recorded change takes the next revision id: it adds exactly one
/// revision, from the latest revision id to the next, holding the change's
/// delta and md5, and keeps the revisions chained; no change adds none.
pub proof fn law_record_change(s: GridEditorView, changed: bool, c: GridChangesetView)
    requires
        revisions_chained(s.revisions, s.rev_id),
    ensures
        revisions_chained(record_change(s, changed, c).revisions, record_change(s, changed, c).rev_id),
        record_change(s, changed, c).revisions.len() == s.revisions.len() + (if changed {
            1int
        } else {
            0int
        }),
        changed ==> record_change(s, changed, c).revisions.last() == (RevisionView {
            object_id: s.grid_id,
            base_rev_id: s.rev_id,
            rev_id: s.rev_id.wrapping_add(1),
            delta: c.delta,
            user_id: s.user_id,
            md5: c.md5,
        }),
        record_change(s, changed, c).fields == s.fields,
        record_change(s, changed, c).blocks == s.blocks,
        record_change(s, changed, c).rows == s.rows,
{
}

/// After a field is created, the grid has a field with its id, which reads
/// back as created (or, where the grid had the id, as overwritten by the new
/// field's properties); the number of fields grows by one exactly when the
/// id was new, and the client is told all fields as they now are.
pub proof fn law_create_field_reads_back(s: GridEditorView, p: CreateFieldParams, json: String, c: GridChangesetView)
    requires
        view_wf(s),
    ensures
        ({
            let t = after_create_field(s, p, json, c);
            &&& field_ids_unique(t.fields)
            &&& has_field(t.fields, p.field.id@)
            &&& t.fields.len() == s.fields.len() + (if has_field(s.fields, p.field.id@) {
                0int
            } else {
                1int
            })
            &&& t.fields[field_index(t.fields, p.field.id@)] == (if has_field(s.fields, p.field.id@) {
                apply_field_changeset(s.fields[field_index(s.fields, p.field.id@)], create_changeset(p), Some(json))
            } else {
                new_field_meta(p.field, json)
            })
            &&& t.notifications.last() == NotificationView::DidUpdateFields(
                t.fields.map_values(|f: FieldMetaView| field_view_of(f)),
            )
        }),
{
    let t = after_create_field(s, p, json, c);
    let id = p.field.id@;
    if has_field(s.fields, id) {
        let i = field_index(s.fields, id);
        let f = apply_field_changeset(s.fields[i], create_changeset(p), Some(json));
        lemma_update_keeps_unique(s.fields, i, f);
        lemma_field_index_unique(t.fields, id, i);
    } else {
        let m = new_field_meta(p.field, json);
        let k = match opt_view(p.start_field_id) {
            Some(start) => if has_field(s.fields, start) {
                field_index(s.fields, start)
            } else {
                s.fields.len() as int
            },
            None => s.fields.len() as int,
        };
        assert(s.fields.insert(s.fields.len() as int, m) =~= s.fields.push(m));
        assert(t.fields == s.fields.insert(k, m));
        lemma_insert_keeps_unique(s.fields, k, m);
        lemma_field_index_unique(t.fields, id, k);
    }
}

/// After a field is deleted, the grid has no field with its id, and every
/// other field stays, in its order.
pub proof fn law_delete_field_removes(s: GridEditorView, field_id: Seq<char>, c: GridChangesetView)
    requires
        view_wf(s),
    ensures
        !has_field(after_delete_field(s, field_id, c).fields, field_id),
        field_ids_unique(after_delete_field(s, field_id, c).fields),
        after_delete_field(s, field_id, c).fields.len() == s.fields.len() - (if has_field(s.fields, field_id) {
            1int
        } else {
            0int
        }),
{
    let t = after_delete_field(s, field_id, c);
    if has_field(s.fields, field_id) {
        let i = field_index(s.fields, field_id);
        lemma_remove_keeps_unique(s.fields, i);
        if has_field(t.fields, field_id) {
            let j = choose|j: int| 0 <= j < t.fields.len() && #[trigger] t.fields[j].id == field_id;
            let oj = if j < i { j } else { j + 1 };
            assert(t.fields[j] == s.fields[oj]);
        }
    }
}

/// After a changeset of a field that the grid has, the field reads back with
/// the changeset applied, every other field is unchanged, and the client is
/// told all fields and then the field, as they now are.
pub proof fn law_update_field_reads_back(
    s: GridEditorView,
    p: FieldChangesetParams,
    json: Option<String>,
    c: GridChangesetView,
)
    requires
        view_wf(s),
        has_field(s.fields, p.field_id@),
    ensures
        ({
            let t = after_update_field(s, p, json, c);
            let i = field_index(s.fields, p.field_id@);
            &&& has_field(t.fields, p.field_id@)
            &&& field_index(t.fields, p.field_id@) == i
            &&& t.fields[i] == apply_field_changeset(s.fields[i], p, json)
            &&& t.fields.len() == s.fields.len()
            &&& forall|j: int| 0 <= j < s.fields.len() && j != i ==> t.fields[j] == s.fields[j]
            &&& t.notifications.len() == s.notifications.len() + 2
            &&& t.notifications[t.notifications.len() - 2] == NotificationView::DidUpdateFields(
                t.fields.map_values(|f: FieldMetaView| field_view_of(f)),
            )
            &&& t.notifications.last() == NotificationView::DidUpdateField(t.fields[i])
        }),
{
    let i = field_index(s.fields, p.field_id@);
    let f = apply_field_changeset(s.fields[i], p, json);
    let fields = s.fields.update(i, f);
    lemma_update_keeps_unique(s.fields, i, f);
    lemma_field_index_unique(fields, p.field_id@, i);
}

/// The fields that orders naming each field in turn select are all the
/// fields, in their order: reading the fields by the grid's field orders
/// gives the grid's fields.
pub proof fn law_field_orders_select_all(fields: Seq<FieldMetaView>, orders: Seq<FieldOrder>)
    requires
        field_ids_unique(fields),
        orders.len() == fields.len(),
        forall|k: int| 0 <= k < orders.len() ==> #[trigger] orders[k].field_id@ == fields[k].id,
    ensures
        fields_for_orders(fields, orders) == fields,
{
    lemma_orders_prefix(fields, orders, orders.len() as int);
    assert(orders.take(orders.len() as int) =~= orders);
    assert(fields.take(fields.len() as int) =~= fields);
}

/// The fields that the first `k` orders select are the first `k` fields.
proof fn lemma_orders_prefix(fields: Seq<FieldMetaView>, orders: Seq<FieldOrder>, k: int)
    requires
        field_ids_unique(fields),
        orders.len() == fields.len(),
        forall|j: int| 0 <= j < orders.len() ==> #[trigger] orders[j].field_id@ == fields[j].id,
        0 <= k <= orders.len(),
    ensures
        fields_for_orders(fields, orders.take(k)) == fields.take(k),
    decreases k,
{
    if k == 0 {
        assert(orders.take(0) =~= Seq::<FieldOrder>::empty());
        assert(fields.take(0) =~= Seq::<FieldMetaView>::empty());
    } else {
        lemma_orders_prefix(fields, orders, k - 1);
        let t = orders.take(k);
        assert(t.drop_last() =~= orders.take(k - 1));
        assert(t.last() == orders[k - 1]);
        lemma_field_index_unique(fields, fields[k - 1].id, k - 1);
        assert(fields.take(k) =~= fields.take(k - 1).push(fields[k - 1]));
    }
}

/// After a new row is created, a row has its id, its block has one row more,
/// the block's row count in the grid's metadata is its number of rows, and
/// one revision is recorded.
pub proof fn law_create_row_counts(
    s: GridEditorView,
    start: Option<Seq<char>>,
    row_id: Seq<char>,
    c: GridChangesetView,
)
    requires
        view_wf(s),
        s.blocks.len() > 0,
        !has_row(s.rows, row_id),
    ensures
        ({
            let t = after_create_row(s, start, row_id, c);
            let block_id = current_block_id(s)@;
            &&& has_row(t.rows, row_id)
            &&& rows_in(t.rows, block_id).len() == rows_in(s.rows, block_id).len() + 1
            &&& t.blocks.len() == s.blocks.len()
            &&& t.blocks.last().block_id@ == block_id
            &&& t.blocks.last().row_count == rows_in(t.rows, block_id).len() as i32
            &&& t.revisions.len() == s.revisions.len() + 1
        }),
{
    let bid = current_block_id(s);
    let old_rows = rows_in(s.rows, bid@);
    let created = rows_after_create(old_rows, new_row(row_id, bid@), start);
    let rows = set_rows(s.rows, bid@, created);
    lemma_rows_in_set_rows(s.rows, bid@, created);
    let k = match start {
        Some(st) => if has_row_in(old_rows, st) {
            row_index_in(old_rows, st) + 1
        } else {
            old_rows.len() as int
        },
        None => old_rows.len() as int,
    };
    assert(old_rows.insert(old_rows.len() as int, new_row(row_id, bid@)) =~= old_rows.push(new_row(row_id, bid@)));
    assert(created == old_rows.insert(k, new_row(row_id, bid@)));
    assert(created[k].id == row_id);
    assert(has_row_in(created, row_id));
    lemma_rows_in_has_row(rows, bid@, row_id);
    let last = s.blocks.len() - 1;
    lemma_block_index_unique(s.blocks, bid@, last);
}

/// After a cell of a row is written, the row's cell of that field reads back
/// as stored.
pub proof fn law_update_cell_reads_back(s: GridEditorView, row_id: Seq<char>, field_id: String, stored: String)
    requires
        view_wf(s),
        has_row(s.rows, row_id),
    ensures
        ({
            let t = with_rows(
                s,
                rows_after_row_update(s.rows, row_id, None, None, cells_to_store(field_id, Some(stored))),
            );
            &&& has_row(t.rows, row_id)
            &&& cell_for_field(row_with_id(t.rows, row_id).cells, field_id@) == Some(
                CellMeta { field_id, data: stored },
            )
        }),
{
    let cells = cells_to_store(field_id, Some(stored));
    lemma_updated_row(s.rows, row_id, None, None, cells);
    let r0 = row_with_id(s.rows, row_id);
    let c = CellMeta { field_id, data: stored };
    assert(cells =~= seq![c]);
    assert(cells.drop_last() =~= Seq::<CellMeta>::empty());
    assert(cells.last() == c);
    assert(cells_after_set(r0.cells, cells.drop_last()) == r0.cells);
    assert(cells_after_set(r0.cells, cells) == cells_without(r0.cells, c.field_id@).push(c));
}

/// Rows without some ids hold none of those ids.
proof fn lemma_rows_without_excludes(rows: Seq<RowMetaView>, ids: Seq<Seq<char>>, x: Seq<char>)
    requires
        ids.contains(x),
    ensures
        !has_row_in(rows_without(rows, ids), x),
    decreases rows.len(),
{
    if rows.len() > 0 {
        lemma_rows_without_excludes(rows.drop_last(), ids, x);
        let rest = rows_without(rows.drop_last(), ids);
        let res = rows_without(rows, ids);
        if has_row_in(res, x) {
            let j = choose|j: int| 0 <= j < res.len() && #[trigger] res[j].id == x;
            if j < rest.len() {
                assert(res[j] == rest[j]);
            }
        }
    }
}

/// Setting the rows of one block leaves those of every other block.
proof fn lemma_rows_in_other(v: Seq<BlockRowsView>, b: Seq<char>, rows: Seq<RowMetaView>, c: Seq<char>)
    requires
        entry_ids_unique(v),
        b != c,
    ensures
        rows_in(set_rows(v, b, rows), c) == rows_in(v, c),
{
    let w = set_rows(v, b, rows);
    lemma_rows_in_set_rows(v, b, rows);
    if has_entry(v, c) {
        let e = entry_index(v, c);
        assert(w[e] == v[e]);
        lemma_entry_index(w, c, e);
    }
    if has_entry(w, c) {
        let e = choose|e: int| 0 <= e < w.len() && #[trigger] w[e].block_id == c;
        assert(e < v.len() && w[e] == v[e]);
    }
}

/// The block of every order is among the blocks of the orders.
proof fn lemma_order_blocks_contains(orders: Seq<RowOrder>, k: int)
    requires
        0 <= k < orders.len(),
    ensures
        exists|j: int| 0 <= j < order_blocks(orders).len() && #[trigger] order_blocks(orders)[j]@ == orders[k].block_id@,
    decreases orders.len(),
{
    let g = order_blocks(orders);
    let rest = order_blocks(orders.drop_last());
    if k < orders.len() - 1 {
        lemma_order_blocks_contains(orders.drop_last(), k);
        let j = choose|j: int| 0 <= j < rest.len() && #[trigger] rest[j]@ == orders.drop_last()[k].block_id@;
        assert(g[j] == rest[j]);
    } else {
        if exists|j: int| 0 <= j < rest.len() && #[trigger] rest[j]@ == orders.last().block_id@ {
            let j = choose|j: int| 0 <= j < rest.len() && #[trigger] rest[j]@ == orders.last().block_id@;
            assert(g[j] == rest[j]);
        } else {
            assert(g[rest.len() as int] == orders.last().block_id);
        }
    }
}

/// The row of every order is among the rows that the orders place in its
/// block.
proof fn lemma_order_row_ids_contains(orders: Seq<RowOrder>, k: int)
    requires
        0 <= k < orders.len(),
    ensures
        order_row_ids(orders, orders[k].block_id@).contains(orders[k].row_id@),
    decreases orders.len(),
{
    let b = orders[k].block_id@;
    let rest = order_row_ids(orders.drop_last(), b);
    if k < orders.len() - 1 {
        lemma_order_row_ids_contains(orders.drop_last(), k);
        assert(orders.drop_last()[k] == orders[k]);
        let j = choose|j: int| 0 <= j < rest.len() && rest[j] == orders[k].row_id@;
        if orders.last().block_id@ == b {
            assert(rest.push(orders.last().row_id@)[j] == orders[k].row_id@);
        }
    } else {
        assert(rest.push(orders.last().row_id@)[rest.len() as int] == orders[k].row_id@);
    }
}

/// Deleting the rows of some blocks leaves none of them in their blocks.
proof fn lemma_delete_groups(
    s: GridEditorView,
    orders: Seq<RowOrder>,
    groups: Seq<String>,
    cs: Seq<GridChangesetView>,
)
    requires
        entry_ids_unique(s.rows),
    ensures
        entry_ids_unique(after_delete_groups(s, orders, groups, cs).rows),
        forall|j: int, x: Seq<char>|
            0 <= j < groups.len() && #[trigger] order_row_ids(orders, groups[j]@).contains(x) ==> !has_row_in(
                rows_in(after_delete_groups(s, orders, groups, cs).rows, groups[j]@),
                x,
            ),
    decreases groups.len(),
{
    if groups.len() > 0 {
        let init = groups.drop_last();
        let g = groups.last();
        lemma_delete_groups(s, orders, init, cs.drop_last());
        let t = after_delete_groups(s, orders, init, cs.drop_last());
        let ids = order_row_ids(orders, g@);
        let kept = rows_without(rows_in(t.rows, g@), ids);
        let u = after_delete_block_rows(t, g, ids, cs.last());
        if has_entry(t.rows, g@) {
            assert(u.rows == set_rows(t.rows, g@, kept));
            lemma_rows_in_set_rows(t.rows, g@, kept);
            assert forall|j: int, x: Seq<char>|
                0 <= j < groups.len() && #[trigger] order_row_ids(orders, groups[j]@).contains(x) implies !has_row_in(
                rows_in(u.rows, groups[j]@),
                x,
            ) by {
                if groups[j]@ == g@ {
                    lemma_rows_without_excludes(rows_in(t.rows, g@), ids, x);
                } else {
                    assert(groups[j] == init[j]);
                    assert(order_row_ids(orders, init[j]@).contains(x));
                    lemma_rows_in_other(t.rows, g@, kept, groups[j]@);
                }
            }
        } else {
            assert(u.rows == t.rows);
            assert forall|j: int, x: Seq<char>|
                0 <= j < groups.len() && #[trigger] order_row_ids(orders, groups[j]@).contains(x) implies !has_row_in(
                rows_in(u.rows, groups[j]@),
                x,
            ) by {
                if groups[j]@ != g@ {
                    assert(groups[j] == init[j]);
                    assert(order_row_ids(orders, init[j]@).contains(x));
                }
            }
        }
    }
}

/// After the rows of some orders are deleted, no block holds a row that an
/// order placed in it.
pub proof fn law_delete_rows_removes(s: GridEditorView, orders: Seq<RowOrder>, cs: Seq<GridChangesetView>)
    requires
        view_wf(s),
    ensures
        forall|k: int|
            0 <= k < orders.len() ==> !has_row_in(
                rows_in(after_delete_rows(s, orders, cs).rows, #[trigger] orders[k].block_id@),
                orders[k].row_id@,
            ),
{
    let groups = order_blocks(orders);
    lemma_delete_groups(s, orders, groups, cs);
    assert forall|k: int| 0 <= k < orders.len() implies !has_row_in(
        rows_in(after_delete_rows(s, orders, cs).rows, #[trigger] orders[k].block_id@),
        orders[k].row_id@,
    ) by {
        lemma_order_blocks_contains(orders, k);
        lemma_order_row_ids_contains(orders, k);
        let j = choose|j: int| 0 <= j < groups.len() && #[trigger] groups[j]@ == orders[k].block_id@;
        assert(order_row_ids(orders, groups[j]@).contains(orders[k].row_id@));
    }
}

/// After rows are inserted, the last block holds its rows before and then
/// the new rows, in their order, and its row count in the grid's metadata is
/// its number of rows.
pub proof fn law_insert_rows_appends(s: GridEditorView, contexts: Seq<CreateRowMetaPayload>, c: GridChangesetView)
    requires
        view_wf(s),
        s.blocks.len() > 0,
        contexts.len() > 0,
    ensures
        ({
            let t = after_insert_rows(s, contexts, c);
            let block_id = current_block_id(s)@;
            &&& rows_in(t.rows, block_id) == rows_in(s.rows, block_id) + payload_rows(contexts, block_id)
            &&& t.blocks.len() == s.blocks.len()
            &&& t.blocks.last().block_id@ == block_id
            &&& t.blocks.last().row_count == rows_in(t.rows, block_id).len() as i32
            &&& t.revisions.len() == s.revisions.len() + 1
        }),
{
    let bid = current_block_id(s);
    let rows = rows_in(s.rows, bid@) + payload_rows(contexts, bid@);
    lemma_rows_in_set_rows(s.rows, bid@, rows);
    lemma_block_index_unique(s.blocks, bid@, s.blocks.len() - 1);
}

/// After a field is duplicated under a new id, the copy stands right after
/// the field, with the new id and " (copy)" after the name, and both ids
/// are in the grid.
pub proof fn law_duplicate_field_places_copy(
    s: GridEditorView,
    field_id: Seq<char>,
    new_id: Seq<char>,
    c: GridChangesetView,
)
    requires
        view_wf(s),
        has_field(s.fields, field_id),
        !has_field(s.fields, new_id),
    ensures
        ({
            let t = after_duplicate_field(s, field_id, new_id, c);
            let i = field_index(s.fields, field_id);
            &&& t.fields.len() == s.fields.len() + 1
            &&& t.fields[i] == s.fields[i]
            &&& t.fields[i + 1] == duplicate_of(s.fields[i], new_id)
            &&& t.fields[i + 1].name == s.fields[i].name + " (copy)"@
            &&& has_field(t.fields, field_id)
            &&& has_field(t.fields, new_id)
            &&& field_ids_unique(t.fields)
        }),
{
    let i = field_index(s.fields, field_id);
    let t = after_duplicate_field(s, field_id, new_id, c);
    lemma_insert_keeps_unique(s.fields, i + 1, duplicate_of(s.fields[i], new_id));
    assert(t.fields[i].id == field_id);
    assert(t.fields[i + 1].id == new_id);
}

// ---------------------------------------------------------------------------
// What single operations give, stated property by property

/// Whether a stored cell is of a field of the grid.
pub open spec fn of_grid_field(fields: Seq<FieldMetaView>) -> spec_fn(CellMeta) -> bool {
    |c: CellMeta| has_field(fields, c.field_id@)
}

/// The cell that a client sees of a stored cell: its field and its data.
pub open spec fn as_client_cell() -> spec_fn(CellMeta) -> Cell {
    |c: CellMeta| Cell { field_id: c.field_id, content: c.data }
}

/// A row reads back with exactly its stored cells whose field is a field of
/// the grid, in their stored order, each with its stored data: no such cell
/// is lost and no other cell shows.
pub proof fn law_row_cells_are_stored_cells_of_grid_fields(fields: Seq<FieldMetaView>, cells: Seq<CellMeta>)
    ensures
        cells_for_fields(fields, cells) == cells.filter(of_grid_field(fields)).map_values(as_client_cell()),
        cells_for_fields(fields, cells).len() == cells.filter(of_grid_field(fields)).len(),
    decreases cells.len(),
{
    reveal(Seq::filter);
    let p = of_grid_field(fields);
    let g = as_client_cell();
    if cells.len() > 0 {
        let init = cells.drop_last();
        law_row_cells_are_stored_cells_of_grid_fields(fields, init);
        let f = init.filter(p);
        assert(cells.filter(p) == (if p(cells.last()) {
            f.push(cells.last())
        } else {
            f
        }));
        if p(cells.last()) {
            assert(f.push(cells.last()).map_values(g) =~= f.map_values(g).push(g(cells.last())));
        }
    } else {
        assert(cells.filter(p) =~= Seq::<CellMeta>::empty());
        assert(cells.filter(p).map_values(g) =~= Seq::<Cell>::empty());
    }
}

/// The row that a client reads has the row's id and height, and exactly the
/// row's stored cells of the grid's fields, in order.
pub proof fn law_row_view_shows_cells_of_grid_fields(fields: Seq<FieldMetaView>, row: RowMetaView)
    ensures
        row_view_for(fields, row).id == row.id,
        row_view_for(fields, row).height == row.height,
        row_view_for(fields, row).cells == row.cells.filter(of_grid_field(fields)).map_values(as_client_cell()),
{
    law_row_cells_are_stored_cells_of_grid_fields(fields, row.cells);
}

/// The type options without those of one field type hold none of that type,
/// only entries of the original, and every entry of the original of another
/// type.
pub proof fn lemma_without_type_option(opts: Seq<TypeOptionEntry>, field_type: FieldType)
    ensures
        forall|k: int|
            0 <= k < without_type_option(opts, field_type).len() ==> #[trigger] without_type_option(
                opts,
                field_type,
            )[k].field_type != field_type,
        forall|k: int|
            0 <= k < without_type_option(opts, field_type).len() ==> opts.contains(
                #[trigger] without_type_option(opts, field_type)[k],
            ),
        forall|k: int|
            0 <= k < opts.len() && #[trigger] opts[k].field_type != field_type ==> without_type_option(
                opts,
                field_type,
            ).contains(opts[k]),
    decreases opts.len(),
{
    if opts.len() > 0 {
        let init = opts.drop_last();
        lemma_without_type_option(init, field_type);
        let rest = without_type_option(init, field_type);
        let r = without_type_option(opts, field_type);
        assert forall|k: int| 0 <= k < rest.len() implies opts.contains(#[trigger] rest[k]) by {
            let j = choose|j: int| 0 <= j < init.len() && init[j] == rest[k];
            assert(opts[j] == init[j]);
        }
        if opts.last().field_type != field_type {
            assert(r == rest.push(opts.last()));
            assert forall|k: int| 0 <= k < r.len() implies opts.contains(#[trigger] r[k]) by {
                if k < rest.len() {
                    assert(r[k] == rest[k]);
                } else {
                    assert(opts[opts.len() - 1] == r[k]);
                }
            }
            assert forall|k: int| 0 <= k < r.len() implies #[trigger] r[k].field_type != field_type by {
                if k < rest.len() {
                    assert(r[k] == rest[k]);
                }
            }
        }
        assert forall|k: int| 0 <= k < opts.len() && #[trigger] opts[k].field_type != field_type implies r.contains(
            opts[k],
        ) by {
            if k < opts.len() - 1 {
                assert(opts[k] == init[k]);
                assert(init[k].field_type != field_type);
                assert(rest.contains(init[k]));
                let j = choose|j: int| 0 <= j < rest.len() && rest[j] == init[k];
                if opts.last().field_type != field_type {
                    assert(r[j] == rest[j]);
                }
            } else {
                assert(r[rest.len() as int] == opts.last());
            }
        }
    }
}

/// After a changeset of a field that the grid has, each property that the
/// changeset gives reads back as given, each that it leaves out keeps its
/// value, and where a type option is given it is the one type option of the
/// field's (new) type, every type option of another type staying; a
/// revision is recorded exactly when the changeset gives something.
pub proof fn law_update_field_sets_given_values(
    s: GridEditorView,
    p: FieldChangesetParams,
    json: Option<String>,
    c: GridChangesetView,
)
    requires
        view_wf(s),
        has_field(s.fields, p.field_id@),
    ensures
        ({
            let t = after_update_field(s, p, json, c);
            let i = field_index(s.fields, p.field_id@);
            let f0 = s.fields[i];
            let f = t.fields[i];
            let ty = if p.field_type is Some { p.field_type->0 } else { f0.field_type };
            &&& f.id == f0.id
            &&& f.name == (if p.name is Some { p.name->0@ } else { f0.name })
            &&& f.desc == (if p.desc is Some { p.desc->0@ } else { f0.desc })
            &&& f.field_type == ty
            &&& f.frozen == (if p.frozen is Some { p.frozen->0 } else { f0.frozen })
            &&& f.visibility == (if p.visibility is Some { p.visibility->0 } else { f0.visibility })
            &&& f.width == (if p.width is Some { p.width->0 } else { f0.width })
            &&& json is None ==> f.type_options == f0.type_options
            &&& json is Some ==> {
                &&& f.type_options.len() > 0
                &&& f.type_options.last() == TypeOptionEntry { field_type: ty, data: json->0 }
                &&& forall|k: int| 0 <= k < f.type_options.len() - 1 ==> #[trigger] f.type_options[k].field_type != ty
                &&& forall|k: int|
                    0 <= k < f0.type_options.len() && #[trigger] f0.type_options[k].field_type != ty
                        ==> f.type_options.contains(f0.type_options[k])
            }
            &&& t.revisions.len() == s.revisions.len() + (if p.name is Some || p.desc is Some || p.field_type is Some
                || p.frozen is Some || p.visibility is Some || p.width is Some || json is Some {
                1int
            } else {
                0int
            })
        }),
{
    law_update_field_reads_back(s, p, json, c);
    let i = field_index(s.fields, p.field_id@);
    let f0 = s.fields[i];
    let ty = if p.field_type is Some { p.field_type->0 } else { f0.field_type };
    lemma_without_type_option(f0.type_options, ty);
    let f = after_update_field(s, p, json, c).fields[i];
    if json is Some {
        let w = without_type_option(f0.type_options, ty);
        assert(f.type_options == w.push(TypeOptionEntry { field_type: ty, data: json->0 }));
        assert forall|k: int| 0 <= k < f.type_options.len() - 1 implies #[trigger] f.type_options[k].field_type != ty by {
            assert(f.type_options[k] == w[k]);
        }
        assert forall|k: int|
            0 <= k < f0.type_options.len() && #[trigger] f0.type_options[k].field_type != ty implies f.type_options.contains(
            f0.type_options[k],
        ) by {
            let j = choose|j: int| 0 <= j < w.len() && w[j] == f0.type_options[k];
            assert(f.type_options[j] == w[j]);
        }
    }
}

/// After a field is created, the field with its id has every property of
/// the given field: id, name, description, type, frozen, visibility and
/// width; a field that is new has the decoded type option as its one type
/// option, and one that overwrote a field of the grid has it as the last,
/// and only, type option of its type.
pub proof fn law_create_field_keeps_given_properties(
    s: GridEditorView,
    p: CreateFieldParams,
    json: String,
    c: GridChangesetView,
)
    requires
        view_wf(s),
    ensures
        ({
            let t = after_create_field(s, p, json, c);
            let f = t.fields[field_index(t.fields, p.field.id@)];
            &&& f.id == p.field.id@
            &&& f.name == p.field.name@
            &&& f.desc == p.field.desc@
            &&& f.field_type == p.field.field_type
            &&& f.frozen == p.field.frozen
            &&& f.visibility == p.field.visibility
            &&& f.width == p.field.width
            &&& !has_field(s.fields, p.field.id@) ==> f.type_options == seq![
                TypeOptionEntry { field_type: p.field.field_type, data: json },
            ]
            &&& has_field(s.fields, p.field.id@) ==> {
                &&& f.type_options.len() > 0
                &&& f.type_options.last() == TypeOptionEntry { field_type: p.field.field_type, data: json }
                &&& forall|k: int|
                    0 <= k < f.type_options.len() - 1 ==> #[trigger] f.type_options[k].field_type
                        != p.field.field_type
            }
            &&& t.revisions.len() == s.revisions.len() + 1
        }),
{
    law_create_field_reads_back(s, p, json, c);
    let t = after_create_field(s, p, json, c);
    if has_field(s.fields, p.field.id@) {
        let i = field_index(s.fields, p.field.id@);
        let f0 = s.fields[i];
        assert(f0.id == p.field.id@);
        lemma_without_type_option(f0.type_options, p.field.field_type);
        let w = without_type_option(f0.type_options, p.field.field_type);
        let f = t.fields[field_index(t.fields, p.field.id@)];
        assert(f.type_options == w.push(TypeOptionEntry { field_type: p.field.field_type, data: json }));
        assert forall|k: int| 0 <= k < f.type_options.len() - 1 implies #[trigger] f.type_options[k].field_type
            != p.field.field_type by {
            assert(f.type_options[k] == w[k]);
        }
    }
}

/// A duplicated field's copy stands right after the field and equals it in
/// every property but two: it has the new id, and its name is the field's
/// name followed by " (copy)". Its type, description, frozen, visibility,
/// width and type options are the field's.
pub proof fn law_duplicate_is_field_with_new_id_and_name(
    s: GridEditorView,
    field_id: Seq<char>,
    new_id: Seq<char>,
    c: GridChangesetView,
)
    requires
        view_wf(s),
        has_field(s.fields, field_id),
        !has_field(s.fields, new_id),
    ensures
        ({
            let t = after_duplicate_field(s, field_id, new_id, c);
            let i = field_index(s.fields, field_id);
            let f = s.fields[i];
            let d = t.fields[i + 1];
            &&& d.id == new_id
            &&& d.name == f.name + " (copy)"@
            &&& d.desc == f.desc
            &&& d.field_type == f.field_type
            &&& d.frozen == f.frozen
            &&& d.visibility == f.visibility
            &&& d.width == f.width
            &&& d.type_options == f.type_options
            &&& t.revisions.len() == s.revisions.len() + 1
        }),
{
    law_duplicate_field_places_copy(s, field_id, new_id, c);
}

/// The value of decimal digits, read most significant first.
pub open spec fn digits_value(s: Seq<char>) -> int
    decreases s.len(),
{
    if s.len() == 0 {
        0
    } else {
        digits_value(s.drop_last()) * 10 + ((s.last() as int) - ('0' as int))
    }
}

/// Whether every character is a decimal digit.
pub open spec fn all_digits(s: Seq<char>) -> bool {
    forall|k: int| 0 <= k < s.len() ==> '0' <= #[trigger] s[k] && s[k] <= '9'
}

/// The decimal text of a number reads back as that number: it is made of
/// the digits '0' to '9', has no leading zero, and its digits, read most
/// significant first, give the number.
pub proof fn law_decimal_reads_back(n: nat)
    ensures
        all_digits(decimal(n)),
        decimal(n).len() > 0,
        decimal(n)[0] == '0' ==> n == 0,
        digits_value(decimal(n)) == n,
    decreases n,
{
    lemma_digit_char_value((n % 10) as nat);
    if n < 10 {
        assert(n % 10 == n);
        assert(decimal(n) == seq![digit_char(n)]);
        assert(decimal(n).drop_last() =~= Seq::<char>::empty());
        assert(digits_value(Seq::<char>::empty()) == 0);
        assert(decimal(n).last() == digit_char(n));
    } else {
        let q = (n / 10) as nat;
        law_decimal_reads_back(q);
        let d = decimal(n);
        assert(d == decimal(q) + seq![digit_char((n % 10) as nat)]);
        assert(d.drop_last() =~= decimal(q));
        assert(d.last() == digit_char((n % 10) as nat));
        assert(digits_value(d) == digits_value(decimal(q)) * 10 + ((d.last() as int) - ('0' as int)));
        assert(d[0] == decimal(q)[0]);
        assert forall|k: int| 0 <= k < d.len() implies '0' <= #[trigger] d[k] && d[k] <= '9' by {
            if k < decimal(q).len() {
                assert(d[k] == decimal(q)[k]);
            }
        }
        assert(n == q * 10 + n % 10) by (nonlinear_arith)
            requires q == n / 10;
        assert(q > 0);
    }
}

/// The character of a digit is the digit's place after '0'.
proof fn lemma_digit_char_value(d: nat)
    requires
        d < 10,
    ensures
        (digit_char(d) as int) - ('0' as int) == d,
        '0' <= digit_char(d) <= '9',
{
}

/// Removing the cells of a field leaves no cell of it, and the cell of
/// every other field as it was.
proof fn lemma_cell_for_field_without(cells: Seq<CellMeta>, g: Seq<char>, f: Seq<char>)
    ensures
        cell_for_field(cells_without(cells, g), f) == (if f == g {
            None
        } else {
            cell_for_field(cells, f)
        }),
    decreases cells.len(),
{
    if cells.len() > 0 {
        lemma_cell_for_field_without(cells.drop_last(), g, f);
        let rest = cells_without(cells.drop_last(), g);
        if cells.last().field_id@ != g {
            assert(rest.push(cells.last()).drop_last() =~= rest);
        }
    }
}

/// Setting cells is a map update: the cell of a field that the updates name
/// is the last update of that field, and the cell of every other field is
/// the one the row had.
pub proof fn law_cells_after_set_overrides(cells: Seq<CellMeta>, updates: Seq<CellMeta>, f: Seq<char>)
    ensures
        cell_for_field(cells_after_set(cells, updates), f) == (if cell_for_field(updates, f) is Some {
            cell_for_field(updates, f)
        } else {
            cell_for_field(cells, f)
        }),
    decreases updates.len(),
{
    if updates.len() > 0 {
        law_cells_after_set_overrides(cells, updates.drop_last(), f);
        let before = cells_after_set(cells, updates.drop_last());
        let u = updates.last();
        lemma_cell_for_field_without(before, u.field_id@, f);
        let w = cells_without(before, u.field_id@);
        assert(w.push(u).drop_last() =~= w);
    }
}

/// The row with the id, after it is updated, is the row before with the
/// update applied.
proof fn lemma_updated_row(
    v: Seq<BlockRowsView>,
    id: Seq<char>,
    height: Option<i32>,
    visibility: Option<bool>,
    cells: Seq<CellMeta>,
)
    requires
        entry_ids_unique(v),
        row_ids_unique(v),
        has_row(v, id),
    ensures
        has_row(rows_after_row_update(v, id, height, visibility, cells), id),
        row_with_id(rows_after_row_update(v, id, height, visibility, cells), id) == row_after_update(
            row_with_id(v, id),
            height,
            visibility,
            cells,
        ),
{
    let b = row_block_index(v, id);
    let rows = v[b].rows;
    let i = row_index_in(rows, id);
    let r = row_after_update(rows[i], height, visibility, cells);
    let new_rows = rows.update(i, r);
    let w = v.update(b, BlockRowsView { block_id: v[b].block_id, rows: new_rows });
    lemma_unique_in_block(v, b);
    lemma_update_row(rows, i, r);
    assert forall|k: int| 0 <= k < new_rows.len() implies has_row_in(v[b].rows, #[trigger] new_rows[k].id) by {
        if k == i {
            assert(v[b].rows[k].id == new_rows[k].id);
        } else {
            assert(new_rows[k] == v[b].rows[k]);
        }
    }
    lemma_replace_rows_subset_unique(v, b, new_rows);
    assert(w[b].rows[i] == r);
    lemma_row_index(w, b, i);
}

/// After a row is updated, it keeps its id and block, takes the given
/// height and visibility (keeping its own where none is given), each field
/// that the update names reads back as the last cell given for it, and
/// every other field reads back as before.
pub proof fn law_update_row_sets_given_values(
    s: GridEditorView,
    row_id: Seq<char>,
    height: Option<i32>,
    visibility: Option<bool>,
    cells: Seq<CellMeta>,
)
    requires
        view_wf(s),
        has_row(s.rows, row_id),
    ensures
        ({
            let t = rows_after_row_update(s.rows, row_id, height, visibility, cells);
            let r0 = row_with_id(s.rows, row_id);
            let r = row_with_id(t, row_id);
            &&& has_row(t, row_id)
            &&& r.id == row_id
            &&& r.block_id == r0.block_id
            &&& r.height == (if height is Some { height->0 } else { r0.height })
            &&& r.visibility == (if visibility is Some { visibility->0 } else { r0.visibility })
            &&& forall|f: Seq<char>|
                #[trigger] cell_for_field(r.cells, f) == (if cell_for_field(cells, f) is Some {
                    cell_for_field(cells, f)
                } else {
                    cell_for_field(r0.cells, f)
                })
        }),
{
    lemma_updated_row(s.rows, row_id, height, visibility, cells);
    let r0 = row_with_id(s.rows, row_id);
    let b = row_block_index(s.rows, row_id);
    let i = row_index_in(s.rows[b].rows, row_id);
    assert(s.rows[b].rows[i].id == row_id);
    assert forall|f: Seq<char>| #[trigger] cell_for_field(row_with_id(
        rows_after_row_update(s.rows, row_id, height, visibility, cells),
        row_id,
    ).cells, f) == (if cell_for_field(cells, f) is Some {
        cell_for_field(cells, f)
    } else {
        cell_for_field(r0.cells, f)
    }) by {
        law_cells_after_set_overrides(r0.cells, cells, f);
    }
    let t = rows_after_row_update(s.rows, row_id, height, visibility, cells);
    let b2 = row_block_index(t, row_id);
    let i2 = row_index_in(t[b2].rows, row_id);
    assert(t[b2].rows[i2].id == row_id);
}

/// Whether a row's id is none of the ids.
pub open spec fn id_not_in(ids: Seq<Seq<char>>) -> spec_fn(RowMetaView) -> bool {
    |r: RowMetaView| !ids.contains(r.id)
}

/// Deleting rows by id keeps exactly the rows whose id is none of the ids,
/// in their order.
pub proof fn law_delete_keeps_other_rows(rows: Seq<RowMetaView>, ids: Seq<Seq<char>>)
    ensures
        rows_without(rows, ids) == rows.filter(id_not_in(ids)),
    decreases rows.len(),
{
    reveal(Seq::filter);
    if rows.len() > 0 {
        law_delete_keeps_other_rows(rows.drop_last(), ids);
    } else {
        assert(rows.filter(id_not_in(ids)) =~= rows);
    }
}

/// A new row stands right after the row `start` where the rows have it, and
/// at the end otherwise; the rows before it and after it are the rows there
/// were, in their order.
pub proof fn law_new_row_placed_after_start(rows: Seq<RowMetaView>, row: RowMetaView, start: Option<Seq<char>>)
    ensures
        ({
            let r = rows_after_create(rows, row, start);
            let found = start is Some && has_row_in(rows, start->0);
            let k = if found {
                row_index_in(rows, start->0) + 1
            } else {
                rows.len() as int
            };
            &&& r.len() == rows.len() + 1
            &&& 0 <= k <= rows.len()
            &&& r[k] == row
            &&& found ==> rows[k - 1].id == start->0
            &&& forall|j: int| 0 <= j < k ==> r[j] == rows[j]
            &&& forall|j: int| k < j < r.len() ==> r[j] == rows[j - 1]
        }),
{
    if start is Some && has_row_in(rows, start->0) {
        let k = row_index_in(rows, start->0);
        assert(rows[k].id == start->0);
    }
}

/// A new row has the id it is given, lies in the given block, has no cells,
/// the default height and is visible.
pub proof fn law_new_row_is_empty(row_id: Seq<char>, block_id: Seq<char>)
    ensures
        new_row(row_id, block_id).id == row_id,
        new_row(row_id, block_id).block_id == block_id,
        new_row(row_id, block_id).cells.len() == 0,
        new_row(row_id, block_id).height == DEFAULT_ROW_HEIGHT,
        new_row(row_id, block_id).visibility,
{
}

/// After a field of the grid is switched to a type, it has that type and
/// keeps every other property; its type options are kept where it has one
/// of that type, and otherwise gain the default type option of that type
/// at the end. A revision is recorded.
pub proof fn law_switch_field_sets_type(
    s: GridEditorView,
    field_id: Seq<char>,
    field_type: FieldType,
    default_type_option: String,
    c: GridChangesetView,
)
    requires
        view_wf(s),
        has_field(s.fields, field_id),
    ensures
        ({
            let t = after_switch_field(s, field_id, field_type, default_type_option, c);
            let i = field_index(s.fields, field_id);
            let f0 = s.fields[i];
            let f = t.fields[i];
            &&& t.fields.len() == s.fields.len()
            &&& f.field_type == field_type
            &&& f.id == f0.id
            &&& f.name == f0.name
            &&& f.desc == f0.desc
            &&& f.frozen == f0.frozen
            &&& f.visibility == f0.visibility
            &&& f.width == f0.width
            &&& (exists|k: int| 0 <= k < f0.type_options.len() && #[trigger] f0.type_options[k].field_type == field_type)
                ==> f.type_options == f0.type_options
            &&& !(exists|k: int|
                0 <= k < f0.type_options.len() && #[trigger] f0.type_options[k].field_type == field_type)
                ==> f.type_options == f0.type_options.push(
                TypeOptionEntry { field_type, data: default_type_option },
            )
            &&& forall|j: int| 0 <= j < s.fields.len() && j != i ==> t.fields[j] == s.fields[j]
            &&& t.revisions.len() == s.revisions.len() + 1
        }),
{
}

/// After a changeset of a block of the grid, the block keeps its id and
/// takes the given start row index and row count, keeping its own where
/// none is given; every other block stays.
pub proof fn law_update_block_sets_given_values(s: GridEditorView, cs: GridBlockMetaChangeset, c: GridChangesetView)
    requires
        view_wf(s),
        has_block(s.blocks, cs.block_id@),
    ensures
        ({
            let t = after_update_block(s, cs, c);
            let i = block_index(s.blocks, cs.block_id@);
            let b0 = s.blocks[i];
            let b = t.blocks[i];
            &&& t.blocks.len() == s.blocks.len()
            &&& b0.block_id@ == cs.block_id@
            &&& b.block_id == b0.block_id
            &&& b.start_row_index == (if cs.start_row_index is Some { cs.start_row_index->0 } else { b0.start_row_index })
            &&& b.row_count == (if cs.row_count is Some { cs.row_count->0 } else { b0.row_count })
            &&& forall|j: int| 0 <= j < s.blocks.len() && j != i ==> t.blocks[j] == s.blocks[j]
        }),
{
}

/// Whether an order names a field of the grid.
pub open spec fn names_field(fields: Seq<FieldMetaView>) -> spec_fn(FieldOrder) -> bool {
    |o: FieldOrder| has_field(fields, o.field_id@)
}

/// The field that an order names.
pub open spec fn named_field(fields: Seq<FieldMetaView>) -> spec_fn(FieldOrder) -> FieldMetaView {
    |o: FieldOrder| fields[field_index(fields, o.field_id@)]
}

/// Reading fields by orders gives, for each order that names a field of the
/// grid and in the orders' order, the field with that id; orders that name
/// no field give nothing.
pub proof fn law_fields_for_orders_follow_orders(fields: Seq<FieldMetaView>, orders: Seq<FieldOrder>)
    ensures
        fields_for_orders(fields, orders) == orders.filter(names_field(fields)).map_values(named_field(fields)),
    decreases orders.len(),
{
    reveal(Seq::filter);
    let p = names_field(fields);
    let g = named_field(fields);
    if orders.len() > 0 {
        let init = orders.drop_last();
        law_fields_for_orders_follow_orders(fields, init);
        let f = init.filter(p);
        if p(orders.last()) {
            assert(f.push(orders.last()).map_values(g) =~= f.map_values(g).push(g(orders.last())));
        }
    } else {
        assert(orders.filter(p).map_values(g) =~= Seq::<FieldMetaView>::empty());
    }
}

/// Whether an order places its row in the block.
pub open spec fn in_block(block_id: Seq<char>) -> spec_fn(RowOrder) -> bool {
    |o: RowOrder| o.block_id@ == block_id
}

/// The id of the row of an order.
pub open spec fn order_row_id() -> spec_fn(RowOrder) -> Seq<char> {
    |o: RowOrder| o.row_id@
}

/// The rows that orders delete from a block are those of every order that
/// places its row in that block, in the orders' order.
pub proof fn law_order_row_ids_of_block(orders: Seq<RowOrder>, block_id: Seq<char>)
    ensures
        order_row_ids(orders, block_id) == orders.filter(in_block(block_id)).map_values(order_row_id()),
    decreases orders.len(),
{
    reveal(Seq::filter);
    let p = in_block(block_id);
    let g = order_row_id();
    if orders.len() > 0 {
        let init = orders.drop_last();
        law_order_row_ids_of_block(init, block_id);
        let f = init.filter(p);
        if p(orders.last()) {
            assert(f.push(orders.last()).map_values(g) =~= f.map_values(g).push(g(orders.last())));
        }
    } else {
        assert(orders.filter(p).map_values(g) =~= Seq::<Seq<char>>::empty());
    }
}

} // verus!
