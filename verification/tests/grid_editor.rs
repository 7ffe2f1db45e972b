use flowy_grid::entities::{
    CellMeta, CellMetaChangeset, CreateFieldParams, CreateRowMetaPayload, ErrorCode, Field,
    FieldChangesetParams, FieldMeta, FieldType, FlowyError, GridBlockMeta, GridBlockSnapshot, GridChangeset,
    GridMeta, RowMeta, RowMetaChangeset, RowOrder, TypeOptionEntry,
};
use flowy_grid::grid_editor::{ClientGridEditor, GridNotification, DEFAULT_ROW_HEIGHT};
use flowy_grid::grid_meta_pad::GridMetaPad;

fn field_meta(id: &str, name: &str) -> FieldMeta {
    FieldMeta {
        id: id.to_string(),
        name: name.to_string(),
        desc: String::new(),
        field_type: FieldType::RichText,
        frozen: false,
        visibility: true,
        width: 150,
        type_options: vec![TypeOptionEntry { field_type: FieldType::RichText, data: "{}".to_string() }],
    }
}

fn editor_with(fields: Vec<FieldMeta>, blocks: Vec<GridBlockMeta>) -> ClientGridEditor {
    let snapshots = blocks
        .iter()
        .map(|b| GridBlockSnapshot { block_id: b.block_id.clone(), row_metas: vec![] })
        .collect();
    let pad = GridMetaPad::new("grid-1".to_string(), fields, blocks).unwrap();
    ClientGridEditor::new("grid-1", "user-1".to_string(), pad, 5, snapshots).unwrap()
}

/// Decodes a type option: the field type and the text of the bytes.
fn decode(data: Vec<u8>, field_type: &FieldType) -> String {
    format!("{:?}:{}", field_type, String::from_utf8(data).unwrap())
}

/// Encodes a change: the numbers of fields before and after, and of blocks
/// after.
fn encode(before: &GridMeta, after: &GridMeta) -> GridChangeset {
    GridChangeset {
        delta: format!("{}->{}", before.fields.len(), after.fields.len()).into_bytes(),
        md5: format!("blocks:{}", after.blocks.len()),
    }
}

/// Stores numbers in their canonical form and other data as given.
fn serialize(data: &String, field: &FieldMeta) -> Result<String, FlowyError> {
    if field.field_type == FieldType::Number {
        data.trim().parse::<i64>().map(|n| n.to_string()).map_err(|_| FlowyError::internal("not a number".to_string()))
    } else {
        Ok(data.clone())
    }
}

fn block(id: &str) -> GridBlockMeta {
    GridBlockMeta { block_id: id.to_string(), start_row_index: 0, row_count: 0 }
}

fn new_field(id: &str, name: &str, field_type: FieldType) -> Field {
    Field {
        id: id.to_string(),
        name: name.to_string(),
        desc: "d".to_string(),
        field_type,
        frozen: true,
        visibility: false,
        width: 77,
    }
}

fn changeset(id: &str) -> FieldChangesetParams {
    FieldChangesetParams {
        field_id: id.to_string(),
        grid_id: "grid-1".to_string(),
        name: None,
        desc: None,
        field_type: None,
        frozen: None,
        visibility: None,
        width: None,
        type_option_data: None,
    }
}

#[test]
fn create_field_records_revision_and_notifies() {
    let mut editor = editor_with(vec![field_meta("a", "A")], vec![]);
    let params = CreateFieldParams {
        grid_id: "grid-1".to_string(),
        field: new_field("b", "B", FieldType::Number),
        type_option_data: b"fmt0".to_vec(),
        start_field_id: Some("a".to_string()),
    };
    editor.create_field(params, &decode, &encode).unwrap();
    let metas = editor.get_field_metas(None).unwrap();
    let ids: Vec<String> = metas.iter().map(|f| f.id.clone()).collect();
    assert_eq!(ids, vec!["b", "a"]);
    let b = editor.get_field("b").unwrap().unwrap();
    assert_eq!(b.width, 77);
    assert!(b.frozen);
    assert_eq!(b.type_options.len(), 1);
    assert_eq!(b.type_options[0].field_type, FieldType::Number);
    assert_eq!(b.type_options[0].data, "Number:fmt0");
    let revs = editor.revisions();
    assert_eq!(revs.len(), 1);
    assert_eq!(revs[0].delta_data, b"1->2".to_vec());
    assert_eq!(revs[0].md5, "blocks:0");
    assert_eq!(revs[0].base_rev_id, 5);
    assert_eq!(revs[0].rev_id, 6);
    assert_eq!(revs[0].object_id, "grid-1");
    assert_eq!(revs[0].user_id, "user-1");
    assert_eq!(editor.rev_id(), 6);
    let notes = editor.take_notifications();
    assert_eq!(notes.len(), 1);
    match &notes[0] {
        GridNotification::DidUpdateFields(fields) => {
            let ids: Vec<String> = fields.iter().map(|f| f.id.clone()).collect();
            assert_eq!(ids, vec!["b", "a"]);
        }
        _ => panic!("expected the fields"),
    }
    assert!(editor.take_notifications().is_empty());
}

#[test]
fn create_field_with_existing_id_overwrites() {
    let mut editor = editor_with(vec![field_meta("a", "A")], vec![]);
    let params = CreateFieldParams {
        grid_id: "grid-1".to_string(),
        field: new_field("a", "New", FieldType::Checkbox),
        type_option_data: b"c1".to_vec(),
        start_field_id: None,
    };
    editor.create_field(params, &decode, &encode).unwrap();
    let metas = editor.get_field_metas(None).unwrap();
    assert_eq!(metas.len(), 1);
    assert_eq!(metas[0].name, "New");
    assert_eq!(metas[0].field_type, FieldType::Checkbox);
    assert_eq!(metas[0].type_options.len(), 2);
    assert_eq!(editor.revisions().len(), 1);
}

#[test]
fn next_field_meta_is_named_after_count() {
    let editor = editor_with(vec![field_meta("a", "A"), field_meta("b", "B")], vec![]);
    let meta = editor.create_next_field_meta(FieldType::DateTime, "new".to_string(), "{}".to_string()).unwrap();
    assert_eq!(meta.name, "Property 3");
    assert_eq!(meta.id, "new");
    assert_eq!(meta.width, 180);
    assert_eq!(meta.desc, "");
    assert!(meta.visibility);
    assert!(!meta.frozen);
    let mut fields = Vec::new();
    for i in 0..11 {
        fields.push(field_meta(&format!("f{}", i), "x"));
    }
    let editor = editor_with(fields, vec![]);
    let meta = editor.create_next_field_meta(FieldType::Number, "n".to_string(), "{}".to_string()).unwrap();
    assert_eq!(meta.name, "Property 12");
    assert_eq!(meta.width, 150);
    assert_eq!(editor.revisions().len(), 0);
}

#[test]
fn update_field_of_missing_field_fails() {
    let mut editor = editor_with(vec![field_meta("a", "A")], vec![]);
    let mut cs = changeset("missing");
    cs.name = Some("x".to_string());
    let err = editor.update_field(cs, &decode, &encode).unwrap_err();
    assert_eq!(err.code, ErrorCode::FieldDoesNotExist);
    assert_eq!(editor.revisions().len(), 0);
    assert!(editor.take_notifications().is_empty());
}

#[test]
fn update_field_notifies_fields_then_field() {
    let mut editor = editor_with(vec![field_meta("a", "A")], vec![]);
    let mut cs = changeset("a");
    cs.name = Some("Renamed".to_string());
    editor.update_field(cs, &decode, &encode).unwrap();
    assert_eq!(editor.get_field("a").unwrap().unwrap().name, "Renamed");
    let notes = editor.take_notifications();
    assert_eq!(notes.len(), 2);
    assert!(matches!(notes[0], GridNotification::DidUpdateFields(_)));
    match &notes[1] {
        GridNotification::DidUpdateField(f) => assert_eq!(f.name, "Renamed"),
        _ => panic!("expected the field"),
    }
    assert_eq!(editor.revisions().len(), 1);
    // a changeset that changes nothing records no revision but still notifies
    editor.update_field(changeset("a"), &decode, &encode).unwrap();
    assert_eq!(editor.revisions().len(), 1);
    assert_eq!(editor.take_notifications().len(), 2);
}

#[test]
fn delete_switch_and_duplicate_fields() {
    let mut editor = editor_with(vec![field_meta("a", "A"), field_meta("b", "B")], vec![]);
    editor.duplicate_field("a", "a-copy".to_string(), &encode).unwrap();
    assert_eq!(editor.get_field("a-copy").unwrap().unwrap().name, "A (copy)");
    editor.switch_to_field_type("b", &FieldType::SingleSelect, "{\"options\":[]}".to_string(), &encode).unwrap();
    let b = editor.get_field("b").unwrap().unwrap();
    assert_eq!(b.field_type, FieldType::SingleSelect);
    editor.delete_field("a", &encode).unwrap();
    assert!(!editor.contain_field("a"));
    editor.delete_field("a", &encode).unwrap();
    assert_eq!(editor.revisions().len(), 3);
    let grid = editor.grid_data().unwrap();
    let ids: Vec<String> = grid.field_orders.iter().map(|o| o.field_id.clone()).collect();
    assert_eq!(ids, vec!["a-copy", "b"]);
    assert_eq!(grid.id, "grid-1");
}

#[test]
fn create_row_without_block_fails() {
    let mut editor = editor_with(vec![], vec![]);
    let err = editor.create_row(None, "r1".to_string(), &encode).unwrap_err();
    assert_eq!(err.code, ErrorCode::Internal);
    assert_eq!(err.msg, "There is no grid block in this grid");
    let err = editor.insert_rows(vec![], &encode).unwrap_err();
    assert_eq!(err.msg, "There is no grid block in this grid");
}

#[test]
fn create_rows_updates_block_row_count() {
    let mut editor = editor_with(vec![field_meta("a", "A")], vec![block("b1")]);
    let order = editor.create_row(None, "r1".to_string(), &encode).unwrap();
    assert_eq!(order.row_id, "r1");
    assert_eq!(order.block_id, "b1");
    assert_eq!(order.height, DEFAULT_ROW_HEIGHT);
    editor.create_row(None, "r2".to_string(), &encode).unwrap();
    editor.create_row(Some("r1".to_string()), "r3".to_string(), &encode).unwrap();
    let blocks = editor.get_blocks(None).unwrap();
    assert_eq!(blocks.len(), 1);
    let ids: Vec<String> = blocks[0].row_orders.iter().map(|o| o.row_id.clone()).collect();
    assert_eq!(ids, vec!["r1", "r3", "r2"]);
    assert_eq!(editor.get_block_metas().unwrap()[0].row_count, 3);
    assert_eq!(editor.revisions().len(), 3);
    let err = editor.create_row(None, "r2".to_string(), &encode).unwrap_err();
    assert_eq!(err.msg, "A row with this id already exists");
}

#[test]
fn create_block_then_rows_go_to_last_block() {
    let mut editor = editor_with(vec![], vec![block("b1")]);
    editor.create_block(block("b2"), &encode).unwrap();
    editor.create_block(block("b2"), &encode).unwrap();
    assert_eq!(editor.get_block_metas().unwrap().len(), 2);
    assert_eq!(editor.revisions().len(), 1);
    let order = editor.create_row(None, "r1".to_string(), &encode).unwrap();
    assert_eq!(order.block_id, "b2");
    assert_eq!(editor.get_rows("b2").unwrap().len(), 1);
    assert_eq!(editor.get_rows("b1").unwrap().len(), 0);
}

#[test]
fn insert_rows_appends_in_order() {
    let mut editor = editor_with(vec![field_meta("a", "A")], vec![block("b1")]);
    let payload = |id: &str| CreateRowMetaPayload {
        row_id: id.to_string(),
        cell_by_field_id: vec![CellMeta { field_id: "a".to_string(), data: format!("v-{}", id) }],
        height: 40,
        visibility: true,
    };
    let orders = editor.insert_rows(vec![payload("x"), payload("y")], &encode).unwrap();
    assert_eq!(orders.len(), 2);
    assert_eq!(orders[1].row_id, "y");
    assert_eq!(orders[1].height, 40);
    assert_eq!(editor.get_block_metas().unwrap()[0].row_count, 2);
    let rows = editor.get_rows("b1").unwrap();
    assert_eq!(rows[0].id, "x");
    assert_eq!(rows[0].cell_by_field_id[0].content, "v-x");
    let err = editor.insert_rows(vec![payload("z"), payload("z")], &encode).unwrap_err();
    assert_eq!(err.msg, "A row with this id already exists");
    let err = editor.insert_rows(vec![payload("x")], &encode).unwrap_err();
    assert_eq!(err.code, ErrorCode::Internal);
    let before = editor.revisions().len();
    assert!(editor.insert_rows(vec![], &encode).unwrap().is_empty());
    assert_eq!(editor.revisions().len(), before);
}

#[test]
fn update_cell_reads_back() {
    let mut editor = editor_with(vec![field_meta("a", "A")], vec![block("b1")]);
    editor.create_row(None, "r1".to_string(), &encode).unwrap();
    let cs = CellMetaChangeset {
        grid_id: "grid-1".to_string(),
        row_id: "r1".to_string(),
        field_id: "a".to_string(),
        data: Some("hello".to_string()),
    };
    editor.update_cell(cs, &serialize).unwrap();
    let cell = editor.get_cell_meta("r1", "a").unwrap().unwrap();
    assert_eq!(cell.data, "hello");
    let cs = CellMetaChangeset {
        grid_id: "grid-1".to_string(),
        row_id: "r1".to_string(),
        field_id: "a".to_string(),
        data: Some("again".to_string()),
    };
    editor.update_cell(cs, &serialize).unwrap();
    let row = editor.get_row("r1").unwrap().unwrap();
    assert_eq!(row.cell_by_field_id.len(), 1);
    assert_eq!(row.cell_by_field_id[0].content, "again");
    let cs = CellMetaChangeset {
        grid_id: "grid-1".to_string(),
        row_id: "r1".to_string(),
        field_id: "missing".to_string(),
        data: Some("x".to_string()),
    };
    let err = editor.update_cell(cs, &serialize).unwrap_err();
    assert_eq!(err.msg, "Can not find the field with id: missing");
    assert!(editor.get_cell_meta("r1", "missing").unwrap().is_none());
    assert!(editor.get_row("nope").unwrap().is_none());
}

#[test]
fn update_row_changes_height_and_visibility() {
    let mut editor = editor_with(vec![], vec![block("b1")]);
    editor.create_row(None, "r1".to_string(), &encode).unwrap();
    let cs = RowMetaChangeset { row_id: "r1".to_string(), height: Some(99), visibility: Some(false), cell_by_field_id: vec![] };
    editor.update_row(cs).unwrap();
    assert_eq!(editor.get_row("r1").unwrap().unwrap().height, 99);
    let snapshots = editor.grid_block_snapshots(None).unwrap();
    assert!(!snapshots[0].row_metas[0].visibility);
}

#[test]
fn delete_rows_by_block() {
    let mut editor = editor_with(vec![], vec![block("b1")]);
    editor.create_row(None, "r1".to_string(), &encode).unwrap();
    editor.create_row(None, "r2".to_string(), &encode).unwrap();
    editor.create_row(None, "r3".to_string(), &encode).unwrap();
    let orders = editor.get_blocks(None).unwrap()[0].row_orders.clone();
    let to_delete = vec![orders[0].clone(), orders[2].clone()];
    editor.delete_rows(to_delete, &encode).unwrap();
    let rows = editor.get_rows("b1").unwrap();
    let ids: Vec<String> = rows.iter().map(|r| r.id.clone()).collect();
    assert_eq!(ids, vec!["r2"]);
    assert_eq!(editor.get_block_metas().unwrap()[0].row_count, 1);
}

#[test]
fn rows_hide_cells_of_unknown_fields() {
    let mut editor = editor_with(vec![field_meta("a", "A")], vec![block("b1")]);
    let payload = CreateRowMetaPayload {
        row_id: "r".to_string(),
        cell_by_field_id: vec![
            CellMeta { field_id: "gone".to_string(), data: "1".to_string() },
            CellMeta { field_id: "a".to_string(), data: "2".to_string() },
        ],
        height: 36,
        visibility: true,
    };
    editor.insert_rows(vec![payload], &encode).unwrap();
    let row = editor.get_row("r").unwrap().unwrap();
    assert_eq!(row.cell_by_field_id.len(), 1);
    assert_eq!(row.cell_by_field_id[0].field_id, "a");
    assert_eq!(editor.get_cell_meta("r", "gone").unwrap().unwrap().data, "1");
}

#[test]
fn update_field_decodes_type_option_with_the_old_type() {
    let mut editor = editor_with(vec![field_meta("a", "A")], vec![]);
    let mut cs = changeset("a");
    cs.field_type = Some(FieldType::Number);
    cs.type_option_data = Some(b"opt".to_vec());
    editor.update_field(cs, &decode, &encode).unwrap();
    let a = editor.get_field("a").unwrap().unwrap();
    assert_eq!(a.field_type, FieldType::Number);
    let number_option = a.type_options.iter().find(|t| t.field_type == FieldType::Number).unwrap();
    assert_eq!(number_option.data, "RichText:opt");
}

#[test]
fn update_cell_stores_serialized_data() {
    let mut number = field_meta("n", "N");
    number.field_type = FieldType::Number;
    let mut editor = editor_with(vec![number], vec![block("b1")]);
    editor.create_row(None, "r1".to_string(), &encode).unwrap();
    let cs = CellMetaChangeset {
        grid_id: "grid-1".to_string(),
        row_id: "r1".to_string(),
        field_id: "n".to_string(),
        data: Some(" 007".to_string()),
    };
    editor.update_cell(cs, &serialize).unwrap();
    assert_eq!(editor.get_cell_meta("r1", "n").unwrap().unwrap().data, "7");
    let cs = CellMetaChangeset {
        grid_id: "grid-1".to_string(),
        row_id: "r1".to_string(),
        field_id: "n".to_string(),
        data: Some("abc".to_string()),
    };
    let err = editor.update_cell(cs, &serialize).unwrap_err();
    assert_eq!(err.msg, "not a number");
    assert_eq!(editor.get_cell_meta("r1", "n").unwrap().unwrap().data, "7");
}

#[test]
fn new_editor_holds_loaded_rows() {
    let pad = GridMetaPad::new("grid-1".to_string(), vec![field_meta("a", "A")], vec![block("b1")]).unwrap();
    let row = RowMeta {
        id: "r1".to_string(),
        block_id: "b1".to_string(),
        cell_by_field_id: vec![CellMeta { field_id: "a".to_string(), data: "x".to_string() }],
        height: 36,
        visibility: true,
    };
    let snapshot = GridBlockSnapshot { block_id: "b1".to_string(), row_metas: vec![row.clone()] };
    let editor = ClientGridEditor::new("grid-1", "u".to_string(), pad, 0, vec![snapshot]).unwrap();
    assert_eq!(editor.get_rows("b1").unwrap()[0].id, "r1");
    assert_eq!(editor.get_cell_meta("r1", "a").unwrap().unwrap().data, "x");
    let pad = GridMetaPad::new("grid-1".to_string(), vec![], vec![block("b1")]).unwrap();
    let twice = GridBlockSnapshot { block_id: "b1".to_string(), row_metas: vec![row.clone(), row.clone()] };
    assert!(ClientGridEditor::new("grid-1", "u".to_string(), pad, 0, vec![twice]).is_err());
    let pad = GridMetaPad::new("grid-1".to_string(), vec![], vec![block("b1")]).unwrap();
    let a = GridBlockSnapshot { block_id: "b1".to_string(), row_metas: vec![] };
    let b = GridBlockSnapshot { block_id: "b1".to_string(), row_metas: vec![] };
    assert!(ClientGridEditor::new("grid-1", "u".to_string(), pad, 0, vec![a, b]).is_err());
}

#[test]
fn new_editor_refuses_snapshots_of_other_blocks() {
    let empty = |id: &str| GridBlockSnapshot { block_id: id.to_string(), row_metas: vec![] };
    let pad = GridMetaPad::new("grid-1".to_string(), vec![], vec![]).unwrap();
    let err = match ClientGridEditor::new("grid-1", "u".to_string(), pad, 0, vec![empty("zz")]) {
        Ok(_) => panic!("an editor over a block that the grid lacks"),
        Err(e) => e,
    };
    assert_eq!(err.msg, "The block snapshots are not those of the grid's blocks");
    let pad = GridMetaPad::new("grid-1".to_string(), vec![], vec![block("b1"), block("b2")]).unwrap();
    assert!(ClientGridEditor::new("grid-1", "u".to_string(), pad, 0, vec![empty("b2"), empty("b1")]).is_err());
    let pad = GridMetaPad::new("grid-1".to_string(), vec![], vec![block("b1"), block("b2")]).unwrap();
    assert!(ClientGridEditor::new("grid-1", "u".to_string(), pad, 0, vec![empty("b1")]).is_err());
    let pad = GridMetaPad::new("grid-1".to_string(), vec![], vec![block("b1"), block("b2")]).unwrap();
    let editor = ClientGridEditor::new("grid-1", "u".to_string(), pad, 0, vec![empty("b1"), empty("b2")]).unwrap();
    assert!(editor.get_rows("b2").unwrap().is_empty());
}

#[test]
fn delete_rows_of_an_unknown_block_changes_nothing() {
    let mut editor = editor_with(vec![], vec![block("b1")]);
    editor.create_row(None, "r1".to_string(), &encode).unwrap();
    let revisions = editor.revisions().len();
    let order = RowOrder { row_id: "r1".to_string(), block_id: "zz".to_string(), height: 36 };
    editor.delete_rows(vec![order], &encode).unwrap();
    assert_eq!(editor.get_rows("b1").unwrap().len(), 1);
    assert_eq!(editor.grid_block_snapshots(None).unwrap().len(), 1);
    assert_eq!(editor.revisions().len(), revisions);
}

#[test]
fn inserted_row_keeps_the_last_cell_of_each_field() {
    let mut editor = editor_with(vec![field_meta("a", "A")], vec![block("b1")]);
    let payload = CreateRowMetaPayload {
        row_id: "r".to_string(),
        cell_by_field_id: vec![
            CellMeta { field_id: "a".to_string(), data: "x".to_string() },
            CellMeta { field_id: "a".to_string(), data: "y".to_string() },
        ],
        height: 36,
        visibility: true,
    };
    editor.insert_rows(vec![payload], &encode).unwrap();
    let snapshots = editor.grid_block_snapshots(None).unwrap();
    assert_eq!(snapshots[0].row_metas[0].cell_by_field_id.len(), 1);
    assert_eq!(editor.get_cell_meta("r", "a").unwrap().unwrap().data, "y");
}

#[test]
fn new_editor_refuses_a_row_with_two_cells_of_one_field() {
    let pad = GridMetaPad::new("grid-1".to_string(), vec![field_meta("a", "A")], vec![block("b1")]).unwrap();
    let row = RowMeta {
        id: "r1".to_string(),
        block_id: "b1".to_string(),
        cell_by_field_id: vec![
            CellMeta { field_id: "a".to_string(), data: "x".to_string() },
            CellMeta { field_id: "a".to_string(), data: "y".to_string() },
        ],
        height: 36,
        visibility: true,
    };
    let snapshot = GridBlockSnapshot { block_id: "b1".to_string(), row_metas: vec![row] };
    let err = match ClientGridEditor::new("grid-1", "u".to_string(), pad, 0, vec![snapshot]) {
        Ok(_) => panic!("a row with two cells of one field"),
        Err(e) => e,
    };
    assert_eq!(err.msg, "A row of the snapshots has two cells of one field");
}
