use flowy_grid::entities::{
    FieldChangesetParams, FieldMeta, FieldOrder, FieldType, GridBlockMeta, GridBlockMetaChangeset,
    TypeOptionEntry,
};
use flowy_grid::grid_meta_pad::GridMetaPad;

fn field(id: &str, name: &str) -> FieldMeta {
    FieldMeta {
        id: id.to_string(),
        name: name.to_string(),
        desc: String::new(),
        field_type: FieldType::RichText,
        frozen: false,
        visibility: true,
        width: 150,
        type_options: vec![TypeOptionEntry { field_type: FieldType::RichText, data: "{}".to_string() }],
    }
}

fn block(id: &str, start: i32, count: i32) -> GridBlockMeta {
    GridBlockMeta { block_id: id.to_string(), start_row_index: start, row_count: count }
}

fn ids(pad: &GridMetaPad) -> Vec<String> {
    pad.fields().iter().map(|f| f.id.clone()).collect()
}

fn empty_changeset(id: &str) -> FieldChangesetParams {
    FieldChangesetParams {
        field_id: id.to_string(),
        grid_id: "g".to_string(),
        name: None,
        desc: None,
        field_type: None,
        frozen: None,
        visibility: None,
        width: None,
        type_option_data: None,
    }
}

#[test]
fn pad_rejects_duplicate_field_ids() {
    let res = GridMetaPad::new("g".to_string(), vec![field("a", "A"), field("a", "B")], vec![]);
    assert!(res.is_err());
    let res = GridMetaPad::new("g".to_string(), vec![], vec![block("b", 0, 0), block("b", 0, 0)]);
    assert!(res.is_err());
    let res = GridMetaPad::new("g".to_string(), vec![field("a", "A"), field("b", "B")], vec![block("b", 0, 0)]);
    assert!(res.is_ok());
}

#[test]
fn pad_creates_field_before_start_field() {
    let mut pad = GridMetaPad::new("g".to_string(), vec![field("a", "A"), field("b", "B")], vec![]).unwrap();
    assert!(pad.create_field(field("c", "C"), Some("b".to_string())));
    assert_eq!(ids(&pad), vec!["a", "c", "b"]);
    assert!(pad.create_field(field("d", "D"), Some("missing".to_string())));
    assert!(pad.create_field(field("e", "E"), None));
    assert_eq!(ids(&pad), vec!["a", "c", "b", "d", "e"]);
    // a field whose id exists changes nothing
    assert!(!pad.create_field(field("a", "Other"), None));
    assert_eq!(pad.get_field("a").unwrap().name, "A");
}

#[test]
fn pad_updates_field_and_type_option() {
    let mut pad = GridMetaPad::new("g".to_string(), vec![field("a", "A")], vec![]).unwrap();
    let mut cs = empty_changeset("a");
    assert!(!pad.update_field(cs, None));
    cs = empty_changeset("a");
    cs.name = Some("Renamed".to_string());
    cs.field_type = Some(FieldType::Number);
    cs.width = Some(99);
    cs.type_option_data = Some(vec![1]);
    assert!(pad.update_field(cs, Some("{\"format\":1}".to_string())));
    let f = pad.get_field("a").unwrap();
    assert_eq!(f.name, "Renamed");
    assert_eq!(f.field_type, FieldType::Number);
    assert_eq!(f.width, 99);
    assert_eq!(f.type_options.len(), 2);
    assert_eq!(f.type_options[1].field_type, FieldType::Number);
    assert_eq!(f.type_options[1].data, "{\"format\":1}");
    // a second type option for the same type replaces the first
    let mut cs = empty_changeset("a");
    cs.type_option_data = Some(vec![2]);
    assert!(pad.update_field(cs, Some("{\"format\":2}".to_string())));
    let f = pad.get_field("a").unwrap();
    assert_eq!(f.type_options.len(), 2);
    assert_eq!(f.type_options[1].data, "{\"format\":2}");
    let mut cs = empty_changeset("zzz");
    cs.name = Some("x".to_string());
    assert!(!pad.update_field(cs, None));
}

#[test]
fn pad_deletes_and_duplicates_fields() {
    let mut pad = GridMetaPad::new("g".to_string(), vec![field("a", "A"), field("b", "B")], vec![]).unwrap();
    assert!(pad.duplicate_field("a", "a2".to_string()));
    assert_eq!(ids(&pad), vec!["a", "a2", "b"]);
    assert_eq!(pad.get_field("a2").unwrap().name, "A (copy)");
    assert!(!pad.duplicate_field("a", "b".to_string()));
    assert!(!pad.duplicate_field("missing", "x".to_string()));
    assert!(pad.delete_field("a"));
    assert!(!pad.contain_field("a"));
    assert!(!pad.delete_field("a"));
    assert_eq!(ids(&pad), vec!["a2", "b"]);
}

#[test]
fn pad_switches_field_type() {
    let mut pad = GridMetaPad::new("g".to_string(), vec![field("a", "A")], vec![]).unwrap();
    assert!(pad.switch_to_field("a", FieldType::Checkbox, "{\"check\":true}".to_string()));
    let f = pad.get_field("a").unwrap();
    assert_eq!(f.field_type, FieldType::Checkbox);
    assert_eq!(f.type_options.len(), 2);
    // switching back keeps the existing type option
    assert!(pad.switch_to_field("a", FieldType::RichText, "ignored".to_string()));
    let f = pad.get_field("a").unwrap();
    assert_eq!(f.type_options.len(), 2);
    assert_eq!(f.type_options[0].data, "{}");
    assert!(!pad.switch_to_field("missing", FieldType::Number, String::new()));
}

#[test]
fn pad_field_metas_by_orders() {
    let pad = GridMetaPad::new("g".to_string(), vec![field("a", "A"), field("b", "B"), field("c", "C")], vec![])
        .unwrap();
    let orders = vec![
        FieldOrder { field_id: "c".to_string() },
        FieldOrder { field_id: "nope".to_string() },
        FieldOrder { field_id: "a".to_string() },
    ];
    let metas = pad.get_field_metas(Some(orders));
    let got: Vec<String> = metas.iter().map(|f| f.id.clone()).collect();
    assert_eq!(got, vec!["c", "a"]);
    assert_eq!(pad.get_field_metas(None).len(), 3);
    let orders = pad.get_field_orders();
    let all = pad.get_field_metas(Some(orders));
    let got: Vec<String> = all.iter().map(|f| f.id.clone()).collect();
    assert_eq!(got, vec!["a", "b", "c"]);
}

#[test]
fn pad_blocks() {
    let mut pad = GridMetaPad::new("g".to_string(), vec![], vec![block("b1", 0, 3)]).unwrap();
    assert!(pad.create_block_meta(block("b2", 3, 0)));
    assert!(!pad.create_block_meta(block("b1", 9, 9)));
    assert_eq!(pad.get_block_metas().len(), 2);
    let cs = GridBlockMetaChangeset::from_row_count(&"b2".to_string(), 7);
    assert!(pad.update_block_meta(cs));
    let blocks = pad.get_block_metas();
    assert_eq!(blocks[1].row_count, 7);
    assert_eq!(blocks[1].start_row_index, 3);
    let cs = GridBlockMetaChangeset { block_id: "b1".to_string(), start_row_index: None, row_count: None };
    assert!(!pad.update_block_meta(cs));
    let cs = GridBlockMetaChangeset { block_id: "none".to_string(), start_row_index: Some(1), row_count: None };
    assert!(!pad.update_block_meta(cs));
}
