//! The grid's data model: fields, blocks, rows and cells, and the parameter
//! and changeset types that the editor takes.
//!
//! Maps keyed by an id (a row's cells, a field's type options) are held as
//! vectors of entries. A vector of cells is read as a map in which the last
//! entry for a field id counts, which is what collecting the same entries into
//! a hash map gives; the rows that the grid keeps hold at most one cell for
//! each field.
use vstd::prelude::*;

verus! {

/// The kind of data that a field holds.
#[derive(Clone, Copy, PartialEq, Eq, Structural, Debug)]
pub enum FieldType {
    RichText,
    Number,
    DateTime,
    SingleSelect,
    MultiSelect,
    Checkbox,
}

/// Width, in points, that a new field of the given type starts with.
pub open spec fn spec_default_cell_width(field_type: FieldType) -> i32 {
    match field_type {
        FieldType::DateTime => 180i32,
        _ => 150i32,
    }
}

impl FieldType {
    /// Width that a new field of this type starts with.
    pub fn default_cell_width(&self) -> (width: i32)
        ensures
            width == spec_default_cell_width(*self),
    {
        match self {
            FieldType::DateTime => 180,
            _ => 150,
        }
    }
}

/// The type option of a field for one field type, as a JSON string.
#[derive(Debug)]
pub struct TypeOptionEntry {
    pub field_type: FieldType,
    pub data: String,
}

impl Clone for TypeOptionEntry {
    fn clone(&self) -> (res: Self)
        ensures
            res == *self,
    {
        TypeOptionEntry { field_type: self.field_type, data: self.data.clone() }
    }
}

/// A column of the grid, with everything that the grid stores about it.
#[derive(Debug)]
pub struct FieldMeta {
    pub id: String,
    pub name: String,
    pub desc: String,
    pub field_type: FieldType,
    pub frozen: bool,
    pub visibility: bool,
    pub width: i32,
    pub type_options: Vec<TypeOptionEntry>,
}

/// A field meta as a value: its strings as character sequences and its type
/// options as a sequence.
pub struct FieldMetaView {
    pub id: Seq<char>,
    pub name: Seq<char>,
    pub desc: Seq<char>,
    pub field_type: FieldType,
    pub frozen: bool,
    pub visibility: bool,
    pub width: i32,
    pub type_options: Seq<TypeOptionEntry>,
}

impl View for FieldMeta {
    type V = FieldMetaView;

    open spec fn view(&self) -> FieldMetaView {
        FieldMetaView {
            id: self.id@,
            name: self.name@,
            desc: self.desc@,
            field_type: self.field_type,
            frozen: self.frozen,
            visibility: self.visibility,
            width: self.width,
            type_options: self.type_options@,
        }
    }
}

/// The values of a sequence of field metas.
pub open spec fn field_views(fields: Seq<FieldMeta>) -> Seq<FieldMetaView> {
    fields.map_values(|f: FieldMeta| f@)
}

/// A copy of a vector of type options.
pub fn clone_type_options(v: &Vec<TypeOptionEntry>) -> (res: Vec<TypeOptionEntry>)
    ensures
        res@ == v@,
{
    let res = v.clone();
    assert(res@ =~= v@);
    res
}

impl Clone for FieldMeta {
    fn clone(&self) -> (res: Self)
        ensures
            res@ == self@,
    {
        FieldMeta {
            id: self.id.clone(),
            name: self.name.clone(),
            desc: self.desc.clone(),
            field_type: self.field_type,
            frozen: self.frozen,
            visibility: self.visibility,
            width: self.width,
            type_options: clone_type_options(&self.type_options),
        }
    }
}

/// The public description of a field, without its type options.
#[derive(Debug)]
pub struct Field {
    pub id: String,
    pub name: String,
    pub desc: String,
    pub field_type: FieldType,
    pub frozen: bool,
    pub visibility: bool,
    pub width: i32,
}

impl Clone for Field {
    fn clone(&self) -> (res: Self)
        ensures
            res == *self,
    {
        Field {
            id: self.id.clone(),
            name: self.name.clone(),
            desc: self.desc.clone(),
            field_type: self.field_type,
            frozen: self.frozen,
            visibility: self.visibility,
            width: self.width,
        }
    }
}

/// A field as a value.
pub struct FieldView {
    pub id: Seq<char>,
    pub name: Seq<char>,
    pub desc: Seq<char>,
    pub field_type: FieldType,
    pub frozen: bool,
    pub visibility: bool,
    pub width: i32,
}

impl View for Field {
    type V = FieldView;

    open spec fn view(&self) -> FieldView {
        FieldView {
            id: self.id@,
            name: self.name@,
            desc: self.desc@,
            field_type: self.field_type,
            frozen: self.frozen,
            visibility: self.visibility,
            width: self.width,
        }
    }
}

/// The field that a field meta describes.
pub open spec fn field_view_of(meta: FieldMetaView) -> FieldView {
    FieldView {
        id: meta.id,
        name: meta.name,
        desc: meta.desc,
        field_type: meta.field_type,
        frozen: meta.frozen,
        visibility: meta.visibility,
        width: meta.width,
    }
}

/// The values of a sequence of fields.
pub open spec fn field_list_views(fields: Seq<Field>) -> Seq<FieldView> {
    fields.map_values(|f: Field| f@)
}

impl Field {
    /// The field that a field meta describes.
    pub fn from_field_meta(meta: FieldMeta) -> (field: Field)
        ensures
            field@ == field_view_of(meta@),
    {
        Field {
            id: meta.id,
            name: meta.name,
            desc: meta.desc,
            field_type: meta.field_type,
            frozen: meta.frozen,
            visibility: meta.visibility,
            width: meta.width,
        }
    }
}

/// Names a field in a requested order of fields.
#[derive(Debug)]
pub struct FieldOrder {
    pub field_id: String,
}

impl Clone for FieldOrder {
    fn clone(&self) -> (res: Self)
        ensures
            res == *self,
    {
        FieldOrder { field_id: self.field_id.clone() }
    }
}

/// A block of rows of the grid: where its rows start, and how many it has.
#[derive(Debug)]
pub struct GridBlockMeta {
    pub block_id: String,
    pub start_row_index: i32,
    pub row_count: i32,
}

impl Clone for GridBlockMeta {
    fn clone(&self) -> (res: Self)
        ensures
            res == *self,
    {
        GridBlockMeta {
            block_id: self.block_id.clone(),
            start_row_index: self.start_row_index,
            row_count: self.row_count,
        }
    }
}

/// A change to a block's metadata; each `Some` replaces the block's value.
#[derive(Debug)]
pub struct GridBlockMetaChangeset {
    pub block_id: String,
    pub start_row_index: Option<i32>,
    pub row_count: Option<i32>,
}

impl GridBlockMetaChangeset {
    /// The changeset that sets a block's row count and nothing else.
    pub fn from_row_count(block_id: &String, row_count: i32) -> (changeset: Self)
        ensures
            changeset.block_id == *block_id,
            changeset.start_row_index.is_none(),
            changeset.row_count == Some(row_count),
    {
        GridBlockMetaChangeset { block_id: block_id.clone(), start_row_index: None, row_count: Some(row_count) }
    }
}

/// Names a block in the grid's list of blocks.
#[derive(Debug)]
pub struct GridBlockOrder {
    pub block_id: String,
}

/// What a client needs to lay out a grid: its id and the order of its fields
/// and blocks.
#[derive(Debug)]
pub struct Grid {
    pub id: String,
    pub field_orders: Vec<FieldOrder>,
    pub block_orders: Vec<GridBlockOrder>,
}

/// A change to a field; each `Some` replaces the field's value. The type
/// option, when given, is in the encoded form that a client sends.
#[derive(Debug)]
pub struct FieldChangesetParams {
    pub field_id: String,
    pub grid_id: String,
    pub name: Option<String>,
    pub desc: Option<String>,
    pub field_type: Option<FieldType>,
    pub frozen: Option<bool>,
    pub visibility: Option<bool>,
    pub width: Option<i32>,
    pub type_option_data: Option<Vec<u8>>,
}

/// A request to create a field, or to overwrite the field with the same id,
/// placed before the field `start_field_id` when that field exists. The type
/// option is in the encoded form that a client sends.
#[derive(Debug)]
pub struct CreateFieldParams {
    pub grid_id: String,
    pub field: Field,
    pub type_option_data: Vec<u8>,
    pub start_field_id: Option<String>,
}

/// The data stored in one cell of a row.
#[derive(Debug)]
pub struct CellMeta {
    pub field_id: String,
    pub data: String,
}

impl Clone for CellMeta {
    fn clone(&self) -> (res: Self)
        ensures
            res == *self,
    {
        CellMeta { field_id: self.field_id.clone(), data: self.data.clone() }
    }
}

/// A copy of a vector of cells.
pub fn clone_cells(v: &Vec<CellMeta>) -> (res: Vec<CellMeta>)
    ensures
        res@ == v@,
{
    let res = v.clone();
    assert(res@ =~= v@);
    res
}

/// Whether no two cells are of one field: the cells as a map keyed by field
/// id. The rows that the grid keeps have such cells.
pub open spec fn cell_fields_unique(cells: Seq<CellMeta>) -> bool {
    forall|i: int, j: int|
        0 <= i < cells.len() && 0 <= j < cells.len() && i != j ==> #[trigger] cells[i].field_id@
            != #[trigger] cells[j].field_id@
}

/// A row of a block with its cells, at most one for each field.
#[derive(Debug)]
pub struct RowMeta {
    pub id: String,
    pub block_id: String,
    pub cell_by_field_id: Vec<CellMeta>,
    pub height: i32,
    pub visibility: bool,
}

/// A row meta as a value.
pub struct RowMetaView {
    pub id: Seq<char>,
    pub block_id: Seq<char>,
    pub cells: Seq<CellMeta>,
    pub height: i32,
    pub visibility: bool,
}

impl View for RowMeta {
    type V = RowMetaView;

    open spec fn view(&self) -> RowMetaView {
        RowMetaView {
            id: self.id@,
            block_id: self.block_id@,
            cells: self.cell_by_field_id@,
            height: self.height,
            visibility: self.visibility,
        }
    }
}

/// The values of a sequence of row metas.
pub open spec fn row_views(rows: Seq<RowMeta>) -> Seq<RowMetaView> {
    rows.map_values(|r: RowMeta| r@)
}

impl Clone for RowMeta {
    fn clone(&self) -> (res: Self)
        ensures
            res@ == self@,
    {
        RowMeta {
            id: self.id.clone(),
            block_id: self.block_id.clone(),
            cell_by_field_id: clone_cells(&self.cell_by_field_id),
            height: self.height,
            visibility: self.visibility,
        }
    }
}

/// A change to a row: a new height, a new visibility, and cells to set.
#[derive(Debug)]
pub struct RowMetaChangeset {
    pub row_id: String,
    pub height: Option<i32>,
    pub visibility: Option<bool>,
    pub cell_by_field_id: Vec<CellMeta>,
}

/// A change to one cell; `None` data changes nothing.
#[derive(Debug)]
pub struct CellMetaChangeset {
    pub grid_id: String,
    pub row_id: String,
    pub field_id: String,
    pub data: Option<String>,
}

impl RowMetaChangeset {
    /// The row changeset that a cell changeset amounts to: the cell alone,
    /// where the changeset holds data.
    pub fn from_cell_changeset(changeset: CellMetaChangeset) -> (res: RowMetaChangeset)
        ensures
            res.row_id == changeset.row_id,
            res.height.is_none(),
            res.visibility.is_none(),
            res.cell_by_field_id@ == (match changeset.data {
                Some(data) => seq![CellMeta { field_id: changeset.field_id, data }],
                None => Seq::<CellMeta>::empty(),
            }),
    {
        let mut cells: Vec<CellMeta> = Vec::new();
        match changeset.data {
            Some(data) => {
                cells.push(CellMeta { field_id: changeset.field_id, data });
            },
            None => {},
        }
        RowMetaChangeset { row_id: changeset.row_id, height: None, visibility: None, cell_by_field_id: cells }
    }
}

/// What a new row is made from.
#[derive(Debug)]
pub struct CreateRowMetaPayload {
    pub row_id: String,
    pub cell_by_field_id: Vec<CellMeta>,
    pub height: i32,
    pub visibility: bool,
}

/// Where a row stands: its id, its block and its height.
#[derive(Debug)]
pub struct RowOrder {
    pub row_id: String,
    pub block_id: String,
    pub height: i32,
}

impl Clone for RowOrder {
    fn clone(&self) -> (res: Self)
        ensures
            res == *self,
    {
        RowOrder { row_id: self.row_id.clone(), block_id: self.block_id.clone(), height: self.height }
    }
}

/// Whether a row order places the given row.
pub open spec fn orders(order: RowOrder, row: RowMetaView) -> bool {
    &&& order.row_id@ == row.id
    &&& order.block_id@ == row.block_id
    &&& order.height == row.height
}

impl RowOrder {
    /// The order of a row meta.
    pub fn from_row_meta(row: &RowMeta) -> (order: RowOrder)
        ensures
            orders(order, row@),
    {
        RowOrder { row_id: row.id.clone(), block_id: row.block_id.clone(), height: row.height }
    }
}

/// A cell as a client sees it.
#[derive(Debug)]
pub struct Cell {
    pub field_id: String,
    pub content: String,
}

/// A row as a client sees it.
#[derive(Debug)]
pub struct Row {
    pub id: String,
    pub cell_by_field_id: Vec<Cell>,
    pub height: i32,
}

/// A row as a value.
pub struct RowView {
    pub id: Seq<char>,
    pub cells: Seq<Cell>,
    pub height: i32,
}

impl View for Row {
    type V = RowView;

    open spec fn view(&self) -> RowView {
        RowView { id: self.id@, cells: self.cell_by_field_id@, height: self.height }
    }
}

/// A block as a client sees it: its id and the order of its rows.
#[derive(Debug)]
pub struct GridBlock {
    pub id: String,
    pub row_orders: Vec<RowOrder>,
}

/// The rows of one block at one moment.
#[derive(Debug)]
pub struct GridBlockSnapshot {
    pub block_id: String,
    pub row_metas: Vec<RowMeta>,
}

/// What went wrong.
#[derive(Clone, Copy, PartialEq, Eq, Structural, Debug)]
pub enum ErrorCode {
    /// A field that an update names is not in the grid.
    FieldDoesNotExist,
    /// Any other failure; the message says which.
    Internal,
}

/// An error of the grid, with a code and a message.
#[derive(Debug)]
pub struct FlowyError {
    pub code: ErrorCode,
    pub msg: String,
}

impl FlowyError {
    /// An internal error with the given message.
    pub fn internal(msg: String) -> (err: FlowyError)
        ensures
            err.code == ErrorCode::Internal,
            err.msg == msg,
    {
        FlowyError { code: ErrorCode::Internal, msg }
    }

    /// An error with the given code and no message.
    pub fn from_code(code: ErrorCode) -> (err: FlowyError)
        ensures
            err.code == code,
            err.msg@ == Seq::<char>::empty(),
    {
        FlowyError { code, msg: String::new() }
    }
}

/// The grid's metadata as one document: its id, fields and blocks.
#[derive(Debug)]
pub struct GridMeta {
    pub grid_id: String,
    pub fields: Vec<FieldMeta>,
    pub blocks: Vec<GridBlockMeta>,
}

/// The grid's metadata as a value.
pub struct GridMetaView {
    pub grid_id: Seq<char>,
    pub fields: Seq<FieldMetaView>,
    pub blocks: Seq<GridBlockMeta>,
}

impl View for GridMeta {
    type V = GridMetaView;

    open spec fn view(&self) -> GridMetaView {
        GridMetaView { grid_id: self.grid_id@, fields: field_views(self.fields@), blocks: self.blocks@ }
    }
}

/// One change of the grid's metadata document: the delta from the document
/// before to the document after, and the md5 of the document after.
#[derive(Debug)]
pub struct GridChangeset {
    pub delta: Vec<u8>,
    pub md5: String,
}

/// A change of the grid's metadata document, as a value.
pub struct GridChangesetView {
    pub delta: Seq<u8>,
    pub md5: Seq<char>,
}

impl View for GridChangeset {
    type V = GridChangesetView;

    open spec fn view(&self) -> GridChangesetView {
        GridChangesetView { delta: self.delta@, md5: self.md5@ }
    }
}

} // verus!
