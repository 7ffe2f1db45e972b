//! The grid's metadata: its fields and its blocks, and the edits on them.
//!
//! Every edit reports whether it changed the grid; the editor records a
//! revision for each edit that did.
use vstd::prelude::*;
use vstd::string::*;
use crate::entities::{
    ErrorCode, FieldChangesetParams, FieldMeta, FieldMetaView, FieldOrder, FieldType, FlowyError, GridBlockMeta,
    GridBlockMetaChangeset, GridMeta, GridMetaView, TypeOptionEntry, field_views,
};

verus! {

// ---------------------------------------------------------------------------
// Specification of fields

/// No two fields share an id.
pub open spec fn field_ids_unique(fields: Seq<FieldMetaView>) -> bool {
    forall|i: int, j: int|
        0 <= i < fields.len() && 0 <= j < fields.len() && i != j ==> #[trigger] fields[i].id
            != #[trigger] fields[j].id
}

/// Whether a field with the given id is in the sequence.
pub open spec fn has_field(fields: Seq<FieldMetaView>, id: Seq<char>) -> bool {
    exists|i: int| 0 <= i < fields.len() && #[trigger] fields[i].id == id
}

/// The position of the field with the given id.
pub open spec fn field_index(fields: Seq<FieldMetaView>, id: Seq<char>) -> int
    recommends
        has_field(fields, id),
{
    choose|i: int| 0 <= i < fields.len() && #[trigger] fields[i].id == id
}

/// What a pad that holds `fields` holds after a new field is created: the
/// field, placed before the field `start` where that field exists and at
/// the end otherwise; nothing changes where a field with its id exists.
pub open spec fn fields_after_create(
    fields: Seq<FieldMetaView>,
    field: FieldMetaView,
    start: Option<Seq<char>>,
) -> Seq<FieldMetaView> {
    if has_field(fields, field.id) {
        fields
    } else {
        match start {
            Some(start_id) => if has_field(fields, start_id) {
                fields.insert(field_index(fields, start_id), field)
            } else {
                fields.push(field)
            },
            None => fields.push(field),
        }
    }
}

/// The type options without those of the given field type.
pub open spec fn without_type_option(opts: Seq<TypeOptionEntry>, field_type: FieldType) -> Seq<
    TypeOptionEntry,
>
    decreases opts.len(),
{
    if opts.len() == 0 {
        opts
    } else {
        let rest = without_type_option(opts.drop_last(), field_type);
        if opts.last().field_type == field_type {
            rest
        } else {
            rest.push(opts.last())
        }
    }
}

/// The type options with `entry` as the type option of its field type.
pub open spec fn insert_type_option(opts: Seq<TypeOptionEntry>, entry: TypeOptionEntry) -> Seq<
    TypeOptionEntry,
> {
    without_type_option(opts, entry.field_type).push(entry)
}

/// Whether the type options hold one for the given field type.
pub open spec fn has_type_option(opts: Seq<TypeOptionEntry>, field_type: FieldType) -> bool {
    exists|i: int| 0 <= i < opts.len() && #[trigger] opts[i].field_type == field_type
}

/// Whether a field changeset, with its type option as JSON, changes
/// anything.
pub open spec fn changeset_changes(cs: FieldChangesetParams, type_option: Option<String>) -> bool {
    ||| cs.name.is_some()
    ||| cs.desc.is_some()
    ||| cs.field_type.is_some()
    ||| cs.frozen.is_some()
    ||| cs.visibility.is_some()
    ||| cs.width.is_some()
    ||| type_option.is_some()
}

/// A field after a changeset whose type option, if any, is the JSON
/// `type_option`: each given value replaces the field's, and the type option
/// becomes that of the field's type after the change.
pub open spec fn apply_field_changeset(f: FieldMetaView, cs: FieldChangesetParams, type_option: Option<String>) -> FieldMetaView {
    let field_type = match cs.field_type {
        Some(t) => t,
        None => f.field_type,
    };
    FieldMetaView {
        id: f.id,
        name: match cs.name {
            Some(n) => n@,
            None => f.name,
        },
        desc: match cs.desc {
            Some(d) => d@,
            None => f.desc,
        },
        field_type,
        frozen: match cs.frozen {
            Some(b) => b,
            None => f.frozen,
        },
        visibility: match cs.visibility {
            Some(b) => b,
            None => f.visibility,
        },
        width: match cs.width {
            Some(w) => w,
            None => f.width,
        },
        type_options: match type_option {
            Some(data) => insert_type_option(
                f.type_options,
                TypeOptionEntry { field_type, data },
            ),
            None => f.type_options,
        },
    }
}

/// A field after it is switched to another field type: it gets the default
/// type option of that type if it has none for it.
pub open spec fn switch_field_type(f: FieldMetaView, field_type: FieldType, default_type_option: String) -> FieldMetaView {
    FieldMetaView {
        field_type,
        type_options: if has_type_option(f.type_options, field_type) {
            f.type_options
        } else {
            f.type_options.push(TypeOptionEntry { field_type, data: default_type_option })
        },
        ..f
    }
}

/// The copy of a field that duplicating it makes: a new id, and the name
/// followed by " (copy)".
pub open spec fn duplicate_of(f: FieldMetaView, new_id: Seq<char>) -> FieldMetaView {
    FieldMetaView { id: new_id, name: f.name + " (copy)"@, ..f }
}

/// The fields that a list of field orders names, in the order of the list;
/// an order that names no field gives nothing.
pub open spec fn fields_for_orders(fields: Seq<FieldMetaView>, orders: Seq<FieldOrder>) -> Seq<FieldMetaView>
    decreases orders.len(),
{
    if orders.len() == 0 {
        Seq::empty()
    } else {
        let rest = fields_for_orders(fields, orders.drop_last());
        let id = orders.last().field_id@;
        if has_field(fields, id) {
            rest.push(fields[field_index(fields, id)])
        } else {
            rest
        }
    }
}

/// The character sequence of an optional string.
pub open spec fn opt_view(o: Option<String>) -> Option<Seq<char>> {
    match o {
        Some(s) => Some(s@),
        None => None,
    }
}

// ---------------------------------------------------------------------------
// Specification of blocks

/// No two blocks share an id.
pub open spec fn block_ids_unique(blocks: Seq<GridBlockMeta>) -> bool {
    forall|i: int, j: int|
        0 <= i < blocks.len() && 0 <= j < blocks.len() && i != j ==> #[trigger] blocks[i].block_id@
            != #[trigger] blocks[j].block_id@
}

/// Whether a block with the given id is in the sequence.
pub open spec fn has_block(blocks: Seq<GridBlockMeta>, id: Seq<char>) -> bool {
    exists|i: int| 0 <= i < blocks.len() && #[trigger] blocks[i].block_id@ == id
}

/// The position of the block with the given id.
pub open spec fn block_index(blocks: Seq<GridBlockMeta>, id: Seq<char>) -> int
    recommends
        has_block(blocks, id),
{
    choose|i: int| 0 <= i < blocks.len() && #[trigger] blocks[i].block_id@ == id
}

/// Whether a block changeset changes anything.
pub open spec fn block_changeset_changes(cs: GridBlockMetaChangeset) -> bool {
    cs.start_row_index.is_some() || cs.row_count.is_some()
}

/// A block after a changeset.
pub open spec fn apply_block_changeset(b: GridBlockMeta, cs: GridBlockMetaChangeset) -> GridBlockMeta {
    GridBlockMeta {
        block_id: b.block_id,
        start_row_index: match cs.start_row_index {
            Some(i) => i,
            None => b.start_row_index,
        },
        row_count: match cs.row_count {
            Some(c) => c,
            None => b.row_count,
        },
    }
}

/// The blocks after a changeset: the named block changes, where it exists.
pub open spec fn blocks_after_update(blocks: Seq<GridBlockMeta>, cs: GridBlockMetaChangeset) -> Seq<GridBlockMeta> {
    if has_block(blocks, cs.block_id@) {
        let i = block_index(blocks, cs.block_id@);
        blocks.update(i, apply_block_changeset(blocks[i], cs))
    } else {
        blocks
    }
}

// ---------------------------------------------------------------------------
// Lemmas

/// In a sequence of unique ids, a position holding the id is its index.
pub proof fn lemma_field_index_unique(fields: Seq<FieldMetaView>, id: Seq<char>, i: int)
    requires
        field_ids_unique(fields),
        0 <= i < fields.len(),
        fields[i].id == id,
    ensures
        has_field(fields, id),
        field_index(fields, id) == i,
{
    assert(has_field(fields, id));
}

/// In a sequence of unique block ids, a position holding the id is its index.
pub proof fn lemma_block_index_unique(blocks: Seq<GridBlockMeta>, id: Seq<char>, i: int)
    requires
        block_ids_unique(blocks),
        0 <= i < blocks.len(),
        blocks[i].block_id@ == id,
    ensures
        has_block(blocks, id),
        block_index(blocks, id) == i,
{
    assert(has_block(blocks, id));
}

/// Inserting a field whose id is new keeps the ids unique.
pub proof fn lemma_insert_keeps_unique(fields: Seq<FieldMetaView>, k: int, f: FieldMetaView)
    requires
        field_ids_unique(fields),
        !has_field(fields, f.id),
        0 <= k <= fields.len(),
    ensures
        field_ids_unique(fields.insert(k, f)),
{
    let s = fields.insert(k, f);
    assert forall|i: int, j: int| 0 <= i < s.len() && 0 <= j < s.len() && i != j implies #[trigger] s[i].id
        != #[trigger] s[j].id by {
        let oi = if i < k { i } else { i - 1 };
        let oj = if j < k { j } else { j - 1 };
        if i == k {
            assert(s[j] == fields[oj]);
        } else if j == k {
            assert(s[i] == fields[oi]);
        } else {
            assert(s[i] == fields[oi]);
            assert(s[j] == fields[oj]);
        }
    }
}

/// Replacing a field by one with the same id keeps the ids unique.
pub proof fn lemma_update_keeps_unique(fields: Seq<FieldMetaView>, k: int, f: FieldMetaView)
    requires
        field_ids_unique(fields),
        0 <= k < fields.len(),
        fields[k].id == f.id,
    ensures
        field_ids_unique(fields.update(k, f)),
{
    let s = fields.update(k, f);
    assert forall|i: int, j: int| 0 <= i < s.len() && 0 <= j < s.len() && i != j implies #[trigger] s[i].id
        != #[trigger] s[j].id by {
        assert(s[i].id == fields[i].id);
        assert(s[j].id == fields[j].id);
    }
}

/// Removing a field keeps the ids unique.
pub proof fn lemma_remove_keeps_unique(fields: Seq<FieldMetaView>, k: int)
    requires
        field_ids_unique(fields),
        0 <= k < fields.len(),
    ensures
        field_ids_unique(fields.remove(k)),
{
    let s = fields.remove(k);
    assert forall|i: int, j: int| 0 <= i < s.len() && 0 <= j < s.len() && i != j implies #[trigger] s[i].id
        != #[trigger] s[j].id by {
        let oi = if i < k { i } else { i + 1 };
        let oj = if j < k { j } else { j + 1 };
        assert(s[i] == fields[oi]);
        assert(s[j] == fields[oj]);
    }
}

/// Replacing a block by one with the same id keeps the block ids unique.
pub proof fn lemma_block_update_keeps_unique(blocks: Seq<GridBlockMeta>, k: int, b: GridBlockMeta)
    requires
        block_ids_unique(blocks),
        0 <= k < blocks.len(),
        blocks[k].block_id@ == b.block_id@,
    ensures
        block_ids_unique(blocks.update(k, b)),
{
    let s = blocks.update(k, b);
    assert forall|i: int, j: int| 0 <= i < s.len() && 0 <= j < s.len() && i != j implies #[trigger] s[i].block_id@
        != #[trigger] s[j].block_id@ by {
        assert(s[i].block_id@ == blocks[i].block_id@);
        assert(s[j].block_id@ == blocks[j].block_id@);
    }
}

/// The view of a vector after an insertion is the insertion into its view.
pub proof fn lemma_views_insert(v: Seq<FieldMeta>, k: int, f: FieldMeta)
    requires
        0 <= k <= v.len(),
    ensures
        field_views(v.insert(k, f)) == field_views(v).insert(k, f@),
{
    assert(field_views(v.insert(k, f)) =~= field_views(v).insert(k, f@));
}

/// The view of a vector after a push is the push onto its view.
pub proof fn lemma_views_push(v: Seq<FieldMeta>, f: FieldMeta)
    ensures
        field_views(v.push(f)) == field_views(v).push(f@),
{
    assert(field_views(v.push(f)) =~= field_views(v).push(f@));
}

/// The view of a vector after a removal is the removal from its view.
pub proof fn lemma_views_remove(v: Seq<FieldMeta>, k: int)
    requires
        0 <= k < v.len(),
    ensures
        field_views(v.remove(k)) == field_views(v).remove(k),
{
    assert(field_views(v.remove(k)) =~= field_views(v).remove(k));
}

/// The view of a vector after an element is replaced.
pub proof fn lemma_views_update(v: Seq<FieldMeta>, k: int, f: FieldMeta)
    requires
        0 <= k < v.len(),
    ensures
        field_views(v.update(k, f)) == field_views(v).update(k, f@),
{
    assert(field_views(v.update(k, f)) =~= field_views(v).update(k, f@));
}

// ---------------------------------------------------------------------------
// Executable type option helpers

/// The type options with `entry` as the type option of its field type.
pub fn insert_type_option_vec(opts: Vec<TypeOptionEntry>, entry: TypeOptionEntry) -> (res: Vec<TypeOptionEntry>)
    ensures
        res@ == insert_type_option(opts@, entry),
{
    let mut kept: Vec<TypeOptionEntry> = Vec::new();
    let mut i: usize = 0;
    let n = opts.len();
    while i < n
        invariant
            n == opts.len(),
            i <= n,
            kept@ == without_type_option(opts@.take(i as int), entry.field_type),
        decreases n - i,
    {
        assert(opts@.take(i as int + 1).drop_last() =~= opts@.take(i as int));
        if opts[i].field_type != entry.field_type {
            kept.push(opts[i].clone());
        }
        i = i + 1;
    }
    assert(opts@.take(n as int) =~= opts@);
    kept.push(entry);
    kept
}

/// Whether the type options hold one for the given field type.
pub fn has_type_option_vec(opts: &Vec<TypeOptionEntry>, field_type: FieldType) -> (res: bool)
    ensures
        res == has_type_option(opts@, field_type),
{
    let mut i: usize = 0;
    while i < opts.len()
        invariant
            i <= opts.len(),
            forall|k: int| 0 <= k < i ==> opts@[k].field_type != field_type,
        decreases opts.len() - i,
    {
        if opts[i].field_type == field_type {
            assert(opts@[i as int].field_type == field_type);
            return true;
        }
        i = i + 1;
    }
    false
}

/// A field after a changeset, and whether the changeset changes anything.
pub fn apply_changeset_to_field(field: FieldMeta, changeset: FieldChangesetParams, type_option: Option<String>) -> (res: (
    FieldMeta,
    bool,
))
    ensures
        res.0@ == apply_field_changeset(field@, changeset, type_option),
        res.1 == changeset_changes(changeset, type_option),
{
    let ghost cs = changeset;
    let mut field = field;
    let FieldChangesetParams {
        field_id: _,
        grid_id: _,
        name,
        desc,
        field_type,
        frozen,
        visibility,
        width,
        type_option_data: _,
    } = changeset;
    let mut changed = false;
    if let Some(name) = name {
        field.name = name;
        changed = true;
    }
    if let Some(desc) = desc {
        field.desc = desc;
        changed = true;
    }
    if let Some(field_type) = field_type {
        field.field_type = field_type;
        changed = true;
    }
    if let Some(frozen) = frozen {
        field.frozen = frozen;
        changed = true;
    }
    if let Some(visibility) = visibility {
        field.visibility = visibility;
        changed = true;
    }
    if let Some(width) = width {
        field.width = width;
        changed = true;
    }
    if let Some(data) = type_option {
        let entry = TypeOptionEntry { field_type: field.field_type, data };
        let mut opts: Vec<TypeOptionEntry> = Vec::new();
        std::mem::swap(&mut opts, &mut field.type_options);
        field.type_options = insert_type_option_vec(opts, entry);
        changed = true;
    }
    (field, changed)
}

// ---------------------------------------------------------------------------
// The pad

/// The grid's fields and blocks.
pub struct GridMetaPad {
    grid_id: String,
    fields: Vec<FieldMeta>,
    blocks: Vec<GridBlockMeta>,
}

impl GridMetaPad {
    /// The id of the grid.
    pub closed spec fn grid_id_view(&self) -> Seq<char> {
        self.grid_id@
    }

    /// The fields, in their order.
    pub closed spec fn fields_view(&self) -> Seq<FieldMetaView> {
        field_views(self.fields@)
    }

    /// The blocks, in their order.
    pub closed spec fn blocks_view(&self) -> Seq<GridBlockMeta> {
        self.blocks@
    }

    /// No two fields and no two blocks share an id.
    pub open spec fn wf(&self) -> bool {
        &&& field_ids_unique(self.fields_view())
        &&& block_ids_unique(self.blocks_view())
    }

    /// A pad with the given fields and blocks; an error where two fields or
    /// two blocks share an id.
    pub fn new(grid_id: String, fields: Vec<FieldMeta>, blocks: Vec<GridBlockMeta>) -> (res: Result<GridMetaPad, FlowyError>)
        ensures
            match res {
                Ok(pad) => {
                    &&& pad.wf()
                    &&& pad.grid_id_view() == grid_id@
                    &&& pad.fields_view() == field_views(fields@)
                    &&& pad.blocks_view() == blocks@
                },
                Err(e) => {
                    &&& e.code == ErrorCode::Internal
                    &&& if !field_ids_unique(field_views(fields@)) {
                        e.msg@ == "Duplicate field id in the grid"@
                    } else {
                        !block_ids_unique(blocks@) && e.msg@ == "Duplicate block id in the grid"@
                    }
                },
            },
    {
        let mut i: usize = 0;
        while i < fields.len()
            invariant
                i <= fields.len(),
                forall|a: int, b: int|
                    0 <= a < i && 0 <= b < fields.len() && a != b ==> #[trigger] fields@[a].id@ != #[trigger] fields@[b].id@,
            decreases fields.len() - i,
        {
            let mut j: usize = 0;
            while j < fields.len()
                invariant
                    i < fields.len(),
                    j <= fields.len(),
                    forall|a: int, b: int|
                        0 <= a < i && 0 <= b < fields.len() && a != b ==> #[trigger] fields@[a].id@ != #[trigger] fields@[b].id@,
                    forall|b: int| 0 <= b < j && b != i ==> fields@[i as int].id@ != #[trigger] fields@[b].id@,
                decreases fields.len() - j,
            {
                if i != j && fields[i].id == fields[j].id {
                    proof {
                        let fv = field_views(fields@);
                        assert(fv[i as int].id == fv[j as int].id);
                    }
                    return Err(FlowyError::internal(String::from_str("Duplicate field id in the grid")));
                }
                j = j + 1;
            }
            i = i + 1;
        }
        proof {
            let fv = field_views(fields@);
            assert forall|a: int, b: int|
                0 <= a < fv.len() && 0 <= b < fv.len() && a != b implies #[trigger] fv[a].id != #[trigger] fv[b].id by {
                assert(fv[a].id == fields@[a].id@);
                assert(fv[b].id == fields@[b].id@);
            }
        }
        let mut i: usize = 0;
        while i < blocks.len()
            invariant
                field_ids_unique(field_views(fields@)),
                i <= blocks.len(),
                forall|a: int, b: int|
                    0 <= a < i && 0 <= b < blocks.len() && a != b ==> #[trigger] blocks@[a].block_id@ != #[trigger] blocks@[b].block_id@,
            decreases blocks.len() - i,
        {
            let mut j: usize = 0;
            while j < blocks.len()
                invariant
                    field_ids_unique(field_views(fields@)),
                    i < blocks.len(),
                    j <= blocks.len(),
                    forall|a: int, b: int|
                        0 <= a < i && 0 <= b < blocks.len() && a != b ==> #[trigger] blocks@[a].block_id@ != #[trigger] blocks@[b].block_id@,
                    forall|b: int| 0 <= b < j && b != i ==> blocks@[i as int].block_id@ != #[trigger] blocks@[b].block_id@,
                decreases blocks.len() - j,
            {
                if i != j && blocks[i].block_id == blocks[j].block_id {
                    return Err(FlowyError::internal(String::from_str("Duplicate block id in the grid")));
                }
                j = j + 1;
            }
            i = i + 1;
        }
        let pad = GridMetaPad { grid_id, fields, blocks };
        Ok(pad)
    }

    /// The position of the field with the given id.
    fn position_of_field(&self, field_id: &String) -> (res: Option<usize>)
        requires
            self.wf(),
        ensures
            match res {
                Some(i) => {
                    &&& has_field(self.fields_view(), field_id@)
                    &&& i == field_index(self.fields_view(), field_id@)
                    &&& i < self.fields_view().len()
                },
                None => !has_field(self.fields_view(), field_id@),
            },
    {
        let mut i: usize = 0;
        while i < self.fields.len()
            invariant
                self.wf(),
                i <= self.fields@.len(),
                forall|k: int| 0 <= k < i ==> #[trigger] self.fields@[k].id@ != field_id@,
            decreases self.fields.len() - i,
        {
            if self.fields[i].id == *field_id {
                proof {
                    lemma_field_index_unique(self.fields_view(), field_id@, i as int);
                }
                return Some(i);
            }
            i = i + 1;
        }
        proof {
            let fv = self.fields_view();
            assert forall|k: int| 0 <= k < fv.len() implies #[trigger] fv[k].id != field_id@ by {
                assert(fv[k].id == self.fields@[k].id@);
            }
        }
        None
    }

    /// The position of the block with the given id.
    fn position_of_block(&self, block_id: &String) -> (res: Option<usize>)
        requires
            self.wf(),
        ensures
            match res {
                Some(i) => {
                    &&& has_block(self.blocks_view(), block_id@)
                    &&& i == block_index(self.blocks_view(), block_id@)
                    &&& i < self.blocks_view().len()
                },
                None => !has_block(self.blocks_view(), block_id@),
            },
    {
        let mut i: usize = 0;
        while i < self.blocks.len()
            invariant
                self.wf(),
                i <= self.blocks@.len(),
                forall|k: int| 0 <= k < i ==> #[trigger] self.blocks@[k].block_id@ != block_id@,
            decreases self.blocks.len() - i,
        {
            if self.blocks[i].block_id == *block_id {
                proof {
                    lemma_block_index_unique(self.blocks_view(), block_id@, i as int);
                }
                return Some(i);
            }
            i = i + 1;
        }
        None
    }

    /// The grid's metadata as one document.
    pub fn snapshot(&self) -> (meta: GridMeta)
        ensures
            meta@ == (GridMetaView {
                grid_id: self.grid_id_view(),
                fields: self.fields_view(),
                blocks: self.blocks_view(),
            }),
    {
        let fields = self.fields.clone();
        let blocks = self.blocks.clone();
        proof {
            assert forall|k: int| 0 <= k < fields@.len() implies #[trigger] fields@[k]@ == self.fields@[k]@ by {
                assert(cloned::<FieldMeta>(self.fields@[k], fields@[k]));
            }
            assert(field_views(fields@) =~= self.fields_view());
            assert forall|k: int| 0 <= k < blocks@.len() implies #[trigger] blocks@[k] == self.blocks@[k] by {
                assert(cloned::<GridBlockMeta>(self.blocks@[k], blocks@[k]));
            }
            assert(blocks@ =~= self.blocks@);
        }
        GridMeta { grid_id: self.grid_id.clone(), fields, blocks }
    }

    /// The id of the grid.
    pub fn grid_id(&self) -> (id: &String)
        ensures
            id@ == self.grid_id_view(),
    {
        &self.grid_id
    }

    /// The fields, in their order.
    pub fn fields(&self) -> (fields: &Vec<FieldMeta>)
        ensures
            field_views(fields@) == self.fields_view(),
    {
        &self.fields
    }

    /// Whether the grid has a field with the given id.
    pub fn contain_field(&self, field_id: &str) -> (res: bool)
        requires
            self.wf(),
        ensures
            res == has_field(self.fields_view(), field_id@),
    {
        let id = field_id.to_owned();
        self.position_of_field(&id).is_some()
    }

    /// The field with the given id.
    pub fn get_field(&self, field_id: &str) -> (res: Option<&FieldMeta>)
        requires
            self.wf(),
        ensures
            match res {
                Some(f) => {
                    &&& has_field(self.fields_view(), field_id@)
                    &&& f@ == self.fields_view()[field_index(self.fields_view(), field_id@)]
                },
                None => !has_field(self.fields_view(), field_id@),
            },
    {
        let id = field_id.to_owned();
        match self.position_of_field(&id) {
            Some(i) => Some(&self.fields[i]),
            None => None,
        }
    }

    /// All fields where no orders are given; else the fields that the orders
    /// name, in their order.
    pub fn get_field_metas(&self, field_orders: Option<Vec<FieldOrder>>) -> (res: Vec<FieldMeta>)
        requires
            self.wf(),
        ensures
            field_views(res@) == (match field_orders {
                None => self.fields_view(),
                Some(orders) => fields_for_orders(self.fields_view(), orders@),
            }),
    {
        match field_orders {
            None => {
                let res = self.fields.clone();
                proof {
                    assert forall|k: int| 0 <= k < res@.len() implies #[trigger] res@[k]@ == self.fields@[k]@ by {
                        assert(cloned::<FieldMeta>(self.fields@[k], res@[k]));
                    }
                    assert(field_views(res@) =~= self.fields_view());
                }
                res
            },
            Some(orders) => {
                let mut res: Vec<FieldMeta> = Vec::new();
                let mut i: usize = 0;
                while i < orders.len()
                    invariant
                        self.wf(),
                        i <= orders.len(),
                        field_views(res@) == fields_for_orders(self.fields_view(), orders@.take(i as int)),
                    decreases orders.len() - i,
                {
                    assert(orders@.take(i as int + 1).drop_last() =~= orders@.take(i as int));
                    assert(orders@.take(i as int + 1).last() == orders@[i as int]);
                    match self.position_of_field(&orders[i].field_id) {
                        Some(k) => {
                            let f = self.fields[k].clone();
                            proof {
                                lemma_views_push(res@, f);
                            }
                            res.push(f);
                        },
                        None => {},
                    }
                    i = i + 1;
                }
                assert(orders@.take(orders.len() as int) =~= orders@);
                res
            },
        }
    }

    /// The order of the fields.
    pub fn get_field_orders(&self) -> (res: Vec<FieldOrder>)
        ensures
            res@.len() == self.fields_view().len(),
            forall|k: int| 0 <= k < res@.len() ==> #[trigger] res@[k].field_id@ == self.fields_view()[k].id,
    {
        let mut res: Vec<FieldOrder> = Vec::new();
        let mut i: usize = 0;
        while i < self.fields.len()
            invariant
                i <= self.fields@.len(),
                res@.len() == i,
                forall|k: int| 0 <= k < i ==> #[trigger] res@[k].field_id@ == self.fields@[k].id@,
            decreases self.fields.len() - i,
        {
            res.push(FieldOrder { field_id: self.fields[i].id.clone() });
            i = i + 1;
        }
        res
    }

    /// The blocks, in their order.
    pub fn get_block_metas(&self) -> (res: Vec<GridBlockMeta>)
        ensures
            res@ == self.blocks_view(),
    {
        let res = self.blocks.clone();
        proof {
            assert forall|k: int| 0 <= k < res@.len() implies #[trigger] res@[k] == self.blocks@[k] by {
                assert(cloned::<GridBlockMeta>(self.blocks@[k], res@[k]));
            }
            assert(res@ =~= self.blocks@);
        }
        res
    }

    /// Creates a field, placed before the field `start_field_id` where that
    /// field exists and at the end otherwise. Nothing changes where a field
    /// with the new field's id exists; the result says whether the grid
    /// changed.
    pub fn create_field(&mut self, field_meta: FieldMeta, start_field_id: Option<String>) -> (changed: bool)
        requires
            old(self).wf(),
        ensures
            final(self).wf(),
            final(self).fields_view() == fields_after_create(
                old(self).fields_view(),
                field_meta@,
                opt_view(start_field_id),
            ),
            final(self).blocks_view() == old(self).blocks_view(),
            final(self).grid_id_view() == old(self).grid_id_view(),
            changed == !has_field(old(self).fields_view(), field_meta.id@),
    {
        if self.position_of_field(&field_meta.id).is_some() {
            return false;
        }
        let ghost fv = self.fields_view();
        let insert_index = match &start_field_id {
            Some(start) => self.position_of_field(start),
            None => None,
        };
        match insert_index {
            Some(k) => {
                proof {
                    lemma_views_insert(self.fields@, k as int, field_meta);
                    lemma_insert_keeps_unique(fv, k as int, field_meta@);
                }
                self.fields.insert(k, field_meta);
            },
            None => {
                proof {
                    lemma_views_push(self.fields@, field_meta);
                    lemma_insert_keeps_unique(fv, fv.len() as int, field_meta@);
                    assert(fv.insert(fv.len() as int, field_meta@) =~= fv.push(field_meta@));
                }
                self.fields.push(field_meta);
            },
        }
        true
    }

    /// Applies a changeset to the field that it names, with `type_option` as
    /// its type option in JSON: each given value replaces the field's, and the
    /// type option becomes that of the field's type after the change. Nothing
    /// changes where no field has the id; the result says whether the grid
    /// changed.
    pub fn update_field(&mut self, changeset: FieldChangesetParams, type_option: Option<String>) -> (changed: bool)
        requires
            old(self).wf(),
        ensures
            final(self).wf(),
            final(self).fields_view() == (if has_field(old(self).fields_view(), changeset.field_id@) {
                let i = field_index(old(self).fields_view(), changeset.field_id@);
                old(self).fields_view().update(
                    i,
                    apply_field_changeset(old(self).fields_view()[i], changeset, type_option),
                )
            } else {
                old(self).fields_view()
            }),
            final(self).blocks_view() == old(self).blocks_view(),
            final(self).grid_id_view() == old(self).grid_id_view(),
            changed == (has_field(old(self).fields_view(), changeset.field_id@) && changeset_changes(
                changeset,
                type_option,
            )),
    {
        let ghost fv = self.fields_view();
        let ghost old_fields = self.fields@;
        let k = match self.position_of_field(&changeset.field_id) {
            Some(k) => k,
            None => return false,
        };
        let field = self.fields.remove(k);
        let (field, changed) = apply_changeset_to_field(field, changeset, type_option);
        self.fields.insert(k, field);
        proof {
            assert(self.fields@ =~= old_fields.update(k as int, field));
            lemma_views_update(old_fields, k as int, field);
            lemma_update_keeps_unique(fv, k as int, field@);
        }
        changed
    }

    /// Deletes the field with the given id; the result says whether there
    /// was one.
    pub fn delete_field(&mut self, field_id: &str) -> (changed: bool)
        requires
            old(self).wf(),
        ensures
            final(self).wf(),
            final(self).fields_view() == (if has_field(old(self).fields_view(), field_id@) {
                old(self).fields_view().remove(field_index(old(self).fields_view(), field_id@))
            } else {
                old(self).fields_view()
            }),
            final(self).blocks_view() == old(self).blocks_view(),
            final(self).grid_id_view() == old(self).grid_id_view(),
            changed == has_field(old(self).fields_view(), field_id@),
    {
        let id = field_id.to_owned();
        let ghost fv = self.fields_view();
        match self.position_of_field(&id) {
            Some(k) => {
                proof {
                    lemma_views_remove(self.fields@, k as int);
                    lemma_remove_keeps_unique(fv, k as int);
                }
                let _ = self.fields.remove(k);
                true
            },
            None => false,
        }
    }

    /// Places a copy of the field with the given id right after it, with the
    /// id `new_field_id` and the name followed by " (copy)". Nothing changes
    /// where no field has the id, or where a field already has the new id;
    /// the result says whether the grid changed.
    pub fn duplicate_field(&mut self, field_id: &str, new_field_id: String) -> (changed: bool)
        requires
            old(self).wf(),
        ensures
            final(self).wf(),
            changed == (has_field(old(self).fields_view(), field_id@) && !has_field(
                old(self).fields_view(),
                new_field_id@,
            )),
            final(self).fields_view() == (if changed {
                let i = field_index(old(self).fields_view(), field_id@);
                old(self).fields_view().insert(i + 1, duplicate_of(old(self).fields_view()[i], new_field_id@))
            } else {
                old(self).fields_view()
            }),
            final(self).blocks_view() == old(self).blocks_view(),
            final(self).grid_id_view() == old(self).grid_id_view(),
    {
        let id = field_id.to_owned();
        let ghost fv = self.fields_view();
        let k = match self.position_of_field(&id) {
            Some(k) => k,
            None => return false,
        };
        if self.position_of_field(&new_field_id).is_some() {
            return false;
        }
        let n = self.fields.len();
        assert(self.fields_view().len() == n);
        let mut copy = self.fields[k].clone();
        copy.id = new_field_id;
        let mut name = String::new();
        std::mem::swap(&mut name, &mut copy.name);
        copy.name = name.concat(" (copy)");
        proof {
            assert(copy@ == duplicate_of(fv[k as int], new_field_id@));
            lemma_views_insert(self.fields@, k as int + 1, copy);
            lemma_insert_keeps_unique(fv, k as int + 1, copy@);
        }
        self.fields.insert(k + 1, copy);
        true
    }

    /// Switches the field with the given id to another field type, giving it
    /// `default_type_option` as the type option of that type where it has
    /// none. Nothing changes where no field has the id; the result says
    /// whether the grid changed.
    pub fn switch_to_field(&mut self, field_id: &str, field_type: FieldType, default_type_option: String) -> (changed: bool)
        requires
            old(self).wf(),
        ensures
            final(self).wf(),
            final(self).fields_view() == (if has_field(old(self).fields_view(), field_id@) {
                let i = field_index(old(self).fields_view(), field_id@);
                old(self).fields_view().update(
                    i,
                    switch_field_type(old(self).fields_view()[i], field_type, default_type_option),
                )
            } else {
                old(self).fields_view()
            }),
            final(self).blocks_view() == old(self).blocks_view(),
            final(self).grid_id_view() == old(self).grid_id_view(),
            changed == has_field(old(self).fields_view(), field_id@),
    {
        let id = field_id.to_owned();
        let ghost fv = self.fields_view();
        let k = match self.position_of_field(&id) {
            Some(k) => k,
            None => return false,
        };
        let ghost old_fields = self.fields@;
        let mut field = self.fields.remove(k);
        if !has_type_option_vec(&field.type_options, field_type) {
            field.type_options.push(TypeOptionEntry { field_type, data: default_type_option });
        }
        field.field_type = field_type;
        self.fields.insert(k, field);
        proof {
            assert(field@ == switch_field_type(fv[k as int], field_type, default_type_option));
            assert(self.fields@ =~= old_fields.update(k as int, field));
            lemma_views_update(old_fields, k as int, field);
            lemma_update_keeps_unique(fv, k as int, field@);
        }
        true
    }

    /// Adds a block at the end; nothing changes where a block with its id
    /// exists. The result says whether the grid changed.
    pub fn create_block_meta(&mut self, block: GridBlockMeta) -> (changed: bool)
        requires
            old(self).wf(),
        ensures
            final(self).wf(),
            changed == !has_block(old(self).blocks_view(), block.block_id@),
            final(self).blocks_view() == (if changed {
                old(self).blocks_view().push(block)
            } else {
                old(self).blocks_view()
            }),
            final(self).fields_view() == old(self).fields_view(),
            final(self).grid_id_view() == old(self).grid_id_view(),
    {
        if self.position_of_block(&block.block_id).is_some() {
            return false;
        }
        let ghost bv = self.blocks_view();
        self.blocks.push(block);
        proof {
            let nb = self.blocks_view();
            assert forall|i: int, j: int| 0 <= i < nb.len() && 0 <= j < nb.len() && i != j implies
                #[trigger] nb[i].block_id@ != #[trigger] nb[j].block_id@ by {
                if i < bv.len() && j < bv.len() {
                    assert(nb[i] == bv[i] && nb[j] == bv[j]);
                } else if i < bv.len() {
                    assert(nb[i] == bv[i]);
                    assert(bv[i].block_id@ != block.block_id@);
                } else if j < bv.len() {
                    assert(nb[j] == bv[j]);
                    assert(bv[j].block_id@ != block.block_id@);
                }
            }
        }
        true
    }

    /// Applies a changeset to the block that it names; the result says
    /// whether the grid changed.
    pub fn update_block_meta(&mut self, changeset: GridBlockMetaChangeset) -> (changed: bool)
        requires
            old(self).wf(),
        ensures
            final(self).wf(),
            final(self).blocks_view() == blocks_after_update(old(self).blocks_view(), changeset),
            final(self).fields_view() == old(self).fields_view(),
            final(self).grid_id_view() == old(self).grid_id_view(),
            changed == (has_block(old(self).blocks_view(), changeset.block_id@) && block_changeset_changes(
                changeset,
            )),
    {
        let ghost cs = changeset;
        let ghost bv = self.blocks_view();
        let k = match self.position_of_block(&changeset.block_id) {
            Some(k) => k,
            None => return false,
        };
        let mut block = self.blocks.remove(k);
        let mut changed = false;
        if let Some(row_count) = changeset.row_count {
            block.row_count = row_count;
            changed = true;
        }
        if let Some(start_row_index) = changeset.start_row_index {
            block.start_row_index = start_row_index;
            changed = true;
        }
        proof {
            assert(block == apply_block_changeset(bv[k as int], cs));
            lemma_block_update_keeps_unique(bv, k as int, block);
        }
        self.blocks.insert(k, block);
        proof {
            assert(self.blocks@ =~= bv.update(k as int, block));
        }
        changed
    }
}

} // verus!
