//! Catalog tables, as statements see them.

use vstd::prelude::*;

use crate::sql::lir::ScalarType;
use crate::text;
use crate::text::{copy_texts, same_text};

verus! {

/// The stable number of a table or column.
#[derive(Clone, Copy, Debug, PartialEq, Eq, Structural)]
pub struct SchemaId {
    pub value: u32,
}

impl SchemaId {
    /// A stable number; zero is none.
    pub fn new(value: u32) -> (id: Option<SchemaId>)
        ensures
            id == (if value == 0 {
                None
            } else {
                Some(SchemaId { value })
            }),
    {
        if value == 0 {
            None
        } else {
            Some(SchemaId { value })
        }
    }
}

/// Functions that compute a column default at insert time.
#[derive(Clone, Copy, Debug, PartialEq, Eq, Structural)]
pub enum DefaultFunction {
    NowMs,
    Uuid,
}

/// A column of a catalog table.
#[derive(Debug, PartialEq)]
pub struct Column {
    pub name: String,
    pub scalar_type: ScalarType,
    pub nullable: bool,
    pub format: String,
}

/// The value of a [`Column`].
pub struct ColumnView {
    pub name: Seq<char>,
    pub scalar_type: ScalarType,
    pub nullable: bool,
    pub format: Seq<char>,
}

pub open spec fn column_view(value: Column) -> ColumnView
{
    ColumnView {
        name: value.name@,
        scalar_type: value.scalar_type,
        nullable: value.nullable,
        format: value.format@,
    }
}

impl View for Column {
    type V = ColumnView;

    open spec fn view(&self) -> ColumnView {
        column_view(*self)
    }
}

/// An index of a catalog table, over columns by name.
#[derive(Debug, PartialEq)]
pub struct Index {
    pub name: String,
    pub columns: Vec<String>,
    pub unique: bool,
}

/// The value of an [`Index`].
pub struct IndexView {
    pub name: Seq<char>,
    pub columns: Seq<Seq<char>>,
    pub unique: bool,
}

pub open spec fn index_view(value: Index) -> IndexView
{
    IndexView {
        name: value.name@,
        columns: text::texts(value.columns@),
        unique: value.unique,
    }
}

impl View for Index {
    type V = IndexView;

    open spec fn view(&self) -> IndexView {
        index_view(*self)
    }
}

/// A catalog table.
#[derive(Debug, PartialEq)]
pub struct Table {
    pub schema_id: SchemaId,
    pub name: String,
    pub columns: Vec<Column>,
    pub primary_key: Vec<String>,
    pub indexes: Vec<Index>,
}

/// The value of a [`Table`].
pub struct TableView {
    pub schema_id: SchemaId,
    pub name: Seq<char>,
    pub columns: Seq<ColumnView>,
    pub primary_key: Seq<Seq<char>>,
    pub indexes: Seq<IndexView>,
}

pub open spec fn table_view(value: Table) -> TableView
{
    TableView {
        schema_id: value.schema_id,
        name: value.name@,
        columns: columns_view(value.columns@),
        primary_key: text::texts(value.primary_key@),
        indexes: indexes_view(value.indexes@),
    }
}

impl View for Table {
    type V = TableView;

    open spec fn view(&self) -> TableView {
        table_view(*self)
    }
}

/// An index to be created.
#[derive(Debug, PartialEq)]
pub struct IndexDef {
    pub name: String,
    pub columns: Vec<String>,
    pub unique: bool,
}

/// The value of an [`IndexDef`].
pub struct IndexDefView {
    pub name: Seq<char>,
    pub columns: Seq<Seq<char>>,
    pub unique: bool,
}

pub open spec fn index_def_view(value: IndexDef) -> IndexDefView
{
    IndexDefView {
        name: value.name@,
        columns: text::texts(value.columns@),
        unique: value.unique,
    }
}

impl View for IndexDef {
    type V = IndexDefView;

    open spec fn view(&self) -> IndexDefView {
        index_def_view(*self)
    }
}

/// A column default: a function, or the constant of the column type. A float constant is kept as it was written.
#[derive(Debug, PartialEq)]
pub struct DefaultValue {
    pub text: String,
    pub int64: i64,
    pub float64: String,
    pub bool_value: bool,
    pub function: Option<DefaultFunction>,
}

/// The value of a [`DefaultValue`].
pub struct DefaultValueView {
    pub text: Seq<char>,
    pub int64: i64,
    pub float64: Seq<char>,
    pub bool_value: bool,
    pub function: Option<DefaultFunction>,
}

pub open spec fn default_value_view(value: DefaultValue) -> DefaultValueView
{
    DefaultValueView {
        text: value.text@,
        int64: value.int64,
        float64: value.float64@,
        bool_value: value.bool_value,
        function: value.function,
    }
}

impl View for DefaultValue {
    type V = DefaultValueView;

    open spec fn view(&self) -> DefaultValueView {
        default_value_view(*self)
    }
}

/// A column to be created.
#[derive(Debug, PartialEq)]
pub struct ColumnDraft {
    pub id: Option<SchemaId>,
    pub name: String,
    pub scalar_type: ScalarType,
    pub nullable: bool,
    pub format: String,
    pub default: Option<DefaultValue>,
}

/// The value of a [`ColumnDraft`].
pub struct ColumnDraftView {
    pub id: Option<SchemaId>,
    pub name: Seq<char>,
    pub scalar_type: ScalarType,
    pub nullable: bool,
    pub format: Seq<char>,
    pub default: Option<DefaultValueView>,
}

pub open spec fn column_draft_view(value: ColumnDraft) -> ColumnDraftView
{
    ColumnDraftView {
        id: value.id,
        name: value.name@,
        scalar_type: value.scalar_type,
        nullable: value.nullable,
        format: value.format@,
        default: optional_default_value_view(value.default),
    }
}

impl View for ColumnDraft {
    type V = ColumnDraftView;

    open spec fn view(&self) -> ColumnDraftView {
        column_draft_view(*self)
    }
}

/// A table to be created.
#[derive(Debug, PartialEq)]
pub struct TableDraft {
    pub id: Option<SchemaId>,
    pub name: String,
    pub columns: Vec<ColumnDraft>,
    pub primary_key: Vec<String>,
    pub indexes: Vec<IndexDef>,
}

/// The value of a [`TableDraft`].
pub struct TableDraftView {
    pub id: Option<SchemaId>,
    pub name: Seq<char>,
    pub columns: Seq<ColumnDraftView>,
    pub primary_key: Seq<Seq<char>>,
    pub indexes: Seq<IndexDefView>,
}

pub open spec fn table_draft_view(value: TableDraft) -> TableDraftView
{
    TableDraftView {
        id: value.id,
        name: value.name@,
        columns: column_drafts_view(value.columns@),
        primary_key: text::texts(value.primary_key@),
        indexes: index_defs_view(value.indexes@),
    }
}

impl View for TableDraft {
    type V = TableDraftView;

    open spec fn view(&self) -> TableDraftView {
        table_draft_view(*self)
    }
}

pub open spec fn columns_view(values: Seq<Column>) -> Seq<ColumnView>
{
    Seq::new(
        values.len(),
        |i: int|
            if 0 <= i < values.len() {
                column_view(values[i])
            } else {
                arbitrary()
            },
    )
}

pub broadcast proof fn lemma_columns_push(values: Seq<Column>, value: Column)
    ensures
        #[trigger] columns_view(values.push(value)) == columns_view(values).push(value@),
{
    assert(columns_view(values.push(value)) =~= columns_view(values).push(value@));
}

pub broadcast proof fn lemma_no_columns()
    ensures
        #[trigger] columns_view(Seq::empty()) == Seq::<ColumnView>::empty(),
{
    assert(columns_view(Seq::empty()) =~= Seq::<ColumnView>::empty());
}

pub open spec fn indexes_view(values: Seq<Index>) -> Seq<IndexView>
{
    Seq::new(
        values.len(),
        |i: int|
            if 0 <= i < values.len() {
                index_view(values[i])
            } else {
                arbitrary()
            },
    )
}

pub broadcast proof fn lemma_indexes_push(values: Seq<Index>, value: Index)
    ensures
        #[trigger] indexes_view(values.push(value)) == indexes_view(values).push(value@),
{
    assert(indexes_view(values.push(value)) =~= indexes_view(values).push(value@));
}

pub broadcast proof fn lemma_no_indexes()
    ensures
        #[trigger] indexes_view(Seq::empty()) == Seq::<IndexView>::empty(),
{
    assert(indexes_view(Seq::empty()) =~= Seq::<IndexView>::empty());
}

pub open spec fn tables_view(values: Seq<Table>) -> Seq<TableView>
{
    Seq::new(
        values.len(),
        |i: int|
            if 0 <= i < values.len() {
                table_view(values[i])
            } else {
                arbitrary()
            },
    )
}

pub broadcast proof fn lemma_tables_push(values: Seq<Table>, value: Table)
    ensures
        #[trigger] tables_view(values.push(value)) == tables_view(values).push(value@),
{
    assert(tables_view(values.push(value)) =~= tables_view(values).push(value@));
}

pub broadcast proof fn lemma_no_tables()
    ensures
        #[trigger] tables_view(Seq::empty()) == Seq::<TableView>::empty(),
{
    assert(tables_view(Seq::empty()) =~= Seq::<TableView>::empty());
}

pub open spec fn index_defs_view(values: Seq<IndexDef>) -> Seq<IndexDefView>
{
    Seq::new(
        values.len(),
        |i: int|
            if 0 <= i < values.len() {
                index_def_view(values[i])
            } else {
                arbitrary()
            },
    )
}

pub broadcast proof fn lemma_index_defs_push(values: Seq<IndexDef>, value: IndexDef)
    ensures
        #[trigger] index_defs_view(values.push(value)) == index_defs_view(values).push(value@),
{
    assert(index_defs_view(values.push(value)) =~= index_defs_view(values).push(value@));
}

pub broadcast proof fn lemma_no_index_defs()
    ensures
        #[trigger] index_defs_view(Seq::empty()) == Seq::<IndexDefView>::empty(),
{
    assert(index_defs_view(Seq::empty()) =~= Seq::<IndexDefView>::empty());
}

pub open spec fn column_drafts_view(values: Seq<ColumnDraft>) -> Seq<ColumnDraftView>
{
    Seq::new(
        values.len(),
        |i: int|
            if 0 <= i < values.len() {
                column_draft_view(values[i])
            } else {
                arbitrary()
            },
    )
}

pub broadcast proof fn lemma_column_drafts_push(values: Seq<ColumnDraft>, value: ColumnDraft)
    ensures
        #[trigger] column_drafts_view(values.push(value)) == column_drafts_view(values).push(value@),
{
    assert(column_drafts_view(values.push(value)) =~= column_drafts_view(values).push(value@));
}

pub broadcast proof fn lemma_no_column_drafts()
    ensures
        #[trigger] column_drafts_view(Seq::empty()) == Seq::<ColumnDraftView>::empty(),
{
    assert(column_drafts_view(Seq::empty()) =~= Seq::<ColumnDraftView>::empty());
}

pub open spec fn optional_default_value_view(value: Option<DefaultValue>) -> Option<DefaultValueView>
{
    match value {
        Some(value) => Some(default_value_view(value)),
        None => None,
    }
}

pub broadcast group group_catalog_views {
    lemma_columns_push,
    lemma_no_columns,
    lemma_indexes_push,
    lemma_no_indexes,
    lemma_tables_push,
    lemma_no_tables,
    lemma_index_defs_push,
    lemma_no_index_defs,
    lemma_column_drafts_push,
    lemma_no_column_drafts,
}

pub(crate) fn copy_column(value: &Column) -> (copy: Column)
    ensures
        copy@ == value@,
{
    Column {
        name: value.name.clone(),
        scalar_type: value.scalar_type,
        nullable: value.nullable,
        format: value.format.clone(),
    }
}

impl Clone for Column {
    fn clone(&self) -> (copy: Self)
        ensures
            copy@ == self@,
    {
        copy_column(self)
    }
}

pub(crate) fn copy_index(value: &Index) -> (copy: Index)
    ensures
        copy@ == value@,
{
    Index {
        name: value.name.clone(),
        columns: copy_texts(&value.columns),
        unique: value.unique,
    }
}

impl Clone for Index {
    fn clone(&self) -> (copy: Self)
        ensures
            copy@ == self@,
    {
        copy_index(self)
    }
}

pub(crate) fn copy_table(value: &Table) -> (copy: Table)
    ensures
        copy@ == value@,
{
    Table {
        schema_id: value.schema_id,
        name: value.name.clone(),
        columns: copy_columns(&value.columns),
        primary_key: copy_texts(&value.primary_key),
        indexes: copy_indexes(&value.indexes),
    }
}

impl Clone for Table {
    fn clone(&self) -> (copy: Self)
        ensures
            copy@ == self@,
    {
        copy_table(self)
    }
}

pub(crate) fn copy_index_def(value: &IndexDef) -> (copy: IndexDef)
    ensures
        copy@ == value@,
{
    IndexDef {
        name: value.name.clone(),
        columns: copy_texts(&value.columns),
        unique: value.unique,
    }
}

impl Clone for IndexDef {
    fn clone(&self) -> (copy: Self)
        ensures
            copy@ == self@,
    {
        copy_index_def(self)
    }
}

pub(crate) fn copy_default_value(value: &DefaultValue) -> (copy: DefaultValue)
    ensures
        copy@ == value@,
{
    DefaultValue {
        text: value.text.clone(),
        int64: value.int64,
        float64: value.float64.clone(),
        bool_value: value.bool_value,
        function: value.function,
    }
}

impl Clone for DefaultValue {
    fn clone(&self) -> (copy: Self)
        ensures
            copy@ == self@,
    {
        copy_default_value(self)
    }
}

pub(crate) fn copy_column_draft(value: &ColumnDraft) -> (copy: ColumnDraft)
    ensures
        copy@ == value@,
{
    ColumnDraft {
        id: value.id,
        name: value.name.clone(),
        scalar_type: value.scalar_type,
        nullable: value.nullable,
        format: value.format.clone(),
        default: copy_optional_default_value(&value.default),
    }
}

impl Clone for ColumnDraft {
    fn clone(&self) -> (copy: Self)
        ensures
            copy@ == self@,
    {
        copy_column_draft(self)
    }
}

pub(crate) fn copy_table_draft(value: &TableDraft) -> (copy: TableDraft)
    ensures
        copy@ == value@,
{
    TableDraft {
        id: value.id,
        name: value.name.clone(),
        columns: copy_column_drafts(&value.columns),
        primary_key: copy_texts(&value.primary_key),
        indexes: copy_index_defs(&value.indexes),
    }
}

impl Clone for TableDraft {
    fn clone(&self) -> (copy: Self)
        ensures
            copy@ == self@,
    {
        copy_table_draft(self)
    }
}

/// A copy of a run of values.
pub fn copy_columns(values: &Vec<Column>) -> (copies: Vec<Column>)
    ensures
        columns_view(copies@) == columns_view(values@),
{
    let mut copies: Vec<Column> = Vec::new();
    let mut i: usize = 0;
    while i < values.len()
        invariant
            i <= values.len(),
            copies.len() == i,
            forall|k: int| 0 <= k < i ==> (#[trigger] copies@[k])@ == values@[k]@,
        decreases values.len() - i,
    {
        let value = &values[i];
        copies.push(copy_column(value));
        i += 1;
    }
    assert(columns_view(copies@) =~= columns_view(values@));
    copies
}

/// A copy of a run of values.
pub fn copy_indexes(values: &Vec<Index>) -> (copies: Vec<Index>)
    ensures
        indexes_view(copies@) == indexes_view(values@),
{
    let mut copies: Vec<Index> = Vec::new();
    let mut i: usize = 0;
    while i < values.len()
        invariant
            i <= values.len(),
            copies.len() == i,
            forall|k: int| 0 <= k < i ==> (#[trigger] copies@[k])@ == values@[k]@,
        decreases values.len() - i,
    {
        let value = &values[i];
        copies.push(copy_index(value));
        i += 1;
    }
    assert(indexes_view(copies@) =~= indexes_view(values@));
    copies
}

/// A copy of a run of values.
pub fn copy_index_defs(values: &Vec<IndexDef>) -> (copies: Vec<IndexDef>)
    ensures
        index_defs_view(copies@) == index_defs_view(values@),
{
    let mut copies: Vec<IndexDef> = Vec::new();
    let mut i: usize = 0;
    while i < values.len()
        invariant
            i <= values.len(),
            copies.len() == i,
            forall|k: int| 0 <= k < i ==> (#[trigger] copies@[k])@ == values@[k]@,
        decreases values.len() - i,
    {
        let value = &values[i];
        copies.push(copy_index_def(value));
        i += 1;
    }
    assert(index_defs_view(copies@) =~= index_defs_view(values@));
    copies
}

/// A copy of a run of values.
pub fn copy_column_drafts(values: &Vec<ColumnDraft>) -> (copies: Vec<ColumnDraft>)
    ensures
        column_drafts_view(copies@) == column_drafts_view(values@),
{
    let mut copies: Vec<ColumnDraft> = Vec::new();
    let mut i: usize = 0;
    while i < values.len()
        invariant
            i <= values.len(),
            copies.len() == i,
            forall|k: int| 0 <= k < i ==> (#[trigger] copies@[k])@ == values@[k]@,
        decreases values.len() - i,
    {
        let value = &values[i];
        copies.push(copy_column_draft(value));
        i += 1;
    }
    assert(column_drafts_view(copies@) =~= column_drafts_view(values@));
    copies
}

pub(crate) fn copy_optional_default_value(value: &Option<DefaultValue>) -> (copy: Option<DefaultValue>)
    ensures
        optional_default_value_view(copy) == optional_default_value_view(*value),
{
    match value {
        Some(value) => Some(copy_default_value(value)),
        None => None,
    }
}

/// The first column with a name.
pub open spec fn find_column(columns: Seq<ColumnView>, name: Seq<char>) -> Option<ColumnView>
    decreases columns.len(),
{
    if columns.len() == 0 {
        None
    } else if columns[0].name == name {
        Some(columns[0])
    } else {
        find_column(columns.skip(1), name)
    }
}

/// The first index with a name.
pub open spec fn find_index(indexes: Seq<IndexView>, name: Seq<char>) -> Option<IndexView>
    decreases indexes.len(),
{
    if indexes.len() == 0 {
        None
    } else if indexes[0].name == name {
        Some(indexes[0])
    } else {
        find_index(indexes.skip(1), name)
    }
}

/// The first table with a name.
pub open spec fn find_table(tables: Seq<TableView>, name: Seq<char>) -> Option<TableView>
    decreases tables.len(),
{
    if tables.len() == 0 {
        None
    } else if tables[0].name == name {
        Some(tables[0])
    } else {
        find_table(tables.skip(1), name)
    }
}

impl Table {
    /// The column with a name.
    pub fn column(&self, name: &str) -> (found: Option<&Column>)
        ensures
            find_column(self@.columns, name@) == (match found {
                Some(column) => Some(column@),
                None => None,
            }),
    {
        let ghost all = self@.columns;
        let mut i: usize = 0;
        assert(all.skip(0) =~= all);
        while i < self.columns.len()
            invariant
                i <= self.columns.len(),
                all == columns_view(self.columns@),
                find_column(all, name@) == find_column(all.skip(i as int), name@),
            decreases self.columns.len() - i,
        {
            assert(all.skip(i as int)[0] == self.columns@[i as int]@);
            if same_text(self.columns[i].name.as_str(), name) {
                return Some(&self.columns[i]);
            }
            assert(all.skip(i as int).skip(1) =~= all.skip(i + 1));
            i += 1;
        }
        None
    }

    /// The index with a name.
    pub fn index(&self, name: &str) -> (found: Option<&Index>)
        ensures
            find_index(self@.indexes, name@) == (match found {
                Some(index) => Some(index@),
                None => None,
            }),
    {
        let ghost all = self@.indexes;
        let mut i: usize = 0;
        assert(all.skip(0) =~= all);
        while i < self.indexes.len()
            invariant
                i <= self.indexes.len(),
                all == indexes_view(self.indexes@),
                find_index(all, name@) == find_index(all.skip(i as int), name@),
            decreases self.indexes.len() - i,
        {
            assert(all.skip(i as int)[0] == self.indexes@[i as int]@);
            if same_text(self.indexes[i].name.as_str(), name) {
                return Some(&self.indexes[i]);
            }
            assert(all.skip(i as int).skip(1) =~= all.skip(i + 1));
            i += 1;
        }
        None
    }
}

/// The table with a name.
pub fn table_named<'a>(tables: &'a [Table], name: &str) -> (found: Option<&'a Table>)
    ensures
        find_table(tables_view(tables@), name@) == (match found {
            Some(table) => Some(table@),
            None => None,
        }),
{
    let ghost all = tables_view(tables@);
    let mut i: usize = 0;
    assert(all.skip(0) =~= all);
    while i < tables.len()
        invariant
            i <= tables.len(),
            all == tables_view(tables@),
            find_table(all, name@) == find_table(all.skip(i as int), name@),
        decreases tables.len() - i,
    {
        assert(all.skip(i as int)[0] == tables@[i as int]@);
        if same_text(tables[i].name.as_str(), name) {
            return Some(&tables[i]);
        }
        assert(all.skip(i as int).skip(1) =~= all.skip(i + 1));
        i += 1;
    }
    None
}

} // verus!
