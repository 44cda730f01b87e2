//! Values that pass between the stages of statement lowering.

use vstd::prelude::*;

use crate::sql::catalog;
use crate::sql::catalog::{IndexDef, IndexDefView, SchemaId, TableDraft, TableDraftView};
use crate::sql::lir;
use crate::sql::lir::{
    Expr, ExprView, OrderTerm, OrderTermView, ProjectField, ProjectFieldView, Query, QueryView, RawScalar,
    RawScalarView, Relation, RelationView, ScalarType,
};
use crate::text;
use crate::text::{copy_text_option, copy_texts};

verus! {

/// Why a statement cannot be lowered.
#[derive(Debug, PartialEq)]
pub enum Error {
    /// The text is not a statement.
    Parse(String),
    /// The statement uses something that has no lowering.
    Unsupported(String),
    /// The statement is wrong.
    Invalid(String),
}

/// The value of an [`Error`].
pub enum ErrorView {
    Parse(Seq<char>),
    Unsupported(Seq<char>),
    Invalid(Seq<char>),
}

impl View for Error {
    type V = ErrorView;

    open spec fn view(&self) -> ErrorView {
        match *self {
            Error::Parse(message) => ErrorView::Parse(message@),
            Error::Unsupported(message) => ErrorView::Unsupported(message@),
            Error::Invalid(message) => ErrorView::Invalid(message@),
        }
    }
}

impl Error {
    /// The message of an error.
    pub fn message(&self) -> (message: String)
        ensures
            message@ == "sql: "@ + (match self@ {
                ErrorView::Parse(message) => message,
                ErrorView::Unsupported(message) => message,
                ErrorView::Invalid(message) => message,
            }),
    {
        match self {
            Error::Parse(message) => text::join("sql: ", message.as_str()),
            Error::Unsupported(message) => text::join("sql: ", message.as_str()),
            Error::Invalid(message) => text::join("sql: ", message.as_str()),
        }
    }
}

/// What kind of command a statement is.
#[derive(Clone, Copy, Debug, PartialEq, Eq, Structural)]
pub enum CommandKind {
    Select,
    Insert,
    Update,
    Delete,
    CreateTable,
    CreateIndex,
    AlterTable,
}

impl CommandKind {
    /// The command tag that a client sees.
    pub open spec fn spec_tag(self) -> Seq<char> {
        match self {
            CommandKind::Select => "SELECT"@,
            CommandKind::Insert => "INSERT"@,
            CommandKind::Update => "UPDATE"@,
            CommandKind::Delete => "DELETE"@,
            CommandKind::CreateTable => "CREATE TABLE"@,
            CommandKind::CreateIndex => "CREATE INDEX"@,
            CommandKind::AlterTable => "ALTER TABLE"@,
        }
    }

    /// The command tag that a client sees.
    pub fn tag(self) -> (tag: &'static str)
        ensures
            tag@ == self.spec_tag(),
    {
        match self {
            CommandKind::Select => "SELECT",
            CommandKind::Insert => "INSERT",
            CommandKind::Update => "UPDATE",
            CommandKind::Delete => "DELETE",
            CommandKind::CreateTable => "CREATE TABLE",
            CommandKind::CreateIndex => "CREATE INDEX",
            CommandKind::AlterTable => "ALTER TABLE",
        }
    }
}

/// A column of a result: its wire name, the field of the row that holds it, and its type.
#[derive(Debug, PartialEq)]
pub struct ResultColumn {
    pub name: String,
    pub field: String,
    pub scalar_type: ScalarType,
    pub nullable: bool,
    pub format: String,
}

/// The value of a [`ResultColumn`].
pub struct ResultColumnView {
    pub name: Seq<char>,
    pub field: Seq<char>,
    pub scalar_type: ScalarType,
    pub nullable: bool,
    pub format: Seq<char>,
}

pub open spec fn result_column_view(value: ResultColumn) -> ResultColumnView
{
    ResultColumnView {
        name: value.name@,
        field: value.field@,
        scalar_type: value.scalar_type,
        nullable: value.nullable,
        format: value.format@,
    }
}

impl View for ResultColumn {
    type V = ResultColumnView;

    open spec fn view(&self) -> ResultColumnView {
        result_column_view(*self)
    }
}

/// A bound statement parameter.
#[derive(Debug, PartialEq)]
pub struct Parameter {
    pub scalar_type: ScalarType,
    pub value: RawScalar,
}

/// The value of a [`Parameter`].
pub struct ParameterView {
    pub scalar_type: ScalarType,
    pub value: RawScalarView,
}

pub open spec fn parameter_view(value: Parameter) -> ParameterView
{
    ParameterView {
        scalar_type: value.scalar_type,
        value: lir::raw_scalar_view(value.value),
    }
}

impl View for Parameter {
    type V = ParameterView;

    open spec fn view(&self) -> ParameterView {
        parameter_view(*self)
    }
}

/// One step of a program.
#[derive(Debug, PartialEq)]
#[allow(inconsistent_fields)]
pub enum Statement {
    Query {
        name: String,
        relation: Query,
    },
    Create {
        name: String,
        relation: Query,
        table: String,
    },
    Update {
        name: String,
        relation: Query,
        table: String,
    },
    Delete {
        name: String,
        relation: Query,
        table: String,
    },
    CreateTable {
        name: String,
        table: TableDraft,
    },
    CreateIndex {
        name: String,
        table_id: SchemaId,
        index: IndexDef,
    },
}

/// The value of a [`Statement`].
#[allow(inconsistent_fields)]
pub enum StatementView {
    Query {
        name: Seq<char>,
        relation: QueryView,
    },
    Create {
        name: Seq<char>,
        relation: QueryView,
        table: Seq<char>,
    },
    Update {
        name: Seq<char>,
        relation: QueryView,
        table: Seq<char>,
    },
    Delete {
        name: Seq<char>,
        relation: QueryView,
        table: Seq<char>,
    },
    CreateTable {
        name: Seq<char>,
        table: TableDraftView,
    },
    CreateIndex {
        name: Seq<char>,
        table_id: SchemaId,
        index: IndexDefView,
    },
}

pub open spec fn statement_view(value: Statement) -> StatementView
{
    match value {
        Statement::Query { name, relation } => StatementView::Query {
            name: name@,
            relation: lir::query_view(relation),
        },
        Statement::Create { name, relation, table } => StatementView::Create {
            name: name@,
            relation: lir::query_view(relation),
            table: table@,
        },
        Statement::Update { name, relation, table } => StatementView::Update {
            name: name@,
            relation: lir::query_view(relation),
            table: table@,
        },
        Statement::Delete { name, relation, table } => StatementView::Delete {
            name: name@,
            relation: lir::query_view(relation),
            table: table@,
        },
        Statement::CreateTable { name, table } => StatementView::CreateTable {
            name: name@,
            table: catalog::table_draft_view(table),
        },
        Statement::CreateIndex { name, table_id, index } => StatementView::CreateIndex {
            name: name@,
            table_id: table_id,
            index: catalog::index_def_view(index),
        },
    }
}

impl View for Statement {
    type V = StatementView;

    open spec fn view(&self) -> StatementView {
        statement_view(*self)
    }
}

/// Statements in order, with the one whose rows are the result.
#[derive(Debug, PartialEq)]
pub struct Program {
    pub statements: Vec<Statement>,
    pub result: Option<String>,
}

/// The value of a [`Program`].
pub struct ProgramView {
    pub statements: Seq<StatementView>,
    pub result: Option<Seq<char>>,
}

pub open spec fn program_view(value: Program) -> ProgramView
{
    ProgramView {
        statements: statements_view(value.statements@),
        result: text::text_option(value.result),
    }
}

impl View for Program {
    type V = ProgramView;

    open spec fn view(&self) -> ProgramView {
        program_view(*self)
    }
}

/// A named row source that expressions can refer to.
#[derive(Debug, PartialEq)]
pub struct ScopeDef {
    pub alias: String,
    pub label: String,
    pub columns: Vec<ResultColumn>,
    pub primary_key: Vec<String>,
}

/// The value of a [`ScopeDef`].
pub struct ScopeDefView {
    pub alias: Seq<char>,
    pub label: Seq<char>,
    pub columns: Seq<ResultColumnView>,
    pub primary_key: Seq<Seq<char>>,
}

pub open spec fn scope_def_view(value: ScopeDef) -> ScopeDefView
{
    ScopeDefView {
        alias: value.alias@,
        label: value.label@,
        columns: result_columns_view(value.columns@),
        primary_key: text::texts(value.primary_key@),
    }
}

impl View for ScopeDef {
    type V = ScopeDefView;

    open spec fn view(&self) -> ScopeDefView {
        scope_def_view(*self)
    }
}

/// The row sources in reach of an expression, innermost level first.
#[derive(Debug, PartialEq)]
pub struct ExpressionEnv {
    pub levels: Vec<Vec<ScopeDef>>,
}

/// The value of an [`ExpressionEnv`].
pub struct ExpressionEnvView {
    pub levels: Seq<Seq<ScopeDefView>>,
}

pub open spec fn expression_env_view(value: ExpressionEnv) -> ExpressionEnvView
{
    ExpressionEnvView {
        levels: scope_def_rows_view(value.levels@),
    }
}

impl View for ExpressionEnv {
    type V = ExpressionEnvView;

    open spec fn view(&self) -> ExpressionEnvView {
        expression_env_view(*self)
    }
}

/// A lowered expression with its type.
#[derive(Debug, PartialEq)]
pub struct CompiledExpr {
    pub expr: Expr,
    pub scalar_type: ScalarType,
    pub nullable: bool,
}

/// The value of a [`CompiledExpr`].
pub struct CompiledExprView {
    pub expr: ExprView,
    pub scalar_type: ScalarType,
    pub nullable: bool,
}

pub open spec fn compiled_expr_view(value: CompiledExpr) -> CompiledExprView
{
    CompiledExprView {
        expr: lir::expr_view(value.expr),
        scalar_type: value.scalar_type,
        nullable: value.nullable,
    }
}

impl View for CompiledExpr {
    type V = CompiledExprView;

    open spec fn view(&self) -> CompiledExprView {
        compiled_expr_view(*self)
    }
}

/// A lowered query: its relation, its columns, the scope they stand in, and whether it yields at most one row.
#[derive(Debug, PartialEq)]
pub struct LoweredQuery {
    pub relation: Relation,
    pub columns: Vec<ResultColumn>,
    pub scope: String,
    pub one: bool,
}

/// The value of a [`LoweredQuery`].
pub struct LoweredQueryView {
    pub relation: RelationView,
    pub columns: Seq<ResultColumnView>,
    pub scope: Seq<char>,
    pub one: bool,
}

pub open spec fn lowered_query_view(value: LoweredQuery) -> LoweredQueryView
{
    LoweredQueryView {
        relation: lir::relation_view(value.relation),
        columns: result_columns_view(value.columns@),
        scope: value.scope@,
        one: value.one,
    }
}

impl View for LoweredQuery {
    type V = LoweredQueryView;

    open spec fn view(&self) -> LoweredQueryView {
        lowered_query_view(*self)
    }
}

/// What a SELECT reads from.
#[derive(Debug, PartialEq)]
pub struct SelectSource {
    pub relation: Relation,
    pub env: ExpressionEnv,
    pub default_order: Vec<OrderTerm>,
}

/// The value of a [`SelectSource`].
pub struct SelectSourceView {
    pub relation: RelationView,
    pub env: ExpressionEnvView,
    pub default_order: Seq<OrderTermView>,
}

pub open spec fn select_source_view(value: SelectSource) -> SelectSourceView
{
    SelectSourceView {
        relation: lir::relation_view(value.relation),
        env: expression_env_view(value.env),
        default_order: lir::order_terms_view(value.default_order@),
    }
}

impl View for SelectSource {
    type V = SelectSourceView;

    open spec fn view(&self) -> SelectSourceView {
        select_source_view(*self)
    }
}

/// The columns of a WITH name.
#[derive(Debug, PartialEq)]
pub struct BindingColumns {
    pub name: String,
    pub columns: Vec<ResultColumn>,
}

/// The value of a [`BindingColumns`].
pub struct BindingColumnsView {
    pub name: Seq<char>,
    pub columns: Seq<ResultColumnView>,
}

pub open spec fn binding_columns_view(value: BindingColumns) -> BindingColumnsView
{
    BindingColumnsView {
        name: value.name@,
        columns: result_columns_view(value.columns@),
    }
}

impl View for BindingColumns {
    type V = BindingColumnsView;

    open spec fn view(&self) -> BindingColumnsView {
        binding_columns_view(*self)
    }
}

/// The fields of a projection with their columns.
#[derive(Debug, PartialEq)]
pub struct Projected {
    pub fields: Vec<ProjectField>,
    pub columns: Vec<ResultColumn>,
}

/// The value of a [`Projected`].
pub struct ProjectedView {
    pub fields: Seq<ProjectFieldView>,
    pub columns: Seq<ResultColumnView>,
}

pub open spec fn projected_view(value: Projected) -> ProjectedView
{
    ProjectedView {
        fields: lir::project_fields_view(value.fields@),
        columns: result_columns_view(value.columns@),
    }
}

impl View for Projected {
    type V = ProjectedView;

    open spec fn view(&self) -> ProjectedView {
        projected_view(*self)
    }
}

/// Columns of an output relation that expressions can name.
#[derive(Debug, PartialEq)]
pub struct OutputScope {
    pub scope: String,
    pub columns: Vec<ResultColumn>,
}

/// The value of an [`OutputScope`].
pub struct OutputScopeView {
    pub scope: Seq<char>,
    pub columns: Seq<ResultColumnView>,
}

pub open spec fn output_scope_view(value: OutputScope) -> OutputScopeView
{
    OutputScopeView {
        scope: value.scope@,
        columns: result_columns_view(value.columns@),
    }
}

impl View for OutputScope {
    type V = OutputScopeView;

    open spec fn view(&self) -> OutputScopeView {
        output_scope_view(*self)
    }
}

pub open spec fn result_columns_view(values: Seq<ResultColumn>) -> Seq<ResultColumnView>
{
    Seq::new(
        values.len(),
        |i: int|
            if 0 <= i < values.len() {
                result_column_view(values[i])
            } else {
                arbitrary()
            },
    )
}

pub broadcast proof fn lemma_result_columns_push(values: Seq<ResultColumn>, value: ResultColumn)
    ensures
        #[trigger] result_columns_view(values.push(value)) == result_columns_view(values).push(value@),
{
    assert(result_columns_view(values.push(value)) =~= result_columns_view(values).push(value@));
}

pub broadcast proof fn lemma_no_result_columns()
    ensures
        #[trigger] result_columns_view(Seq::empty()) == Seq::<ResultColumnView>::empty(),
{
    assert(result_columns_view(Seq::empty()) =~= Seq::<ResultColumnView>::empty());
}

pub open spec fn parameters_view(values: Seq<Parameter>) -> Seq<ParameterView>
{
    Seq::new(
        values.len(),
        |i: int|
            if 0 <= i < values.len() {
                parameter_view(values[i])
            } else {
                arbitrary()
            },
    )
}

pub broadcast proof fn lemma_parameters_push(values: Seq<Parameter>, value: Parameter)
    ensures
        #[trigger] parameters_view(values.push(value)) == parameters_view(values).push(value@),
{
    assert(parameters_view(values.push(value)) =~= parameters_view(values).push(value@));
}

pub broadcast proof fn lemma_no_parameters()
    ensures
        #[trigger] parameters_view(Seq::empty()) == Seq::<ParameterView>::empty(),
{
    assert(parameters_view(Seq::empty()) =~= Seq::<ParameterView>::empty());
}

pub open spec fn statements_view(values: Seq<Statement>) -> Seq<StatementView>
{
    Seq::new(
        values.len(),
        |i: int|
            if 0 <= i < values.len() {
                statement_view(values[i])
            } else {
                arbitrary()
            },
    )
}

pub broadcast proof fn lemma_statements_push(values: Seq<Statement>, value: Statement)
    ensures
        #[trigger] statements_view(values.push(value)) == statements_view(values).push(value@),
{
    assert(statements_view(values.push(value)) =~= statements_view(values).push(value@));
}

pub broadcast proof fn lemma_no_statements()
    ensures
        #[trigger] statements_view(Seq::empty()) == Seq::<StatementView>::empty(),
{
    assert(statements_view(Seq::empty()) =~= Seq::<StatementView>::empty());
}

pub open spec fn scope_defs_view(values: Seq<ScopeDef>) -> Seq<ScopeDefView>
{
    Seq::new(
        values.len(),
        |i: int|
            if 0 <= i < values.len() {
                scope_def_view(values[i])
            } else {
                arbitrary()
            },
    )
}

pub broadcast proof fn lemma_scope_defs_push(values: Seq<ScopeDef>, value: ScopeDef)
    ensures
        #[trigger] scope_defs_view(values.push(value)) == scope_defs_view(values).push(value@),
{
    assert(scope_defs_view(values.push(value)) =~= scope_defs_view(values).push(value@));
}

pub broadcast proof fn lemma_no_scope_defs()
    ensures
        #[trigger] scope_defs_view(Seq::empty()) == Seq::<ScopeDefView>::empty(),
{
    assert(scope_defs_view(Seq::empty()) =~= Seq::<ScopeDefView>::empty());
}

pub open spec fn compiled_exprs_view(values: Seq<CompiledExpr>) -> Seq<CompiledExprView>
{
    Seq::new(
        values.len(),
        |i: int|
            if 0 <= i < values.len() {
                compiled_expr_view(values[i])
            } else {
                arbitrary()
            },
    )
}

pub broadcast proof fn lemma_compiled_exprs_push(values: Seq<CompiledExpr>, value: CompiledExpr)
    ensures
        #[trigger] compiled_exprs_view(values.push(value)) == compiled_exprs_view(values).push(value@),
{
    assert(compiled_exprs_view(values.push(value)) =~= compiled_exprs_view(values).push(value@));
}

pub broadcast proof fn lemma_no_compiled_exprs()
    ensures
        #[trigger] compiled_exprs_view(Seq::empty()) == Seq::<CompiledExprView>::empty(),
{
    assert(compiled_exprs_view(Seq::empty()) =~= Seq::<CompiledExprView>::empty());
}

pub open spec fn binding_columnss_view(values: Seq<BindingColumns>) -> Seq<BindingColumnsView>
{
    Seq::new(
        values.len(),
        |i: int|
            if 0 <= i < values.len() {
                binding_columns_view(values[i])
            } else {
                arbitrary()
            },
    )
}

pub broadcast proof fn lemma_binding_columnss_push(values: Seq<BindingColumns>, value: BindingColumns)
    ensures
        #[trigger] binding_columnss_view(values.push(value)) == binding_columnss_view(values).push(value@),
{
    assert(binding_columnss_view(values.push(value)) =~= binding_columnss_view(values).push(value@));
}

pub broadcast proof fn lemma_no_binding_columnss()
    ensures
        #[trigger] binding_columnss_view(Seq::empty()) == Seq::<BindingColumnsView>::empty(),
{
    assert(binding_columnss_view(Seq::empty()) =~= Seq::<BindingColumnsView>::empty());
}

pub open spec fn scope_def_rows_view(rows: Seq<Vec<ScopeDef>>) -> Seq<Seq<ScopeDefView>> {
    Seq::new(rows.len(), |i: int| scope_defs_view(rows[i]@))
}

pub open spec fn optional_output_scope_view(value: Option<OutputScope>) -> Option<OutputScopeView>
{
    match value {
        Some(value) => Some(output_scope_view(value)),
        None => None,
    }
}

pub broadcast group group_sql_views {
    lemma_result_columns_push,
    lemma_no_result_columns,
    lemma_parameters_push,
    lemma_no_parameters,
    lemma_statements_push,
    lemma_no_statements,
    lemma_scope_defs_push,
    lemma_no_scope_defs,
    lemma_compiled_exprs_push,
    lemma_no_compiled_exprs,
    lemma_binding_columnss_push,
    lemma_no_binding_columnss,
}

pub(crate) fn copy_result_column(value: &ResultColumn) -> (copy: ResultColumn)
    ensures
        copy@ == value@,
{
    ResultColumn {
        name: value.name.clone(),
        field: value.field.clone(),
        scalar_type: value.scalar_type,
        nullable: value.nullable,
        format: value.format.clone(),
    }
}

impl Clone for ResultColumn {
    fn clone(&self) -> (copy: Self)
        ensures
            copy@ == self@,
    {
        copy_result_column(self)
    }
}

pub(crate) fn copy_parameter(value: &Parameter) -> (copy: Parameter)
    ensures
        copy@ == value@,
{
    Parameter {
        scalar_type: value.scalar_type,
        value: lir::copy_raw_scalar(&value.value),
    }
}

impl Clone for Parameter {
    fn clone(&self) -> (copy: Self)
        ensures
            copy@ == self@,
    {
        copy_parameter(self)
    }
}

pub(crate) fn copy_statement(value: &Statement) -> (copy: Statement)
    ensures
        copy@ == value@,
{
    match value {
        Statement::Query { name, relation } => Statement::Query {
            name: name.clone(),
            relation: lir::copy_query(relation),
        },
        Statement::Create { name, relation, table } => Statement::Create {
            name: name.clone(),
            relation: lir::copy_query(relation),
            table: table.clone(),
        },
        Statement::Update { name, relation, table } => Statement::Update {
            name: name.clone(),
            relation: lir::copy_query(relation),
            table: table.clone(),
        },
        Statement::Delete { name, relation, table } => Statement::Delete {
            name: name.clone(),
            relation: lir::copy_query(relation),
            table: table.clone(),
        },
        Statement::CreateTable { name, table } => Statement::CreateTable {
            name: name.clone(),
            table: catalog::copy_table_draft(table),
        },
        Statement::CreateIndex { name, table_id, index } => Statement::CreateIndex {
            name: name.clone(),
            table_id: *table_id,
            index: catalog::copy_index_def(index),
        },
    }
}

impl Clone for Statement {
    fn clone(&self) -> (copy: Self)
        ensures
            copy@ == self@,
    {
        copy_statement(self)
    }
}

pub(crate) fn copy_program(value: &Program) -> (copy: Program)
    ensures
        copy@ == value@,
{
    Program {
        statements: copy_statements(&value.statements),
        result: copy_text_option(&value.result),
    }
}

impl Clone for Program {
    fn clone(&self) -> (copy: Self)
        ensures
            copy@ == self@,
    {
        copy_program(self)
    }
}

pub(crate) fn copy_scope_def(value: &ScopeDef) -> (copy: ScopeDef)
    ensures
        copy@ == value@,
{
    ScopeDef {
        alias: value.alias.clone(),
        label: value.label.clone(),
        columns: copy_result_columns(&value.columns),
        primary_key: copy_texts(&value.primary_key),
    }
}

impl Clone for ScopeDef {
    fn clone(&self) -> (copy: Self)
        ensures
            copy@ == self@,
    {
        copy_scope_def(self)
    }
}

pub(crate) fn copy_expression_env(value: &ExpressionEnv) -> (copy: ExpressionEnv)
    ensures
        copy@ == value@,
{
    ExpressionEnv {
        levels: copy_scope_def_rows(&value.levels),
    }
}

impl Clone for ExpressionEnv {
    fn clone(&self) -> (copy: Self)
        ensures
            copy@ == self@,
    {
        copy_expression_env(self)
    }
}

pub(crate) fn copy_compiled_expr(value: &CompiledExpr) -> (copy: CompiledExpr)
    ensures
        copy@ == value@,
{
    CompiledExpr {
        expr: lir::copy_expr(&value.expr),
        scalar_type: value.scalar_type,
        nullable: value.nullable,
    }
}

impl Clone for CompiledExpr {
    fn clone(&self) -> (copy: Self)
        ensures
            copy@ == self@,
    {
        copy_compiled_expr(self)
    }
}

pub(crate) fn copy_lowered_query(value: &LoweredQuery) -> (copy: LoweredQuery)
    ensures
        copy@ == value@,
{
    LoweredQuery {
        relation: lir::copy_relation(&value.relation),
        columns: copy_result_columns(&value.columns),
        scope: value.scope.clone(),
        one: value.one,
    }
}

impl Clone for LoweredQuery {
    fn clone(&self) -> (copy: Self)
        ensures
            copy@ == self@,
    {
        copy_lowered_query(self)
    }
}

pub(crate) fn copy_select_source(value: &SelectSource) -> (copy: SelectSource)
    ensures
        copy@ == value@,
{
    SelectSource {
        relation: lir::copy_relation(&value.relation),
        env: copy_expression_env(&value.env),
        default_order: lir::copy_order_terms(&value.default_order),
    }
}

impl Clone for SelectSource {
    fn clone(&self) -> (copy: Self)
        ensures
            copy@ == self@,
    {
        copy_select_source(self)
    }
}

pub(crate) fn copy_binding_columns(value: &BindingColumns) -> (copy: BindingColumns)
    ensures
        copy@ == value@,
{
    BindingColumns {
        name: value.name.clone(),
        columns: copy_result_columns(&value.columns),
    }
}

impl Clone for BindingColumns {
    fn clone(&self) -> (copy: Self)
        ensures
            copy@ == self@,
    {
        copy_binding_columns(self)
    }
}

pub(crate) fn copy_projected(value: &Projected) -> (copy: Projected)
    ensures
        copy@ == value@,
{
    Projected {
        fields: lir::copy_project_fields(&value.fields),
        columns: copy_result_columns(&value.columns),
    }
}

impl Clone for Projected {
    fn clone(&self) -> (copy: Self)
        ensures
            copy@ == self@,
    {
        copy_projected(self)
    }
}

pub(crate) fn copy_output_scope(value: &OutputScope) -> (copy: OutputScope)
    ensures
        copy@ == value@,
{
    OutputScope {
        scope: value.scope.clone(),
        columns: copy_result_columns(&value.columns),
    }
}

impl Clone for OutputScope {
    fn clone(&self) -> (copy: Self)
        ensures
            copy@ == self@,
    {
        copy_output_scope(self)
    }
}

/// A copy of a run of values.
pub fn copy_result_columns(values: &Vec<ResultColumn>) -> (copies: Vec<ResultColumn>)
    ensures
        result_columns_view(copies@) == result_columns_view(values@),
{
    let mut copies: Vec<ResultColumn> = Vec::new();
    let mut i: usize = 0;
    while i < values.len()
        invariant
            i <= values.len(),
            copies.len() == i,
            forall|k: int| 0 <= k < i ==> (#[trigger] copies@[k])@ == values@[k]@,
        decreases values.len() - i,
    {
        let value = &values[i];
        copies.push(copy_result_column(value));
        i += 1;
    }
    assert(result_columns_view(copies@) =~= result_columns_view(values@));
    copies
}

/// A copy of a run of values.
pub fn copy_statements(values: &Vec<Statement>) -> (copies: Vec<Statement>)
    ensures
        statements_view(copies@) == statements_view(values@),
{
    let mut copies: Vec<Statement> = Vec::new();
    let mut i: usize = 0;
    while i < values.len()
        invariant
            i <= values.len(),
            copies.len() == i,
            forall|k: int| 0 <= k < i ==> (#[trigger] copies@[k])@ == values@[k]@,
        decreases values.len() - i,
    {
        let value = &values[i];
        copies.push(copy_statement(value));
        i += 1;
    }
    assert(statements_view(copies@) =~= statements_view(values@));
    copies
}

/// A copy of a run of values.
pub fn copy_scope_defs(values: &Vec<ScopeDef>) -> (copies: Vec<ScopeDef>)
    ensures
        scope_defs_view(copies@) == scope_defs_view(values@),
{
    let mut copies: Vec<ScopeDef> = Vec::new();
    let mut i: usize = 0;
    while i < values.len()
        invariant
            i <= values.len(),
            copies.len() == i,
            forall|k: int| 0 <= k < i ==> (#[trigger] copies@[k])@ == values@[k]@,
        decreases values.len() - i,
    {
        let value = &values[i];
        copies.push(copy_scope_def(value));
        i += 1;
    }
    assert(scope_defs_view(copies@) =~= scope_defs_view(values@));
    copies
}

pub(crate) fn copy_scope_def_rows(rows: &Vec<Vec<ScopeDef>>) -> (copies: Vec<Vec<ScopeDef>>)
    ensures
        scope_def_rows_view(copies@) == scope_def_rows_view(rows@),
{
    let mut copies: Vec<Vec<ScopeDef>> = Vec::new();
    let mut i: usize = 0;
    while i < rows.len()
        invariant
            i <= rows.len(),
            copies.len() == i,
            forall|k: int| 0 <= k < i ==> scope_defs_view((#[trigger] copies@[k])@) == scope_defs_view(rows@[k]@),
        decreases rows.len() - i,
    {
        copies.push(copy_scope_defs(&rows[i]));
        i += 1;
    }
    assert(scope_def_rows_view(copies@) =~= scope_def_rows_view(rows@));
    copies
}

impl ResultColumnView {
    /// The row field of a column: its own, or its name where it has none.
    pub open spec fn row_field(self) -> Seq<char> {
        if self.field.len() == 0 {
            self.name
        } else {
            self.field
        }
    }
}

impl ResultColumn {
    /// The row field of a column: its own, or its name where it has none.
    pub fn field(&self) -> (field: &str)
        ensures
            field@ == self@.row_field(),
    {
        if self.field.as_str().unicode_len() == 0 {
            self.name.as_str()
        } else {
            self.field.as_str()
        }
    }
}

impl StatementView {
    /// The name of a statement.
    pub open spec fn label(self) -> Seq<char> {
        match self {
            StatementView::Query { name, .. } => name,
            StatementView::Create { name, .. } => name,
            StatementView::Update { name, .. } => name,
            StatementView::Delete { name, .. } => name,
            StatementView::CreateTable { name, .. } => name,
            StatementView::CreateIndex { name, .. } => name,
        }
    }
}

impl Statement {
    /// The name of a statement.
    pub fn name(&self) -> (name: &str)
        ensures
            name@ == self@.label(),
    {
        match self {
            Statement::Query { name, .. } => name.as_str(),
            Statement::Create { name, .. } => name.as_str(),
            Statement::Update { name, .. } => name.as_str(),
            Statement::Delete { name, .. } => name.as_str(),
            Statement::CreateTable { name, .. } => name.as_str(),
            Statement::CreateIndex { name, .. } => name.as_str(),
        }
    }
}

} // verus!
