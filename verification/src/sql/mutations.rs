//! Lowering of statements that change rows.

use vstd::prelude::*;

use crate::sql::assembly;
use crate::sql::assembly::Joined;
use crate::sql::catalog;
use crate::sql::catalog::{Table, TableView};
use crate::sql::context::Context;
use crate::sql::datatypes;
use crate::sql::env;
use crate::sql::env::{
    order_by_names, result_column, scope_named, ExpressionCompiler, ExpressionCompilerView,
};
use crate::sql::forms;
use crate::sql::lir;
use crate::sql::lir::{
    BinaryOp, Expr, ExprView, JoinKind, Kind, ProjectField, ProjectFieldView, Query, QueryView,
    RawScalar, RawScalarView, Relation, RelationView, RootCardinality, RowsColumn, RowsColumnView,
    ScalarType, UnaryOp,
};
use crate::sql::literals;
use crate::sql::literals::{identifier, object_name, type_text};
use crate::sql::lowering;
use crate::sql::lowering::{State, Step, Surroundings};
use crate::sql::operators;
use crate::sql::operators::{column_expr, fold_binary, unary};
use crate::sql::queries::{all_sources, source_result};
use crate::sql::shapes;
use crate::sql::tree;
use crate::sql::tree::{Tree, TreeView};
use crate::sql::types;
use crate::sql::types::{
    Error, ErrorView, ExpressionEnv, LoweredQueryView, Program, ProgramView, ResultColumn,
    ResultColumnView, ScopeDef, ScopeDefView, Statement, StatementView,
};
use crate::text;
use crate::text::{contains_text, count_text, join, join3, join4, join5, quoted, same_text};

verus! {

broadcast use {
    tree::group_tree_heights,
    lir::group_lir_views,
    types::group_sql_views,
    catalog::group_catalog_views,
};

/// A lowered statement that changes rows: its program, and the columns it
/// returns.
#[verifier::ext_equal]
pub struct Mutation {
    pub program: ProgramView,
    pub columns: Seq<ResultColumnView>,
}

/// The view of a fallible mutation.
pub open spec fn mutation_result(result: Result<(Program, Vec<ResultColumn>), Error>) -> Result<
    Mutation,
    ErrorView,
> {
    match result {
        Ok((program, columns)) => Ok(
            Mutation { program: program@, columns: types::result_columns_view(columns@) },
        ),
        Err(error) => Err(error@),
    }
}

/// A table by name.
pub open spec fn table_of(around: Surroundings, name: TreeView) -> Result<TableView, ErrorView> {
    match literals::object_text(name) {
        Err(error) => Err(error),
        Ok(name) => match catalog::find_table(around.tables, name) {
            Some(table) => Ok(table),
            None => Err(ErrorView::Invalid("unknown table "@ + text::quoted_text(name))),
        },
    }
}

/// A query over a relation, with the WITH names known so far.
pub open spec fn query_over(state: State, root: RelationView) -> QueryView {
    QueryView { root, cardinality: RootCardinality::Many, bindings: state.bindings }
}

/// A projection that names no scope.
pub open spec fn unscoped(input: RelationView, fields: Seq<ProjectFieldView>) -> RelationView {
    RelationView::Project { input: Box::new(input), scope: None, spread: Seq::empty(), fields }
}

/// Object names from a position on.
pub open spec fn object_texts(names: TreeView, i: nat, done: Seq<Seq<char>>) -> Result<
    Seq<Seq<char>>,
    ErrorView,
>
    decreases tree::list(names).len() - i,
{
    if i >= tree::list(names).len() {
        Ok(done)
    } else {
        match literals::object_text(tree::list(names)[i as int]) {
            Err(error) => Err(error),
            Ok(name) => object_texts(names, i + 1, done.push(name)),
        }
    }
}

/// The columns that an INSERT fills: those named, or all.
pub open spec fn target_columns(table: TableView, names: TreeView) -> Result<
    Seq<Seq<char>>,
    ErrorView,
> {
    if tree::list(names).len() == 0 {
        Ok(Seq::new(table.columns.len(), |i: int| table.columns[i].name))
    } else {
        object_texts(names, 0, Seq::empty())
    }
}

/// Whether a table has all columns from a position on.
pub open spec fn has_columns(table: TableView, names: Seq<Seq<char>>, i: nat) -> Result<
    (),
    ErrorView,
>
    decreases names.len() - i,
{
    if i >= names.len() {
        Ok(())
    } else if catalog::find_column(table.columns, names[i as int]) is None {
        Err(ErrorView::Invalid("unknown column "@ + text::quoted_text(names[i as int])))
    } else {
        has_columns(table, names, i + 1)
    }
}

/// A value of an INSERT.
pub open spec fn raw_value(
    around: Surroundings,
    state: State,
    expression: TreeView,
    expected: ScalarType,
) -> Step<RawScalarView>
    decreases tree::height(expression),
{
    let cast = tree::at(expression, "Cast"@);
    if tree::is(expression, "Value"@) {
        lowering::raw_literal(around, state, shapes::value_of(expression), expected)
    } else if tree::is(expression, "Cast"@) {
        match datatypes::typed(tree::at(cast, "data_type"@)) {
            Err(error) => Err(error),
            Ok((to, _)) => if to == expected {
                raw_value(around, state, tree::at(cast, "expr"@), expected)
            } else {
                Err(values_only())
            },
        }
    } else {
        Err(values_only())
    }
}

pub open spec fn values_only() -> ErrorView {
    ErrorView::Unsupported(
        "INSERT VALUES currently accepts literals, parameters, and casts only"@,
    )
}

/// The column of a table that an INSERT fills.
pub open spec fn target(table: TableView, name: Seq<char>) -> catalog::ColumnView {
    catalog::find_column(table.columns, name)->0
}

/// The values of an INSERT row from a position on.
pub open spec fn row_values(
    around: Surroundings,
    state: State,
    row: TreeView,
    i: nat,
    table: TableView,
    columns: Seq<Seq<char>>,
    done: Seq<RawScalarView>,
) -> Step<Seq<RawScalarView>>
    decreases tree::list(row).len() - i,
{
    if i >= tree::list(row).len() {
        Ok((done, state))
    } else {
        match raw_value(
            around,
            state,
            tree::list(row)[i as int],
            target(table, columns[i as int]).scalar_type,
        ) {
            Err(error) => Err(error),
            Ok((value, state)) => row_values(
                around,
                state,
                row,
                i + 1,
                table,
                columns,
                done.push(value),
            ),
        }
    }
}

/// The rows of an INSERT from a position on.
pub open spec fn value_rows(
    around: Surroundings,
    state: State,
    rows: TreeView,
    i: nat,
    table: TableView,
    columns: Seq<Seq<char>>,
    done: Seq<Seq<RawScalarView>>,
) -> Step<Seq<Seq<RawScalarView>>>
    decreases tree::list(rows).len() - i,
{
    if i >= tree::list(rows).len() {
        Ok((done, state))
    } else {
        let row = tree::at(tree::list(rows)[i as int], "content"@);
        if tree::list(row).len() != columns.len() {
            Err(
                ErrorView::Invalid(
                    "INSERT row has "@ + text::decimal(tree::list(row).len()) + " values for "@
                        + text::decimal(columns.len()) + " columns"@,
                ),
            )
        } else {
            match row_values(around, state, row, 0, table, columns, Seq::empty()) {
                Err(error) => Err(error),
                Ok((values, state)) => value_rows(
                    around,
                    state,
                    rows,
                    i + 1,
                    table,
                    columns,
                    done.push(values),
                ),
            }
        }
    }
}

/// The names from a position on that are key columns.
pub open spec fn key_columns(
    columns: Seq<Seq<char>>,
    key: Seq<Seq<char>>,
    i: nat,
    done: Seq<Seq<char>>,
) -> Seq<Seq<char>>
    decreases columns.len() - i,
{
    if i >= columns.len() {
        done
    } else {
        key_columns(
            columns,
            key,
            i + 1,
            if key.contains(columns[i as int]) {
                done.push(columns[i as int])
            } else {
                done
            },
        )
    }
}

/// The rows that an INSERT would add, as a row source.
pub open spec fn excluded_scope(table: TableView, columns: Seq<Seq<char>>, label: Seq<char>) -> ScopeDefView {
    ScopeDefView {
        alias: "excluded"@,
        label,
        columns: Seq::new(columns.len(), |i: int| env::column_result(target(table, columns[i]))),
        primary_key: key_columns(columns, table.primary_key, 0, Seq::empty()),
    }
}

/// The columns of constant rows.
pub open spec fn rows_columns(table: TableView, columns: Seq<Seq<char>>) -> Seq<RowsColumnView> {
    Seq::new(
        columns.len(),
        |i: int|
            RowsColumnView {
                name: columns[i],
                kind: lir::kind_of(target(table, columns[i]).scalar_type),
                nullable: target(table, columns[i]).nullable,
            },
    )
}

/// The fields that an INSERT takes from a query, from a position on. Each must
/// have the type of the column it fills.
pub open spec fn query_fields(
    table: TableView,
    columns: Seq<Seq<char>>,
    query: LoweredQueryView,
    i: nat,
    done: Seq<ProjectFieldView>,
) -> Result<Seq<ProjectFieldView>, ErrorView>
    decreases columns.len() - i,
{
    if i >= columns.len() {
        Ok(done)
    } else {
        let wanted = target(table, columns[i as int]).scalar_type;
        let source = query.columns[i as int];
        if source.scalar_type != wanted {
            Err(
                ErrorView::Invalid(
                    "INSERT column "@ + text::quoted_text(columns[i as int]) + " is "@
                        + literals::type_label(wanted) + ", query returns "@
                        + literals::type_label(source.scalar_type),
                ),
            )
        } else {
            query_fields(
                table,
                columns,
                query,
                i + 1,
                done.push(
                    ProjectFieldView {
                        name: columns[i as int],
                        expression: operators::column_of(query.scope, source.row_field()),
                    },
                ),
            )
        }
    }
}

/// The rows that an INSERT would add: constants, or what a query returns.
pub open spec fn insert_source(
    around: Surroundings,
    state: State,
    table: TableView,
    columns: Seq<Seq<char>>,
    source: TreeView,
) -> Step<(RelationView, ScopeDefView)> {
    let body = tree::at(source, "body"@);
    if tree::is(body, "Values"@) {
        let label = fresh(state, "insert_values"@);
        match value_rows(
            around,
            lowering::after_label(state),
            tree::at(tree::at(body, "Values"@), "rows"@),
            0,
            table,
            columns,
            Seq::empty(),
        ) {
            Err(error) => Err(error),
            Ok((values, state)) => Ok(
                (
                    (
                        RelationView::Rows {
                            scope: label,
                            columns: rows_columns(table, columns),
                            values,
                        },
                        excluded_scope(table, columns, label),
                    ),
                    state,
                ),
            ),
        }
    } else {
        match lowering::lowered(around, state, source, env::no_env()) {
            Err(error) => Err(error),
            Ok((query, state)) => if query.columns.len() != columns.len() {
                Err(
                    ErrorView::Invalid(
                        "INSERT has "@ + text::decimal(columns.len())
                            + " target columns but query returns "@ + text::decimal(
                            query.columns.len(),
                        ),
                    ),
                )
            } else {
                let label = fresh(state, "insert_select"@);
                match query_fields(table, columns, query, 0, Seq::empty()) {
                    Err(error) => Err(error),
                    Ok(fields) => Ok(
                        (
                            (
                                lowering::project(query.relation, label, fields),
                                excluded_scope(table, columns, label),
                            ),
                            lowering::after_label(state),
                        ),
                    ),
                }
            },
        }
    }
}

pub open spec fn fresh(state: State, base: Seq<char>) -> Seq<char> {
    lowering::fresh_label(state, base)
}

/// The columns of the unique indexes from a position on.
pub open spec fn unique_keys(table: TableView, i: nat, done: Seq<Seq<Seq<char>>>) -> Seq<
    Seq<Seq<char>>,
>
    decreases table.indexes.len() - i,
{
    if i >= table.indexes.len() {
        done
    } else {
        unique_keys(
            table,
            i + 1,
            if table.indexes[i as int].unique {
                done.push(table.indexes[i as int].columns)
            } else {
                done
            },
        )
    }
}

/// The keys that a conflict target names: listed columns, the columns of a
/// constraint, or all keys.
pub open spec fn named_targets(table: TableView, wanted: TreeView) -> Result<
    Seq<Seq<Seq<char>>>,
    ErrorView,
> {
    if tree::is(wanted, "Columns"@) {
        Ok(seq![shapes::ident_names(tree::at(wanted, "Columns"@))])
    } else if tree::is(wanted, "OnConstraint"@) {
        match literals::object_text(tree::at(wanted, "OnConstraint"@)) {
            Err(error) => Err(error),
            Ok(name) => match catalog::find_index(table.indexes, name) {
                Some(index) => Ok(seq![index.columns]),
                None => if name == table.name + "_pkey"@ {
                    Ok(seq![table.primary_key])
                } else {
                    Err(
                        ErrorView::Invalid(
                            "unknown conflict constraint "@ + text::quoted_text(name),
                        ),
                    )
                },
            },
        }
    } else {
        Ok(unique_keys(table, 0, seq![table.primary_key]))
    }
}

/// Whether a table has all columns of a key from a position on.
pub open spec fn known_key(table: TableView, key: Seq<Seq<char>>, i: nat) -> Result<(), ErrorView>
    decreases key.len() - i,
{
    if i >= key.len() {
        Ok(())
    } else if catalog::find_column(table.columns, key[i as int]) is None {
        Err(ErrorView::Invalid("unknown conflict column "@ + text::quoted_text(key[i as int])))
    } else {
        known_key(table, key, i + 1)
    }
}

/// Whether all keys from a position on have columns, and a table has them.
pub open spec fn known_keys(table: TableView, keys: Seq<Seq<Seq<char>>>, i: nat) -> Result<
    (),
    ErrorView,
>
    decreases keys.len() - i,
{
    if i >= keys.len() {
        Ok(())
    } else if keys[i as int].len() == 0 {
        Err(ErrorView::Invalid("ON CONFLICT target is empty"@))
    } else {
        match known_key(table, keys[i as int], 0) {
            Err(error) => Err(error),
            Ok(_) => known_keys(table, keys, i + 1),
        }
    }
}

/// The keys on which an INSERT may conflict.
pub open spec fn conflict_targets(table: TableView, wanted: TreeView) -> Result<
    Seq<Seq<Seq<char>>>,
    ErrorView,
> {
    match named_targets(table, wanted) {
        Err(error) => Err(error),
        Ok(keys) => match known_keys(table, keys, 0) {
            Err(error) => Err(error),
            Ok(_) => Ok(keys),
        },
    }
}

/// That stored and inserted rows agree in key columns, from a position on.
pub open spec fn key_agreements(
    stored: ScopeDefView,
    inserted: ScopeDefView,
    key: Seq<Seq<char>>,
    i: nat,
    done: Seq<ExprView>,
) -> Result<Seq<ExprView>, ErrorView>
    decreases key.len() - i,
{
    if i >= key.len() {
        Ok(done)
    } else if env::find_column(stored.columns, key[i as int]) is None {
        Err(
            ErrorView::Invalid(
                "unknown conflict target column "@ + text::quoted_text(key[i as int]),
            ),
        )
    } else if env::find_column(inserted.columns, key[i as int]) is None {
        Err(
            ErrorView::Invalid(
                "conflict column "@ + text::quoted_text(key[i as int]) + " is not inserted"@,
            ),
        )
    } else {
        key_agreements(
            stored,
            inserted,
            key,
            i + 1,
            done.push(lowering::agreement(stored, inserted, key[i as int])),
        )
    }
}

/// That a stored and an inserted row have the same key.
pub open spec fn conflict_predicate(
    stored: ScopeDefView,
    inserted: ScopeDefView,
    key: Seq<Seq<char>>,
) -> Result<ExprView, ErrorView> {
    match key_agreements(stored, inserted, key, 0, Seq::empty()) {
        Err(error) => Err(error),
        Ok(agreements) => operators::folded(agreements, BinaryOp::And),
    }
}

/// That a stored row has the same key, for each key from a position on.
pub open spec fn conflicts(
    state: State,
    table: TableView,
    inserted: ScopeDefView,
    keys: Seq<Seq<Seq<char>>>,
    i: nat,
    done: Seq<ExprView>,
) -> Step<Seq<ExprView>>
    decreases keys.len() - i,
{
    if i >= keys.len() {
        Ok((done, state))
    } else {
        let label = fresh(state, "conflict"@);
        match conflict_predicate(
            env::table_scope(table, table.name, label),
            inserted,
            keys[i as int],
        ) {
            Err(error) => Err(error),
            Ok(predicate) => conflicts(
                lowering::after_label(state),
                table,
                inserted,
                keys,
                i + 1,
                done.push(
                    ExprView::Exists(
                        Box::new(
                            RelationView::Filter {
                                input: Box::new(
                                    RelationView::Scan { table: table.name, scope: label },
                                ),
                                predicate,
                            },
                        ),
                    ),
                ),
            ),
        }
    }
}

/// That an inserted row conflicts with a stored one.
pub open spec fn conflict_exists(
    state: State,
    table: TableView,
    inserted: ScopeDefView,
    keys: Seq<Seq<Seq<char>>>,
) -> Step<ExprView> {
    match conflicts(state, table, inserted, keys, 0, Seq::empty()) {
        Err(error) => Err(error),
        Ok((found, state)) => lowering::settled(operators::folded(found, BinaryOp::Or), state),
    }
}

/// What a statement on rows of a table returns, where it returns anything: the
/// changed rows, projected.
pub open spec fn with_returning(
    around: Surroundings,
    state: State,
    mutation: StatementView,
    table: TableView,
    returning: TreeView,
) -> Step<Mutation> {
    if returning is Null {
        Ok(
            (
                Mutation {
                    program: ProgramView { statements: seq![mutation], result: None },
                    columns: Seq::empty(),
                },
                state,
            ),
        )
    } else {
        let scope = "returned"@;
        let changed = env::ordered_by_names(
            RelationView::Ref { binding: mutation.label(), scope },
            table.primary_key,
            scope,
        );
        let env = env::local_env(seq![env::table_scope(table, scope, scope)], env::no_env());
        match lowering::projected(
            around,
            state,
            env::over(env),
            returning,
            0,
            lowering::no_outputs(),
        ) {
            Err(error) => Err(error),
            Ok((outputs, state)) => Ok(
                (
                    Mutation {
                        program: ProgramView {
                            statements: seq![
                                mutation,
                                StatementView::Query {
                                    name: "sql_result"@,
                                    relation: QueryView {
                                        root: unscoped(changed, outputs.fields),
                                        cardinality: RootCardinality::Many,
                                        bindings: Seq::empty(),
                                    },
                                },
                            ],
                            result: Some("sql_result"@),
                        },
                        columns: outputs.columns,
                    },
                    state,
                ),
            ),
        }
    }
}

/// Fields that carry the primary key of a row source.
pub open spec fn key_fields(key: Seq<Seq<char>>, label: Seq<char>) -> Seq<ProjectFieldView> {
    Seq::new(
        key.len(),
        |i: int|
            ProjectFieldView { name: key[i], expression: operators::column_of(label, key[i]) },
    )
}

/// Which assignments stand where: an upsert skips key columns, an UPDATE
/// refuses them.
pub open spec fn assigned(
    around: Surroundings,
    state: State,
    compiler: ExpressionCompilerView,
    table: TableView,
    assignments: TreeView,
    i: nat,
    upsert: bool,
    done: Seq<ProjectFieldView>,
) -> Step<Seq<ProjectFieldView>>
    decreases tree::list(assignments).len() - i,
{
    if i >= tree::list(assignments).len() {
        Ok((done, state))
    } else {
        let assignment = tree::list(assignments)[i as int];
        let place = tree::at(assignment, "target"@);
        if !tree::is(place, "ColumnName"@) {
            Err(
                ErrorView::Unsupported(
                    if upsert {
                        "tuple assignments in ON CONFLICT are not supported"@
                    } else {
                        "tuple assignments are not supported yet"@
                    },
                ),
            )
        } else {
            match literals::object_text(tree::at(place, "ColumnName"@)) {
                Err(error) => Err(error),
                Ok(name) => if !upsert && table.primary_key.contains(name) {
                    Err(ErrorView::Invalid("primary keys cannot be updated"@))
                } else {
                    match catalog::find_column(table.columns, name) {
                        None => Err(
                            ErrorView::Invalid("unknown column "@ + text::quoted_text(name)),
                        ),
                        Some(column) => if upsert && table.primary_key.contains(name) {
                            assigned(
                                around,
                                state,
                                compiler,
                                table,
                                assignments,
                                i + 1,
                                upsert,
                                done,
                            )
                        } else {
                            match lowering::compiled(
                                around,
                                state,
                                compiler,
                                tree::at(assignment, "value"@),
                                Some(column.scalar_type),
                            ) {
                                Err(error) => Err(error),
                                Ok((value, state)) => assigned(
                                    around,
                                    state,
                                    compiler,
                                    table,
                                    assignments,
                                    i + 1,
                                    upsert,
                                    done.push(
                                        ProjectFieldView { name, expression: value.expr },
                                    ),
                                ),
                            }
                        },
                    }
                },
            }
        }
    }
}

/// Inserted rows joined to the stored rows with the same key.
pub open spec fn matched_rows(
    rows: RelationView,
    table: TableView,
    label: Seq<char>,
    on: ExprView,
) -> RelationView {
    RelationView::Join {
        left: Box::new(rows),
        right: Box::new(RelationView::Scan { table: table.name, scope: label }),
        kind: JoinKind::Inner,
        on,
    }
}

/// The update of an upsert: inserted rows that match a stored one change it.
pub open spec fn upsert_update(
    around: Surroundings,
    state: State,
    insert: TreeView,
    table: TableView,
    rows: RelationView,
    inserted: ScopeDefView,
    key: Seq<Seq<char>>,
    update: TreeView,
) -> Step<StatementView> {
    let alias = tree::at(insert, "table_alias"@);
    let label = fresh(state, table.name);
    let state = lowering::after_label(state);
    let known = if alias is Null {
        table.name
    } else {
        literals::ident_name(tree::at(alias, "alias"@))
    };
    let stored = env::table_scope(table, known, label);
    match conflict_predicate(stored, inserted, key) {
        Err(error) => Err(error),
        Ok(on) => {
            let env = env::local_env(seq![inserted, stored], env::no_env());
            match lowering::filtered(
                around,
                state,
                env::over(env),
                matched_rows(rows, table, label, on),
                tree::at(update, "selection"@),
            ) {
                Err(error) => Err(error),
                Ok((matched, state)) => match assigned(
                    around,
                    state,
                    env::over(env),
                    table,
                    tree::at(update, "assignments"@),
                    0,
                    true,
                    key_fields(table.primary_key, label),
                ) {
                    Err(error) => Err(error),
                    Ok((fields, state)) => Ok(
                        (
                            StatementView::Update {
                                name: "sql_upsert_update"@,
                                relation: query_over(
                                    state,
                                    unscoped(
                                        env::ordered_by_names(matched, table.primary_key, label),
                                        fields,
                                    ),
                                ),
                                table: table.name,
                            },
                            state,
                        ),
                    ),
                },
            }
        },
    }
}

/// What an upsert returns: the stored rows with the inserted keys, projected.
pub open spec fn upsert_result(
    around: Surroundings,
    state: State,
    table: TableView,
    rows: RelationView,
    inserted: ScopeDefView,
    key: Seq<Seq<char>>,
    statements: Seq<StatementView>,
    returning: TreeView,
) -> Step<Mutation> {
    if returning is Null {
        Ok(
            (
                Mutation {
                    program: ProgramView { statements, result: None },
                    columns: Seq::empty(),
                },
                state,
            ),
        )
    } else {
        let label = fresh(state, table.name);
        let state = lowering::after_label(state);
        let stored = env::table_scope(table, table.name, label);
        match conflict_predicate(stored, inserted, key) {
            Err(error) => Err(error),
            Ok(on) => {
                let relation = env::ordered_by_names(
                    matched_rows(rows, table, label, on),
                    table.primary_key,
                    label,
                );
                let env = env::local_env(seq![stored], env::no_env());
                match lowering::projected(
                    around,
                    state,
                    env::over(env),
                    returning,
                    0,
                    lowering::no_outputs(),
                ) {
                    Err(error) => Err(error),
                    Ok((outputs, state)) => Ok(
                        (
                            Mutation {
                                program: ProgramView {
                                    statements: statements.push(
                                        StatementView::Query {
                                            name: "sql_result"@,
                                            relation: query_over(
                                                state,
                                                unscoped(relation, outputs.fields),
                                            ),
                                        },
                                    ),
                                    result: Some("sql_result"@),
                                },
                                columns: outputs.columns,
                            },
                            state,
                        ),
                    ),
                }
            },
        }
    }
}

/// The create of an upsert: inserted rows that match no stored one.
pub open spec fn upsert_create(
    state: State,
    table: TableView,
    columns: Seq<Seq<char>>,
    rows: RelationView,
    inserted: ScopeDefView,
    exists: ExprView,
) -> StatementView {
    StatementView::Create {
        name: "sql_upsert_create"@,
        relation: query_over(
            state,
            env::ordered_by_names(
                RelationView::Filter {
                    input: Box::new(rows),
                    predicate: operators::unary_of(UnaryOp::Not, exists),
                },
                columns,
                inserted.label,
            ),
        ),
        table: table.name,
    }
}

/// An INSERT with an ON CONFLICT clause.
pub open spec fn upserted(
    around: Surroundings,
    state: State,
    insert: TreeView,
    table: TableView,
    columns: Seq<Seq<char>>,
    rows: RelationView,
    inserted: ScopeDefView,
) -> Step<Mutation> {
    let on = tree::at(insert, "on"@);
    let conflict = tree::at(on, "OnConflict"@);
    let action = tree::at(conflict, "action"@);
    let returning = tree::at(insert, "returning"@);
    if !tree::is(on, "OnConflict"@) {
        Err(
            ErrorView::Unsupported("ON DUPLICATE KEY UPDATE is not PostgreSQL syntax"@),
        )
    } else {
        match conflict_targets(table, tree::at(conflict, "conflict_target"@)) {
            Err(error) => Err(error),
            Ok(keys) => match conflict_exists(state, table, inserted, keys) {
                Err(error) => Err(error),
                Ok((exists, state)) => {
                    let create = upsert_create(state, table, columns, rows, inserted, exists);
                    if !tree::is(action, "DoUpdate"@) {
                        with_returning(around, state, create, table, returning)
                    } else if keys.len() != 1 {
                        Err(
                            ErrorView::Invalid(
                                "ON CONFLICT DO UPDATE needs one conflict target"@,
                            ),
                        )
                    } else {
                        match upsert_update(
                            around,
                            state,
                            insert,
                            table,
                            rows,
                            inserted,
                            keys[0],
                            tree::at(action, "DoUpdate"@),
                        ) {
                            Err(error) => Err(error),
                            Ok((update, state)) => upsert_result(
                                around,
                                state,
                                table,
                                rows,
                                inserted,
                                keys[0],
                                seq![update, create],
                                returning,
                            ),
                        }
                    }
                },
            },
        }
    }
}

/// An INSERT.
pub open spec fn inserted(around: Surroundings, state: State, insert: TreeView) -> Step<Mutation> {
    let place = tree::at(insert, "table"@);
    let source = tree::at(insert, "source"@);
    if !tree::is(place, "TableName"@) {
        Err(ErrorView::Unsupported("INSERT table functions are not supported"@))
    } else {
        match table_of(around, tree::at(place, "TableName"@)) {
            Err(error) => Err(error),
            Ok(table) => if source is Null {
                Err(ErrorView::Invalid("INSERT needs a VALUES or SELECT source"@))
            } else {
                match target_columns(table, tree::at(insert, "columns"@)) {
                    Err(error) => Err(error),
                    Ok(columns) => match has_columns(table, columns, 0) {
                        Err(error) => Err(error),
                        Ok(_) => match insert_source(around, state, table, columns, source) {
                            Err(error) => Err(error),
                            Ok(((rows, scope), state)) => if !(tree::at(insert, "on"@) is Null) {
                                upserted(around, state, insert, table, columns, rows, scope)
                            } else {
                                with_returning(
                                    around,
                                    state,
                                    StatementView::Create {
                                        name: "sql_mutation"@,
                                        relation: query_over(
                                            state,
                                            env::ordered_by_names(rows, columns, scope.label),
                                        ),
                                        table: table.name,
                                    },
                                    table,
                                    tree::at(insert, "returning"@),
                                )
                            },
                        },
                    },
                }
            },
        }
    }
}

/// The rows that an UPDATE or DELETE changes: its own row sources and others,
/// filtered, with the row source it changes.
pub open spec fn changed_rows(
    around: Surroundings,
    state: State,
    sources: lowering::Sources,
    known: Seq<char>,
    selection: TreeView,
    missing: Seq<char>,
) -> Step<(RelationView, ScopeDefView)> {
    let source = lowering::all_sources(sources, env::no_env());
    match env::find_scope(env::local_scopes(source.env), known) {
        None => Err(ErrorView::Invalid(missing)),
        Some(scope) => match lowering::filtered(
            around,
            state,
            env::over(source.env),
            source.relation,
            selection,
        ) {
            Err(error) => Err(error),
            Ok((relation, state)) => Ok(((relation, scope), state)),
        },
    }
}

/// The FROM items of an UPDATE.
pub open spec fn update_items(update: TreeView) -> TreeView {
    let from = tree::at(update, "from"@);
    if tree::is(from, "BeforeSet"@) {
        tree::at(from, "BeforeSet"@)
    } else {
        tree::at(from, "AfterSet"@)
    }
}

/// An UPDATE of a table in the row sources that it reads.
pub open spec fn updated_in(
    around: Surroundings,
    state: State,
    update: TreeView,
    table: TableView,
    sources: lowering::Sources,
) -> Step<Mutation> {
    let named = tree::at(tree::at(tree::at(update, "table"@), "relation"@), "Table"@);
    match changed_rows(
        around,
        state,
        sources,
        lowering::alias_name(tree::at(named, "alias"@), table.name),
        tree::at(update, "selection"@),
        "UPDATE target scope is missing"@,
    ) {
        Err(error) => Err(error),
        Ok(((relation, scope), state)) => {
            let env = env::local_env(sources.scopes, env::no_env());
            match assigned(
                around,
                state,
                env::over(env),
                table,
                tree::at(update, "assignments"@),
                0,
                false,
                key_fields(table.primary_key, scope.label),
            ) {
                Err(error) => Err(error),
                Ok((fields, state)) => with_returning(
                    around,
                    state,
                    StatementView::Update {
                        name: "sql_mutation"@,
                        relation: query_over(
                            state,
                            unscoped(
                                env::ordered_by_names(
                                    relation,
                                    table.primary_key,
                                    scope.label,
                                ),
                                fields,
                            ),
                        ),
                        table: table.name,
                    },
                    table,
                    tree::at(update, "returning"@),
                ),
            }
        },
    }
}

/// An UPDATE.
pub open spec fn updated(around: Surroundings, state: State, update: TreeView) -> Step<Mutation> {
    let item = tree::at(update, "table"@);
    let factor = tree::at(item, "relation"@);
    let named = tree::at(factor, "Table"@);
    if !tree::is(factor, "Table"@) {
        Err(ErrorView::Unsupported("derived UPDATE targets are not supported"@))
    } else {
        match table_of(around, tree::at(named, "name"@)) {
            Err(error) => Err(error),
            Ok(table) => match lowering::from_item(
                around,
                state,
                item,
                env::no_env(),
                lowering::no_sources(),
            ) {
                Err(error) => Err(error),
                Ok((sources, state)) => match lowering::from_items(
                    around,
                    state,
                    update_items(update),
                    0,
                    env::no_env(),
                    sources,
                ) {
                    Err(error) => Err(error),
                    Ok((sources, state)) => updated_in(around, state, update, table, sources),
                },
            },
        }
    }
}

/// The tables that a DELETE names.
pub open spec fn delete_items(delete: TreeView) -> TreeView {
    let from = tree::at(delete, "from"@);
    if tree::is(from, "WithFromKeyword"@) {
        tree::at(from, "WithFromKeyword"@)
    } else {
        tree::at(from, "WithoutKeyword"@)
    }
}

/// A DELETE from a table in the row sources that it reads.
pub open spec fn deleted_in(
    around: Surroundings,
    state: State,
    delete: TreeView,
    table: TableView,
    items: TreeView,
    sources: lowering::Sources,
) -> Step<Mutation> {
    let named = tree::at(tree::at(tree::list(items)[0], "relation"@), "Table"@);
    match changed_rows(
        around,
        state,
        sources,
        lowering::alias_name(tree::at(named, "alias"@), table.name),
        tree::at(delete, "selection"@),
        "DELETE target scope is missing"@,
    ) {
        Err(error) => Err(error),
        Ok(((relation, scope), state)) => with_returning(
            around,
            state,
            StatementView::Delete {
                name: "sql_mutation"@,
                relation: query_over(
                    state,
                    unscoped(
                        env::ordered_by_names(
                            relation,
                            table.primary_key,
                            scope.label,
                        ),
                        key_fields(table.primary_key, scope.label),
                    ),
                ),
                table: table.name,
            },
            table,
            tree::at(delete, "returning"@),
        ),
    }
}

/// A DELETE.
pub open spec fn deleted(around: Surroundings, state: State, delete: TreeView) -> Step<Mutation> {
    let items = delete_items(delete);
    let factor = tree::at(tree::list(items)[0], "relation"@);
    let named = tree::at(factor, "Table"@);
    if tree::list(items).len() != 1 {
        Err(ErrorView::Unsupported("multi-target DELETE is not supported"@))
    } else if !tree::is(factor, "Table"@) {
        Err(ErrorView::Unsupported("derived DELETE targets are not supported"@))
    } else {
        match table_of(around, tree::at(named, "name"@)) {
            Err(error) => Err(error),
            Ok(table) => match lowering::from_items(
                around,
                state,
                items,
                0,
                env::no_env(),
                lowering::no_sources(),
            ) {
                Err(error) => Err(error),
                Ok((sources, state)) => match lowering::from_items(
                    around,
                    state,
                    tree::at(delete, "using"@),
                    0,
                    env::no_env(),
                    sources,
                ) {
                    Err(error) => Err(error),
                    Ok((sources, state)) => deleted_in(
                        around,
                        state,
                        delete,
                        table,
                        items,
                        sources,
                    ),
                },
            },
        }
    }
}

// ---- lowering ----

proof fn lemma_has_columns(table: TableView, names: Seq<Seq<char>>, i: nat, k: int)
    requires
        has_columns(table, names, i) is Ok,
        i <= k < names.len(),
    ensures
        catalog::find_column(table.columns, names[k]) is Some,
    decreases names.len() - i,
{
    if i < k {
        lemma_has_columns(table, names, i + 1, k);
    }
}

/// Whether a table has all the columns.
pub open spec fn all_known(table: TableView, names: Seq<Seq<char>>) -> bool {
    forall|i: int|
        0 <= i < names.len() ==> catalog::find_column(table.columns, #[trigger] names[i]) is Some
}

/// The names of a key list.
pub open spec fn keys_view(keys: Seq<Vec<String>>) -> Seq<Seq<Seq<char>>> {
    Seq::new(keys.len(), |i: int| text::texts(keys[i]@))
}

/// The view of fallible keys.
pub open spec fn keys_result(result: Result<Vec<Vec<String>>, Error>) -> Result<
    Seq<Seq<Seq<char>>>,
    ErrorView,
> {
    match result {
        Ok(keys) => Ok(keys_view(keys@)),
        Err(error) => Err(error@),
    }
}

/// The view of fallible fields.
pub open spec fn fields_result(result: Result<Vec<ProjectField>, Error>) -> Result<
    Seq<ProjectFieldView>,
    ErrorView,
> {
    match result {
        Ok(fields) => Ok(lir::project_fields_view(fields@)),
        Err(error) => Err(error@),
    }
}

/// The view of a fallible row.
pub open spec fn row_result(result: Result<Vec<RawScalar>, Error>) -> Result<
    Seq<RawScalarView>,
    ErrorView,
> {
    match result {
        Ok(row) => Ok(lir::raw_scalars_view(row@)),
        Err(error) => Err(error@),
    }
}

/// The view of fallible rows.
pub open spec fn rows_result(result: Result<Vec<Vec<RawScalar>>, Error>) -> Result<
    Seq<Seq<RawScalarView>>,
    ErrorView,
> {
    match result {
        Ok(rows) => Ok(lir::raw_scalar_rows_view(rows@)),
        Err(error) => Err(error@),
    }
}

/// A projection that names no scope.
fn project_unscoped(input: Relation, fields: Vec<ProjectField>) -> (result: Relation)
    ensures
        result@ == unscoped(input@, lir::project_fields_view(fields@)),
{
    let result = Relation::Project {
        input: Box::new(input),
        scope: None,
        spread: Vec::new(),
        fields,
    };
    assert(result@->spread =~= Seq::<Seq<char>>::empty());
    result
}

fn column_targets(table: &Table, names: &Tree) -> (result: Result<Vec<String>, Error>)
    ensures
        datatypes::names_result(result) == target_columns(table@, names@),
{
    let mut columns: Vec<String> = Vec::new();
    let count = names.count();
    if count == 0 {
        let mut i: usize = 0;
        while i < table.columns.len()
            invariant
                i <= table.columns.len(),
                columns.len() == i,
                forall|k: int| 0 <= k < i ==> (#[trigger] columns@[k])@ == table.columns@[k]@.name,
            decreases table.columns.len() - i,
        {
            columns.push(table.columns[i].name.clone());
            i += 1;
        }
        assert(text::texts(columns@) =~= Seq::new(
            table@.columns.len(),
            |i: int| table@.columns[i].name,
        ));
        return Ok(columns);
    }
    let mut i: usize = 0;
    assert(text::texts(columns@) =~= Seq::empty());
    while i < count
        invariant
            i <= count,
            count > 0,
            count == tree::list(names@).len(),
            object_texts(names@, 0, Seq::empty()) == object_texts(
                names@,
                i as nat,
                text::texts(columns@),
            ),
        decreases count - i,
    {
        match object_name(names.item(i)) {
            Ok(name) => {
                let ghost before = text::texts(columns@);
                columns.push(name);
                assert(text::texts(columns@) =~= before.push(name@));
            },
            Err(error) => {
                return Err(error);
            },
        }
        i += 1;
    }
    Ok(columns)
}

fn check_columns(table: &Table, names: &Vec<String>) -> (result: Result<(), Error>)
    ensures
        has_columns(table@, text::texts(names@), 0) == (match result {
            Ok(done) => Ok(done),
            Err(error) => Err(error@),
        }),
        result is Ok ==> all_known(table@, text::texts(names@)),
{
    let ghost all = text::texts(names@);
    let mut i: usize = 0;
    while i < names.len()
        invariant
            i <= names.len(),
            all == text::texts(names@),
            has_columns(table@, all, 0) == has_columns(table@, all, i as nat),
        decreases names.len() - i,
    {
        assert(all[i as int] == names@[i as int]@);
        if table.column(names[i].as_str()).is_none() {
            let shown = quoted(names[i].as_str());
            return Err(Error::Invalid(join("unknown column ", shown.as_str())));
        }
        i += 1;
    }
    proof {
        assert forall|k: int| 0 <= k < all.len() implies catalog::find_column(
            table@.columns,
            #[trigger] all[k],
        ) is Some by {
            lemma_has_columns(table@, all, 0, k);
        }
    }
    Ok(())
}

fn keys_among(columns: &Vec<String>, key: &Vec<String>) -> (names: Vec<String>)
    ensures
        text::texts(names@) == key_columns(
            text::texts(columns@),
            text::texts(key@),
            0,
            Seq::empty(),
        ),
{
    let ghost all = text::texts(columns@);
    let mut names: Vec<String> = Vec::new();
    let mut i: usize = 0;
    assert(text::texts(names@) =~= Seq::empty());
    while i < columns.len()
        invariant
            i <= columns.len(),
            all == text::texts(columns@),
            key_columns(all, text::texts(key@), 0, Seq::empty()) == key_columns(
                all,
                text::texts(key@),
                i as nat,
                text::texts(names@),
            ),
        decreases columns.len() - i,
    {
        assert(all[i as int] == columns@[i as int]@);
        if contains_text(key, columns[i].as_str()) {
            let ghost before = text::texts(names@);
            names.push(columns[i].clone());
            assert(text::texts(names@) =~= before.push(all[i as int]));
        }
        i += 1;
    }
    names
}

fn excluded(table: &Table, columns: &Vec<String>, label: String) -> (scope: ScopeDef)
    requires
        all_known(table@, text::texts(columns@)),
    ensures
        scope@ == excluded_scope(table@, text::texts(columns@), label@),
{
    let ghost all = text::texts(columns@);
    let mut shown: Vec<ResultColumn> = Vec::new();
    let mut i: usize = 0;
    while i < columns.len()
        invariant
            i <= columns.len(),
            all == text::texts(columns@),
            all_known(table@, all),
            shown.len() == i,
            forall|k: int|
                0 <= k < i ==> (#[trigger] shown@[k])@ == env::column_result(target(table@, all[k])),
        decreases columns.len() - i,
    {
        assert(all[i as int] == columns@[i as int]@);
        if let Some(column) = table.column(columns[i].as_str()) {
            shown.push(result_column(column));
        }
        i += 1;
    }
    assert(types::result_columns_view(shown@) =~= Seq::new(
        all.len(),
        |i: int| env::column_result(target(table@, all[i])),
    ));
    ScopeDef {
        alias: "excluded".to_owned(),
        label,
        columns: shown,
        primary_key: keys_among(columns, &table.primary_key),
    }
}

fn rows_shape(table: &Table, columns: &Vec<String>) -> (shape: Vec<RowsColumn>)
    requires
        all_known(table@, text::texts(columns@)),
    ensures
        lir::rows_columns_view(shape@) == rows_columns(table@, text::texts(columns@)),
{
    let ghost all = text::texts(columns@);
    let ghost wanted = rows_columns(table@, all);
    let mut shape: Vec<RowsColumn> = Vec::new();
    let mut i: usize = 0;
    while i < columns.len()
        invariant
            i <= columns.len(),
            all == text::texts(columns@),
            all_known(table@, all),
            wanted == rows_columns(table@, all),
            shape.len() == i,
            forall|k: int| 0 <= k < i ==> (#[trigger] shape@[k])@ == wanted[k],
        decreases columns.len() - i,
    {
        assert(all[i as int] == columns@[i as int]@);
        if let Some(column) = table.column(columns[i].as_str()) {
            shape.push(
                RowsColumn {
                    name: columns[i].clone(),
                    kind: Kind::of(column.scalar_type),
                    nullable: column.nullable,
                },
            );
        }
        i += 1;
    }
    assert(lir::rows_columns_view(shape@) =~= wanted);
    shape
}

fn fields_from_query(
    table: &Table,
    columns: &Vec<String>,
    query: &types::LoweredQuery,
) -> (result: Result<Vec<ProjectField>, Error>)
    requires
        all_known(table@, text::texts(columns@)),
        query.columns.len() == columns.len(),
    ensures
        fields_result(result) == query_fields(
            table@,
            text::texts(columns@),
            query@,
            0,
            Seq::empty(),
        ),
{
    let ghost all = text::texts(columns@);
    let mut fields: Vec<ProjectField> = Vec::new();
    let mut i: usize = 0;
    while i < columns.len()
        invariant
            i <= columns.len(),
            query.columns.len() == columns.len(),
            all == text::texts(columns@),
            all_known(table@, all),
            query_fields(table@, all, query@, 0, Seq::empty()) == query_fields(
                table@,
                all,
                query@,
                i as nat,
                lir::project_fields_view(fields@),
            ),
        decreases columns.len() - i,
    {
        assert(all[i as int] == columns@[i as int]@);
        assert(query@.columns[i as int] == query.columns@[i as int]@);
        if let Some(column) = table.column(columns[i].as_str()) {
            let found = query.columns[i].scalar_type;
            if found != column.scalar_type {
                let shown = quoted(columns[i].as_str());
                let head = join5(
                    "INSERT column ",
                    shown.as_str(),
                    " is ",
                    type_text(column.scalar_type),
                    ", query returns ",
                );
                return Err(Error::Invalid(join(head.as_str(), type_text(found))));
            }
            fields.push(
                ProjectField {
                    name: columns[i].clone(),
                    expression: column_expr(query.scope.as_str(), query.columns[i].field()),
                },
            );
        }
        i += 1;
    }
    Ok(fields)
}

fn all_keys(table: &Table) -> (keys: Vec<Vec<String>>)
    ensures
        keys_view(keys@) == unique_keys(table@, 0, seq![table@.primary_key]),
{
    let mut keys: Vec<Vec<String>> = Vec::new();
    keys.push(text::copy_texts(&table.primary_key));
    assert(keys_view(keys@) =~= seq![table@.primary_key]);
    let mut i: usize = 0;
    while i < table.indexes.len()
        invariant
            i <= table.indexes.len(),
            unique_keys(table@, 0, seq![table@.primary_key]) == unique_keys(
                table@,
                i as nat,
                keys_view(keys@),
            ),
        decreases table.indexes.len() - i,
    {
        assert(table@.indexes[i as int] == table.indexes@[i as int]@);
        if table.indexes[i].unique {
            let ghost before = keys_view(keys@);
            keys.push(text::copy_texts(&table.indexes[i].columns));
            assert(keys_view(keys@) =~= before.push(table@.indexes[i as int].columns));
        }
        i += 1;
    }
    keys
}

fn one_key(key: Vec<String>) -> (keys: Vec<Vec<String>>)
    ensures
        keys_view(keys@) == seq![text::texts(key@)],
{
    let ghost shown = text::texts(key@);
    let mut keys: Vec<Vec<String>> = Vec::new();
    keys.push(key);
    assert(keys_view(keys@) =~= seq![shown]);
    keys
}

/// The keys on which an INSERT may conflict.
pub fn find_conflict_targets(table: &Table, wanted: &Tree) -> (result: Result<
    Vec<Vec<String>>,
    Error,
>)
    ensures
        keys_result(result) == conflict_targets(table@, wanted@),
{
    let keys = if wanted.is("Columns") {
        one_key(shapes::identifiers(wanted.at("Columns")))
    } else if wanted.is("OnConstraint") {
        let name = match object_name(wanted.at("OnConstraint")) {
            Ok(name) => name,
            Err(error) => {
                return Err(error);
            },
        };
        let primary = join(table.name.as_str(), "_pkey");
        if let Some(index) = table.index(name.as_str()) {
            one_key(text::copy_texts(&index.columns))
        } else if same_text(name.as_str(), primary.as_str()) {
            one_key(text::copy_texts(&table.primary_key))
        } else {
            let shown = quoted(name.as_str());
            return Err(Error::Invalid(join("unknown conflict constraint ", shown.as_str())));
        }
    } else {
        all_keys(table)
    };
    let ghost all = keys_view(keys@);
    let mut i: usize = 0;
    while i < keys.len()
        invariant
            i <= keys.len(),
            all == keys_view(keys@),
            named_targets(table@, wanted@) == Ok::<Seq<Seq<Seq<char>>>, ErrorView>(all),
            known_keys(table@, all, 0) == known_keys(table@, all, i as nat),
        decreases keys.len() - i,
    {
        assert(all[i as int] == text::texts(keys@[i as int]@));
        if keys[i].len() == 0 {
            return Err(Error::Invalid("ON CONFLICT target is empty".to_owned()));
        }
        if let Err(error) = check_key(table, &keys[i]) {
            return Err(error);
        }
        i += 1;
    }
    Ok(keys)
}

fn check_key(table: &Table, key: &Vec<String>) -> (result: Result<(), Error>)
    ensures
        known_key(table@, text::texts(key@), 0) == (match result {
            Ok(done) => Ok(done),
            Err(error) => Err(error@),
        }),
{
    let ghost all = text::texts(key@);
    let mut i: usize = 0;
    while i < key.len()
        invariant
            i <= key.len(),
            all == text::texts(key@),
            known_key(table@, all, 0) == known_key(table@, all, i as nat),
        decreases key.len() - i,
    {
        assert(all[i as int] == key@[i as int]@);
        if table.column(key[i].as_str()).is_none() {
            let shown = quoted(key[i].as_str());
            return Err(Error::Invalid(join("unknown conflict column ", shown.as_str())));
        }
        i += 1;
    }
    Ok(())
}

/// That a stored and an inserted row have the same key.
pub fn conflict_join_predicate(stored: &ScopeDef, inserted: &ScopeDef, key: &Vec<String>) -> (result:
    Result<Expr, Error>)
    ensures
        forms::viewed(result) == conflict_predicate(stored@, inserted@, text::texts(key@)),
{
    let ghost all = text::texts(key@);
    let mut predicates: Vec<Expr> = Vec::new();
    let mut i: usize = 0;
    while i < key.len()
        invariant
            i <= key.len(),
            all == text::texts(key@),
            key_agreements(stored@, inserted@, all, 0, Seq::empty()) == key_agreements(
                stored@,
                inserted@,
                all,
                i as nat,
                lir::exprs_view(predicates@),
            ),
        decreases key.len() - i,
    {
        assert(all[i as int] == key@[i as int]@);
        let name = key[i].as_str();
        match assembly::agree(stored, inserted, name) {
            Some(predicate) => {
                predicates.push(predicate);
            },
            None => {
                let shown = quoted(name);
                if stored.column(name).is_none() {
                    return Err(
                        Error::Invalid(
                            join("unknown conflict target column ", shown.as_str()),
                        ),
                    );
                }
                return Err(
                    Error::Invalid(
                        join3("conflict column ", shown.as_str(), " is not inserted"),
                    ),
                );
            },
        }
        i += 1;
    }
    fold_binary(predicates, BinaryOp::And)
}

fn fields_of_key(key: &Vec<String>, label: &str) -> (fields: Vec<ProjectField>)
    ensures
        lir::project_fields_view(fields@) == key_fields(text::texts(key@), label@),
{
    let mut fields: Vec<ProjectField> = Vec::new();
    let mut i: usize = 0;
    while i < key.len()
        invariant
            i <= key.len(),
            fields.len() == i,
            forall|k: int|
                0 <= k < i ==> (#[trigger] fields@[k])@ == (ProjectFieldView {
                    name: key@[k]@,
                    expression: operators::column_of(label@, key@[k]@),
                }),
        decreases key.len() - i,
    {
        fields.push(
            ProjectField { name: key[i].clone(), expression: column_expr(label, key[i].as_str()) },
        );
        i += 1;
    }
    assert(lir::project_fields_view(fields@) =~= key_fields(text::texts(key@), label@));
    fields
}

fn match_rows(rows: Relation, table: &Table, label: &str, on: Expr) -> (result: Relation)
    ensures
        result@ == matched_rows(rows@, table@, label@, on@),
{
    let scan = Relation::Scan { table: table.name.clone(), scope: label.to_owned() };
    assert(scan@ is Scan);
    Relation::Join { left: Box::new(rows), right: Box::new(scan), kind: JoinKind::Inner, on }
}

fn env_of(scope: ScopeDef) -> (env: ExpressionEnv)
    ensures
        env@ == env::local_env(seq![scope@], env::no_env()),
{
    let ghost shown = scope@;
    let mut scopes: Vec<ScopeDef> = Vec::new();
    scopes.push(scope);
    assert(types::scope_defs_view(scopes@) =~= seq![shown]);
    ExpressionEnv::local(scopes, &ExpressionEnv::none())
}

impl<'a> Context<'a> {
    /// A table by name.
    pub fn table(&self, name: &Tree) -> (result: Result<&'a Table, Error>)
        ensures
            table_of(self.around(), name@) == (match result {
                Ok(table) => Ok(table@),
                Err(error) => Err(error@),
            }),
    {
        let name = match object_name(name) {
            Ok(name) => name,
            Err(error) => {
                return Err(error);
            },
        };
        match catalog::table_named(self.tables, name.as_str()) {
            Some(table) => Ok(table),
            None => {
                let shown = quoted(name.as_str());
                Err(Error::Invalid(join("unknown table ", shown.as_str())))
            },
        }
    }

    fn query(&self, root: Relation) -> (query: Query)
        ensures
            query@ == query_over(self.state(), root@),
    {
        Query {
            root,
            cardinality: RootCardinality::Many,
            bindings: lir::copy_bindings(&self.bindings),
        }
    }

    fn raw_value(&mut self, expression: &Tree, expected: ScalarType) -> (result: Result<
        RawScalar,
        Error,
    >)
        ensures
            final(self).around() == old(self).around(),
            raw_value(old(self).around(), old(self).state(), expression@, expected)
                == lowering::settled(forms::viewed(result), final(self).state()),
        decreases tree::height(expression@),
    {
        if expression.is("Value") {
            return self.raw_literal(expression.at("Value").at("value"), expected);
        }
        if expression.is("Cast") {
            let cast = expression.at("Cast");
            match datatypes::scalar_type(cast.at("data_type")) {
                Ok((to, _)) => {
                    if to == expected {
                        return self.raw_value(cast.at("expr"), expected);
                    }
                },
                Err(error) => {
                    return Err(error);
                },
            }
        }
        Err(
            Error::Unsupported(
                "INSERT VALUES currently accepts literals, parameters, and casts only".to_owned(),
            ),
        )
    }

    fn insert_row(&mut self, row: &Tree, table: &Table, columns: &Vec<String>) -> (result: Result<
        Vec<RawScalar>,
        Error,
    >)
        requires
            tree::list(row@).len() == columns.len(),
            all_known(table@, text::texts(columns@)),
        ensures
            final(self).around() == old(self).around(),
            row_values(
                old(self).around(),
                old(self).state(),
                row@,
                0,
                table@,
                text::texts(columns@),
                Seq::empty(),
            ) == lowering::settled(row_result(result), final(self).state()),
    {
        let ghost all = text::texts(columns@);
        let mut values: Vec<RawScalar> = Vec::new();
        let mut i: usize = 0;
        while i < columns.len()
            invariant
                i <= columns.len(),
                tree::list(row@).len() == columns.len(),
                all == text::texts(columns@),
                all_known(table@, all),
                self.around() == old(self).around(),
                row_values(
                    old(self).around(),
                    old(self).state(),
                    row@,
                    0,
                    table@,
                    all,
                    Seq::empty(),
                ) == row_values(
                    self.around(),
                    self.state(),
                    row@,
                    i as nat,
                    table@,
                    all,
                    lir::raw_scalars_view(values@),
                ),
            decreases columns.len() - i,
        {
            assert(all[i as int] == columns@[i as int]@);
            if let Some(column) = table.column(columns[i].as_str()) {
                match self.raw_value(row.item(i), column.scalar_type) {
                    Ok(value) => {
                        values.push(value);
                    },
                    Err(error) => {
                        return Err(error);
                    },
                }
            }
            i += 1;
        }
        Ok(values)
    }

    fn insert_rows(&mut self, rows: &Tree, table: &Table, columns: &Vec<String>) -> (result: Result<
        Vec<Vec<RawScalar>>,
        Error,
    >)
        requires
            all_known(table@, text::texts(columns@)),
        ensures
            final(self).around() == old(self).around(),
            value_rows(
                old(self).around(),
                old(self).state(),
                rows@,
                0,
                table@,
                text::texts(columns@),
                Seq::empty(),
            ) == lowering::settled(rows_result(result), final(self).state()),
    {
        let mut done: Vec<Vec<RawScalar>> = Vec::new();
        let count = rows.count();
        let mut i: usize = 0;
        assert(lir::raw_scalar_rows_view(done@) =~= Seq::empty());
        while i < count
            invariant
                i <= count,
                count == tree::list(rows@).len(),
                all_known(table@, text::texts(columns@)),
                self.around() == old(self).around(),
                value_rows(
                    old(self).around(),
                    old(self).state(),
                    rows@,
                    0,
                    table@,
                    text::texts(columns@),
                    Seq::empty(),
                ) == value_rows(
                    self.around(),
                    self.state(),
                    rows@,
                    i as nat,
                    table@,
                    text::texts(columns@),
                    lir::raw_scalar_rows_view(done@),
                ),
            decreases count - i,
        {
            let row = rows.item(i).at("content");
            if row.count() != columns.len() {
                let found = count_text(row.count());
                let wanted = count_text(columns.len());
                return Err(
                    Error::Invalid(
                        join5(
                            "INSERT row has ",
                            found.as_str(),
                            " values for ",
                            wanted.as_str(),
                            " columns",
                        ),
                    ),
                );
            }
            match self.insert_row(row, table, columns) {
                Ok(values) => {
                    let ghost before = lir::raw_scalar_rows_view(done@);
                    let ghost shown = lir::raw_scalars_view(values@);
                    done.push(values);
                    assert(lir::raw_scalar_rows_view(done@) =~= before.push(shown));
                },
                Err(error) => {
                    return Err(error);
                },
            }
            i += 1;
        }
        Ok(done)
    }

    fn insert_source(&mut self, table: &Table, columns: &Vec<String>, source: &Tree) -> (result:
        Result<(Relation, ScopeDef), Error>)
        requires
            all_known(table@, text::texts(columns@)),
        ensures
            final(self).around() == old(self).around(),
            insert_source(
                old(self).around(),
                old(self).state(),
                table@,
                text::texts(columns@),
                source@,
            ) == lowering::settled(source_result(result), final(self).state()),
    {
        let body = source.at("body");
        if body.is("Values") {
            let label = self.scope("insert_values");
            let values = match self.insert_rows(body.at("Values").at("rows"), table, columns) {
                Ok(values) => values,
                Err(error) => {
                    return Err(error);
                },
            };
            let relation = Relation::Rows {
                scope: label.clone(),
                columns: rows_shape(table, columns),
                values,
            };
            return Ok((relation, excluded(table, columns, label)));
        }
        let query = match self.select_query_in(source, &ExpressionEnv::none()) {
            Ok(query) => query,
            Err(error) => {
                return Err(error);
            },
        };
        if query.columns.len() != columns.len() {
            let wanted = count_text(columns.len());
            let found = count_text(query.columns.len());
            return Err(
                Error::Invalid(
                    join4(
                        "INSERT has ",
                        wanted.as_str(),
                        " target columns but query returns ",
                        found.as_str(),
                    ),
                ),
            );
        }
        let fields = match fields_from_query(table, columns, &query) {
            Ok(fields) => fields,
            Err(error) => {
                return Err(error);
            },
        };
        let label = self.scope("insert_select");
        let relation = assembly::project(query.relation, label.as_str(), fields);
        Ok((relation, excluded(table, columns, label)))
    }

    fn conflict_exists(&mut self, table: &Table, inserted: &ScopeDef, keys: &Vec<Vec<String>>) -> (result:
        Result<Expr, Error>)
        ensures
            final(self).around() == old(self).around(),
            conflict_exists(old(self).state(), table@, inserted@, keys_view(keys@))
                == lowering::settled(forms::viewed(result), final(self).state()),
    {
        let ghost all = keys_view(keys@);
        let mut predicates: Vec<Expr> = Vec::new();
        let mut i: usize = 0;
        while i < keys.len()
            invariant
                i <= keys.len(),
                all == keys_view(keys@),
                self.around() == old(self).around(),
                conflicts(old(self).state(), table@, inserted@, all, 0, Seq::empty())
                    == conflicts(
                    self.state(),
                    table@,
                    inserted@,
                    all,
                    i as nat,
                    lir::exprs_view(predicates@),
                ),
            decreases keys.len() - i,
        {
            assert(all[i as int] == text::texts(keys@[i as int]@));
            let label = self.scope("conflict");
            let stored = ScopeDef::table(table, table.name.clone(), label.clone());
            let predicate = match conflict_join_predicate(&stored, inserted, &keys[i]) {
                Ok(predicate) => predicate,
                Err(error) => {
                    return Err(error);
                },
            };
            let scan = Relation::Scan { table: table.name.clone(), scope: label };
            assert(scan@ is Scan);
            let filtered = Relation::Filter { input: Box::new(scan), predicate };
            assert(filtered@ is Filter);
            predicates.push(Expr::Exists(Box::new(filtered)));
            i += 1;
        }
        fold_binary(predicates, BinaryOp::Or)
    }

    fn mutation_program(&mut self, mutation: Statement, table: &Table, returning: &Tree) -> (result:
        Result<(Program, Vec<ResultColumn>), Error>)
        ensures
            final(self).around() == old(self).around(),
            with_returning(
                old(self).around(),
                old(self).state(),
                mutation@,
                table@,
                returning@,
            ) == lowering::settled(mutation_result(result), final(self).state()),
    {
        let ghost shown = mutation@;
        let mut statements: Vec<Statement> = Vec::new();
        if returning.absent() {
            statements.push(mutation);
            assert(types::statements_view(statements@) =~= seq![shown]);
            let none: Vec<ResultColumn> = Vec::new();
            return Ok((Program { statements, result: None }, none));
        }
        let changed = Relation::Ref {
            binding: mutation.name().to_owned(),
            scope: "returned".to_owned(),
        };
        let changed = order_by_names(changed, &table.primary_key, "returned");
        let scope = ScopeDef::table(table, "returned".to_owned(), "returned".to_owned());
        let compiler = ExpressionCompiler::new(env_of(scope));
        let output = match self.projection(&compiler, returning) {
            Ok(output) => output,
            Err(error) => {
                return Err(error);
            },
        };
        let result = Statement::Query {
            name: "sql_result".to_owned(),
            relation: Query {
                root: project_unscoped(changed, output.fields),
                cardinality: RootCardinality::Many,
                bindings: Vec::new(),
            },
        };
        let ghost last = result@;
        statements.push(mutation);
        statements.push(result);
        assert(types::statements_view(statements@) =~= seq![shown, last]);
        Ok((Program { statements, result: Some("sql_result".to_owned()) }, output.columns))
    }

    fn assign(
        &mut self,
        compiler: &ExpressionCompiler,
        table: &Table,
        assignments: &Tree,
        upsert: bool,
        key: Vec<ProjectField>,
    ) -> (result: Result<Vec<ProjectField>, Error>)
        ensures
            final(self).around() == old(self).around(),
            assigned(
                old(self).around(),
                old(self).state(),
                compiler@,
                table@,
                assignments@,
                0,
                upsert,
                lir::project_fields_view(key@),
            ) == lowering::settled(fields_result(result), final(self).state()),
    {
        let ghost start = lir::project_fields_view(key@);
        let mut fields = key;
        let count = assignments.count();
        let mut i: usize = 0;
        while i < count
            invariant
                i <= count,
                count == tree::list(assignments@).len(),
                self.around() == old(self).around(),
                assigned(
                    old(self).around(),
                    old(self).state(),
                    compiler@,
                    table@,
                    assignments@,
                    0,
                    upsert,
                    start,
                ) == assigned(
                    self.around(),
                    self.state(),
                    compiler@,
                    table@,
                    assignments@,
                    i as nat,
                    upsert,
                    lir::project_fields_view(fields@),
                ),
                start == lir::project_fields_view(key@),
            decreases count - i,
        {
            let assignment = assignments.item(i);
            let place = assignment.at("target");
            if !place.is("ColumnName") {
                if upsert {
                    return Err(
                        Error::Unsupported(
                            "tuple assignments in ON CONFLICT are not supported".to_owned(),
                        ),
                    );
                }
                return Err(
                    Error::Unsupported("tuple assignments are not supported yet".to_owned()),
                );
            }
            let name = match object_name(place.at("ColumnName")) {
                Ok(name) => name,
                Err(error) => {
                    return Err(error);
                },
            };
            let keyed = contains_text(&table.primary_key, name.as_str());
            if !upsert && keyed {
                return Err(Error::Invalid("primary keys cannot be updated".to_owned()));
            }
            let scalar_type = match table.column(name.as_str()) {
                Some(column) => column.scalar_type,
                None => {
                    let shown = quoted(name.as_str());
                    return Err(Error::Invalid(join("unknown column ", shown.as_str())));
                },
            };
            if !keyed {
                match self.compile(compiler, assignment.at("value"), Some(scalar_type)) {
                    Ok(value) => {
                        fields.push(ProjectField { name, expression: value.expr });
                    },
                    Err(error) => {
                        return Err(error);
                    },
                }
            }
            i += 1;
        }
        Ok(fields)
    }

    fn upsert_update(
        &mut self,
        insert: &Tree,
        table: &Table,
        rows: Relation,
        inserted: &ScopeDef,
        key: &Vec<String>,
        update: &Tree,
    ) -> (result: Result<Statement, Error>)
        ensures
            final(self).around() == old(self).around(),
            upsert_update(
                old(self).around(),
                old(self).state(),
                insert@,
                table@,
                rows@,
                inserted@,
                text::texts(key@),
                update@,
            ) == lowering::settled(forms::viewed(result), final(self).state()),
    {
        let label = self.scope(table.name.as_str());
        let alias = insert.at("table_alias");
        let known = if alias.absent() {
            table.name.clone()
        } else {
            identifier(alias.at("alias"))
        };
        let stored = ScopeDef::table(table, known, label.clone());
        let on = match conflict_join_predicate(&stored, inserted, key) {
            Ok(on) => on,
            Err(error) => {
                return Err(error);
            },
        };
        let ghost scoped = seq![inserted@, stored@];
        let mut scopes: Vec<ScopeDef> = Vec::new();
        scopes.push(inserted.clone());
        scopes.push(stored);
        assert(types::scope_defs_view(scopes@) =~= scoped);
        let env = ExpressionEnv::local(scopes, &ExpressionEnv::none());
        let compiler = ExpressionCompiler::new(env);
        let matched = match_rows(rows, table, label.as_str(), on);
        let matched = match self.filter(&compiler, matched, update.at("selection")) {
            Ok(matched) => matched,
            Err(error) => {
                return Err(error);
            },
        };
        let key_columns = fields_of_key(&table.primary_key, label.as_str());
        let fields = match self.assign(
            &compiler,
            table,
            update.at("assignments"),
            true,
            key_columns,
        ) {
            Ok(fields) => fields,
            Err(error) => {
                return Err(error);
            },
        };
        let ordered = order_by_names(matched, &table.primary_key, label.as_str());
        let relation = self.query(project_unscoped(ordered, fields));
        Ok(
            Statement::Update {
                name: "sql_upsert_update".to_owned(),
                relation,
                table: table.name.clone(),
            },
        )
    }

    fn upsert_result(
        &mut self,
        table: &Table,
        rows: Relation,
        inserted: &ScopeDef,
        key: &Vec<String>,
        statements: Vec<Statement>,
        returning: &Tree,
    ) -> (result: Result<(Program, Vec<ResultColumn>), Error>)
        ensures
            final(self).around() == old(self).around(),
            upsert_result(
                old(self).around(),
                old(self).state(),
                table@,
                rows@,
                inserted@,
                text::texts(key@),
                types::statements_view(statements@),
                returning@,
            ) == lowering::settled(mutation_result(result), final(self).state()),
    {
        if returning.absent() {
            let none: Vec<ResultColumn> = Vec::new();
            return Ok((Program { statements, result: None }, none));
        }
        let label = self.scope(table.name.as_str());
        let stored = ScopeDef::table(table, table.name.clone(), label.clone());
        let on = match conflict_join_predicate(&stored, inserted, key) {
            Ok(on) => on,
            Err(error) => {
                return Err(error);
            },
        };
        let relation = match_rows(rows, table, label.as_str(), on);
        let relation = order_by_names(relation, &table.primary_key, label.as_str());
        let compiler = ExpressionCompiler::new(env_of(stored));
        let output = match self.projection(&compiler, returning) {
            Ok(output) => output,
            Err(error) => {
                return Err(error);
            },
        };
        let mut statements = statements;
        let relation = self.query(project_unscoped(relation, output.fields));
        statements.push(Statement::Query { name: "sql_result".to_owned(), relation });
        Ok((Program { statements, result: Some("sql_result".to_owned()) }, output.columns))
    }

    fn insert_on_conflict(
        &mut self,
        insert: &Tree,
        table: &Table,
        columns: &Vec<String>,
        rows: Relation,
        inserted: ScopeDef,
    ) -> (result: Result<(Program, Vec<ResultColumn>), Error>)
        ensures
            final(self).around() == old(self).around(),
            upserted(
                old(self).around(),
                old(self).state(),
                insert@,
                table@,
                text::texts(columns@),
                rows@,
                inserted@,
            ) == lowering::settled(mutation_result(result), final(self).state()),
    {
        let on = insert.at("on");
        if !on.is("OnConflict") {
            return Err(
                Error::Unsupported(
                    "ON DUPLICATE KEY UPDATE is not PostgreSQL syntax".to_owned(),
                ),
            );
        }
        let conflict = on.at("OnConflict");
        let keys = match find_conflict_targets(table, conflict.at("conflict_target")) {
            Ok(keys) => keys,
            Err(error) => {
                return Err(error);
            },
        };
        let exists = match self.conflict_exists(table, &inserted, &keys) {
            Ok(exists) => exists,
            Err(error) => {
                return Err(error);
            },
        };
        let missing = Relation::Filter {
            input: Box::new(rows.clone()),
            predicate: unary(UnaryOp::Not, exists),
        };
        let missing = order_by_names(missing, columns, inserted.label.as_str());
        let create = Statement::Create {
            name: "sql_upsert_create".to_owned(),
            relation: self.query(missing),
            table: table.name.clone(),
        };
        let action = conflict.at("action");
        if !action.is("DoUpdate") {
            return self.mutation_program(create, table, insert.at("returning"));
        }
        if keys.len() != 1 {
            return Err(
                Error::Invalid("ON CONFLICT DO UPDATE needs one conflict target".to_owned()),
            );
        }
        assert(keys_view(keys@)[0] == text::texts(keys@[0]@));
        let update = match self.upsert_update(
            insert,
            table,
            rows.clone(),
            &inserted,
            &keys[0],
            action.at("DoUpdate"),
        ) {
            Ok(update) => update,
            Err(error) => {
                return Err(error);
            },
        };
        let ghost shown = seq![update@, create@];
        let mut statements: Vec<Statement> = Vec::new();
        statements.push(update);
        statements.push(create);
        assert(types::statements_view(statements@) =~= shown);
        self.upsert_result(table, rows, &inserted, &keys[0], statements, insert.at("returning"))
    }

    /// Lowers an INSERT.
    pub fn insert(&mut self, insert: &Tree) -> (result: Result<
        (Program, Vec<ResultColumn>),
        Error,
    >)
        ensures
            final(self).around() == old(self).around(),
            inserted(old(self).around(), old(self).state(), insert@) == lowering::settled(
                mutation_result(result),
                final(self).state(),
            ),
    {
        if !insert.at("table").is("TableName") {
            return Err(
                Error::Unsupported("INSERT table functions are not supported".to_owned()),
            );
        }
        let table = match self.table(insert.at("table").at("TableName")) {
            Ok(table) => table,
            Err(error) => {
                return Err(error);
            },
        };
        let source = insert.at("source");
        if source.absent() {
            return Err(
                Error::Invalid("INSERT needs a VALUES or SELECT source".to_owned()),
            );
        }
        let columns = match column_targets(table, insert.at("columns")) {
            Ok(columns) => columns,
            Err(error) => {
                return Err(error);
            },
        };
        if let Err(error) = check_columns(table, &columns) {
            return Err(error);
        }
        let (rows, scope) = match self.insert_source(table, &columns, source) {
            Ok(found) => found,
            Err(error) => {
                return Err(error);
            },
        };
        if !insert.at("on").absent() {
            return self.insert_on_conflict(insert, table, &columns, rows, scope);
        }
        let relation = order_by_names(rows, &columns, scope.label.as_str());
        let create = Statement::Create {
            name: "sql_mutation".to_owned(),
            relation: self.query(relation),
            table: table.name.clone(),
        };
        self.mutation_program(create, table, insert.at("returning"))
    }

    fn change(
        &mut self,
        compiler: &ExpressionCompiler,
        relation: Relation,
        known: &str,
        selection: &Tree,
        missing: &str,
        Ghost(sources): Ghost<lowering::Sources>,
    ) -> (result: Result<(Relation, ScopeDef), Error>)
        requires
            compiler@ == env::over(lowering::all_sources(sources, env::no_env()).env),
            relation@ == lowering::all_sources(sources, env::no_env()).relation,
        ensures
            final(self).around() == old(self).around(),
            changed_rows(
                old(self).around(),
                old(self).state(),
                sources,
                known@,
                selection@,
                missing@,
            ) == lowering::settled(source_result(result), final(self).state()),
    {
        let scope = match compiler.env.local_scopes() {
            Some(scopes) => match scope_named(scopes, known) {
                Some(scope) => scope.clone(),
                None => {
                    return Err(Error::Invalid(missing.to_owned()));
                },
            },
            None => {
                return Err(Error::Invalid(missing.to_owned()));
            },
        };
        match self.filter(compiler, relation, selection) {
            Ok(relation) => Ok((relation, scope)),
            Err(error) => Err(error),
        }
    }

    /// Lowers an UPDATE.
    pub fn update(&mut self, update: &Tree) -> (result: Result<
        (Program, Vec<ResultColumn>),
        Error,
    >)
        ensures
            final(self).around() == old(self).around(),
            updated(old(self).around(), old(self).state(), update@) == lowering::settled(
                mutation_result(result),
                final(self).state(),
            ),
    {
        let item = update.at("table");
        let factor = item.at("relation");
        if !factor.is("Table") {
            return Err(
                Error::Unsupported("derived UPDATE targets are not supported".to_owned()),
            );
        }
        let named = factor.at("Table");
        let table = match self.table(named.at("name")) {
            Ok(table) => table,
            Err(error) => {
                return Err(error);
            },
        };
        let none = ExpressionEnv::none();
        let known = assembly::known_as(named.at("alias"), table.name.as_str());
        let sources = match self.from_item(item, &none, Joined::new()) {
            Ok(sources) => sources,
            Err(error) => {
                return Err(error);
            },
        };
        let from = update.at("from");
        let items = if from.is("BeforeSet") {
            from.at("BeforeSet")
        } else {
            from.at("AfterSet")
        };
        let sources = match self.from_items(items, &none, sources) {
            Ok(sources) => sources,
            Err(error) => {
                return Err(error);
            },
        };
        let ghost shown = sources@;
        let source = all_sources(sources, &none);
        let compiler = ExpressionCompiler::new(source.env);
        let (relation, scope) = match self.change(
            &compiler,
            source.relation,
            known.as_str(),
            update.at("selection"),
            "UPDATE target scope is missing",
            Ghost(shown),
        ) {
            Ok(found) => found,
            Err(error) => {
                return Err(error);
            },
        };
        let key_columns = fields_of_key(&table.primary_key, scope.label.as_str());
        let fields = match self.assign(
            &compiler,
            table,
            update.at("assignments"),
            false,
            key_columns,
        ) {
            Ok(fields) => fields,
            Err(error) => {
                return Err(error);
            },
        };
        let relation = order_by_names(relation, &table.primary_key, scope.label.as_str());
        let statement = Statement::Update {
            name: "sql_mutation".to_owned(),
            relation: self.query(project_unscoped(relation, fields)),
            table: table.name.clone(),
        };
        self.mutation_program(statement, table, update.at("returning"))
    }

    /// Lowers a DELETE.
    pub fn delete(&mut self, delete: &Tree) -> (result: Result<
        (Program, Vec<ResultColumn>),
        Error,
    >)
        ensures
            final(self).around() == old(self).around(),
            deleted(old(self).around(), old(self).state(), delete@) == lowering::settled(
                mutation_result(result),
                final(self).state(),
            ),
    {
        let from = delete.at("from");
        let items = if from.is("WithFromKeyword") {
            from.at("WithFromKeyword")
        } else {
            from.at("WithoutKeyword")
        };
        if items.count() != 1 {
            return Err(Error::Unsupported("multi-target DELETE is not supported".to_owned()));
        }
        let factor = items.item(0).at("relation");
        if !factor.is("Table") {
            return Err(
                Error::Unsupported("derived DELETE targets are not supported".to_owned()),
            );
        }
        let named = factor.at("Table");
        let table = match self.table(named.at("name")) {
            Ok(table) => table,
            Err(error) => {
                return Err(error);
            },
        };
        let none = ExpressionEnv::none();
        let known = assembly::known_as(named.at("alias"), table.name.as_str());
        let sources = match self.from_items(items, &none, Joined::new()) {
            Ok(sources) => sources,
            Err(error) => {
                return Err(error);
            },
        };
        let sources = match self.from_items(delete.at("using"), &none, sources) {
            Ok(sources) => sources,
            Err(error) => {
                return Err(error);
            },
        };
        let ghost shown = sources@;
        let source = all_sources(sources, &none);
        let compiler = ExpressionCompiler::new(source.env);
        let (relation, scope) = match self.change(
            &compiler,
            source.relation,
            known.as_str(),
            delete.at("selection"),
            "DELETE target scope is missing",
            Ghost(shown),
        ) {
            Ok(found) => found,
            Err(error) => {
                return Err(error);
            },
        };
        let relation = order_by_names(relation, &table.primary_key, scope.label.as_str());
        let fields = fields_of_key(&table.primary_key, scope.label.as_str());
        let statement = Statement::Delete {
            name: "sql_mutation".to_owned(),
            relation: self.query(project_unscoped(relation, fields)),
            table: table.name.clone(),
        };
        self.mutation_program(statement, table, delete.at("returning"))
    }
}

} // verus!
