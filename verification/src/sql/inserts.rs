//! What an INSERT adds.

use vstd::prelude::*;

use crate::sql::catalog;
use crate::sql::catalog::{ColumnView, TableView};
use crate::sql::effects;
use crate::sql::lir;
use crate::sql::lir::{
    LiteralView, RawScalarView, RelationView, RowsColumnView, ScalarType,
};
use crate::sql::literals;
use crate::sql::lowering;
use crate::sql::lowering::{State, Surroundings};
use crate::sql::meaning::{constant, Val, World};
use crate::sql::mutations;
use crate::sql::translation;
use crate::sql::translation::constant_means;
use crate::sql::tree;
use crate::sql::tree::TreeView;
use crate::sql::types::{ErrorView, StatementView};

verus! {

broadcast use tree::group_tree_heights;

/// Whether a value is what a constant says, cast or not.
pub open spec fn cell_means(around: Surroundings, world: World, e: TreeView, v: Val) -> bool
    decreases tree::height(e),
{
    ||| tree::is(e, "Value"@) && constant_means(
        around,
        world,
        tree::at(tree::at(e, "Value"@), "value"@),
        v,
    )
    ||| tree::is(e, "Cast"@) && cell_means(around, world, tree::at(tree::at(e, "Cast"@), "expr"@), v)
}

/// Whether a scalar, read as a kind of value, is what a constant says.
pub open spec fn scalar_means(
    around: Surroundings,
    e: TreeView,
    raw: RawScalarView,
    kind: lir::Kind,
) -> bool {
    forall|world: World|
        cell_means(
            around,
            world,
            e,
            #[trigger] constant(world, LiteralView { raw, kind: Some(kind) }),
        )
}

/// Whether columns of constant rows are columns of a table, by name.
#[verifier::opaque]
pub open spec fn are_columns(
    table: TableView,
    names: Seq<Seq<char>>,
    columns: Seq<RowsColumnView>,
) -> bool {
    columns.len() == names.len() && forall|i: int|
        0 <= i < names.len() ==> (#[trigger] columns[i]).name == names[i] && exists|c: ColumnView|
            #[trigger] table.columns.contains(c) && c.name == names[i] && columns[i].kind
                == lir::kind_of(c.scalar_type)
}

/// Whether scalars are what the cells of a row say.
#[verifier::opaque]
pub open spec fn row_means(
    around: Surroundings,
    columns: Seq<RowsColumnView>,
    cells: Seq<TreeView>,
    values: Seq<RawScalarView>,
) -> bool {
    values.len() == cells.len() && cells.len() <= columns.len() && forall|i: int|
        0 <= i < cells.len() ==> scalar_means(
            around,
            #[trigger] cells[i],
            values[i],
            columns[i].kind,
        )
}

/// Whether rows of scalars are what the rows of a VALUES list say.
#[verifier::opaque]
pub open spec fn rows_mean(
    around: Surroundings,
    columns: Seq<RowsColumnView>,
    rows: Seq<TreeView>,
    values: Seq<Seq<RawScalarView>>,
) -> bool {
    values.len() == rows.len() && forall|i: int|
        0 <= i < rows.len() ==> values[i].len() == columns.len() && row_means(
            around,
            columns,
            tree::list(tree::at(#[trigger] rows[i], "content"@)),
            values[i],
        )
}

/// Whether names are those of the columns that an INSERT fills: those that it lists,
/// or all of the table.
#[verifier::opaque]
pub open spec fn fills(table: TableView, listed: TreeView, names: Seq<Seq<char>>) -> bool {
    if tree::list(listed).len() == 0 {
        names.len() == table.columns.len() && forall|i: int|
            0 <= i < names.len() ==> #[trigger] names[i] == table.columns[i].name
    } else {
        names.len() == tree::list(listed).len() && forall|i: int|
            0 <= i < names.len() ==> (literals::object_text(#[trigger] tree::list(listed)[i]) matches Ok(
                name,
            ) && name == names[i])
    }
}

/// Whether a relation is some rows of constants, sorted.
pub open spec fn gives_constants(
    relation: RelationView,
    label: Seq<char>,
    columns: Seq<RowsColumnView>,
    values: Seq<Seq<RawScalarView>>,
) -> bool {
    relation matches RelationView::Order { input, .. } && *input == (RelationView::Rows {
        scope: label,
        columns,
        values,
    })
}

/// Whether a statement adds what an INSERT of VALUES says: to the table that it names,
/// a row for each of its rows, with each value in the column that it is for.
#[verifier::opaque]
pub open spec fn inserts(
    around: Surroundings,
    insert: TreeView,
    statement: StatementView,
) -> bool {
    exists|
        table: TableView,
        names: Seq<Seq<char>>,
        columns: Seq<RowsColumnView>,
        label: Seq<char>,
        values: Seq<Seq<RawScalarView>>,
    |
        {
            let rows = tree::at(
                tree::at(tree::at(tree::at(insert, "source"@), "body"@), "Values"@),
                "rows"@,
            );
            let named = tree::at(tree::at(insert, "table"@), "TableName"@);
            &&& around.tables.contains(table)
            &&& literals::object_text(named) matches Ok(name) && table.name == name
            &&& fills(table, tree::at(insert, "columns"@), names)
            &&& #[trigger] are_columns(table, names, columns)
            &&& rows_mean(around, columns, tree::list(rows), values)
            &&& statement matches StatementView::Create { table: to, relation, .. } && to
                == table.name && gives_constants(relation.root, label, columns, values)
            &&& #[trigger] creates(statement, label, columns, values)
        }
}

/// Whether a statement creates rows of constants.
pub open spec fn creates(
    statement: StatementView,
    label: Seq<char>,
    columns: Seq<RowsColumnView>,
    values: Seq<Seq<RawScalarView>>,
) -> bool {
    statement is Create && gives_constants(
        statement->Create_relation.root,
        label,
        columns,
        values,
    )
}

proof fn lemma_raw_value(
    around: Surroundings,
    state: State,
    e: TreeView,
    expected: ScalarType,
)
    requires
        mutations::raw_value(around, state, e, expected) is Ok,
    ensures
        scalar_means(
            around,
            e,
            mutations::raw_value(around, state, e, expected)->Ok_0.0,
            lir::kind_of(expected),
        ),
    decreases tree::height(e),
{
    let raw = mutations::raw_value(around, state, e, expected)->Ok_0.0;
    let kind = lir::kind_of(expected);
    if tree::is(e, "Value"@) {
        let value = tree::at(tree::at(e, "Value"@), "value"@);
        assert forall|world: World| cell_means(
            around,
            world,
            e,
            #[trigger] constant(world, LiteralView { raw, kind: Some(kind) }),
        ) by {
            translation::lemma_raw_constant(around, state, world, value, expected, kind);
        }
    } else {
        let inner = tree::at(tree::at(e, "Cast"@), "expr"@);
        lemma_raw_value(around, state, inner, expected);
        assert forall|world: World| cell_means(
            around,
            world,
            e,
            #[trigger] constant(world, LiteralView { raw, kind: Some(kind) }),
        ) by {
            assert(cell_means(
                around,
                world,
                inner,
                constant(world, LiteralView { raw, kind: Some(kind) }),
            ));
        }
    }
}

proof fn lemma_row_values(
    around: Surroundings,
    state: State,
    row: TreeView,
    i: nat,
    table: TableView,
    names: Seq<Seq<char>>,
    done: Seq<RawScalarView>,
)
    requires
        i <= tree::list(row).len(),
        tree::list(row).len() == names.len(),
        mutations::row_values(around, state, row, i, table, names, done) is Ok,
        row_means(
            around,
            mutations::rows_columns(table, names),
            tree::list(row).take(i as int),
            done,
        ),
    ensures
        row_means(
            around,
            mutations::rows_columns(table, names),
            tree::list(row),
            mutations::row_values(around, state, row, i, table, names, done)->Ok_0.0,
        ),
    decreases tree::list(row).len() - i,
{
    reveal(row_means);
    let all = tree::list(row);
    let columns = mutations::rows_columns(table, names);
    if i >= all.len() {
        assert(all.take(i as int) =~= all);
    } else {
        let e = all[i as int];
        let expected = mutations::target(table, names[i as int]).scalar_type;
        lemma_raw_value(around, state, e, expected);
        let (value, after) = mutations::raw_value(around, state, e, expected)->Ok_0;
        let next = done.push(value);
        let more = all.take((i + 1) as int);
        assert forall|k: int| 0 <= k < more.len() implies scalar_means(
            around,
            #[trigger] more[k],
            next[k],
            columns[k].kind,
        ) by {
            if k < i {
                assert(more[k] == all.take(i as int)[k]);
                assert(next[k] == done[k]);
            }
        }
        lemma_row_values(around, after, row, i + 1, table, names, next);
    }
}

proof fn lemma_value_rows(
    around: Surroundings,
    state: State,
    rows: TreeView,
    i: nat,
    table: TableView,
    names: Seq<Seq<char>>,
    done: Seq<Seq<RawScalarView>>,
)
    requires
        i <= tree::list(rows).len(),
        mutations::value_rows(around, state, rows, i, table, names, done) is Ok,
        rows_mean(
            around,
            mutations::rows_columns(table, names),
            tree::list(rows).take(i as int),
            done,
        ),
    ensures
        rows_mean(
            around,
            mutations::rows_columns(table, names),
            tree::list(rows),
            mutations::value_rows(around, state, rows, i, table, names, done)->Ok_0.0,
        ),
    decreases tree::list(rows).len() - i,
{
    reveal(rows_mean);
    let all = tree::list(rows);
    let columns = mutations::rows_columns(table, names);
    if i >= all.len() {
        assert(all.take(i as int) =~= all);
    } else {
        let row = tree::at(all[i as int], "content"@);
        let none = Seq::<RawScalarView>::empty();
        assert(row_means(around, columns, tree::list(row).take(0), none)) by {
            reveal(row_means);
        }
        lemma_row_values(around, state, row, 0, table, names, none);
        let (values, after) = mutations::row_values(
            around,
            state,
            row,
            0,
            table,
            names,
            none,
        )->Ok_0;
        assert(values.len() == names.len()) by {
            reveal(row_means);
        }
        let next = done.push(values);
        let more = all.take((i + 1) as int);
        assert forall|k: int| 0 <= k < more.len() implies next[k].len() == columns.len()
            && row_means(
            around,
            columns,
            tree::list(tree::at(#[trigger] more[k], "content"@)),
            next[k],
        ) by {
            if k < i {
                assert(more[k] == all.take(i as int)[k]);
                assert(next[k] == done[k]);
            }
        }
        lemma_value_rows(around, after, rows, i + 1, table, names, next);
    }
}

proof fn lemma_object_texts(names: TreeView, i: nat, done: Seq<Seq<char>>)
    requires
        i <= tree::list(names).len(),
        done.len() == i,
        mutations::object_texts(names, i, done) is Ok,
        forall|k: int|
            0 <= k < i ==> (literals::object_text(#[trigger] tree::list(names)[k]) matches Ok(name)
                && name == done[k]),
    ensures
        ({
            let found = mutations::object_texts(names, i, done)->Ok_0;
            &&& found.len() == tree::list(names).len()
            &&& forall|k: int|
                0 <= k < found.len() ==> (literals::object_text(
                    #[trigger] tree::list(names)[k],
                ) matches Ok(name) && name == found[k])
        }),
    decreases tree::list(names).len() - i,
{
    if i < tree::list(names).len() {
        let name = literals::object_text(tree::list(names)[i as int])->Ok_0;
        lemma_object_texts(names, i + 1, done.push(name));
    }
}

proof fn lemma_column_found(columns: Seq<ColumnView>, name: Seq<char>)
    requires
        catalog::find_column(columns, name) is Some,
    ensures
        columns.contains(catalog::find_column(columns, name)->0),
        catalog::find_column(columns, name)->0.name == name,
    decreases columns.len(),
{
    let found = catalog::find_column(columns, name)->0;
    if columns[0].name != name {
        lemma_column_found(columns.skip(1), name);
        let i = choose|i: int| 0 <= i < columns.skip(1).len() && columns.skip(1)[i] == found;
        assert(columns[i + 1] == found);
    } else {
        assert(columns.contains(columns[0]));
    }
}

proof fn lemma_has_columns(table: TableView, names: Seq<Seq<char>>, i: nat, k: int)
    requires
        mutations::has_columns(table, names, i) is Ok,
        i <= k < names.len(),
    ensures
        catalog::find_column(table.columns, names[k]) is Some,
    decreases names.len() - i,
{
    if i < k {
        lemma_has_columns(table, names, i + 1, k);
    }
}

proof fn lemma_filled(table: TableView, listed: TreeView)
    requires
        mutations::target_columns(table, listed) is Ok,
        mutations::has_columns(table, mutations::target_columns(table, listed)->Ok_0, 0) is Ok,
    ensures
        fills(table, listed, mutations::target_columns(table, listed)->Ok_0),
        are_columns(
            table,
            mutations::target_columns(table, listed)->Ok_0,
            mutations::rows_columns(table, mutations::target_columns(table, listed)->Ok_0),
        ),
{
    reveal(fills);
    reveal(are_columns);
    let names = mutations::target_columns(table, listed)->Ok_0;
    let columns = mutations::rows_columns(table, names);
    if tree::list(listed).len() > 0 {
        lemma_object_texts(listed, 0, Seq::empty());
    }
    assert forall|i: int| 0 <= i < names.len() implies (#[trigger] columns[i]).name == names[i]
        && exists|c: ColumnView|
        #[trigger] table.columns.contains(c) && c.name == names[i] && columns[i].kind
            == lir::kind_of(c.scalar_type) by {
        lemma_has_columns(table, names, 0, i);
        lemma_column_found(table.columns, names[i]);
        assert(table.columns.contains(mutations::target(table, names[i])));
    }
}

proof fn lemma_inserts(
    around: Surroundings,
    insert: TreeView,
    statement: StatementView,
    table: TableView,
    names: Seq<Seq<char>>,
    columns: Seq<RowsColumnView>,
    label: Seq<char>,
    values: Seq<Seq<RawScalarView>>,
)
    requires
        mutations::table_of(
            around,
            tree::at(tree::at(insert, "table"@), "TableName"@),
        ) == Ok::<TableView, ErrorView>(table),
        fills(table, tree::at(insert, "columns"@), names),
        are_columns(table, names, columns),
        rows_mean(
            around,
            columns,
            tree::list(
                tree::at(
                    tree::at(tree::at(tree::at(insert, "source"@), "body"@), "Values"@),
                    "rows"@,
                ),
            ),
            values,
        ),
        statement is Create,
        statement->Create_table == table.name,
        gives_constants(statement->Create_relation.root, label, columns, values),
    ensures
        inserts(around, insert, statement),
{
    reveal(inserts);
    let named = tree::at(tree::at(insert, "table"@), "TableName"@);
    effects::lemma_found_table(around.tables, literals::object_text(named)->Ok_0);
    assert(creates(statement, label, columns, values));
}

/// An INSERT of VALUES adds a row for each that it lists, to the table that it names,
/// with each value in the column that it is for.
pub proof fn inserts_add_what_is_listed(around: Surroundings, state: State, insert: TreeView)
    requires
        mutations::inserted(around, state, insert) is Ok,
        tree::is(tree::at(tree::at(insert, "source"@), "body"@), "Values"@),
        tree::at(insert, "on"@) is Null,
    ensures
        mutations::inserted(around, state, insert)->Ok_0.0.program.statements.len() > 0,
        inserts(
            around,
            insert,
            mutations::inserted(around, state, insert)->Ok_0.0.program.statements[0],
        ),
{
    let made = mutations::inserted(around, state, insert)->Ok_0.0;
    let named = tree::at(tree::at(insert, "table"@), "TableName"@);
    let table = mutations::table_of(around, named)->Ok_0;
    let listed = tree::at(insert, "columns"@);
    let names = mutations::target_columns(table, listed)->Ok_0;
    lemma_filled(table, listed);
    let columns = mutations::rows_columns(table, names);
    let source = tree::at(insert, "source"@);
    let rows = tree::at(tree::at(tree::at(source, "body"@), "Values"@), "rows"@);
    let label = mutations::fresh(state, "insert_values"@);
    let after = lowering::after_label(state);
    let none = Seq::<Seq<RawScalarView>>::empty();
    assert(rows_mean(around, columns, tree::list(rows).take(0), none)) by {
        reveal(rows_mean);
    }
    lemma_value_rows(around, after, rows, 0, table, names, none);
    let values = mutations::value_rows(around, after, rows, 0, table, names, none)->Ok_0.0;
    let statement = made.program.statements[0];
    lemma_inserts(around, insert, statement, table, names, columns, label, values);
}

} // verus!
