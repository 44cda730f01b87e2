//! What statements read and change.

use vstd::prelude::*;

use crate::sql::catalog;
use crate::sql::catalog::TableView;
use crate::sql::env;
use crate::sql::env::ExpressionCompilerView;
use crate::sql::lir::{
    AggregateFunction, ExprView, OrderTermView, ProjectFieldView, RelationView,
    ScalarType,
};
use crate::sql::literals;
use crate::sql::lowering;
use crate::sql::lowering::{compiled, Sources, State, Surroundings};
use crate::sql::meaning::{
    aggregates_to, candidate, gives, holds_fields, is_true, label_of, names_field, present, read,
    total, value_of, within, Row, Val, World,
};
use crate::sql::mutations;
use crate::sql::translation;
use crate::sql::translation::{called, means};
use crate::sql::tree;
use crate::sql::tree::TreeView;
use crate::sql::types::{ErrorView, ScopeDefView, StatementView};

verus! {

// ---- conditions ----

/// Whether an expression computes what some syntax means, over every row.
#[verifier::opaque]
pub open spec fn lowers(
    around: Surroundings,
    compiler: ExpressionCompilerView,
    e: TreeView,
    p: ExprView,
) -> bool {
    forall|world: World, row: Row|
        means(around, compiler, world, row, e, #[trigger] value_of(world, row, p))
}

/// Whether a relation gives the rows of another for which a condition is true, and
/// all of them where there is no condition.
#[verifier::opaque]
pub open spec fn restricts(
    around: Surroundings,
    compiler: ExpressionCompilerView,
    relation: RelationView,
    from: RelationView,
    condition: TreeView,
) -> bool {
    if condition is Null {
        forall|world: World, outer: Row, row: Row| #[trigger]
            gives(world, outer, relation, row) <==> gives(world, outer, from, row)
    } else {
        exists|p: ExprView| #[trigger]
            lowers(around, compiler, condition, p) && forall|world: World, outer: Row, row: Row|
                #[trigger]
                gives(world, outer, relation, row) <==> gives(world, outer, from, row) && is_true(
                    value_of(world, within(outer, row), p),
                )
    }
}

pub proof fn lemma_lowers(
    around: Surroundings,
    state: State,
    compiler: ExpressionCompilerView,
    e: TreeView,
    expected: Option<ScalarType>,
)
    requires
        compiled(around, state, compiler, e, expected) is Ok,
    ensures
        lowers(around, compiler, e, compiled(around, state, compiler, e, expected)->Ok_0.0.expr),
{
    reveal(lowers);
    let p = compiled(around, state, compiler, e, expected)->Ok_0.0.expr;
    assert forall|world: World, row: Row| means(
        around,
        compiler,
        world,
        row,
        e,
        #[trigger] value_of(world, row, p),
    ) by {
        translation::expressions_keep_their_meaning(
            around,
            state,
            compiler,
            world,
            row,
            e,
            expected,
        );
    }
}

/// A relation under a WHERE or HAVING gives the rows for which the condition is
/// true: not those for which it is false, nor those for which it is not known.
pub proof fn conditions_keep_what_is_true(
    around: Surroundings,
    state: State,
    compiler: ExpressionCompilerView,
    from: RelationView,
    condition: TreeView,
)
    requires
        lowering::filtered(around, state, compiler, from, condition) is Ok,
    ensures
        restricts(
            around,
            compiler,
            lowering::filtered(around, state, compiler, from, condition)->Ok_0.0,
            from,
            condition,
        ),
{
    reveal(restricts);
    if !(condition is Null) {
        let wanted = Some(ScalarType::Bool);
        lemma_lowers(around, state, compiler, condition, wanted);
        let p = compiled(around, state, compiler, condition, wanted)->Ok_0.0.expr;
        let relation = lowering::filtered(around, state, compiler, from, condition)->Ok_0.0;
        assert(relation == RelationView::Filter { input: Box::new(from), predicate: p });
        assert(lowers(around, compiler, condition, p));
    }
}

// ---- projections ----

/// Whether a row holds what fields compute over another, each under its name in a
/// scope, and nothing else.
pub open spec fn is_projected(
    world: World,
    over: Row,
    scope: Seq<char>,
    fields: Seq<ProjectFieldView>,
    row: Row,
) -> bool {
    &&& forall|key: (Seq<char>, Seq<char>)| #[trigger]
        row.contains_key(key) <==> key.0 == scope && names_field(fields, key.1)
    &&& forall|i: int|
        0 <= i < fields.len() ==> row[(scope, fields[i].name)] == value_of(
            world,
            over,
            (#[trigger] fields[i]).expression,
        )
}

/// Whether a relation gives the rows of another, projected.
#[verifier::opaque]
pub open spec fn projects(
    relation: RelationView,
    from: RelationView,
    scope: Seq<char>,
    fields: Seq<ProjectFieldView>,
) -> bool {
    forall|world: World, outer: Row, row: Row| #[trigger]
        gives(world, outer, relation, row) <==> exists|source: Row| #[trigger]
            candidate(source) && gives(world, outer, from, source) && is_projected(
                world,
                within(outer, source),
                scope,
                fields,
                row,
            )
}

proof fn lemma_holds_fields(
    world: World,
    over: Row,
    scope: Seq<char>,
    fields: Seq<ProjectFieldView>,
    row: Row,
)
    ensures
        holds_fields(world, over, scope, fields, row) <==> forall|i: int|
            0 <= i < fields.len() ==> row.contains_key((scope, (#[trigger] fields[i]).name))
                && row[(scope, fields[i].name)] == value_of(world, over, fields[i].expression),
    decreases fields.len(),
{
    if fields.len() > 0 {
        let fewer = fields.drop_last();
        lemma_holds_fields(world, over, scope, fewer, row);
        if holds_fields(world, over, scope, fields, row) {
            assert forall|i: int| 0 <= i < fields.len() implies row.contains_key(
                (scope, (#[trigger] fields[i]).name),
            ) && row[(scope, fields[i].name)] == value_of(
                world,
                over,
                fields[i].expression,
            ) by {
                if i < fewer.len() {
                    assert(fewer[i] == fields[i]);
                }
            }
        }
        if forall|i: int|
            0 <= i < fields.len() ==> row.contains_key((scope, (#[trigger] fields[i]).name))
                && row[(scope, fields[i].name)] == value_of(world, over, fields[i].expression) {
            assert forall|i: int| 0 <= i < fewer.len() implies row.contains_key(
                (scope, (#[trigger] fewer[i]).name),
            ) && row[(scope, fewer[i].name)] == value_of(world, over, fewer[i].expression) by {
                assert(fewer[i] == fields[i]);
            }
            assert(fields[fields.len() - 1] == fields.last());
        }
    }
}

pub proof fn lemma_projects(
    input: RelationView,
    from: RelationView,
    scope: Option<Seq<char>>,
    fields: Seq<ProjectFieldView>,
)
    requires
        forall|world: World, outer: Row, row: Row| #[trigger]
            gives(world, outer, input, row) <==> gives(world, outer, from, row),
    ensures
        projects(
            RelationView::Project {
                input: Box::new(input),
                scope,
                spread: Seq::empty(),
                fields,
            },
            from,
            label_of(scope),
            fields,
        ),
{
    reveal(projects);
    let relation = RelationView::Project {
        input: Box::new(input),
        scope,
        spread: Seq::empty(),
        fields,
    };
    let label = label_of(scope);
    assert forall|world: World, outer: Row, row: Row| #[trigger]
        gives(world, outer, relation, row) <==> exists|source: Row| #[trigger]
            candidate(source) && gives(world, outer, from, source) && is_projected(
                world,
                within(outer, source),
                label,
                fields,
                row,
            ) by {
        if gives(world, outer, relation, row) {
            let source = choose|source: Row| #[trigger]
                candidate(source) && gives(world, outer, input, source) && holds_fields(
                    world,
                    within(outer, source),
                    label,
                    fields,
                    row,
                ) && forall|key: (Seq<char>, Seq<char>)| #[trigger]
                    row.contains_key(key) <==> (key.0 == label && names_field(fields, key.1)) || (
                    Seq::<Seq<char>>::empty().contains(key.0) && source.contains_key(key));
            lemma_holds_fields(world, within(outer, source), label, fields, row);
            assert(gives(world, outer, from, source));
            assert(candidate(source));
        }
        if exists|source: Row| #[trigger]
            candidate(source) && gives(world, outer, from, source) && is_projected(
                world,
                within(outer, source),
                label,
                fields,
                row,
            ) {
            let source = choose|source: Row| #[trigger]
                candidate(source) && gives(world, outer, from, source) && is_projected(
                    world,
                    within(outer, source),
                    label,
                    fields,
                    row,
                );
            let over = within(outer, source);
            assert forall|i: int| 0 <= i < fields.len() implies row.contains_key(
                (label, (#[trigger] fields[i]).name),
            ) by {
                assert(names_field(fields, fields[i].name));
            }
            lemma_holds_fields(world, over, label, fields, row);
            assert(gives(world, outer, input, source));
            assert(candidate(source));
        }
    }
}

/// A row source, sorted, gives the same rows.
pub proof fn lemma_sorted_gives(relation: RelationView, terms: Seq<OrderTermView>)
    ensures
        forall|world: World, outer: Row, row: Row| #[trigger]
            gives(
                world,
                outer,
                RelationView::Order { input: Box::new(relation), terms },
                row,
            ) <==> gives(world, outer, relation, row),
{
}

// ---- changed rows ----

/// Whether a table is the one that a FROM item names, and a row source the one that
/// stands for it.
#[verifier::opaque]
pub open spec fn is_target(
    around: Surroundings,
    item: TreeView,
    table: TableView,
    scopes: Seq<ScopeDefView>,
    target: ScopeDefView,
) -> bool {
    let named = tree::at(tree::at(item, "relation"@), "Table"@);
    let alias = tree::at(named, "alias"@);
    &&& around.tables.contains(table)
    &&& literals::object_text(tree::at(named, "name"@)) matches Ok(name) && table.name == name
    &&& scopes.contains(target)
    &&& target.alias == (if alias is Null {
        table.name
    } else {
        literals::ident_name(tree::at(alias, "name"@))
    })
}

/// Whether row sources are those of a FROM list, after others.
#[verifier::opaque]
pub open spec fn reads_from(
    around: Surroundings,
    items: TreeView,
    before: Sources,
    sources: Sources,
) -> bool {
    exists|state: State|
        (#[trigger] lowering::from_items(around, state, items, 0, env::no_env(), before)) matches Ok(
            (found, _),
        ) && found == sources
}

/// Whether row sources are those of one FROM item.
#[verifier::opaque]
pub open spec fn reads_item(around: Surroundings, item: TreeView, sources: Sources) -> bool {
    exists|state: State|
        (#[trigger] lowering::from_item(
            around,
            state,
            item,
            env::no_env(),
            lowering::no_sources(),
        )) matches Ok((found, _)) && found == sources
}

/// Whether fields carry a key: each column of it, from a row source.
#[verifier::opaque]
pub open spec fn carry_key(
    fields: Seq<ProjectFieldView>,
    key: Seq<Seq<char>>,
    label: Seq<char>,
) -> bool {
    fields.len() == key.len() && forall|i: int|
        0 <= i < key.len() ==> (#[trigger] fields[i]).name == key[i] && forall|
            world: World,
            row: Row,
        | #[trigger]
            value_of(world, row, fields[i].expression) == read(row, label, key[i])
}

/// The tables that a DELETE lists.
pub open spec fn is_delete_list(delete: TreeView, items: TreeView) -> bool {
    let from = tree::at(delete, "from"@);
    ||| tree::is(from, "WithFromKeyword"@) && items == tree::at(from, "WithFromKeyword"@)
    ||| !tree::is(from, "WithFromKeyword"@) && items == tree::at(from, "WithoutKeyword"@)
}

/// Whether a statement deletes what a DELETE asks for: from the table it names, the
/// rows whose keys some row of its sources has for which its WHERE is true; all of
/// them where it has no WHERE.
#[verifier::opaque]
pub open spec fn deletes(
    around: Surroundings,
    delete: TreeView,
    statement: StatementView,
) -> bool {
    exists|
        items: TreeView,
        first: Sources,
        sources: Sources,
        table: TableView,
        target: ScopeDefView,
        matched: RelationView,
        fields: Seq<ProjectFieldView>,
    |
        {
            &&& #[trigger] is_delete_list(delete, items)
            &&& tree::list(items).len() == 1
            &&& #[trigger] reads_from(around, items, lowering::no_sources(), first)
            &&& #[trigger] reads_from(around, tree::at(delete, "using"@), first, sources)
            &&& is_target(around, tree::list(items)[0], table, sources.scopes, target)
            &&& #[trigger] restricts(
                around,
                env::over(env::local_env(sources.scopes, env::no_env())),
                matched,
                sources.relation->0,
                tree::at(delete, "selection"@),
            )
            &&& #[trigger] carry_key(fields, table.primary_key, target.label)
            &&& statement is Delete
            &&& projects_to(statement, table.name, matched, fields)
        }
}

pub proof fn lemma_found_table(tables: Seq<TableView>, name: Seq<char>)
    requires
        catalog::find_table(tables, name) is Some,
    ensures
        tables.contains(catalog::find_table(tables, name)->0),
        catalog::find_table(tables, name)->0.name == name,
    decreases tables.len(),
{
    if tables[0].name != name {
        lemma_found_table(tables.skip(1), name);
        let i = choose|i: int|
            0 <= i < tables.skip(1).len() && tables.skip(1)[i] == catalog::find_table(
                tables,
                name,
            )->0;
        assert(tables[i + 1] == tables.skip(1)[i]);
    } else {
        assert(tables.contains(tables[0]));
    }
}

proof fn lemma_found_source(scopes: Seq<ScopeDefView>, alias: Seq<char>)
    requires
        env::find_scope(scopes, alias) is Some,
    ensures
        scopes.contains(env::find_scope(scopes, alias)->0),
        env::find_scope(scopes, alias)->0.alias == alias,
    decreases scopes.len(),
{
    if scopes[0].alias != alias {
        lemma_found_source(scopes.skip(1), alias);
        let i = choose|i: int|
            0 <= i < scopes.skip(1).len() && scopes.skip(1)[i] == env::find_scope(scopes, alias)->0;
        assert(scopes[i + 1] == scopes.skip(1)[i]);
    } else {
        assert(scopes.contains(scopes[0]));
    }
}

proof fn lemma_key_fields(key: Seq<Seq<char>>, label: Seq<char>)
    ensures
        carry_key(mutations::key_fields(key, label), key, label),
{
    reveal(carry_key);
}

proof fn lemma_reads_from(
    around: Surroundings,
    state: State,
    items: TreeView,
    before: Sources,
    sources: Sources,
    after: State,
)
    requires
        lowering::from_items(around, state, items, 0, env::no_env(), before) == Ok::<
            (Sources, State),
            ErrorView,
        >((sources, after)),
    ensures
        reads_from(around, items, before, sources),
{
    reveal(reads_from);
}

proof fn lemma_reads_item(
    around: Surroundings,
    state: State,
    item: TreeView,
    sources: Sources,
    after: State,
)
    requires
        lowering::from_item(around, state, item, env::no_env(), lowering::no_sources()) == Ok::<
            (Sources, State),
            ErrorView,
        >((sources, after)),
    ensures
        reads_item(around, item, sources),
{
    reveal(reads_item);
}

proof fn lemma_target(
    around: Surroundings,
    item: TreeView,
    table: TableView,
    scopes: Seq<ScopeDefView>,
    target: ScopeDefView,
)
    requires
        ({
            let named = tree::at(tree::at(item, "relation"@), "Table"@);
            &&& mutations::table_of(around, tree::at(named, "name"@)) == Ok::<
                TableView,
                ErrorView,
            >(table)
            &&& env::find_scope(
                scopes,
                lowering::alias_name(tree::at(named, "alias"@), table.name),
            ) == Some(target)
        }),
    ensures
        is_target(around, item, table, scopes, target),
{
    reveal(is_target);
    let named = tree::at(tree::at(item, "relation"@), "Table"@);
    let name = literals::object_text(tree::at(named, "name"@))->Ok_0;
    lemma_found_table(around.tables, name);
    lemma_found_source(scopes, lowering::alias_name(tree::at(named, "alias"@), table.name));
}

proof fn lemma_deletes(
    around: Surroundings,
    delete: TreeView,
    statement: StatementView,
    items: TreeView,
    first: Sources,
    sources: Sources,
    table: TableView,
    target: ScopeDefView,
    matched: RelationView,
    fields: Seq<ProjectFieldView>,
)
    requires
        is_delete_list(delete, items),
        tree::list(items).len() == 1,
        reads_from(around, items, lowering::no_sources(), first),
        reads_from(around, tree::at(delete, "using"@), first, sources),
        is_target(around, tree::list(items)[0], table, sources.scopes, target),
        restricts(
            around,
            env::over(env::local_env(sources.scopes, env::no_env())),
            matched,
            sources.relation->0,
            tree::at(delete, "selection"@),
        ),
        carry_key(fields, table.primary_key, target.label),
        statement is Delete,
        projects_to(statement, table.name, matched, fields),
    ensures
        deletes(around, delete, statement),
{
    reveal(deletes);
}

proof fn lemma_deleted_in(
    around: Surroundings,
    state: State,
    delete: TreeView,
    table: TableView,
    items: TreeView,
    first: Sources,
    sources: Sources,
)
    requires
        mutations::deleted_in(around, state, delete, table, items, sources) is Ok,
        is_delete_list(delete, items),
        tree::list(items).len() == 1,
        reads_from(around, items, lowering::no_sources(), first),
        reads_from(around, tree::at(delete, "using"@), first, sources),
        ({
            let named = tree::at(tree::at(tree::list(items)[0], "relation"@), "Table"@);
            mutations::table_of(around, tree::at(named, "name"@)) == Ok::<TableView, ErrorView>(
                table,
            )
        }),
    ensures
        ({
            let made = mutations::deleted_in(
                around,
                state,
                delete,
                table,
                items,
                sources,
            )->Ok_0.0;
            made.program.statements.len() > 0 && deletes(
                around,
                delete,
                made.program.statements[0],
            )
        }),
{
    let made = mutations::deleted_in(around, state, delete, table, items, sources)->Ok_0.0;
    let item = tree::list(items)[0];
    let named = tree::at(tree::at(item, "relation"@), "Table"@);
    let known = lowering::alias_name(tree::at(named, "alias"@), table.name);
    let env = env::local_env(sources.scopes, env::no_env());
    let compiler = env::over(env);
    assert(env.levels[0] == sources.scopes);
    assert(env::local_scopes(env) == sources.scopes);
    let target = env::find_scope(sources.scopes, known)->0;
    lemma_target(around, item, table, sources.scopes, target);
    let from = sources.relation->0;
    let condition = tree::at(delete, "selection"@);
    conditions_keep_what_is_true(around, state, compiler, from, condition);
    let (matched, after) = lowering::filtered(around, state, compiler, from, condition)->Ok_0;
    let fields = mutations::key_fields(table.primary_key, target.label);
    lemma_key_fields(table.primary_key, target.label);
    lemma_ordered_projection(matched, table.primary_key, target.label, fields);
    let statement = made.program.statements[0];
    lemma_deletes(
        around,
        delete,
        statement,
        items,
        first,
        sources,
        table,
        target,
        matched,
        fields,
    );
}

/// A DELETE deletes the rows for which its WHERE is true, by their keys, from the
/// table that it names; only one without a WHERE deletes all.
pub proof fn deletes_remove_what_matches(around: Surroundings, state: State, delete: TreeView)
    requires
        mutations::deleted(around, state, delete) is Ok,
    ensures
        mutations::deleted(around, state, delete)->Ok_0.0.program.statements.len() > 0,
        deletes(
            around,
            delete,
            mutations::deleted(around, state, delete)->Ok_0.0.program.statements[0],
        ),
{
    let items = mutations::delete_items(delete);
    let item = tree::list(items)[0];
    let named = tree::at(tree::at(item, "relation"@), "Table"@);
    let none = lowering::no_sources();
    let table = mutations::table_of(around, tree::at(named, "name"@))->Ok_0;
    let (first, s1) = lowering::from_items(around, state, items, 0, env::no_env(), none)->Ok_0;
    lemma_reads_from(around, state, items, none, first, s1);
    let using = tree::at(delete, "using"@);
    let (sources, s2) = lowering::from_items(around, s1, using, 0, env::no_env(), first)->Ok_0;
    lemma_reads_from(around, s1, using, first, sources, s2);
    lemma_deleted_in(around, s2, delete, table, items, first, sources);
}

/// The FROM items of an UPDATE.
pub open spec fn is_update_list(update: TreeView, items: TreeView) -> bool {
    let from = tree::at(update, "from"@);
    ||| tree::is(from, "BeforeSet"@) && items == tree::at(from, "BeforeSet"@)
    ||| !tree::is(from, "BeforeSet"@) && items == tree::at(from, "AfterSet"@)
}

/// The column that an assignment sets.
pub open spec fn assigned_column(assignment: TreeView) -> TreeView {
    tree::at(tree::at(assignment, "target"@), "ColumnName"@)
}

/// Whether a field is what an assignment asks for: its value, under the name of its
/// column.
pub open spec fn is_assignment(
    around: Surroundings,
    compiler: ExpressionCompilerView,
    assignment: TreeView,
    field: ProjectFieldView,
) -> bool {
    &&& tree::is(tree::at(assignment, "target"@), "ColumnName"@)
    &&& literals::object_text(assigned_column(assignment)) matches Ok(name) && field.name == name
    &&& lowers(around, compiler, tree::at(assignment, "value"@), field.expression)
}

/// Whether fields carry a key, and then hold some assignments, one by one.
#[verifier::opaque]
pub open spec fn assign(
    around: Surroundings,
    compiler: ExpressionCompilerView,
    fields: Seq<ProjectFieldView>,
    key: Seq<Seq<char>>,
    label: Seq<char>,
    assignments: Seq<TreeView>,
) -> bool {
    &&& fields.len() == key.len() + assignments.len()
    &&& carry_key(fields.take(key.len() as int), key, label)
    &&& forall|i: int|
        0 <= i < assignments.len() ==> is_assignment(
            around,
            compiler,
            #[trigger] assignments[i],
            fields[key.len() + i],
        )
}

/// Whether a statement updates what an UPDATE asks for: in the table it names, the
/// rows whose keys some row of its sources has for which its WHERE is true, to what
/// its assignments compute from that row.
#[verifier::opaque]
pub open spec fn updates(
    around: Surroundings,
    update: TreeView,
    statement: StatementView,
) -> bool {
    exists|
        items: TreeView,
        first: Sources,
        sources: Sources,
        table: TableView,
        target: ScopeDefView,
        matched: RelationView,
        fields: Seq<ProjectFieldView>,
    |
        {
            let compiler = env::over(env::local_env(sources.scopes, env::no_env()));
            &&& #[trigger] reads_item(around, tree::at(update, "table"@), first)
            &&& #[trigger] is_update_list(update, items)
            &&& #[trigger] reads_from(around, items, first, sources)
            &&& #[trigger] is_target(
                around,
                tree::at(update, "table"@),
                table,
                sources.scopes,
                target,
            )
            &&& restricts(
                around,
                compiler,
                matched,
                sources.relation->0,
                tree::at(update, "selection"@),
            )
            &&& assign(
                around,
                compiler,
                fields,
                table.primary_key,
                target.label,
                tree::list(tree::at(update, "assignments"@)),
            )
            &&& #[trigger] projects_to(statement, table.name, matched, fields)
            &&& statement is Update
        }
}

/// Whether a statement changes a table by the rows of a relation, projected.
pub open spec fn projects_to(
    statement: StatementView,
    table: Seq<char>,
    from: RelationView,
    fields: Seq<ProjectFieldView>,
) -> bool {
    match statement {
        StatementView::Create { table: changed, relation, .. } => changed == table && projects(
            relation.root,
            from,
            Seq::empty(),
            fields,
        ),
        StatementView::Update { table: changed, relation, .. } => changed == table && projects(
            relation.root,
            from,
            Seq::empty(),
            fields,
        ),
        StatementView::Delete { table: changed, relation, .. } => changed == table && projects(
            relation.root,
            from,
            Seq::empty(),
            fields,
        ),
        _ => false,
    }
}

proof fn lemma_assigned(
    around: Surroundings,
    state: State,
    compiler: ExpressionCompilerView,
    table: TableView,
    label: Seq<char>,
    assignments: TreeView,
    i: nat,
    done: Seq<ProjectFieldView>,
)
    requires
        i <= tree::list(assignments).len(),
        mutations::assigned(around, state, compiler, table, assignments, i, false, done) is Ok,
        assign(
            around,
            compiler,
            done,
            table.primary_key,
            label,
            tree::list(assignments).take(i as int),
        ),
    ensures
        assign(
            around,
            compiler,
            mutations::assigned(
                around,
                state,
                compiler,
                table,
                assignments,
                i,
                false,
                done,
            )->Ok_0.0,
            table.primary_key,
            label,
            tree::list(assignments),
        ),
    decreases tree::list(assignments).len() - i,
{
    reveal(assign);
    let all = tree::list(assignments);
    if i >= all.len() {
        assert(all.take(i as int) =~= all);
    } else {
        let assignment = all[i as int];
        let name = literals::object_text(assigned_column(assignment))->Ok_0;
        let column = catalog::find_column(table.columns, name)->0;
        let wanted = Some(column.scalar_type);
        let e = tree::at(assignment, "value"@);
        lemma_lowers(around, state, compiler, e, wanted);
        let (value, after) = compiled(around, state, compiler, e, wanted)->Ok_0;
        let field = ProjectFieldView { name, expression: value.expr };
        let next = done.push(field);
        let key = table.primary_key;
        assert(next.take(key.len() as int) =~= done.take(key.len() as int));
        assert forall|k: int| 0 <= k < i + 1 implies is_assignment(
            around,
            compiler,
            #[trigger] all.take((i + 1) as int)[k],
            next[key.len() + k],
        ) by {
            if k < i {
                assert(all.take((i + 1) as int)[k] == all.take(i as int)[k]);
                assert(next[key.len() + k] == done[key.len() + k]);
            } else {
                assert(next[key.len() + k] == field);
            }
        }
        lemma_assigned(around, after, compiler, table, label, assignments, i + 1, next);
    }
}

proof fn lemma_updates(
    around: Surroundings,
    update: TreeView,
    statement: StatementView,
    items: TreeView,
    first: Sources,
    sources: Sources,
    table: TableView,
    target: ScopeDefView,
    matched: RelationView,
    fields: Seq<ProjectFieldView>,
)
    requires
        reads_item(around, tree::at(update, "table"@), first),
        is_update_list(update, items),
        reads_from(around, items, first, sources),
        is_target(around, tree::at(update, "table"@), table, sources.scopes, target),
        restricts(
            around,
            env::over(env::local_env(sources.scopes, env::no_env())),
            matched,
            sources.relation->0,
            tree::at(update, "selection"@),
        ),
        assign(
            around,
            env::over(env::local_env(sources.scopes, env::no_env())),
            fields,
            table.primary_key,
            target.label,
            tree::list(tree::at(update, "assignments"@)),
        ),
        projects_to(statement, table.name, matched, fields),
        statement is Update,
    ensures
        updates(around, update, statement),
{
    reveal(updates);
}

proof fn lemma_update_fields(
    around: Surroundings,
    state: State,
    compiler: ExpressionCompilerView,
    table: TableView,
    label: Seq<char>,
    assignments: TreeView,
)
    requires
        mutations::assigned(
            around,
            state,
            compiler,
            table,
            assignments,
            0,
            false,
            mutations::key_fields(table.primary_key, label),
        ) is Ok,
    ensures
        assign(
            around,
            compiler,
            mutations::assigned(
                around,
                state,
                compiler,
                table,
                assignments,
                0,
                false,
                mutations::key_fields(table.primary_key, label),
            )->Ok_0.0,
            table.primary_key,
            label,
            tree::list(assignments),
        ),
{
    reveal(assign);
    let keys = mutations::key_fields(table.primary_key, label);
    lemma_key_fields(table.primary_key, label);
    assert(keys.take(table.primary_key.len() as int) =~= keys);
    lemma_assigned(around, state, compiler, table, label, assignments, 0, keys);
}

proof fn lemma_ordered_projection(
    matched: RelationView,
    names: Seq<Seq<char>>,
    label: Seq<char>,
    fields: Seq<ProjectFieldView>,
)
    ensures
        projects(
            mutations::unscoped(env::ordered_by_names(matched, names, label), fields),
            matched,
            Seq::empty(),
            fields,
        ),
{
    let order = env::name_terms(names, label);
    lemma_sorted_gives(matched, order);
    let ordered = RelationView::Order { input: Box::new(matched), terms: order };
    lemma_projects(ordered, matched, None, fields);
}

proof fn lemma_updated_in(
    around: Surroundings,
    state: State,
    update: TreeView,
    table: TableView,
    items: TreeView,
    first: Sources,
    sources: Sources,
)
    requires
        mutations::updated_in(around, state, update, table, sources) is Ok,
        reads_item(around, tree::at(update, "table"@), first),
        is_update_list(update, items),
        reads_from(around, items, first, sources),
        ({
            let named = tree::at(tree::at(tree::at(update, "table"@), "relation"@), "Table"@);
            mutations::table_of(around, tree::at(named, "name"@)) == Ok::<TableView, ErrorView>(
                table,
            )
        }),
    ensures
        mutations::updated_in(
            around,
            state,
            update,
            table,
            sources,
        )->Ok_0.0.program.statements.len() > 0,
        updates(
            around,
            update,
            mutations::updated_in(
                around,
                state,
                update,
                table,
                sources,
            )->Ok_0.0.program.statements[0],
        ),
{
    let made = mutations::updated_in(around, state, update, table, sources)->Ok_0.0;
    let item = tree::at(update, "table"@);
    let named = tree::at(tree::at(item, "relation"@), "Table"@);
    let known = lowering::alias_name(tree::at(named, "alias"@), table.name);
    let env = env::local_env(sources.scopes, env::no_env());
    let compiler = env::over(env);
    assert(env.levels[0] == sources.scopes);
    assert(env::local_scopes(env) == sources.scopes);
    let target = env::find_scope(sources.scopes, known)->0;
    lemma_target(around, item, table, sources.scopes, target);
    let from = sources.relation->0;
    let condition = tree::at(update, "selection"@);
    conditions_keep_what_is_true(around, state, compiler, from, condition);
    let (matched, after) = lowering::filtered(around, state, compiler, from, condition)->Ok_0;
    let keys = mutations::key_fields(table.primary_key, target.label);
    let assignments = tree::at(update, "assignments"@);
    lemma_update_fields(around, after, compiler, table, target.label, assignments);
    let fields = mutations::assigned(
        around,
        after,
        compiler,
        table,
        assignments,
        0,
        false,
        keys,
    )->Ok_0.0;
    lemma_ordered_projection(matched, table.primary_key, target.label, fields);
    let statement = made.program.statements[0];
    lemma_updates(
        around,
        update,
        statement,
        items,
        first,
        sources,
        table,
        target,
        matched,
        fields,
    );
}

/// An UPDATE sets the columns that its assignments name, to their values, in the
/// rows for which its WHERE is true.
pub proof fn updates_change_what_matches(around: Surroundings, state: State, update: TreeView)
    requires
        mutations::updated(around, state, update) is Ok,
    ensures
        mutations::updated(around, state, update)->Ok_0.0.program.statements.len() > 0,
        updates(
            around,
            update,
            mutations::updated(around, state, update)->Ok_0.0.program.statements[0],
        ),
{
    let item = tree::at(update, "table"@);
    let named = tree::at(tree::at(item, "relation"@), "Table"@);
    let none = lowering::no_sources();
    let items = mutations::update_items(update);
    let table = mutations::table_of(around, tree::at(named, "name"@))->Ok_0;
    let (first, s1) = lowering::from_item(around, state, item, env::no_env(), none)->Ok_0;
    lemma_reads_item(around, state, item, first, s1);
    let (sources, s2) = lowering::from_items(around, s1, items, 0, env::no_env(), first)->Ok_0;
    lemma_reads_from(around, s1, items, first, sources, s2);
    lemma_updated_in(around, s2, update, table, items, first, sources);
}

/// Whether fields carry a key, and then hold the assignments of an upsert, which
/// leave out those to columns of the key.
#[verifier::opaque]
pub open spec fn assign_outside(
    around: Surroundings,
    compiler: ExpressionCompilerView,
    fields: Seq<ProjectFieldView>,
    key: Seq<Seq<char>>,
    label: Seq<char>,
    assignments: Seq<TreeView>,
) -> bool {
    &&& fields.len() >= key.len()
    &&& carry_key(fields.take(key.len() as int), key, label)
    &&& forall|j: int|
        key.len() <= j < fields.len() ==> is_assigned(
            around,
            compiler,
            assignments,
            #[trigger] fields[j],
        )
    &&& forall|i: int|
        0 <= i < assignments.len() ==> (literals::object_text(
            assigned_column(#[trigger] assignments[i]),
        ) matches Ok(name) && (key.contains(name) || assigns_it(
            around,
            compiler,
            assignments[i],
            fields,
        )))
}

/// Whether a field is what one of some assignments asks for.
pub open spec fn is_assigned(
    around: Surroundings,
    compiler: ExpressionCompilerView,
    assignments: Seq<TreeView>,
    field: ProjectFieldView,
) -> bool {
    exists|i: int|
        0 <= i < assignments.len() && is_assignment(
            around,
            compiler,
            #[trigger] assignments[i],
            field,
        )
}

/// Whether one of some fields is what an assignment asks for.
pub open spec fn assigns_it(
    around: Surroundings,
    compiler: ExpressionCompilerView,
    assignment: TreeView,
    fields: Seq<ProjectFieldView>,
) -> bool {
    exists|j: int|
        0 <= j < fields.len() && is_assignment(around, compiler, assignment, #[trigger] fields[j])
}

proof fn lemma_assigned_outside(
    around: Surroundings,
    state: State,
    compiler: ExpressionCompilerView,
    table: TableView,
    label: Seq<char>,
    assignments: TreeView,
    i: nat,
    done: Seq<ProjectFieldView>,
)
    requires
        i <= tree::list(assignments).len(),
        mutations::assigned(around, state, compiler, table, assignments, i, true, done) is Ok,
        assign_outside(
            around,
            compiler,
            done,
            table.primary_key,
            label,
            tree::list(assignments).take(i as int),
        ),
    ensures
        assign_outside(
            around,
            compiler,
            mutations::assigned(
                around,
                state,
                compiler,
                table,
                assignments,
                i,
                true,
                done,
            )->Ok_0.0,
            table.primary_key,
            label,
            tree::list(assignments),
        ),
    decreases tree::list(assignments).len() - i,
{
    let all = tree::list(assignments);
    let key = table.primary_key;
    if i >= all.len() {
        assert(all.take(i as int) =~= all);
    } else {
        let assignment = all[i as int];
        let name = literals::object_text(assigned_column(assignment))->Ok_0;
        if key.contains(name) {
            lemma_one_more(around, compiler, done, key, label, all, i, None);
            lemma_assigned_outside(
                around,
                state,
                compiler,
                table,
                label,
                assignments,
                i + 1,
                done,
            );
        } else {
            let column = catalog::find_column(table.columns, name)->0;
            let wanted = Some(column.scalar_type);
            let e = tree::at(assignment, "value"@);
            lemma_lowers(around, state, compiler, e, wanted);
            let (value, after) = compiled(around, state, compiler, e, wanted)->Ok_0;
            let field = ProjectFieldView { name, expression: value.expr };
            lemma_one_more(around, compiler, done, key, label, all, i, Some(field));
            lemma_assigned_outside(
                around,
                after,
                compiler,
                table,
                label,
                assignments,
                i + 1,
                done.push(field),
            );
        }
    }
}

proof fn lemma_one_more(
    around: Surroundings,
    compiler: ExpressionCompilerView,
    done: Seq<ProjectFieldView>,
    key: Seq<Seq<char>>,
    label: Seq<char>,
    all: Seq<TreeView>,
    i: nat,
    field: Option<ProjectFieldView>,
)
    requires
        i < all.len(),
        assign_outside(around, compiler, done, key, label, all.take(i as int)),
        match field {
            Some(field) => is_assignment(around, compiler, all[i as int], field),
            None => literals::object_text(assigned_column(all[i as int])) matches Ok(name)
                && key.contains(name),
        },
    ensures
        assign_outside(
            around,
            compiler,
            match field {
                Some(field) => done.push(field),
                None => done,
            },
            key,
            label,
            all.take((i + 1) as int),
        ),
{
    reveal(assign_outside);
    let before = all.take(i as int);
    let more = all.take((i + 1) as int);
    let next = match field {
        Some(field) => done.push(field),
        None => done,
    };
    assert(next.take(key.len() as int) =~= done.take(key.len() as int));
    assert(more[i as int] == all[i as int]);
    assert forall|j: int| key.len() <= j < next.len() implies is_assigned(
        around,
        compiler,
        more,
        #[trigger] next[j],
    ) by {
        if j < done.len() {
            assert(next[j] == done[j]);
            let k = choose|k: int|
                0 <= k < before.len() && is_assignment(
                    around,
                    compiler,
                    #[trigger] before[k],
                    done[j],
                );
            assert(more[k] == before[k]);
        } else {
            assert(is_assignment(around, compiler, more[i as int], next[j]));
        }
    }
    assert forall|k: int| 0 <= k < more.len() implies (literals::object_text(
        assigned_column(#[trigger] more[k]),
    ) matches Ok(name) && (key.contains(name) || assigns_it(
        around,
        compiler,
        more[k],
        next,
    ))) by {
        if k < i {
            assert(more[k] == before[k]);
            if assigns_it(around, compiler, before[k], done) {
                let j = choose|j: int|
                    0 <= j < done.len() && is_assignment(
                        around,
                        compiler,
                        before[k],
                        #[trigger] done[j],
                    );
                assert(next[j] == done[j]);
            }
        } else if field is Some {
            assert(next[done.len() as int] == field->0);
        }
    }
}

/// Whether a statement updates what the DO UPDATE of an upsert asks for: of the pairs
/// of an inserted row and a stored one in its way, those for which its WHERE is true,
/// by what its assignments compute from both.
#[verifier::opaque]
pub open spec fn upserts(
    around: Surroundings,
    update: TreeView,
    table: TableView,
    rows: RelationView,
    statement: StatementView,
) -> bool {
    exists|
        compiler: ExpressionCompilerView,
        label: Seq<char>,
        on: ExprView,
        matched: RelationView,
        fields: Seq<ProjectFieldView>,
    |
        {
            &&& #[trigger] restricts(
                around,
                compiler,
                matched,
                mutations::matched_rows(rows, table, label, on),
                tree::at(update, "selection"@),
            )
            &&& #[trigger] assign_outside(
                around,
                compiler,
                fields,
                table.primary_key,
                label,
                tree::list(tree::at(update, "assignments"@)),
            )
            &&& statement is Update
            &&& projects_to(statement, table.name, matched, fields)
        }
}

/// The DO UPDATE of an upsert changes the stored rows in the way for which its WHERE
/// is true, in the columns that its assignments name.
pub proof fn upserts_change_what_matches(
    around: Surroundings,
    state: State,
    insert: TreeView,
    table: TableView,
    rows: RelationView,
    inserted: ScopeDefView,
    key: Seq<Seq<char>>,
    update: TreeView,
)
    requires
        mutations::upsert_update(
            around,
            state,
            insert,
            table,
            rows,
            inserted,
            key,
            update,
        ) is Ok,
    ensures
        upserts(
            around,
            update,
            table,
            rows,
            mutations::upsert_update(
                around,
                state,
                insert,
                table,
                rows,
                inserted,
                key,
                update,
            )->Ok_0.0,
        ),
{
    let statement = mutations::upsert_update(
        around,
        state,
        insert,
        table,
        rows,
        inserted,
        key,
        update,
    )->Ok_0.0;
    let alias = tree::at(insert, "table_alias"@);
    let label = mutations::fresh(state, table.name);
    let s1 = lowering::after_label(state);
    let known = if alias is Null {
        table.name
    } else {
        literals::ident_name(tree::at(alias, "alias"@))
    };
    let stored = env::table_scope(table, known, label);
    let on = mutations::conflict_predicate(stored, inserted, key)->Ok_0;
    let compiler = env::over(env::local_env(seq![inserted, stored], env::no_env()));
    let from = mutations::matched_rows(rows, table, label, on);
    let condition = tree::at(update, "selection"@);
    conditions_keep_what_is_true(around, s1, compiler, from, condition);
    let (matched, s2) = lowering::filtered(around, s1, compiler, from, condition)->Ok_0;
    let keys = mutations::key_fields(table.primary_key, label);
    let assignments = tree::at(update, "assignments"@);
    lemma_key_fields(table.primary_key, label);
    assert(assign_outside(
        around,
        compiler,
        keys,
        table.primary_key,
        label,
        tree::list(assignments).take(0),
    )) by {
        reveal(assign_outside);
        assert(keys.take(table.primary_key.len() as int) =~= keys);
    }
    lemma_assigned_outside(around, s2, compiler, table, label, assignments, 0, keys);
    let fields = mutations::assigned(
        around,
        s2,
        compiler,
        table,
        assignments,
        0,
        true,
        keys,
    )->Ok_0.0;
    lemma_ordered_projection(matched, table.primary_key, label, fields);
    assert(upserts(around, update, table, rows, statement)) by {
        reveal(upserts);
    }
}

// ---- aggregates ----

/// Whether a value is what the aggregate with a name makes of the values of a group,
/// of which nulls count for nothing: how many there are, their sum, their mean, one
/// that none is less than, or one that is less than none.
pub open spec fn aggregate_means(
    world: World,
    name: Seq<char>,
    values: Seq<Val>,
    result: Val,
) -> bool {
    let all = present(values);
    let none = all.len() == 0;
    ||| name == "count"@ && result == Val::Number(all.len() as int)
    ||| name == "sum"@ && (if none {
        result is Null
    } else {
        result == total(world, all)
    })
    ||| name == "avg"@ && (if none {
        result is Null
    } else {
        result == (world.over)(total(world, all), Val::Number(all.len() as int))
    })
    ||| name == "min"@ && (if none {
        result is Null
    } else {
        all.contains(result) && forall|i: int|
            0 <= i < all.len() ==> !(world.less)(#[trigger] all[i], result)
    })
    ||| name == "max"@ && (if none {
        result is Null
    } else {
        all.contains(result) && forall|i: int|
            0 <= i < all.len() ==> !(world.less)(result, #[trigger] all[i])
    })
}

/// The name of an aggregate means the function of that name, and no other name means
/// one.
pub proof fn aggregate_names_keep_their_meaning(name: Seq<char>)
    ensures
        lowering::aggregate_function(name) matches Some(function) ==> forall|
            world: World,
            values: Seq<Val>,
            result: Val,
        | #[trigger]
            aggregates_to(world, function, values, result) ==> aggregate_means(
                world,
                name,
                values,
                result,
            ),
        lowering::aggregate_function(name) is Some <==> name == "count"@ || name == "sum"@ || name
            == "avg"@ || name == "min"@ || name == "max"@,
{
}

/// Whether a term computes an aggregate call: the function that it names, over the
/// values that its argument means, or over the rows where that is a wildcard.
pub open spec fn term_means(
    around: Surroundings,
    compiler: ExpressionCompilerView,
    function: TreeView,
    computed: AggregateFunction,
    argument: Option<ExprView>,
    distinct: bool,
) -> bool {
    let list = tree::at(tree::at(function, "args"@), "List"@);
    let arguments = tree::list(tree::at(list, "args"@));
    &&& forall|world: World, values: Seq<Val>, result: Val| #[trigger]
        aggregates_to(world, computed, values, result) ==> aggregate_means(
            world,
            called(function),
            values,
            result,
        )
    &&& arguments.len() == 1
    &&& match argument {
        Some(p) => tree::is(tree::at(arguments[0], "Unnamed"@), "Expr"@) && lowers(
            around,
            compiler,
            tree::at(tree::at(arguments[0], "Unnamed"@), "Expr"@),
            p,
        ),
        None => called(function) == "count"@ && tree::is(
            tree::at(arguments[0], "Unnamed"@),
            "Wildcard"@,
        ),
    }
    &&& distinct == tree::is(tree::at(list, "duplicate_treatment"@), "Distinct"@)
}

/// An aggregate call computes the function that it names, over the values of its
/// argument, each once where it says DISTINCT.
pub proof fn aggregates_keep_their_meaning(
    around: Surroundings,
    state: State,
    compiler: ExpressionCompilerView,
    function: TreeView,
)
    requires
        lowering::aggregate_of(around, state, compiler, function) is Ok,
    ensures
        ({
            let made = lowering::aggregate_of(around, state, compiler, function)->Ok_0.0;
            term_means(
                around,
                compiler,
                function,
                made.function,
                made.argument,
                made.distinct,
            )
        }),
{
    let made = lowering::aggregate_of(around, state, compiler, function)->Ok_0.0;
    let list = tree::at(tree::at(function, "args"@), "List"@);
    let arguments = tree::at(list, "args"@);
    aggregate_names_keep_their_meaning(called(function));
    if made.argument is Some {
        let e = lowering::argument_expression(tree::list(arguments)[0]);
        lemma_lowers(around, state, compiler, e, None);
    }
}

/// Whether an aggregation has a term for each of some calls, and has that stand for
/// the call.
pub open spec fn has_terms(
    around: Surroundings,
    compiler: ExpressionCompilerView,
    found: Seq<TreeView>,
    made: lowering::Aggregation,
) -> bool {
    let groups = made.groups.len();
    &&& made.terms.len() == found.len()
    &&& made.distinct.len() == found.len()
    &&& made.substitutions.len() == groups + found.len()
    &&& forall|i: int|
        0 <= i < found.len() ==> {
            let term = made.terms[i];
            let stands = made.substitutions[groups + i];
            &&& term_means(
                around,
                compiler,
                tree::at(#[trigger] found[i], "Function"@),
                term.function,
                term.argument,
                made.distinct[i],
            )
            &&& stands.syntax == tree::bare(found[i])
            &&& stands.column.row_field() == term.name
        }
}

proof fn lemma_terms(
    around: Surroundings,
    state: State,
    compiler: ExpressionCompilerView,
    found: Seq<TreeView>,
    i: nat,
    done: lowering::Aggregation,
)
    requires
        i <= found.len(),
        lowering::with_terms(around, state, compiler, found, i, done) is Ok,
        has_terms(around, compiler, found.take(i as int), done),
    ensures
        has_terms(
            around,
            compiler,
            found,
            lowering::with_terms(around, state, compiler, found, i, done)->Ok_0.0,
        ),
    decreases found.len() - i,
{
    if i >= found.len() {
        assert(found.take(i as int) =~= found);
    } else {
        let e = found[i as int];
        let function = tree::at(e, "Function"@);
        aggregates_keep_their_meaning(around, state, compiler, function);
        let (made, after) = lowering::aggregate_of(around, state, compiler, function)->Ok_0;
        let next = lowering::with_term(done, e, made);
        let groups = done.groups.len();
        assert forall|k: int| 0 <= k < i + 1 implies {
            let term = next.terms[k];
            let stands = next.substitutions[groups + k];
            &&& term_means(
                around,
                compiler,
                tree::at(#[trigger] found.take((i + 1) as int)[k], "Function"@),
                term.function,
                term.argument,
                next.distinct[k],
            )
            &&& stands.syntax == tree::bare(found.take((i + 1) as int)[k])
            &&& stands.column.row_field() == term.name
        } by {
            if k < i {
                assert(found.take((i + 1) as int)[k] == found.take(i as int)[k]);
                assert(next.terms[k] == done.terms[k]);
                assert(next.substitutions[groups + k] == done.substitutions[groups + k]);
                assert(next.distinct[k] == done.distinct[k]);
            } else {
                let name = next.terms[k].name;
                reveal_strlit("aggregate_");
                assert(name.len() > 0);
                assert(next.substitutions[groups + k].column.field == name);
            }
        }
        lemma_terms(around, after, compiler, found, i + 1, next);
    }
}

/// The aggregation of a SELECT computes each of its aggregate calls, and has what it
/// computes stand for the call.
pub proof fn aggregations_compute_their_calls(
    around: Surroundings,
    state: State,
    compiler: ExpressionCompilerView,
    found: Seq<TreeView>,
    groups: lowering::Aggregation,
)
    requires
        groups.terms.len() == 0,
        groups.distinct.len() == 0,
        groups.substitutions.len() == groups.groups.len(),
        lowering::with_terms(around, state, compiler, found, 0, groups) is Ok,
    ensures
        has_terms(
            around,
            compiler,
            found,
            lowering::with_terms(around, state, compiler, found, 0, groups)->Ok_0.0,
        ),
{
    lemma_terms(around, state, compiler, found, 0, groups);
}

// ---- sorting ----

/// Whether a row comes before another under order terms.
pub open spec fn precedes(
    world: World,
    terms: Seq<OrderTermView>,
    left: Row,
    right: Row,
) -> bool
    decreases terms.len(),
{
    terms.len() > 0 && {
        let l = value_of(world, left, terms[0].expression);
        let r = value_of(world, right, terms[0].expression);
        let down = terms[0].descending;
        let before = if down {
            (world.less)(r, l)
        } else {
            (world.less)(l, r)
        };
        let after = if down {
            (world.less)(l, r)
        } else {
            (world.less)(r, l)
        };
        before || (!after && precedes(world, terms.skip(1), left, right))
    }
}

/// Whether values are ordered as usual: false before true, and none before itself.
pub open spec fn is_order(world: World) -> bool {
    &&& (world.less)(Val::Truth(false), Val::Truth(true))
    &&& !(world.less)(Val::Truth(true), Val::Truth(false))
    &&& forall|v: Val| !(#[trigger] (world.less)(v, v))
}

/// A sort key sorts as it asks: by its values, the other way round where it says
/// DESC, with nulls first or last as it says, and where it does not, after other
/// values, or before them where it says DESC.
pub proof fn sort_keys_sort_as_asked(
    world: World,
    left: Row,
    right: Row,
    expression: ExprView,
    term: TreeView,
)
    requires
        is_order(world),
    ensures
        ({
            let options = tree::at(term, "options"@);
            let down = tree::at(options, "asc"@) == TreeView::Bool(false);
            let nulls_first = match tree::at(options, "nulls_first"@) {
                TreeView::Bool(first) => first,
                _ => down,
            };
            let l = value_of(world, left, expression);
            let r = value_of(world, right, expression);
            precedes(world, lowering::sort_pair(expression, term), left, right) == (if l is Null
                && r is Null {
                false
            } else if l is Null {
                nulls_first
            } else if r is Null {
                !nulls_first
            } else if down {
                (world.less)(r, l)
            } else {
                (world.less)(l, r)
            })
        }),
{
    reveal_with_fuel(precedes, 3);
    let terms = lowering::sort_pair(expression, term);
    let l = value_of(world, left, expression);
    let r = value_of(world, right, expression);
    assert(value_of(world, left, terms[0].expression) == Val::Truth(l is Null));
    assert(value_of(world, right, terms[0].expression) == Val::Truth(r is Null));
    assert(terms.skip(1)[0] == terms[1]);
    assert(!precedes(world, terms.skip(1).skip(1), left, right));
    assert(!(world.less)(Val::Truth(true), Val::Truth(true)));
    assert(!(world.less)(Val::Truth(false), Val::Truth(false)));
    assert(!(world.less)(l, l));
}

} // verus!
