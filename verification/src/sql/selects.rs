//! What queries give.

use vstd::prelude::*;

use crate::sql::effects;
use crate::sql::effects::{lowers, projects, restricts};
use crate::sql::env;
use crate::sql::env::ExpressionCompilerView;
use crate::sql::lir::{
    BinaryOp, ExprView, JoinKind, LiteralView, OrderTermView, ProjectFieldView, RawScalarView,
    RelationView, ScalarType, SetQuantifier,
};
use crate::sql::literals;
use crate::sql::lowering;
use crate::sql::lowering::{compiled, Outputs, State, Surroundings};
use crate::sql::meaning::{
    candidate, gives, is_moved, is_true, one_gives, read, value_of, within, Row, World,
};
use crate::sql::operators;
use crate::sql::shapes;
use crate::sql::translation::is_found;
use crate::sql::tree;
use crate::sql::tree::TreeView;
use crate::sql::types::{
    ErrorView, ExpressionEnvView, LoweredQueryView, ResultColumnView, ScopeDefView,
    SelectSourceView,
};
use crate::text;

verus! {

// ---- sorting and slicing ----

/// Whether two order terms sort by a key: by where its nulls go, and by its values.
pub open spec fn sorts_by(
    around: Surroundings,
    compiler: ExpressionCompilerView,
    key: TreeView,
    term: TreeView,
    nulls: OrderTermView,
    values: OrderTermView,
) -> bool {
    exists|p: ExprView| #[trigger]
        lowers(around, compiler, key, p) && nulls == lowering::sort_pair(p, term)[0] && values
            == lowering::sort_pair(p, term)[1]
}

/// Whether order terms sort by some keys, the first first: each the expression that
/// it stands for in a projection.
pub open spec fn sorts(
    around: Surroundings,
    compiler: ExpressionCompilerView,
    keys: Seq<TreeView>,
    projection: TreeView,
    terms: Seq<OrderTermView>,
) -> bool {
    terms.len() == 2 * keys.len() && forall|i: int|
        0 <= i < keys.len() ==> {
            &&& shapes::projected_key(
                tree::at(#[trigger] keys[i], "expr"@),
                projection,
            ) matches Ok(key) && sorts_by(
                around,
                compiler,
                key,
                keys[i],
                terms[2 * i],
                terms[2 * i + 1],
            )
        }
}

proof fn lemma_sorted_terms(
    around: Surroundings,
    state: State,
    compiler: ExpressionCompilerView,
    terms: TreeView,
    i: nat,
    projection: TreeView,
    done: Seq<OrderTermView>,
)
    requires
        i <= tree::list(terms).len(),
        lowering::sorted_terms(around, state, compiler, terms, i, projection, done) is Ok,
        sorts(around, compiler, tree::list(terms).take(i as int), projection, done),
    ensures
        sorts(
            around,
            compiler,
            tree::list(terms),
            projection,
            lowering::sorted_terms(around, state, compiler, terms, i, projection, done)->Ok_0.0,
        ),
    decreases tree::list(terms).len() - i,
{
    let all = tree::list(terms);
    if i >= all.len() {
        assert(all.take(i as int) =~= all);
    } else {
        let term = all[i as int];
        let key = shapes::projected_key(tree::at(term, "expr"@), projection)->Ok_0;
        effects::lemma_lowers(around, state, compiler, key, None);
        let (value, after) = compiled(around, state, compiler, key, None)->Ok_0;
        let next = done + lowering::sort_pair(value.expr, term);
        assert(next[(2 * i) as int] == lowering::sort_pair(value.expr, term)[0]);
        assert(next[(2 * i + 1) as int] == lowering::sort_pair(value.expr, term)[1]);
        assert(sorts_by(around, compiler, key, term, next[(2 * i) as int], next[(2 * i + 1) as int]));
        let more = all.take((i + 1) as int);
        assert forall|k: int| 0 <= k < more.len() implies {
            shapes::projected_key(
                tree::at(#[trigger] more[k], "expr"@),
                projection,
            ) matches Ok(key) && sorts_by(
                around,
                compiler,
                key,
                more[k],
                next[2 * k],
                next[2 * k + 1],
            )
        } by {
            if k < i {
                assert(more[k] == all.take(i as int)[k]);
                assert(next[2 * k] == done[2 * k]);
                assert(next[2 * k + 1] == done[2 * k + 1]);
            } else {
                assert(more[k] == term);
            }
        }
        lemma_sorted_terms(around, after, compiler, terms, i + 1, projection, next);
    }
}

/// An ORDER BY sorts by its keys, the first first.
pub proof fn orders_sort_by_their_keys(
    around: Surroundings,
    state: State,
    compiler: ExpressionCompilerView,
    order: TreeView,
    projection: TreeView,
)
    requires
        lowering::sorted(around, state, compiler, order, projection) is Ok,
    ensures
        match lowering::sorted(around, state, compiler, order, projection)->Ok_0.0 {
            Some(terms) => sorts(
                around,
                compiler,
                tree::list(tree::at(tree::at(order, "kind"@), "Expressions"@)),
                projection,
                terms,
            ),
            None => order is Null,
        },
{
    if !(order is Null) {
        let terms = tree::at(tree::at(order, "kind"@), "Expressions"@);
        lemma_sorted_terms(around, state, compiler, terms, 0, projection, Seq::empty());
    }
}

/// Whether an expression stands for a count.
pub open spec fn counts(
    around: Surroundings,
    compiler: ExpressionCompilerView,
    e: TreeView,
    count: usize,
) -> bool {
    exists|literal: LiteralView| #[trigger]
        lowers(around, compiler, e, ExprView::Literal(literal)) && (literal.raw matches RawScalarView::Number(
            digits,
        ) && text::unsigned_value(digits, usize::MAX as nat) == Some(count as nat))
}

/// A LIMIT clause drops as many rows as its OFFSET says, and none without one, and
/// keeps as many as its LIMIT says, and all without one.
pub proof fn slices_cut_as_asked(
    around: Surroundings,
    state: State,
    compiler: ExpressionCompilerView,
    clause: TreeView,
)
    requires
        lowering::limited(around, state, compiler, clause) is Ok,
    ensures
        ({
            let bounds = tree::at(clause, "LimitOffset"@);
            let limit = tree::at(bounds, "limit"@);
            let offset = tree::at(bounds, "offset"@);
            match lowering::limited(around, state, compiler, clause)->Ok_0.0 {
                None => clause is Null,
                Some(slice) => {
                    &&& !(clause is Null)
                    &&& match slice.limit {
                        Some(count) => !(limit is Null) && counts(around, compiler, limit, count),
                        None => limit is Null,
                    }
                    &&& if offset is Null {
                        slice.offset == 0
                    } else {
                        counts(around, compiler, tree::at(offset, "value"@), slice.offset)
                    }
                },
            }
        }),
{
    let bounds = tree::at(clause, "LimitOffset"@);
    let limit = tree::at(bounds, "limit"@);
    let offset = tree::at(bounds, "offset"@);
    if !(clause is Null) {
        let middle = if limit is Null {
            state
        } else {
            lemma_counted(around, state, compiler, limit);
            lowering::counted(around, state, compiler, limit)->Ok_0.1
        };
        if !(offset is Null) {
            lemma_counted(around, middle, compiler, tree::at(offset, "value"@));
        }
    }
}

proof fn lemma_counted(
    around: Surroundings,
    state: State,
    compiler: ExpressionCompilerView,
    e: TreeView,
)
    requires
        lowering::counted(around, state, compiler, e) is Ok,
    ensures
        counts(around, compiler, e, lowering::counted(around, state, compiler, e)->Ok_0.0),
{
    let wanted = Some(ScalarType::Int64);
    effects::lemma_lowers(around, state, compiler, e, wanted);
    let value = compiled(around, state, compiler, e, wanted)->Ok_0.0;
    let literal = value.expr->Literal_0;
    let digits = literal.raw->Number_0;
    assert(value.expr == ExprView::Literal(literal));
    assert(lowers(around, compiler, e, ExprView::Literal(literal)));
}

// ---- projections ----

/// Whether a field and a column are those of a projection item: the value of its
/// expression, under the alias where it gives one.
pub open spec fn item_means(
    around: Surroundings,
    compiler: ExpressionCompilerView,
    item: TreeView,
    field: ProjectFieldView,
    column: ResultColumnView,
) -> bool {
    let aliased = tree::at(item, "ExprWithAlias"@);
    &&& field.name == column.field
    &&& tree::is(item, "ExprWithAlias"@) ==> column.name == literals::ident_name(
        tree::at(aliased, "alias"@),
    )
    &&& {
        ||| tree::is(item, "UnnamedExpr"@) && lowers(
            around,
            compiler,
            tree::at(item, "UnnamedExpr"@),
            field.expression,
        )
        ||| tree::is(item, "ExprWithAlias"@) && lowers(
            around,
            compiler,
            tree::at(aliased, "expr"@),
            field.expression,
        )
    }
}

/// Whether fields and columns are those of projection items, one by one.
pub open spec fn items_mean(
    around: Surroundings,
    compiler: ExpressionCompilerView,
    items: Seq<TreeView>,
    fields: Seq<ProjectFieldView>,
    columns: Seq<ResultColumnView>,
) -> bool {
    &&& fields.len() == items.len()
    &&& columns.len() == items.len()
    &&& forall|i: int|
        0 <= i < items.len() ==> item_means(
            around,
            compiler,
            #[trigger] items[i],
            fields[i],
            columns[i],
        )
}

/// Whether every projection item is an expression.
pub open spec fn are_expressions(items: Seq<TreeView>) -> bool {
    forall|i: int|
        0 <= i < items.len() ==> tree::is(#[trigger] items[i], "UnnamedExpr"@) || tree::is(
            items[i],
            "ExprWithAlias"@,
        )
}

proof fn lemma_projected(
    around: Surroundings,
    state: State,
    compiler: ExpressionCompilerView,
    items: TreeView,
    i: nat,
    done: Outputs,
)
    requires
        i <= tree::list(items).len(),
        are_expressions(tree::list(items)),
        lowering::projected(around, state, compiler, items, i, done) is Ok,
        items_mean(
            around,
            compiler,
            tree::list(items).take(i as int),
            done.fields,
            done.columns,
        ),
    ensures
        items_mean(
            around,
            compiler,
            tree::list(items),
            lowering::projected(around, state, compiler, items, i, done)->Ok_0.0.fields,
            lowering::projected(around, state, compiler, items, i, done)->Ok_0.0.columns,
        ),
    decreases tree::list(items).len() - i,
{
    let all = tree::list(items);
    if i >= all.len() {
        assert(all.take(i as int) =~= all);
    } else {
        let item = all[i as int];
        let e = shapes::item_expression(item);
        effects::lemma_lowers(around, state, compiler, e, None);
        let (value, after) = compiled(around, state, compiler, e, None)->Ok_0;
        let next = lowering::with_expression(done, item, value, compiler.env);
        let more = all.take((i + 1) as int);
        assert forall|k: int| 0 <= k < more.len() implies item_means(
            around,
            compiler,
            #[trigger] more[k],
            next.fields[k],
            next.columns[k],
        ) by {
            if k < i {
                assert(more[k] == all.take(i as int)[k]);
                assert(next.fields[k] == done.fields[k]);
                assert(next.columns[k] == done.columns[k]);
            } else {
                assert(more[k] == item);
            }
        }
        lemma_projected(around, after, compiler, items, i + 1, next);
    }
}

/// A projection of expressions has a column for each, with its value and its alias.
pub proof fn projections_keep_their_meaning(
    around: Surroundings,
    state: State,
    compiler: ExpressionCompilerView,
    items: TreeView,
)
    requires
        are_expressions(tree::list(items)),
        lowering::projected(
            around,
            state,
            compiler,
            items,
            0,
            lowering::no_outputs(),
        ) is Ok,
    ensures
        ({
            let made = lowering::projected(
                around,
                state,
                compiler,
                items,
                0,
                lowering::no_outputs(),
            )->Ok_0.0;
            items_mean(around, compiler, tree::list(items), made.fields, made.columns)
        }),
{
    lemma_projected(around, state, compiler, items, 0, lowering::no_outputs());
}

// ---- SELECT ----

/// Whether row sources are those of a SELECT.
#[verifier::opaque]
pub open spec fn reads(
    around: Surroundings,
    select: TreeView,
    parent: ExpressionEnvView,
    source: SelectSourceView,
) -> bool {
    exists|state: State|
        (#[trigger] lowering::source_of(around, state, select, parent)) matches Ok((found, _))
            && found == source
}

/// Whether a query gives what a SELECT asks for: the rows of its sources for which
/// its WHERE is true, projected. A LIMIT cuts those down.
pub open spec fn selects(
    around: Surroundings,
    select: TreeView,
    limit: TreeView,
    parent: ExpressionEnvView,
    query: LoweredQueryView,
) -> bool {
    exists|source: SelectSourceView, matched: RelationView, fields: Seq<ProjectFieldView>|
        {
            &&& #[trigger] reads(around, select, parent, source)
            &&& #[trigger] restricts(
                around,
                env::over(source.env),
                matched,
                source.relation,
                tree::at(select, "selection"@),
            )
            &&& are_expressions(tree::list(tree::at(select, "projection"@))) ==> items_mean(
                around,
                env::over(source.env),
                tree::list(tree::at(select, "projection"@)),
                fields,
                query.columns,
            )
            &&& #[trigger] shows(query, limit, matched, fields)
        }
}

/// Whether a query without a LIMIT gives the rows of a relation, projected.
pub open spec fn shows(
    query: LoweredQueryView,
    limit: TreeView,
    from: RelationView,
    fields: Seq<ProjectFieldView>,
) -> bool {
    limit is Null ==> projects(query.relation, from, query.scope, fields)
}

proof fn lemma_still_projects(
    outside: RelationView,
    relation: RelationView,
    from: RelationView,
    scope: Seq<char>,
    fields: Seq<ProjectFieldView>,
)
    requires
        projects(relation, from, scope, fields),
        forall|world: World, outer: Row, row: Row| #[trigger]
            gives(world, outer, outside, row) <==> gives(world, outer, relation, row),
    ensures
        projects(outside, from, scope, fields),
{
    reveal(projects);
}

proof fn lemma_arranged(
    relation: RelationView,
    terms: Seq<OrderTermView>,
    scope: Seq<char>,
    fields: Seq<ProjectFieldView>,
    columns: Seq<ResultColumnView>,
)
    ensures
        projects(
            lowering::arranged(relation, terms, None, scope, fields, columns),
            relation,
            scope,
            fields,
        ),
{
    if terms.len() == 0 {
        let projected = lowering::project(relation, scope, fields);
        effects::lemma_projects(relation, relation, Some(scope), fields);
        let order = env::output_terms(columns, scope);
        effects::lemma_sorted_gives(projected, order);
        lemma_still_projects(
            RelationView::Order { input: Box::new(projected), terms: order },
            projected,
            relation,
            scope,
            fields,
        );
    } else {
        let ordered = RelationView::Order { input: Box::new(relation), terms };
        effects::lemma_sorted_gives(relation, terms);
        effects::lemma_projects(ordered, relation, Some(scope), fields);
    }
}

proof fn lemma_distinctly_arranged(
    around: Surroundings,
    state: State,
    order: TreeView,
    projection: TreeView,
    projected: RelationView,
    columns: Seq<ResultColumnView>,
    scope: Seq<char>,
    from: RelationView,
    fields: Seq<ProjectFieldView>,
)
    requires
        projects(projected, from, scope, fields),
        lowering::distinctly_arranged(
            around,
            state,
            order,
            projection,
            projected,
            columns,
            scope,
            None,
        ) is Ok,
    ensures
        projects(
            lowering::distinctly_arranged(
                around,
                state,
                order,
                projection,
                projected,
                columns,
                scope,
                None,
            )->Ok_0.0,
            from,
            scope,
            fields,
        ),
{
    let made = lowering::distinctly_arranged(
        around,
        state,
        order,
        projection,
        projected,
        columns,
        scope,
        None,
    )->Ok_0.0;
    let distinct = RelationView::Distinct(Box::new(projected));
    let terms = made->Order_terms;
    assert(made == RelationView::Order { input: Box::new(distinct), terms });
    effects::lemma_sorted_gives(distinct, terms);
    lemma_still_projects(distinct, projected, from, scope, fields);
    lemma_still_projects(made, distinct, from, scope, fields);
}

proof fn lemma_reads(
    around: Surroundings,
    state: State,
    select: TreeView,
    parent: ExpressionEnvView,
    source: SelectSourceView,
    after: State,
)
    requires
        lowering::source_of(around, state, select, parent) == Ok::<
            (SelectSourceView, State),
            ErrorView,
        >((source, after)),
    ensures
        reads(around, select, parent, source),
{
    reveal(reads);
}

proof fn lemma_selection(
    around: Surroundings,
    state: State,
    select: TreeView,
    order: TreeView,
    limit: TreeView,
    source: SelectSourceView,
)
    requires
        lowering::selection(around, state, select, order, limit, source) is Ok,
    ensures
        ({
            let found = lowering::selection(
                around,
                state,
                select,
                order,
                limit,
                source,
            )->Ok_0.0;
            let compiler = env::over(source.env);
            let items = tree::list(tree::at(select, "projection"@));
            &&& restricts(
                around,
                compiler,
                found.relation,
                source.relation,
                tree::at(select, "selection"@),
            )
            &&& are_expressions(items) ==> items_mean(
                around,
                compiler,
                items,
                found.outputs.fields,
                found.outputs.columns,
            )
            &&& limit is Null ==> found.slice is None
        }),
{
    let compiler = env::over(source.env);
    let condition = tree::at(select, "selection"@);
    let projection = tree::at(select, "projection"@);
    effects::conditions_keep_what_is_true(around, state, compiler, source.relation, condition);
    let (relation, s1) = lowering::filtered(
        around,
        state,
        compiler,
        source.relation,
        condition,
    )->Ok_0;
    let (terms, s2) = lowering::sorted(around, s1, compiler, order, projection)->Ok_0;
    let (slice, s3) = lowering::limited(around, s2, compiler, limit)->Ok_0;
    if are_expressions(tree::list(projection)) {
        projections_keep_their_meaning(around, s3, compiler, projection);
    }
}

/// A SELECT without aggregates gives the rows of its sources for which its WHERE is
/// true, projected to its items.
pub proof fn selects_give_what_matches(
    around: Surroundings,
    state: State,
    select: TreeView,
    order: TreeView,
    limit: TreeView,
    parent: ExpressionEnvView,
)
    requires
        lowering::plainly_selected(around, state, select, order, limit, parent) is Ok,
    ensures
        selects(
            around,
            select,
            limit,
            parent,
            lowering::plainly_selected(around, state, select, order, limit, parent)->Ok_0.0,
        ),
{
    let query = lowering::plainly_selected(
        around,
        state,
        select,
        order,
        limit,
        parent,
    )->Ok_0.0;
    let projection = tree::at(select, "projection"@);
    let (source, s1) = lowering::source_of(around, state, select, parent)->Ok_0;
    lemma_reads(around, state, select, parent, source, s1);
    let scope = lowering::fresh_label(s1, "result"@);
    let s2 = lowering::after_label(s1);
    lemma_selection(around, s2, select, order, limit, source);
    let (found, s3) = lowering::selection(around, s2, select, order, limit, source)->Ok_0;
    let fields = found.outputs.fields;
    let columns = found.outputs.columns;
    if limit is Null {
        if shapes::drops_duplicates(select) == Ok::<bool, ErrorView>(true) {
            let projected = lowering::project(found.relation, scope, fields);
            effects::lemma_projects(found.relation, found.relation, Some(scope), fields);
            lemma_distinctly_arranged(
                around,
                s3,
                order,
                projection,
                projected,
                columns,
                scope,
                found.relation,
                fields,
            );
        } else {
            lemma_arranged(found.relation, found.terms, scope, fields, columns);
        }
    }
    assert(shows(query, limit, found.relation, fields));
}

// ---- aggregation ----

/// Whether the fields of an aggregation are those of projection items, one by one.
#[verifier::opaque]
pub open spec fn outputs_mean(
    around: Surroundings,
    compiler: ExpressionCompilerView,
    items: Seq<TreeView>,
    sources: Seq<ExprView>,
    columns: Seq<ResultColumnView>,
) -> bool {
    &&& sources.len() == items.len()
    &&& columns.len() == items.len()
    &&& forall|i: int|
        0 <= i < items.len() ==> output_means(
            around,
            compiler,
            #[trigger] items[i],
            sources[i],
            columns[i],
        )
}

/// Whether an expression and a column are those of a projection item.
pub open spec fn output_means(
    around: Surroundings,
    compiler: ExpressionCompilerView,
    item: TreeView,
    source: ExprView,
    column: ResultColumnView,
) -> bool {
    let aliased = tree::at(item, "ExprWithAlias"@);
    &&& tree::is(item, "ExprWithAlias"@) ==> column.name == literals::ident_name(
        tree::at(aliased, "alias"@),
    )
    &&& {
        ||| tree::is(item, "UnnamedExpr"@) && lowers(
            around,
            compiler,
            tree::at(item, "UnnamedExpr"@),
            source,
        )
        ||| lowers(around, compiler, tree::at(aliased, "expr"@), source)
    }
}

proof fn lemma_outputs(
    around: Surroundings,
    state: State,
    compiler: ExpressionCompilerView,
    projection: TreeView,
    i: nat,
    keys: Seq<TreeView>,
    columns: Seq<ResultColumnView>,
    done: lowering::AggregateOutputs,
)
    requires
        i <= tree::list(projection).len(),
        lowering::aggregate_outputs(
            around,
            state,
            compiler,
            projection,
            i,
            keys,
            columns,
            done,
        ) is Ok,
        outputs_mean(
            around,
            compiler,
            tree::list(projection).take(i as int),
            done.sources,
            done.columns,
        ),
    ensures
        ({
            let made = lowering::aggregate_outputs(
                around,
                state,
                compiler,
                projection,
                i,
                keys,
                columns,
                done,
            )->Ok_0.0;
            outputs_mean(around, compiler, tree::list(projection), made.sources, made.columns)
        }),
    decreases tree::list(projection).len() - i,
{
    reveal(outputs_mean);
    let all = tree::list(projection);
    if i >= all.len() {
        assert(all.take(i as int) =~= all);
    } else {
        let item = all[i as int];
        let e = shapes::item_expression(item);
        effects::lemma_lowers(around, state, compiler, e, None);
        let (value, after) = compiled(around, state, compiler, e, None)->Ok_0;
        let names = done.names.push(shapes::item_name(item));
        let next = lowering::AggregateOutputs {
            names,
            columns: done.columns.push(
                ResultColumnView {
                    name: shapes::item_name(item),
                    field: env::unique_field(names),
                    scalar_type: value.scalar_type,
                    nullable: value.nullable,
                    format: lowering::group_format(keys, columns, e, 0),
                },
            ),
            sources: done.sources.push(value.expr),
        };
        let more = all.take((i + 1) as int);
        assert forall|k: int| 0 <= k < more.len() implies output_means(
            around,
            compiler,
            #[trigger] more[k],
            next.sources[k],
            next.columns[k],
        ) by {
            if k < i {
                assert(more[k] == all.take(i as int)[k]);
                assert(next.sources[k] == done.sources[k]);
                assert(next.columns[k] == done.columns[k]);
            } else {
                assert(more[k] == item);
            }
        }
        lemma_outputs(around, after, compiler, projection, i + 1, keys, columns, next);
    }
}

/// Whether a query gives what a SELECT asks for of its groups: those for which its
/// HAVING is true, projected. A LIMIT cuts those down.
#[verifier::opaque]
pub open spec fn shows_groups(
    around: Surroundings,
    compiler: ExpressionCompilerView,
    select: TreeView,
    limit: TreeView,
    groups: RelationView,
    query: LoweredQueryView,
) -> bool {
    exists|matched: RelationView, sources: Seq<ExprView>|
        {
            &&& #[trigger] restricts(
                around,
                compiler,
                matched,
                groups,
                tree::at(select, "having"@),
            )
            &&& #[trigger] outputs_mean(
                around,
                compiler,
                tree::list(tree::at(select, "projection"@)),
                sources,
                query.columns,
            )
            &&& shows(
                query,
                limit,
                matched,
                lowering::output_fields(query.columns, sources),
            )
        }
}

proof fn lemma_shows_groups(
    around: Surroundings,
    compiler: ExpressionCompilerView,
    select: TreeView,
    limit: TreeView,
    groups: RelationView,
    query: LoweredQueryView,
    matched: RelationView,
    sources: Seq<ExprView>,
)
    requires
        restricts(around, compiler, matched, groups, tree::at(select, "having"@)),
        outputs_mean(
            around,
            compiler,
            tree::list(tree::at(select, "projection"@)),
            sources,
            query.columns,
        ),
        limit is Null ==> projects(
            query.relation,
            matched,
            query.scope,
            lowering::output_fields(query.columns, sources),
        ),
    ensures
        shows_groups(around, compiler, select, limit, groups, query),
{
    reveal(shows_groups);
    assert(shows(query, limit, matched, lowering::output_fields(query.columns, sources)));
}

proof fn lemma_all_outputs(
    around: Surroundings,
    state: State,
    compiler: ExpressionCompilerView,
    projection: TreeView,
    keys: Seq<TreeView>,
    columns: Seq<ResultColumnView>,
)
    requires
        lowering::aggregate_outputs(
            around,
            state,
            compiler,
            projection,
            0,
            keys,
            columns,
            lowering::no_aggregate_outputs(),
        ) is Ok,
    ensures
        ({
            let made = lowering::aggregate_outputs(
                around,
                state,
                compiler,
                projection,
                0,
                keys,
                columns,
                lowering::no_aggregate_outputs(),
            )->Ok_0.0;
            outputs_mean(around, compiler, tree::list(projection), made.sources, made.columns)
        }),
{
    reveal(outputs_mean);
    let none = lowering::no_aggregate_outputs();
    lemma_outputs(around, state, compiler, projection, 0, keys, columns, none);
}

proof fn lemma_plain_projection(
    relation: RelationView,
    scope: Seq<char>,
    fields: Seq<ProjectFieldView>,
)
    ensures
        projects(lowering::project(relation, scope, fields), relation, scope, fields),
{
    effects::lemma_projects(relation, relation, Some(scope), fields);
}

proof fn lemma_sorted_projection(
    relation: RelationView,
    terms: Seq<OrderTermView>,
    scope: Seq<char>,
    fields: Seq<ProjectFieldView>,
)
    ensures
        projects(
            lowering::project(
                RelationView::Order { input: Box::new(relation), terms },
                scope,
                fields,
            ),
            relation,
            scope,
            fields,
        ),
{
    let ordered = RelationView::Order { input: Box::new(relation), terms };
    effects::lemma_sorted_gives(relation, terms);
    effects::lemma_projects(ordered, relation, Some(scope), fields);
}

/// A SELECT that aggregates shows the groups for which its HAVING is true.
pub proof fn groups_show_what_matches(
    around: Surroundings,
    state: State,
    select: TreeView,
    order: TreeView,
    limit: TreeView,
    groups: RelationView,
    keys: Seq<TreeView>,
    made: lowering::Aggregation,
    aggregate_scope: Seq<char>,
    scope: Seq<char>,
)
    requires
        lowering::aggregate_output(
            around,
            state,
            select,
            order,
            limit,
            groups,
            keys,
            made,
            aggregate_scope,
            scope,
        ) is Ok,
    ensures
        shows_groups(
            around,
            env::over_output(aggregate_scope, made.columns, made.substitutions),
            select,
            limit,
            groups,
            lowering::aggregate_output(
                around,
                state,
                select,
                order,
                limit,
                groups,
                keys,
                made,
                aggregate_scope,
                scope,
            )->Ok_0.0,
        ),
{
    let compiler = env::over_output(aggregate_scope, made.columns, made.substitutions);
    let projection = tree::at(select, "projection"@);
    let condition = tree::at(select, "having"@);
    let query = lowering::aggregate_output(
        around,
        state,
        select,
        order,
        limit,
        groups,
        keys,
        made,
        aggregate_scope,
        scope,
    )->Ok_0.0;
    effects::conditions_keep_what_is_true(around, state, compiler, groups, condition);
    let (matched, s1) = lowering::filtered(around, state, compiler, groups, condition)->Ok_0;
    let none = lowering::no_aggregate_outputs();
    lemma_all_outputs(around, s1, compiler, projection, keys, made.columns);
    let (outputs, s2) = lowering::aggregate_outputs(
        around,
        s1,
        compiler,
        projection,
        0,
        keys,
        made.columns,
        none,
    )->Ok_0;
    let distinct = shapes::drops_duplicates(select)->Ok_0;
    let (sorted, s3) = lowering::aggregate_sorted(
        around,
        s2,
        compiler,
        order,
        projection,
        matched,
        outputs.sources,
        distinct,
    )->Ok_0;
    let (slice, s4) = lowering::limited(around, s3, compiler, limit)->Ok_0;
    let fields = lowering::output_fields(outputs.columns, outputs.sources);
    if limit is Null {
        if distinct {
            let projected = lowering::project(sorted, scope, fields);
            lemma_plain_projection(matched, scope, fields);
            lemma_distinctly_arranged(
                around,
                s4,
                order,
                projection,
                projected,
                outputs.columns,
                scope,
                matched,
                fields,
            );
        } else {
            lemma_sorted_projection(matched, sorted->Order_terms, scope, fields);
        }
    }
    lemma_shows_groups(
        around,
        compiler,
        select,
        limit,
        groups,
        query,
        matched,
        outputs.sources,
    );
}

/// The rows that a SELECT groups are those of its sources for which its WHERE is
/// true, and it computes every aggregate that it calls.
pub proof fn groups_are_made_of_what_matches(
    around: Surroundings,
    state: State,
    select: TreeView,
    order: TreeView,
    source: SelectSourceView,
)
    requires
        lowering::gathered(around, state, select, order, source) is Ok,
    ensures
        ({
            let found = lowering::gathered(around, state, select, order, source)->Ok_0.0;
            &&& restricts(
                around,
                env::over(source.env),
                found.relation,
                source.relation,
                tree::at(select, "selection"@),
            )
            &&& has_groups(around, env::over(source.env), found.keys, found.made)
            &&& effects::has_terms(
                around,
                env::over(source.env),
                lowering::all_aggregates(select, order),
                found.made,
            )
        }),
{
    let compiler = env::over(source.env);
    let condition = tree::at(select, "selection"@);
    effects::conditions_keep_what_is_true(around, state, compiler, source.relation, condition);
    let (relation, s1) = lowering::filtered(
        around,
        state,
        compiler,
        source.relation,
        condition,
    )->Ok_0;
    let ((keys, groups), s2) = lowering::grouped_rows(around, s1, compiler, select)->Ok_0;
    lemma_grouped(around, s1, compiler, keys, 0, lowering::no_aggregation());
    let found = lowering::all_aggregates(select, order);
    effects::aggregations_compute_their_calls(around, s2, compiler, found, groups);
    lemma_groups_stay(around, s2, compiler, found, 0, groups, keys);
}

/// Whether an aggregation groups by some keys, and has each group stand for its key.
pub open spec fn has_groups(
    around: Surroundings,
    compiler: ExpressionCompilerView,
    keys: Seq<TreeView>,
    made: lowering::Aggregation,
) -> bool {
    &&& made.groups.len() == keys.len()
    &&& made.substitutions.len() >= keys.len()
    &&& forall|i: int|
        0 <= i < keys.len() ==> {
            let stands = made.substitutions[i];
            &&& lowers(around, compiler, #[trigger] keys[i], made.groups[i].expression)
            &&& stands.syntax == tree::bare(keys[i])
            &&& stands.column.row_field() == made.groups[i].name
        }
}

proof fn lemma_grouped(
    around: Surroundings,
    state: State,
    compiler: ExpressionCompilerView,
    keys: Seq<TreeView>,
    i: nat,
    done: lowering::Aggregation,
)
    requires
        i <= keys.len(),
        lowering::grouped(around, state, compiler, keys, i, done) is Ok,
        done.terms.len() == 0,
        done.distinct.len() == 0,
        done.substitutions.len() == i,
        has_groups(around, compiler, keys.take(i as int), done),
    ensures
        ({
            let made = lowering::grouped(around, state, compiler, keys, i, done)->Ok_0.0;
            &&& made.terms.len() == 0
            &&& made.distinct.len() == 0
            &&& made.substitutions.len() == keys.len()
            &&& has_groups(around, compiler, keys, made)
        }),
    decreases keys.len() - i,
{
    if i >= keys.len() {
        assert(keys.take(i as int) =~= keys);
    } else {
        let key = keys[i as int];
        effects::lemma_lowers(around, state, compiler, key, None);
        let (value, after) = compiled(around, state, compiler, key, None)->Ok_0;
        let next = lowering::with_group(done, key, value, compiler.env);
        let more = keys.take((i + 1) as int);
        assert forall|k: int| 0 <= k < more.len() implies {
            let stands = next.substitutions[k];
            &&& lowers(around, compiler, #[trigger] more[k], next.groups[k].expression)
            &&& stands.syntax == tree::bare(more[k])
            &&& stands.column.row_field() == next.groups[k].name
        } by {
            if k < i {
                assert(more[k] == keys.take(i as int)[k]);
                assert(next.groups[k] == done.groups[k]);
                assert(next.substitutions[k] == done.substitutions[k]);
            } else {
                reveal_strlit("group_");
                assert(next.groups[k].name.len() > 0);
            }
        }
        lemma_grouped(around, after, compiler, keys, i + 1, next);
    }
}

proof fn lemma_groups_stay(
    around: Surroundings,
    state: State,
    compiler: ExpressionCompilerView,
    found: Seq<TreeView>,
    i: nat,
    done: lowering::Aggregation,
    keys: Seq<TreeView>,
)
    requires
        lowering::with_terms(around, state, compiler, found, i, done) is Ok,
        has_groups(around, compiler, keys, done),
    ensures
        has_groups(
            around,
            compiler,
            keys,
            lowering::with_terms(around, state, compiler, found, i, done)->Ok_0.0,
        ),
    decreases found.len() - i,
{
    if i < found.len() {
        let e = found[i as int];
        let function = tree::at(e, "Function"@);
        let (made, after) = lowering::aggregate_of(around, state, compiler, function)->Ok_0;
        let next = lowering::with_term(done, e, made);
        assert forall|k: int| 0 <= k < keys.len() implies {
            let stands = next.substitutions[k];
            &&& lowers(around, compiler, #[trigger] keys[k], next.groups[k].expression)
            &&& stands.syntax == tree::bare(keys[k])
            &&& stands.column.row_field() == next.groups[k].name
        } by {
            assert(next.substitutions[k] == done.substitutions[k]);
        }
        lemma_groups_stay(around, after, compiler, found, i + 1, next, keys);
    }
}

// ---- joins ----

/// The row of a pair: one that keeps the right side has it first.
pub open spec fn paired_row(left: Row, right: Row, right_first: bool) -> Row {
    if right_first {
        within(right, left)
    } else {
        within(left, right)
    }
}

/// Whether a relation joins two others: it gives the pairs for which a condition is
/// true, and of a side that it keeps also the rows without such a pair.
pub open spec fn joins(
    relation: RelationView,
    left: RelationView,
    right: RelationView,
    keeps_left: bool,
    keeps_right: bool,
    on: ExprView,
) -> bool {
    forall|world: World, outer: Row, row: Row| #[trigger]
        gives(world, outer, relation, row) <==> {
            ||| exists|l: Row, r: Row|
                #[trigger] candidate(l) && #[trigger] candidate(r) && gives(world, outer, left, l)
                    && gives(world, outer, right, r) && row == paired_row(l, r, keeps_right)
                    && is_true(value_of(world, within(outer, row), on))
            ||| keeps_left && gives(world, outer, left, row) && !exists|r: Row| #[trigger]
                candidate(r) && gives(world, outer, right, r) && is_true(
                    value_of(world, within(outer, within(row, r)), on),
                )
            ||| keeps_right && gives(world, outer, right, row) && !exists|l: Row| #[trigger]
                candidate(l) && gives(world, outer, left, l) && is_true(
                    value_of(world, within(outer, within(row, l)), on),
                )
        }
}

/// Which sides a join operator keeps, and its constraint.
pub open spec fn join_means(
    operator: TreeView,
    keeps_left: bool,
    keeps_right: bool,
    constraint: TreeView,
) -> bool {
    ||| tree::is(operator, "Join"@) && !keeps_left && !keeps_right && constraint == tree::at(
        operator,
        "Join"@,
    )
    ||| tree::is(operator, "Inner"@) && !keeps_left && !keeps_right && constraint == tree::at(
        operator,
        "Inner"@,
    )
    ||| tree::is(operator, "CrossJoin"@) && !keeps_left && !keeps_right && constraint == tree::at(
        operator,
        "CrossJoin"@,
    )
    ||| tree::is(operator, "Left"@) && keeps_left && !keeps_right && constraint == tree::at(
        operator,
        "Left"@,
    )
    ||| tree::is(operator, "LeftOuter"@) && keeps_left && !keeps_right && constraint == tree::at(
        operator,
        "LeftOuter"@,
    )
    ||| tree::is(operator, "Right"@) && !keeps_left && keeps_right && constraint == tree::at(
        operator,
        "Right"@,
    )
    ||| tree::is(operator, "RightOuter"@) && !keeps_left && keeps_right && constraint == tree::at(
        operator,
        "RightOuter"@,
    )
}

/// A join keeps the sides that its operator says, and pairs the rows for which its
/// condition is true.
pub proof fn joins_keep_their_meaning(
    left: RelationView,
    right: RelationView,
    operator: TreeView,
    on: ExprView,
)
    requires
        lowering::join_shape(operator) is Ok,
    ensures
        ({
            let shape = lowering::join_shape(operator)->Ok_0;
            &&& join_means(operator, shape.keeps_left, shape.keeps_right, shape.constraint)
            &&& joins(
                lowering::join_relation(left, right, shape, on),
                left,
                right,
                shape.keeps_left,
                shape.keeps_right,
                on,
            )
        }),
{
    let shape = lowering::join_shape(operator)->Ok_0;
    let relation = lowering::join_relation(left, right, shape, on);
    if shape.keeps_right {
        assert forall|world: World, outer: Row, row: Row| #[trigger]
            gives(world, outer, relation, row) <==> {
                ||| exists|l: Row, r: Row|
                    #[trigger] candidate(l) && #[trigger] candidate(r) && gives(
                        world,
                        outer,
                        left,
                        l,
                    ) && gives(world, outer, right, r) && row == paired_row(l, r, true) && is_true(
                        value_of(world, within(outer, row), on),
                    )
                ||| gives(world, outer, right, row) && !exists|l: Row| #[trigger]
                    candidate(l) && gives(world, outer, left, l) && is_true(
                        value_of(world, within(outer, within(row, l)), on),
                    )
            } by {
            lemma_join_gives(world, outer, row, right, left, JoinKind::Left, on);
        }
    } else {
        let kind = if shape.keeps_left {
            JoinKind::Left
        } else {
            JoinKind::Inner
        };
        assert forall|world: World, outer: Row, row: Row| #[trigger]
            gives(world, outer, relation, row) <==> {
                ||| exists|l: Row, r: Row|
                    #[trigger] candidate(l) && #[trigger] candidate(r) && gives(
                        world,
                        outer,
                        left,
                        l,
                    ) && gives(world, outer, right, r) && row == paired_row(l, r, false)
                        && is_true(value_of(world, within(outer, row), on))
                ||| shape.keeps_left && gives(world, outer, left, row) && !exists|r: Row|
                    #[trigger] candidate(r) && gives(world, outer, right, r) && is_true(
                        value_of(world, within(outer, within(row, r)), on),
                    )
            } by {
            lemma_join_gives(world, outer, row, left, right, kind, on);
        }
    }
}

proof fn lemma_join_gives(
    world: World,
    outer: Row,
    row: Row,
    first: RelationView,
    second: RelationView,
    kind: JoinKind,
    on: ExprView,
)
    ensures
        gives(
            world,
            outer,
            RelationView::Join { left: Box::new(first), right: Box::new(second), kind, on },
            row,
        ) <==> {
            ||| exists|l: Row, r: Row|
                #[trigger] candidate(l) && #[trigger] candidate(r) && gives(world, outer, first, l)
                    && gives(world, outer, second, r) && row == within(l, r) && is_true(
                    value_of(world, within(outer, row), on),
                )
            ||| kind == JoinKind::Left && gives(world, outer, first, row) && !exists|r: Row|
                #[trigger] candidate(r) && gives(world, outer, second, r) && is_true(
                    value_of(world, within(outer, within(row, r)), on),
                )
        },
{
}

/// The condition of a join is what its ON says; without a constraint it is true.
pub proof fn join_conditions_keep_their_meaning(
    around: Surroundings,
    state: State,
    constraint: TreeView,
    env: ExpressionEnvView,
    left: Seq<ScopeDefView>,
    right: ScopeDefView,
)
    requires
        lowering::join_condition(around, state, constraint, env, left, right) is Ok,
    ensures
        ({
            let on = lowering::join_condition(
                around,
                state,
                constraint,
                env,
                left,
                right,
            )->Ok_0.0;
            &&& tree::is(constraint, "On"@) ==> lowers(
                around,
                env::over(env),
                tree::at(constraint, "On"@),
                on,
            )
            &&& !tree::is(constraint, "On"@) && !tree::is(constraint, "Using"@) && !tree::is(
                constraint,
                "Natural"@,
            ) ==> forall|world: World, row: Row|
                is_true(#[trigger] value_of(world, row, on))
            &&& tree::is(constraint, "Using"@) && !tree::is(constraint, "On"@) ==> agrees_in(
                tree::list(tree::at(constraint, "Using"@)),
                left,
                right,
                on,
            )
        }),
{
    if tree::is(constraint, "On"@) {
        let wanted = Some(ScalarType::Bool);
        let e = tree::at(constraint, "On"@);
        effects::lemma_lowers(around, state, env::over(env), e, wanted);
    } else if tree::is(constraint, "Using"@) {
        let names = tree::at(constraint, "Using"@);
        let none = Seq::<ExprView>::empty();
        lemma_using(names, 0, left, right, none);
        let tests = lowering::using_predicates(names, 0, left, right, none)->Ok_0;
        let on = operators::balanced(tests, BinaryOp::And);
        assert forall|world: World, row: Row|
            is_true(#[trigger] value_of(world, row, on)) <==> forall|i: int|
                0 <= i < tests.len() ==> is_true(value_of(world, row, #[trigger] tests[i])) by {
            let holds = |e: ExprView| is_true(value_of(world, row, e));
            operators::folded_and_means_all(tests, holds);
            assert(holds(on) == is_true(value_of(world, row, on)));
            if forall|i: int| 0 <= i < tests.len() ==> holds(#[trigger] tests[i]) {
                assert forall|i: int| 0 <= i < tests.len() implies is_true(
                    value_of(world, row, #[trigger] tests[i]),
                ) by {
                    assert(holds(tests[i]));
                }
            } else {
                let i = choose|i: int| 0 <= i < tests.len() && !holds(#[trigger] tests[i]);
                assert(!is_true(value_of(world, row, tests[i])));
            }
        }
        assert(are_agreements(tree::list(names), left, right, tests));
    }
}

/// Whether an expression tests that two row sources have the same value, not null,
/// in a column.
pub open spec fn is_agreement(
    left: Seq<ScopeDefView>,
    right: ScopeDefView,
    name: Seq<char>,
    e: ExprView,
) -> bool {
    exists|holder: ScopeDefView, mine: ResultColumnView, other: ResultColumnView|
        {
            &&& left.contains(holder)
            &&& #[trigger] holder.columns.contains(mine)
            &&& #[trigger] right.columns.contains(other)
            &&& mine.name == name
            &&& other.name == name
            &&& forall|world: World, row: Row|
                is_true(#[trigger] value_of(world, row, e)) <==> is_found(
                    read(row, holder.label, mine.row_field()),
                    read(row, right.label, other.row_field()),
                )
        }
}

/// Whether expressions test that row sources agree in the columns with some names.
pub open spec fn are_agreements(
    names: Seq<TreeView>,
    left: Seq<ScopeDefView>,
    right: ScopeDefView,
    tests: Seq<ExprView>,
) -> bool {
    tests.len() == names.len() && forall|i: int|
        0 <= i < names.len() ==> (literals::object_text(#[trigger] names[i]) matches Ok(name)
            && is_agreement(left, right, name, tests[i]))
}

/// Whether an expression is true exactly where row sources agree in all the columns
/// with some names.
pub open spec fn agrees_in(
    names: Seq<TreeView>,
    left: Seq<ScopeDefView>,
    right: ScopeDefView,
    on: ExprView,
) -> bool {
    exists|tests: Seq<ExprView>| #[trigger]
        are_agreements(names, left, right, tests) && forall|world: World, row: Row|
            is_true(#[trigger] value_of(world, row, on)) <==> forall|i: int|
                0 <= i < tests.len() ==> is_true(value_of(world, row, #[trigger] tests[i]))
}

proof fn lemma_column_found(columns: Seq<ResultColumnView>, name: Seq<char>)
    requires
        env::find_column(columns, name) is Some,
    ensures
        columns.contains(env::find_column(columns, name)->0),
        env::find_column(columns, name)->0.name == name,
    decreases columns.len(),
{
    if columns[0].name != name {
        lemma_column_found(columns.skip(1), name);
        let found = env::find_column(columns, name)->0;
        let i = choose|i: int| 0 <= i < columns.skip(1).len() && columns.skip(1)[i] == found;
        assert(columns[i + 1] == found);
    } else {
        assert(columns.contains(columns[0]));
    }
}

proof fn lemma_last_holder(scopes: Seq<ScopeDefView>, name: Seq<char>, count: nat)
    requires
        count <= scopes.len(),
        lowering::last_holder(scopes, name, count) is Some,
    ensures
        scopes.contains(lowering::last_holder(scopes, name, count)->0),
        env::find_column(lowering::last_holder(scopes, name, count)->0.columns, name) is Some,
    decreases count,
{
    if env::find_column(scopes[count - 1].columns, name) is Some {
        assert(scopes.contains(scopes[count - 1]));
    } else {
        lemma_last_holder(scopes, name, (count - 1) as nat);
    }
}

proof fn lemma_using(
    names: TreeView,
    i: nat,
    left: Seq<ScopeDefView>,
    right: ScopeDefView,
    done: Seq<ExprView>,
)
    requires
        i <= tree::list(names).len(),
        lowering::using_predicates(names, i, left, right, done) is Ok,
        are_agreements(tree::list(names).take(i as int), left, right, done),
    ensures
        are_agreements(
            tree::list(names),
            left,
            right,
            lowering::using_predicates(names, i, left, right, done)->Ok_0,
        ),
    decreases tree::list(names).len() - i,
{
    let all = tree::list(names);
    if i >= all.len() {
        assert(all.take(i as int) =~= all);
    } else {
        let name = literals::object_text(all[i as int])->Ok_0;
        let holder = lowering::last_holder(left, name, left.len())->0;
        lemma_last_holder(left, name, left.len());
        lemma_column_found(holder.columns, name);
        lemma_column_found(right.columns, name);
        let mine = env::find_column(holder.columns, name)->0;
        let other = env::find_column(right.columns, name)->0;
        let e = lowering::agreement(holder, right, name);
        let l = operators::column_of(holder.label, mine.row_field());
        let r = operators::column_of(right.label, other.row_field());
        assert(e == operators::binary_of(BinaryOp::Eq, l, r));
        assert forall|world: World, row: Row|
            is_true(#[trigger] value_of(world, row, e)) <==> is_found(
                read(row, holder.label, mine.row_field()),
                read(row, right.label, other.row_field()),
            ) by {
            assert(value_of(world, row, l) == read(row, holder.label, mine.row_field()));
            assert(value_of(world, row, r) == read(row, right.label, other.row_field()));
        }
        assert(is_agreement(left, right, name, e));
        let next = done.push(e);
        let more = all.take((i + 1) as int);
        assert forall|k: int| 0 <= k < more.len() implies (literals::object_text(
            #[trigger] more[k],
        ) matches Ok(name) && is_agreement(left, right, name, next[k])) by {
            if k < i {
                assert(more[k] == all.take(i as int)[k]);
                assert(next[k] == done[k]);
            }
        }
        lemma_using(names, i + 1, left, right, next);
    }
}

// ---- set operations ----

/// Whether a row is one of a relation, moved into a scope.
pub open spec fn is_row_of(
    world: World,
    outer: Row,
    relation: RelationView,
    scope: Seq<char>,
    row: Row,
) -> bool {
    exists|source: Row| #[trigger]
        candidate(source) && gives(world, outer, relation, source) && is_moved(source, scope, row)
}

/// Whether a relation is what a set operator makes of two others: the rows of
/// either, the rows of both, or the rows of the first that the second has not.
pub open spec fn set_means(
    operator: TreeView,
    quantifier: SetQuantifier,
    scope: Seq<char>,
    left: RelationView,
    right: RelationView,
    relation: RelationView,
) -> bool {
    ||| tree::is(operator, "Union"@) && (relation is Distinct) == (quantifier
        == SetQuantifier::Distinct) && forall|world: World, outer: Row, row: Row| #[trigger]
        gives(world, outer, relation, row) <==> is_row_of(world, outer, left, scope, row)
            || is_row_of(world, outer, right, scope, row)
    ||| tree::is(operator, "Intersect"@) && relation is Intersect
        && relation->Intersect_quantifier == quantifier && forall|
        world: World,
        outer: Row,
        row: Row,
    | #[trigger]
        gives(world, outer, relation, row) <==> is_row_of(world, outer, left, scope, row)
            && is_row_of(world, outer, right, scope, row)
    ||| tree::is(operator, "Except"@) && relation is Except && relation->Except_quantifier
        == quantifier && (relation->Except_left == left && relation->Except_right == right) && (
    quantifier == SetQuantifier::Distinct ==> forall|world: World, outer: Row, row: Row| #[trigger]
        gives(world, outer, relation, row) <==> is_row_of(world, outer, left, scope, row)
            && !is_row_of(world, outer, right, scope, row))
}

/// A set operation gives the rows that its operator says, and keeps duplicates only
/// where it says ALL.
pub proof fn set_operations_keep_their_meaning(
    operator: TreeView,
    quantifier: TreeView,
    scope: Seq<char>,
    left: RelationView,
    right: RelationView,
)
    requires
        lowering::quantified(quantifier) is Ok,
        lowering::set_relation(
            operator,
            lowering::quantified(quantifier)->Ok_0,
            scope,
            left,
            right,
        ) is Ok,
    ensures
        (lowering::quantified(quantifier)->Ok_0 == SetQuantifier::All) == tree::is(
            quantifier,
            "All"@,
        ),
        set_means(
            operator,
            lowering::quantified(quantifier)->Ok_0,
            scope,
            left,
            right,
            lowering::set_relation(
                operator,
                lowering::quantified(quantifier)->Ok_0,
                scope,
                left,
                right,
            )->Ok_0,
        ),
{
    let kept = lowering::quantified(quantifier)->Ok_0;
    let relation = lowering::set_relation(operator, kept, scope, left, right)->Ok_0;
    if tree::is(operator, "Union"@) {
        let inputs = seq![left, right];
        let all = RelationView::Concatenate { scope, inputs };
        assert(relation == all || relation == RelationView::Distinct(Box::new(all)));
        assert forall|world: World, outer: Row, row: Row| #[trigger]
            gives(world, outer, relation, row) <==> is_row_of(world, outer, left, scope, row)
                || is_row_of(world, outer, right, scope, row) by {
            assert(gives(world, outer, relation, row) == gives(world, outer, all, row));
            lemma_union_gives(world, outer, row, scope, left, right);
        }
    } else if tree::is(operator, "Intersect"@) {
        assert forall|world: World, outer: Row, row: Row| #[trigger]
            gives(world, outer, relation, row) <==> is_row_of(world, outer, left, scope, row)
                && is_row_of(world, outer, right, scope, row) by {
            lemma_intersect_gives(world, outer, row, scope, left, right, kept);
        }
    } else if kept == SetQuantifier::Distinct {
        assert forall|world: World, outer: Row, row: Row| #[trigger]
            gives(world, outer, relation, row) <==> is_row_of(world, outer, left, scope, row)
                && !is_row_of(world, outer, right, scope, row) by {
            lemma_except_gives(world, outer, row, scope, left, right);
        }
    }
}

proof fn lemma_union_gives(
    world: World,
    outer: Row,
    row: Row,
    scope: Seq<char>,
    left: RelationView,
    right: RelationView,
)
    ensures
        gives(
            world,
            outer,
            RelationView::Concatenate { scope, inputs: seq![left, right] },
            row,
        ) <==> is_row_of(world, outer, left, scope, row) || is_row_of(
            world,
            outer,
            right,
            scope,
            row,
        ),
{
    let inputs = seq![left, right];
    let all = RelationView::Concatenate { scope, inputs };
    let first = inputs.drop_last();
    assert forall|source: Row| #[trigger] candidate(source) implies one_gives(
        world,
        outer,
        inputs,
        source,
    ) == (gives(world, outer, left, source) || gives(world, outer, right, source)) by {
        assert(inputs.last() == right);
        assert(first.last() == left);
        assert(first.drop_last().len() == 0);
        assert(!one_gives(world, outer, first.drop_last(), source));
        assert(one_gives(world, outer, first, source) == gives(world, outer, left, source));
    }
    if is_row_of(world, outer, left, scope, row) {
        let source = choose|source: Row| #[trigger]
            candidate(source) && gives(world, outer, left, source) && is_moved(source, scope, row);
        assert(candidate(source));
    }
    if is_row_of(world, outer, right, scope, row) {
        let source = choose|source: Row| #[trigger]
            candidate(source) && gives(world, outer, right, source) && is_moved(source, scope, row);
        assert(candidate(source));
    }
    if gives(world, outer, all, row) {
        let source = choose|source: Row| #[trigger]
            candidate(source) && one_gives(world, outer, inputs, source) && is_moved(
                source,
                scope,
                row,
            );
        assert(candidate(source));
        assert(is_row_of(world, outer, left, scope, row) || is_row_of(
            world,
            outer,
            right,
            scope,
            row,
        ));
    }
}

proof fn lemma_intersect_gives(
    world: World,
    outer: Row,
    row: Row,
    scope: Seq<char>,
    left: RelationView,
    right: RelationView,
    quantifier: SetQuantifier,
)
    ensures
        gives(
            world,
            outer,
            RelationView::Intersect {
                scope,
                left: Box::new(left),
                right: Box::new(right),
                quantifier,
            },
            row,
        ) <==> is_row_of(world, outer, left, scope, row) && is_row_of(
            world,
            outer,
            right,
            scope,
            row,
        ),
{
}

proof fn lemma_except_gives(
    world: World,
    outer: Row,
    row: Row,
    scope: Seq<char>,
    left: RelationView,
    right: RelationView,
)
    ensures
        gives(
            world,
            outer,
            RelationView::Except {
                scope,
                left: Box::new(left),
                right: Box::new(right),
                quantifier: SetQuantifier::Distinct,
            },
            row,
        ) <==> is_row_of(world, outer, left, scope, row) && !is_row_of(
            world,
            outer,
            right,
            scope,
            row,
        ),
{
}

} // verus!
