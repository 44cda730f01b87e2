//! Relations built from lowered parts.

use vstd::prelude::*;

use crate::sql::env;
use crate::sql::env::{scope_named, unique_name};
use crate::sql::forms;
use crate::sql::lir;
use crate::sql::lir::{
    BinaryOp, Expr, JoinKind, Kind, OrderTerm, ProjectField, RawScalar, RawScalarView,
    RecursiveAccumulation, Relation, RowsColumn, RowsColumnView, ScalarType, SetQuantifier, UnaryOp,
};
use crate::sql::literals;
use crate::sql::literals::{identifier, object_name, type_text};
use crate::sql::lowering;
use crate::sql::lowering::{JoinShape, Outputs, Slice, Sources};
use crate::sql::operators;
use crate::sql::operators::{binary, bool_literal, column_expr, unary};
use crate::sql::shapes;
use crate::sql::syntax;
use crate::sql::tree;
use crate::sql::tree::Tree;
use crate::sql::types;
use crate::sql::types::{
    CompiledExpr, Error, ExpressionEnv, LoweredQuery, ResultColumn, ResultColumnView, ScopeDef,
    SelectSource,
};
use crate::text;
use crate::text::{count_text, join, join3, join5, quoted};

verus! {

broadcast use {
    tree::group_tree_heights,
    lir::group_lir_views,
    types::group_sql_views,
};

// ---- set operations ----

/// Whether columns have the same number and types.
pub fn have_same_types(left: &Vec<ResultColumn>, right: &Vec<ResultColumn>) -> (same: bool)
    ensures
        same == lowering::same_types(
            types::result_columns_view(left@),
            types::result_columns_view(right@),
        ),
{
    let ghost a = types::result_columns_view(left@);
    let ghost b = types::result_columns_view(right@);
    if left.len() != right.len() {
        return false;
    }
    let mut i: usize = 0;
    while i < left.len()
        invariant
            i <= left.len(),
            left.len() == right.len(),
            a == types::result_columns_view(left@),
            b == types::result_columns_view(right@),
            forall|k: int| 0 <= k < i ==> (#[trigger] a[k]).scalar_type == b[k].scalar_type,
        decreases left.len() - i,
    {
        if left[i].scalar_type != right[i].scalar_type {
            assert(a[i as int].scalar_type != b[i as int].scalar_type);
            return false;
        }
        i += 1;
    }
    true
}

/// Which rows a recursive UNION feeds back.
pub fn recursive_accumulation(quantifier: &Tree) -> (result: Result<RecursiveAccumulation, Error>)
    ensures
        lowering::accumulated(quantifier@) == (match result {
            Ok(accumulation) => Ok(accumulation),
            Err(error) => Err(error@),
        }),
{
    if quantifier.is("All") {
        Ok(RecursiveAccumulation::All)
    } else if quantifier.is("None") || quantifier.is("Distinct") {
        Ok(RecursiveAccumulation::New)
    } else {
        let shown = syntax::show_set_quantifier(quantifier);
        Err(
            Error::Unsupported(
                join3("recursive UNION quantifier ", shown.as_str(), " is not supported"),
            ),
        )
    }
}

/// Whether a set operation keeps duplicates.
pub fn set_quantifier(quantifier: &Tree) -> (result: Result<SetQuantifier, Error>)
    ensures
        lowering::quantified(quantifier@) == (match result {
            Ok(quantifier) => Ok(quantifier),
            Err(error) => Err(error@),
        }),
{
    if quantifier.is("All") {
        Ok(SetQuantifier::All)
    } else if quantifier.is("None") || quantifier.is("Distinct") {
        Ok(SetQuantifier::Distinct)
    } else {
        let shown = syntax::show_set_quantifier(quantifier);
        Err(
            Error::Unsupported(join3("set quantifier ", shown.as_str(), " is not supported")),
        )
    }
}

/// The relation of a set operation.
pub fn set_relation(
    operator: &Tree,
    quantifier: SetQuantifier,
    scope: &str,
    left: Relation,
    right: Relation,
) -> (result: Result<Relation, Error>)
    ensures
        forms::viewed(result) == lowering::set_relation(
            operator@,
            quantifier,
            scope@,
            left@,
            right@,
        ),
{
    if operator.is("Union") {
        let mut inputs: Vec<Relation> = Vec::new();
        let ghost wanted = seq![left@, right@];
        inputs.push(left);
        inputs.push(right);
        assert(lir::relations_view(inputs@) =~= wanted);
        let all = Relation::Concatenate { scope: scope.to_owned(), inputs };
        assert(all@ is Concatenate);
        match quantifier {
            SetQuantifier::Distinct => Ok(Relation::Distinct(Box::new(all))),
            SetQuantifier::All => Ok(all),
        }
    } else if operator.is("Intersect") {
        Ok(
            Relation::Intersect {
                scope: scope.to_owned(),
                left: Box::new(left),
                right: Box::new(right),
                quantifier,
            },
        )
    } else if operator.is("Except") {
        Ok(
            Relation::Except {
                scope: scope.to_owned(),
                left: Box::new(left),
                right: Box::new(right),
                quantifier,
            },
        )
    } else {
        Err(Error::Unsupported("MINUS is not PostgreSQL syntax".to_owned()))
    }
}

fn numeric(scalar_type: ScalarType) -> (yes: bool)
    ensures
        yes == operators::is_numeric(scalar_type),
{
    matches!(scalar_type, ScalarType::Int64) || matches!(scalar_type, ScalarType::Float64)
}

/// Checks that the columns of two branches have common types.
pub fn check_types(left: &Vec<ResultColumn>, right: &Vec<ResultColumn>) -> (result: Result<(), Error>)
    requires
        left.len() == right.len(),
    ensures
        lowering::set_types(
            types::result_columns_view(left@),
            types::result_columns_view(right@),
        ) == (match result {
            Ok(done) => Ok(done),
            Err(error) => Err(error@),
        }),
{
    let ghost a = types::result_columns_view(left@);
    let ghost b = types::result_columns_view(right@);
    let mut i: usize = 0;
    while i < left.len()
        invariant
            i <= left.len(),
            left.len() == right.len(),
            a == types::result_columns_view(left@),
            b == types::result_columns_view(right@),
            lowering::ununited(a, b, 0) == lowering::ununited(a, b, i as nat),
        decreases left.len() - i,
    {
        let mine = left[i].scalar_type;
        let other = right[i].scalar_type;
        assert(a[i as int].scalar_type == mine && b[i as int].scalar_type == other);
        if !(mine == other || (numeric(mine) && numeric(other))) {
            let position = count_text(i + 1);
            let head = join5(
                "set-operation column ",
                position.as_str(),
                " has types ",
                type_text(mine),
                " and ",
            );
            return Err(Error::Invalid(join(head.as_str(), type_text(other))));
        }
        i += 1;
    }
    Ok(())
}

/// The columns of a set operation.
pub fn unite(left: &Vec<ResultColumn>, right: &Vec<ResultColumn>) -> (columns: Vec<ResultColumn>)
    requires
        left.len() == right.len(),
    ensures
        types::result_columns_view(columns@) == lowering::united(
            types::result_columns_view(left@),
            types::result_columns_view(right@),
        ),
{
    let ghost wanted = lowering::united(
        types::result_columns_view(left@),
        types::result_columns_view(right@),
    );
    let mut columns: Vec<ResultColumn> = Vec::new();
    let mut i: usize = 0;
    while i < left.len()
        invariant
            i <= left.len(),
            left.len() == right.len(),
            columns.len() == i,
            wanted == lowering::united(
                types::result_columns_view(left@),
                types::result_columns_view(right@),
            ),
            forall|k: int| 0 <= k < i ==> (#[trigger] columns@[k])@ == wanted[k],
        decreases left.len() - i,
    {
        let mut column = left[i].clone();
        if left[i].scalar_type != right[i].scalar_type {
            column.scalar_type = ScalarType::Float64;
        }
        column.nullable = left[i].nullable || right[i].nullable;
        columns.push(column);
        i += 1;
    }
    assert(types::result_columns_view(columns@) =~= wanted);
    columns
}

/// Which columns of one branch must be cast to the type of the other.
pub fn widen(mine: &Vec<ResultColumn>, other: &Vec<ResultColumn>) -> (casts: Vec<bool>)
    requires
        mine.len() == other.len(),
    ensures
        casts@ == lowering::widened(
            types::result_columns_view(mine@),
            types::result_columns_view(other@),
        ),
{
    let mut casts: Vec<bool> = Vec::new();
    let mut i: usize = 0;
    while i < mine.len()
        invariant
            i <= mine.len(),
            mine.len() == other.len(),
            casts.len() == i,
            forall|k: int|
                0 <= k < i ==> #[trigger] casts@[k] == (mine@[k].scalar_type == ScalarType::Int64
                    && other@[k].scalar_type == ScalarType::Float64),
        decreases mine.len() - i,
    {
        casts.push(
            matches!(mine[i].scalar_type, ScalarType::Int64)
                && matches!(other[i].scalar_type, ScalarType::Float64),
        );
        i += 1;
    }
    assert(casts@ =~= lowering::widened(
        types::result_columns_view(mine@),
        types::result_columns_view(other@),
    ));
    casts
}

/// No casts.
pub fn no_casts(count: usize) -> (casts: Vec<bool>)
    ensures
        casts@ == Seq::new(count as nat, |i: int| false),
{
    let mut casts: Vec<bool> = Vec::new();
    let mut i: usize = 0;
    while i < count
        invariant
            i <= count,
            casts.len() == i,
            forall|k: int| 0 <= k < i ==> #[trigger] casts@[k] == false,
        decreases count - i,
    {
        casts.push(false);
        i += 1;
    }
    assert(casts@ =~= Seq::new(count as nat, |i: int| false));
    casts
}

/// A branch of a set operation under the columns of the whole.
pub fn align(query: LoweredQuery, scope: String, target: &Vec<ResultColumn>, casts: &Vec<bool>) -> (result:
    LoweredQuery)
    ensures
        result@ == lowering::aligned_in(
            query@,
            scope@,
            types::result_columns_view(target@),
            casts@,
        ),
{
    let ghost wide = types::result_columns_view(target@);
    let mut fields: Vec<ProjectField> = Vec::new();
    let mut i: usize = 0;
    while i < query.columns.len() && i < target.len() && i < casts.len()
        invariant
            i <= query.columns.len(),
            i <= target.len(),
            i <= casts.len(),
            fields.len() == i,
            wide == types::result_columns_view(target@),
            forall|k: int|
                0 <= k < i ==> (#[trigger] fields@[k])@ == lowering::aligned_field(
                    query@,
                    wide,
                    casts@,
                    k,
                ),
        decreases query.columns.len() - i,
    {
        let column = column_expr(query.scope.as_str(), query.columns[i].field());
        assert(query@.columns[i as int] == query.columns@[i as int]@);
        assert(wide[i as int] == target@[i as int]@);
        let expression = if casts[i] {
            Expr::Cast { expression: Box::new(column), to: Kind::Float64 }
        } else {
            column
        };
        fields.push(ProjectField { name: target[i].field().to_owned(), expression });
        i += 1;
    }
    assert(lir::project_fields_view(fields@) =~= Seq::new(
        lowering::smallest(query@.columns.len(), wide.len(), casts@.len()),
        |i: int| lowering::aligned_field(query@, wide, casts@, i),
    ));
    let relation = project(query.relation, scope.as_str(), fields);
    LoweredQuery { relation, columns: types::copy_result_columns(target), scope, one: query.one }
}

/// A query with its columns under other names.
pub fn rename(query: LoweredQuery, scope: String, names: &Vec<String>) -> (result: LoweredQuery)
    requires
        names.len() == query.columns.len(),
    ensures
        result@ == lowering::renamed_in(query@, scope@, text::texts(names@)),
{
    let ghost shown = text::texts(names@);
    let mut fields: Vec<ProjectField> = Vec::new();
    let mut columns: Vec<ResultColumn> = Vec::new();
    let mut i: usize = 0;
    while i < names.len()
        invariant
            i <= names.len(),
            names.len() == query.columns.len(),
            fields.len() == i,
            columns.len() == i,
            shown == text::texts(names@),
            forall|k: int|
                0 <= k < i ==> (#[trigger] fields@[k])@ == lowering::renamed_field(
                    query@,
                    shown,
                    k,
                ),
            forall|k: int|
                0 <= k < i ==> (#[trigger] columns@[k])@ == lowering::renamed_column(
                    query@,
                    shown,
                    k,
                ),
        decreases names.len() - i,
    {
        assert(query@.columns[i as int] == query.columns@[i as int]@);
        let mut column = query.columns[i].clone();
        fields.push(
            ProjectField {
                name: names[i].clone(),
                expression: column_expr(query.scope.as_str(), column.field()),
            },
        );
        column.name = names[i].clone();
        column.field = names[i].clone();
        columns.push(column);
        i += 1;
    }
    assert(lir::project_fields_view(fields@) =~= Seq::new(
        shown.len(),
        |i: int| lowering::renamed_field(query@, shown, i),
    ));
    assert(types::result_columns_view(columns@) =~= Seq::new(
        shown.len(),
        |i: int| lowering::renamed_column(query@, shown, i),
    ));
    let relation = project(query.relation, scope.as_str(), fields);
    LoweredQuery { relation, columns, scope, one: query.one }
}

/// The column names that a WITH item gives.
pub fn cte_columns(cte: &Tree) -> (names: Vec<String>)
    ensures
        text::texts(names@) == lowering::cte_names(cte@),
{
    let columns = cte.at("alias").at("columns");
    let mut names: Vec<String> = Vec::new();
    let count = columns.count();
    let mut i: usize = 0;
    while i < count
        invariant
            i <= count,
            count == tree::list(columns@).len(),
            names.len() == i,
            forall|k: int|
                0 <= k < i ==> (#[trigger] names@[k])@ == literals::ident_name(
                    tree::at(tree::list(columns@)[k], "name"@),
                ),
        decreases count - i,
    {
        names.push(identifier(columns.item(i).at("name")));
        i += 1;
    }
    assert(text::texts(names@) =~= lowering::cte_names(cte@));
    names
}

// ---- slices and orders ----

/// A relation cut down to a slice, where there is one.
pub fn cut(relation: Relation, slice: &Option<Slice>) -> (result: Relation)
    ensures
        result@ == lowering::sliced(relation@, *slice),
{
    match slice {
        Some(slice) => Relation::Slice {
            input: Box::new(relation),
            offset: slice.offset,
            limit: slice.limit,
        },
        None => relation,
    }
}

/// Whether a slice keeps at most one row.
pub fn keeps_one(slice: &Option<Slice>) -> (yes: bool)
    ensures
        yes == lowering::shows_one(*slice),
{
    match slice {
        Some(slice) => match slice.limit {
            Some(limit) => limit <= 1,
            None => false,
        },
        None => false,
    }
}

/// Adds the two order terms of a sort key.
pub fn push_sort(terms: &mut Vec<OrderTerm>, expression: Expr, term: &Tree)
    ensures
        lir::order_terms_view(final(terms)@) == lir::order_terms_view(old(terms)@)
            + lowering::sort_pair(expression@, term@),
{
    let options = term.at("options");
    let descending = matches!(options.at("asc"), Tree::Bool(false));
    let nulls_first = match options.at("nulls_first") {
        Tree::Bool(first) => *first,
        _ => descending,
    };
    let ghost before = lir::order_terms_view(terms@);
    let ghost pair = lowering::sort_pair(expression@, term@);
    terms.push(
        OrderTerm {
            expression: unary(UnaryOp::IsNull, expression.clone()),
            descending: nulls_first,
        },
    );
    terms.push(OrderTerm { expression, descending });
    assert(lir::order_terms_view(terms@) =~= before + pair);
}

// ---- projections ----

/// A projection into a scope.
pub fn project(input: Relation, scope: &str, fields: Vec<ProjectField>) -> (result: Relation)
    ensures
        result@ == lowering::project(input@, scope@, lir::project_fields_view(fields@)),
{
    let result = Relation::Project {
        input: Box::new(input),
        scope: Some(scope.to_owned()),
        spread: Vec::new(),
        fields,
    };
    assert(result@->spread =~= Seq::<Seq<char>>::empty());
    result
}

/// What a projection has produced.
pub struct Output {
    pub names: Vec<String>,
    pub fields: Vec<ProjectField>,
    pub columns: Vec<ResultColumn>,
}

impl View for Output {
    type V = Outputs;

    open spec fn view(&self) -> Outputs {
        Outputs {
            names: text::texts(self.names@),
            fields: lir::project_fields_view(self.fields@),
            columns: types::result_columns_view(self.columns@),
        }
    }
}

impl Output {
    /// No output yet.
    pub fn new() -> (output: Output)
        ensures
            output@ == lowering::no_outputs(),
    {
        let output = Output { names: Vec::new(), fields: Vec::new(), columns: Vec::new() };
        assert(output@ =~= lowering::no_outputs());
        output
    }

    /// Adds the columns of a row source.
    pub fn add_columns(&mut self, scope: &ScopeDef)
        ensures
            final(self)@ == lowering::with_columns(old(self)@, scope@, 0),
    {
        let mut i: usize = 0;
        while i < scope.columns.len()
            invariant
                i <= scope.columns.len(),
                lowering::with_columns(self@, scope@, i as nat) == lowering::with_columns(
                    old(self)@,
                    scope@,
                    0,
                ),
            decreases scope.columns.len() - i,
        {
            assert(scope@.columns[i as int] == scope.columns@[i as int]@);
            let mut column = scope.columns[i].clone();
            column.field = unique_name(scope.columns[i].name.as_str(), &mut self.names);
            self.fields.push(
                ProjectField {
                    name: column.field.clone(),
                    expression: column_expr(scope.label.as_str(), scope.columns[i].field()),
                },
            );
            self.columns.push(column);
            i += 1;
        }
    }

    /// Adds the columns of row sources.
    pub fn add_scopes(&mut self, scopes: &Vec<ScopeDef>)
        ensures
            final(self)@ == lowering::with_scopes(
                old(self)@,
                types::scope_defs_view(scopes@),
                0,
            ),
    {
        let ghost all = types::scope_defs_view(scopes@);
        let mut i: usize = 0;
        while i < scopes.len()
            invariant
                i <= scopes.len(),
                all == types::scope_defs_view(scopes@),
                lowering::with_scopes(self@, all, i as nat) == lowering::with_scopes(
                    old(self)@,
                    all,
                    0,
                ),
            decreases scopes.len() - i,
        {
            assert(all[i as int] == scopes@[i as int]@);
            self.add_columns(&scopes[i]);
            i += 1;
        }
    }

    /// Adds one expression.
    pub fn add_expression(&mut self, item: &Tree, value: CompiledExpr, env: &ExpressionEnv)
        ensures
            final(self)@ == lowering::with_expression(old(self)@, item@, value@, env@),
    {
        let name = shapes::select_item_name(item);
        let field = unique_name(name.as_str(), &mut self.names);
        let format = shapes::direct_column_format(shapes::expression_ast(item), env);
        self.fields.push(ProjectField { name: field.clone(), expression: value.expr });
        self.columns.push(
            ResultColumn {
                name,
                field,
                scalar_type: value.scalar_type,
                nullable: value.nullable,
                format,
            },
        );
    }

    /// Adds a wildcard.
    pub fn add_wildcard(&mut self, item: &Tree, env: &ExpressionEnv) -> (result: Result<(), Error>)
        ensures
            lowering::with_wildcard(old(self)@, item@, env@) == (match result {
                Ok(_) => Ok(final(self)@),
                Err(error) => Err(error@),
            }),
    {
        if item.is("Wildcard") {
            if let Some(scopes) = env.local_scopes() {
                if scopes.len() > 0 {
                    self.add_scopes(scopes);
                    return Ok(());
                }
            }
            return Err(Error::Invalid("SELECT * needs a FROM item".to_owned()));
        }
        let wildcard = item.at("QualifiedWildcard");
        if item.is("QualifiedWildcard") && wildcard.count() > 0 && wildcard.item(0).is("ObjectName") {
            let name = wildcard.item(0).at("ObjectName");
            let qualifier = match object_name(name) {
                Ok(qualifier) => qualifier,
                Err(error) => {
                    return Err(error);
                },
            };
            if let Some(scopes) = env.local_scopes() {
                if let Some(scope) = scope_named(scopes, qualifier.as_str()) {
                    self.add_columns(scope);
                    return Ok(());
                }
            }
            let shown = syntax::show_object_name(name);
            return Err(Error::Invalid(join("unknown wildcard qualifier ", shown.as_str())));
        }
        let shown = syntax::show_select_item(item);
        Err(
            Error::Unsupported(
                join3("projection item ", shown.as_str(), " is not supported"),
            ),
        )
    }
}

/// The relation of a SELECT that keeps duplicates.
pub fn arrange(
    relation: Relation,
    terms: Vec<OrderTerm>,
    slice: &Option<Slice>,
    scope: &str,
    fields: Vec<ProjectField>,
    columns: &Vec<ResultColumn>,
) -> (result: Relation)
    ensures
        result@ == lowering::arranged(
            relation@,
            lir::order_terms_view(terms@),
            *slice,
            scope@,
            lir::project_fields_view(fields@),
            types::result_columns_view(columns@),
        ),
{
    if terms.len() == 0 {
        let projected = project(relation, scope, fields);
        cut(env::order_by_output(projected, columns, scope), slice)
    } else {
        let ordered = Relation::Order { input: Box::new(relation), terms };
        project(cut(ordered, slice), scope, fields)
    }
}

// ---- row sources ----

/// The row source of a SELECT without a FROM.
pub fn constant_source(label: String, parent: &ExpressionEnv) -> (source: SelectSource)
    ensures
        source@ == lowering::constant_source(label@, parent@),
{
    let ghost wanted = lowering::constant_source(label@, parent@);
    let column = ResultColumn {
        name: "_one".to_owned(),
        field: "_one".to_owned(),
        scalar_type: ScalarType::Int64,
        nullable: false,
        format: String::new(),
    };
    let mut rows_columns: Vec<RowsColumn> = Vec::new();
    rows_columns.push(RowsColumn { name: "_one".to_owned(), kind: Kind::Int64, nullable: false });
    let mut row: Vec<RawScalar> = Vec::new();
    row.push(RawScalar::Number("1".to_owned()));
    assert(lir::raw_scalars_view(row@) =~= seq![RawScalarView::Number("1"@)]);
    let mut values: Vec<Vec<RawScalar>> = Vec::new();
    values.push(row);
    let mut columns: Vec<ResultColumn> = Vec::new();
    columns.push(column);
    let scope = ScopeDef {
        alias: "constant".to_owned(),
        label: label.clone(),
        columns,
        primary_key: Vec::new(),
    };
    let mut scopes: Vec<ScopeDef> = Vec::new();
    scopes.push(scope);
    let mut default_order: Vec<OrderTerm> = Vec::new();
    default_order.push(
        OrderTerm { expression: column_expr(label.as_str(), "_one"), descending: false },
    );
    proof {
        assert(lir::rows_columns_view(rows_columns@) =~= seq![
            RowsColumnView { name: "_one"@, kind: Kind::Int64, nullable: false },
        ]);
        assert(lir::raw_scalar_rows_view(values@) =~= seq![seq![RawScalarView::Number("1"@)]]);
        assert(column@.format =~= Seq::empty());
        assert(types::result_columns_view(columns@) =~= seq![column@]);
        assert(scope@.primary_key =~= Seq::<Seq<char>>::empty());
        assert(types::scope_defs_view(scopes@) =~= seq![scope@]);
        assert(lir::order_terms_view(default_order@) =~= wanted.default_order);
    }
    let relation = Relation::Rows { scope: label, columns: rows_columns, values };
    assert(relation@ == wanted.relation);
    SelectSource { relation, env: ExpressionEnv::local(scopes, parent), default_order }
}

/// The row sources joined so far, with their scopes.
pub struct Joined {
    pub relation: Option<Relation>,
    pub scopes: Vec<ScopeDef>,
}

impl View for Joined {
    type V = Sources;

    open spec fn view(&self) -> Sources {
        Sources {
            relation: match self.relation {
                Some(relation) => Some(relation@),
                None => None,
            },
            scopes: types::scope_defs_view(self.scopes@),
        }
    }
}

impl Joined {
    /// No row source yet.
    pub fn new() -> (sources: Joined)
        ensures
            sources@ == lowering::no_sources(),
    {
        Joined { relation: None, scopes: Vec::new() }
    }
}

/// The order terms for the primary keys of row sources.
pub fn order_by_keys(scopes: &Vec<ScopeDef>) -> (terms: Vec<OrderTerm>)
    ensures
        lir::order_terms_view(terms@) == lowering::key_order(
            types::scope_defs_view(scopes@),
            0,
            Seq::empty(),
        ),
{
    let ghost all = types::scope_defs_view(scopes@);
    let mut terms: Vec<OrderTerm> = Vec::new();
    let mut i: usize = 0;
    while i < scopes.len()
        invariant
            i <= scopes.len(),
            all == types::scope_defs_view(scopes@),
            lowering::key_order(all, 0, Seq::empty()) == lowering::key_order(
                all,
                i as nat,
                lir::order_terms_view(terms@),
            ),
        decreases scopes.len() - i,
    {
        assert(all[i as int] == scopes@[i as int]@);
        let ghost before = lir::order_terms_view(terms@);
        let ghost wanted = env::name_terms(all[i as int].primary_key, all[i as int].label);
        let keys = &scopes[i].primary_key;
        let mut k: usize = 0;
        assert(before + wanted.take(0) =~= before);
        while k < keys.len()
            invariant
                k <= keys.len(),
                i < scopes.len(),
                *keys == scopes@[i as int].primary_key,
                all == types::scope_defs_view(scopes@),
                wanted == env::name_terms(all[i as int].primary_key, all[i as int].label),
                wanted.len() == keys.len(),
                lir::order_terms_view(terms@) == before + wanted.take(k as int),
            decreases keys.len() - k,
        {
            terms.push(
                OrderTerm {
                    expression: column_expr(scopes[i].label.as_str(), keys[k].as_str()),
                    descending: false,
                },
            );
            proof {
                assert(all[i as int].primary_key[k as int] == keys@[k as int]@);
                assert(wanted.take(k + 1) =~= wanted.take(k as int).push(wanted[k as int]));
                assert(before + wanted.take(k + 1) =~= (before + wanted.take(k as int)).push(
                    wanted[k as int],
                ));
            }
            k += 1;
        }
        assert(wanted.take(k as int) =~= wanted);
        i += 1;
    }
    terms
}

/// An inner join with what is there.
pub fn cross(left: Option<Relation>, right: Relation) -> (result: Relation)
    ensures
        result@ == lowering::crossed(
            match left {
                Some(left) => Some(left@),
                None => None,
            },
            right@,
        ),
{
    match left {
        Some(left) => Relation::Join {
            left: Box::new(left),
            right: Box::new(right),
            kind: JoinKind::Inner,
            on: bool_literal(true),
        },
        None => right,
    }
}

/// Which side of a join keeps the rows that match nothing, and its constraint.
pub struct JoinForm<'a> {
    pub keeps_left: bool,
    pub keeps_right: bool,
    pub constraint: &'a Tree,
}

impl<'a> View for JoinForm<'a> {
    type V = JoinShape;

    open spec fn view(&self) -> JoinShape {
        JoinShape {
            keeps_left: self.keeps_left,
            keeps_right: self.keeps_right,
            constraint: self.constraint@,
        }
    }
}

/// The shape of a join operator.
pub fn join_form(operator: &Tree) -> (result: Result<JoinForm<'_>, Error>)
    ensures
        lowering::join_shape(operator@) == (match result {
            Ok(form) => Ok(form@),
            Err(error) => Err(error@),
        }),
{
    let (keeps_left, keeps_right, constraint) = if operator.is("Join") {
        (false, false, operator.at("Join"))
    } else if operator.is("Inner") {
        (false, false, operator.at("Inner"))
    } else if operator.is("CrossJoin") {
        (false, false, operator.at("CrossJoin"))
    } else if operator.is("Left") {
        (true, false, operator.at("Left"))
    } else if operator.is("LeftOuter") {
        (true, false, operator.at("LeftOuter"))
    } else if operator.is("Right") {
        (false, true, operator.at("Right"))
    } else if operator.is("RightOuter") {
        (false, true, operator.at("RightOuter"))
    } else if operator.is("FullOuter") {
        return Err(
            Error::Unsupported("FULL OUTER JOIN needs a Rad relational primitive".to_owned()),
        );
    } else {
        let shown = syntax::show_join_operator(operator);
        return Err(
            Error::Unsupported(join3("join operator ", shown.as_str(), " is not supported")),
        );
    };
    Ok(JoinForm { keeps_left, keeps_right, constraint })
}

/// A row source whose columns may all be null.
pub fn make_nullable(scope: &ScopeDef) -> (result: ScopeDef)
    ensures
        result@ == lowering::nullable_scope(scope@),
{
    let ghost wanted = lowering::nullable_scope(scope@);
    let mut columns: Vec<ResultColumn> = Vec::new();
    let mut i: usize = 0;
    while i < scope.columns.len()
        invariant
            i <= scope.columns.len(),
            columns.len() == i,
            wanted == lowering::nullable_scope(scope@),
            forall|k: int| 0 <= k < i ==> (#[trigger] columns@[k])@ == wanted.columns[k],
        decreases scope.columns.len() - i,
    {
        let mut column = scope.columns[i].clone();
        column.nullable = true;
        columns.push(column);
        i += 1;
    }
    assert(types::result_columns_view(columns@) =~= wanted.columns);
    ScopeDef {
        alias: scope.alias.clone(),
        label: scope.label.clone(),
        columns,
        primary_key: text::copy_texts(&scope.primary_key),
    }
}

/// Row sources whose columns may be null where a join keeps the other side.
pub fn make_nullable_if(nullable: bool, scopes: Vec<ScopeDef>) -> (result: Vec<ScopeDef>)
    ensures
        types::scope_defs_view(result@) == lowering::nullable_if(
            nullable,
            types::scope_defs_view(scopes@),
        ),
{
    if !nullable {
        return scopes;
    }
    let mut result: Vec<ScopeDef> = Vec::new();
    let mut i: usize = 0;
    while i < scopes.len()
        invariant
            i <= scopes.len(),
            result.len() == i,
            forall|k: int|
                0 <= k < i ==> (#[trigger] result@[k])@ == lowering::nullable_scope(scopes@[k]@),
        decreases scopes.len() - i,
    {
        result.push(make_nullable(&scopes[i]));
        i += 1;
    }
    assert(types::scope_defs_view(result@) =~= lowering::nullable_if(
        nullable,
        types::scope_defs_view(scopes@),
    ));
    result
}

/// A join of two relations.
pub fn join_relations(left: Relation, right: Relation, form: &JoinForm, on: Expr) -> (result: Relation)
    ensures
        result@ == lowering::join_relation(left@, right@, form@, on@),
{
    let kind = if form.keeps_left || form.keeps_right {
        JoinKind::Left
    } else {
        JoinKind::Inner
    };
    if form.keeps_right {
        Relation::Join { left: Box::new(right), right: Box::new(left), kind, on }
    } else {
        Relation::Join { left: Box::new(left), right: Box::new(right), kind, on }
    }
}

/// The last of the row sources that has a column.
pub fn last_holder<'a>(scopes: &'a Vec<ScopeDef>, name: &str) -> (found: Option<&'a ScopeDef>)
    ensures
        lowering::last_holder(types::scope_defs_view(scopes@), name@, scopes@.len()) == (match found {
            Some(scope) => Some(scope@),
            None => None,
        }),
        found matches Some(scope) ==> env::find_column(scope@.columns, name@) is Some,
{
    let ghost all = types::scope_defs_view(scopes@);
    let mut i: usize = scopes.len();
    while i > 0
        invariant
            i <= scopes.len(),
            all == types::scope_defs_view(scopes@),
            lowering::last_holder(all, name@, scopes@.len()) == lowering::last_holder(
                all,
                name@,
                i as nat,
            ),
        decreases i,
    {
        i -= 1;
        assert(all[i as int] == scopes@[i as int]@);
        if scopes[i].column(name).is_some() {
            return Some(&scopes[i]);
        }
    }
    None
}

/// That two row sources agree in a column that both have.
pub fn agree(left: &ScopeDef, right: &ScopeDef, name: &str) -> (result: Option<Expr>)
    ensures
        match result {
            Some(expression) => expression@ == lowering::agreement(left@, right@, name@)
                && env::find_column(left@.columns, name@) is Some && env::find_column(
                right@.columns,
                name@,
            ) is Some,
            None => env::find_column(left@.columns, name@) is None || env::find_column(
                right@.columns,
                name@,
            ) is None,
        },
{
    match (left.column(name), right.column(name)) {
        (Some(mine), Some(other)) => Some(
            binary(
                BinaryOp::Eq,
                column_expr(left.label.as_str(), mine.field()),
                column_expr(right.label.as_str(), other.field()),
            ),
        ),
        _ => None,
    }
}

/// The agreements that a USING list asks for.
pub fn agree_using(names: &Tree, left: &Vec<ScopeDef>, right: &ScopeDef) -> (result: Result<
    Vec<Expr>,
    Error,
>)
    ensures
        forms::exprs_result(result) == lowering::using_predicates(
            names@,
            0,
            types::scope_defs_view(left@),
            right@,
            Seq::empty(),
        ),
{
    let ghost all = types::scope_defs_view(left@);
    let mut predicates: Vec<Expr> = Vec::new();
    let count = names.count();
    let mut i: usize = 0;
    while i < count
        invariant
            i <= count,
            count == tree::list(names@).len(),
            all == types::scope_defs_view(left@),
            lowering::using_predicates(names@, 0, all, right@, Seq::empty())
                == lowering::using_predicates(
                names@,
                i as nat,
                all,
                right@,
                lir::exprs_view(predicates@),
            ),
        decreases count - i,
    {
        let name = match object_name(names.item(i)) {
            Ok(name) => name,
            Err(error) => {
                return Err(error);
            },
        };
        let agreement = match last_holder(left, name.as_str()) {
            Some(holder) => agree(holder, right, name.as_str()),
            None => None,
        };
        match agreement {
            Some(predicate) => {
                predicates.push(predicate);
            },
            None => {
                let shown = quoted(name.as_str());
                return Err(
                    Error::Invalid(join("unknown JOIN USING column ", shown.as_str())),
                );
            },
        }
        i += 1;
    }
    Ok(predicates)
}

proof fn lemma_found_by_own_name(columns: Seq<ResultColumnView>, i: int)
    requires
        0 <= i < columns.len(),
    ensures
        env::find_column(columns, columns[i].name) is Some,
    decreases columns.len(),
{
    if columns[0].name != columns[i].name {
        lemma_found_by_own_name(columns.skip(1), i - 1);
    }
}

/// The agreements in the columns that both sides have.
pub fn agree_naturally(left: &Vec<ScopeDef>, right: &ScopeDef) -> (predicates: Vec<Expr>)
    ensures
        lir::exprs_view(predicates@) == lowering::natural_predicates(
            types::scope_defs_view(left@),
            right@,
            0,
            Seq::empty(),
        ),
{
    let ghost all = types::scope_defs_view(left@);
    let mut predicates: Vec<Expr> = Vec::new();
    let mut i: usize = 0;
    while i < right.columns.len()
        invariant
            i <= right.columns.len(),
            all == types::scope_defs_view(left@),
            lowering::natural_predicates(all, right@, 0, Seq::empty())
                == lowering::natural_predicates(
                all,
                right@,
                i as nat,
                lir::exprs_view(predicates@),
            ),
        decreases right.columns.len() - i,
    {
        assert(right@.columns[i as int] == right.columns@[i as int]@);
        let name = right.columns[i].name.as_str();
        if let Some(holder) = last_holder(left, name) {
            proof {
                lemma_found_by_own_name(right@.columns, i as int);
            }
            if let Some(predicate) = agree(holder, right, name) {
                predicates.push(predicate);
            }
        }
        i += 1;
    }
    predicates
}

/// The name that a table goes by.
pub fn known_as(alias: &Tree, name: &str) -> (known: String)
    ensures
        known@ == lowering::alias_name(alias@, name@),
{
    if alias.absent() {
        name.to_owned()
    } else {
        identifier(alias.at("name"))
    }
}

} // verus!
