//! The scopes that a relation introduces, and their renaming.

use vstd::prelude::*;

use crate::sql::lir;
use crate::sql::lir::{
    AggregateTerm, AggregateTermView, BranchArm, BranchArmView, Expr, ExprView, GroupTerm, GroupTermView,
    OrderTerm, OrderTermView, ProjectField, ProjectFieldView, Relation, RelationView,
    RowsColumnView,
};
use crate::text;
use crate::text::{characters, same_text};

verus! {

broadcast use lir::group_lir_views;

/// The scopes that a relation introduces, outermost last where it wraps
/// another.
pub open spec fn relation_scopes(relation: RelationView) -> Seq<Seq<char>>
    decreases relation,
{
    match relation {
        RelationView::Scan { scope, .. } => seq![scope],
        RelationView::Rows { scope, .. } => seq![scope],
        RelationView::Ref { scope, .. } => seq![scope],
        RelationView::RecursiveRef { scope, .. } => seq![scope],
        RelationView::Filter { input, predicate } => relation_scopes(*input) + expr_scopes(predicate),
        RelationView::Project { input, scope, fields, .. } => relation_scopes(*input) + option_scopes(
            scope,
        ) + project_fields_scopes(fields),
        RelationView::Join { left, right, on, .. } => relation_scopes(*left) + relation_scopes(*right)
            + expr_scopes(on),
        RelationView::Concatenate { scope, inputs } => seq![scope] + relations_scopes(inputs),
        RelationView::Intersect { scope, left, right, .. } => seq![scope] + relation_scopes(*left)
            + relation_scopes(*right),
        RelationView::Except { scope, left, right, .. } => seq![scope] + relation_scopes(*left)
            + relation_scopes(*right),
        RelationView::Aggregate { input, scope, groups, terms } => relation_scopes(*input)
            + option_scopes(scope) + group_terms_scopes(groups) + aggregate_terms_scopes(terms),
        RelationView::Order { input, terms } => relation_scopes(*input) + order_terms_scopes(terms),
        RelationView::Slice { input, .. } => relation_scopes(*input),
        RelationView::Distinct(input) => relation_scopes(*input),
        RelationView::Recursive { anchor, step, .. } => relation_scopes(*anchor) + relation_scopes(
            *step,
        ),
    }
}

/// The scopes of the relations inside an expression.
pub open spec fn expr_scopes(expression: ExprView) -> Seq<Seq<char>>
    decreases expression,
{
    match expression {
        ExprView::Unary { expression, .. } => expr_scopes(*expression),
        ExprView::Cast { expression, .. } => expr_scopes(*expression),
        ExprView::Binary { left, right, .. } => expr_scopes(*left) + expr_scopes(*right),
        ExprView::Branch { arms, otherwise } => arms_scopes(arms) + expr_scopes(*otherwise),
        ExprView::TextMatch { value, .. } => expr_scopes(*value),
        ExprView::Exists(relation) => relation_scopes(*relation),
        ExprView::First(relation) => relation_scopes(*relation),
        ExprView::Scalar(relation) => relation_scopes(*relation),
        ExprView::Array(relation) => relation_scopes(*relation),
        ExprView::Literal(_) => Seq::empty(),
        ExprView::Column { .. } => Seq::empty(),
    }
}

/// The scope of an operator that may have none.
pub open spec fn option_scopes(scope: Option<Seq<char>>) -> Seq<Seq<char>> {
    match scope {
        Some(scope) => seq![scope],
        None => Seq::empty(),
    }
}

pub open spec fn project_fields_scopes(values: Seq<ProjectFieldView>) -> Seq<Seq<char>>
    decreases values,
{
    if values.len() == 0 {
        Seq::empty()
    } else {
        project_fields_scopes(values.drop_last()) + expr_scopes(values.last().expression)
    }
}

pub open spec fn group_terms_scopes(values: Seq<GroupTermView>) -> Seq<Seq<char>>
    decreases values,
{
    if values.len() == 0 {
        Seq::empty()
    } else {
        group_terms_scopes(values.drop_last()) + expr_scopes(values.last().expression)
    }
}

pub open spec fn order_terms_scopes(values: Seq<OrderTermView>) -> Seq<Seq<char>>
    decreases values,
{
    if values.len() == 0 {
        Seq::empty()
    } else {
        order_terms_scopes(values.drop_last()) + expr_scopes(values.last().expression)
    }
}

pub open spec fn aggregate_terms_scopes(values: Seq<AggregateTermView>) -> Seq<Seq<char>>
    decreases values,
{
    if values.len() == 0 {
        Seq::empty()
    } else {
        aggregate_terms_scopes(values.drop_last()) + optional_scopes(values.last().argument)
    }
}

pub open spec fn arms_scopes(values: Seq<BranchArmView>) -> Seq<Seq<char>>
    decreases values,
{
    if values.len() == 0 {
        Seq::empty()
    } else {
        arms_scopes(values.drop_last()) + (expr_scopes(values.last().when) + expr_scopes(values.last().value))
    }
}

pub open spec fn relations_scopes(values: Seq<RelationView>) -> Seq<Seq<char>>
    decreases values,
{
    if values.len() == 0 {
        Seq::empty()
    } else {
        relations_scopes(values.drop_last()) + relation_scopes(values.last())
    }
}

pub open spec fn optional_scopes(expression: Option<ExprView>) -> Seq<Seq<char>>
    decreases expression,
{
    match expression {
        Some(expression) => expr_scopes(expression),
        None => Seq::empty(),
    }
}

fn add_scope(scope: &String, scopes: &mut Vec<String>)
    ensures
        text::texts(final(scopes)@) == text::texts(old(scopes)@) + seq![scope@],
{
    scopes.push(scope.clone());
    assert(text::texts(scopes@) =~= text::texts(old(scopes)@) + seq![scope@]);
}

fn add_option_scope(scope: &Option<String>, scopes: &mut Vec<String>)
    ensures
        text::texts(final(scopes)@) == text::texts(old(scopes)@) + option_scopes(text::text_option(*scope)),
{
    match scope {
        Some(scope) => add_scope(scope, scopes),
        None => {
            assert(text::texts(scopes@) =~= text::texts(old(scopes)@) + Seq::empty());
        },
    }
}

/// Adds the scopes that a relation introduces.
pub fn collect_relation_scopes(relation: &Relation, scopes: &mut Vec<String>)
    ensures
        text::texts(final(scopes)@) =~= text::texts(old(scopes)@) + relation_scopes(relation@),
    decreases relation,
{
    match relation {
        Relation::Scan { scope, .. } => add_scope(scope, scopes),
        Relation::Rows { scope, .. } => add_scope(scope, scopes),
        Relation::Ref { scope, .. } => add_scope(scope, scopes),
        Relation::RecursiveRef { scope, .. } => add_scope(scope, scopes),
        Relation::Filter { input, predicate } => {
            collect_relation_scopes(&**input, scopes);
            collect_expr_relation_scopes(predicate, scopes);
        },
        Relation::Project { input, scope, fields, .. } => {
            collect_relation_scopes(&**input, scopes);
            add_option_scope(scope, scopes);
            collect_project_fields(fields, scopes);
        },
        Relation::Join { left, right, on, .. } => {
            collect_relation_scopes(&**left, scopes);
            collect_relation_scopes(&**right, scopes);
            collect_expr_relation_scopes(on, scopes);
        },
        Relation::Concatenate { scope, inputs } => {
            add_scope(scope, scopes);
            collect_relations(inputs, scopes);
        },
        Relation::Intersect { scope, left, right, .. } => {
            add_scope(scope, scopes);
            collect_relation_scopes(&**left, scopes);
            collect_relation_scopes(&**right, scopes);
        },
        Relation::Except { scope, left, right, .. } => {
            add_scope(scope, scopes);
            collect_relation_scopes(&**left, scopes);
            collect_relation_scopes(&**right, scopes);
        },
        Relation::Aggregate { input, scope, groups, terms } => {
            collect_relation_scopes(&**input, scopes);
            add_option_scope(scope, scopes);
            collect_group_terms(groups, scopes);
            collect_aggregate_terms(terms, scopes);
        },
        Relation::Order { input, terms } => {
            collect_relation_scopes(&**input, scopes);
            collect_order_terms(terms, scopes);
        },
        Relation::Slice { input, .. } => collect_relation_scopes(&**input, scopes),
        Relation::Distinct(input) => collect_relation_scopes(&**input, scopes),
        Relation::Recursive { anchor, step, .. } => {
            collect_relation_scopes(&**anchor, scopes);
            collect_relation_scopes(&**step, scopes);
        },
    }
}

/// Adds the scopes of the relations inside an expression.
pub fn collect_expr_relation_scopes(expression: &Expr, scopes: &mut Vec<String>)
    ensures
        text::texts(final(scopes)@) =~= text::texts(old(scopes)@) + expr_scopes(expression@),
    decreases expression,
{
    match expression {
        Expr::Unary { expression, .. } => collect_expr_relation_scopes(&**expression, scopes),
        Expr::Cast { expression, .. } => collect_expr_relation_scopes(&**expression, scopes),
        Expr::Binary { left, right, .. } => {
            collect_expr_relation_scopes(&**left, scopes);
            collect_expr_relation_scopes(&**right, scopes);
        },
        Expr::Branch { arms, otherwise } => {
            collect_arms(arms, scopes);
            collect_expr_relation_scopes(&**otherwise, scopes);
        },
        Expr::TextMatch { value, .. } => collect_expr_relation_scopes(&**value, scopes),
        Expr::Exists(relation) => collect_relation_scopes(&**relation, scopes),
        Expr::First(relation) => collect_relation_scopes(&**relation, scopes),
        Expr::Scalar(relation) => collect_relation_scopes(&**relation, scopes),
        Expr::Array(relation) => collect_relation_scopes(&**relation, scopes),
        Expr::Literal(_) => {},
        Expr::Column { .. } => {},
    }
}

fn collect_project_fields(values: &Vec<ProjectField>, scopes: &mut Vec<String>)
    ensures
        text::texts(final(scopes)@) == text::texts(old(scopes)@) + project_fields_scopes(lir::project_fields_view(values@)),
    decreases values,
{
    let ghost all = lir::project_fields_view(values@);
    let mut i: usize = 0;
    proof {
        assert(all.take(0) =~= Seq::empty());
        assert(text::texts(scopes@) =~= text::texts(old(scopes)@) + Seq::empty());
    }
    while i < values.len()
        invariant
            i <= values.len(),
            all == lir::project_fields_view(values@),
            text::texts(scopes@) == text::texts(old(scopes)@) + project_fields_scopes(all.take(i as int)),
        decreases values.len() - i,
    {
        let value = &values[i];
        proof {
            assert(decreases_to!(*values => values[i as int]));
            assert(all.take(i + 1).drop_last() =~= all.take(i as int));
            assert(all.take(i + 1).last() == value@);
        }
        let ghost start = text::texts(old(scopes)@);
        let ghost earlier = project_fields_scopes(all.take(i as int));
        collect_expr_relation_scopes(&value.expression, scopes);
        assert(start + earlier + expr_scopes(value@.expression) =~= start + (earlier + expr_scopes(
            value@.expression,
        )));
        i += 1;
    }
    assert(all.take(i as int) =~= all);
}

fn collect_group_terms(values: &Vec<GroupTerm>, scopes: &mut Vec<String>)
    ensures
        text::texts(final(scopes)@) == text::texts(old(scopes)@) + group_terms_scopes(lir::group_terms_view(values@)),
    decreases values,
{
    let ghost all = lir::group_terms_view(values@);
    let mut i: usize = 0;
    proof {
        assert(all.take(0) =~= Seq::empty());
        assert(text::texts(scopes@) =~= text::texts(old(scopes)@) + Seq::empty());
    }
    while i < values.len()
        invariant
            i <= values.len(),
            all == lir::group_terms_view(values@),
            text::texts(scopes@) == text::texts(old(scopes)@) + group_terms_scopes(all.take(i as int)),
        decreases values.len() - i,
    {
        let value = &values[i];
        proof {
            assert(decreases_to!(*values => values[i as int]));
            assert(all.take(i + 1).drop_last() =~= all.take(i as int));
            assert(all.take(i + 1).last() == value@);
        }
        let ghost start = text::texts(old(scopes)@);
        let ghost earlier = group_terms_scopes(all.take(i as int));
        collect_expr_relation_scopes(&value.expression, scopes);
        assert(start + earlier + expr_scopes(value@.expression) =~= start + (earlier + expr_scopes(
            value@.expression,
        )));
        i += 1;
    }
    assert(all.take(i as int) =~= all);
}

fn collect_order_terms(values: &Vec<OrderTerm>, scopes: &mut Vec<String>)
    ensures
        text::texts(final(scopes)@) == text::texts(old(scopes)@) + order_terms_scopes(lir::order_terms_view(values@)),
    decreases values,
{
    let ghost all = lir::order_terms_view(values@);
    let mut i: usize = 0;
    proof {
        assert(all.take(0) =~= Seq::empty());
        assert(text::texts(scopes@) =~= text::texts(old(scopes)@) + Seq::empty());
    }
    while i < values.len()
        invariant
            i <= values.len(),
            all == lir::order_terms_view(values@),
            text::texts(scopes@) == text::texts(old(scopes)@) + order_terms_scopes(all.take(i as int)),
        decreases values.len() - i,
    {
        let value = &values[i];
        proof {
            assert(decreases_to!(*values => values[i as int]));
            assert(all.take(i + 1).drop_last() =~= all.take(i as int));
            assert(all.take(i + 1).last() == value@);
        }
        let ghost start = text::texts(old(scopes)@);
        let ghost earlier = order_terms_scopes(all.take(i as int));
        collect_expr_relation_scopes(&value.expression, scopes);
        assert(start + earlier + expr_scopes(value@.expression) =~= start + (earlier + expr_scopes(
            value@.expression,
        )));
        i += 1;
    }
    assert(all.take(i as int) =~= all);
}

fn collect_aggregate_terms(values: &Vec<AggregateTerm>, scopes: &mut Vec<String>)
    ensures
        text::texts(final(scopes)@) == text::texts(old(scopes)@) + aggregate_terms_scopes(lir::aggregate_terms_view(values@)),
    decreases values,
{
    let ghost all = lir::aggregate_terms_view(values@);
    let mut i: usize = 0;
    proof {
        assert(all.take(0) =~= Seq::empty());
        assert(text::texts(scopes@) =~= text::texts(old(scopes)@) + Seq::empty());
    }
    while i < values.len()
        invariant
            i <= values.len(),
            all == lir::aggregate_terms_view(values@),
            text::texts(scopes@) == text::texts(old(scopes)@) + aggregate_terms_scopes(all.take(i as int)),
        decreases values.len() - i,
    {
        let value = &values[i];
        proof {
            assert(decreases_to!(*values => values[i as int]));
            assert(all.take(i + 1).drop_last() =~= all.take(i as int));
            assert(all.take(i + 1).last() == value@);
        }
        let ghost start = text::texts(old(scopes)@);
        let ghost earlier = aggregate_terms_scopes(all.take(i as int));
        match &value.argument {
            Some(argument) => collect_expr_relation_scopes(argument, scopes),
            None => {
                assert(start + earlier =~= start + earlier + Seq::<Seq<char>>::empty());
            },
        }
        assert(start + earlier + optional_scopes(value@.argument) =~= start + (earlier
            + optional_scopes(value@.argument)));
        i += 1;
    }
    assert(all.take(i as int) =~= all);
}

fn collect_arms(values: &Vec<BranchArm>, scopes: &mut Vec<String>)
    ensures
        text::texts(final(scopes)@) == text::texts(old(scopes)@) + arms_scopes(lir::branch_arms_view(values@)),
    decreases values,
{
    let ghost all = lir::branch_arms_view(values@);
    let mut i: usize = 0;
    proof {
        assert(all.take(0) =~= Seq::empty());
        assert(text::texts(scopes@) =~= text::texts(old(scopes)@) + Seq::empty());
    }
    while i < values.len()
        invariant
            i <= values.len(),
            all == lir::branch_arms_view(values@),
            text::texts(scopes@) == text::texts(old(scopes)@) + arms_scopes(all.take(i as int)),
        decreases values.len() - i,
    {
        let value = &values[i];
        proof {
            assert(decreases_to!(*values => values[i as int]));
            assert(all.take(i + 1).drop_last() =~= all.take(i as int));
            assert(all.take(i + 1).last() == value@);
        }
        let ghost start = text::texts(old(scopes)@);
        let ghost earlier = arms_scopes(all.take(i as int));
        collect_expr_relation_scopes(&value.when, scopes);
        collect_expr_relation_scopes(&value.value, scopes);
        assert(start + earlier + expr_scopes(value@.when) + expr_scopes(value@.value) =~= start + (
        earlier + (expr_scopes(value@.when) + expr_scopes(value@.value))));
        i += 1;
    }
    assert(all.take(i as int) =~= all);
}

fn collect_relations(values: &Vec<Relation>, scopes: &mut Vec<String>)
    ensures
        text::texts(final(scopes)@) == text::texts(old(scopes)@) + relations_scopes(lir::relations_view(values@)),
    decreases values,
{
    let ghost all = lir::relations_view(values@);
    let mut i: usize = 0;
    proof {
        assert(all.take(0) =~= Seq::empty());
        assert(text::texts(scopes@) =~= text::texts(old(scopes)@) + Seq::empty());
    }
    while i < values.len()
        invariant
            i <= values.len(),
            all == lir::relations_view(values@),
            text::texts(scopes@) == text::texts(old(scopes)@) + relations_scopes(all.take(i as int)),
        decreases values.len() - i,
    {
        let value = &values[i];
        proof {
            assert(decreases_to!(*values => values[i as int]));
            assert(all.take(i + 1).drop_last() =~= all.take(i as int));
            assert(all.take(i + 1).last() == value@);
        }
        let ghost start = text::texts(old(scopes)@);
        let ghost earlier = relations_scopes(all.take(i as int));
        collect_relation_scopes(value, scopes);
        assert(start + earlier + relation_scopes(value@) =~= start + (earlier + relation_scopes(
            value@,
        )));
        i += 1;
    }
    assert(all.take(i as int) =~= all);
}

/// A scope and the name that takes its place.
pub struct Replacement {
    pub from: String,
    pub to: String,
}

/// The value of a [`Replacement`].
pub struct ReplacementView {
    pub from: Seq<char>,
    pub to: Seq<char>,
}

impl View for Replacement {
    type V = ReplacementView;

    open spec fn view(&self) -> ReplacementView {
        ReplacementView { from: self.from@, to: self.to@ }
    }
}

pub open spec fn replacements_view(values: Seq<Replacement>) -> Seq<ReplacementView> {
    Seq::new(values.len(), |i: int| values[i]@)
}

/// The name that a scope goes by after a renaming.
pub open spec fn renamed(scope: Seq<char>, replacements: Seq<ReplacementView>) -> Seq<char>
    decreases replacements.len(),
{
    if replacements.len() == 0 {
        scope
    } else if replacements[0].from == scope {
        replacements[0].to
    } else {
        renamed(scope, replacements.skip(1))
    }
}

/// An optional scope after a renaming.
pub open spec fn renamed_option(
    scope: Option<Seq<char>>,
    replacements: Seq<ReplacementView>,
) -> Option<Seq<char>> {
    match scope {
        Some(scope) => Some(renamed(scope, replacements)),
        None => None,
    }
}

/// A relation with its scopes renamed, wherever they are introduced or used.
pub open spec fn renamed_relation(
    relation: RelationView,
    replacements: Seq<ReplacementView>,
) -> RelationView
    decreases relation,
{
    match relation {
        RelationView::Scan { table, scope } => RelationView::Scan {
            table,
            scope: renamed(scope, replacements),
        },
        RelationView::Rows { scope, columns, values } => RelationView::Rows {
            scope: renamed(scope, replacements),
            columns,
            values,
        },
        RelationView::Ref { binding, scope } => RelationView::Ref {
            binding,
            scope: renamed(scope, replacements),
        },
        RelationView::RecursiveRef { binding, scope } => RelationView::RecursiveRef {
            binding,
            scope: renamed(scope, replacements),
        },
        RelationView::Filter { input, predicate } => RelationView::Filter {
            input: Box::new(renamed_relation(*input, replacements)),
            predicate: renamed_expr(predicate, replacements),
        },
        RelationView::Project { input, scope, spread, fields } => RelationView::Project {
            input: Box::new(renamed_relation(*input, replacements)),
            scope: renamed_option(scope, replacements),
            spread: Seq::new(spread.len(), |i: int| renamed(spread[i], replacements)),
            fields: renamed_project_fields(fields, replacements),
        },
        RelationView::Join { left, right, kind, on } => RelationView::Join {
            left: Box::new(renamed_relation(*left, replacements)),
            right: Box::new(renamed_relation(*right, replacements)),
            kind,
            on: renamed_expr(on, replacements),
        },
        RelationView::Concatenate { scope, inputs } => RelationView::Concatenate {
            scope: renamed(scope, replacements),
            inputs: renamed_relations(inputs, replacements),
        },
        RelationView::Intersect { scope, left, right, quantifier } => RelationView::Intersect {
            scope: renamed(scope, replacements),
            left: Box::new(renamed_relation(*left, replacements)),
            right: Box::new(renamed_relation(*right, replacements)),
            quantifier,
        },
        RelationView::Except { scope, left, right, quantifier } => RelationView::Except {
            scope: renamed(scope, replacements),
            left: Box::new(renamed_relation(*left, replacements)),
            right: Box::new(renamed_relation(*right, replacements)),
            quantifier,
        },
        RelationView::Aggregate { input, scope, groups, terms } => RelationView::Aggregate {
            input: Box::new(renamed_relation(*input, replacements)),
            scope: renamed_option(scope, replacements),
            groups: renamed_group_terms(groups, replacements),
            terms: renamed_aggregate_terms(terms, replacements),
        },
        RelationView::Order { input, terms } => RelationView::Order {
            input: Box::new(renamed_relation(*input, replacements)),
            terms: renamed_order_terms(terms, replacements),
        },
        RelationView::Slice { input, offset, limit } => RelationView::Slice {
            input: Box::new(renamed_relation(*input, replacements)),
            offset,
            limit,
        },
        RelationView::Distinct(input) => RelationView::Distinct(
            Box::new(renamed_relation(*input, replacements)),
        ),
        RelationView::Recursive { anchor, step, accumulation } => RelationView::Recursive {
            anchor: Box::new(renamed_relation(*anchor, replacements)),
            step: Box::new(renamed_relation(*step, replacements)),
            accumulation,
        },
    }
}

/// An expression with its scopes renamed.
pub open spec fn renamed_expr(expression: ExprView, replacements: Seq<ReplacementView>) -> ExprView
    decreases expression,
{
    match expression {
        ExprView::Literal(literal) => ExprView::Literal(literal),
        ExprView::Column { scope, name } => ExprView::Column {
            scope: renamed(scope, replacements),
            name,
        },
        ExprView::Unary { op, expression } => ExprView::Unary {
            op,
            expression: Box::new(renamed_expr(*expression, replacements)),
        },
        ExprView::Binary { op, left, right } => ExprView::Binary {
            op,
            left: Box::new(renamed_expr(*left, replacements)),
            right: Box::new(renamed_expr(*right, replacements)),
        },
        ExprView::Cast { expression, to } => ExprView::Cast {
            expression: Box::new(renamed_expr(*expression, replacements)),
            to,
        },
        ExprView::Branch { arms, otherwise } => ExprView::Branch {
            arms: renamed_arms(arms, replacements),
            otherwise: Box::new(renamed_expr(*otherwise, replacements)),
        },
        ExprView::TextMatch { value, parts, comparison } => ExprView::TextMatch {
            value: Box::new(renamed_expr(*value, replacements)),
            parts,
            comparison,
        },
        ExprView::Exists(relation) => ExprView::Exists(
            Box::new(renamed_relation(*relation, replacements)),
        ),
        ExprView::First(relation) => ExprView::First(
            Box::new(renamed_relation(*relation, replacements)),
        ),
        ExprView::Scalar(relation) => ExprView::Scalar(
            Box::new(renamed_relation(*relation, replacements)),
        ),
        ExprView::Array(relation) => ExprView::Array(
            Box::new(renamed_relation(*relation, replacements)),
        ),
    }
}

pub open spec fn renamed_optional(
    expression: Option<ExprView>,
    replacements: Seq<ReplacementView>,
) -> Option<ExprView>
    decreases expression,
{
    match expression {
        Some(expression) => Some(renamed_expr(expression, replacements)),
        None => None,
    }
}

pub open spec fn renamed_project_fields(
    values: Seq<ProjectFieldView>,
    replacements: Seq<ReplacementView>,
) -> Seq<ProjectFieldView>
    decreases values,
{
    Seq::new(
        values.len(),
        |i: int|
            if 0 <= i < values.len() {
                ProjectFieldView {
                    name: values[i].name,
                    expression: renamed_expr(values[i].expression, replacements),
                }
            } else {
                arbitrary()
            },
    )
}

pub open spec fn renamed_group_terms(
    values: Seq<GroupTermView>,
    replacements: Seq<ReplacementView>,
) -> Seq<GroupTermView>
    decreases values,
{
    Seq::new(
        values.len(),
        |i: int|
            if 0 <= i < values.len() {
                GroupTermView {
                    name: values[i].name,
                    expression: renamed_expr(values[i].expression, replacements),
                }
            } else {
                arbitrary()
            },
    )
}

pub open spec fn renamed_order_terms(
    values: Seq<OrderTermView>,
    replacements: Seq<ReplacementView>,
) -> Seq<OrderTermView>
    decreases values,
{
    Seq::new(
        values.len(),
        |i: int|
            if 0 <= i < values.len() {
                OrderTermView {
                    expression: renamed_expr(values[i].expression, replacements),
                    descending: values[i].descending,
                }
            } else {
                arbitrary()
            },
    )
}

pub open spec fn renamed_aggregate_terms(
    values: Seq<AggregateTermView>,
    replacements: Seq<ReplacementView>,
) -> Seq<AggregateTermView>
    decreases values,
{
    Seq::new(
        values.len(),
        |i: int|
            if 0 <= i < values.len() {
                AggregateTermView {
                    function: values[i].function,
                    argument: renamed_optional(values[i].argument, replacements),
                    name: values[i].name,
                }
            } else {
                arbitrary()
            },
    )
}

pub open spec fn renamed_arms(
    values: Seq<BranchArmView>,
    replacements: Seq<ReplacementView>,
) -> Seq<BranchArmView>
    decreases values,
{
    Seq::new(
        values.len(),
        |i: int|
            if 0 <= i < values.len() {
                BranchArmView {
                    when: renamed_expr(values[i].when, replacements),
                    value: renamed_expr(values[i].value, replacements),
                }
            } else {
                arbitrary()
            },
    )
}

pub open spec fn renamed_relations(
    values: Seq<RelationView>,
    replacements: Seq<ReplacementView>,
) -> Seq<RelationView>
    decreases values,
{
    Seq::new(
        values.len(),
        |i: int|
            if 0 <= i < values.len() {
                renamed_relation(values[i], replacements)
            } else {
                arbitrary()
            },
    )
}

/// The name that a scope goes by after a renaming.
pub fn remap_scope(scope: &str, replacements: &Vec<Replacement>) -> (result: String)
    ensures
        result@ == renamed(scope@, replacements_view(replacements@)),
{
    let ghost all = replacements_view(replacements@);
    let mut i: usize = 0;
    assert(all.skip(0) =~= all);
    while i < replacements.len()
        invariant
            i <= replacements.len(),
            all == replacements_view(replacements@),
            renamed(scope@, all) == renamed(scope@, all.skip(i as int)),
        decreases replacements.len() - i,
    {
        assert(all.skip(i as int)[0] == replacements@[i as int]@);
        if same_text(replacements[i].from.as_str(), scope) {
            return replacements[i].to.clone();
        }
        assert(all.skip(i as int).skip(1) =~= all.skip(i + 1));
        i += 1;
    }
    scope.to_owned()
}

fn remap_option(scope: &Option<String>, replacements: &Vec<Replacement>) -> (result: Option<String>)
    ensures
        text::text_option(result) == renamed_option(
            text::text_option(*scope),
            replacements_view(replacements@),
        ),
{
    match scope {
        Some(scope) => Some(remap_scope(scope.as_str(), replacements)),
        None => None,
    }
}

fn remap_names(names: &Vec<String>, replacements: &Vec<Replacement>) -> (result: Vec<String>)
    ensures
        text::texts(result@) == Seq::new(
            text::texts(names@).len(),
            |i: int| renamed(text::texts(names@)[i], replacements_view(replacements@)),
        ),
{
    let mut result: Vec<String> = Vec::new();
    let mut i: usize = 0;
    while i < names.len()
        invariant
            i <= names.len(),
            result.len() == i,
            forall|k: int|
                0 <= k < i ==> (#[trigger] result@[k])@ == renamed(
                    names@[k]@,
                    replacements_view(replacements@),
                ),
        decreases names.len() - i,
    {
        result.push(remap_scope(names[i].as_str(), replacements));
        i += 1;
    }
    assert(text::texts(result@) =~= Seq::new(
        text::texts(names@).len(),
        |i: int| renamed(text::texts(names@)[i], replacements_view(replacements@)),
    ));
    result
}

/// A relation with its scopes renamed.
pub fn remap_relation_scopes(relation: &Relation, replacements: &Vec<Replacement>) -> (result: Relation)
    ensures
        result@ == renamed_relation(relation@, replacements_view(replacements@)),
    decreases relation,
{
    match relation {
        Relation::Scan { table, scope } => Relation::Scan {
            table: table.clone(),
            scope: remap_scope(scope.as_str(), replacements),
        },
        Relation::Rows { scope, columns, values } => Relation::Rows {
            scope: remap_scope(scope.as_str(), replacements),
            columns: lir::copy_rows_columns(columns),
            values: lir::copy_raw_scalar_rows(values),
        },
        Relation::Ref { binding, scope } => Relation::Ref {
            binding: binding.clone(),
            scope: remap_scope(scope.as_str(), replacements),
        },
        Relation::RecursiveRef { binding, scope } => Relation::RecursiveRef {
            binding: binding.clone(),
            scope: remap_scope(scope.as_str(), replacements),
        },
        Relation::Filter { input, predicate } => Relation::Filter {
            input: Box::new(remap_relation_scopes(&**input, replacements)),
            predicate: remap_expr_scopes(predicate, replacements),
        },
        Relation::Project { input, scope, spread, fields } => Relation::Project {
            input: Box::new(remap_relation_scopes(&**input, replacements)),
            scope: remap_option(scope, replacements),
            spread: remap_names(spread, replacements),
            fields: remap_project_fields(fields, replacements),
        },
        Relation::Join { left, right, kind, on } => Relation::Join {
            left: Box::new(remap_relation_scopes(&**left, replacements)),
            right: Box::new(remap_relation_scopes(&**right, replacements)),
            kind: *kind,
            on: remap_expr_scopes(on, replacements),
        },
        Relation::Concatenate { scope, inputs } => Relation::Concatenate {
            scope: remap_scope(scope.as_str(), replacements),
            inputs: remap_relations(inputs, replacements),
        },
        Relation::Intersect { scope, left, right, quantifier } => Relation::Intersect {
            scope: remap_scope(scope.as_str(), replacements),
            left: Box::new(remap_relation_scopes(&**left, replacements)),
            right: Box::new(remap_relation_scopes(&**right, replacements)),
            quantifier: *quantifier,
        },
        Relation::Except { scope, left, right, quantifier } => Relation::Except {
            scope: remap_scope(scope.as_str(), replacements),
            left: Box::new(remap_relation_scopes(&**left, replacements)),
            right: Box::new(remap_relation_scopes(&**right, replacements)),
            quantifier: *quantifier,
        },
        Relation::Aggregate { input, scope, groups, terms } => Relation::Aggregate {
            input: Box::new(remap_relation_scopes(&**input, replacements)),
            scope: remap_option(scope, replacements),
            groups: remap_group_terms(groups, replacements),
            terms: remap_aggregate_terms(terms, replacements),
        },
        Relation::Order { input, terms } => Relation::Order {
            input: Box::new(remap_relation_scopes(&**input, replacements)),
            terms: remap_order_terms(terms, replacements),
        },
        Relation::Slice { input, offset, limit } => Relation::Slice {
            input: Box::new(remap_relation_scopes(&**input, replacements)),
            offset: *offset,
            limit: *limit,
        },
        Relation::Distinct(input) => Relation::Distinct(
            Box::new(remap_relation_scopes(&**input, replacements)),
        ),
        Relation::Recursive { anchor, step, accumulation } => Relation::Recursive {
            anchor: Box::new(remap_relation_scopes(&**anchor, replacements)),
            step: Box::new(remap_relation_scopes(&**step, replacements)),
            accumulation: *accumulation,
        },
    }
}

/// An expression with its scopes renamed.
pub fn remap_expr_scopes(expression: &Expr, replacements: &Vec<Replacement>) -> (result: Expr)
    ensures
        result@ == renamed_expr(expression@, replacements_view(replacements@)),
    decreases expression,
{
    match expression {
        Expr::Literal(literal) => Expr::Literal(literal.clone()),
        Expr::Column { scope, name } => Expr::Column {
            scope: remap_scope(scope.as_str(), replacements),
            name: name.clone(),
        },
        Expr::Unary { op, expression } => Expr::Unary {
            op: *op,
            expression: Box::new(remap_expr_scopes(&**expression, replacements)),
        },
        Expr::Binary { op, left, right } => Expr::Binary {
            op: *op,
            left: Box::new(remap_expr_scopes(&**left, replacements)),
            right: Box::new(remap_expr_scopes(&**right, replacements)),
        },
        Expr::Cast { expression, to } => Expr::Cast {
            expression: Box::new(remap_expr_scopes(&**expression, replacements)),
            to: *to,
        },
        Expr::Branch { arms, otherwise } => Expr::Branch {
            arms: remap_arms(arms, replacements),
            otherwise: Box::new(remap_expr_scopes(&**otherwise, replacements)),
        },
        Expr::TextMatch { value, parts, comparison } => Expr::TextMatch {
            value: Box::new(remap_expr_scopes(&**value, replacements)),
            parts: lir::copy_text_match_parts(parts),
            comparison: *comparison,
        },
        Expr::Exists(relation) => Expr::Exists(
            Box::new(remap_relation_scopes(&**relation, replacements)),
        ),
        Expr::First(relation) => Expr::First(
            Box::new(remap_relation_scopes(&**relation, replacements)),
        ),
        Expr::Scalar(relation) => Expr::Scalar(
            Box::new(remap_relation_scopes(&**relation, replacements)),
        ),
        Expr::Array(relation) => Expr::Array(
            Box::new(remap_relation_scopes(&**relation, replacements)),
        ),
    }
}

fn remap_optional(expression: &Option<Expr>, replacements: &Vec<Replacement>) -> (result: Option<Expr>)
    ensures
        lir::optional_expr_view(result) == renamed_optional(
            lir::optional_expr_view(*expression),
            replacements_view(replacements@),
        ),
    decreases expression,
{
    match expression {
        Some(expression) => Some(remap_expr_scopes(expression, replacements)),
        None => None,
    }
}

fn remap_project_fields(values: &Vec<ProjectField>, replacements: &Vec<Replacement>) -> (result: Vec<ProjectField>)
    ensures
        lir::project_fields_view(result@) == renamed_project_fields(
            lir::project_fields_view(values@),
            replacements_view(replacements@),
        ),
    decreases values,
{
    let ghost wanted = renamed_project_fields(lir::project_fields_view(values@), replacements_view(replacements@));
    let mut result: Vec<ProjectField> = Vec::new();
    let mut i: usize = 0;
    while i < values.len()
        invariant
            i <= values.len(),
            result.len() == i,
            wanted == renamed_project_fields(lir::project_fields_view(values@), replacements_view(replacements@)),
            forall|k: int| 0 <= k < i ==> (#[trigger] result@[k])@ == wanted[k],
        decreases values.len() - i,
    {
        let value = &values[i];
        assert(decreases_to!(*values => values[i as int]));
        result.push(ProjectField {
            name: value.name.clone(),
            expression: remap_expr_scopes(&value.expression, replacements),
        });
        i += 1;
    }
    assert(lir::project_fields_view(result@) =~= wanted);
    result
}

/// Values with their scopes renamed.
pub(crate) fn remap_group_terms(values: &Vec<GroupTerm>, replacements: &Vec<Replacement>) -> (result: Vec<GroupTerm>)
    ensures
        lir::group_terms_view(result@) == renamed_group_terms(
            lir::group_terms_view(values@),
            replacements_view(replacements@),
        ),
    decreases values,
{
    let ghost wanted = renamed_group_terms(lir::group_terms_view(values@), replacements_view(replacements@));
    let mut result: Vec<GroupTerm> = Vec::new();
    let mut i: usize = 0;
    while i < values.len()
        invariant
            i <= values.len(),
            result.len() == i,
            wanted == renamed_group_terms(lir::group_terms_view(values@), replacements_view(replacements@)),
            forall|k: int| 0 <= k < i ==> (#[trigger] result@[k])@ == wanted[k],
        decreases values.len() - i,
    {
        let value = &values[i];
        assert(decreases_to!(*values => values[i as int]));
        result.push(GroupTerm {
            name: value.name.clone(),
            expression: remap_expr_scopes(&value.expression, replacements),
        });
        i += 1;
    }
    assert(lir::group_terms_view(result@) =~= wanted);
    result
}

fn remap_order_terms(values: &Vec<OrderTerm>, replacements: &Vec<Replacement>) -> (result: Vec<OrderTerm>)
    ensures
        lir::order_terms_view(result@) == renamed_order_terms(
            lir::order_terms_view(values@),
            replacements_view(replacements@),
        ),
    decreases values,
{
    let ghost wanted = renamed_order_terms(lir::order_terms_view(values@), replacements_view(replacements@));
    let mut result: Vec<OrderTerm> = Vec::new();
    let mut i: usize = 0;
    while i < values.len()
        invariant
            i <= values.len(),
            result.len() == i,
            wanted == renamed_order_terms(lir::order_terms_view(values@), replacements_view(replacements@)),
            forall|k: int| 0 <= k < i ==> (#[trigger] result@[k])@ == wanted[k],
        decreases values.len() - i,
    {
        let value = &values[i];
        assert(decreases_to!(*values => values[i as int]));
        result.push(OrderTerm {
            expression: remap_expr_scopes(&value.expression, replacements),
            descending: value.descending,
        });
        i += 1;
    }
    assert(lir::order_terms_view(result@) =~= wanted);
    result
}

/// Values with their scopes renamed.
pub(crate) fn remap_aggregate_terms(values: &Vec<AggregateTerm>, replacements: &Vec<Replacement>) -> (result: Vec<AggregateTerm>)
    ensures
        lir::aggregate_terms_view(result@) == renamed_aggregate_terms(
            lir::aggregate_terms_view(values@),
            replacements_view(replacements@),
        ),
    decreases values,
{
    let ghost wanted = renamed_aggregate_terms(lir::aggregate_terms_view(values@), replacements_view(replacements@));
    let mut result: Vec<AggregateTerm> = Vec::new();
    let mut i: usize = 0;
    while i < values.len()
        invariant
            i <= values.len(),
            result.len() == i,
            wanted == renamed_aggregate_terms(lir::aggregate_terms_view(values@), replacements_view(replacements@)),
            forall|k: int| 0 <= k < i ==> (#[trigger] result@[k])@ == wanted[k],
        decreases values.len() - i,
    {
        let value = &values[i];
        assert(decreases_to!(*values => values[i as int]));
        result.push(AggregateTerm {
            function: value.function,
            argument: remap_optional(&value.argument, replacements),
            name: value.name.clone(),
        });
        i += 1;
    }
    assert(lir::aggregate_terms_view(result@) =~= wanted);
    result
}

fn remap_arms(values: &Vec<BranchArm>, replacements: &Vec<Replacement>) -> (result: Vec<BranchArm>)
    ensures
        lir::branch_arms_view(result@) == renamed_arms(
            lir::branch_arms_view(values@),
            replacements_view(replacements@),
        ),
    decreases values,
{
    let ghost wanted = renamed_arms(lir::branch_arms_view(values@), replacements_view(replacements@));
    let mut result: Vec<BranchArm> = Vec::new();
    let mut i: usize = 0;
    while i < values.len()
        invariant
            i <= values.len(),
            result.len() == i,
            wanted == renamed_arms(lir::branch_arms_view(values@), replacements_view(replacements@)),
            forall|k: int| 0 <= k < i ==> (#[trigger] result@[k])@ == wanted[k],
        decreases values.len() - i,
    {
        let value = &values[i];
        assert(decreases_to!(*values => values[i as int]));
        result.push(BranchArm {
            when: remap_expr_scopes(&value.when, replacements),
            value: remap_expr_scopes(&value.value, replacements),
        });
        i += 1;
    }
    assert(lir::branch_arms_view(result@) =~= wanted);
    result
}

fn remap_relations(values: &Vec<Relation>, replacements: &Vec<Replacement>) -> (result: Vec<Relation>)
    ensures
        lir::relations_view(result@) == renamed_relations(
            lir::relations_view(values@),
            replacements_view(replacements@),
        ),
    decreases values,
{
    let ghost wanted = renamed_relations(lir::relations_view(values@), replacements_view(replacements@));
    let mut result: Vec<Relation> = Vec::new();
    let mut i: usize = 0;
    while i < values.len()
        invariant
            i <= values.len(),
            result.len() == i,
            wanted == renamed_relations(lir::relations_view(values@), replacements_view(replacements@)),
            forall|k: int| 0 <= k < i ==> (#[trigger] result@[k])@ == wanted[k],
        decreases values.len() - i,
    {
        let value = &values[i];
        assert(decreases_to!(*values => values[i as int]));
        result.push(remap_relation_scopes(value, replacements));
        i += 1;
    }
    assert(lir::relations_view(result@) =~= wanted);
    result
}

/// Whether a text comes before another in code point order.
pub open spec fn comes_before(left: Seq<char>, right: Seq<char>) -> bool
    decreases left.len(),
{
    if right.len() == 0 {
        false
    } else if left.len() == 0 {
        true
    } else if left[0] == right[0] {
        comes_before(left.skip(1), right.skip(1))
    } else {
        left[0] < right[0]
    }
}

fn before(left: &str, right: &str) -> (yes: bool)
    ensures
        yes == comes_before(left@, right@),
{
    let mine = characters(left);
    let theirs = characters(right);
    let mut i: usize = 0;
    proof {
        assert(mine@.skip(0) =~= mine@);
        assert(theirs@.skip(0) =~= theirs@);
    }
    while i < mine.len() && i < theirs.len()
        invariant
            i <= mine.len(),
            i <= theirs.len(),
            mine@ == left@,
            theirs@ == right@,
            comes_before(mine@.skip(i as int), theirs@.skip(i as int)) == comes_before(left@, right@),
        decreases mine.len() - i,
    {
        proof {
            assert(mine@.skip(i as int)[0] == mine@[i as int]);
            assert(theirs@.skip(i as int)[0] == theirs@[i as int]);
            assert(mine@.skip(i as int).skip(1) =~= mine@.skip(i + 1));
            assert(theirs@.skip(i as int).skip(1) =~= theirs@.skip(i + 1));
        }
        if mine[i] != theirs[i] {
            return mine[i] < theirs[i];
        }
        i += 1;
    }
    i < theirs.len()
}

/// A name put into an ordered run of names, unless it is there.
pub open spec fn with_name(names: Seq<Seq<char>>, name: Seq<char>) -> Seq<Seq<char>>
    decreases names.len(),
{
    if names.len() == 0 {
        seq![name]
    } else if names[0] == name {
        names
    } else if comes_before(name, names[0]) {
        seq![name] + names
    } else {
        seq![names[0]] + with_name(names.skip(1), name)
    }
}

/// Names in order, each once.
pub open spec fn ordered_names(names: Seq<Seq<char>>) -> Seq<Seq<char>>
    decreases names.len(),
{
    if names.len() == 0 {
        Seq::empty()
    } else {
        with_name(ordered_names(names.drop_last()), names.last())
    }
}

fn insert_name(names: &mut Vec<String>, name: &String)
    ensures
        text::texts(final(names)@) == with_name(text::texts(old(names)@), name@),
{
    let ghost all = text::texts(names@);
    let mut i: usize = 0;
    proof {
        assert(all.skip(0) =~= all);
        assert(all.take(0) + with_name(all, name@) =~= with_name(all, name@));
    }
    while i < names.len()
        invariant
            i <= names.len(),
            names@ == old(names)@,
            all == text::texts(names@),
            with_name(all, name@) == all.take(i as int) + with_name(all.skip(i as int), name@),
        decreases names.len() - i,
    {
        let ghost rest = all.skip(i as int);
        proof {
            assert(rest[0] == all[i as int]);
            assert(rest.skip(1) =~= all.skip(i + 1));
        }
        if same_text(names[i].as_str(), name.as_str()) {
            assert(all.take(i as int) + rest =~= all);
            return;
        }
        if before(name.as_str(), names[i].as_str()) {
            names.insert(i, name.clone());
            assert(text::texts(names@) =~= all.take(i as int) + (seq![name@] + rest));
            return;
        }
        assert(all.take(i as int) + (seq![rest[0]] + with_name(rest.skip(1), name@)) =~= all.take(i + 1)
            + with_name(all.skip(i + 1), name@));
        i += 1;
    }
    names.push(name.clone());
    proof {
        assert(all.skip(i as int) =~= Seq::empty());
        assert(text::texts(names@) =~= all.take(i as int) + seq![name@]);
    }
}

/// Names in order, each once.
pub fn order_names(names: &Vec<String>) -> (ordered: Vec<String>)
    ensures
        text::texts(ordered@) == ordered_names(text::texts(names@)),
{
    let ghost all = text::texts(names@);
    let mut ordered: Vec<String> = Vec::new();
    let mut i: usize = 0;
    proof {
        assert(all.take(0) =~= Seq::empty());
        assert(text::texts(ordered@) =~= Seq::empty());
    }
    while i < names.len()
        invariant
            i <= names.len(),
            all == text::texts(names@),
            text::texts(ordered@) == ordered_names(all.take(i as int)),
        decreases names.len() - i,
    {
        proof {
            assert(all.take(i + 1).drop_last() =~= all.take(i as int));
            assert(all.take(i + 1).last() == names@[i as int]@);
        }
        insert_name(&mut ordered, &names[i]);
        i += 1;
    }
    assert(all.take(i as int) =~= all);
    ordered
}

proof fn lemma_comes_before_total(left: Seq<char>, right: Seq<char>)
    ensures
        left == right || comes_before(left, right) || comes_before(right, left),
        !(comes_before(left, right) && comes_before(right, left)),
        comes_before(left, right) ==> left != right,
    decreases left.len(),
{
    if left.len() > 0 && right.len() > 0 {
        if left[0] == right[0] {
            lemma_comes_before_total(left.skip(1), right.skip(1));
            if left.skip(1) == right.skip(1) {
                assert(left =~= seq![left[0]] + left.skip(1));
                assert(right =~= seq![right[0]] + right.skip(1));
            }
        }
    } else if left.len() == 0 && right.len() == 0 {
        assert(left =~= right);
    }
}

proof fn lemma_comes_before_transitive(first: Seq<char>, second: Seq<char>, third: Seq<char>)
    requires
        comes_before(first, second),
        comes_before(second, third),
    ensures
        comes_before(first, third),
    decreases first.len(),
{
    if first.len() > 0 && second.len() > 0 && third.len() > 0 && first[0] == second[0] && second[0]
        == third[0] {
        lemma_comes_before_transitive(first.skip(1), second.skip(1), third.skip(1));
    }
}

/// Whether names come strictly one after the other.
pub open spec fn strictly_ordered(names: Seq<Seq<char>>) -> bool {
    forall|i: int, j: int|
        0 <= i < j < names.len() ==> comes_before(#[trigger] names[i], #[trigger] names[j])
}

proof fn lemma_with_name(names: Seq<Seq<char>>, name: Seq<char>)
    requires
        strictly_ordered(names),
    ensures
        strictly_ordered(with_name(names, name)),
        forall|other: Seq<char>| #[trigger]
            with_name(names, name).contains(other) <==> names.contains(other) || other == name,
    decreases names.len(),
{
    let result = with_name(names, name);
    if names.len() == 0 {
        assert(result[0] == name);
        assert forall|other: Seq<char>| #[trigger] result.contains(other) <==> names.contains(other)
            || other == name by {
            if other == name {
                assert(result[0] == other);
            }
        }
    } else if names[0] == name {
        assert forall|other: Seq<char>| #[trigger] result.contains(other) <==> names.contains(other)
            || other == name by {
            if other == name {
                assert(names[0] == other);
            }
        }
    } else if comes_before(name, names[0]) {
        assert forall|i: int, j: int| 0 <= i < j < result.len() implies comes_before(
            #[trigger] result[i],
            #[trigger] result[j],
        ) by {
            if i == 0 {
                if j > 1 {
                    lemma_comes_before_transitive(name, names[0], names[j - 1]);
                }
            } else {
                assert(result[i] == names[i - 1] && result[j] == names[j - 1]);
            }
        }
        assert forall|other: Seq<char>| #[trigger] result.contains(other) <==> names.contains(other)
            || other == name by {
            if names.contains(other) {
                let k = choose|k: int| 0 <= k < names.len() && names[k] == other;
                assert(result[k + 1] == other);
            }
            if other == name {
                assert(result[0] == other);
            }
            if result.contains(other) {
                let k = choose|k: int| 0 <= k < result.len() && result[k] == other;
                if k > 0 {
                    assert(names[k - 1] == other);
                }
            }
        }
    } else {
        let rest = names.skip(1);
        assert forall|i: int, j: int| 0 <= i < j < rest.len() implies comes_before(
            #[trigger] rest[i],
            #[trigger] rest[j],
        ) by {
            assert(rest[i] == names[i + 1] && rest[j] == names[j + 1]);
        }
        lemma_with_name(rest, name);
        let tail = with_name(rest, name);
        lemma_comes_before_total(name, names[0]);
        assert forall|i: int, j: int| 0 <= i < j < result.len() implies comes_before(
            #[trigger] result[i],
            #[trigger] result[j],
        ) by {
            if i == 0 {
                let other = tail[j - 1];
                assert(tail.contains(other));
                if rest.contains(other) {
                    let k = choose|k: int| 0 <= k < rest.len() && rest[k] == other;
                    assert(names[k + 1] == other);
                }
            } else {
                assert(result[i] == tail[i - 1] && result[j] == tail[j - 1]);
            }
        }
        assert forall|other: Seq<char>| #[trigger] result.contains(other) <==> names.contains(other)
            || other == name by {
            if result.contains(other) {
                let k = choose|k: int| 0 <= k < result.len() && result[k] == other;
                if k == 0 {
                    assert(names[0] == other);
                } else {
                    assert(tail[k - 1] == other);
                    assert(tail.contains(other));
                    if rest.contains(other) {
                        let m = choose|m: int| 0 <= m < rest.len() && rest[m] == other;
                        assert(names[m + 1] == other);
                    }
                }
            }
            if names.contains(other) {
                let k = choose|k: int| 0 <= k < names.len() && names[k] == other;
                if k == 0 {
                    assert(result[0] == other);
                } else {
                    assert(rest[k - 1] == other);
                    assert(rest.contains(other));
                    assert(tail.contains(other));
                    let m = choose|m: int| 0 <= m < tail.len() && tail[m] == other;
                    assert(result[m + 1] == other);
                }
            }
            if other == name {
                assert(tail.contains(name));
                let m = choose|m: int| 0 <= m < tail.len() && tail[m] == name;
                assert(result[m + 1] == other);
            }
        }
    }
}

/// Ordering names keeps exactly the names that were there, each once and in
/// order.
pub proof fn ordering_keeps_the_names(names: Seq<Seq<char>>)
    ensures
        strictly_ordered(ordered_names(names)),
        forall|name: Seq<char>| #[trigger]
            ordered_names(names).contains(name) <==> names.contains(name),
    decreases names.len(),
{
    if names.len() > 0 {
        ordering_keeps_the_names(names.drop_last());
        lemma_with_name(ordered_names(names.drop_last()), names.last());
        assert forall|name: Seq<char>| #[trigger] ordered_names(names).contains(name)
            <==> names.contains(name) by {
            if names.contains(name) {
                let k = choose|k: int| 0 <= k < names.len() && names[k] == name;
                if k < names.len() - 1 {
                    assert(names.drop_last()[k] == name);
                }
            }
            if names.drop_last().contains(name) {
                let k = choose|k: int| 0 <= k < names.len() - 1 && names.drop_last()[k] == name;
                assert(names[k] == name);
            }
        }
    }
}

/// Renaming nothing leaves a relation as it is.
pub proof fn renaming_nothing_keeps_a_relation(relation: RelationView)
    ensures
        renamed_relation(relation, Seq::empty()) == relation,
    decreases relation,
{
    let none: Seq<ReplacementView> = Seq::empty();
    match relation {
        RelationView::Filter { input, predicate } => {
            renaming_nothing_keeps_a_relation(*input);
            renaming_nothing_keeps_an_expression(predicate);
        },
        RelationView::Project { input, scope, spread, fields } => {
            renaming_nothing_keeps_a_relation(*input);
            assert(Seq::new(spread.len(), |i: int| renamed(spread[i], none)) =~= spread);
            assert forall|i: int| 0 <= i < fields.len() implies #[trigger] renamed_project_fields(
                fields,
                none,
            )[i] == fields[i] by {
                renaming_nothing_keeps_an_expression(fields[i].expression);
            }
            assert(renamed_project_fields(fields, none) =~= fields);
        },
        RelationView::Join { left, right, kind, on } => {
            renaming_nothing_keeps_a_relation(*left);
            renaming_nothing_keeps_a_relation(*right);
            renaming_nothing_keeps_an_expression(on);
        },
        RelationView::Concatenate { scope, inputs } => {
            assert forall|i: int| 0 <= i < inputs.len() implies #[trigger] renamed_relations(
                inputs,
                none,
            )[i] == inputs[i] by {
                renaming_nothing_keeps_a_relation(inputs[i]);
            }
            assert(renamed_relations(inputs, none) =~= inputs);
        },
        RelationView::Intersect { scope, left, right, quantifier } => {
            renaming_nothing_keeps_a_relation(*left);
            renaming_nothing_keeps_a_relation(*right);
        },
        RelationView::Except { scope, left, right, quantifier } => {
            renaming_nothing_keeps_a_relation(*left);
            renaming_nothing_keeps_a_relation(*right);
        },
        RelationView::Aggregate { input, scope, groups, terms } => {
            renaming_nothing_keeps_a_relation(*input);
            assert forall|i: int| 0 <= i < groups.len() implies #[trigger] renamed_group_terms(
                groups,
                none,
            )[i] == groups[i] by {
                renaming_nothing_keeps_an_expression(groups[i].expression);
            }
            assert(renamed_group_terms(groups, none) =~= groups);
            assert forall|i: int| 0 <= i < terms.len() implies #[trigger] renamed_aggregate_terms(
                terms,
                none,
            )[i] == terms[i] by {
                match terms[i].argument {
                    Some(argument) => renaming_nothing_keeps_an_expression(argument),
                    None => {},
                }
            }
            assert(renamed_aggregate_terms(terms, none) =~= terms);
        },
        RelationView::Order { input, terms } => {
            renaming_nothing_keeps_a_relation(*input);
            assert forall|i: int| 0 <= i < terms.len() implies #[trigger] renamed_order_terms(
                terms,
                none,
            )[i] == terms[i] by {
                renaming_nothing_keeps_an_expression(terms[i].expression);
            }
            assert(renamed_order_terms(terms, none) =~= terms);
        },
        RelationView::Slice { input, offset, limit } => renaming_nothing_keeps_a_relation(*input),
        RelationView::Distinct(input) => renaming_nothing_keeps_a_relation(*input),
        RelationView::Recursive { anchor, step, accumulation } => {
            renaming_nothing_keeps_a_relation(*anchor);
            renaming_nothing_keeps_a_relation(*step);
        },
        _ => {},
    }
}

/// Renaming nothing leaves an expression as it is.
pub proof fn renaming_nothing_keeps_an_expression(expression: ExprView)
    ensures
        renamed_expr(expression, Seq::empty()) == expression,
    decreases expression,
{
    let none: Seq<ReplacementView> = Seq::empty();
    match expression {
        ExprView::Unary { op, expression } => renaming_nothing_keeps_an_expression(*expression),
        ExprView::Cast { expression, to } => renaming_nothing_keeps_an_expression(*expression),
        ExprView::Binary { op, left, right } => {
            renaming_nothing_keeps_an_expression(*left);
            renaming_nothing_keeps_an_expression(*right);
        },
        ExprView::Branch { arms, otherwise } => {
            renaming_nothing_keeps_an_expression(*otherwise);
            assert forall|i: int| 0 <= i < arms.len() implies #[trigger] renamed_arms(arms, none)[i]
                == arms[i] by {
                renaming_nothing_keeps_an_expression(arms[i].when);
                renaming_nothing_keeps_an_expression(arms[i].value);
            }
            assert(renamed_arms(arms, none) =~= arms);
        },
        ExprView::TextMatch { value, parts, comparison } => renaming_nothing_keeps_an_expression(*value),
        ExprView::Exists(relation) => renaming_nothing_keeps_a_relation(*relation),
        ExprView::First(relation) => renaming_nothing_keeps_a_relation(*relation),
        ExprView::Scalar(relation) => renaming_nothing_keeps_a_relation(*relation),
        ExprView::Array(relation) => renaming_nothing_keeps_a_relation(*relation),
        _ => {},
    }
}

/// Scopes, each by the name that it goes by after a renaming.
pub open spec fn all_renamed(scopes: Seq<Seq<char>>, m: Seq<ReplacementView>) -> Seq<Seq<char>> {
    Seq::new(scopes.len(), |i: int| renamed(scopes[i], m))
}

broadcast proof fn lemma_scopes_join(
    left: Seq<Seq<char>>,
    right: Seq<Seq<char>>,
    m: Seq<ReplacementView>,
)
    ensures
        #[trigger] all_renamed(left + right, m) == all_renamed(left, m) + all_renamed(right, m),
{
    assert(all_renamed(left + right, m) =~= all_renamed(left, m) + all_renamed(right, m));
}

/// The scopes of a renamed relation are its scopes renamed, one by one and in
/// order.
pub proof fn renaming_renames_the_scopes_of_a_relation(relation: RelationView, m: Seq<ReplacementView>)
    ensures
        relation_scopes(renamed_relation(relation, m)) == all_renamed(relation_scopes(relation), m),
    decreases relation,
{
    broadcast use lemma_scopes_join;

    match relation {
        RelationView::Filter { input, predicate } => {
            renaming_renames_the_scopes_of_a_relation(*input, m);
            renaming_renames_the_scopes_of_an_expression(predicate, m);
        },
        RelationView::Project { input, scope, spread, fields } => {
            renaming_renames_the_scopes_of_a_relation(*input, m);
            lemma_project_fields_scopes(fields, m);
        },
        RelationView::Join { left, right, kind, on } => {
            renaming_renames_the_scopes_of_a_relation(*left, m);
            renaming_renames_the_scopes_of_a_relation(*right, m);
            renaming_renames_the_scopes_of_an_expression(on, m);
        },
        RelationView::Concatenate { scope, inputs } => {
            lemma_relations_scopes(inputs, m);
        },
        RelationView::Intersect { scope, left, right, quantifier } => {
            renaming_renames_the_scopes_of_a_relation(*left, m);
            renaming_renames_the_scopes_of_a_relation(*right, m);
        },
        RelationView::Except { scope, left, right, quantifier } => {
            renaming_renames_the_scopes_of_a_relation(*left, m);
            renaming_renames_the_scopes_of_a_relation(*right, m);
        },
        RelationView::Aggregate { input, scope, groups, terms } => {
            renaming_renames_the_scopes_of_a_relation(*input, m);
            lemma_group_terms_scopes(groups, m);
            lemma_aggregate_terms_scopes(terms, m);
        },
        RelationView::Order { input, terms } => {
            renaming_renames_the_scopes_of_a_relation(*input, m);
            lemma_order_terms_scopes(terms, m);
        },
        RelationView::Slice { input, offset, limit } => renaming_renames_the_scopes_of_a_relation(*input, m),
        RelationView::Distinct(input) => renaming_renames_the_scopes_of_a_relation(*input, m),
        RelationView::Recursive { anchor, step, accumulation } => {
            renaming_renames_the_scopes_of_a_relation(*anchor, m);
            renaming_renames_the_scopes_of_a_relation(*step, m);
        },
        _ => {},
    }
    assert(relation_scopes(renamed_relation(relation, m)) =~= all_renamed(relation_scopes(relation), m));
}

/// The scopes inside a renamed expression are its scopes renamed, one by one and
/// in order.
pub proof fn renaming_renames_the_scopes_of_an_expression(expression: ExprView, m: Seq<ReplacementView>)
    ensures
        expr_scopes(renamed_expr(expression, m)) == all_renamed(expr_scopes(expression), m),
    decreases expression,
{
    broadcast use lemma_scopes_join;

    match expression {
        ExprView::Unary { op, expression } => renaming_renames_the_scopes_of_an_expression(*expression, m),
        ExprView::Cast { expression, to } => renaming_renames_the_scopes_of_an_expression(*expression, m),
        ExprView::Binary { op, left, right } => {
            renaming_renames_the_scopes_of_an_expression(*left, m);
            renaming_renames_the_scopes_of_an_expression(*right, m);
        },
        ExprView::Branch { arms, otherwise } => {
            renaming_renames_the_scopes_of_an_expression(*otherwise, m);
            lemma_arms_scopes(arms, m);
        },
        ExprView::TextMatch { value, parts, comparison } => renaming_renames_the_scopes_of_an_expression(*value, m),
        ExprView::Exists(relation) => renaming_renames_the_scopes_of_a_relation(*relation, m),
        ExprView::First(relation) => renaming_renames_the_scopes_of_a_relation(*relation, m),
        ExprView::Scalar(relation) => renaming_renames_the_scopes_of_a_relation(*relation, m),
        ExprView::Array(relation) => renaming_renames_the_scopes_of_a_relation(*relation, m),
        _ => {},
    }
    assert(expr_scopes(renamed_expr(expression, m)) =~= all_renamed(expr_scopes(expression), m));
}

proof fn lemma_project_fields_scopes(values: Seq<ProjectFieldView>, m: Seq<ReplacementView>)
    ensures
        project_fields_scopes(renamed_project_fields(values, m)) == all_renamed(project_fields_scopes(values), m),
    decreases values,
{
    broadcast use lemma_scopes_join;

    let renamed = renamed_project_fields(values, m);
    if values.len() > 0 {
        lemma_project_fields_scopes(values.drop_last(), m);
        renaming_renames_the_scopes_of_an_expression(values.last().expression, m);
        assert(renamed.drop_last() =~= renamed_project_fields(values.drop_last(), m));
        assert(renamed.last() == renamed[values.len() - 1]);
    }
    assert(project_fields_scopes(renamed) =~= all_renamed(project_fields_scopes(values), m));
}

proof fn lemma_group_terms_scopes(values: Seq<GroupTermView>, m: Seq<ReplacementView>)
    ensures
        group_terms_scopes(renamed_group_terms(values, m)) == all_renamed(group_terms_scopes(values), m),
    decreases values,
{
    broadcast use lemma_scopes_join;

    let renamed = renamed_group_terms(values, m);
    if values.len() > 0 {
        lemma_group_terms_scopes(values.drop_last(), m);
        renaming_renames_the_scopes_of_an_expression(values.last().expression, m);
        assert(renamed.drop_last() =~= renamed_group_terms(values.drop_last(), m));
        assert(renamed.last() == renamed[values.len() - 1]);
    }
    assert(group_terms_scopes(renamed) =~= all_renamed(group_terms_scopes(values), m));
}

proof fn lemma_order_terms_scopes(values: Seq<OrderTermView>, m: Seq<ReplacementView>)
    ensures
        order_terms_scopes(renamed_order_terms(values, m)) == all_renamed(order_terms_scopes(values), m),
    decreases values,
{
    broadcast use lemma_scopes_join;

    let renamed = renamed_order_terms(values, m);
    if values.len() > 0 {
        lemma_order_terms_scopes(values.drop_last(), m);
        renaming_renames_the_scopes_of_an_expression(values.last().expression, m);
        assert(renamed.drop_last() =~= renamed_order_terms(values.drop_last(), m));
        assert(renamed.last() == renamed[values.len() - 1]);
    }
    assert(order_terms_scopes(renamed) =~= all_renamed(order_terms_scopes(values), m));
}

proof fn lemma_aggregate_terms_scopes(values: Seq<AggregateTermView>, m: Seq<ReplacementView>)
    ensures
        aggregate_terms_scopes(renamed_aggregate_terms(values, m)) == all_renamed(aggregate_terms_scopes(values), m),
    decreases values,
{
    broadcast use lemma_scopes_join;

    let renamed = renamed_aggregate_terms(values, m);
    if values.len() > 0 {
        lemma_aggregate_terms_scopes(values.drop_last(), m);
        match values.last().argument {
            Some(argument) => renaming_renames_the_scopes_of_an_expression(argument, m),
            None => {},
        }
        assert(optional_scopes(renamed_optional(values.last().argument, m)) =~= all_renamed(
            optional_scopes(values.last().argument),
            m,
        ));
        assert(renamed.drop_last() =~= renamed_aggregate_terms(values.drop_last(), m));
        assert(renamed.last() == renamed[values.len() - 1]);
    }
    assert(aggregate_terms_scopes(renamed) =~= all_renamed(aggregate_terms_scopes(values), m));
}

proof fn lemma_arms_scopes(values: Seq<BranchArmView>, m: Seq<ReplacementView>)
    ensures
        arms_scopes(renamed_arms(values, m)) == all_renamed(arms_scopes(values), m),
    decreases values,
{
    broadcast use lemma_scopes_join;

    let renamed = renamed_arms(values, m);
    if values.len() > 0 {
        lemma_arms_scopes(values.drop_last(), m);
        renaming_renames_the_scopes_of_an_expression(values.last().when, m);
        renaming_renames_the_scopes_of_an_expression(values.last().value, m);
        assert(renamed.drop_last() =~= renamed_arms(values.drop_last(), m));
        assert(renamed.last() == renamed[values.len() - 1]);
    }
    assert(arms_scopes(renamed) =~= all_renamed(arms_scopes(values), m));
}

proof fn lemma_relations_scopes(values: Seq<RelationView>, m: Seq<ReplacementView>)
    ensures
        relations_scopes(renamed_relations(values, m)) == all_renamed(relations_scopes(values), m),
    decreases values,
{
    broadcast use lemma_scopes_join;

    let renamed = renamed_relations(values, m);
    if values.len() > 0 {
        lemma_relations_scopes(values.drop_last(), m);
        renaming_renames_the_scopes_of_a_relation(values.last(), m);
        assert(renamed.drop_last() =~= renamed_relations(values.drop_last(), m));
        assert(renamed.last() == renamed[values.len() - 1]);
    }
    assert(relations_scopes(renamed) =~= all_renamed(relations_scopes(values), m));
}

/// A use of a column.
pub struct Reference {
    pub scope: Seq<char>,
    pub name: Seq<char>,
}

/// The columns that a relation uses, at any depth and in order.
pub open spec fn relation_references(relation: RelationView) -> Seq<Reference>
    decreases relation,
{
    match relation {
        RelationView::Scan { .. } => Seq::empty(),
        RelationView::Rows { .. } => Seq::empty(),
        RelationView::Ref { .. } => Seq::empty(),
        RelationView::RecursiveRef { .. } => Seq::empty(),
        RelationView::Filter { input, predicate } => relation_references(*input) + expr_references(predicate),
        RelationView::Project { input, fields, .. } => relation_references(*input)
            + project_fields_references(fields),
        RelationView::Join { left, right, on, .. } => relation_references(*left) + relation_references(*right)
            + expr_references(on),
        RelationView::Concatenate { inputs, .. } => relations_references(inputs),
        RelationView::Intersect { left, right, .. } => relation_references(*left)
            + relation_references(*right),
        RelationView::Except { left, right, .. } => relation_references(*left)
            + relation_references(*right),
        RelationView::Aggregate { input, groups, terms, .. } => relation_references(*input)
            + group_terms_references(groups) + aggregate_terms_references(terms),
        RelationView::Order { input, terms } => relation_references(*input) + order_terms_references(terms),
        RelationView::Slice { input, .. } => relation_references(*input),
        RelationView::Distinct(input) => relation_references(*input),
        RelationView::Recursive { anchor, step, .. } => relation_references(*anchor) + relation_references(
            *step,
        ),
    }
}

/// The columns that an expression uses, at any depth and in order.
pub open spec fn expr_references(expression: ExprView) -> Seq<Reference>
    decreases expression,
{
    match expression {
        ExprView::Unary { expression, .. } => expr_references(*expression),
        ExprView::Cast { expression, .. } => expr_references(*expression),
        ExprView::Binary { left, right, .. } => expr_references(*left) + expr_references(*right),
        ExprView::Branch { arms, otherwise } => arms_references(arms) + expr_references(*otherwise),
        ExprView::TextMatch { value, .. } => expr_references(*value),
        ExprView::Exists(relation) => relation_references(*relation),
        ExprView::First(relation) => relation_references(*relation),
        ExprView::Scalar(relation) => relation_references(*relation),
        ExprView::Array(relation) => relation_references(*relation),
        ExprView::Literal(_) => Seq::empty(),
        ExprView::Column { scope, name } => seq![Reference { scope, name }],
    }
}

pub open spec fn project_fields_references(values: Seq<ProjectFieldView>) -> Seq<Reference>
    decreases values,
{
    if values.len() == 0 {
        Seq::empty()
    } else {
        project_fields_references(values.drop_last()) + expr_references(values.last().expression)
    }
}

pub open spec fn group_terms_references(values: Seq<GroupTermView>) -> Seq<Reference>
    decreases values,
{
    if values.len() == 0 {
        Seq::empty()
    } else {
        group_terms_references(values.drop_last()) + expr_references(values.last().expression)
    }
}

pub open spec fn order_terms_references(values: Seq<OrderTermView>) -> Seq<Reference>
    decreases values,
{
    if values.len() == 0 {
        Seq::empty()
    } else {
        order_terms_references(values.drop_last()) + expr_references(values.last().expression)
    }
}

pub open spec fn aggregate_terms_references(values: Seq<AggregateTermView>) -> Seq<Reference>
    decreases values,
{
    if values.len() == 0 {
        Seq::empty()
    } else {
        aggregate_terms_references(values.drop_last()) + optional_references(values.last().argument)
    }
}

pub open spec fn arms_references(values: Seq<BranchArmView>) -> Seq<Reference>
    decreases values,
{
    if values.len() == 0 {
        Seq::empty()
    } else {
        arms_references(values.drop_last()) + (expr_references(values.last().when) + expr_references(values.last().value))
    }
}

pub open spec fn relations_references(values: Seq<RelationView>) -> Seq<Reference>
    decreases values,
{
    if values.len() == 0 {
        Seq::empty()
    } else {
        relations_references(values.drop_last()) + relation_references(values.last())
    }
}

pub open spec fn optional_references(expression: Option<ExprView>) -> Seq<Reference>
    decreases expression,
{
    match expression {
        Some(expression) => expr_references(expression),
        None => Seq::empty(),
    }
}

/// Uses of columns after a renaming: each in the renamed scope, and of the same
/// column.
pub open spec fn uses_renamed(uses: Seq<Reference>, m: Seq<ReplacementView>) -> Seq<Reference> {
    Seq::new(
        uses.len(),
        |i: int| Reference { scope: renamed(uses[i].scope, m), name: uses[i].name },
    )
}

broadcast proof fn lemma_references_join(
    left: Seq<Reference>,
    right: Seq<Reference>,
    m: Seq<ReplacementView>,
)
    ensures
        #[trigger] uses_renamed(left + right, m) == uses_renamed(left, m) + uses_renamed(right, m),
{
    assert(uses_renamed(left + right, m) =~= uses_renamed(left, m) + uses_renamed(right, m));
}

/// The columns that a renamed relation uses, at any depth, are those that it used,
/// each in its renamed scope and under the same name.
pub proof fn renaming_renames_the_uses_in_a_relation(relation: RelationView, m: Seq<ReplacementView>)
    ensures
        relation_references(renamed_relation(relation, m)) == uses_renamed(relation_references(relation), m),
    decreases relation,
{
    broadcast use lemma_references_join;

    match relation {
        RelationView::Filter { input, predicate } => {
            renaming_renames_the_uses_in_a_relation(*input, m);
            renaming_renames_the_uses_in_an_expression(predicate, m);
        },
        RelationView::Project { input, scope, spread, fields } => {
            renaming_renames_the_uses_in_a_relation(*input, m);
            lemma_project_fields_references(fields, m);
        },
        RelationView::Join { left, right, kind, on } => {
            renaming_renames_the_uses_in_a_relation(*left, m);
            renaming_renames_the_uses_in_a_relation(*right, m);
            renaming_renames_the_uses_in_an_expression(on, m);
        },
        RelationView::Concatenate { scope, inputs } => {
            lemma_relations_references(inputs, m);
        },
        RelationView::Intersect { scope, left, right, quantifier } => {
            renaming_renames_the_uses_in_a_relation(*left, m);
            renaming_renames_the_uses_in_a_relation(*right, m);
        },
        RelationView::Except { scope, left, right, quantifier } => {
            renaming_renames_the_uses_in_a_relation(*left, m);
            renaming_renames_the_uses_in_a_relation(*right, m);
        },
        RelationView::Aggregate { input, scope, groups, terms } => {
            renaming_renames_the_uses_in_a_relation(*input, m);
            lemma_group_terms_references(groups, m);
            lemma_aggregate_terms_references(terms, m);
        },
        RelationView::Order { input, terms } => {
            renaming_renames_the_uses_in_a_relation(*input, m);
            lemma_order_terms_references(terms, m);
        },
        RelationView::Slice { input, offset, limit } => renaming_renames_the_uses_in_a_relation(*input, m),
        RelationView::Distinct(input) => renaming_renames_the_uses_in_a_relation(*input, m),
        RelationView::Recursive { anchor, step, accumulation } => {
            renaming_renames_the_uses_in_a_relation(*anchor, m);
            renaming_renames_the_uses_in_a_relation(*step, m);
        },
        _ => {},
    }
    assert(relation_references(renamed_relation(relation, m)) =~= uses_renamed(relation_references(relation), m));
}

/// The columns that a renamed expression uses, at any depth, are those that it
/// used, each in its renamed scope and under the same name.
pub proof fn renaming_renames_the_uses_in_an_expression(expression: ExprView, m: Seq<ReplacementView>)
    ensures
        expr_references(renamed_expr(expression, m)) == uses_renamed(expr_references(expression), m),
    decreases expression,
{
    broadcast use lemma_references_join;

    match expression {
        ExprView::Unary { op, expression } => renaming_renames_the_uses_in_an_expression(*expression, m),
        ExprView::Cast { expression, to } => renaming_renames_the_uses_in_an_expression(*expression, m),
        ExprView::Binary { op, left, right } => {
            renaming_renames_the_uses_in_an_expression(*left, m);
            renaming_renames_the_uses_in_an_expression(*right, m);
        },
        ExprView::Branch { arms, otherwise } => {
            renaming_renames_the_uses_in_an_expression(*otherwise, m);
            lemma_arms_references(arms, m);
        },
        ExprView::TextMatch { value, parts, comparison } => renaming_renames_the_uses_in_an_expression(*value, m),
        ExprView::Exists(relation) => renaming_renames_the_uses_in_a_relation(*relation, m),
        ExprView::First(relation) => renaming_renames_the_uses_in_a_relation(*relation, m),
        ExprView::Scalar(relation) => renaming_renames_the_uses_in_a_relation(*relation, m),
        ExprView::Array(relation) => renaming_renames_the_uses_in_a_relation(*relation, m),
        _ => {},
    }
    assert(expr_references(renamed_expr(expression, m)) =~= uses_renamed(expr_references(expression), m));
}

proof fn lemma_project_fields_references(values: Seq<ProjectFieldView>, m: Seq<ReplacementView>)
    ensures
        project_fields_references(renamed_project_fields(values, m)) == uses_renamed(project_fields_references(values), m),
    decreases values,
{
    broadcast use lemma_references_join;

    let renamed = renamed_project_fields(values, m);
    if values.len() > 0 {
        lemma_project_fields_references(values.drop_last(), m);
        renaming_renames_the_uses_in_an_expression(values.last().expression, m);
        assert(renamed.drop_last() =~= renamed_project_fields(values.drop_last(), m));
        assert(renamed.last() == renamed[values.len() - 1]);
    }
    assert(project_fields_references(renamed) =~= uses_renamed(project_fields_references(values), m));
}

proof fn lemma_group_terms_references(values: Seq<GroupTermView>, m: Seq<ReplacementView>)
    ensures
        group_terms_references(renamed_group_terms(values, m)) == uses_renamed(group_terms_references(values), m),
    decreases values,
{
    broadcast use lemma_references_join;

    let renamed = renamed_group_terms(values, m);
    if values.len() > 0 {
        lemma_group_terms_references(values.drop_last(), m);
        renaming_renames_the_uses_in_an_expression(values.last().expression, m);
        assert(renamed.drop_last() =~= renamed_group_terms(values.drop_last(), m));
        assert(renamed.last() == renamed[values.len() - 1]);
    }
    assert(group_terms_references(renamed) =~= uses_renamed(group_terms_references(values), m));
}

proof fn lemma_order_terms_references(values: Seq<OrderTermView>, m: Seq<ReplacementView>)
    ensures
        order_terms_references(renamed_order_terms(values, m)) == uses_renamed(order_terms_references(values), m),
    decreases values,
{
    broadcast use lemma_references_join;

    let renamed = renamed_order_terms(values, m);
    if values.len() > 0 {
        lemma_order_terms_references(values.drop_last(), m);
        renaming_renames_the_uses_in_an_expression(values.last().expression, m);
        assert(renamed.drop_last() =~= renamed_order_terms(values.drop_last(), m));
        assert(renamed.last() == renamed[values.len() - 1]);
    }
    assert(order_terms_references(renamed) =~= uses_renamed(order_terms_references(values), m));
}

proof fn lemma_aggregate_terms_references(values: Seq<AggregateTermView>, m: Seq<ReplacementView>)
    ensures
        aggregate_terms_references(renamed_aggregate_terms(values, m)) == uses_renamed(aggregate_terms_references(values), m),
    decreases values,
{
    broadcast use lemma_references_join;

    let renamed = renamed_aggregate_terms(values, m);
    if values.len() > 0 {
        lemma_aggregate_terms_references(values.drop_last(), m);
        match values.last().argument {
            Some(argument) => renaming_renames_the_uses_in_an_expression(argument, m),
            None => {},
        }
        assert(optional_references(renamed_optional(values.last().argument, m)) =~= uses_renamed(
            optional_references(values.last().argument),
            m,
        ));
        assert(renamed.drop_last() =~= renamed_aggregate_terms(values.drop_last(), m));
        assert(renamed.last() == renamed[values.len() - 1]);
    }
    assert(aggregate_terms_references(renamed) =~= uses_renamed(aggregate_terms_references(values), m));
}

proof fn lemma_arms_references(values: Seq<BranchArmView>, m: Seq<ReplacementView>)
    ensures
        arms_references(renamed_arms(values, m)) == uses_renamed(arms_references(values), m),
    decreases values,
{
    broadcast use lemma_references_join;

    let renamed = renamed_arms(values, m);
    if values.len() > 0 {
        lemma_arms_references(values.drop_last(), m);
        renaming_renames_the_uses_in_an_expression(values.last().when, m);
        renaming_renames_the_uses_in_an_expression(values.last().value, m);
        assert(renamed.drop_last() =~= renamed_arms(values.drop_last(), m));
        assert(renamed.last() == renamed[values.len() - 1]);
    }
    assert(arms_references(renamed) =~= uses_renamed(arms_references(values), m));
}

proof fn lemma_relations_references(values: Seq<RelationView>, m: Seq<ReplacementView>)
    ensures
        relations_references(renamed_relations(values, m)) == uses_renamed(relations_references(values), m),
    decreases values,
{
    broadcast use lemma_references_join;

    let renamed = renamed_relations(values, m);
    if values.len() > 0 {
        lemma_relations_references(values.drop_last(), m);
        renaming_renames_the_uses_in_a_relation(values.last(), m);
        assert(renamed.drop_last() =~= renamed_relations(values.drop_last(), m));
        assert(renamed.last() == renamed[values.len() - 1]);
    }
    assert(relations_references(renamed) =~= uses_renamed(relations_references(values), m));
}

/// A name that is no scope.
pub enum Name {
    Table(Seq<char>),
    Column(Seq<char>),
    Field(Seq<char>),
    Binding(Seq<char>),
}

/// The names of the columns of rows.
pub open spec fn rows_names(columns: Seq<RowsColumnView>) -> Seq<Name> {
    Seq::new(columns.len(), |i: int| Name::Column(columns[i].name))
}

/// The names that a relation holds besides scopes, at any depth and in order: of
/// tables, columns, fields and bindings.
pub open spec fn relation_names(relation: RelationView) -> Seq<Name>
    decreases relation,
{
    match relation {
        RelationView::Scan { table, .. } => seq![Name::Table(table)],
        RelationView::Rows { columns, .. } => rows_names(columns),
        RelationView::Ref { binding, .. } => seq![Name::Binding(binding)],
        RelationView::RecursiveRef { binding, .. } => seq![Name::Binding(binding)],
        RelationView::Filter { input, predicate } => relation_names(*input) + expr_names(predicate),
        RelationView::Project { input, fields, .. } => relation_names(*input)
            + project_fields_names(fields),
        RelationView::Join { left, right, on, .. } => relation_names(*left) + relation_names(*right)
            + expr_names(on),
        RelationView::Concatenate { inputs, .. } => relations_names(inputs),
        RelationView::Intersect { left, right, .. } => relation_names(*left)
            + relation_names(*right),
        RelationView::Except { left, right, .. } => relation_names(*left)
            + relation_names(*right),
        RelationView::Aggregate { input, groups, terms, .. } => relation_names(*input)
            + group_terms_names(groups) + aggregate_terms_names(terms),
        RelationView::Order { input, terms } => relation_names(*input) + order_terms_names(terms),
        RelationView::Slice { input, .. } => relation_names(*input),
        RelationView::Distinct(input) => relation_names(*input),
        RelationView::Recursive { anchor, step, .. } => relation_names(*anchor) + relation_names(
            *step,
        ),
    }
}

/// The names that an expression holds besides scopes, at any depth and in order.
pub open spec fn expr_names(expression: ExprView) -> Seq<Name>
    decreases expression,
{
    match expression {
        ExprView::Unary { expression, .. } => expr_names(*expression),
        ExprView::Cast { expression, .. } => expr_names(*expression),
        ExprView::Binary { left, right, .. } => expr_names(*left) + expr_names(*right),
        ExprView::Branch { arms, otherwise } => arms_names(arms) + expr_names(*otherwise),
        ExprView::TextMatch { value, .. } => expr_names(*value),
        ExprView::Exists(relation) => relation_names(*relation),
        ExprView::First(relation) => relation_names(*relation),
        ExprView::Scalar(relation) => relation_names(*relation),
        ExprView::Array(relation) => relation_names(*relation),
        ExprView::Literal(_) => Seq::empty(),
        ExprView::Column { name, .. } => seq![Name::Column(name)],
    }
}

pub open spec fn project_fields_names(values: Seq<ProjectFieldView>) -> Seq<Name>
    decreases values,
{
    if values.len() == 0 {
        Seq::empty()
    } else {
        project_fields_names(values.drop_last()) + (seq![Name::Field(values.last().name)] + expr_names(
            values.last().expression,
        ))
    }
}

pub open spec fn group_terms_names(values: Seq<GroupTermView>) -> Seq<Name>
    decreases values,
{
    if values.len() == 0 {
        Seq::empty()
    } else {
        group_terms_names(values.drop_last()) + (seq![Name::Field(values.last().name)] + expr_names(
            values.last().expression,
        ))
    }
}

pub open spec fn order_terms_names(values: Seq<OrderTermView>) -> Seq<Name>
    decreases values,
{
    if values.len() == 0 {
        Seq::empty()
    } else {
        order_terms_names(values.drop_last()) + expr_names(values.last().expression)
    }
}

pub open spec fn aggregate_terms_names(values: Seq<AggregateTermView>) -> Seq<Name>
    decreases values,
{
    if values.len() == 0 {
        Seq::empty()
    } else {
        aggregate_terms_names(values.drop_last()) + (optional_names(values.last().argument) + seq![
            Name::Field(values.last().name),
        ])
    }
}

pub open spec fn arms_names(values: Seq<BranchArmView>) -> Seq<Name>
    decreases values,
{
    if values.len() == 0 {
        Seq::empty()
    } else {
        arms_names(values.drop_last()) + (expr_names(values.last().when) + expr_names(values.last().value))
    }
}

pub open spec fn relations_names(values: Seq<RelationView>) -> Seq<Name>
    decreases values,
{
    if values.len() == 0 {
        Seq::empty()
    } else {
        relations_names(values.drop_last()) + relation_names(values.last())
    }
}

pub open spec fn optional_names(expression: Option<ExprView>) -> Seq<Name>
    decreases expression,
{
    match expression {
        Some(expression) => expr_names(expression),
        None => Seq::empty(),
    }
}

/// Renaming the scopes of a relation keeps the names of tables, columns, fields and
/// bindings, at any depth.
pub proof fn renaming_keeps_the_names_in_a_relation(relation: RelationView, m: Seq<ReplacementView>)
    ensures
        relation_names(renamed_relation(relation, m)) == relation_names(relation),
    decreases relation,
{
    match relation {
        RelationView::Filter { input, predicate } => {
            renaming_keeps_the_names_in_a_relation(*input, m);
            renaming_keeps_the_names_in_an_expression(predicate, m);
        },
        RelationView::Project { input, scope, spread, fields } => {
            renaming_keeps_the_names_in_a_relation(*input, m);
            lemma_project_fields_names(fields, m);
        },
        RelationView::Join { left, right, kind, on } => {
            renaming_keeps_the_names_in_a_relation(*left, m);
            renaming_keeps_the_names_in_a_relation(*right, m);
            renaming_keeps_the_names_in_an_expression(on, m);
        },
        RelationView::Concatenate { scope, inputs } => {
            lemma_relations_names(inputs, m);
        },
        RelationView::Intersect { scope, left, right, quantifier } => {
            renaming_keeps_the_names_in_a_relation(*left, m);
            renaming_keeps_the_names_in_a_relation(*right, m);
        },
        RelationView::Except { scope, left, right, quantifier } => {
            renaming_keeps_the_names_in_a_relation(*left, m);
            renaming_keeps_the_names_in_a_relation(*right, m);
        },
        RelationView::Aggregate { input, scope, groups, terms } => {
            renaming_keeps_the_names_in_a_relation(*input, m);
            lemma_group_terms_names(groups, m);
            lemma_aggregate_terms_names(terms, m);
        },
        RelationView::Order { input, terms } => {
            renaming_keeps_the_names_in_a_relation(*input, m);
            lemma_order_terms_names(terms, m);
        },
        RelationView::Slice { input, offset, limit } => renaming_keeps_the_names_in_a_relation(*input, m),
        RelationView::Distinct(input) => renaming_keeps_the_names_in_a_relation(*input, m),
        RelationView::Recursive { anchor, step, accumulation } => {
            renaming_keeps_the_names_in_a_relation(*anchor, m);
            renaming_keeps_the_names_in_a_relation(*step, m);
        },
        _ => {},
    }
    assert(relation_names(renamed_relation(relation, m)) =~= relation_names(relation));
}

/// Renaming the scopes of an expression keeps the names of tables, columns, fields
/// and bindings, at any depth.
pub proof fn renaming_keeps_the_names_in_an_expression(expression: ExprView, m: Seq<ReplacementView>)
    ensures
        expr_names(renamed_expr(expression, m)) == expr_names(expression),
    decreases expression,
{
    match expression {
        ExprView::Unary { op, expression } => renaming_keeps_the_names_in_an_expression(*expression, m),
        ExprView::Cast { expression, to } => renaming_keeps_the_names_in_an_expression(*expression, m),
        ExprView::Binary { op, left, right } => {
            renaming_keeps_the_names_in_an_expression(*left, m);
            renaming_keeps_the_names_in_an_expression(*right, m);
        },
        ExprView::Branch { arms, otherwise } => {
            renaming_keeps_the_names_in_an_expression(*otherwise, m);
            lemma_arms_names(arms, m);
        },
        ExprView::TextMatch { value, parts, comparison } => renaming_keeps_the_names_in_an_expression(*value, m),
        ExprView::Exists(relation) => renaming_keeps_the_names_in_a_relation(*relation, m),
        ExprView::First(relation) => renaming_keeps_the_names_in_a_relation(*relation, m),
        ExprView::Scalar(relation) => renaming_keeps_the_names_in_a_relation(*relation, m),
        ExprView::Array(relation) => renaming_keeps_the_names_in_a_relation(*relation, m),
        _ => {},
    }
    assert(expr_names(renamed_expr(expression, m)) =~= expr_names(expression));
}

proof fn lemma_project_fields_names(values: Seq<ProjectFieldView>, m: Seq<ReplacementView>)
    ensures
        project_fields_names(renamed_project_fields(values, m)) == project_fields_names(values),
    decreases values,
{
    let renamed = renamed_project_fields(values, m);
    if values.len() > 0 {
        lemma_project_fields_names(values.drop_last(), m);
        renaming_keeps_the_names_in_an_expression(values.last().expression, m);
        assert(renamed.drop_last() =~= renamed_project_fields(values.drop_last(), m));
        assert(renamed.last() == renamed[values.len() - 1]);
    }
    assert(project_fields_names(renamed) =~= project_fields_names(values));
}

proof fn lemma_group_terms_names(values: Seq<GroupTermView>, m: Seq<ReplacementView>)
    ensures
        group_terms_names(renamed_group_terms(values, m)) == group_terms_names(values),
    decreases values,
{
    let renamed = renamed_group_terms(values, m);
    if values.len() > 0 {
        lemma_group_terms_names(values.drop_last(), m);
        renaming_keeps_the_names_in_an_expression(values.last().expression, m);
        assert(renamed.drop_last() =~= renamed_group_terms(values.drop_last(), m));
        assert(renamed.last() == renamed[values.len() - 1]);
    }
    assert(group_terms_names(renamed) =~= group_terms_names(values));
}

proof fn lemma_order_terms_names(values: Seq<OrderTermView>, m: Seq<ReplacementView>)
    ensures
        order_terms_names(renamed_order_terms(values, m)) == order_terms_names(values),
    decreases values,
{
    let renamed = renamed_order_terms(values, m);
    if values.len() > 0 {
        lemma_order_terms_names(values.drop_last(), m);
        renaming_keeps_the_names_in_an_expression(values.last().expression, m);
        assert(renamed.drop_last() =~= renamed_order_terms(values.drop_last(), m));
        assert(renamed.last() == renamed[values.len() - 1]);
    }
    assert(order_terms_names(renamed) =~= order_terms_names(values));
}

proof fn lemma_aggregate_terms_names(values: Seq<AggregateTermView>, m: Seq<ReplacementView>)
    ensures
        aggregate_terms_names(renamed_aggregate_terms(values, m)) == aggregate_terms_names(values),
    decreases values,
{
    let renamed = renamed_aggregate_terms(values, m);
    if values.len() > 0 {
        lemma_aggregate_terms_names(values.drop_last(), m);
        match values.last().argument {
            Some(argument) => renaming_keeps_the_names_in_an_expression(argument, m),
            None => {},
        }
        assert(optional_names(renamed_optional(values.last().argument, m)) =~= optional_names(values.last().argument));
        assert(renamed.drop_last() =~= renamed_aggregate_terms(values.drop_last(), m));
        assert(renamed.last() == renamed[values.len() - 1]);
    }
    assert(aggregate_terms_names(renamed) =~= aggregate_terms_names(values));
}

proof fn lemma_arms_names(values: Seq<BranchArmView>, m: Seq<ReplacementView>)
    ensures
        arms_names(renamed_arms(values, m)) == arms_names(values),
    decreases values,
{
    let renamed = renamed_arms(values, m);
    if values.len() > 0 {
        lemma_arms_names(values.drop_last(), m);
        renaming_keeps_the_names_in_an_expression(values.last().when, m);
        renaming_keeps_the_names_in_an_expression(values.last().value, m);
        assert(renamed.drop_last() =~= renamed_arms(values.drop_last(), m));
        assert(renamed.last() == renamed[values.len() - 1]);
    }
    assert(arms_names(renamed) =~= arms_names(values));
}

proof fn lemma_relations_names(values: Seq<RelationView>, m: Seq<ReplacementView>)
    ensures
        relations_names(renamed_relations(values, m)) == relations_names(values),
    decreases values,
{
    let renamed = renamed_relations(values, m);
    if values.len() > 0 {
        lemma_relations_names(values.drop_last(), m);
        renaming_keeps_the_names_in_a_relation(values.last(), m);
        assert(renamed.drop_last() =~= renamed_relations(values.drop_last(), m));
        assert(renamed.last() == renamed[values.len() - 1]);
    }
    assert(relations_names(renamed) =~= relations_names(values));
}

} // verus!
