//! Aggregations built from lowered parts.

use vstd::prelude::*;

use crate::sql::assembly::project;
use crate::sql::env;
use crate::sql::env::Substitution;
use crate::sql::lir;
use crate::sql::lir::{
    AggregateFunction, AggregateTerm, AggregateTermView, BinaryOp, Expr, ExprView, GroupTerm,
    GroupTermView, JoinKind, OrderTerm, OrderTermView, ProjectField, ProjectFieldView, Relation,
    ScalarType,
};
use crate::sql::lowering;
use crate::sql::lowering::{Aggregate, AggregateBranch, AggregateOutputs, Aggregation, TermGroup};
use crate::sql::operators;
use crate::sql::operators::{bool_literal, column_expr, fold_binary, null_safe_equality};
use crate::sql::scopes;
use crate::sql::scopes::{remap_aggregate_terms, remap_expr_scopes, remap_group_terms, Replacement};
use crate::sql::shapes;
use crate::sql::shapes::{collect_aggregate_expressions, expression_ast, expression_item};
use crate::sql::syntax;
use crate::sql::tree;
use crate::sql::tree::Tree;
use crate::sql::types;
use crate::sql::types::{CompiledExpr, Error, ExpressionEnv, ResultColumn};
use crate::text;
use crate::text::{count_text, join, same_text};

verus! {

broadcast use {
    tree::group_tree_heights,
    lir::group_lir_views,
    types::group_sql_views,
};

/// Whether a SELECT aggregates its rows.
pub fn aggregates(select: &Tree) -> (yes: bool)
    ensures
        yes == lowering::aggregates(select@),
{
    let by = select.at("group_by").at("Expressions");
    if select.at("group_by").is("All") || by.part(0).count() > 0 || by.part(1).count() > 0 {
        return true;
    }
    if !select.at("having").absent() {
        return true;
    }
    let projection = select.at("projection");
    let count = projection.count();
    let mut i: usize = 0;
    while i < count
        invariant
            i <= count,
            count == tree::list(projection@).len(),
            projection@ == tree::at(select@, "projection"@),
            lowering::projects_aggregate(projection@, 0) == lowering::projects_aggregate(
                projection@,
                i as nat,
            ),
        decreases count - i,
    {
        let item = projection.item(i);
        if expression_item(item) {
            let mut found: Vec<&Tree> = Vec::new();
            assert(shapes::refs_view(found@) =~= Seq::empty());
            collect_aggregate_expressions(expression_ast(item), &mut found);
            if found.len() > 0 {
                assert(shapes::refs_view(found@).len() > 0);
                return true;
            }
        }
        i += 1;
    }
    false
}

/// The GROUP BY keys of a SELECT.
pub fn grouping_keys<'a>(select: &'a Tree) -> (result: Result<Vec<&'a Tree>, Error>)
    ensures
        lowering::grouping_keys(select@) == (match result {
            Ok(keys) => Ok(shapes::refs_view(keys@)),
            Err(error) => Err(error@),
        }),
{
    reveal(lowering::grouping_keys);
    if select.at("group_by").is("All") {
        return Err(Error::Unsupported("GROUP BY ALL is not supported".to_owned()));
    }
    let by = select.at("group_by").at("Expressions");
    if by.part(1).count() > 0 {
        return Err(Error::Unsupported("GROUP BY modifiers are not supported".to_owned()));
    }
    let values = by.part(0);
    let projection = select.at("projection");
    let mut keys: Vec<&'a Tree> = Vec::new();
    let count = values.count();
    let mut i: usize = 0;
    assert(shapes::refs_view(keys@) =~= Seq::empty());
    while i < count
        invariant
            i <= count,
            count == tree::list(values@).len(),
            values@ == lowering::group_values(select@),
            projection@ == tree::at(select@, "projection"@),
            !tree::is(tree::at(select@, "group_by"@), "All"@),
            tree::list(lowering::group_modifiers(select@)).len() == 0,
            lowering::group_keys(values@, projection@, 0, Seq::empty()) == lowering::group_keys(
                values@,
                projection@,
                i as nat,
                shapes::refs_view(keys@),
            ),
        decreases count - i,
    {
        match shapes::aggregate_order_expression(values.item(i), projection) {
            Ok(key) => {
                let ghost before = shapes::refs_view(keys@);
                keys.push(key);
                assert(shapes::refs_view(keys@) =~= before.push(key@));
            },
            Err(error) => {
                reveal(lowering::grouping_keys);
                return Err(error);
            },
        }
        i += 1;
    }
    Ok(keys)
}

/// Whether every projection item is an expression.
pub fn projects_expressions(projection: &Tree) -> (yes: bool)
    ensures
        yes == lowering::projects_expressions(projection@, 0),
{
    let count = projection.count();
    let mut i: usize = 0;
    while i < count
        invariant
            i <= count,
            count == tree::list(projection@).len(),
            lowering::projects_expressions(projection@, 0) == lowering::projects_expressions(
                projection@,
                i as nat,
            ),
        decreases count - i,
    {
        if !expression_item(projection.item(i)) {
            return false;
        }
        i += 1;
    }
    true
}

/// The aggregates of a SELECT and its ORDER BY, each once.
pub fn all_aggregates<'a>(select: &'a Tree, order: &'a Tree) -> (found: Vec<&'a Tree>)
    ensures
        shapes::refs_view(found@) == lowering::all_aggregates(select@, order@),
{
    reveal(lowering::all_aggregates);
    let mut found: Vec<&'a Tree> = Vec::new();
    assert(shapes::refs_view(found@) =~= Seq::empty());
    let projection = select.at("projection");
    let count = projection.count();
    let mut i: usize = 0;
    while i < count
        invariant
            i <= count,
            count == tree::list(projection@).len(),
            lowering::projected_aggregates(projection@, 0, Seq::empty())
                == lowering::projected_aggregates(
                projection@,
                i as nat,
                shapes::refs_view(found@),
            ),
        decreases count - i,
    {
        collect_aggregate_expressions(expression_ast(projection.item(i)), &mut found);
        i += 1;
    }
    if !select.at("having").absent() {
        collect_aggregate_expressions(select.at("having"), &mut found);
    }
    let terms = order.at("kind").at("Expressions");
    let count = terms.count();
    let ghost before = shapes::refs_view(found@);
    let mut i: usize = 0;
    while i < count
        invariant
            i <= count,
            count == tree::list(terms@).len(),
            lowering::sorted_aggregates(terms@, 0, before) == lowering::sorted_aggregates(
                terms@,
                i as nat,
                shapes::refs_view(found@),
            ),
        decreases count - i,
    {
        collect_aggregate_expressions(terms.item(i).at("expr"), &mut found);
        i += 1;
    }
    found
}

/// The function of an aggregate name.
pub fn aggregate_function(name: &str) -> (function: Option<AggregateFunction>)
    ensures
        function == lowering::aggregate_function(name@),
{
    if same_text(name, "count") {
        Some(AggregateFunction::Count)
    } else if same_text(name, "sum") {
        Some(AggregateFunction::Sum)
    } else if same_text(name, "avg") {
        Some(AggregateFunction::Average)
    } else if same_text(name, "min") {
        Some(AggregateFunction::Min)
    } else if same_text(name, "max") {
        Some(AggregateFunction::Max)
    } else {
        None
    }
}

/// The type of an aggregate over an argument type.
pub fn aggregate_type(function: AggregateFunction, argument: ScalarType) -> (scalar_type: ScalarType)
    ensures
        scalar_type == lowering::aggregate_type(function, argument),
{
    match function {
        AggregateFunction::Count => ScalarType::Int64,
        AggregateFunction::Average => ScalarType::Float64,
        _ => argument,
    }
}

/// An aggregate call.
pub struct AggregateCall {
    pub function: AggregateFunction,
    pub argument: Option<Expr>,
    pub scalar_type: ScalarType,
    pub nullable: bool,
    pub distinct: bool,
}

impl View for AggregateCall {
    type V = Aggregate;

    open spec fn view(&self) -> Aggregate {
        Aggregate {
            function: self.function,
            argument: lir::optional_expr_view(self.argument),
            scalar_type: self.scalar_type,
            nullable: self.nullable,
            distinct: self.distinct,
        }
    }
}

/// An aggregation in the making.
pub struct Aggregator {
    pub groups: Vec<GroupTerm>,
    pub terms: Vec<AggregateTerm>,
    pub distinct: Vec<bool>,
    pub columns: Vec<ResultColumn>,
    pub substitutions: Vec<Substitution>,
}

impl View for Aggregator {
    type V = Aggregation;

    open spec fn view(&self) -> Aggregation {
        Aggregation {
            groups: lir::group_terms_view(self.groups@),
            terms: lir::aggregate_terms_view(self.terms@),
            distinct: self.distinct@,
            columns: types::result_columns_view(self.columns@),
            substitutions: env::substitutions_view(self.substitutions@),
        }
    }
}

impl Aggregator {
    /// An aggregation without groups or terms.
    pub fn new() -> (made: Aggregator)
        ensures
            made@ == lowering::no_aggregation(),
            made.groups.len() == 0,
            made.terms.len() == 0,
            made.distinct.len() == 0,
            made.columns.len() == 0,
    {
        let made = Aggregator {
            groups: Vec::new(),
            terms: Vec::new(),
            distinct: Vec::new(),
            columns: Vec::new(),
            substitutions: Vec::new(),
        };
        assert(made@ =~= lowering::no_aggregation());
        made
    }

    /// Adds a group.
    pub fn add_group(&mut self, position: usize, key: &Tree, value: CompiledExpr, env: &ExpressionEnv)
        requires
            position == old(self).groups.len() + 1,
        ensures
            final(self)@ == lowering::with_group(old(self)@, key@, value@, env@),
    {
        let ghost before = self@;
        let number = count_text(position);
        let name = join("group_", number.as_str());
        let column = ResultColumn {
            name: shapes::expression_name(key),
            field: name.clone(),
            scalar_type: value.scalar_type,
            nullable: value.nullable,
            format: shapes::direct_column_format(key, env),
        };
        self.groups.push(GroupTerm { name, expression: value.expr });
        self.columns.push(column.clone());
        let substitution = Substitution { syntax: key.bare(), column };
        self.substitutions.push(substitution);
        assert(env::substitutions_view(self.substitutions@) =~= before.substitutions.push(
            substitution@,
        ));
    }

    /// Adds a term.
    pub fn add_term(&mut self, position: usize, expression: &Tree, call: AggregateCall)
        requires
            position == old(self).terms.len() + 1,
        ensures
            final(self)@ == lowering::with_term(old(self)@, expression@, call@),
    {
        let ghost before = self@;
        let number = count_text(position);
        let name = join("aggregate_", number.as_str());
        let column = ResultColumn {
            name: syntax::show_expression(expression),
            field: name.clone(),
            scalar_type: call.scalar_type,
            nullable: call.nullable,
            format: String::new(),
        };
        assert(column@.format =~= Seq::empty());
        self.terms.push(AggregateTerm { function: call.function, argument: call.argument, name });
        self.distinct.push(call.distinct);
        self.columns.push(column.clone());
        let substitution = Substitution { syntax: expression.bare(), column };
        self.substitutions.push(substitution);
        assert(env::substitutions_view(self.substitutions@) =~= before.substitutions.push(
            substitution@,
        ));
    }
}

/// Positions as numbers.
pub open spec fn positions(members: Seq<usize>) -> Seq<nat> {
    Seq::new(members.len(), |i: int| members[i] as nat)
}

/// Terms that are computed together.
pub struct TermSet {
    pub key: Option<Expr>,
    pub members: Vec<usize>,
}

impl View for TermSet {
    type V = TermGroup;

    open spec fn view(&self) -> TermGroup {
        TermGroup { key: lir::optional_expr_view(self.key), members: positions(self.members@) }
    }
}

pub open spec fn term_sets_view(sets: Seq<TermSet>) -> Seq<TermGroup> {
    Seq::new(sets.len(), |i: int| sets[i]@)
}

fn add_member(sets: &mut Vec<TermSet>, key: Option<Expr>, member: usize)
    ensures
        term_sets_view(final(sets)@) == lowering::with_member(
            term_sets_view(old(sets)@),
            lir::optional_expr_view(key),
            member as nat,
            0,
        ),
{
    let ghost all = term_sets_view(sets@);
    let ghost wanted = lir::optional_expr_view(key);
    let mut i: usize = 0;
    while i < sets.len() && !lir::same_optional_expr(&sets[i].key, &key)
        invariant
            i <= sets.len(),
            all == term_sets_view(sets@),
            wanted == lir::optional_expr_view(key),
            lowering::with_member(all, wanted, member as nat, 0) == lowering::with_member(
                all,
                wanted,
                member as nat,
                i as nat,
            ),
        decreases sets.len() - i,
    {
        assert(all[i as int] == sets@[i as int]@);
        i += 1;
    }
    if i < sets.len() {
        assert(all[i as int] == sets@[i as int]@);
        let ghost members = sets@[i as int].members@;
        let set = &mut sets[i];
        set.members.push(member);
        proof {
            assert(positions(sets@[i as int].members@) =~= positions(members).push(
                member as nat,
            ));
            assert(term_sets_view(sets@) =~= all.update(i as int, sets@[i as int]@));
        }
    } else {
        let mut members: Vec<usize> = Vec::new();
        members.push(member);
        assert(positions(members@) =~= seq![member as nat]);
        let set = TermSet { key, members };
        sets.push(set);
        assert(term_sets_view(sets@) =~= all.push(set@));
    }
}

/// Whether terms belong to an aggregation.
pub open spec fn members_within(sets: Seq<TermGroup>, count: nat) -> bool {
    forall|i: int, k: int|
        0 <= i < sets.len() && 0 <= k < sets[i].members.len() ==> #[trigger] sets[i].members[k]
            < count
}

proof fn lemma_member_within(
    groups: Seq<TermGroup>,
    key: Option<ExprView>,
    member: nat,
    i: nat,
    count: nat,
)
    requires
        members_within(groups, count),
        member < count,
    ensures
        members_within(lowering::with_member(groups, key, member, i), count),
    decreases groups.len() - i,
{
    if i < groups.len() && groups[i as int].key != key {
        lemma_member_within(groups, key, member, i + 1, count);
    }
}

/// The groups of terms of an aggregation, at least one.
pub fn branch_sets(made: &Aggregator) -> (sets: Vec<TermSet>)
    requires
        made.distinct.len() == made.terms.len(),
    ensures
        term_sets_view(sets@) == lowering::branch_groups(made@),
        members_within(term_sets_view(sets@), made.terms@.len()),
        sets.len() > 0,
{
    let mut sets: Vec<TermSet> = Vec::new();
    let mut i: usize = 0;
    assert(term_sets_view(sets@) =~= Seq::empty());
    while i < made.terms.len()
        invariant
            i <= made.terms.len(),
            made.distinct.len() == made.terms.len(),
            members_within(term_sets_view(sets@), made.terms@.len()),
            lowering::term_groups(made@, 0, Seq::empty()) == lowering::term_groups(
                made@,
                i as nat,
                term_sets_view(sets@),
            ),
        decreases made.terms.len() - i,
    {
        assert(made@.terms[i as int] == made.terms@[i as int]@);
        let key = if made.distinct[i] {
            lir::copy_optional_expr(&made.terms[i].argument)
        } else {
            None
        };
        proof {
            lemma_member_within(
                term_sets_view(sets@),
                lir::optional_expr_view(key),
                i as nat,
                0,
                made.terms@.len(),
            );
        }
        add_member(&mut sets, key, i);
        i += 1;
    }
    if sets.len() == 0 {
        let set = TermSet { key: None, members: Vec::new() };
        sets.push(set);
        proof {
            assert(positions(set.members@) =~= Seq::empty());
            assert(term_sets_view(sets@) =~= seq![set@]);
        }
    }
    sets
}

/// The terms of a group.
pub fn member_terms(terms: &Vec<AggregateTerm>, members: &Vec<usize>) -> (result: Vec<AggregateTerm>)
    requires
        forall|i: int| 0 <= i < members.len() ==> #[trigger] members@[i] < terms.len(),
    ensures
        result.len() == members.len(),
        forall|i: int|
            0 <= i < members.len() ==> (#[trigger] result@[i])@ == terms@[members@[i] as int]@,
{
    let mut result: Vec<AggregateTerm> = Vec::new();
    let mut i: usize = 0;
    while i < members.len()
        invariant
            i <= members.len(),
            result.len() == i,
            forall|k: int| 0 <= k < members.len() ==> #[trigger] members@[k] < terms.len(),
            forall|k: int|
                0 <= k < i ==> (#[trigger] result@[k])@ == terms@[members@[k] as int]@,
        decreases members.len() - i,
    {
        result.push(terms[members[i]].clone());
        i += 1;
    }
    result
}

/// Fields for groups, each under its name.
pub fn group_fields(groups: &Vec<GroupTerm>) -> (fields: Vec<ProjectField>)
    ensures
        lir::project_fields_view(fields@) == lowering::group_fields(lir::group_terms_view(groups@)),
{
    let mut fields: Vec<ProjectField> = Vec::new();
    let mut i: usize = 0;
    while i < groups.len()
        invariant
            i <= groups.len(),
            fields.len() == i,
            forall|k: int|
                0 <= k < i ==> (#[trigger] fields@[k])@ == (ProjectFieldView {
                    name: groups@[k]@.name,
                    expression: groups@[k]@.expression,
                }),
        decreases groups.len() - i,
    {
        fields.push(
            ProjectField {
                name: groups[i].name.clone(),
                expression: groups[i].expression.clone(),
            },
        );
        i += 1;
    }
    assert(lir::project_fields_view(fields@) =~= lowering::group_fields(
        lir::group_terms_view(groups@),
    ));
    fields
}

/// Groups by the columns of a scope that hold them.
pub fn scope_groups(groups: &Vec<GroupTerm>, scope: &str) -> (result: Vec<GroupTerm>)
    ensures
        lir::group_terms_view(result@) == lowering::scope_groups(
            lir::group_terms_view(groups@),
            scope@,
        ),
{
    let mut result: Vec<GroupTerm> = Vec::new();
    let mut i: usize = 0;
    while i < groups.len()
        invariant
            i <= groups.len(),
            result.len() == i,
            forall|k: int|
                0 <= k < i ==> (#[trigger] result@[k])@ == (GroupTermView {
                    name: groups@[k]@.name,
                    expression: operators::column_of(scope@, groups@[k]@.name),
                }),
        decreases groups.len() - i,
    {
        result.push(
            GroupTerm {
                name: groups[i].name.clone(),
                expression: column_expr(scope, groups[i].name.as_str()),
            },
        );
        i += 1;
    }
    assert(lir::group_terms_view(result@) =~= lowering::scope_groups(
        lir::group_terms_view(groups@),
        scope@,
    ));
    result
}

/// A branch over the distinct values of an argument.
pub fn distinct_branch(
    made: &Aggregator,
    members: &Vec<usize>,
    key: &Expr,
    input: Relation,
    replacements: &Vec<Replacement>,
    distinct_scope: &str,
    scope: &str,
) -> (result: Relation)
    requires
        forall|i: int| 0 <= i < members.len() ==> #[trigger] members@[i] < made.terms.len(),
    ensures
        result@ == lowering::distinct_branch(
            made@,
            positions(members@),
            key@,
            input@,
            scopes::replacements_view(replacements@),
            distinct_scope@,
            scope@,
        ),
{
    let renamed = remap_group_terms(&made.groups, replacements);
    let mut fields = group_fields(&renamed);
    fields.push(
        ProjectField {
            name: "distinct_value".to_owned(),
            expression: remap_expr_scopes(key, replacements),
        },
    );
    let ghost wanted = Seq::new(
        positions(members@).len(),
        |i: int|
            AggregateTermView {
                argument: Some(operators::column_of(distinct_scope@, "distinct_value"@)),
                ..made@.terms[positions(members@)[i] as int]
            },
    );
    let mut terms: Vec<AggregateTerm> = Vec::new();
    let mut i: usize = 0;
    while i < members.len()
        invariant
            i <= members.len(),
            terms.len() == i,
            forall|k: int| 0 <= k < members.len() ==> #[trigger] members@[k] < made.terms.len(),
            wanted.len() == members.len(),
            forall|k: int|
                0 <= k < members.len() ==> #[trigger] wanted[k] == (AggregateTermView {
                    argument: Some(operators::column_of(distinct_scope@, "distinct_value"@)),
                    ..made.terms@[members@[k] as int]@
                }),
            forall|k: int| 0 <= k < i ==> (#[trigger] terms@[k])@ == wanted[k],
        decreases members.len() - i,
    {
        let term = &made.terms[members[i]];
        terms.push(
            AggregateTerm {
                function: term.function,
                argument: Some(column_expr(distinct_scope, "distinct_value")),
                name: term.name.clone(),
            },
        );
        i += 1;
    }
    assert(lir::aggregate_terms_view(terms@) =~= wanted);
    let projected = project(input, distinct_scope, fields);
    let unique = Relation::Distinct(Box::new(projected));
    assert(unique@ is Distinct);
    Relation::Aggregate {
        input: Box::new(unique),
        scope: Some(scope.to_owned()),
        groups: scope_groups(&made.groups, distinct_scope),
        terms,
    }
}

/// A branch over all rows.
pub fn whole_branch(
    made: &Aggregator,
    members: &Vec<usize>,
    input: Relation,
    replacements: &Vec<Replacement>,
    scope: &str,
) -> (result: Relation)
    requires
        forall|i: int| 0 <= i < members.len() ==> #[trigger] members@[i] < made.terms.len(),
    ensures
        result@ == lowering::whole_branch(
            made@,
            positions(members@),
            input@,
            scopes::replacements_view(replacements@),
            scope@,
        ),
{
    let terms = member_terms(&made.terms, members);
    assert(lir::aggregate_terms_view(terms@) =~= lowering::member_terms(made@, positions(members@)));
    Relation::Aggregate {
        input: Box::new(input),
        scope: Some(scope.to_owned()),
        groups: remap_group_terms(&made.groups, replacements),
        terms: remap_aggregate_terms(&terms, replacements),
    }
}

/// One branch of an aggregation.
pub struct Branch {
    pub relation: Relation,
    pub scope: String,
    pub members: Vec<usize>,
}

impl View for Branch {
    type V = AggregateBranch;

    open spec fn view(&self) -> AggregateBranch {
        AggregateBranch {
            relation: self.relation@,
            scope: self.scope@,
            members: positions(self.members@),
        }
    }
}

pub open spec fn branches_view(branches: Seq<Branch>) -> Seq<AggregateBranch> {
    Seq::new(branches.len(), |i: int| branches[i]@)
}

/// That two branches agree in all groups.
pub fn groups_agree(groups: &Vec<GroupTerm>, left: &str, right: &str) -> (result: Expr)
    ensures
        result@ == lowering::groups_agree(lir::group_terms_view(groups@), left@, right@),
{
    if groups.len() == 0 {
        return bool_literal(true);
    }
    let ghost wanted = Seq::new(
        groups@.len(),
        |i: int|
            operators::null_safe_equal(left@, right@, lir::group_terms_view(groups@)[i].name),
    );
    let mut predicates: Vec<Expr> = Vec::new();
    let mut i: usize = 0;
    while i < groups.len()
        invariant
            i <= groups.len(),
            predicates.len() == i,
            forall|k: int|
                0 <= k < i ==> (#[trigger] predicates@[k])@ == operators::null_safe_equal(
                    left@,
                    right@,
                    groups@[k]@.name,
                ),
        decreases groups.len() - i,
    {
        predicates.push(null_safe_equality(left, right, groups[i].name.as_str()));
        i += 1;
    }
    assert(lir::exprs_view(predicates@) =~= wanted);
    match fold_binary(predicates, BinaryOp::And) {
        Ok(result) => result,
        Err(_) => bool_literal(true),
    }
}

/// Branches joined by their groups.
pub fn join_branches(groups: &Vec<GroupTerm>, branches: &Vec<Branch>) -> (result: Relation)
    requires
        branches.len() > 0,
    ensures
        result@ == lowering::joined_branches(
            lir::group_terms_view(groups@),
            branches_view(branches@),
            1,
            branches@[0]@.relation,
        ),
{
    let ghost all = branches_view(branches@);
    let mut result = branches[0].relation.clone();
    let mut i: usize = 1;
    while i < branches.len()
        invariant
            1 <= i <= branches.len(),
            all == branches_view(branches@),
            lowering::joined_branches(
                lir::group_terms_view(groups@),
                all,
                1,
                branches@[0]@.relation,
            ) == lowering::joined_branches(
                lir::group_terms_view(groups@),
                all,
                i as nat,
                result@,
            ),
        decreases branches.len() - i,
    {
        assert(all[i as int] == branches@[i as int]@);
        assert(all[0] == branches@[0]@);
        let on = groups_agree(groups, branches[0].scope.as_str(), branches[i].scope.as_str());
        result =
        Relation::Join {
            left: Box::new(result),
            right: Box::new(branches[i].relation.clone()),
            kind: JoinKind::Inner,
            on,
        };
        i += 1;
    }
    result
}

fn has_member(members: &Vec<usize>, term: usize) -> (yes: bool)
    ensures
        yes == positions(members@).contains(term as nat),
{
    let mut i: usize = 0;
    while i < members.len()
        invariant
            i <= members.len(),
            forall|k: int| 0 <= k < i ==> #[trigger] members@[k] != term,
        decreases members.len() - i,
    {
        if members[i] == term {
            assert(positions(members@)[i as int] == term as nat);
            return true;
        }
        i += 1;
    }
    proof {
        assert forall|k: int| 0 <= k < positions(members@).len() implies #[trigger] positions(
            members@,
        )[k] != term as nat by {
            assert(members@[k] != term);
        }
    }
    false
}

fn term_scope(branches: &Vec<Branch>, term: usize) -> (scope: String)
    ensures
        scope@ == lowering::term_scope(branches_view(branches@), term as nat, 0),
{
    let ghost all = branches_view(branches@);
    let mut i: usize = 0;
    while i < branches.len()
        invariant
            i <= branches.len(),
            all == branches_view(branches@),
            lowering::term_scope(all, term as nat, 0) == lowering::term_scope(
                all,
                term as nat,
                i as nat,
            ),
        decreases branches.len() - i,
    {
        assert(all[i as int] == branches@[i as int]@);
        if has_member(&branches[i].members, term) {
            return branches[i].scope.clone();
        }
        i += 1;
    }
    let scope = String::new();
    assert(scope@ =~= Seq::empty());
    scope
}

/// The fields of joined branches: the groups, then the terms.
pub fn branch_fields(made: &Aggregator, branches: &Vec<Branch>) -> (fields: Vec<ProjectField>)
    requires
        branches.len() > 0,
    ensures
        lir::project_fields_view(fields@) == lowering::branch_fields(
            made@,
            branches_view(branches@),
        ),
{
    let ghost all = branches_view(branches@);
    assert(all[0] == branches@[0]@);
    let groups = scope_groups(&made.groups, branches[0].scope.as_str());
    let mut fields = group_fields(&groups);
    let ghost before = lir::project_fields_view(fields@);
    let ghost wanted = Seq::new(
        made@.terms.len(),
        |i: int|
            ProjectFieldView {
                name: made@.terms[i].name,
                expression: operators::column_of(
                    lowering::term_scope(all, i as nat, 0),
                    made@.terms[i].name,
                ),
            },
    );
    let mut i: usize = 0;
    assert(before + wanted.take(0) =~= before);
    while i < made.terms.len()
        invariant
            i <= made.terms.len(),
            all == branches_view(branches@),
            wanted.len() == made.terms.len(),
            forall|k: int|
                0 <= k < made.terms.len() ==> #[trigger] wanted[k] == (ProjectFieldView {
                    name: made.terms@[k]@.name,
                    expression: operators::column_of(
                        lowering::term_scope(all, k as nat, 0),
                        made.terms@[k]@.name,
                    ),
                }),
            lir::project_fields_view(fields@) == before + wanted.take(i as int),
        decreases made.terms.len() - i,
    {
        let scope = term_scope(branches, i);
        let name = made.terms[i].name.as_str();
        fields.push(
            ProjectField {
                name: made.terms[i].name.clone(),
                expression: column_expr(scope.as_str(), name),
            },
        );
        proof {
            assert(wanted.take(i + 1) =~= wanted.take(i as int).push(wanted[i as int]));
            assert(before + wanted.take(i + 1) =~= (before + wanted.take(i as int)).push(
                wanted[i as int],
            ));
        }
        i += 1;
    }
    assert(wanted.take(i as int) =~= wanted);
    fields
}

/// What the projection of an aggregation has produced.
pub struct AggregateOutput {
    pub names: Vec<String>,
    pub columns: Vec<ResultColumn>,
    pub sources: Vec<Expr>,
}

impl View for AggregateOutput {
    type V = AggregateOutputs;

    open spec fn view(&self) -> AggregateOutputs {
        AggregateOutputs {
            names: text::texts(self.names@),
            columns: types::result_columns_view(self.columns@),
            sources: lir::exprs_view(self.sources@),
        }
    }
}

/// The format of the group that an expression is.
pub fn group_format(keys: &Vec<&Tree>, columns: &Vec<ResultColumn>, expression: &Tree) -> (format: String)
    requires
        keys.len() <= columns.len(),
    ensures
        format@ == lowering::group_format(
            shapes::refs_view(keys@),
            types::result_columns_view(columns@),
            expression@,
            0,
        ),
{
    let ghost all = shapes::refs_view(keys@);
    let mut i: usize = 0;
    while i < keys.len()
        invariant
            i <= keys.len(),
            keys.len() <= columns.len(),
            all == shapes::refs_view(keys@),
            lowering::group_format(
                all,
                types::result_columns_view(columns@),
                expression@,
                0,
            ) == lowering::group_format(
                all,
                types::result_columns_view(columns@),
                expression@,
                i as nat,
            ),
        decreases keys.len() - i,
    {
        assert(all[i as int] == keys@[i as int]@);
        if keys[i].same_syntax(expression) {
            return columns[i].format.clone();
        }
        i += 1;
    }
    let format = String::new();
    assert(format@ =~= Seq::empty());
    format
}

/// The fields of an aggregation's output.
pub fn output_fields(columns: &Vec<ResultColumn>, sources: &Vec<Expr>) -> (fields: Vec<ProjectField>)
    requires
        columns.len() == sources.len(),
    ensures
        lir::project_fields_view(fields@) == lowering::output_fields(
            types::result_columns_view(columns@),
            lir::exprs_view(sources@),
        ),
{
    let mut fields: Vec<ProjectField> = Vec::new();
    let mut i: usize = 0;
    while i < columns.len()
        invariant
            i <= columns.len(),
            columns.len() == sources.len(),
            fields.len() == i,
            forall|k: int|
                0 <= k < i ==> (#[trigger] fields@[k])@ == (ProjectFieldView {
                    name: columns@[k]@.row_field(),
                    expression: sources@[k]@,
                }),
        decreases columns.len() - i,
    {
        fields.push(
            ProjectField { name: columns[i].field().to_owned(), expression: sources[i].clone() },
        );
        i += 1;
    }
    assert(lir::project_fields_view(fields@) =~= lowering::output_fields(
        types::result_columns_view(columns@),
        lir::exprs_view(sources@),
    ));
    fields
}

/// Order terms for expressions, ascending.
pub fn ascending(expressions: &Vec<Expr>) -> (terms: Vec<OrderTerm>)
    ensures
        lir::order_terms_view(terms@) == lowering::ascending(lir::exprs_view(expressions@)),
{
    let mut terms: Vec<OrderTerm> = Vec::new();
    let mut i: usize = 0;
    while i < expressions.len()
        invariant
            i <= expressions.len(),
            terms.len() == i,
            forall|k: int|
                0 <= k < i ==> (#[trigger] terms@[k])@ == (OrderTermView {
                    expression: expressions@[k]@,
                    descending: false,
                }),
        decreases expressions.len() - i,
    {
        terms.push(OrderTerm { expression: expressions[i].clone(), descending: false });
        i += 1;
    }
    assert(lir::order_terms_view(terms@) =~= lowering::ascending(lir::exprs_view(expressions@)));
    terms
}

} // verus!
