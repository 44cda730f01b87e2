//! Lowering of aggregations.

use vstd::prelude::*;

use crate::sql::aggregation;
use crate::sql::aggregation::{AggregateCall, AggregateOutput, Aggregator, Branch, TermSet};
use crate::sql::assembly;
use crate::sql::context::Context;
use crate::sql::env;
use crate::sql::env::ExpressionCompiler;
use crate::sql::forms;
use crate::sql::lir;
use crate::sql::lir::{AggregateFunction, Expr, Relation, ScalarType};
use crate::sql::literals::object_name;
use crate::sql::lowering;
use crate::sql::lowering::{Aggregation, Gathered};
use crate::sql::scopes;
use crate::sql::scopes::Replacement;
use crate::sql::shapes;
use crate::sql::tree;
use crate::sql::tree::{Tree, TreeView};
use crate::sql::types;
use crate::sql::types::{Error, ErrorView, ExpressionEnv, LoweredQuery, ResultColumn, SelectSource};
use crate::text;
use crate::text::{join3, same_text, to_lower};

verus! {

broadcast use {
    tree::group_tree_heights,
    lir::group_lir_views,
    types::group_sql_views,
};

impl<'a> Context<'a> {
    pub(crate) fn group(
        &mut self,
        compiler: &ExpressionCompiler,
        keys: &Vec<&Tree>,
        made: Aggregator,
    ) -> (result: Result<Aggregator, Error>)
        requires
            made.groups.len() == 0,
            made.columns.len() == 0,
            made.terms.len() == 0,
            made.distinct.len() == 0,
        ensures
            final(self).around() == old(self).around(),
            lowering::grouped(
                old(self).around(),
                old(self).state(),
                compiler@,
                shapes::refs_view(keys@),
                0,
                made@,
            ) == lowering::settled(forms::viewed(result), final(self).state()),
            result matches Ok(done) ==> done.columns.len() == keys.len() && done.terms.len() == 0
                && done.distinct.len() == 0,
        decreases lowering::reach(shapes::refs_view(keys@)), 3nat, 0nat,
    {
        let ghost all = shapes::refs_view(keys@);
        let mut done = made;
        let mut i: usize = 0;
        while i < keys.len()
            invariant
                i <= keys.len(),
                all == shapes::refs_view(keys@),
                done.groups.len() == i,
                done.columns.len() == i,
                done.terms.len() == 0,
                done.distinct.len() == 0,
                self.around() == old(self).around(),
                lowering::grouped(
                    old(self).around(),
                    old(self).state(),
                    compiler@,
                    all,
                    0,
                    made@,
                ) == lowering::grouped(
                    self.around(),
                    self.state(),
                    compiler@,
                    all,
                    i as nat,
                    done@,
                ),
            decreases keys.len() - i,
        {
            proof {
                tree::lemma_item_height(all, i as int);
                assert(all[i as int] == keys@[i as int]@);
            }
            match self.compile(compiler, keys[i], None) {
                Ok(value) => {
                    done.add_group(i + 1, keys[i], value, &compiler.env);
                    assert(done@.columns.len() == i + 1);
                    assert(done@.groups.len() == i + 1);
                    assert(done@.terms.len() == 0);
                },
                Err(error) => {
                    return Err(error);
                },
            }
            i += 1;
        }
        Ok(done)
    }

    pub(crate) fn aggregate(&mut self, compiler: &ExpressionCompiler, function: &Tree) -> (result: Result<
        AggregateCall,
        Error,
    >)
        ensures
            final(self).around() == old(self).around(),
            lowering::aggregate_of(old(self).around(), old(self).state(), compiler@, function@)
                == lowering::settled(forms::viewed(result), final(self).state()),
        decreases tree::height(function@), 2nat, 0nat,
    {
        if !function.at("over").absent() || !function.at("filter").absent() {
            return Err(
                Error::Unsupported(
                    "window and filtered aggregates are not supported".to_owned(),
                ),
            );
        }
        let name = match object_name(function.at("name")) {
            Ok(name) => to_lower(name.as_str()),
            Err(error) => {
                return Err(error);
            },
        };
        if !function.at("args").is("List") {
            return Err(
                Error::Unsupported(
                    join3("aggregate ", name.as_str(), " has unsupported arguments"),
                ),
            );
        }
        let list = function.at("args").at("List");
        if list.at("clauses").count() > 0 {
            return Err(
                Error::Unsupported(
                    join3("aggregate ", name.as_str(), " argument clauses are not supported"),
                ),
            );
        }
        let distinct = list.at("duplicate_treatment").is("Distinct");
        let arguments = list.at("args");
        if same_text(name.as_str(), "count") && arguments.count() == 1 && arguments.item(0).at(
            "Unnamed",
        ).is("Wildcard") {
            if distinct {
                return Err(Error::Invalid("COUNT(DISTINCT *) is not valid".to_owned()));
            }
            return Ok(
                AggregateCall {
                    function: AggregateFunction::Count,
                    argument: None,
                    scalar_type: ScalarType::Int64,
                    nullable: false,
                    distinct: false,
                },
            );
        }
        if !(arguments.count() == 1 && arguments.item(0).at("Unnamed").is("Expr")) {
            return Err(
                Error::Unsupported(join3("aggregate ", name.as_str(), " needs one argument")),
            );
        }
        let argument = arguments.item(0).at("Unnamed").at("Expr");
        let value = match self.compile(compiler, argument, None) {
            Ok(value) => value,
            Err(error) => {
                return Err(error);
            },
        };
        match aggregation::aggregate_function(name.as_str()) {
            Some(function) => Ok(
                AggregateCall {
                    function,
                    argument: Some(value.expr),
                    scalar_type: aggregation::aggregate_type(function, value.scalar_type),
                    nullable: !matches!(function, AggregateFunction::Count),
                    distinct,
                },
            ),
            None => Err(
                Error::Unsupported(join3("aggregate ", name.as_str(), " is not supported")),
            ),
        }
    }

    #[verifier::rlimit(60)]
    pub(crate) fn aggregate_terms(
        &mut self,
        compiler: &ExpressionCompiler,
        found: &Vec<&Tree>,
        made: Aggregator,
    ) -> (result: Result<Aggregator, Error>)
        requires
            made.terms.len() == 0,
            made.distinct.len() == 0,
        ensures
            final(self).around() == old(self).around(),
            lowering::with_terms(
                old(self).around(),
                old(self).state(),
                compiler@,
                shapes::refs_view(found@),
                0,
                made@,
            ) == lowering::settled(forms::viewed(result), final(self).state()),
            result matches Ok(done) ==> done.columns.len() >= made.columns.len()
                && done.distinct.len() == done.terms.len(),
        decreases lowering::reach(shapes::refs_view(found@)), 3nat, 0nat,
    {
        let ghost all = shapes::refs_view(found@);
        let mut done = made;
        let mut i: usize = 0;
        while i < found.len()
            invariant
                i <= found.len(),
                all == shapes::refs_view(found@),
                done.terms.len() == i,
                done.distinct.len() == i,
                done.columns.len() >= made.columns.len(),
                self.around() == old(self).around(),
                lowering::with_terms(
                    old(self).around(),
                    old(self).state(),
                    compiler@,
                    all,
                    0,
                    made@,
                ) == lowering::with_terms(
                    self.around(),
                    self.state(),
                    compiler@,
                    all,
                    i as nat,
                    done@,
                ),
            decreases found.len() - i,
        {
            proof {
                tree::lemma_item_height(all, i as int);
                assert(all[i as int] == found@[i as int]@);
            }
            match self.aggregate(compiler, found[i].at("Function")) {
                Ok(call) => {
                    let ghost before = done@;
                    done.add_term(i + 1, found[i], call);
                    assert(done@.terms.len() == i + 1);
                    assert(done@.columns.len() == before.columns.len() + 1);
                },
                Err(error) => {
                    return Err(error);
                },
            }
            i += 1;
        }
        Ok(done)
    }

    pub(crate) fn fresh_relation(&mut self, relation: &Relation) -> (replacements: Vec<Replacement>)
        ensures
            final(self).around() == old(self).around(),
            lowering::fresh_relation(old(self).state(), relation@) == (
                scopes::replacements_view(replacements@),
                final(self).state(),
            ),
    {
        let mut found: Vec<String> = Vec::new();
        scopes::collect_relation_scopes(relation, &mut found);
        let names = scopes::order_names(&found);
        let ghost all = text::texts(names@);
        let mut replacements: Vec<Replacement> = Vec::new();
        let mut i: usize = 0;
        proof {
            assert(scopes::replacements_view(replacements@) =~= Seq::empty());
            assert(all == scopes::ordered_names(scopes::relation_scopes(relation@)));
        }
        while i < names.len()
            invariant
                i <= names.len(),
                all == text::texts(names@),
                all == scopes::ordered_names(scopes::relation_scopes(relation@)),
                self.around() == old(self).around(),
                lowering::fresh_names(old(self).state(), all, 0, Seq::empty())
                    == lowering::fresh_names(
                    self.state(),
                    all,
                    i as nat,
                    scopes::replacements_view(replacements@),
                ),
            decreases names.len() - i,
        {
            let ghost before = scopes::replacements_view(replacements@);
            let to = self.scope("aggregate_input");
            let replacement = Replacement { from: names[i].clone(), to };
            replacements.push(replacement);
            assert(scopes::replacements_view(replacements@) =~= before.push(replacement@));
            i += 1;
        }
        replacements
    }

    pub(crate) fn aggregate_branch(
        &mut self,
        relation: &Relation,
        made: &Aggregator,
        set: &TermSet,
        scope: Option<&str>,
    ) -> (branch: Branch)
        requires
            forall|i: int|
                0 <= i < set.members.len() ==> #[trigger] set.members@[i] < made.terms.len(),
        ensures
            final(self).around() == old(self).around(),
            lowering::branch_of(
                old(self).state(),
                relation@,
                made@,
                set@,
                env::qualifier_view(scope),
            ) == (branch@, final(self).state()),
    {
        let replacements = self.fresh_relation(relation);
        let input = scopes::remap_relation_scopes(relation, &replacements);
        let label = match scope {
            Some(scope) => scope.to_owned(),
            None => self.scope("aggregate_branch"),
        };
        let members = copy_positions(&set.members);
        let relation = match &set.key {
            Some(key) => {
                let distinct_scope = self.scope("aggregate_distinct");
                aggregation::distinct_branch(
                    made,
                    &members,
                    key,
                    input,
                    &replacements,
                    distinct_scope.as_str(),
                    label.as_str(),
                )
            },
            None => aggregation::whole_branch(
                made,
                &members,
                input,
                &replacements,
                label.as_str(),
            ),
        };
        Branch { relation, scope: label, members }
    }

    pub(crate) fn aggregate_relation(&mut self, relation: &Relation, made: &Aggregator, scope: &str) -> (result:
        Relation)
        requires
            made.distinct.len() == made.terms.len(),
        ensures
            final(self).around() == old(self).around(),
            lowering::aggregate_relation(old(self).state(), relation@, made@, scope@) == (
                result@,
                final(self).state(),
            ),
    {
        reveal(lowering::aggregate_relation);
        let sets = aggregation::branch_sets(made);
        let ghost all = aggregation::term_sets_view(sets@);
        proof {
            assert forall|i: int, k: int|
                0 <= i < sets.len() && 0 <= k < sets@[i].members.len() implies #[trigger] sets@[i].members@[k]
                < made.terms.len() by {
                assert(all[i].members[k] == sets@[i].members@[k]);
            }
        }
        if sets.len() == 1 {
            assert(all[0] == sets@[0]@);
            let branch = self.aggregate_branch(relation, made, &sets[0], Some(scope));
            return branch.relation;
        }
        let mut parts: Vec<Branch> = Vec::new();
        let mut i: usize = 0;
        assert(aggregation::branches_view(parts@) =~= Seq::empty());
        while i < sets.len()
            invariant
                i <= sets.len(),
                parts.len() == i,
                all == aggregation::term_sets_view(sets@),
                forall|i: int, k: int|
                    0 <= i < sets.len() && 0 <= k < sets@[i].members.len()
                        ==> #[trigger] sets@[i].members@[k] < made.terms.len(),
                self.around() == old(self).around(),
                lowering::branches(
                    old(self).state(),
                    relation@,
                    made@,
                    all,
                    0,
                    None,
                    Seq::empty(),
                ) == lowering::branches(
                    self.state(),
                    relation@,
                    made@,
                    all,
                    i as nat,
                    None,
                    aggregation::branches_view(parts@),
                ),
            decreases sets.len() - i,
        {
            assert(all[i as int] == sets@[i as int]@);
            let ghost before = aggregation::branches_view(parts@);
            let branch = self.aggregate_branch(relation, made, &sets[i], None);
            parts.push(branch);
            assert(aggregation::branches_view(parts@) =~= before.push(branch@));
            i += 1;
        }
        assert(aggregation::branches_view(parts@)[0] == parts@[0]@);
        let combined = aggregation::join_branches(&made.groups, &parts);
        let fields = aggregation::branch_fields(made, &parts);
        assembly::project(combined, scope, fields)
    }

    pub(crate) fn aggregate_outputs(
        &mut self,
        compiler: &ExpressionCompiler,
        projection: &Tree,
        keys: &Vec<&Tree>,
        columns: &Vec<ResultColumn>,
    ) -> (result: Result<AggregateOutput, Error>)
        requires
            keys.len() <= columns.len(),
        ensures
            final(self).around() == old(self).around(),
            lowering::aggregate_outputs(
                old(self).around(),
                old(self).state(),
                compiler@,
                projection@,
                0,
                shapes::refs_view(keys@),
                types::result_columns_view(columns@),
                lowering::no_aggregate_outputs(),
            ) == lowering::settled(forms::viewed(result), final(self).state()),
            result matches Ok(output) ==> output.columns.len() == output.sources.len(),
        decreases tree::height(projection@), 3nat, 0nat,
    {
        let mut output = AggregateOutput {
            names: Vec::new(),
            columns: Vec::new(),
            sources: Vec::new(),
        };
        assert(output@ =~= lowering::no_aggregate_outputs());
        let count = projection.count();
        let mut i: usize = 0;
        while i < count
            invariant
                i <= count,
                count == tree::list(projection@).len(),
                keys.len() <= columns.len(),
                output.columns.len() == output.sources.len(),
                self.around() == old(self).around(),
                lowering::aggregate_outputs(
                    old(self).around(),
                    old(self).state(),
                    compiler@,
                    projection@,
                    0,
                    shapes::refs_view(keys@),
                    types::result_columns_view(columns@),
                    lowering::no_aggregate_outputs(),
                ) == lowering::aggregate_outputs(
                    self.around(),
                    self.state(),
                    compiler@,
                    projection@,
                    i as nat,
                    shapes::refs_view(keys@),
                    types::result_columns_view(columns@),
                    output@,
                ),
            decreases count - i,
        {
            let item = projection.item(i);
            let expression = shapes::expression_ast(item);
            assert(tree::height(tree::at(item@, "UnnamedExpr"@)) <= tree::height(item@));
            assert(tree::height(tree::at(item@, "ExprWithAlias"@)) <= tree::height(item@));
            let value = match self.compile(compiler, expression, None) {
                Ok(value) => value,
                Err(error) => {
                    return Err(error);
                },
            };
            let name = shapes::select_item_name(item);
            let field = env::unique_name(name.as_str(), &mut output.names);
            let format = aggregation::group_format(keys, columns, expression);
            output.columns.push(
                ResultColumn {
                    name,
                    field,
                    scalar_type: value.scalar_type,
                    nullable: value.nullable,
                    format,
                },
            );
            output.sources.push(value.expr);
            i += 1;
        }
        Ok(output)
    }

    pub(crate) fn aggregate_order(
        &mut self,
        compiler: &ExpressionCompiler,
        order: &Tree,
        projection: &Tree,
        relation: Relation,
        sources: &Vec<Expr>,
        distinct: bool,
    ) -> (result: Result<Relation, Error>)
        ensures
            final(self).around() == old(self).around(),
            lowering::aggregate_sorted(
                old(self).around(),
                old(self).state(),
                compiler@,
                order@,
                projection@,
                relation@,
                lir::exprs_view(sources@),
                distinct,
            ) == lowering::settled(forms::viewed(result), final(self).state()),
        decreases
                lowering::higher(tree::height(order@), tree::height(projection@)),
                5nat,
                0nat,
    {
        if distinct {
            return Ok(relation);
        }
        let terms = match self.order(compiler, order, projection) {
            Ok(Some(terms)) => terms,
            Ok(None) => aggregation::ascending(sources),
            Err(error) => {
                return Err(error);
            },
        };
        Ok(Relation::Order { input: Box::new(relation), terms })
    }

    pub(crate) fn aggregate_output(
        &mut self,
        select: &Tree,
        order: &Tree,
        limit: &Tree,
        relation: Relation,
        keys: &Vec<&Tree>,
        made: Aggregator,
        aggregate_scope: &str,
        scope: String,
    ) -> (result: Result<LoweredQuery, Error>)
        requires
            keys.len() <= made.columns.len(),
        ensures
            final(self).around() == old(self).around(),
            lowering::aggregate_output(
                old(self).around(),
                old(self).state(),
                select@,
                order@,
                limit@,
                relation@,
                shapes::refs_view(keys@),
                made@,
                aggregate_scope@,
                scope@,
            ) == lowering::settled(forms::viewed(result), final(self).state()),
        decreases lowering::select_height(select@, order@, limit@), 5nat, 1nat,
    {
        let compiler = ExpressionCompiler::with_output(
            aggregate_scope,
            &made.columns,
            made.substitutions,
        );
        let projection = select.at("projection");
        let relation = match self.filter(&compiler, relation, select.at("having")) {
            Ok(relation) => relation,
            Err(error) => {
                return Err(error);
            },
        };
        let output = match self.aggregate_outputs(&compiler, projection, keys, &made.columns) {
            Ok(output) => output,
            Err(error) => {
                return Err(error);
            },
        };
        let distinct = match shapes::select_distinct(select) {
            Ok(distinct) => distinct,
            Err(error) => {
                return Err(error);
            },
        };
        let relation = match self.aggregate_order(
            &compiler,
            order,
            projection,
            relation,
            &output.sources,
            distinct,
        ) {
            Ok(relation) => relation,
            Err(error) => {
                return Err(error);
            },
        };
        let slice = match self.limit(&compiler, limit) {
            Ok(slice) => slice,
            Err(error) => {
                return Err(error);
            },
        };
        let one = keys.len() == 0 || assembly::keeps_one(&slice);
        let fields = aggregation::output_fields(&output.columns, &output.sources);
        let relation = if distinct {
            let projected = assembly::project(relation, scope.as_str(), fields);
            match self.arrange_distinct(
                order,
                projection,
                projected,
                &output.columns,
                scope.as_str(),
                &slice,
            ) {
                Ok(relation) => relation,
                Err(error) => {
                    return Err(error);
                },
            }
        } else {
            assembly::project(assembly::cut(relation, &slice), scope.as_str(), fields)
        };
        Ok(LoweredQuery { relation, columns: output.columns, scope, one })
    }

    pub(crate) fn group_rows<'t>(&mut self, compiler: &ExpressionCompiler, select: &'t Tree) -> (result:
        Result<(Vec<&'t Tree>, Aggregator), Error>)
        ensures
            final(self).around() == old(self).around(),
            lowering::grouped_rows(
                old(self).around(),
                old(self).state(),
                compiler@,
                select@,
            ) == lowering::settled(grouped_result(result), final(self).state()),
            result matches Ok((keys, made)) ==> keys.len() <= made.columns.len()
                && made.terms.len() == 0 && made.distinct.len() == 0,
        decreases tree::height(select@), 4nat, 0nat,
    {
        let keys = match aggregation::grouping_keys(select) {
            Ok(keys) => keys,
            Err(error) => {
                return Err(error);
            },
        };
        assert(lowering::reach(shapes::refs_view(keys@)) <= tree::height(select@)) by {
            lowering::lemma_grouping_keys_reach(select@);
        }
        match self.group(compiler, &keys, Aggregator::new()) {
            Ok(made) => Ok((keys, made)),
            Err(error) => Err(error),
        }
    }

    pub(crate) fn add_aggregates(
        &mut self,
        compiler: &ExpressionCompiler,
        select: &Tree,
        order: &Tree,
        made: Aggregator,
    ) -> (result: Result<Aggregator, Error>)
        requires
            made.terms.len() == 0,
            made.distinct.len() == 0,
        ensures
            final(self).around() == old(self).around(),
            lowering::with_aggregates(
                old(self).around(),
                old(self).state(),
                compiler@,
                select@,
                order@,
                made@,
            ) == lowering::settled(forms::viewed(result), final(self).state()),
            result matches Ok(done) ==> done.columns.len() >= made.columns.len()
                && done.distinct.len() == done.terms.len(),
        decreases
                lowering::higher(tree::height(select@), tree::height(order@)),
                4nat,
                0nat,
    {
        if !aggregation::projects_expressions(select.at("projection")) {
            return Err(
                Error::Unsupported(
                    "wildcard projection is not valid in an aggregate query".to_owned(),
                ),
            );
        }
        let found = aggregation::all_aggregates(select, order);
        assert(lowering::reach(shapes::refs_view(found@)) <= lowering::higher(
            tree::height(select@),
            tree::height(order@),
        )) by {
            lowering::lemma_all_aggregates_reach(select@, order@);
        }
        self.aggregate_terms(compiler, &found, made)
    }

    pub(crate) fn gather<'t>(&mut self, select: &'t Tree, order: &'t Tree, source: SelectSource) -> (result:
        Result<(Relation, Vec<&'t Tree>, Aggregator), Error>)
        ensures
            final(self).around() == old(self).around(),
            lowering::gathered(
                old(self).around(),
                old(self).state(),
                select@,
                order@,
                source@,
            ) == lowering::settled(gathered_result(result), final(self).state()),
            result matches Ok((_, keys, made)) ==> keys.len() <= made.columns.len()
                && made.distinct.len() == made.terms.len(),
        decreases
                lowering::higher(tree::height(select@), tree::height(order@)),
                4nat,
                1nat,
    {
        let compiler = ExpressionCompiler::new(source.env);
        let relation = match self.filter(&compiler, source.relation, select.at("selection")) {
            Ok(relation) => relation,
            Err(error) => {
                return Err(error);
            },
        };
        let (keys, made) = match self.group_rows(&compiler, select) {
            Ok(found) => found,
            Err(error) => {
                return Err(error);
            },
        };
        match self.add_aggregates(&compiler, select, order, made) {
            Ok(made) => Ok((relation, keys, made)),
            Err(error) => Err(error),
        }
    }

    pub(crate) fn aggregate_select(
        &mut self,
        select: &Tree,
        order: &Tree,
        limit: &Tree,
        parent: &ExpressionEnv,
    ) -> (result: Result<LoweredQuery, Error>)
        ensures
            final(self).around() == old(self).around(),
            lowering::aggregated(
                old(self).around(),
                old(self).state(),
                select@,
                order@,
                limit@,
                parent@,
            ) == lowering::settled(forms::viewed(result), final(self).state()),
        decreases lowering::select_height(select@, order@, limit@), 5nat, 2nat,
    {
        let source = match self.select_source(select, parent) {
            Ok(source) => source,
            Err(error) => {
                return Err(error);
            },
        };
        let aggregate_scope = self.scope("aggregate");
        let scope = self.scope("result");
        let (relation, keys, made) = match self.gather(select, order, source) {
            Ok(found) => found,
            Err(error) => {
                return Err(error);
            },
        };
        let relation = self.aggregate_relation(&relation, &made, aggregate_scope.as_str());
        self.aggregate_output(
            select,
            order,
            limit,
            relation,
            &keys,
            made,
            aggregate_scope.as_str(),
            scope,
        )
    }
}

/// The view of a fallible grouping.
pub open spec fn grouped_result(result: Result<(Vec<&Tree>, Aggregator), Error>) -> Result<
    (Seq<TreeView>, Aggregation),
    ErrorView,
> {
    match result {
        Ok((keys, made)) => Ok((shapes::refs_view(keys@), made@)),
        Err(error) => Err(error@),
    }
}

/// The view of the fallible parts of an aggregation.
pub open spec fn gathered_result(result: Result<(Relation, Vec<&Tree>, Aggregator), Error>) -> Result<
    Gathered,
    ErrorView,
> {
    match result {
        Ok((relation, keys, made)) => Ok(
            Gathered { relation: relation@, keys: shapes::refs_view(keys@), made: made@ },
        ),
        Err(error) => Err(error@),
    }
}

fn copy_positions(members: &Vec<usize>) -> (copies: Vec<usize>)
    ensures
        copies@ == members@,
{
    let mut copies: Vec<usize> = Vec::new();
    let mut i: usize = 0;
    while i < members.len()
        invariant
            i <= members.len(),
            copies@ == members@.take(i as int),
        decreases members.len() - i,
    {
        copies.push(members[i]);
        assert(members@.take(i + 1) =~= members@.take(i as int).push(members@[i as int]));
        i += 1;
    }
    assert(members@.take(i as int) =~= members@);
    copies
}

} // verus!
