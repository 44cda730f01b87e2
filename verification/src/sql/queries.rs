//! Lowering of queries.

use vstd::prelude::*;

use crate::sql::aggregation;
use crate::sql::assembly;
use crate::sql::assembly::{Joined, Output};
use crate::sql::catalog;
use crate::sql::context::Context;
use crate::sql::catalog::Table;
use crate::sql::env;
use crate::sql::env::{refer, ExpressionCompiler};
use crate::sql::forms;
use crate::sql::lir;
use crate::sql::lir::{
    BinaryOp, Binding, Expr, Literal, OrderTerm, OrderTermView, RawScalar, Relation, RelationView, ScalarType,
};
use crate::sql::literals::{identifier, object_name};
use crate::sql::lowering;
use crate::sql::lowering::{Selection, Slice, State};
use crate::sql::operators::{bool_literal, fold_binary};
use crate::sql::scopes;
use crate::sql::shapes;
use crate::sql::shapes::OutputKey;
use crate::sql::syntax;
use crate::sql::tree;
use crate::sql::tree::{Tree, TreeView};
use crate::sql::types;
use crate::sql::types::{
    BindingColumns, BindingColumnsView, CompiledExpr, Error, ErrorView, ExpressionEnv, LoweredQuery, ResultColumn, ScopeDef, ScopeDefView, SelectSource,
};
use crate::text;
use crate::text::{count_text, join, join3, join4, join5, parse_count, quoted, same_text};

verus! {

broadcast use {
    tree::group_tree_heights,
    lir::group_lir_views,
    types::group_sql_views,
};

impl<'a> Context<'a> {
    /// The columns of a WITH name.
    pub(crate) fn bound_columns(&self, name: &str) -> (found: Option<Vec<ResultColumn>>)
        ensures
            lowering::bound_columns(self.state().columns, name@) == (match found {
                Some(columns) => Some(types::result_columns_view(columns@)),
                None => None,
            }),
    {
        let ghost all = self.state().columns;
        let mut i: usize = 0;
        assert(all.skip(0) =~= all);
        while i < self.binding_columns.len()
            invariant
                i <= self.binding_columns.len(),
                all == types::binding_columnss_view(self.binding_columns@),
                lowering::bound_columns(all, name@) == lowering::bound_columns(
                    all.skip(i as int),
                    name@,
                ),
            decreases self.binding_columns.len() - i,
        {
            assert(all.skip(i as int)[0] == self.binding_columns@[i as int]@);
            if same_text(self.binding_columns[i].name.as_str(), name) {
                return Some(types::copy_result_columns(&self.binding_columns[i].columns));
            }
            assert(all.skip(i as int).skip(1) =~= all.skip(i + 1));
            i += 1;
        }
        None
    }

    /// Binds columns to a WITH name.
    pub(crate) fn bind_columns(&mut self, name: &str, columns: &Vec<ResultColumn>)
        ensures
            final(self).around() == old(self).around(),
            final(self).state() == (State {
                columns: lowering::with_binding_columns(
                    old(self).state().columns,
                    name@,
                    types::result_columns_view(columns@),
                    0,
                ),
                ..old(self).state()
            }),
    {
        let ghost all = self.state().columns;
        let ghost bound = types::result_columns_view(columns@);
        let entry = BindingColumns {
            name: name.to_owned(),
            columns: types::copy_result_columns(columns),
        };
        let mut i: usize = 0;
        while i < self.binding_columns.len()
            invariant
                i <= self.binding_columns.len(),
                *self == *old(self),
                all == types::binding_columnss_view(self.binding_columns@),
                bound == types::result_columns_view(columns@),
                entry@.name == name@,
                entry@.columns == bound,
                lowering::with_binding_columns(all, name@, bound, 0)
                    == lowering::with_binding_columns(all, name@, bound, i as nat),
            decreases self.binding_columns.len() - i,
        {
            assert(all[i as int] == self.binding_columns@[i as int]@);
            if same_text(self.binding_columns[i].name.as_str(), name) {
                self.binding_columns.set(i, entry);
                assert(entry@ == BindingColumnsView { name: name@, columns: bound });
                assert(types::binding_columnss_view(self.binding_columns@) =~= all.update(
                    i as int,
                    entry@,
                ));
                return;
            }
            i += 1;
        }
        self.binding_columns.push(entry);
    }

    /// Binds a relation to a WITH name.
    pub(crate) fn bind_relation(&mut self, name: &str, relation: Relation)
        ensures
            final(self).around() == old(self).around(),
            final(self).state() == (State {
                bindings: lowering::with_binding(
                    old(self).state().bindings,
                    name@,
                    relation@,
                    0,
                ),
                ..old(self).state()
            }),
    {
        let ghost all = self.state().bindings;
        let entry = Binding { name: name.to_owned(), relation };
        let mut i: usize = 0;
        while i < self.bindings.len()
            invariant
                i <= self.bindings.len(),
                *self == *old(self),
                all == lir::bindings_view(self.bindings@),
                entry@.name == name@,
                entry@.relation == relation@,
                lowering::with_binding(all, name@, relation@, 0) == lowering::with_binding(
                    all,
                    name@,
                    relation@,
                    i as nat,
                ),
            decreases self.bindings.len() - i,
        {
            assert(all[i as int] == self.bindings@[i as int]@);
            if same_text(self.bindings[i].name.as_str(), name) {
                self.bindings.set(i, entry);
                assert(lir::bindings_view(self.bindings@) =~= all.update(i as int, entry@));
                return;
            }
            i += 1;
        }
        self.bindings.push(entry);
    }

    /// Lowers a query inside row sources that it may refer to.
    pub fn select_query_in(&mut self, query: &Tree, parent: &ExpressionEnv) -> (result: Result<
        LoweredQuery,
        Error,
    >)
        ensures
            final(self).around() == old(self).around(),
            lowering::lowered(old(self).around(), old(self).state(), query@, parent@)
                == lowering::settled(forms::viewed(result), final(self).state()),
        decreases tree::height(query@), 9nat, 0nat,
    {
        if query.at("locks").count() > 0 || !query.at("fetch").absent() {
            return Err(
                Error::Unsupported("row locks and FETCH are not supported yet".to_owned()),
            );
        }
        if let Err(error) = self.register_ctes(query.at("with")) {
            return Err(error);
        }
        let body = query.at("body");
        if body.is("Select") {
            self.select(
                body.at("Select"),
                query.at("order_by"),
                query.at("limit_clause"),
                parent,
            )
        } else if body.is("Query") {
            self.select_query_in(body.at("Query"), parent)
        } else if body.is("SetOperation") {
            self.set_query(query, parent)
        } else {
            let shown = syntax::show_set_expr(body);
            Err(
                Error::Unsupported(
                    join3("query body ", shown.as_str(), " is not supported yet"),
                ),
            )
        }
    }

    pub(crate) fn register_ctes(&mut self, with: &Tree) -> (result: Result<(), Error>)
        ensures
            final(self).around() == old(self).around(),
            lowering::registered(old(self).around(), old(self).state(), with@, 0) == (match result {
                Ok(_) => Ok(final(self).state()),
                Err(error) => Err(error@),
            }),
        decreases tree::height(with@), 8nat, 0nat,
    {
        let items = with.at("cte_tables");
        let count = items.count();
        let mut i: usize = 0;
        while i < count
            invariant
                i <= count,
                items@ == tree::at(with@, "cte_tables"@),
                count == tree::list(items@).len(),
                self.around() == old(self).around(),
                lowering::registered(old(self).around(), old(self).state(), with@, 0)
                    == lowering::registered(self.around(), self.state(), with@, i as nat),
            decreases count - i,
        {
            let cte = items.item(i);
            assert(tree::height(cte@) < tree::height(items@));
            let name = identifier(cte.at("alias").at("name"));
            if self.bound_columns(name.as_str()).is_some() {
                let shown = quoted(name.as_str());
                return Err(
                    Error::Invalid(join3("WITH name ", shown.as_str(), " used twice")),
                );
            }
            let body = cte.at("query").at("body");
            let operation = body.at("SetOperation");
            let recursive = with.at("recursive").flag() && body.is("SetOperation") && operation.at(
                "op",
            ).is("Union") && shapes::set_expr_references(operation.at("right"), name.as_str());
            let registered = if recursive {
                self.register_recursive(cte, name.as_str())
            } else {
                self.register_plain(cte, name.as_str())
            };
            if let Err(error) = registered {
                return Err(error);
            }
            i += 1;
        }
        Ok(())
    }

    pub(crate) fn rename_output(&mut self, query: LoweredQuery, names: &Vec<String>, base: &str) -> (result:
        Result<LoweredQuery, Error>)
        ensures
            final(self).around() == old(self).around(),
            lowering::named_output(query@, old(self).state(), text::texts(names@), base@)
                == lowering::settled(forms::viewed(result), final(self).state()),
    {
        if names.len() == 0 {
            return Ok(query);
        }
        if names.len() != query.columns.len() {
            let wanted = count_text(names.len());
            let present = count_text(query.columns.len());
            let head = join4(base, " names ", wanted.as_str(), " columns for a ");
            return Err(
                Error::Invalid(join3(head.as_str(), present.as_str(), "-column query")),
            );
        }
        let scope = self.scope(base);
        Ok(assembly::rename(query, scope, names))
    }

    pub(crate) fn register_plain(&mut self, cte: &Tree, name: &str) -> (result: Result<(), Error>)
        ensures
            final(self).around() == old(self).around(),
            lowering::plain_item(old(self).around(), old(self).state(), cte@, name@) == (match result {
                Ok(_) => Ok(final(self).state()),
                Err(error) => Err(error@),
            }),
        decreases tree::height(cte@), 10nat, 0nat,
    {
        let none = ExpressionEnv::none();
        let query = match self.select_query_in(cte.at("query"), &none) {
            Ok(query) => query,
            Err(error) => {
                return Err(error);
            },
        };
        let names = assembly::cte_columns(cte);
        let query = match self.rename_output(query, &names, name) {
            Ok(query) => query,
            Err(error) => {
                return Err(error);
            },
        };
        self.bind_columns(name, &query.columns);
        self.bind_relation(name, query.relation);
        Ok(())
    }

    pub(crate) fn register_recursive(&mut self, cte: &Tree, name: &str) -> (result: Result<(), Error>)
        ensures
            final(self).around() == old(self).around(),
            lowering::recursive_item(old(self).around(), old(self).state(), cte@, name@) == (
            match result {
                Ok(_) => Ok(final(self).state()),
                Err(error) => Err(error@),
            }),
        decreases tree::height(cte@), 10nat, 0nat,
    {
        let none = ExpressionEnv::none();
        let operation = cte.at("query").at("body").at("SetOperation");
        let anchor = match self.lower_set_expr(operation.at("left"), &none) {
            Ok(anchor) => anchor,
            Err(error) => {
                return Err(error);
            },
        };
        let names = assembly::cte_columns(cte);
        let anchor = match self.rename_output(anchor, &names, name) {
            Ok(anchor) => anchor,
            Err(error) => {
                return Err(error);
            },
        };
        self.bind_columns(name, &anchor.columns);
        self.recursive_binding = Some(name.to_owned());
        let step = match self.lower_set_expr(operation.at("right"), &none) {
            Ok(step) => step,
            Err(error) => {
                return Err(error);
            },
        };
        self.recursive_binding = None;
        if !assembly::have_same_types(&anchor.columns, &step.columns) {
            let shown = quoted(name);
            return Err(
                Error::Invalid(
                    join3(
                        "recursive CTE ",
                        shown.as_str(),
                        " anchor and step have incompatible columns",
                    ),
                ),
            );
        }
        let casts = assembly::no_casts(anchor.columns.len());
        let scope = self.scope("set_branch");
        let step = assembly::align(step, scope, &anchor.columns, &casts);
        let accumulation = match assembly::recursive_accumulation(
            operation.at("set_quantifier"),
        ) {
            Ok(accumulation) => accumulation,
            Err(error) => {
                return Err(error);
            },
        };
        self.bind_relation(
            name,
            Relation::Recursive {
                anchor: Box::new(anchor.relation),
                step: Box::new(step.relation),
                accumulation,
            },
        );
        Ok(())
    }

    pub(crate) fn set_query(&mut self, query: &Tree, parent: &ExpressionEnv) -> (result: Result<
        LoweredQuery,
        Error,
    >)
        ensures
            final(self).around() == old(self).around(),
            lowering::set_query(old(self).around(), old(self).state(), query@, parent@)
                == lowering::settled(forms::viewed(result), final(self).state()),
        decreases tree::height(query@), 8nat, 0nat,
    {
        let body = match self.lower_set_expr(query.at("body"), parent) {
            Ok(body) => body,
            Err(error) => {
                return Err(error);
            },
        };
        let compiler = ExpressionCompiler::over_output(body.scope.as_str(), &body.columns);
        let terms = match self.output_order(
            &compiler,
            query.at("order_by"),
            None,
            &body.columns,
        ) {
            Ok(terms) => terms,
            Err(error) => {
                return Err(error);
            },
        };
        let relation = match terms {
            Some(terms) => Relation::Order { input: Box::new(body.relation), terms },
            None => if body.one {
                body.relation
            } else {
                env::order_by_output(body.relation, &body.columns, body.scope.as_str())
            },
        };
        let slice = match self.limit(&compiler, query.at("limit_clause")) {
            Ok(slice) => slice,
            Err(error) => {
                return Err(error);
            },
        };
        Ok(
            LoweredQuery {
                relation: assembly::cut(relation, &slice),
                columns: body.columns,
                scope: body.scope,
                one: body.one || assembly::keeps_one(&slice),
            },
        )
    }

    pub(crate) fn lower_set_expr(&mut self, body: &Tree, parent: &ExpressionEnv) -> (result: Result<
        LoweredQuery,
        Error,
    >)
        ensures
            final(self).around() == old(self).around(),
            lowering::set_branch(old(self).around(), old(self).state(), body@, parent@)
                == lowering::settled(forms::viewed(result), final(self).state()),
        decreases tree::height(body@), 7nat, 0nat,
    {
        if body.is("Select") {
            self.select(body.at("Select"), &Tree::Null, &Tree::Null, parent)
        } else if body.is("Query") {
            self.select_query_in(body.at("Query"), parent)
        } else if body.is("SetOperation") {
            let operation = body.at("SetOperation");
            let left = match self.lower_set_expr(operation.at("left"), parent) {
                Ok(left) => left,
                Err(error) => {
                    return Err(error);
                },
            };
            let right = match self.lower_set_expr(operation.at("right"), parent) {
                Ok(right) => right,
                Err(error) => {
                    return Err(error);
                },
            };
            self.combine_sets(operation, left, right)
        } else {
            let shown = syntax::show_set_expr(body);
            Err(
                Error::Unsupported(
                    join3("set-operation branch ", shown.as_str(), " is not supported"),
                ),
            )
        }
    }

    pub(crate) fn combine_sets(&mut self, operation: &Tree, left: LoweredQuery, right: LoweredQuery) -> (result:
        Result<LoweredQuery, Error>)
        ensures
            final(self).around() == old(self).around(),
            lowering::set_combined(operation@, old(self).state(), left@, right@)
                == lowering::settled(forms::viewed(result), final(self).state()),
    {
        if left.columns.len() != right.columns.len() {
            let mine = count_text(left.columns.len());
            let other = count_text(right.columns.len());
            return Err(
                Error::Invalid(
                    join5(
                        "set-operation branches return ",
                        mine.as_str(),
                        " and ",
                        other.as_str(),
                        " columns",
                    ),
                ),
            );
        }
        if let Err(error) = assembly::check_types(&left.columns, &right.columns) {
            return Err(error);
        }
        let target = assembly::unite(&left.columns, &right.columns);
        let left_casts = assembly::widen(&left.columns, &right.columns);
        let right_casts = assembly::widen(&right.columns, &left.columns);
        let left_scope = self.scope("set_branch");
        let left = assembly::align(left, left_scope, &target, &left_casts);
        let right_scope = self.scope("set_branch");
        let right = assembly::align(right, right_scope, &target, &right_casts);
        let scope = self.scope("set");
        let quantifier = match assembly::set_quantifier(operation.at("set_quantifier")) {
            Ok(quantifier) => quantifier,
            Err(error) => {
                return Err(error);
            },
        };
        match assembly::set_relation(
            operation.at("op"),
            quantifier,
            scope.as_str(),
            left.relation,
            right.relation,
        ) {
            Ok(relation) => Ok(LoweredQuery { relation, columns: target, scope, one: false }),
            Err(error) => Err(error),
        }
    }

    // ---- SELECT ----

    pub(crate) fn select(
        &mut self,
        select: &Tree,
        order: &Tree,
        limit: &Tree,
        parent: &ExpressionEnv,
    ) -> (result: Result<LoweredQuery, Error>)
        ensures
            final(self).around() == old(self).around(),
            lowering::selected(
                old(self).around(),
                old(self).state(),
                select@,
                order@,
                limit@,
                parent@,
            ) == lowering::settled(forms::viewed(result), final(self).state()),
        decreases lowering::select_height(select@, order@, limit@), 6nat, 0nat,
    {
        if aggregation::aggregates(select) {
            self.aggregate_select(select, order, limit, parent)
        } else {
            self.plain_select(select, order, limit, parent)
        }
    }

    pub(crate) fn filter(
        &mut self,
        compiler: &ExpressionCompiler,
        relation: Relation,
        predicate: &Tree,
    ) -> (result: Result<Relation, Error>)
        ensures
            final(self).around() == old(self).around(),
            lowering::filtered(
                old(self).around(),
                old(self).state(),
                compiler@,
                relation@,
                predicate@,
            ) == lowering::settled(forms::viewed(result), final(self).state()),
        decreases tree::height(predicate@), 2nat, 0nat,
    {
        if predicate.absent() {
            return Ok(relation);
        }
        match self.compile(compiler, predicate, Some(ScalarType::Bool)) {
            Ok(predicate) => Ok(
                Relation::Filter { input: Box::new(relation), predicate: predicate.expr },
            ),
            Err(error) => Err(error),
        }
    }

    pub(crate) fn order_terms(
        &mut self,
        compiler: &ExpressionCompiler,
        terms: &Tree,
        projection: &Tree,
    ) -> (result: Result<Vec<OrderTerm>, Error>)
        ensures
            final(self).around() == old(self).around(),
            lowering::sorted_terms(
                old(self).around(),
                old(self).state(),
                compiler@,
                terms@,
                0,
                projection@,
                Seq::empty(),
            ) == lowering::settled(terms_result(result), final(self).state()),
        decreases
                lowering::higher(tree::height(terms@), tree::height(projection@)),
                3nat,
                0nat,
    {
        let mut output: Vec<OrderTerm> = Vec::new();
        let count = terms.count();
        let mut i: usize = 0;
        while i < count
            invariant
                i <= count,
                count == tree::list(terms@).len(),
                self.around() == old(self).around(),
                lowering::sorted_terms(
                    old(self).around(),
                    old(self).state(),
                    compiler@,
                    terms@,
                    0,
                    projection@,
                    Seq::empty(),
                ) == lowering::sorted_terms(
                    self.around(),
                    self.state(),
                    compiler@,
                    terms@,
                    i as nat,
                    projection@,
                    lir::order_terms_view(output@),
                ),
            decreases count - i,
        {
            let term = terms.item(i);
            proof {
                shapes::lemma_projected_key_height(tree::at(term@, "expr"@), projection@);
            }
            let key = match shapes::aggregate_order_expression(term.at("expr"), projection) {
                Ok(key) => key,
                Err(error) => {
                    return Err(error);
                },
            };
            match self.compile(compiler, key, None) {
                Ok(value) => {
                    assembly::push_sort(&mut output, value.expr, term);
                },
                Err(error) => {
                    return Err(error);
                },
            }
            i += 1;
        }
        Ok(output)
    }

    /// The order terms of an ORDER BY over what a SELECT projects.
    pub(crate) fn order(&mut self, compiler: &ExpressionCompiler, order: &Tree, projection: &Tree) -> (result:
        Result<Option<Vec<OrderTerm>>, Error>)
        ensures
            final(self).around() == old(self).around(),
            lowering::sorted(
                old(self).around(),
                old(self).state(),
                compiler@,
                order@,
                projection@,
            ) == lowering::settled(order_result(result), final(self).state()),
        decreases
                lowering::higher(tree::height(order@), tree::height(projection@)),
                4nat,
                0nat,
    {
        if order.absent() {
            return Ok(None);
        }
        let kind = order.at("kind");
        if !kind.is("Expressions") {
            return Err(Error::Unsupported("ORDER BY ALL is not supported".to_owned()));
        }
        match self.order_terms(compiler, kind.at("Expressions"), projection) {
            Ok(terms) => Ok(Some(terms)),
            Err(error) => Err(error),
        }
    }

    pub(crate) fn output_term(
        &mut self,
        compiler: &ExpressionCompiler,
        expression: &Tree,
        projection: Option<&Tree>,
        columns: &Vec<ResultColumn>,
    ) -> (result: Result<CompiledExpr, Error>)
        ensures
            final(self).around() == old(self).around(),
            lowering::output_sort_value(
                old(self).around(),
                old(self).state(),
                compiler@,
                expression@,
                tree_option(projection),
                types::result_columns_view(columns@),
            ) == lowering::settled(forms::viewed(result), final(self).state()),
        decreases tree::height(expression@), 2nat, 0nat,
    {
        let key = match projection {
            Some(projection) => shapes::projection_order_expression(
                expression,
                projection,
                columns,
            ),
            None => match shapes::order_output_expression(expression, columns) {
                Ok(key) => key,
                Err(error) => {
                    return Err(error);
                },
            },
        };
        proof {
            lowering::lemma_output_sort_key_height(
                expression@,
                tree_option(projection),
                types::result_columns_view(columns@),
            );
        }
        match key {
            OutputKey::Column(name) => compiler.column(None, name.as_str()),
            OutputKey::Syntax(syntax) => self.compile(compiler, syntax, None),
        }
    }

    pub(crate) fn output_terms(
        &mut self,
        compiler: &ExpressionCompiler,
        terms: &Tree,
        projection: Option<&Tree>,
        columns: &Vec<ResultColumn>,
    ) -> (result: Result<Vec<OrderTerm>, Error>)
        ensures
            final(self).around() == old(self).around(),
            lowering::output_sorted_terms(
                old(self).around(),
                old(self).state(),
                compiler@,
                terms@,
                0,
                tree_option(projection),
                types::result_columns_view(columns@),
                Seq::empty(),
            ) == lowering::settled(terms_result(result), final(self).state()),
        decreases tree::height(terms@), 3nat, 0nat,
    {
        let mut output: Vec<OrderTerm> = Vec::new();
        let count = terms.count();
        let mut i: usize = 0;
        while i < count
            invariant
                i <= count,
                count == tree::list(terms@).len(),
                self.around() == old(self).around(),
                lowering::output_sorted_terms(
                    old(self).around(),
                    old(self).state(),
                    compiler@,
                    terms@,
                    0,
                    tree_option(projection),
                    types::result_columns_view(columns@),
                    Seq::empty(),
                ) == lowering::output_sorted_terms(
                    self.around(),
                    self.state(),
                    compiler@,
                    terms@,
                    i as nat,
                    tree_option(projection),
                    types::result_columns_view(columns@),
                    lir::order_terms_view(output@),
                ),
            decreases count - i,
        {
            let term = terms.item(i);
            match self.output_term(compiler, term.at("expr"), projection, columns) {
                Ok(value) => {
                    assembly::push_sort(&mut output, value.expr, term);
                },
                Err(error) => {
                    return Err(error);
                },
            }
            i += 1;
        }
        Ok(output)
    }

    /// The order terms of an ORDER BY over an output.
    pub(crate) fn output_order(
        &mut self,
        compiler: &ExpressionCompiler,
        order: &Tree,
        projection: Option<&Tree>,
        columns: &Vec<ResultColumn>,
    ) -> (result: Result<Option<Vec<OrderTerm>>, Error>)
        ensures
            final(self).around() == old(self).around(),
            lowering::output_sorted(
                old(self).around(),
                old(self).state(),
                compiler@,
                order@,
                tree_option(projection),
                types::result_columns_view(columns@),
            ) == lowering::settled(order_result(result), final(self).state()),
        decreases tree::height(order@), 4nat, 0nat,
    {
        if order.absent() {
            return Ok(None);
        }
        let kind = order.at("kind");
        if !kind.is("Expressions") {
            return Err(Error::Unsupported("ORDER BY ALL is not supported".to_owned()));
        }
        match self.output_terms(compiler, kind.at("Expressions"), projection, columns) {
            Ok(terms) => Ok(Some(terms)),
            Err(error) => Err(error),
        }
    }

    pub(crate) fn usize_expression(&mut self, compiler: &ExpressionCompiler, expression: &Tree) -> (result:
        Result<usize, Error>)
        ensures
            final(self).around() == old(self).around(),
            lowering::counted(old(self).around(), old(self).state(), compiler@, expression@)
                == lowering::settled(count_result(result), final(self).state()),
        decreases tree::height(expression@), 2nat, 0nat,
    {
        let value = match self.compile(compiler, expression, Some(ScalarType::Int64)) {
            Ok(value) => value,
            Err(error) => {
                return Err(error);
            },
        };
        if let Expr::Literal(literal) = &value.expr {
            if let RawScalar::Number(digits) = &literal.raw {
                return match parse_count(digits.as_str()) {
                    Some(count) => Ok(count),
                    None => {
                        let shown = quoted(digits.as_str());
                        Err(
                            Error::Invalid(
                                join3(
                                    "LIMIT/OFFSET ",
                                    shown.as_str(),
                                    " is not a non-negative integer",
                                ),
                            ),
                        )
                    },
                };
            }
        }
        Err(Error::Invalid("LIMIT/OFFSET must be a bound integer".to_owned()))
    }

    pub(crate) fn limit(&mut self, compiler: &ExpressionCompiler, clause: &Tree) -> (result: Result<
        Option<Slice>,
        Error,
    >)
        ensures
            final(self).around() == old(self).around(),
            lowering::limited(old(self).around(), old(self).state(), compiler@, clause@)
                == lowering::settled(slice_result(result), final(self).state()),
        decreases tree::height(clause@), 3nat, 0nat,
    {
        if clause.absent() {
            return Ok(None);
        }
        if !clause.is("LimitOffset") {
            return Err(Error::Unsupported("comma LIMIT syntax is not supported".to_owned()));
        }
        let bounds = clause.at("LimitOffset");
        if bounds.at("limit_by").count() > 0 {
            return Err(Error::Unsupported("LIMIT BY is not supported".to_owned()));
        }
        let limit = if bounds.at("limit").absent() {
            None
        } else {
            match self.usize_expression(compiler, bounds.at("limit")) {
                Ok(limit) => Some(limit),
                Err(error) => {
                    return Err(error);
                },
            }
        };
        let offset = if bounds.at("offset").absent() {
            0
        } else {
            match self.usize_expression(compiler, bounds.at("offset").at("value")) {
                Ok(offset) => offset,
                Err(error) => {
                    return Err(error);
                },
            }
        };
        Ok(Some(Slice { offset, limit }))
    }

    pub(crate) fn projection(&mut self, compiler: &ExpressionCompiler, items: &Tree) -> (result: Result<
        Output,
        Error,
    >)
        ensures
            final(self).around() == old(self).around(),
            lowering::projected(
                old(self).around(),
                old(self).state(),
                compiler@,
                items@,
                0,
                lowering::no_outputs(),
            ) == lowering::settled(forms::viewed(result), final(self).state()),
        decreases tree::height(items@), 3nat, 0nat,
    {
        let mut output = Output::new();
        let count = items.count();
        let mut i: usize = 0;
        while i < count
            invariant
                i <= count,
                count == tree::list(items@).len(),
                self.around() == old(self).around(),
                lowering::projected(
                    old(self).around(),
                    old(self).state(),
                    compiler@,
                    items@,
                    0,
                    lowering::no_outputs(),
                ) == lowering::projected(
                    self.around(),
                    self.state(),
                    compiler@,
                    items@,
                    i as nat,
                    output@,
                ),
            decreases count - i,
        {
            let item = items.item(i);
            if shapes::expression_item(item) {
                let expression = shapes::expression_ast(item);
                assert(tree::height(tree::at(item@, "UnnamedExpr"@)) <= tree::height(item@));
                assert(tree::height(tree::at(item@, "ExprWithAlias"@)) <= tree::height(item@));
                match self.compile(compiler, expression, None) {
                    Ok(value) => {
                        output.add_expression(item, value, &compiler.env);
                    },
                    Err(error) => {
                        return Err(error);
                    },
                }
            } else {
                if let Err(error) = output.add_wildcard(item, &compiler.env) {
                    return Err(error);
                }
            }
            i += 1;
        }
        Ok(output)
    }

    pub(crate) fn arrange_distinct(
        &mut self,
        order: &Tree,
        projection: &Tree,
        projected: Relation,
        columns: &Vec<ResultColumn>,
        scope: &str,
        slice: &Option<Slice>,
    ) -> (result: Result<Relation, Error>)
        ensures
            final(self).around() == old(self).around(),
            lowering::distinctly_arranged(
                old(self).around(),
                old(self).state(),
                order@,
                projection@,
                projected@,
                types::result_columns_view(columns@),
                scope@,
                *slice,
            ) == lowering::settled(forms::viewed(result), final(self).state()),
        decreases tree::height(order@), 5nat, 0nat,
    {
        let compiler = ExpressionCompiler::over_output(scope, columns);
        let terms = match self.output_order(&compiler, order, Some(projection), columns) {
            Ok(Some(terms)) => terms,
            Ok(None) => env::output_order_terms(columns, scope),
            Err(error) => {
                return Err(error);
            },
        };
        let unique = Relation::Distinct(Box::new(projected));
        assert(unique@ is Distinct);
        Ok(assembly::cut(Relation::Order { input: Box::new(unique), terms }, slice))
    }

    pub(crate) fn plain_select(
        &mut self,
        select: &Tree,
        order: &Tree,
        limit: &Tree,
        parent: &ExpressionEnv,
    ) -> (result: Result<LoweredQuery, Error>)
        ensures
            final(self).around() == old(self).around(),
            lowering::plainly_selected(
                old(self).around(),
                old(self).state(),
                select@,
                order@,
                limit@,
                parent@,
            ) == lowering::settled(forms::viewed(result), final(self).state()),
        decreases lowering::select_height(select@, order@, limit@), 5nat, 1nat,
    {
        let projection = select.at("projection");
        let source = match self.select_source(select, parent) {
            Ok(source) => source,
            Err(error) => {
                return Err(error);
            },
        };
        let distinct = match shapes::select_distinct(select) {
            Ok(distinct) => distinct,
            Err(error) => {
                return Err(error);
            },
        };
        let scope = self.scope("result");
        let (relation, terms, slice, output) = match self.select_parts(
            select,
            order,
            limit,
            source,
        ) {
            Ok(parts) => parts,
            Err(error) => {
                return Err(error);
            },
        };
        let one = select.at("from").count() == 0 || assembly::keeps_one(&slice);
        let relation = if distinct {
            let projected = assembly::project(relation, scope.as_str(), output.fields);
            match self.arrange_distinct(
                order,
                projection,
                projected,
                &output.columns,
                scope.as_str(),
                &slice,
            ) {
                Ok(relation) => relation,
                Err(error) => {
                    return Err(error);
                },
            }
        } else {
            assembly::arrange(
                relation,
                terms,
                &slice,
                scope.as_str(),
                output.fields,
                &output.columns,
            )
        };
        Ok(LoweredQuery { relation, columns: output.columns, scope, one })
    }

    pub(crate) fn select_parts(
        &mut self,
        select: &Tree,
        order: &Tree,
        limit: &Tree,
        source: SelectSource,
    ) -> (result: Result<(Relation, Vec<OrderTerm>, Option<Slice>, Output), Error>)
        ensures
            final(self).around() == old(self).around(),
            lowering::selection(
                old(self).around(),
                old(self).state(),
                select@,
                order@,
                limit@,
                source@,
            ) == lowering::settled(selection_result(result), final(self).state()),
        decreases lowering::select_height(select@, order@, limit@), 4nat, 1nat,
    {
        let projection = select.at("projection");
        let compiler = ExpressionCompiler::new(source.env);
        let relation = match self.filter(&compiler, source.relation, select.at("selection")) {
            Ok(relation) => relation,
            Err(error) => {
                return Err(error);
            },
        };
        let terms = match self.order(&compiler, order, projection) {
            Ok(Some(terms)) => terms,
            Ok(None) => source.default_order,
            Err(error) => {
                return Err(error);
            },
        };
        let slice = match self.limit(&compiler, limit) {
            Ok(slice) => slice,
            Err(error) => {
                return Err(error);
            },
        };
        match self.projection(&compiler, projection) {
            Ok(output) => Ok((relation, terms, slice, output)),
            Err(error) => Err(error),
        }
    }

    // ---- row sources ----

    pub(crate) fn select_source(&mut self, select: &Tree, parent: &ExpressionEnv) -> (result: Result<
        SelectSource,
        Error,
    >)
        ensures
            final(self).around() == old(self).around(),
            lowering::source_of(old(self).around(), old(self).state(), select@, parent@)
                == lowering::settled(forms::viewed(result), final(self).state()),
        decreases tree::height(select@), 4nat, 0nat,
    {
        let from = select.at("from");
        if from.count() == 0 {
            let label = self.scope("constant");
            return Ok(assembly::constant_source(label, parent));
        }
        match self.from_items(from, parent, Joined::new()) {
            Ok(sources) => Ok(all_sources(sources, parent)),
            Err(error) => Err(error),
        }
    }

    /// Adds FROM items to the row sources.
    pub fn from_items(&mut self, items: &Tree, parent: &ExpressionEnv, done: Joined) -> (result:
        Result<Joined, Error>)
        ensures
            final(self).around() == old(self).around(),
            lowering::from_items(old(self).around(), old(self).state(), items@, 0, parent@, done@)
                == lowering::settled(forms::viewed(result), final(self).state()),
            (result matches Ok(sources) && (done.relation is Some || tree::list(items@).len() > 0))
                ==> result->Ok_0.relation is Some,
        decreases tree::height(items@), 3nat, 0nat,
    {
        let mut sources = done;
        let count = items.count();
        let mut i: usize = 0;
        while i < count
            invariant
                i <= count,
                count == tree::list(items@).len(),
                self.around() == old(self).around(),
                done.relation is Some || i > 0 ==> sources.relation is Some,
                lowering::from_items(
                    old(self).around(),
                    old(self).state(),
                    items@,
                    0,
                    parent@,
                    done@,
                ) == lowering::from_items(
                    self.around(),
                    self.state(),
                    items@,
                    i as nat,
                    parent@,
                    sources@,
                ),
            decreases count - i,
        {
            match self.from_item(items.item(i), parent, sources) {
                Ok(next) => {
                    sources = next;
                },
                Err(error) => {
                    return Err(error);
                },
            }
            i += 1;
        }
        Ok(sources)
    }

    /// Adds one FROM item to the row sources.
    pub(crate) fn from_item(&mut self, item: &Tree, parent: &ExpressionEnv, done: Joined) -> (result: Result<
        Joined,
        Error,
    >)
        ensures
            final(self).around() == old(self).around(),
            lowering::from_item(old(self).around(), old(self).state(), item@, parent@, done@)
                == lowering::settled(forms::viewed(result), final(self).state()),
            result matches Ok(sources) ==> sources.relation is Some,
        decreases tree::height(item@), 5nat, 0nat,
    {
        let (relation, scope) = match self.table_factor(item.at("relation"), parent) {
            Ok(found) => found,
            Err(error) => {
                return Err(error);
            },
        };
        let mut scopes = done.scopes;
        scopes.push(scope);
        let sources = Joined {
            relation: Some(assembly::cross(done.relation, relation)),
            scopes,
        };
        self.joins(item.at("joins"), parent, sources)
    }

    /// Adds the joins of a FROM item to the row sources.
    pub fn joins(&mut self, joins: &Tree, parent: &ExpressionEnv, done: Joined) -> (result: Result<
        Joined,
        Error,
    >)
        requires
            done.relation is Some,
        ensures
            final(self).around() == old(self).around(),
            lowering::joined(old(self).around(), old(self).state(), joins@, 0, parent@, done@)
                == lowering::settled(forms::viewed(result), final(self).state()),
            result matches Ok(sources) ==> sources.relation is Some,
        decreases tree::height(joins@), 4nat, 0nat,
    {
        let mut sources = done;
        let count = joins.count();
        let mut i: usize = 0;
        while i < count
            invariant
                i <= count,
                count == tree::list(joins@).len(),
                self.around() == old(self).around(),
                sources.relation is Some,
                lowering::joined(
                    old(self).around(),
                    old(self).state(),
                    joins@,
                    0,
                    parent@,
                    done@,
                ) == lowering::joined(
                    self.around(),
                    self.state(),
                    joins@,
                    i as nat,
                    parent@,
                    sources@,
                ),
            decreases count - i,
        {
            match self.join(joins.item(i), parent, sources) {
                Ok(next) => {
                    sources = next;
                },
                Err(error) => {
                    return Err(error);
                },
            }
            i += 1;
        }
        Ok(sources)
    }

    pub(crate) fn join(&mut self, join: &Tree, parent: &ExpressionEnv, done: Joined) -> (result: Result<
        Joined,
        Error,
    >)
        requires
            done.relation is Some,
        ensures
            final(self).around() == old(self).around(),
            lowering::join_with(old(self).around(), old(self).state(), join@, parent@, done@)
                == lowering::settled(forms::viewed(result), final(self).state()),
            result matches Ok(sources) ==> sources.relation is Some,
        decreases tree::height(join@), 5nat, 0nat,
    {
        let (right, scope) = match self.table_factor(join.at("relation"), parent) {
            Ok(found) => found,
            Err(error) => {
                return Err(error);
            },
        };
        let operator = join.at("join_operator");
        proof {
            lowering::lemma_join_shape_height(operator@);
        }
        let form = match assembly::join_form(operator) {
            Ok(form) => form,
            Err(error) => {
                return Err(error);
            },
        };
        let mut visible = types::copy_scope_defs(&done.scopes);
        visible.push(scope.clone());
        let env = ExpressionEnv::local(visible, parent);
        let right_scope = if form.keeps_left {
            assembly::make_nullable(&scope)
        } else {
            scope
        };
        let mut scopes = assembly::make_nullable_if(form.keeps_right, done.scopes);
        let on = match self.join_constraint(form.constraint, &env, &scopes, &right_scope) {
            Ok(on) => on,
            Err(error) => {
                return Err(error);
            },
        };
        let left = match done.relation {
            Some(left) => left,
            None => right.clone(),
        };
        let relation = assembly::join_relations(left, right, &form, on);
        scopes.push(right_scope);
        Ok(Joined { relation: Some(relation), scopes })
    }

    pub(crate) fn join_constraint(
        &mut self,
        constraint: &Tree,
        env: &ExpressionEnv,
        left: &Vec<ScopeDef>,
        right: &ScopeDef,
    ) -> (result: Result<Expr, Error>)
        ensures
            final(self).around() == old(self).around(),
            lowering::join_condition(
                old(self).around(),
                old(self).state(),
                constraint@,
                env@,
                types::scope_defs_view(left@),
                right@,
            ) == lowering::settled(forms::viewed(result), final(self).state()),
        decreases tree::height(constraint@), 2nat, 0nat,
    {
        if constraint.is("On") {
            let compiler = ExpressionCompiler::new(env.clone());
            match self.compile(&compiler, constraint.at("On"), Some(ScalarType::Bool)) {
                Ok(value) => Ok(value.expr),
                Err(error) => Err(error),
            }
        } else if constraint.is("Using") {
            match assembly::agree_using(constraint.at("Using"), left, right) {
                Ok(predicates) => fold_binary(predicates, BinaryOp::And),
                Err(error) => Err(error),
            }
        } else if constraint.is("Natural") {
            let predicates = assembly::agree_naturally(left, right);
            if predicates.len() == 0 {
                Ok(bool_literal(true))
            } else {
                fold_binary(predicates, BinaryOp::And)
            }
        } else {
            Ok(bool_literal(true))
        }
    }

    pub(crate) fn named_source(&mut self, table: &Tree) -> (result: Result<(Relation, ScopeDef), Error>)
        ensures
            final(self).around() == old(self).around(),
            lowering::named_source(old(self).around(), old(self).state(), table@)
                == lowering::settled(source_result(result), final(self).state()),
    {
        if !table.at("args").absent() {
            return Err(
                Error::Unsupported("table functions are not supported yet".to_owned()),
            );
        }
        let name = match object_name(table.at("name")) {
            Ok(name) => name,
            Err(error) => {
                return Err(error);
            },
        };
        let alias = table.at("alias");
        let known = assembly::known_as(alias, name.as_str());
        if let Some(columns) = self.bound_columns(name.as_str()) {
            let label = self.scope(known.as_str());
            let recursive = match &self.recursive_binding {
                Some(binding) => same_text(binding.as_str(), name.as_str()),
                None => false,
            };
            let relation = if recursive {
                Relation::RecursiveRef { binding: name, scope: label.clone() }
            } else {
                Relation::Ref { binding: name, scope: label.clone() }
            };
            let scope = ScopeDef { alias: known, label, columns, primary_key: Vec::new() };
            assert(scope@.primary_key =~= Seq::<Seq<char>>::empty());
            return source_under(relation, scope, alias);
        }
        let found = match catalog::table_named(self.tables, name.as_str()) {
            Some(found) => found,
            None => {
                let shown = quoted(name.as_str());
                return Err(Error::Invalid(join("unknown table ", shown.as_str())));
            },
        };
        let label = self.scope(known.as_str());
        let relation = Relation::Scan { table: found.name.clone(), scope: label.clone() };
        let scope = ScopeDef::table(found, known, label);
        source_under(relation, scope, alias)
    }

    pub(crate) fn table_factor(&mut self, factor: &Tree, parent: &ExpressionEnv) -> (result: Result<
        (Relation, ScopeDef),
        Error,
    >)
        ensures
            final(self).around() == old(self).around(),
            lowering::table_source(old(self).around(), old(self).state(), factor@, parent@)
                == lowering::settled(source_result(result), final(self).state()),
        decreases tree::height(factor@), 2nat, 0nat,
    {
        if factor.is("Table") {
            return self.named_source(factor.at("Table"));
        }
        if !factor.is("Derived") {
            let shown = syntax::show_table_factor(factor);
            return Err(
                Error::Unsupported(
                    join3("FROM item ", shown.as_str(), " is not supported yet"),
                ),
            );
        }
        let derived = factor.at("Derived");
        if !derived.at("sample").absent() {
            return Err(Error::Unsupported("TABLESAMPLE is not supported".to_owned()));
        }
        let alias = derived.at("alias");
        if alias.absent() {
            return Err(
                Error::Invalid("PostgreSQL derived tables need an alias".to_owned()),
            );
        }
        let none = ExpressionEnv::none();
        let outer = if derived.at("lateral").flag() {
            parent
        } else {
            &none
        };
        let query = match self.select_query_in(derived.at("subquery"), outer) {
            Ok(query) => query,
            Err(error) => {
                return Err(error);
            },
        };
        let scope = ScopeDef {
            alias: identifier(alias.at("name")),
            label: query.scope,
            columns: query.columns,
            primary_key: Vec::new(),
        };
        assert(scope@.primary_key =~= Seq::<Seq<char>>::empty());
        source_under(query.relation, scope, alias)
    }
}

/// The view of an optional tree.
pub open spec fn tree_option(tree: Option<&Tree>) -> Option<TreeView> {
    match tree {
        Some(tree) => Some(tree@),
        None => None,
    }
}

/// The view of fallible order terms.
pub open spec fn terms_result(result: Result<Vec<OrderTerm>, Error>) -> Result<
    Seq<OrderTermView>,
    ErrorView,
> {
    match result {
        Ok(terms) => Ok(lir::order_terms_view(terms@)),
        Err(error) => Err(error@),
    }
}

/// The view of a fallible order.
pub open spec fn order_result(result: Result<Option<Vec<OrderTerm>>, Error>) -> Result<
    Option<Seq<OrderTermView>>,
    ErrorView,
> {
    match result {
        Ok(Some(terms)) => Ok(Some(lir::order_terms_view(terms@))),
        Ok(None) => Ok(None),
        Err(error) => Err(error@),
    }
}

/// The view of a fallible count.
pub open spec fn count_result(result: Result<usize, Error>) -> Result<usize, ErrorView> {
    match result {
        Ok(count) => Ok(count),
        Err(error) => Err(error@),
    }
}

/// The view of a fallible slice.
pub open spec fn slice_result(result: Result<Option<Slice>, Error>) -> Result<
    Option<Slice>,
    ErrorView,
> {
    match result {
        Ok(slice) => Ok(slice),
        Err(error) => Err(error@),
    }
}

/// The view of the fallible parts of a SELECT.
pub open spec fn selection_result(
    result: Result<(Relation, Vec<OrderTerm>, Option<Slice>, Output), Error>,
) -> Result<Selection, ErrorView> {
    match result {
        Ok((relation, terms, slice, output)) => Ok(
            Selection {
                relation: relation@,
                terms: lir::order_terms_view(terms@),
                slice,
                outputs: output@,
            },
        ),
        Err(error) => Err(error@),
    }
}

/// The view of a fallible row source.
pub open spec fn source_result(result: Result<(Relation, ScopeDef), Error>) -> Result<
    (RelationView, ScopeDefView),
    ErrorView,
> {
    match result {
        Ok((relation, scope)) => Ok((relation@, scope@)),
        Err(error) => Err(error@),
    }
}

/// Joined row sources as those of a SELECT.
pub fn all_sources(sources: Joined, parent: &ExpressionEnv) -> (source: SelectSource)
    requires
        sources.relation is Some,
    ensures
        source@ == lowering::all_sources(sources@, parent@),
{
    let default_order = assembly::order_by_keys(&sources.scopes);
    let relation = match sources.relation {
        Some(relation) => relation,
        None => Relation::Scan { table: String::new(), scope: String::new() },
    };
    SelectSource { relation, env: ExpressionEnv::local(sources.scopes, parent), default_order }
}

fn source_under(relation: Relation, scope: ScopeDef, alias: &Tree) -> (result: Result<
    (Relation, ScopeDef),
    Error,
>)
    ensures
        source_result(result) == lowering::sourced(relation@, scope@, alias@),
{
    match env::apply_column_aliases(scope, alias) {
        Ok(scope) => Ok((relation, scope)),
        Err(error) => Err(error),
    }
}

} // verus!
