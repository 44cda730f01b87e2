//! Row sources, name lookup and result names.

use vstd::prelude::*;

use crate::sql::catalog;
use crate::sql::catalog::{Column, ColumnView, Table, TableView};
use crate::sql::lir;
use crate::sql::lir::{OrderTerm, OrderTermView, Relation, RelationView};
use crate::sql::literals;
use crate::sql::literals::identifier;
use crate::sql::operators;
use crate::sql::operators::column_expr;
use crate::sql::syntax;
use crate::sql::tree;
use crate::sql::tree::{Tree, TreeView};
use crate::sql::types;
use crate::sql::types::{
    CompiledExpr, CompiledExprView, Error, ErrorView, ExpressionEnv, ExpressionEnvView, OutputScope,
    OutputScopeView, ResultColumn, ResultColumnView, ScopeDef, ScopeDefView,
};
use crate::text;
use crate::text::{count_text, join, join3, join4, join5, quoted, same_text};

verus! {

broadcast use {lir::group_lir_views, types::group_sql_views};

/// The result column of a catalog column.
pub open spec fn column_result(column: ColumnView) -> ResultColumnView {
    ResultColumnView {
        name: column.name,
        field: column.name,
        scalar_type: column.scalar_type,
        nullable: column.nullable,
        format: column.format,
    }
}

/// The result column of a catalog column.
pub fn result_column(column: &Column) -> (result: ResultColumn)
    ensures
        result@ == column_result(column@),
{
    ResultColumn {
        name: column.name.clone(),
        field: column.name.clone(),
        scalar_type: column.scalar_type,
        nullable: column.nullable,
        format: column.format.clone(),
    }
}

/// The row source that a table is.
pub open spec fn table_scope(table: TableView, alias: Seq<char>, label: Seq<char>) -> ScopeDefView {
    ScopeDefView {
        alias,
        label,
        columns: Seq::new(table.columns.len(), |i: int| column_result(table.columns[i])),
        primary_key: table.primary_key,
    }
}

/// The first column with a name.
pub open spec fn find_column(columns: Seq<ResultColumnView>, name: Seq<char>) -> Option<
    ResultColumnView,
>
    decreases columns.len(),
{
    if columns.len() == 0 {
        None
    } else if columns[0].name == name {
        Some(columns[0])
    } else {
        find_column(columns.skip(1), name)
    }
}

/// The first column with a name.
pub fn column_named<'a>(columns: &'a Vec<ResultColumn>, name: &str) -> (found: Option<
    &'a ResultColumn,
>)
    ensures
        find_column(types::result_columns_view(columns@), name@) == (match found {
            Some(column) => Some(column@),
            None => None,
        }),
{
    let ghost all = types::result_columns_view(columns@);
    let mut i: usize = 0;
    assert(all.skip(0) =~= all);
    while i < columns.len()
        invariant
            i <= columns.len(),
            all == types::result_columns_view(columns@),
            find_column(all, name@) == find_column(all.skip(i as int), name@),
        decreases columns.len() - i,
    {
        assert(all.skip(i as int)[0] == columns@[i as int]@);
        if same_text(columns[i].name.as_str(), name) {
            return Some(&columns[i]);
        }
        assert(all.skip(i as int).skip(1) =~= all.skip(i + 1));
        i += 1;
    }
    None
}

/// The first row source with an alias.
pub open spec fn find_scope(scopes: Seq<ScopeDefView>, alias: Seq<char>) -> Option<ScopeDefView>
    decreases scopes.len(),
{
    if scopes.len() == 0 {
        None
    } else if scopes[0].alias == alias {
        Some(scopes[0])
    } else {
        find_scope(scopes.skip(1), alias)
    }
}

/// The first row source with an alias.
pub fn scope_named<'a>(scopes: &'a Vec<ScopeDef>, alias: &str) -> (found: Option<&'a ScopeDef>)
    ensures
        find_scope(types::scope_defs_view(scopes@), alias@) == (match found {
            Some(scope) => Some(scope@),
            None => None,
        }),
{
    let ghost all = types::scope_defs_view(scopes@);
    let mut i: usize = 0;
    assert(all.skip(0) =~= all);
    while i < scopes.len()
        invariant
            i <= scopes.len(),
            all == types::scope_defs_view(scopes@),
            find_scope(all, alias@) == find_scope(all.skip(i as int), alias@),
        decreases scopes.len() - i,
    {
        assert(all.skip(i as int)[0] == scopes@[i as int]@);
        if same_text(scopes[i].alias.as_str(), alias) {
            return Some(&scopes[i]);
        }
        assert(all.skip(i as int).skip(1) =~= all.skip(i + 1));
        i += 1;
    }
    None
}

/// The first row source from a position on that has a column.
pub open spec fn holder_from(scopes: Seq<ScopeDefView>, name: Seq<char>, i: nat) -> Option<nat>
    decreases scopes.len() - i,
{
    if i >= scopes.len() {
        None
    } else if find_column(scopes[i as int].columns, name) is Some {
        Some(i)
    } else {
        holder_from(scopes, name, i + 1)
    }
}

fn find_holder(scopes: &Vec<ScopeDef>, name: &str, start: usize) -> (found: Option<usize>)
    requires
        start <= scopes.len(),
    ensures
        holder_from(types::scope_defs_view(scopes@), name@, start as nat) == (match found {
            Some(i) => Some(i as nat),
            None => None,
        }),
        found matches Some(i) ==> i < scopes.len() && find_column(
            types::scope_defs_view(scopes@)[i as int].columns,
            name@,
        ) is Some,
{
    let ghost all = types::scope_defs_view(scopes@);
    let mut i: usize = start;
    while i < scopes.len()
        invariant
            start <= i <= scopes.len(),
            all == types::scope_defs_view(scopes@),
            holder_from(all, name@, start as nat) == holder_from(all, name@, i as nat),
        decreases scopes.len() - i,
    {
        assert(all[i as int] == scopes@[i as int]@);
        if column_named(&scopes[i].columns, name).is_some() {
            return Some(i);
        }
        i += 1;
    }
    None
}

impl ScopeDef {
    /// The row source that a table is.
    pub fn table(table: &Table, alias: String, label: String) -> (scope: ScopeDef)
        ensures
            scope@ == table_scope(table@, alias@, label@),
    {
        let mut columns: Vec<ResultColumn> = Vec::new();
        let mut i: usize = 0;
        while i < table.columns.len()
            invariant
                i <= table.columns.len(),
                columns.len() == i,
                forall|k: int|
                    0 <= k < i ==> (#[trigger] columns@[k])@ == column_result(table.columns@[k]@),
            decreases table.columns.len() - i,
        {
            columns.push(result_column(&table.columns[i]));
            i += 1;
        }
        let primary_key = text::copy_texts(&table.primary_key);
        let scope = ScopeDef { alias, label, columns, primary_key };
        assert(scope@.columns =~= table_scope(table@, alias@, label@).columns);
        scope
    }

    /// The column with a name.
    pub fn column(&self, name: &str) -> (found: Option<&ResultColumn>)
        ensures
            find_column(self@.columns, name@) == (match found {
                Some(column) => Some(column@),
                None => None,
            }),
    {
        column_named(&self.columns, name)
    }
}

/// No row sources.
pub open spec fn no_env() -> ExpressionEnvView {
    ExpressionEnvView { levels: Seq::empty() }
}

/// Row sources inside others.
pub open spec fn local_env(scopes: Seq<ScopeDefView>, parent: ExpressionEnvView) -> ExpressionEnvView {
    ExpressionEnvView { levels: seq![scopes] + parent.levels }
}

/// The innermost row sources.
pub open spec fn local_scopes(env: ExpressionEnvView) -> Seq<ScopeDefView> {
    if env.levels.len() > 0 {
        env.levels[0]
    } else {
        Seq::empty()
    }
}

/// The row source and column that a name means: with a qualifier, the column
/// of the nearest source of that alias; without one, the column of the only
/// source of the nearest level that has it.
pub open spec fn looked_up(
    levels: Seq<Seq<ScopeDefView>>,
    qualifier: Option<Seq<char>>,
    name: Seq<char>,
) -> Result<(ScopeDefView, ResultColumnView), ErrorView>
    decreases levels.len(),
{
    if levels.len() == 0 {
        match qualifier {
            Some(qualifier) => Err(
                ErrorView::Invalid("unknown table or alias "@ + text::quoted_text(qualifier)),
            ),
            None => Err(ErrorView::Invalid("unknown column "@ + text::quoted_text(name))),
        }
    } else {
        match qualifier {
            Some(alias) => match find_scope(levels[0], alias) {
                Some(scope) => match find_column(scope.columns, name) {
                    Some(column) => Ok((scope, column)),
                    None => Err(ErrorView::Invalid("unknown column "@ + alias + "."@ + name)),
                },
                None => looked_up(levels.skip(1), qualifier, name),
            },
            None => match holder_from(levels[0], name, 0) {
                None => looked_up(levels.skip(1), qualifier, name),
                Some(i) => if holder_from(levels[0], name, i + 1) is Some {
                    Err(
                        ErrorView::Invalid(
                            "column reference "@ + text::quoted_text(name) + " is ambiguous"@,
                        ),
                    )
                } else {
                    Ok(
                        (
                            levels[0][i as int],
                            find_column(levels[0][i as int].columns, name)->0,
                        ),
                    )
                },
            },
        }
    }
}

/// The view of an optional qualifier.
pub open spec fn qualifier_view(qualifier: Option<&str>) -> Option<Seq<char>> {
    match qualifier {
        Some(qualifier) => Some(qualifier@),
        None => None,
    }
}

impl ExpressionEnv {
    /// No row sources.
    pub fn none() -> (env: ExpressionEnv)
        ensures
            env@ == no_env(),
    {
        let env = ExpressionEnv { levels: Vec::new() };
        assert(env@.levels =~= Seq::empty());
        env
    }

    /// Row sources inside others.
    pub fn local(scopes: Vec<ScopeDef>, parent: &ExpressionEnv) -> (env: ExpressionEnv)
        ensures
            env@ == local_env(types::scope_defs_view(scopes@), parent@),
    {
        let mut levels: Vec<Vec<ScopeDef>> = Vec::new();
        levels.push(scopes);
        let mut i: usize = 0;
        while i < parent.levels.len()
            invariant
                i <= parent.levels.len(),
                levels.len() == i + 1,
                levels@[0]@ == scopes@,
                forall|k: int|
                    0 <= k < i ==> types::scope_defs_view((#[trigger] levels@[k + 1])@)
                        == types::scope_defs_view(parent.levels@[k]@),
            decreases parent.levels.len() - i,
        {
            levels.push(types::copy_scope_defs(&parent.levels[i]));
            i += 1;
        }
        let env = ExpressionEnv { levels };
        proof {
            let wanted = local_env(types::scope_defs_view(scopes@), parent@);
            assert forall|k: int| 0 <= k < env@.levels.len() implies env@.levels[k]
                == wanted.levels[k] by {
                if k > 0 {
                    assert(types::scope_defs_view(levels@[(k - 1) + 1]@)
                        == types::scope_defs_view(parent.levels@[k - 1]@));
                }
            }
            assert(env@.levels =~= wanted.levels);
        }
        env
    }

    /// The innermost row sources, where there are any.
    pub fn local_scopes(&self) -> (scopes: Option<&Vec<ScopeDef>>)
        ensures
            match scopes {
                Some(scopes) => types::scope_defs_view(scopes@) == local_scopes(self@),
                None => local_scopes(self@) == Seq::<ScopeDefView>::empty(),
            },
    {
        if self.levels.len() > 0 {
            Some(&self.levels[0])
        } else {
            None
        }
    }

    /// The row source and column that a name means.
    pub fn lookup(&self, qualifier: Option<&str>, name: &str) -> (result: Result<
        (&ScopeDef, &ResultColumn),
        Error,
    >)
        ensures
            looked_up(self@.levels, qualifier_view(qualifier), name@) == (match result {
                Ok(found) => Ok((found.0@, found.1@)),
                Err(error) => Err(error@),
            }),
    {
        let ghost all = self@.levels;
        let ghost wanted = qualifier_view(qualifier);
        let mut i: usize = 0;
        assert(all.skip(0) =~= all);
        while i < self.levels.len()
            invariant
                i <= self.levels.len(),
                all == self@.levels,
                wanted == qualifier_view(qualifier),
                looked_up(all, wanted, name@) == looked_up(all.skip(i as int), wanted, name@),
            decreases self.levels.len() - i,
        {
            let level = &self.levels[i];
            proof {
                assert(all.skip(i as int)[0] == types::scope_defs_view(level@));
                assert(all.skip(i as int).skip(1) =~= all.skip(i + 1));
            }
            match qualifier {
                Some(alias) => {
                    if let Some(scope) = scope_named(level, alias) {
                        return match column_named(&scope.columns, name) {
                            Some(column) => Ok((scope, column)),
                            None => Err(
                                Error::Invalid(join4("unknown column ", alias, ".", name)),
                            ),
                        };
                    }
                },
                None => {
                    if let Some(first) = find_holder(level, name, 0) {
                        assert(types::scope_defs_view(level@)[first as int] == level@[first as int]@);
                        if find_holder(level, name, first + 1).is_some() {
                            let shown = quoted(name);
                            return Err(
                                Error::Invalid(
                                    join3("column reference ", shown.as_str(), " is ambiguous"),
                                ),
                            );
                        }
                        if let Some(column) = column_named(&level[first].columns, name) {
                            return Ok((&level[first], column));
                        }
                    }
                },
            }
            i += 1;
        }
        assert(all.skip(i as int) =~= Seq::empty());
        match qualifier {
            Some(alias) => {
                let shown = quoted(alias);
                Err(Error::Invalid(join("unknown table or alias ", shown.as_str())))
            },
            None => {
                let shown = quoted(name);
                Err(Error::Invalid(join("unknown column ", shown.as_str())))
            },
        }
    }
}

/// A piece of syntax that stands for a column of the output.
pub struct Substitution {
    pub syntax: Tree,
    pub column: ResultColumn,
}

/// The value of a [`Substitution`].
pub struct SubstitutionView {
    pub syntax: TreeView,
    pub column: ResultColumnView,
}

impl View for Substitution {
    type V = SubstitutionView;

    open spec fn view(&self) -> SubstitutionView {
        SubstitutionView { syntax: self.syntax@, column: self.column@ }
    }
}

pub open spec fn substitutions_view(values: Seq<Substitution>) -> Seq<SubstitutionView> {
    Seq::new(values.len(), |i: int| values[i]@)
}

/// What an expression can refer to: row sources, columns of an output
/// relation, and syntax that stands for output columns.
pub struct ExpressionCompiler {
    pub env: ExpressionEnv,
    pub output: Option<OutputScope>,
    pub substitutions: Vec<Substitution>,
}

/// The value of an [`ExpressionCompiler`].
pub struct ExpressionCompilerView {
    pub env: ExpressionEnvView,
    pub output: Option<OutputScopeView>,
    pub substitutions: Seq<SubstitutionView>,
}

impl View for ExpressionCompiler {
    type V = ExpressionCompilerView;

    open spec fn view(&self) -> ExpressionCompilerView {
        ExpressionCompilerView {
            env: self.env@,
            output: types::optional_output_scope_view(self.output),
            substitutions: substitutions_view(self.substitutions@),
        }
    }
}

/// A compiler over row sources alone.
pub open spec fn over(env: ExpressionEnvView) -> ExpressionCompilerView {
    ExpressionCompilerView { env, output: None, substitutions: Seq::empty() }
}

/// A compiler over the columns of an output relation.
pub open spec fn over_output(
    scope: Seq<char>,
    columns: Seq<ResultColumnView>,
    substitutions: Seq<SubstitutionView>,
) -> ExpressionCompilerView {
    ExpressionCompilerView {
        env: no_env(),
        output: Some(OutputScopeView { scope, columns }),
        substitutions,
    }
}

/// The output column that a piece of syntax stands for.
pub open spec fn substituted(substitutions: Seq<SubstitutionView>, syntax: TreeView) -> Option<
    ResultColumnView,
>
    decreases substitutions.len(),
{
    if substitutions.len() == 0 {
        None
    } else if substitutions[0].syntax == syntax {
        Some(substitutions[0].column)
    } else {
        substituted(substitutions.skip(1), syntax)
    }
}

/// A column reference with its type.
pub open spec fn reference(scope: Seq<char>, column: ResultColumnView) -> CompiledExprView {
    CompiledExprView {
        expr: operators::column_of(scope, column.row_field()),
        scalar_type: column.scalar_type,
        nullable: column.nullable,
    }
}

/// A column reference with its type.
pub fn refer(scope: &str, column: &ResultColumn) -> (result: CompiledExpr)
    ensures
        result@ == reference(scope@, column@),
{
    CompiledExpr {
        expr: column_expr(scope, column.field()),
        scalar_type: column.scalar_type,
        nullable: column.nullable,
    }
}

/// The output column that a name means, where the output has it.
pub open spec fn output_column(
    output: Option<OutputScopeView>,
    qualifier: Option<Seq<char>>,
    name: Seq<char>,
) -> Option<ResultColumnView> {
    match output {
        Some(output) => if qualifier is None || qualifier == Some(output.scope) {
            find_column(output.columns, name)
        } else {
            None
        },
        None => None,
    }
}

/// The column that a name means: an output column first, then one of the row
/// sources.
pub open spec fn named_column(
    compiler: ExpressionCompilerView,
    qualifier: Option<Seq<char>>,
    name: Seq<char>,
) -> Result<CompiledExprView, ErrorView> {
    match output_column(compiler.output, qualifier, name) {
        Some(column) => Ok(reference(compiler.output->0.scope, column)),
        None => match looked_up(compiler.env.levels, qualifier, name) {
            Ok((scope, column)) => Ok(reference(scope.label, column)),
            Err(error) => Err(error),
        },
    }
}

impl ExpressionCompiler {
    /// A compiler over row sources alone.
    pub fn new(env: ExpressionEnv) -> (compiler: ExpressionCompiler)
        ensures
            compiler@ == over(env@),
    {
        let compiler = ExpressionCompiler { env, output: None, substitutions: Vec::new() };
        assert(compiler@.substitutions =~= Seq::empty());
        compiler
    }

    /// A compiler over the columns of an output relation, with syntax that
    /// stands for some of them.
    pub fn with_output(
        scope: &str,
        columns: &Vec<ResultColumn>,
        substitutions: Vec<Substitution>,
    ) -> (compiler: ExpressionCompiler)
        ensures
            compiler@ == over_output(
                scope@,
                types::result_columns_view(columns@),
                substitutions_view(substitutions@),
            ),
    {
        ExpressionCompiler {
            env: ExpressionEnv::none(),
            output: Some(
                OutputScope { scope: scope.to_owned(), columns: types::copy_result_columns(columns) },
            ),
            substitutions,
        }
    }

    /// A compiler over the columns of an output relation.
    pub fn over_output(scope: &str, columns: &Vec<ResultColumn>) -> (compiler: ExpressionCompiler)
        ensures
            compiler@ == over_output(scope@, types::result_columns_view(columns@), Seq::empty()),
    {
        let none: Vec<Substitution> = Vec::new();
        assert(substitutions_view(none@) =~= Seq::empty());
        ExpressionCompiler::with_output(scope, columns, none)
    }

    /// The output column that a piece of syntax stands for.
    pub fn substitution(&self, syntax: &Tree) -> (found: Option<&ResultColumn>)
        ensures
            substituted(self@.substitutions, tree::bare(syntax@)) == (match found {
                Some(column) => Some(column@),
                None => None,
            }),
    {
        let ghost all = self@.substitutions;
        let mut i: usize = 0;
        if self.substitutions.len() == 0 {
            return None;
        }
        let bare = syntax.bare();
        assert(all.skip(0) =~= all);
        while i < self.substitutions.len()
            invariant
                i <= self.substitutions.len(),
                all == substitutions_view(self.substitutions@),
                bare@ == tree::bare(syntax@),
                substituted(all, bare@) == substituted(all.skip(i as int), bare@),
            decreases self.substitutions.len() - i,
        {
            assert(all.skip(i as int)[0] == self.substitutions@[i as int]@);
            if self.substitutions[i].syntax.same(&bare) {
                return Some(&self.substitutions[i].column);
            }
            assert(all.skip(i as int).skip(1) =~= all.skip(i + 1));
            i += 1;
        }
        None
    }

    /// The column that a name means.
    pub fn column(&self, qualifier: Option<&str>, name: &str) -> (result: Result<
        CompiledExpr,
        Error,
    >)
        ensures
            named_column(self@, qualifier_view(qualifier), name@) == (match result {
                Ok(column) => Ok(column@),
                Err(error) => Err(error@),
            }),
    {
        if let Some(output) = &self.output {
            let reachable = match qualifier {
                Some(qualifier) => same_text(qualifier, output.scope.as_str()),
                None => true,
            };
            if reachable {
                if let Some(column) = column_named(&output.columns, name) {
                    return Ok(refer(output.scope.as_str(), column));
                }
            }
        }
        match self.env.lookup(qualifier, name) {
            Ok((scope, column)) => Ok(refer(scope.label.as_str(), column)),
            Err(error) => Err(error),
        }
    }
}

/// How often a name occurs.
pub open spec fn occurrences(names: Seq<Seq<char>>, name: Seq<char>) -> nat
    decreases names.len(),
{
    if names.len() == 0 {
        0
    } else {
        occurrences(names.drop_last(), name) + (if names.last() == name {
            1nat
        } else {
            0nat
        })
    }
}

/// The field for the last of a run of names: the name itself where it occurs
/// first, otherwise the name and how often it has occurred.
pub open spec fn unique_field(names: Seq<Seq<char>>) -> Seq<char> {
    let count = occurrences(names, names.last());
    if count == 1 {
        names.last()
    } else {
        names.last() + "_"@ + text::decimal(count)
    }
}

fn count_name(names: &Vec<String>, name: &str) -> (count: usize)
    ensures
        count == occurrences(text::texts(names@), name@),
{
    let ghost all = text::texts(names@);
    let mut count: usize = 0;
    let mut i: usize = 0;
    assert(all.take(0) =~= Seq::empty());
    while i < names.len()
        invariant
            i <= names.len(),
            all == text::texts(names@),
            count == occurrences(all.take(i as int), name@),
            count <= i,
        decreases names.len() - i,
    {
        proof {
            assert(all.take(i + 1).drop_last() =~= all.take(i as int));
            assert(all.take(i + 1).last() == names@[i as int]@);
        }
        if same_text(names[i].as_str(), name) {
            count += 1;
        }
        i += 1;
    }
    assert(all.take(i as int) =~= all);
    count
}

/// Adds a name to those used, and returns the field for it.
pub fn unique_name(base: &str, names: &mut Vec<String>) -> (field: String)
    ensures
        text::texts(final(names)@) == text::texts(old(names)@).push(base@),
        field@ == unique_field(text::texts(old(names)@).push(base@)),
{
    names.push(base.to_owned());
    proof {
        assert(text::texts(names@) =~= text::texts(old(names)@).push(base@));
    }
    let count = count_name(names, base);
    if count == 1 {
        base.to_owned()
    } else {
        let number = count_text(count);
        join3(base, "_", number.as_str())
    }
}

/// A relation ordered by columns of a scope.
pub open spec fn name_terms(names: Seq<Seq<char>>, scope: Seq<char>) -> Seq<OrderTermView> {
    Seq::new(
        names.len(),
        |i: int|
            OrderTermView { expression: operators::column_of(scope, names[i]), descending: false },
    )
}

/// A relation ordered by columns of a scope.
pub open spec fn ordered_by_names(
    relation: RelationView,
    names: Seq<Seq<char>>,
    scope: Seq<char>,
) -> RelationView {
    RelationView::Order { input: Box::new(relation), terms: name_terms(names, scope) }
}

/// Orders a relation by columns of a scope.
pub fn order_by_names(relation: Relation, names: &Vec<String>, scope: &str) -> (result: Relation)
    ensures
        result@ == ordered_by_names(relation@, text::texts(names@), scope@),
{
    let mut terms: Vec<OrderTerm> = Vec::new();
    let mut i: usize = 0;
    while i < names.len()
        invariant
            i <= names.len(),
            terms.len() == i,
            forall|k: int|
                0 <= k < i ==> (#[trigger] terms@[k])@ == (OrderTermView {
                    expression: operators::column_of(scope@, names@[k]@),
                    descending: false,
                }),
        decreases names.len() - i,
    {
        terms.push(
            OrderTerm { expression: column_expr(scope, names[i].as_str()), descending: false },
        );
        i += 1;
    }
    assert(lir::order_terms_view(terms@) =~= name_terms(text::texts(names@), scope@));
    Relation::Order { input: Box::new(relation), terms }
}

/// Sort keys for every column of an output.
pub open spec fn output_terms(columns: Seq<ResultColumnView>, scope: Seq<char>) -> Seq<
    OrderTermView,
> {
    Seq::new(
        columns.len(),
        |i: int|
            OrderTermView {
                expression: operators::column_of(scope, columns[i].row_field()),
                descending: false,
            },
    )
}

/// Sort keys for every column of an output.
pub fn output_order_terms(columns: &Vec<ResultColumn>, scope: &str) -> (terms: Vec<OrderTerm>)
    ensures
        lir::order_terms_view(terms@) == output_terms(types::result_columns_view(columns@), scope@),
{
    let mut terms: Vec<OrderTerm> = Vec::new();
    let mut i: usize = 0;
    while i < columns.len()
        invariant
            i <= columns.len(),
            terms.len() == i,
            forall|k: int|
                0 <= k < i ==> (#[trigger] terms@[k])@ == (OrderTermView {
                    expression: operators::column_of(scope@, columns@[k]@.row_field()),
                    descending: false,
                }),
        decreases columns.len() - i,
    {
        terms.push(OrderTerm { expression: column_expr(scope, columns[i].field()), descending: false });
        i += 1;
    }
    assert(lir::order_terms_view(terms@) =~= output_terms(
        types::result_columns_view(columns@),
        scope@,
    ));
    terms
}

/// A relation ordered by all of its output columns.
pub open spec fn ordered_by_output(
    relation: RelationView,
    columns: Seq<ResultColumnView>,
    scope: Seq<char>,
) -> RelationView {
    RelationView::Order { input: Box::new(relation), terms: output_terms(columns, scope) }
}

/// Orders a relation by all of its output columns.
pub fn order_by_output(relation: Relation, columns: &Vec<ResultColumn>, scope: &str) -> (result:
    Relation)
    ensures
        result@ == ordered_by_output(relation@, types::result_columns_view(columns@), scope@),
{
    Relation::Order { input: Box::new(relation), terms: output_order_terms(columns, scope) }
}

/// Columns named by the column aliases of a table alias.
pub open spec fn renamed_columns(columns: Seq<ResultColumnView>, aliases: Seq<TreeView>) -> Seq<
    ResultColumnView,
> {
    Seq::new(
        columns.len(),
        |i: int|
            if i < aliases.len() {
                ResultColumnView {
                    name: literals::ident_name(tree::at(aliases[i], "name"@)),
                    ..columns[i]
                }
            } else {
                columns[i]
            },
    )
}

/// A row source with its columns named by a table alias.
pub open spec fn aliased(scope: ScopeDefView, alias: TreeView) -> Result<ScopeDefView, ErrorView> {
    let names = tree::list(tree::at(alias, "columns"@));
    if names.len() > scope.columns.len() {
        Err(
            ErrorView::Invalid(
                "table alias "@ + syntax::shown_ident(tree::at(alias, "name"@)) + " names "@
                    + text::decimal(names.len()) + " columns for a "@ + text::decimal(
                    scope.columns.len(),
                ) + "-column relation"@,
            ),
        )
    } else {
        Ok(ScopeDefView { columns: renamed_columns(scope.columns, names), ..scope })
    }
}

/// The view of a fallible row source.
pub open spec fn scope_result(result: Result<ScopeDef, Error>) -> Result<ScopeDefView, ErrorView> {
    match result {
        Ok(scope) => Ok(scope@),
        Err(error) => Err(error@),
    }
}

/// Names the columns of a row source by a table alias.
pub fn apply_column_aliases(scope: ScopeDef, alias: &Tree) -> (result: Result<ScopeDef, Error>)
    ensures
        scope_result(result) == aliased(scope@, alias@),
{
    let names = alias.at("columns");
    let count = names.count();
    if count > scope.columns.len() {
        let shown = syntax::show_ident(alias.at("name"));
        let wanted = count_text(count);
        let present = count_text(scope.columns.len());
        let head = join5("table alias ", shown.as_str(), " names ", wanted.as_str(), " columns for a ");
        return Err(
            Error::Invalid(join3(head.as_str(), present.as_str(), "-column relation")),
        );
    }
    let ghost wanted = renamed_columns(scope@.columns, tree::list(names@));
    let mut columns: Vec<ResultColumn> = Vec::new();
    let mut i: usize = 0;
    while i < scope.columns.len()
        invariant
            i <= scope.columns.len(),
            columns.len() == i,
            count == tree::list(names@).len(),
            count <= scope.columns.len(),
            wanted == renamed_columns(scope@.columns, tree::list(names@)),
            forall|k: int| 0 <= k < i ==> (#[trigger] columns@[k])@ == wanted[k],
        decreases scope.columns.len() - i,
    {
        let mut column = scope.columns[i].clone();
        if i < count {
            column.name = identifier(names.item(i).at("name"));
        }
        columns.push(column);
        i += 1;
    }
    assert(types::result_columns_view(columns@) =~= wanted);
    Ok(
        ScopeDef {
            alias: scope.alias,
            label: scope.label,
            columns,
            primary_key: scope.primary_key,
        },
    )
}

} // verus!
