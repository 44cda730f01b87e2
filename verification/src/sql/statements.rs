//! Preparing and compiling statements.

use vstd::prelude::*;

use crate::sql::catalog;
use crate::sql::catalog::{Table, TableView};
use crate::sql::context::Context;
use crate::sql::definitions;
use crate::sql::env;
use crate::sql::forms;
use crate::sql::lir;
use crate::sql::lir::{Query, QueryView, RootCardinality, ScalarType};
use crate::sql::literals;
use crate::sql::literals::type_text;
use crate::sql::lowering;
use crate::sql::lowering::{State, Surroundings};
use crate::sql::mutations;
use crate::sql::syntax;
use crate::sql::syntax::parse;
use crate::sql::tree;
use crate::sql::tree::{Tree, TreeView};
use crate::sql::types;
use crate::sql::types::{
    CommandKind, Error, ErrorView, ExpressionEnv, Parameter, ParameterView, Program, ProgramView,
    ResultColumn, ResultColumnView, Statement, StatementView,
};
use crate::text;
use crate::text::{count_text, join, join3, join4};

verus! {

broadcast use {
    lir::group_lir_views,
    types::group_sql_views,
};

/// A statement that was checked against a catalog: its syntax, the types of
/// its parameters, and what it returns.
pub struct Prepared {
    pub statement: Tree,
    pub parameter_types: Vec<ScalarType>,
    pub result_columns: Vec<ResultColumn>,
    pub kind: CommandKind,
}

impl Prepared {
    /// The types of the parameters, in order.
    pub fn parameter_types(&self) -> (parameter_types: &[ScalarType])
        ensures
            parameter_types@ == self.parameter_types@,
    {
        self.parameter_types.as_slice()
    }

    /// The columns that the statement returns.
    pub fn result_columns(&self) -> (columns: &[ResultColumn])
        ensures
            columns@ == self.result_columns@,
    {
        self.result_columns.as_slice()
    }

    /// What kind of command the statement is.
    pub fn kind(&self) -> (kind: CommandKind)
        ensures
            kind == self.kind,
    {
        self.kind
    }

    /// The statement as text.
    pub fn sql(&self) -> (sql: String)
        ensures
            sql@ == syntax::shown_statement(self.statement@),
    {
        syntax::show_statement(&self.statement)
    }
}

/// A compiled statement: its program, where it has one, and what it returns.
pub struct Compiled {
    pub program: Option<Program>,
    pub result_columns: Vec<ResultColumn>,
    pub kind: CommandKind,
}

/// The value of a [`Compiled`].
#[verifier::ext_equal]
pub struct CompiledView {
    pub program: Option<ProgramView>,
    pub result_columns: Seq<ResultColumnView>,
    pub kind: CommandKind,
}

impl View for Compiled {
    type V = CompiledView;

    open spec fn view(&self) -> CompiledView {
        CompiledView {
            program: match self.program {
                Some(program) => Some(program@),
                None => None,
            },
            result_columns: types::result_columns_view(self.result_columns@),
            kind: self.kind,
        }
    }
}

/// A lowered statement with what is known after it.
pub struct Draft {
    pub compiled: CompiledView,
    pub state: State,
}

/// A query as a program of its own.
pub open spec fn selected(around: Surroundings, state: State, query: TreeView) -> Result<
    Draft,
    ErrorView,
> {
    match lowering::lowered(around, state, query, env::no_env()) {
        Err(error) => Err(error),
        Ok((found, state)) => Ok(
            Draft {
                compiled: CompiledView {
                    program: Some(
                        ProgramView {
                            statements: seq![
                                StatementView::Query {
                                    name: "sql_result"@,
                                    relation: QueryView {
                                        root: found.relation,
                                        cardinality: if found.one {
                                            RootCardinality::First
                                        } else {
                                            RootCardinality::Many
                                        },
                                        bindings: state.bindings,
                                    },
                                },
                            ],
                            result: Some("sql_result"@),
                        },
                    ),
                    result_columns: found.columns,
                    kind: CommandKind::Select,
                },
                state,
            },
        ),
    }
}

/// A mutation as a draft.
pub open spec fn changed(
    mutation: lowering::Step<mutations::Mutation>,
    kind: CommandKind,
) -> Result<Draft, ErrorView> {
    match mutation {
        Err(error) => Err(error),
        Ok((mutation, state)) => Ok(
            Draft {
                compiled: CompiledView {
                    program: Some(mutation.program),
                    result_columns: mutation.columns,
                    kind,
                },
                state,
            },
        ),
    }
}

/// A definition as a draft.
pub open spec fn defined(
    program: Result<Option<ProgramView>, ErrorView>,
    kind: CommandKind,
    state: State,
) -> Result<Draft, ErrorView> {
    match program {
        Err(error) => Err(error),
        Ok(program) => Ok(
            Draft {
                compiled: CompiledView { program, result_columns: Seq::empty(), kind },
                state,
            },
        ),
    }
}

/// Whether the operations of an ALTER TABLE from a position on have no effect
/// here: they add foreign keys or drop constraints.
pub open spec fn alters_nothing(operations: TreeView, i: nat) -> bool
    decreases tree::list(operations).len() - i,
{
    if i >= tree::list(operations).len() {
        true
    } else {
        let operation = tree::list(operations)[i as int];
        let added = tree::at(tree::at(operation, "AddConstraint"@), "constraint"@);
        (tree::is(operation, "DropConstraint"@) || (tree::is(operation, "AddConstraint"@)
            && tree::is(added, "ForeignKey"@))) && alters_nothing(operations, i + 1)
    }
}

/// What a statement is called in messages.
pub open spec fn statement_label(statement: TreeView) -> Seq<char> {
    if tree::is(statement, "Query"@) {
        "SELECT"@
    } else if tree::is(statement, "Insert"@) {
        "INSERT"@
    } else if tree::is(statement, "Update"@) {
        "UPDATE"@
    } else if tree::is(statement, "Delete"@) {
        "DELETE"@
    } else if tree::is(statement, "CreateTable"@) {
        "CREATE TABLE"@
    } else if tree::is(statement, "CreateIndex"@) {
        "CREATE INDEX"@
    } else if tree::is(statement, "AlterTable"@) {
        "ALTER TABLE"@
    } else {
        "statement"@
    }
}

/// What a statement lowers to.
pub open spec fn drafted(around: Surroundings, statement: TreeView) -> Result<Draft, ErrorView> {
    let state = lowering::initial(around.hints);
    if tree::is(statement, "Query"@) {
        selected(around, state, tree::at(statement, "Query"@))
    } else if tree::is(statement, "Insert"@) {
        changed(
            mutations::inserted(around, state, tree::at(statement, "Insert"@)),
            CommandKind::Insert,
        )
    } else if tree::is(statement, "Update"@) {
        changed(
            mutations::updated(around, state, tree::at(statement, "Update"@)),
            CommandKind::Update,
        )
    } else if tree::is(statement, "Delete"@) {
        changed(
            mutations::deleted(around, state, tree::at(statement, "Delete"@)),
            CommandKind::Delete,
        )
    } else if tree::is(statement, "CreateTable"@) {
        defined(
            definitions::created_table(around, tree::at(statement, "CreateTable"@)),
            CommandKind::CreateTable,
            state,
        )
    } else if tree::is(statement, "CreateIndex"@) {
        defined(
            definitions::created_index(around, tree::at(statement, "CreateIndex"@)),
            CommandKind::CreateIndex,
            state,
        )
    } else if tree::is(statement, "AlterTable"@) && alters_nothing(
        tree::at(tree::at(statement, "AlterTable"@), "operations"@),
        0,
    ) {
        defined(Ok(None), CommandKind::AlterTable, state)
    } else {
        Err(
            ErrorView::Unsupported(
                statement_label(statement)
                    + " is not supported by the PostgreSQL frontend yet: "@
                    + syntax::shown_statement(statement),
            ),
        )
    }
}

/// Parameter types from a position on, where all are known.
pub open spec fn all_inferred(
    inferred: Seq<Option<ScalarType>>,
    i: nat,
    done: Seq<ScalarType>,
) -> Result<Seq<ScalarType>, ErrorView>
    decreases inferred.len() - i,
{
    if i >= inferred.len() {
        Ok(done)
    } else {
        match inferred[i as int] {
            Some(scalar_type) => all_inferred(inferred, i + 1, done.push(scalar_type)),
            None => Err(
                ErrorView::Invalid(
                    "cannot infer the type of parameter $"@ + text::decimal(i + 1),
                ),
            ),
        }
    }
}

/// A statement against a catalog: what it compiles to, and the types of its
/// parameters.
pub open spec fn statement_of(around: Surroundings, statement: TreeView) -> Result<
    (CompiledView, Seq<ScalarType>),
    ErrorView,
> {
    match drafted(around, statement) {
        Err(error) => Err(error),
        Ok(draft) => match all_inferred(draft.state.inferred, 0, Seq::empty()) {
            Err(error) => Err(error),
            Ok(parameter_types) => Ok((draft.compiled, parameter_types)),
        },
    }
}

/// What a text prepares to.
pub open spec fn prepared_of(
    sql: Seq<char>,
    tables: Seq<TableView>,
    hints: Seq<Option<ScalarType>>,
) -> Result<(TreeView, CompiledView, Seq<ScalarType>), ErrorView> {
    match syntax::statements_of(sql) {
        Err(error) => Err(error),
        Ok(statements) => if statements.len() != 1 {
            Err(
                ErrorView::Invalid(
                    "prepared execution needs exactly one statement, got "@ + text::decimal(
                        statements.len(),
                    ),
                ),
            )
        } else {
            match statement_of(Surroundings { tables, hints, parameters: None }, statements[0]) {
                Err(error) => Err(error),
                Ok((compiled, parameter_types)) => Ok(
                    (statements[0], compiled, parameter_types),
                ),
            }
        },
    }
}

/// Whether parameters from a position on have the expected types.
pub open spec fn parameters_fit(
    parameters: Seq<ParameterView>,
    expected: Seq<ScalarType>,
    i: nat,
) -> Result<(), ErrorView>
    decreases parameters.len() - i,
{
    if i >= parameters.len() {
        Ok(())
    } else if parameters[i as int].scalar_type != expected[i as int] {
        Err(
            ErrorView::Invalid(
                "parameter $"@ + text::decimal(i + 1) + " is "@ + literals::type_label(
                    parameters[i as int].scalar_type,
                ) + ", expected "@ + literals::type_label(expected[i as int]),
            ),
        )
    } else {
        parameters_fit(parameters, expected, i + 1)
    }
}

/// What a prepared statement compiles to under bound parameters.
pub open spec fn compiled_of(
    statement: TreeView,
    expected: Seq<ScalarType>,
    tables: Seq<TableView>,
    parameters: Seq<ParameterView>,
) -> Result<CompiledView, ErrorView> {
    if parameters.len() != expected.len() {
        Err(
            ErrorView::Invalid(
                "expected "@ + text::decimal(expected.len()) + " parameters, got "@
                    + text::decimal(parameters.len()),
            ),
        )
    } else {
        match parameters_fit(parameters, expected, 0) {
            Err(error) => Err(error),
            Ok(_) => {
                let hints = Seq::new(expected.len(), |i: int| Some(expected[i]));
                match statement_of(
                    Surroundings { tables, hints, parameters: Some(parameters) },
                    statement,
                ) {
                    Err(error) => Err(error),
                    Ok((compiled, _)) => Ok(compiled),
                }
            },
        }
    }
}

fn statement_name(statement: &Tree) -> (name: &'static str)
    ensures
        name@ == statement_label(statement@),
{
    if statement.is("Query") {
        "SELECT"
    } else if statement.is("Insert") {
        "INSERT"
    } else if statement.is("Update") {
        "UPDATE"
    } else if statement.is("Delete") {
        "DELETE"
    } else if statement.is("CreateTable") {
        "CREATE TABLE"
    } else if statement.is("CreateIndex") {
        "CREATE INDEX"
    } else if statement.is("AlterTable") {
        "ALTER TABLE"
    } else {
        "statement"
    }
}

fn is_inert(operations: &Tree) -> (yes: bool)
    ensures
        yes == alters_nothing(operations@, 0),
{
    let count = operations.count();
    let mut i: usize = 0;
    while i < count
        invariant
            i <= count,
            count == tree::list(operations@).len(),
            alters_nothing(operations@, 0) == alters_nothing(operations@, i as nat),
        decreases count - i,
    {
        let operation = operations.item(i);
        let inert = operation.is("DropConstraint") || (operation.is("AddConstraint")
            && operation.at("AddConstraint").at("constraint").is("ForeignKey"));
        if !inert {
            return false;
        }
        i += 1;
    }
    true
}

fn finish_parameter_types(inferred: &Vec<Option<ScalarType>>) -> (result: Result<
    Vec<ScalarType>,
    Error,
>)
    ensures
        all_inferred(inferred@, 0, Seq::empty()) == (match result {
            Ok(types) => Ok(types@),
            Err(error) => Err(error@),
        }),
{
    let mut types: Vec<ScalarType> = Vec::new();
    let mut i: usize = 0;
    while i < inferred.len()
        invariant
            i <= inferred.len(),
            all_inferred(inferred@, 0, Seq::empty()) == all_inferred(inferred@, i as nat, types@),
        decreases inferred.len() - i,
    {
        match inferred[i] {
            Some(scalar_type) => {
                types.push(scalar_type);
            },
            None => {
                let position = count_text(i + 1);
                return Err(
                    Error::Invalid(
                        join("cannot infer the type of parameter $", position.as_str()),
                    ),
                );
            },
        }
        i += 1;
    }
    Ok(types)
}

impl<'a> Context<'a> {
    /// Lowers a query as a program of its own.
    fn select_query(&mut self, query: &Tree) -> (result: Result<(Program, Vec<ResultColumn>), Error>)
        ensures
            final(self).around() == old(self).around(),
            match (result, selected(old(self).around(), old(self).state(), query@)) {
                (Ok((program, columns)), Ok(draft)) => {
                    &&& draft.compiled.program == Some(program@)
                    &&& draft.compiled.result_columns == types::result_columns_view(columns@)
                    &&& draft.compiled.kind == CommandKind::Select
                    &&& draft.state == final(self).state()
                },
                (Err(error), Err(expected)) => error@ == expected,
                _ => false,
            },
    {
        let found = match self.select_query_in(query, &ExpressionEnv::none()) {
            Ok(found) => found,
            Err(error) => {
                return Err(error);
            },
        };
        let cardinality = if found.one {
            RootCardinality::First
        } else {
            RootCardinality::Many
        };
        let statement = Statement::Query {
            name: "sql_result".to_owned(),
            relation: Query {
                root: found.relation,
                cardinality,
                bindings: lir::copy_bindings(&self.bindings),
            },
        };
        let ghost shown = statement@;
        let mut statements: Vec<Statement> = Vec::new();
        statements.push(statement);
        assert(types::statements_view(statements@) =~= seq![shown]);
        Ok((Program { statements, result: Some("sql_result".to_owned()) }, found.columns))
    }
}

/// Lowers a statement against a catalog, and infers the types of its
/// parameters.
pub fn compile_statement(
    statement: &Tree,
    tables: &[Table],
    hints: &[Option<ScalarType>],
    parameters: Option<&[Parameter]>,
) -> (result: Result<(Compiled, Vec<ScalarType>), Error>)
    ensures
        statement_of(
            Surroundings {
                tables: catalog::tables_view(tables@),
                hints: hints@,
                parameters: literals::bound_view(parameters),
            },
            statement@,
        ) == (match result {
            Ok((compiled, parameter_types)) => Ok((compiled@, parameter_types@)),
            Err(error) => Err(error@),
        }),
{
    let mut context = Context::new(tables, hints, parameters);
    let none: Vec<ResultColumn> = Vec::new();
    let (program, result_columns, kind) = if statement.is("Query") {
        match context.select_query(statement.at("Query")) {
            Ok((program, columns)) => (Some(program), columns, CommandKind::Select),
            Err(error) => {
                return Err(error);
            },
        }
    } else if statement.is("Insert") {
        match context.insert(statement.at("Insert")) {
            Ok((program, columns)) => (Some(program), columns, CommandKind::Insert),
            Err(error) => {
                return Err(error);
            },
        }
    } else if statement.is("Update") {
        match context.update(statement.at("Update")) {
            Ok((program, columns)) => (Some(program), columns, CommandKind::Update),
            Err(error) => {
                return Err(error);
            },
        }
    } else if statement.is("Delete") {
        match context.delete(statement.at("Delete")) {
            Ok((program, columns)) => (Some(program), columns, CommandKind::Delete),
            Err(error) => {
                return Err(error);
            },
        }
    } else if statement.is("CreateTable") {
        match context.create_table(statement.at("CreateTable")) {
            Ok(program) => (program, none, CommandKind::CreateTable),
            Err(error) => {
                return Err(error);
            },
        }
    } else if statement.is("CreateIndex") {
        match context.create_index(statement.at("CreateIndex")) {
            Ok(program) => (program, none, CommandKind::CreateIndex),
            Err(error) => {
                return Err(error);
            },
        }
    } else if statement.is("AlterTable") && is_inert(
        statement.at("AlterTable").at("operations"),
    ) {
        (None, none, CommandKind::AlterTable)
    } else {
        let shown = syntax::show_statement(statement);
        return Err(
            Error::Unsupported(
                join3(
                    statement_name(statement),
                    " is not supported by the PostgreSQL frontend yet: ",
                    shown.as_str(),
                ),
            ),
        );
    };
    match finish_parameter_types(&context.inferred) {
        Ok(parameter_types) => Ok((Compiled { program, result_columns, kind }, parameter_types)),
        Err(error) => Err(error),
    }
}

/// Parses one statement and checks it against a catalog.
pub fn prepare(sql: &str, tables: &[Table], hints: &[Option<ScalarType>]) -> (result: Result<
    Prepared,
    Error,
>)
    ensures
        match (result, prepared_of(sql@, catalog::tables_view(tables@), hints@)) {
            (Ok(prepared), Ok((statement, compiled, parameter_types))) => {
                &&& prepared.statement@ == statement
                &&& prepared.parameter_types@ == parameter_types
                &&& types::result_columns_view(prepared.result_columns@) == compiled.result_columns
                &&& prepared.kind == compiled.kind
            },
            (Err(error), Err(expected)) => error@ == expected,
            _ => false,
        },
{
    let mut statements = match parse(sql) {
        Ok(statements) => statements,
        Err(error) => {
            return Err(error);
        },
    };
    if statements.len() != 1 {
        let count = count_text(statements.len());
        return Err(
            Error::Invalid(
                join("prepared execution needs exactly one statement, got ", count.as_str()),
            ),
        );
    }
    assert(tree::trees_view(statements@)[0] == statements@[0]@);
    let statement = statements.remove(0);
    match compile_statement(&statement, tables, hints, None) {
        Ok((draft, parameter_types)) => Ok(
            Prepared {
                statement,
                parameter_types,
                result_columns: draft.result_columns,
                kind: draft.kind,
            },
        ),
        Err(error) => Err(error),
    }
}

fn check_parameters(parameters: &[Parameter], expected: &Vec<ScalarType>) -> (result: Result<
    (),
    Error,
>)
    requires
        parameters.len() == expected.len(),
    ensures
        parameters_fit(types::parameters_view(parameters@), expected@, 0) == (match result {
            Ok(done) => Ok(done),
            Err(error) => Err(error@),
        }),
{
    let ghost all = types::parameters_view(parameters@);
    let mut i: usize = 0;
    while i < parameters.len()
        invariant
            i <= parameters.len(),
            parameters.len() == expected.len(),
            all == types::parameters_view(parameters@),
            parameters_fit(all, expected@, 0) == parameters_fit(all, expected@, i as nat),
        decreases parameters.len() - i,
    {
        assert(all[i as int] == parameters@[i as int]@);
        if parameters[i].scalar_type != expected[i] {
            let position = count_text(i + 1);
            let head = join4(
                "parameter $",
                position.as_str(),
                " is ",
                type_text(parameters[i].scalar_type),
            );
            return Err(
                Error::Invalid(join3(head.as_str(), ", expected ", type_text(expected[i]))),
            );
        }
        i += 1;
    }
    Ok(())
}

/// Compiles a prepared statement under bound parameters.
pub fn compile(prepared: &Prepared, tables: &[Table], parameters: &[Parameter]) -> (result: Result<
    Compiled,
    Error,
>)
    ensures
        compiled_of(
            prepared.statement@,
            prepared.parameter_types@,
            catalog::tables_view(tables@),
            types::parameters_view(parameters@),
        ) == forms::viewed(result),
{
    let expected = &prepared.parameter_types;
    if parameters.len() != expected.len() {
        let wanted = count_text(expected.len());
        let found = count_text(parameters.len());
        return Err(
            Error::Invalid(
                join4("expected ", wanted.as_str(), " parameters, got ", found.as_str()),
            ),
        );
    }
    if let Err(error) = check_parameters(parameters, expected) {
        return Err(error);
    }
    let mut hints: Vec<Option<ScalarType>> = Vec::new();
    let mut i: usize = 0;
    while i < expected.len()
        invariant
            i <= expected.len(),
            hints.len() == i,
            forall|k: int| 0 <= k < i ==> #[trigger] hints@[k] == Some(expected@[k]),
        decreases expected.len() - i,
    {
        hints.push(Some(expected[i]));
        i += 1;
    }
    assert(hints@ =~= Seq::new(expected@.len(), |i: int| Some(expected@[i])));
    match compile_statement(&prepared.statement, tables, hints.as_slice(), Some(parameters)) {
        Ok((compiled, _)) => Ok(compiled),
        Err(error) => Err(error),
    }
}

/// Parses, checks and compiles one statement without parameters.
pub fn compile_sql(sql: &str, tables: &[Table]) -> (result: Result<Compiled, Error>)
    ensures
        forms::viewed(result) == (match prepared_of(
            sql@,
            catalog::tables_view(tables@),
            Seq::empty(),
        ) {
            Err(error) => Err(error),
            Ok((statement, _, parameter_types)) => compiled_of(
                statement,
                parameter_types,
                catalog::tables_view(tables@),
                Seq::empty(),
            ),
        }),
{
    let hints: Vec<Option<ScalarType>> = Vec::new();
    let parameters: Vec<Parameter> = Vec::new();
    match prepare(sql, tables, hints.as_slice()) {
        Ok(prepared) => compile(&prepared, tables, parameters.as_slice()),
        Err(error) => Err(error),
    }
}

} // verus!
