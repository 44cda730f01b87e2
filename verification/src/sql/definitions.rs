//! Lowering of statements that define tables and indexes.

use vstd::prelude::*;

use crate::sql::catalog;
use crate::sql::catalog::{
    ColumnDraft, ColumnDraftView, DefaultValue, DefaultValueView, IndexDef, IndexDefView, TableDraft,
    TableDraftView,
};
use crate::sql::context::Context;
use crate::sql::datatypes;
use crate::sql::lir::ScalarType;
use crate::sql::literals;
use crate::sql::literals::{identifier, object_name};
use crate::sql::lowering::Surroundings;
use crate::sql::mutations;
use crate::sql::syntax;
use crate::sql::tree;
use crate::sql::tree::{Tree, TreeView};
use crate::sql::types;
use crate::sql::types::{Error, ErrorView, Program, ProgramView, Statement, StatementView};
use crate::text;
use crate::text::{decimal_text, join3, join4, quoted};

verus! {

broadcast use {
    tree::group_tree_heights,
    types::group_sql_views,
    catalog::group_catalog_views,
};

/// The view of a fallible program, where the statement has one.
pub open spec fn program_result(result: Result<Option<Program>, Error>) -> Result<
    Option<ProgramView>,
    ErrorView,
> {
    match result {
        Ok(Some(program)) => Ok(Some(program@)),
        Ok(None) => Ok(None),
        Err(error) => Err(error@),
    }
}

/// Texts joined by underscores, from a position on.
pub open spec fn underscored(names: Seq<Seq<char>>, i: nat, done: Seq<char>) -> Seq<char>
    decreases names.len() - i,
{
    if i >= names.len() {
        done
    } else if i == 0 {
        underscored(names, 1, names[0])
    } else {
        underscored(names, i + 1, done + "_"@ + names[i as int])
    }
}

/// The name of a key over columns.
pub open spec fn key_name(table: Seq<char>, columns: Seq<char>) -> Seq<char> {
    table + "_"@ + columns + "_key"@
}

/// What is known of a table while it is defined.
#[verifier::ext_equal]
pub struct Definition {
    pub columns: Seq<ColumnDraftView>,
    pub primary_key: Seq<Seq<char>>,
    pub indexes: Seq<IndexDefView>,
}

/// What is known of a column while it is defined.
#[verifier::ext_equal]
pub struct ColumnDefinition {
    pub nullable: bool,
    pub default: Option<DefaultValueView>,
    pub primary_key: Seq<Seq<char>>,
    pub indexes: Seq<IndexDefView>,
}

/// A column after one of its options.
pub open spec fn with_option(
    table: Seq<char>,
    column: Seq<char>,
    scalar_type: ScalarType,
    option: TreeView,
    done: ColumnDefinition,
) -> Result<ColumnDefinition, ErrorView> {
    if tree::is(option, "Null"@) {
        Ok(ColumnDefinition { nullable: true, ..done })
    } else if tree::is(option, "NotNull"@) {
        Ok(ColumnDefinition { nullable: false, ..done })
    } else if tree::is(option, "PrimaryKey"@) {
        Ok(
            ColumnDefinition {
                nullable: false,
                primary_key: done.primary_key.push(column),
                ..done
            },
        )
    } else if tree::is(option, "Unique"@) {
        Ok(
            ColumnDefinition {
                indexes: done.indexes.push(
                    IndexDefView {
                        name: key_name(table, column),
                        columns: seq![column],
                        unique: true,
                    },
                ),
                ..done
            },
        )
    } else if tree::is(option, "Default"@) {
        match datatypes::default_for(tree::at(option, "Default"@), scalar_type) {
            Err(error) => Err(error),
            Ok(default) => Ok(ColumnDefinition { default, ..done }),
        }
    } else if tree::is(option, "ForeignKey"@) || tree::is(option, "Check"@) || tree::is(
        option,
        "Comment"@,
    ) {
        Ok(done)
    } else {
        Err(
            ErrorView::Unsupported(
                "column option "@ + syntax::shown_column_option(option) + " is not supported"@,
            ),
        )
    }
}

/// A column after its options from a position on.
pub open spec fn with_options(
    table: Seq<char>,
    column: Seq<char>,
    scalar_type: ScalarType,
    options: TreeView,
    i: nat,
    done: ColumnDefinition,
) -> Result<ColumnDefinition, ErrorView>
    decreases tree::list(options).len() - i,
{
    if i >= tree::list(options).len() {
        Ok(done)
    } else {
        match with_option(
            table,
            column,
            scalar_type,
            tree::at(tree::list(options)[i as int], "option"@),
            done,
        ) {
            Err(error) => Err(error),
            Ok(done) => with_options(table, column, scalar_type, options, i + 1, done),
        }
    }
}

/// A table with one more column.
pub open spec fn with_column(table: Seq<char>, column: TreeView, done: Definition) -> Result<
    Definition,
    ErrorView,
> {
    let name = literals::ident_name(tree::at(column, "name"@));
    match datatypes::typed(tree::at(column, "data_type"@)) {
        Err(error) => Err(error),
        Ok((scalar_type, format)) => match with_options(
            table,
            name,
            scalar_type,
            tree::at(column, "options"@),
            0,
            ColumnDefinition {
                nullable: true,
                default: None,
                primary_key: done.primary_key,
                indexes: done.indexes,
            },
        ) {
            Err(error) => Err(error),
            Ok(found) => Ok(
                Definition {
                    columns: done.columns.push(
                        ColumnDraftView {
                            id: None,
                            name,
                            scalar_type,
                            nullable: found.nullable,
                            format,
                            default: found.default,
                        },
                    ),
                    primary_key: found.primary_key,
                    indexes: found.indexes,
                },
            ),
        },
    }
}

/// A table with its columns from a position on.
pub open spec fn with_columns(
    table: Seq<char>,
    columns: TreeView,
    i: nat,
    done: Definition,
) -> Result<Definition, ErrorView>
    decreases tree::list(columns).len() - i,
{
    if i >= tree::list(columns).len() {
        Ok(done)
    } else {
        match with_column(table, tree::list(columns)[i as int], done) {
            Err(error) => Err(error),
            Ok(done) => with_columns(table, columns, i + 1, done),
        }
    }
}

/// A table with one more constraint.
pub open spec fn with_constraint(table: Seq<char>, constraint: TreeView, done: Definition) -> Result<
    Definition,
    ErrorView,
> {
    let unique = tree::at(constraint, "Unique"@);
    if tree::is(constraint, "PrimaryKey"@) {
        match datatypes::indexed(tree::at(tree::at(constraint, "PrimaryKey"@), "columns"@)) {
            Err(error) => Err(error),
            Ok(primary_key) => Ok(Definition { primary_key, ..done }),
        }
    } else if tree::is(constraint, "Unique"@) {
        match datatypes::indexed(tree::at(unique, "columns"@)) {
            Err(error) => Err(error),
            Ok(columns) => Ok(
                Definition {
                    indexes: done.indexes.push(
                        IndexDefView {
                            name: if !(tree::at(unique, "name"@) is Null) {
                                literals::ident_name(tree::at(unique, "name"@))
                            } else if !(tree::at(unique, "index_name"@) is Null) {
                                literals::ident_name(tree::at(unique, "index_name"@))
                            } else {
                                key_name(table, underscored(columns, 0, Seq::empty()))
                            },
                            columns,
                            unique: true,
                        },
                    ),
                    ..done
                },
            ),
        }
    } else if tree::is(constraint, "ForeignKey"@) || tree::is(constraint, "Check"@) {
        Ok(done)
    } else {
        Err(
            ErrorView::Unsupported(
                "table constraint "@ + syntax::shown_table_constraint(constraint)
                    + " is not supported"@,
            ),
        )
    }
}

/// A table with its constraints from a position on.
pub open spec fn with_constraints(
    table: Seq<char>,
    constraints: TreeView,
    i: nat,
    done: Definition,
) -> Result<Definition, ErrorView>
    decreases tree::list(constraints).len() - i,
{
    if i >= tree::list(constraints).len() {
        Ok(done)
    } else {
        match with_constraint(table, tree::list(constraints)[i as int], done) {
            Err(error) => Err(error),
            Ok(done) => with_constraints(table, constraints, i + 1, done),
        }
    }
}

/// A program of one statement that returns nothing.
pub open spec fn alone(statement: StatementView) -> ProgramView {
    ProgramView { statements: seq![statement], result: None }
}

/// A CREATE TABLE. It has no program where the table is there already and may
/// be.
pub open spec fn created_table(around: Surroundings, create: TreeView) -> Result<
    Option<ProgramView>,
    ErrorView,
> {
    match literals::object_text(tree::at(create, "name"@)) {
        Err(error) => Err(error),
        Ok(name) => match catalog::find_table(around.tables, name) {
            Some(existing) => if tree::flag(tree::at(create, "if_not_exists"@)) {
                Ok(None)
            } else {
                Err(
                    ErrorView::Invalid(
                        "table "@ + text::quoted_text(existing.name)
                            + " already exists with id "@ + text::decimal(
                            existing.schema_id.value as nat,
                        ),
                    ),
                )
            },
            None => if tree::flag(tree::at(create, "temporary"@)) || tree::flag(
                tree::at(create, "external"@),
            ) || !(tree::at(create, "query"@) is Null) {
                Err(
                    ErrorView::Unsupported(
                        "temporary, external, and CREATE TABLE AS tables are not supported"@,
                    ),
                )
            } else {
                let empty = Definition {
                    columns: Seq::empty(),
                    primary_key: Seq::empty(),
                    indexes: Seq::empty(),
                };
                match with_columns(name, tree::at(create, "columns"@), 0, empty) {
                    Err(error) => Err(error),
                    Ok(done) => match with_constraints(
                        name,
                        tree::at(create, "constraints"@),
                        0,
                        done,
                    ) {
                        Err(error) => Err(error),
                        Ok(done) => if done.primary_key.len() == 0 {
                            Err(ErrorView::Invalid("Rad tables require a primary key"@))
                        } else {
                            Ok(
                                Some(
                                    alone(
                                        StatementView::CreateTable {
                                            name: "sql_create_table"@,
                                            table: TableDraftView {
                                                id: None,
                                                name,
                                                columns: done.columns,
                                                primary_key: done.primary_key,
                                                indexes: done.indexes,
                                            },
                                        },
                                    ),
                                ),
                            )
                        },
                    },
                }
            },
        },
    }
}

/// A CREATE INDEX. It has no program where the index is there already and may
/// be.
pub open spec fn created_index(around: Surroundings, create: TreeView) -> Result<
    Option<ProgramView>,
    ErrorView,
> {
    match mutations::table_of(around, tree::at(create, "table_name"@)) {
        Err(error) => Err(error),
        Ok(table) => if tree::at(create, "name"@) is Null {
            Err(ErrorView::Invalid("CREATE INDEX needs a name"@))
        } else {
            match literals::object_text(tree::at(create, "name"@)) {
                Err(error) => Err(error),
                Ok(name) => if catalog::find_index(table.indexes, name) is Some {
                    if tree::flag(tree::at(create, "if_not_exists"@)) {
                        Ok(None)
                    } else {
                        Err(
                            ErrorView::Invalid(
                                "index "@ + text::quoted_text(name) + " already exists"@,
                            ),
                        )
                    }
                } else if !(tree::at(create, "predicate"@) is Null) || tree::list(
                    tree::at(create, "include"@),
                ).len() > 0 {
                    Err(
                        ErrorView::Unsupported(
                            "partial and covering indexes are not supported"@,
                        ),
                    )
                } else {
                    match datatypes::indexed(tree::at(create, "columns"@)) {
                        Err(error) => Err(error),
                        Ok(columns) => Ok(
                            Some(
                                alone(
                                    StatementView::CreateIndex {
                                        name: "sql_create_index"@,
                                        table_id: table.schema_id,
                                        index: IndexDefView {
                                            name,
                                            columns,
                                            unique: tree::flag(tree::at(create, "unique"@)),
                                        },
                                    },
                                ),
                            ),
                        ),
                    }
                },
            }
        },
    }
}

fn join_underscored(names: &Vec<String>) -> (result: String)
    ensures
        result@ == underscored(text::texts(names@), 0, Seq::empty()),
{
    let ghost all = text::texts(names@);
    let mut result = String::new();
    let mut i: usize = 0;
    assert(result@ =~= Seq::empty());
    while i < names.len()
        invariant
            i <= names.len(),
            all == text::texts(names@),
            underscored(all, 0, Seq::empty()) == underscored(all, i as nat, result@),
        decreases names.len() - i,
    {
        assert(all[i as int] == names@[i as int]@);
        if i == 0 {
            result = names[0].clone();
        } else {
            result = join3(result.as_str(), "_", names[i].as_str());
        }
        i += 1;
    }
    result
}

fn name_key(table: &str, columns: &str) -> (name: String)
    ensures
        name@ == key_name(table@, columns@),
{
    join4(table, "_", columns, "_key")
}

/// A program of one statement that returns nothing.
fn only(statement: Statement) -> (program: Program)
    ensures
        program@ == alone(statement@),
{
    let ghost shown = statement@;
    let mut statements: Vec<Statement> = Vec::new();
    statements.push(statement);
    assert(types::statements_view(statements@) =~= seq![shown]);
    Program { statements, result: None }
}

/// A column in the making.
struct ColumnBuilder {
    nullable: bool,
    default: Option<DefaultValue>,
}

/// A table in the making.
struct TableBuilder {
    columns: Vec<ColumnDraft>,
    primary_key: Vec<String>,
    indexes: Vec<IndexDef>,
}

spec fn building(column: ColumnBuilder, table: TableBuilder) -> ColumnDefinition {
    ColumnDefinition {
        nullable: column.nullable,
        default: catalog::optional_default_value_view(column.default),
        primary_key: text::texts(table.primary_key@),
        indexes: catalog::index_defs_view(table.indexes@),
    }
}

spec fn built(table: TableBuilder) -> Definition {
    Definition {
        columns: catalog::column_drafts_view(table.columns@),
        primary_key: text::texts(table.primary_key@),
        indexes: catalog::index_defs_view(table.indexes@),
    }
}

impl TableBuilder {
    fn add_option(
        &mut self,
        builder: &mut ColumnBuilder,
        table: &str,
        column: &str,
        scalar_type: ScalarType,
        option: &Tree,
    ) -> (result: Result<(), Error>)
        ensures
            final(self).columns == old(self).columns,
            with_option(
                table@,
                column@,
                scalar_type,
                option@,
                building(*old(builder), *old(self)),
            ) == (match result {
                Ok(_) => Ok(building(*final(builder), *final(self))),
                Err(error) => Err(error@),
            }),
    {
        let ghost before = building(*builder, *self);
        if option.is("Null") {
            builder.nullable = true;
        } else if option.is("NotNull") {
            builder.nullable = false;
        } else if option.is("PrimaryKey") {
            builder.nullable = false;
            self.primary_key.push(column.to_owned());
            assert(text::texts(self.primary_key@) =~= before.primary_key.push(column@));
        } else if option.is("Unique") {
            let mut columns: Vec<String> = Vec::new();
            columns.push(column.to_owned());
            assert(text::texts(columns@) =~= seq![column@]);
            self.indexes.push(IndexDef { name: name_key(table, column), columns, unique: true });
        } else if option.is("Default") {
            match datatypes::default_value(option.at("Default"), scalar_type) {
                Ok(default) => {
                    builder.default = default;
                },
                Err(error) => {
                    return Err(error);
                },
            }
        } else if option.is("ForeignKey") || option.is("Check") || option.is("Comment") {
        } else {
            let shown = syntax::show_column_option(option);
            return Err(
                Error::Unsupported(
                    join3("column option ", shown.as_str(), " is not supported"),
                ),
            );
        }
        Ok(())
    }

    fn add_column(&mut self, table: &str, column: &Tree) -> (result: Result<(), Error>)
        ensures
            with_column(table@, column@, built(*old(self))) == (match result {
                Ok(_) => Ok(built(*final(self))),
                Err(error) => Err(error@),
            }),
    {
        let name = identifier(column.at("name"));
        let (scalar_type, format) = match datatypes::scalar_type(column.at("data_type")) {
            Ok(found) => found,
            Err(error) => {
                return Err(error);
            },
        };
        let mut builder = ColumnBuilder { nullable: true, default: None };
        let options = column.at("options");
        let ghost start = building(builder, *self);
        let count = options.count();
        let mut i: usize = 0;
        while i < count
            invariant
                i <= count,
                count == tree::list(options@).len(),
                options@ == tree::at(column@, "options"@),
                name@ == literals::ident_name(tree::at(column@, "name"@)),
                self.columns == old(self).columns,
                datatypes::typed(tree::at(column@, "data_type"@)) == Ok::<
                    (ScalarType, Seq<char>),
                    ErrorView,
                >((scalar_type, format@)),
                start == (ColumnDefinition {
                    nullable: true,
                    default: None,
                    primary_key: text::texts(old(self).primary_key@),
                    indexes: catalog::index_defs_view(old(self).indexes@),
                }),
                with_options(table@, name@, scalar_type, options@, 0, start) == with_options(
                    table@,
                    name@,
                    scalar_type,
                    options@,
                    i as nat,
                    building(builder, *self),
                ),
            decreases count - i,
        {
            let option = options.item(i).at("option");
            if let Err(error) = self.add_option(
                &mut builder,
                table,
                name.as_str(),
                scalar_type,
                option,
            ) {
                return Err(error);
            }
            i += 1;
        }
        self.columns.push(
            ColumnDraft {
                id: None,
                name,
                scalar_type,
                nullable: builder.nullable,
                format,
                default: builder.default,
            },
        );
        Ok(())
    }

    fn add_constraint(&mut self, table: &str, constraint: &Tree) -> (result: Result<(), Error>)
        ensures
            with_constraint(table@, constraint@, built(*old(self))) == (match result {
                Ok(_) => Ok(built(*final(self))),
                Err(error) => Err(error@),
            }),
    {
        if constraint.is("PrimaryKey") {
            match datatypes::index_columns(constraint.at("PrimaryKey").at("columns")) {
                Ok(primary_key) => {
                    self.primary_key = primary_key;
                },
                Err(error) => {
                    return Err(error);
                },
            }
        } else if constraint.is("Unique") {
            let unique = constraint.at("Unique");
            let columns = match datatypes::index_columns(unique.at("columns")) {
                Ok(columns) => columns,
                Err(error) => {
                    return Err(error);
                },
            };
            let name = if !unique.at("name").absent() {
                identifier(unique.at("name"))
            } else if !unique.at("index_name").absent() {
                identifier(unique.at("index_name"))
            } else {
                let joined = join_underscored(&columns);
                name_key(table, joined.as_str())
            };
            self.indexes.push(IndexDef { name, columns, unique: true });
        } else if constraint.is("ForeignKey") || constraint.is("Check") {
        } else {
            let shown = syntax::show_table_constraint(constraint);
            return Err(
                Error::Unsupported(
                    join3("table constraint ", shown.as_str(), " is not supported"),
                ),
            );
        }
        Ok(())
    }
}

impl<'a> Context<'a> {
    /// Lowers a CREATE TABLE.
    pub fn create_table(&self, create: &Tree) -> (result: Result<Option<Program>, Error>)
        ensures
            program_result(result) == created_table(self.around(), create@),
    {
        let name = match object_name(create.at("name")) {
            Ok(name) => name,
            Err(error) => {
                return Err(error);
            },
        };
        if let Some(existing) = catalog::table_named(self.tables, name.as_str()) {
            if create.at("if_not_exists").flag() {
                return Ok(None);
            }
            let shown = quoted(existing.name.as_str());
            let id = decimal_text(existing.schema_id.value as u64);
            return Err(
                Error::Invalid(
                    join4("table ", shown.as_str(), " already exists with id ", id.as_str()),
                ),
            );
        }
        if create.at("temporary").flag() || create.at("external").flag() || !create.at(
            "query",
        ).absent() {
            return Err(
                Error::Unsupported(
                    "temporary, external, and CREATE TABLE AS tables are not supported".to_owned(),
                ),
            );
        }
        let mut table = TableBuilder {
            columns: Vec::new(),
            primary_key: Vec::new(),
            indexes: Vec::new(),
        };
        let ghost empty = Definition {
            columns: Seq::empty(),
            primary_key: Seq::empty(),
            indexes: Seq::empty(),
        };
        assert(built(table) =~= empty);
        let columns = create.at("columns");
        let count = columns.count();
        let mut i: usize = 0;
        while i < count
            invariant
                i <= count,
                count == tree::list(columns@).len(),
                columns@ == tree::at(create@, "columns"@),
                literals::object_text(tree::at(create@, "name"@)) == Ok::<Seq<char>, ErrorView>(
                    name@,
                ),
                catalog::find_table(self.around().tables, name@) is None,
                !tree::flag(tree::at(create@, "temporary"@)),
                !tree::flag(tree::at(create@, "external"@)),
                tree::at(create@, "query"@) is Null,
                empty == (Definition {
                    columns: Seq::empty(),
                    primary_key: Seq::empty(),
                    indexes: Seq::empty(),
                }),
                with_columns(name@, columns@, 0, empty) == with_columns(
                    name@,
                    columns@,
                    i as nat,
                    built(table),
                ),
            decreases count - i,
        {
            if let Err(error) = table.add_column(name.as_str(), columns.item(i)) {
                return Err(error);
            }
            i += 1;
        }
        let constraints = create.at("constraints");
        let ghost middle = built(table);
        let count = constraints.count();
        let mut i: usize = 0;
        while i < count
            invariant
                i <= count,
                count == tree::list(constraints@).len(),
                constraints@ == tree::at(create@, "constraints"@),
                literals::object_text(tree::at(create@, "name"@)) == Ok::<Seq<char>, ErrorView>(
                    name@,
                ),
                catalog::find_table(self.around().tables, name@) is None,
                !tree::flag(tree::at(create@, "temporary"@)),
                !tree::flag(tree::at(create@, "external"@)),
                tree::at(create@, "query"@) is Null,
                empty == (Definition {
                    columns: Seq::empty(),
                    primary_key: Seq::empty(),
                    indexes: Seq::empty(),
                }),
                with_columns(name@, tree::at(create@, "columns"@), 0, empty) == Ok::<
                    Definition,
                    ErrorView,
                >(middle),
                with_constraints(name@, constraints@, 0, middle) == with_constraints(
                    name@,
                    constraints@,
                    i as nat,
                    built(table),
                ),
            decreases count - i,
        {
            if let Err(error) = table.add_constraint(name.as_str(), constraints.item(i)) {
                return Err(error);
            }
            i += 1;
        }
        if table.primary_key.len() == 0 {
            return Err(Error::Invalid("Rad tables require a primary key".to_owned()));
        }
        Ok(
            Some(
                only(
                    Statement::CreateTable {
                        name: "sql_create_table".to_owned(),
                        table: TableDraft {
                            id: None,
                            name,
                            columns: table.columns,
                            primary_key: table.primary_key,
                            indexes: table.indexes,
                        },
                    },
                ),
            ),
        )
    }

    /// Lowers a CREATE INDEX.
    pub fn create_index(&self, create: &Tree) -> (result: Result<Option<Program>, Error>)
        ensures
            program_result(result) == created_index(self.around(), create@),
    {
        let table = match self.table(create.at("table_name")) {
            Ok(table) => table,
            Err(error) => {
                return Err(error);
            },
        };
        if create.at("name").absent() {
            return Err(Error::Invalid("CREATE INDEX needs a name".to_owned()));
        }
        let name = match object_name(create.at("name")) {
            Ok(name) => name,
            Err(error) => {
                return Err(error);
            },
        };
        if table.index(name.as_str()).is_some() {
            if create.at("if_not_exists").flag() {
                return Ok(None);
            }
            let shown = quoted(name.as_str());
            return Err(Error::Invalid(join3("index ", shown.as_str(), " already exists")));
        }
        if !create.at("predicate").absent() || create.at("include").count() > 0 {
            return Err(
                Error::Unsupported(
                    "partial and covering indexes are not supported".to_owned(),
                ),
            );
        }
        match datatypes::index_columns(create.at("columns")) {
            Ok(columns) => Ok(
                Some(
                    only(
                        Statement::CreateIndex {
                            name: "sql_create_index".to_owned(),
                            table_id: table.schema_id,
                            index: IndexDef { name, columns, unique: create.at("unique").flag() },
                        },
                    ),
                ),
            ),
            Err(error) => Err(error),
        }
    }
}

} // verus!
