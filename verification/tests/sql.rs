//! Lowering of statements to programs.

use rad::sql::catalog::{Column, DefaultFunction, SchemaId, Table};
use rad::sql::lir::{
    AggregateFunction, AggregateTerm, BinaryOp, BranchArm, Expr, GroupTerm, JoinKind, Kind, Literal, OrderTerm,
    ProjectField, Query, RawScalar, Relation, RootCardinality, RowsColumn, ScalarType,
    TextComparison, TextMatchPart, UnaryOp,
};
use rad::sql::datatypes::scalar_type;
use rad::sql::scopes::{collect_relation_scopes, remap_relation_scopes, Replacement};
use rad::sql::syntax::normalize_postgres_parser_input;
use rad::sql::tree::{Field, Tree};
use rad::sql::types::Statement;
use rad::sql::{compile, compile_sql, parse, prepare, CommandKind, Error, Parameter};

fn column(name: &str, scalar_type: ScalarType) -> Column {
    Column { name: name.to_owned(), scalar_type, nullable: false, format: String::new() }
}

fn users() -> Table {
    Table {
        schema_id: SchemaId::new(1).unwrap(),
        name: "users".into(),
        columns: vec![column("id", ScalarType::Int64), column("name", ScalarType::Text)],
        primary_key: vec!["id".into()],
        indexes: Vec::new(),
    }
}

#[test]
fn select_lowers_to_ordered_lir() {
    let compiled = compile_sql(
        "SELECT id, name FROM users WHERE id = 7 ORDER BY name DESC LIMIT 2",
        &[users()],
    )
    .unwrap();
    assert_eq!(compiled.kind, CommandKind::Select);
    assert_eq!(compiled.result_columns.len(), 2);
    let program = compiled.program.unwrap();
    let Statement::Query { relation, .. } = &program.statements[0] else {
        panic!("expected query statement")
    };
    assert!(matches!(relation.root, Relation::Project { .. }));
}

#[test]
fn insert_parameter_types_come_from_target_columns() {
    let prepared = prepare(
        "INSERT INTO users (id, name) VALUES ($1, $2) RETURNING id, name",
        &[users()],
        &[],
    )
    .unwrap();
    assert_eq!(
        prepared.parameter_types(),
        &[ScalarType::Int64, ScalarType::Text]
    );
    assert_eq!(prepared.result_columns().len(), 2);
}

#[test]
fn postgres_string_literals_coerce_to_the_column_type() {
    compile_sql("SELECT id FROM users WHERE id = '7'", &[users()]).unwrap();
}

#[test]
fn accepts_ent_aggregate_alias_named_sort() {
    let statements = parse("SELECT min(name) sort FROM users").unwrap();
    assert_eq!(statements.len(), 1);
}

#[test]
fn distinct_preserves_explicit_output_order() {
    let compiled = compile_sql(
        "SELECT DISTINCT name AS label, id AS position FROM users ORDER BY position NULLS FIRST, label DESC NULLS LAST",
        &[users()],
    )
    .unwrap();
    let program = compiled.program.unwrap();
    let Statement::Query { relation, .. } = &program.statements[0] else {
        panic!("expected query statement")
    };
    let Relation::Order { input, terms } = &relation.root else {
        panic!("expected distinct output to be ordered")
    };
    assert!(matches!(input.as_ref(), Relation::Distinct(_)));
    assert_eq!(terms.len(), 4);
    assert!(matches!(
        &terms[1].expression,
        Expr::Column { name, .. } if name.as_str() == "position"
    ));
    assert!(terms[0].descending);
    assert!(matches!(
        &terms[3].expression,
        Expr::Column { name, .. } if name.as_str() == "label"
    ));
    assert!(!terms[2].descending);
    assert!(terms[3].descending);
}

#[test]
fn large_in_lists_lower_to_balanced_predicates() {
    let values = (0..4096)
        .map(|value| value.to_string())
        .collect::<Vec<_>>()
        .join(", ");
    let compiled = compile_sql(
        &format!("SELECT id FROM users WHERE id IN ({values})"),
        &[users()],
    )
    .unwrap();
    let program = compiled.program.unwrap();
    let Statement::Query { relation, .. } = &program.statements[0] else {
        panic!("expected query statement")
    };
    let Relation::Project { input, .. } = &relation.root else {
        panic!("expected projected query")
    };
    let Relation::Order { input, .. } = input.as_ref() else {
        panic!("expected ordered query")
    };
    let Relation::Filter { predicate, .. } = input.as_ref() else {
        panic!("expected filtered query")
    };
    let mut pending = vec![(predicate, 1usize)];
    let mut depth = 0;
    while let Some((expression, current)) = pending.pop() {
        depth = depth.max(current);
        if let Expr::Binary { left, right, .. } = expression {
            pending.push((left, current + 1));
            pending.push((right, current + 1));
        }
    }
    assert!(depth <= 14, "balanced IN predicate depth was {depth}");
}

#[test]
fn create_table_preserves_postgres_wire_type_metadata() {
    let compiled = compile_sql(
        "CREATE TABLE events (id uuid NOT NULL PRIMARY KEY, body jsonb NOT NULL, occurred_at timestamp with time zone NOT NULL)",
        &[],
    )
    .unwrap();
    let program = compiled.program.unwrap();
    let Statement::CreateTable { table, .. } = &program.statements[0] else {
        panic!("expected create table statement")
    };
    assert_eq!(table.columns[0].scalar_type, ScalarType::Text);
    assert_eq!(table.columns[0].format, "uuid");
    assert_eq!(table.columns[1].format, "jsonb");
    assert_eq!(table.columns[2].scalar_type, ScalarType::Int64);
    assert_eq!(table.columns[2].format, "timestamptz");
}

#[test]
fn lowers_relational_sql_surface() {
    let table = users();
    for sql in [
        "SELECT u.id, CASE WHEN u.name ILIKE 'a%' THEN u.name ELSE 'other' END AS label FROM users u LEFT JOIN users p ON p.id = u.id WHERE EXISTS (SELECT 1 FROM users x WHERE x.id = u.id)",
        "WITH named(id, name) AS (SELECT id, name FROM users) SELECT id FROM named",
        "SELECT id FROM users UNION ALL SELECT id FROM users",
        "SELECT id FROM users INTERSECT SELECT id FROM users",
        "SELECT id FROM users EXCEPT SELECT id FROM users",
        "SELECT name, id FROM users ORDER BY 2 DESC NULLS LAST",
        "SELECT ALL id FROM users",
        "WITH RECURSIVE nums(n) AS (SELECT 1 UNION ALL SELECT n + 1 FROM nums WHERE n < 3) SELECT n FROM nums",
        "SELECT id, COUNT(*) + 1 AS total FROM users GROUP BY id HAVING COUNT(*) > 0 ORDER BY total DESC",
        "SELECT id AS key, COUNT(*) FROM users GROUP BY 1 ORDER BY key",
        "SELECT COALESCE(MAX(name), 'none') AS latest FROM users",
        "SELECT id, COUNT(*), COUNT(DISTINCT name), MAX(name) FROM users GROUP BY id",
    ] {
        compile_sql(sql, std::slice::from_ref(&table))
            .unwrap_or_else(|error| panic!("{sql}: {}", error.message()));
    }
}

#[test]
fn lowers_mutation_relation_sources_and_conflicts() {
    let table = users();
    for sql in [
        "INSERT INTO users (id, name) SELECT id + 10, name FROM users",
        "INSERT INTO users (id, name) VALUES (1, 'a') ON CONFLICT (id) DO NOTHING RETURNING id",
        "INSERT INTO users (id, name) VALUES (1, 'a') ON CONFLICT (id) DO UPDATE SET name = excluded.name RETURNING id, name",
        "UPDATE users AS u SET name = source.name FROM users AS source WHERE u.id = source.id RETURNING id",
        "DELETE FROM users AS u USING users AS source WHERE u.id = source.id RETURNING id",
    ] {
        compile_sql(sql, std::slice::from_ref(&table))
            .unwrap_or_else(|error| panic!("{sql}: {}", error.message()));
    }
}

/// The kind of error that a statement is refused with, and its text.
fn refusal(sql: &str) -> (&'static str, String) {
    let Err(error) = compile_sql(sql, &[users()]) else {
        return ("accepted", String::new());
    };
    match error {
        Error::Parse(message) => ("parse", message),
        Error::Unsupported(message) => ("unsupported", message),
        Error::Invalid(message) => ("invalid", message),
    }
}

#[test]
fn unparsable_text_is_refused() {
    let (kind, message) = refusal("FROBNICATE users");
    assert_eq!(kind, "parse");
    assert!(message.starts_with("sql parser error: "), "{message}");
    let Err(error) = parse("SELECT 'open") else {
        panic!("an open string does not parse")
    };
    assert!(error.message().starts_with("sql: sql parser error: "), "{}", error.message());
}

#[test]
fn unsupported_syntax_is_named() {
    let mut others = Vec::new();
    for (sql, expected) in [
        (
            "DROP TABLE users",
            "statement is not supported by the PostgreSQL frontend yet: DROP TABLE users",
        ),
        (
            "ALTER TABLE users DROP COLUMN name",
            "ALTER TABLE is not supported by the PostgreSQL frontend yet: ALTER TABLE users DROP COLUMN name",
        ),
        ("SELECT id FROM users FOR UPDATE", "row locks and FETCH are not supported yet"),
        ("VALUES (1)", "query body VALUES (1) is not supported yet"),
        (
            "SELECT id FROM users UNION ALL BY NAME SELECT id FROM users",
            "set quantifier ALL BY NAME is not supported",
        ),
        (
            "SELECT u.id FROM users u FULL JOIN users v ON u.id = v.id",
            "FULL OUTER JOIN needs a Rad relational primitive",
        ),
        (
            "SELECT u.id FROM users u CROSS APPLY users v",
            "join operator CrossApply is not supported",
        ),
        ("SELECT 1 FROM UNNEST(ARRAY[1])", "FROM item UNNEST(ARRAY[1]) is not supported yet"),
        ("SELECT ARRAY[1] FROM users", "expression ARRAY[1] is not supported yet"),
        ("SELECT id ^ 2 FROM users", "binary operator ^ is not supported"),
        ("SELECT ~id FROM users", "unary operator ~ is not supported"),
        ("SELECT lower(*) FROM users", "function lower argument *"),
        ("SELECT reverse(name) FROM users", "scalar function reverse is not supported"),
        (
            "SELECT DISTINCT ON (name) id FROM users",
            "DISTINCT ON needs a per-group first-row relational primitive",
        ),
        (
            "SELECT id FROM users WHERE name LIKE id",
            "row-dependent LIKE patterns need a dynamic matcher in LIR",
        ),
        (
            "SELECT id FROM users WHERE name ILIKE ''",
            "empty ILIKE patterns need case-folded equality in LIR",
        ),
        ("SELECT id FROM db.public.users", "catalog-qualified name db.public.users is not supported"),
        ("SELECT id FROM private.users", "schema \"private\" is not supported"),
        (
            "CREATE TABLE t (id bigint PRIMARY KEY, at inet)",
            "PostgreSQL type inet is not supported",
        ),
        (
            "CREATE TABLE t (id bigint PRIMARY KEY, name text DEFAULT upper('a'))",
            "default upper('a') is not supported",
        ),
        (
            "CREATE TABLE t (id bigint PRIMARY KEY, name text COLLATE de)",
            "column option COLLATE de is not supported",
        ),
        (
            "INSERT INTO users (id, name) VALUES (1 + 1, 'a')",
            "INSERT VALUES currently accepts literals, parameters, and casts only",
        ),
        (
            "CREATE INDEX by_name ON users (name) WHERE id > 0",
            "partial and covering indexes are not supported",
        ),
    ] {
        let found = refusal(sql);
        if found != ("unsupported", expected.to_owned()) {
            others.push((sql, found));
        }
    }
    assert_eq!(others, Vec::new());
}

#[test]
fn invalid_statements_are_explained() {
    let mut others = Vec::new();
    for (sql, expected) in [
        (
            "SELECT 1; SELECT 2",
            "prepared execution needs exactly one statement, got 2",
        ),
        ("SELECT $1 IS NULL", "cannot infer the type of $1"),
        ("SELECT id FROM users WHERE id = $2", "cannot infer the type of parameter $1"),
        ("SELECT id FROM people", "unknown table \"people\""),
        ("SELECT age FROM users", "unknown column \"age\""),
        ("SELECT u.age FROM users u", "unknown column u.age"),
        ("SELECT v.id FROM users u", "unknown table or alias \"v\""),
        ("SELECT v.* FROM users u", "unknown wildcard qualifier v"),
        (
            "SELECT id FROM users u, users v",
            "column reference \"id\" is ambiguous",
        ),
        (
            "SELECT id FROM users UNION SELECT id, name FROM users",
            "set-operation branches return 1 and 2 columns",
        ),
        (
            "SELECT id FROM users UNION SELECT name FROM users",
            "set-operation column 1 has types Int64 and Text",
        ),
        (
            "WITH a AS (SELECT 1), a AS (SELECT 2) SELECT 1",
            "WITH name \"a\" used twice",
        ),
        (
            "SELECT x FROM (SELECT 1)",
            "PostgreSQL derived tables need an alias",
        ),
        (
            "SELECT 1 FROM users AS u (a, b, c)",
            "table alias u names 3 columns for a 2-column relation",
        ),
        (
            "SELECT 1 FROM users u JOIN users v USING (age)",
            "unknown JOIN USING column \"age\"",
        ),
        ("SELECT id FROM users WHERE id = name", "cannot compare Int64 with Text"),
        ("SELECT id FROM users WHERE id AND true", "AND/OR operands must be boolean"),
        ("SELECT name + 1 FROM users", "arithmetic operands must be numeric"),
        ("SELECT id FROM users WHERE id = 'x'", "invalid int64 literal \"x\""),
        ("SELECT id FROM users WHERE name LIKE NULL", "LIKE pattern must not be NULL"),
        ("SELECT COUNT(DISTINCT *) FROM users", "COUNT(DISTINCT *) is not valid"),
        ("SELECT id FROM users ORDER BY 2", "ORDER BY position 2 is out of range"),
        (
            "SELECT id FROM users LIMIT -1",
            "LIMIT/OFFSET must be a bound integer",
        ),
        (
            "SELECT id FROM users LIMIT 1.5",
            "LIMIT/OFFSET \"1.5\" is not a non-negative integer",
        ),
        (
            "INSERT INTO users (id, name) VALUES (1)",
            "INSERT row has 1 values for 2 columns",
        ),
        ("INSERT INTO users (id, age) VALUES (1, 2)", "unknown column \"age\""),
        (
            "INSERT INTO users (id, name) SELECT id FROM users",
            "INSERT has 2 target columns but query returns 1",
        ),
        (
            "INSERT INTO users (id, name) VALUES (1, 'a') ON CONFLICT (age) DO NOTHING",
            "unknown conflict column \"age\"",
        ),
        ("UPDATE users SET id = 2", "primary keys cannot be updated"),
        ("UPDATE users SET age = 2", "unknown column \"age\""),
        ("CREATE TABLE users (id bigint PRIMARY KEY)", "table \"users\" already exists with id 1"),
        ("CREATE TABLE t (id bigint)", "Rad tables require a primary key"),
        (
            "CREATE TABLE t (id bigint PRIMARY KEY DEFAULT 'x')",
            "invalid int64 literal \"x\"",
        ),
        ("SELECT id FROM users WHERE id IN (SELECT id, name FROM users)", "IN subquery returns 2 columns"),
        ("SELECT (SELECT id, name FROM users)", "scalar subquery returns 2 columns"),
    ] {
        let found = refusal(sql);
        if found != ("invalid", expected.to_owned()) {
            others.push((sql, found));
        }
    }
    assert_eq!(others, Vec::new());
}

#[test]
fn parameters_are_held_to_their_types() {
    let tables = [users()];
    let prepared = prepare("SELECT id FROM users WHERE id = $1", &tables, &[]).unwrap();
    assert_eq!(prepared.kind(), CommandKind::Select);
    assert_eq!(prepared.sql(), "SELECT id FROM users WHERE id = $1");
    let Err(Error::Invalid(message)) = compile(&prepared, &tables, &[]) else {
        panic!("a parameter is missing")
    };
    assert_eq!(message, "expected 1 parameters, got 0");
    let wrong =
        [Parameter { scalar_type: ScalarType::Text, value: RawScalar::Text("7".into()) }];
    let Err(Error::Invalid(message)) = compile(&prepared, &tables, &wrong) else {
        panic!("the parameter is of another type")
    };
    assert_eq!(message, "parameter $1 is Text, expected Int64");
    let right =
        [Parameter { scalar_type: ScalarType::Int64, value: RawScalar::Number("7".into()) }];
    let compiled = compile(&prepared, &tables, &right).unwrap();
    let program = compiled.program.unwrap();
    let Statement::Query { relation, .. } = &program.statements[0] else {
        panic!("expected query statement")
    };
    let Relation::Project { input, .. } = &relation.root else {
        panic!("expected projected query")
    };
    let Relation::Order { input, .. } = input.as_ref() else {
        panic!("expected ordered query")
    };
    let Relation::Filter { predicate, .. } = input.as_ref() else {
        panic!("expected filtered query")
    };
    let Expr::Binary { op, right, .. } = predicate else {
        panic!("expected comparison")
    };
    assert_eq!(*op, BinaryOp::Eq);
    assert_eq!(
        **right,
        Expr::Literal(Literal {
            raw: RawScalar::Number("7".into()),
            kind: Some(Kind::Int64),
        })
    );
    let Err(Error::Invalid(message)) =
        prepare("SELECT id FROM users WHERE id = $1", &tables, &[Some(ScalarType::Text)])
    else {
        panic!("the hint contradicts the use")
    };
    assert_eq!(message, "parameter $1 is hinted as Text, expected Int64");
    let Err(Error::Invalid(message)) =
        prepare("SELECT id FROM users WHERE id = $1 OR name = $1", &tables, &[])
    else {
        panic!("the parameter is used with two types")
    };
    assert_eq!(message, "parameter $1 is used as both Int64 and Text");
}

#[test]
fn patterns_become_parts() {
    for (sql, expected) in [
        (
            "SELECT id FROM users WHERE name LIKE 'a%'",
            vec![TextMatchPart::Literal("a".into()), TextMatchPart::AnyMany],
        ),
        (
            "SELECT id FROM users WHERE name LIKE '%a\\%b%%c'",
            vec![
                TextMatchPart::AnyMany,
                TextMatchPart::Literal("a%b".into()),
                TextMatchPart::AnyMany,
                TextMatchPart::Literal("c".into()),
            ],
        ),
    ] {
        let compiled = compile_sql(sql, &[users()]).unwrap();
        let program = compiled.program.unwrap();
        let Statement::Query { relation, .. } = &program.statements[0] else {
            panic!("expected query statement")
        };
        let Relation::Project { input, .. } = &relation.root else {
            panic!("expected projected query")
        };
        let Relation::Order { input, .. } = input.as_ref() else {
            panic!("expected ordered query")
        };
        let Relation::Filter { predicate, .. } = input.as_ref() else {
            panic!("expected filtered query")
        };
        let Expr::TextMatch { parts, comparison, .. } = predicate else {
            panic!("expected text match")
        };
        assert_eq!(parts, &expected, "{sql}");
        assert_eq!(*comparison, TextComparison::Exact);
    }
}

#[test]
fn repeated_output_names_stay_apart() {
    let compiled = compile_sql("SELECT id, id, name AS id FROM users", &[users()]).unwrap();
    let names: Vec<&str> =
        compiled.result_columns.iter().map(|column| column.name.as_str()).collect();
    let fields: Vec<&str> =
        compiled.result_columns.iter().map(|column| column.field.as_str()).collect();
    assert_eq!(names, ["id", "id", "id"]);
    assert_eq!(fields, ["id", "id_2", "id_3"]);
}

#[test]
fn created_tables_name_their_keys_and_defaults() {
    let compiled = compile_sql(
        "CREATE TABLE Events (id bigint, tag varchar(8) UNIQUE DEFAULT 'x', at timestamp DEFAULT now(), PRIMARY KEY (id))",
        &[],
    )
    .unwrap();
    assert_eq!(compiled.kind, CommandKind::CreateTable);
    let program = compiled.program.unwrap();
    let Statement::CreateTable { table, .. } = &program.statements[0] else {
        panic!("expected create table statement")
    };
    assert_eq!(table.name, "events");
    assert_eq!(table.primary_key, ["id"]);
    assert_eq!(table.indexes[0].name, "events_tag_key");
    assert_eq!(table.indexes[0].columns, ["tag"]);
    assert!(table.indexes[0].unique);
    assert_eq!(table.columns[1].default.as_ref().unwrap().text, "x");
    assert_eq!(
        table.columns[2].default.as_ref().unwrap().function,
        Some(DefaultFunction::NowMs)
    );
    assert_eq!(table.columns[2].format, "timestamp");
}

#[test]
fn foreign_keys_are_accepted_without_work() {
    let compiled = compile_sql(
        "ALTER TABLE users ADD CONSTRAINT f FOREIGN KEY (id) REFERENCES users (id)",
        &[users()],
    )
    .unwrap();
    assert!(compiled.program.is_none());
    assert_eq!(compiled.kind, CommandKind::AlterTable);
    let again =
        compile_sql("CREATE TABLE IF NOT EXISTS users (id bigint PRIMARY KEY)", &[users()])
            .unwrap();
    assert!(again.program.is_none());
}

#[test]
fn parser_input_keeps_what_the_parser_reads() {
    assert_eq!(
        normalize_postgres_parser_input("SELECT id FROM users"),
        "SELECT id FROM users"
    );
    assert_eq!(normalize_postgres_parser_input("SELECT 'min(x) sort'"), "SELECT 'min(x) sort'");
    assert_eq!(
        normalize_postgres_parser_input("SELECT min(name)  Sort FROM users"),
        "SELECT min(name)  AS \"sort\" FROM users"
    );
    assert_eq!(
        normalize_postgres_parser_input("SELECT min(name) sorted FROM users"),
        "SELECT min(name) sorted FROM users"
    );
}

fn reference(scope: &str, name: &str) -> Expr {
    Expr::Column { scope: scope.into(), name: name.into() }
}

fn ascending(scope: &str, name: &str) -> OrderTerm {
    OrderTerm { expression: reference(scope, name), descending: false }
}

fn field(name: &str, expression: Expr) -> ProjectField {
    ProjectField { name: name.into(), expression }
}

fn scan(scope: &str) -> Relation {
    Relation::Scan { table: "users".into(), scope: scope.into() }
}

fn projected(input: Relation, scope: Option<&str>, fields: Vec<ProjectField>) -> Relation {
    Relation::Project {
        input: Box::new(input),
        scope: scope.map(str::to_owned),
        spread: Vec::new(),
        fields,
    }
}

fn ordered(input: Relation, terms: Vec<OrderTerm>) -> Relation {
    Relation::Order { input: Box::new(input), terms }
}

fn number(text: &str, kind: Kind) -> Expr {
    Expr::Literal(Literal { raw: RawScalar::Number(text.into()), kind: Some(kind) })
}

fn program_of(sql: &str) -> Vec<Statement> {
    compile_sql(sql, &[users()]).unwrap().program.unwrap().statements
}

#[test]
fn set_operations_meet_in_the_wider_type() {
    let left = projected(
        ordered(scan("users_1"), vec![ascending("users_1", "id")]),
        Some("result_2"),
        vec![field("id", reference("users_1", "id"))],
    );
    let one = Relation::Rows {
        scope: "constant_3".into(),
        columns: vec![RowsColumn { name: "_one".into(), kind: Kind::Int64, nullable: false }],
        values: vec![vec![RawScalar::Number("1".into())]],
    };
    let right = projected(
        ordered(one, vec![ascending("constant_3", "_one")]),
        Some("result_4"),
        vec![field("?column?", number("1.5", Kind::Float64))],
    );
    let widened = Expr::Cast {
        expression: Box::new(reference("result_2", "id")),
        to: Kind::Float64,
    };
    let root = ordered(
        Relation::Distinct(Box::new(Relation::Concatenate {
            scope: "set_7".into(),
            inputs: vec![
                projected(left, Some("set_branch_5"), vec![field("id", widened)]),
                projected(
                    right,
                    Some("set_branch_6"),
                    vec![field("id", reference("result_4", "?column?"))],
                ),
            ],
        })),
        vec![ascending("set_7", "id")],
    );
    assert_eq!(
        program_of("SELECT id FROM users UNION SELECT 1.5"),
        vec![Statement::Query {
            name: "sql_result".into(),
            relation: Query { root, cardinality: RootCardinality::Many, bindings: Vec::new() },
        }]
    );
}

#[test]
fn groups_are_counted_filtered_and_ordered() {
    let aggregated = Relation::Aggregate {
        input: Box::new(scan("aggregate_input_4")),
        scope: Some("aggregate_2".into()),
        groups: vec![GroupTerm {
            name: "group_1".into(),
            expression: reference("aggregate_input_4", "name"),
        }],
        terms: vec![AggregateTerm {
            function: AggregateFunction::Count,
            argument: None,
            name: "aggregate_1".into(),
        }],
    };
    let frequent = Relation::Filter {
        input: Box::new(aggregated),
        predicate: Expr::Binary {
            op: BinaryOp::Gt,
            left: Box::new(reference("aggregate_2", "aggregate_1")),
            right: Box::new(number("1", Kind::Int64)),
        },
    };
    let nulls_first = OrderTerm {
        expression: Expr::Unary {
            op: UnaryOp::IsNull,
            expression: Box::new(reference("aggregate_2", "aggregate_1")),
        },
        descending: true,
    };
    let largest_first =
        OrderTerm { expression: reference("aggregate_2", "aggregate_1"), descending: true };
    let sliced = Relation::Slice {
        input: Box::new(ordered(frequent, vec![nulls_first, largest_first])),
        offset: 0,
        limit: Some(3),
    };
    let root = projected(
        sliced,
        Some("result_3"),
        vec![
            field("name", reference("aggregate_2", "group_1")),
            field("total", reference("aggregate_2", "aggregate_1")),
        ],
    );
    assert_eq!(
        program_of(
            "SELECT name, COUNT(*) AS total FROM users GROUP BY name HAVING COUNT(*) > 1 ORDER BY total DESC LIMIT 3"
        ),
        vec![Statement::Query {
            name: "sql_result".into(),
            relation: Query { root, cardinality: RootCardinality::Many, bindings: Vec::new() },
        }]
    );
}

#[test]
fn conflicting_rows_are_updated_before_the_others_are_created() {
    let rows = || Relation::Rows {
        scope: "insert_values_1".into(),
        columns: vec![
            RowsColumn { name: "id".into(), kind: Kind::Int64, nullable: false },
            RowsColumn { name: "name".into(), kind: Kind::Text, nullable: false },
        ],
        values: vec![vec![RawScalar::Number("1".into()), RawScalar::Text("a".into())]],
    };
    let same_id = |scope: &str| Expr::Binary {
        op: BinaryOp::Eq,
        left: Box::new(reference(scope, "id")),
        right: Box::new(reference("insert_values_1", "id")),
    };
    let matched = Relation::Join {
        left: Box::new(rows()),
        right: Box::new(scan("users_3")),
        kind: JoinKind::Inner,
        on: same_id("users_3"),
    };
    let update = projected(
        ordered(matched, vec![ascending("users_3", "id")]),
        None,
        vec![
            field("id", reference("users_3", "id")),
            field("name", reference("insert_values_1", "name")),
        ],
    );
    let conflict = Relation::Filter {
        input: Box::new(scan("conflict_2")),
        predicate: same_id("conflict_2"),
    };
    let missing = Relation::Filter {
        input: Box::new(rows()),
        predicate: Expr::Unary {
            op: UnaryOp::Not,
            expression: Box::new(Expr::Exists(Box::new(conflict))),
        },
    };
    let create = ordered(
        missing,
        vec![ascending("insert_values_1", "id"), ascending("insert_values_1", "name")],
    );
    let query =
        |root| Query { root, cardinality: RootCardinality::Many, bindings: Vec::new() };
    assert_eq!(
        program_of(
            "INSERT INTO users (id, name) VALUES (1, 'a') ON CONFLICT (id) DO UPDATE SET name = excluded.name"
        ),
        vec![
            Statement::Update {
                name: "sql_upsert_update".into(),
                relation: query(update),
                table: "users".into(),
            },
            Statement::Create {
                name: "sql_upsert_create".into(),
                relation: query(create),
                table: "users".into(),
            },
        ]
    );
}

/// The fields that a statement projects.
fn projected_fields(sql: &str) -> Vec<ProjectField> {
    let mut statements = program_of(sql);
    let Statement::Query { relation, .. } = statements.remove(0) else {
        panic!("expected query statement")
    };
    let Relation::Project { fields, .. } = relation.root else {
        panic!("expected a projection")
    };
    fields
}

fn truth(value: bool) -> Expr {
    Expr::Literal(Literal { raw: RawScalar::Bool(value), kind: Some(Kind::Bool) })
}

#[test]
fn truth_tests_answer_for_null() {
    let is = |value: bool| Expr::Branch {
        arms: vec![BranchArm {
            when: Expr::Binary {
                op: BinaryOp::Eq,
                left: Box::new(Expr::Binary {
                    op: BinaryOp::Eq,
                    left: Box::new(reference("users_1", "id")),
                    right: Box::new(number("1", Kind::Int64)),
                }),
                right: Box::new(truth(value)),
            },
            value: truth(true),
        }],
        otherwise: Box::new(truth(false)),
    };
    let is_not = |value: bool| Expr::Unary { op: UnaryOp::Not, expression: Box::new(is(value)) };
    for (test, expected) in [
        ("IS TRUE", is(true)),
        ("IS NOT TRUE", is_not(true)),
        ("IS FALSE", is(false)),
        ("IS NOT FALSE", is_not(false)),
    ] {
        let fields = projected_fields(&format!("SELECT (id = 1) {test} AS answer FROM users"));
        assert_eq!(fields, vec![field("answer", expected)], "{test}");
    }
}

#[test]
fn every_column_reads_its_own_source() {
    let fields = projected_fields("SELECT * FROM users a JOIN users b ON a.id = b.id");
    let names: Vec<&str> = fields.iter().map(|field| field.name.as_str()).collect();
    assert_eq!(names, ["id", "name", "id_2", "name_2"]);
    let read: Vec<(&str, &str)> = fields
        .iter()
        .map(|field| match &field.expression {
            Expr::Column { scope, name } => (scope.as_str(), name.as_str()),
            other => panic!("expected a column, not {other:?}"),
        })
        .collect();
    assert_eq!([read[0].1, read[1].1, read[2].1, read[3].1], ["id", "name", "id", "name"]);
    assert_eq!(read[0].0, read[1].0);
    assert_eq!(read[2].0, read[3].0);
    assert_ne!(read[0].0, read[2].0);
}

#[test]
fn output_positions_keep_the_case_of_names() {
    for sql in [
        "SELECT DISTINCT name AS \"Label\" FROM users ORDER BY 1",
        "SELECT name AS \"Label\" FROM users UNION SELECT name FROM users ORDER BY 1",
    ] {
        let mut statements = program_of(sql);
        let Statement::Query { relation, .. } = statements.remove(0) else {
            panic!("expected query statement")
        };
        let Relation::Order { terms, .. } = relation.root else {
            panic!("expected an order")
        };
        assert!(matches!(
            &terms[terms.len() - 1].expression,
            Expr::Column { name, .. } if name.as_str() == "Label"
        ));
    }
}

fn record(fields: Vec<(&str, Tree)>) -> Tree {
    Tree::Record(
        fields
            .into_iter()
            .map(|(name, value)| Field { name: name.into(), value })
            .collect(),
    )
}

fn custom_type(quote: &str) -> Tree {
    let name = record(vec![
        ("value", Tree::Text("geo".into())),
        ("quote_style", Tree::Text(quote.into())),
        (
            "span",
            record(vec![
                (
                    "start",
                    record(vec![
                        ("line", Tree::Number("0".into())),
                        ("column", Tree::Number("0".into())),
                    ]),
                ),
                (
                    "end",
                    record(vec![
                        ("line", Tree::Number("0".into())),
                        ("column", Tree::Number("0".into())),
                    ]),
                ),
            ]),
        ),
    ]);
    let path = Tree::List(vec![record(vec![("Identifier", name)])]);
    record(vec![("Custom", Tree::List(vec![path, Tree::List(Vec::new())]))])
}

#[test]
fn names_in_unknown_quotes_are_not_shown() {
    let known = custom_type("\"");
    assert!(known.is_showable());
    let Err(Error::Unsupported(message)) = scalar_type(&known) else {
        panic!("expected a refusal")
    };
    assert_eq!(message, "PostgreSQL type \"geo\" is not supported");
    // A text that is no number is no syntax either.
    let Err(Error::Unsupported(message)) = scalar_type(&Tree::Number(
        r#"{"Custom":[[{"Identifier":{"value":"geo","quote_style":"x","span":{"start":{"line":0,"column":0},"end":{"line":0,"column":0}}}}],[]]}"#.into(),
    )) else {
        panic!("expected a refusal")
    };
    assert_eq!(message, "PostgreSQL type  is not supported");
    let unknown = custom_type("x");
    assert!(!unknown.is_showable());
    let Err(Error::Unsupported(message)) = scalar_type(&unknown) else {
        panic!("expected a refusal")
    };
    assert_eq!(message, "PostgreSQL type  is not supported");
}

#[test]
fn renaming_scopes_renames_what_is_gathered() {
    let relation = projected(
        ordered(scan("users_1"), vec![ascending("users_1", "id")]),
        Some("result_2"),
        vec![field("id", reference("users_1", "id"))],
    );
    let mut before = Vec::new();
    collect_relation_scopes(&relation, &mut before);
    assert_eq!(before, ["users_1", "result_2"]);
    let renamed = remap_relation_scopes(
        &relation,
        &vec![Replacement { from: "users_1".into(), to: "users_9".into() }],
    );
    assert_eq!(
        renamed,
        projected(
            ordered(scan("users_9"), vec![ascending("users_9", "id")]),
            Some("result_2"),
            vec![field("id", reference("users_9", "id"))],
        )
    );
    let mut after = Vec::new();
    collect_relation_scopes(&renamed, &mut after);
    assert_eq!(after, ["users_9", "result_2"]);
}

#[test]
fn what_the_parser_never_builds_is_not_shown() {
    let expression = || record(vec![("Value", Tree::Null)]);
    let limit = |fields: Vec<(&str, Tree)>| record(vec![("LimitOffset", record(fields))]);
    let keys = || Tree::List(vec![expression()]);
    assert!(limit(vec![("limit", expression()), ("limit_by", keys())]).is_showable());
    assert!(limit(vec![("limit", Tree::Null), ("limit_by", Tree::List(Vec::new()))]).is_showable());
    for fields in [
        vec![("limit_by", keys())],
        vec![("limit", Tree::Null), ("limit_by", keys())],
        vec![("limit", expression()), ("limit", Tree::Null), ("limit_by", keys())],
        vec![("limit", Tree::Number("x".into())), ("limit_by", keys())],
    ] {
        assert!(!limit(fields).is_showable());
    }
    let listed = |name: &str| record(vec![(name, Tree::List(vec![Tree::Null, keys(), Tree::Null]))]);
    assert!(!listed("LimitOffset").is_showable());
    assert!(!listed("SetOperation").is_showable());
    assert!(listed("Custom").is_showable());
}
