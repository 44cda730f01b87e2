//! The parser, and the text of the syntax that it returns.

use sqlparser::dialect::PostgreSqlDialect;
use sqlparser::parser::Parser;
use vstd::prelude::*;

use crate::sql::showing::{body_shown, is_shown_body, showable};
use crate::sql::tree;
use crate::sql::tree::{Field, Tree, TreeView};
use crate::sql::types::{Error, ErrorView};
use crate::text::characters;

verus! {

/// A JSON value of `serde_json`, through which syntax passes in serialised form.
#[verifier::external_type_specification]
#[verifier::external_body]
pub struct ExJson(serde_json::Value);

/// A serialised value as a tree: each JSON value becomes the node of the same
/// shape, numbers as their text.
#[verifier::external_body]
fn from_json(value: serde_json::Value) -> (result: Tree) {
    match value {
        serde_json::Value::Null => Tree::Null,
        serde_json::Value::Bool(value) => Tree::Bool(value),
        serde_json::Value::Number(value) => Tree::Number(value.to_string()),
        serde_json::Value::String(value) => Tree::Text(value),
        serde_json::Value::Array(values) => Tree::List(values.into_iter().map(from_json).collect()),
        serde_json::Value::Object(values) => Tree::Record(
            values.into_iter().map(|(name, value)| Field { name, value: from_json(value) }).collect(),
        ),
    }
}

/// A tree in serialised form, the inverse of [`from_json`]. The text of a number
/// is read by `serde_json` as a number and as nothing else; a text that is none
/// becomes null.
#[verifier::external_body]
fn to_json(value: &Tree) -> (result: serde_json::Value) {
    match value {
        Tree::Null => serde_json::Value::Null,
        Tree::Bool(value) => serde_json::Value::Bool(*value),
        Tree::Number(value) => serde_json::from_str::<serde_json::Number>(value).map(
            serde_json::Value::Number,
        ).unwrap_or_default(),
        Tree::Text(value) => serde_json::Value::String(value.clone()),
        Tree::List(values) => values.iter().map(to_json).collect(),
        Tree::Record(fields) => serde_json::Value::Object(
            fields.iter().map(|field| (field.name.clone(), to_json(&field.value))).collect(),
        ),
    }
}

/// What the parser makes of a text: the statements in order, or a message.
pub uninterp spec fn parsed_statements(sql: Seq<char>) -> Result<Seq<TreeView>, Seq<char>>;

/// `sqlparser::parser::Parser::parse_sql` in the PostgreSQL dialect, with each
/// statement in the serialised form that its serde derive gives it, and a
/// parser error as its text. The contract names the result, which is a
/// function of the text alone.
#[verifier::external_body]
fn parse_statements(sql: &str) -> (result: Result<Vec<Tree>, String>)
    ensures
        parsed_statements(sql@) == (match result {
            Ok(statements) => Ok(tree::trees_view(statements@)),
            Err(message) => Err(message@),
        }),
{
    Parser::parse_sql(&PostgreSqlDialect {}, sql).map_err(|error| error.to_string())?.into_iter().map(
        |statement|
            serde_json::to_value(statement).map(from_json).map_err(|error| error.to_string()),
    ).collect()
}

/// The text that the parser's crate gives to an expression; empty where the tree is none.
pub uninterp spec fn displayed_expression(value: TreeView) -> Seq<char>;

/// The `Display` form of `sqlparser::ast::Expr`, read back from its serialised
/// form. The contract names the text. The form can panic on what the parser does
/// not build, so the tree is one that has a text.
#[verifier::external_body]
fn display_expression(value: &Tree) -> (result: String)
    requires
        showable(value@),
    ensures
        result@ == displayed_expression(value@),
{
    serde_json::from_value(to_json(value)).map(
        |value: sqlparser::ast::Expr| value.to_string(),
    ).unwrap_or_default()
}

/// The SQL text of an expression; empty where the tree is none, or is one that the
/// parser does not build.
pub open spec fn shown_expression(value: TreeView) -> Seq<char> {
    if showable(value) {
        displayed_expression(value)
    } else {
        Seq::empty()
    }
}

/// The SQL text of an expression.
pub(crate) fn show_expression(value: &Tree) -> (result: String)
    ensures
        result@ == shown_expression(value@),
{
    if value.is_showable() {
        display_expression(value)
    } else {
        String::new()
    }
}

/// The text that the parser's crate gives to a data type; empty where the tree is none.
pub uninterp spec fn displayed_data_type(value: TreeView) -> Seq<char>;

/// The `Display` form of `sqlparser::ast::DataType`, read back from its serialised
/// form. The contract names the text. The form can panic on what the parser does
/// not build, so the tree is one that has a text.
#[verifier::external_body]
fn display_data_type(value: &Tree) -> (result: String)
    requires
        showable(value@),
    ensures
        result@ == displayed_data_type(value@),
{
    serde_json::from_value(to_json(value)).map(
        |value: sqlparser::ast::DataType| value.to_string(),
    ).unwrap_or_default()
}

/// The SQL text of a data type; empty where the tree is none, or is one that the
/// parser does not build.
pub open spec fn shown_data_type(value: TreeView) -> Seq<char> {
    if showable(value) {
        displayed_data_type(value)
    } else {
        Seq::empty()
    }
}

/// The SQL text of a data type.
pub(crate) fn show_data_type(value: &Tree) -> (result: String)
    ensures
        result@ == shown_data_type(value@),
{
    if value.is_showable() {
        display_data_type(value)
    } else {
        String::new()
    }
}

/// The text that the parser's crate gives to a statement; empty where the tree is none.
pub uninterp spec fn displayed_statement(value: TreeView) -> Seq<char>;

/// The `Display` form of `sqlparser::ast::Statement`, read back from its serialised
/// form. The contract names the text. The form can panic on what the parser does
/// not build, so the tree is one that has a text.
#[verifier::external_body]
fn display_statement(value: &Tree) -> (result: String)
    requires
        showable(value@),
    ensures
        result@ == displayed_statement(value@),
{
    serde_json::from_value(to_json(value)).map(
        |value: sqlparser::ast::Statement| value.to_string(),
    ).unwrap_or_default()
}

/// The SQL text of a statement; empty where the tree is none, or is one that the
/// parser does not build.
pub open spec fn shown_statement(value: TreeView) -> Seq<char> {
    if showable(value) {
        displayed_statement(value)
    } else {
        Seq::empty()
    }
}

/// The SQL text of a statement.
pub(crate) fn show_statement(value: &Tree) -> (result: String)
    ensures
        result@ == shown_statement(value@),
{
    if value.is_showable() {
        display_statement(value)
    } else {
        String::new()
    }
}

/// The SQL text of a literal; empty where the tree is none.
pub uninterp spec fn shown_value(value: TreeView) -> Seq<char>;

/// The `Display` form of `sqlparser::ast::Value`, read back from its serialised
/// form. The contract names the text.
#[verifier::external_body]
pub(crate) fn show_value(value: &Tree) -> (result: String)
    ensures
        result@ == shown_value(value@),
{
    serde_json::from_value(to_json(value)).map(
        |value: sqlparser::ast::Value| value.to_string(),
    ).unwrap_or_default()
}

/// The SQL text of a binary operator; empty where the tree is none.
pub uninterp spec fn shown_binary_operator(value: TreeView) -> Seq<char>;

/// The `Display` form of `sqlparser::ast::BinaryOperator`, read back from its serialised
/// form. The contract names the text.
#[verifier::external_body]
pub(crate) fn show_binary_operator(value: &Tree) -> (result: String)
    ensures
        result@ == shown_binary_operator(value@),
{
    serde_json::from_value(to_json(value)).map(
        |value: sqlparser::ast::BinaryOperator| value.to_string(),
    ).unwrap_or_default()
}

/// The SQL text of a unary operator; empty where the tree is none.
pub open spec fn shown_unary_operator(value: TreeView) -> Seq<char> {
    if tree::is(value, "AtDashAt"@) {
        "@-@"@
    } else if tree::is(value, "BangNot"@) {
        "!"@
    } else if tree::is(value, "BitwiseNot"@) {
        "~"@
    } else if tree::is(value, "DoubleAt"@) {
        "@@"@
    } else if tree::is(value, "Hash"@) {
        "#"@
    } else if tree::is(value, "Minus"@) {
        "-"@
    } else if tree::is(value, "Not"@) {
        "NOT"@
    } else if tree::is(value, "PGAbs"@) {
        "@"@
    } else if tree::is(value, "PGCubeRoot"@) {
        "||/"@
    } else if tree::is(value, "PGPostfixFactorial"@) {
        "!"@
    } else if tree::is(value, "PGPrefixFactorial"@) {
        "!!"@
    } else if tree::is(value, "PGSquareRoot"@) {
        "|/"@
    } else if tree::is(value, "Plus"@) {
        "+"@
    } else if tree::is(value, "QuestionDash"@) {
        "?-"@
    } else if tree::is(value, "QuestionPipe"@) {
        "?|"@
    } else {
        Seq::empty()
    }
}

/// The SQL text of a unary operator.
pub(crate) fn show_unary_operator(value: &Tree) -> (result: String)
    ensures
        result@ == shown_unary_operator(value@),
{
    if value.is("AtDashAt") {
        "@-@".to_owned()
    } else if value.is("BangNot") {
        "!".to_owned()
    } else if value.is("BitwiseNot") {
        "~".to_owned()
    } else if value.is("DoubleAt") {
        "@@".to_owned()
    } else if value.is("Hash") {
        "#".to_owned()
    } else if value.is("Minus") {
        "-".to_owned()
    } else if value.is("Not") {
        "NOT".to_owned()
    } else if value.is("PGAbs") {
        "@".to_owned()
    } else if value.is("PGCubeRoot") {
        "||/".to_owned()
    } else if value.is("PGPostfixFactorial") {
        "!".to_owned()
    } else if value.is("PGPrefixFactorial") {
        "!!".to_owned()
    } else if value.is("PGSquareRoot") {
        "|/".to_owned()
    } else if value.is("Plus") {
        "+".to_owned()
    } else if value.is("QuestionDash") {
        "?-".to_owned()
    } else if value.is("QuestionPipe") {
        "?|".to_owned()
    } else {
        String::new()
    }
}

/// The text that the parser's crate gives to an object name; empty where the tree is none.
pub uninterp spec fn displayed_object_name(value: TreeView) -> Seq<char>;

/// The `Display` form of `sqlparser::ast::ObjectName`, read back from its serialised
/// form. The contract names the text. The form can panic on what the parser does
/// not build, so the tree is one that has a text.
#[verifier::external_body]
fn display_object_name(value: &Tree) -> (result: String)
    requires
        showable(value@),
    ensures
        result@ == displayed_object_name(value@),
{
    serde_json::from_value(to_json(value)).map(
        |value: sqlparser::ast::ObjectName| value.to_string(),
    ).unwrap_or_default()
}

/// The SQL text of an object name; empty where the tree is none, or is one that the
/// parser does not build.
pub open spec fn shown_object_name(value: TreeView) -> Seq<char> {
    if showable(value) {
        displayed_object_name(value)
    } else {
        Seq::empty()
    }
}

/// The SQL text of an object name.
pub(crate) fn show_object_name(value: &Tree) -> (result: String)
    ensures
        result@ == shown_object_name(value@),
{
    if value.is_showable() {
        display_object_name(value)
    } else {
        String::new()
    }
}

/// The text that the parser's crate gives to a query body; empty where the tree is none.
pub uninterp spec fn displayed_set_expr(value: TreeView) -> Seq<char>;

/// The `Display` form of `sqlparser::ast::SetExpr`, read back from its serialised
/// form. The contract names the text. The form can panic on what the parser does
/// not build, so the tree is one that has a text.
#[verifier::external_body]
fn display_set_expr(value: &Tree) -> (result: String)
    requires
        showable(value@),
        body_shown(value@),
    ensures
        result@ == displayed_set_expr(value@),
{
    serde_json::from_value(to_json(value)).map(
        |value: sqlparser::ast::SetExpr| value.to_string(),
    ).unwrap_or_default()
}

/// The SQL text of a query body; empty where the tree is none, or is one that the
/// parser does not build.
pub open spec fn shown_set_expr(value: TreeView) -> Seq<char> {
    if showable(value) && body_shown(value) {
        displayed_set_expr(value)
    } else {
        Seq::empty()
    }
}

/// The SQL text of a query body.
pub(crate) fn show_set_expr(value: &Tree) -> (result: String)
    ensures
        result@ == shown_set_expr(value@),
{
    if value.is_showable() && is_shown_body(value) {
        display_set_expr(value)
    } else {
        String::new()
    }
}

/// The text that the parser's crate gives to a FROM item; empty where the tree is none.
pub uninterp spec fn displayed_table_factor(value: TreeView) -> Seq<char>;

/// The `Display` form of `sqlparser::ast::TableFactor`, read back from its serialised
/// form. The contract names the text. The form can panic on what the parser does
/// not build, so the tree is one that has a text.
#[verifier::external_body]
fn display_table_factor(value: &Tree) -> (result: String)
    requires
        showable(value@),
    ensures
        result@ == displayed_table_factor(value@),
{
    serde_json::from_value(to_json(value)).map(
        |value: sqlparser::ast::TableFactor| value.to_string(),
    ).unwrap_or_default()
}

/// The SQL text of a FROM item; empty where the tree is none, or is one that the
/// parser does not build.
pub open spec fn shown_table_factor(value: TreeView) -> Seq<char> {
    if showable(value) {
        displayed_table_factor(value)
    } else {
        Seq::empty()
    }
}

/// The SQL text of a FROM item.
pub(crate) fn show_table_factor(value: &Tree) -> (result: String)
    ensures
        result@ == shown_table_factor(value@),
{
    if value.is_showable() {
        display_table_factor(value)
    } else {
        String::new()
    }
}

/// The text that the parser's crate gives to a projection item; empty where the tree is none.
pub uninterp spec fn displayed_select_item(value: TreeView) -> Seq<char>;

/// The `Display` form of `sqlparser::ast::SelectItem`, read back from its serialised
/// form. The contract names the text. The form can panic on what the parser does
/// not build, so the tree is one that has a text.
#[verifier::external_body]
fn display_select_item(value: &Tree) -> (result: String)
    requires
        showable(value@),
    ensures
        result@ == displayed_select_item(value@),
{
    serde_json::from_value(to_json(value)).map(
        |value: sqlparser::ast::SelectItem| value.to_string(),
    ).unwrap_or_default()
}

/// The SQL text of a projection item; empty where the tree is none, or is one that the
/// parser does not build.
pub open spec fn shown_select_item(value: TreeView) -> Seq<char> {
    if showable(value) {
        displayed_select_item(value)
    } else {
        Seq::empty()
    }
}

/// The SQL text of a projection item.
pub(crate) fn show_select_item(value: &Tree) -> (result: String)
    ensures
        result@ == shown_select_item(value@),
{
    if value.is_showable() {
        display_select_item(value)
    } else {
        String::new()
    }
}

/// The text that the parser's crate gives to a function argument; empty where the tree is none.
pub uninterp spec fn displayed_function_arg(value: TreeView) -> Seq<char>;

/// The `Display` form of `sqlparser::ast::FunctionArg`, read back from its serialised
/// form. The contract names the text. The form can panic on what the parser does
/// not build, so the tree is one that has a text.
#[verifier::external_body]
fn display_function_arg(value: &Tree) -> (result: String)
    requires
        showable(value@),
    ensures
        result@ == displayed_function_arg(value@),
{
    serde_json::from_value(to_json(value)).map(
        |value: sqlparser::ast::FunctionArg| value.to_string(),
    ).unwrap_or_default()
}

/// The SQL text of a function argument; empty where the tree is none, or is one that the
/// parser does not build.
pub open spec fn shown_function_arg(value: TreeView) -> Seq<char> {
    if showable(value) {
        displayed_function_arg(value)
    } else {
        Seq::empty()
    }
}

/// The SQL text of a function argument.
pub(crate) fn show_function_arg(value: &Tree) -> (result: String)
    ensures
        result@ == shown_function_arg(value@),
{
    if value.is_showable() {
        display_function_arg(value)
    } else {
        String::new()
    }
}

/// The text that the parser's crate gives to a column option; empty where the tree is none.
pub uninterp spec fn displayed_column_option(value: TreeView) -> Seq<char>;

/// The `Display` form of `sqlparser::ast::ColumnOption`, read back from its serialised
/// form. The contract names the text. The form can panic on what the parser does
/// not build, so the tree is one that has a text.
#[verifier::external_body]
fn display_column_option(value: &Tree) -> (result: String)
    requires
        showable(value@),
    ensures
        result@ == displayed_column_option(value@),
{
    serde_json::from_value(to_json(value)).map(
        |value: sqlparser::ast::ColumnOption| value.to_string(),
    ).unwrap_or_default()
}

/// The SQL text of a column option; empty where the tree is none, or is one that the
/// parser does not build.
pub open spec fn shown_column_option(value: TreeView) -> Seq<char> {
    if showable(value) {
        displayed_column_option(value)
    } else {
        Seq::empty()
    }
}

/// The SQL text of a column option.
pub(crate) fn show_column_option(value: &Tree) -> (result: String)
    ensures
        result@ == shown_column_option(value@),
{
    if value.is_showable() {
        display_column_option(value)
    } else {
        String::new()
    }
}

/// The text that the parser's crate gives to a table constraint; empty where the tree is none.
pub uninterp spec fn displayed_table_constraint(value: TreeView) -> Seq<char>;

/// The `Display` form of `sqlparser::ast::TableConstraint`, read back from its serialised
/// form. The contract names the text. The form can panic on what the parser does
/// not build, so the tree is one that has a text.
#[verifier::external_body]
fn display_table_constraint(value: &Tree) -> (result: String)
    requires
        showable(value@),
    ensures
        result@ == displayed_table_constraint(value@),
{
    serde_json::from_value(to_json(value)).map(
        |value: sqlparser::ast::TableConstraint| value.to_string(),
    ).unwrap_or_default()
}

/// The SQL text of a table constraint; empty where the tree is none, or is one that the
/// parser does not build.
pub open spec fn shown_table_constraint(value: TreeView) -> Seq<char> {
    if showable(value) {
        displayed_table_constraint(value)
    } else {
        Seq::empty()
    }
}

/// The SQL text of a table constraint.
pub(crate) fn show_table_constraint(value: &Tree) -> (result: String)
    ensures
        result@ == shown_table_constraint(value@),
{
    if value.is_showable() {
        display_table_constraint(value)
    } else {
        String::new()
    }
}

/// The SQL text of a set quantifier; empty where the tree is none.
pub open spec fn shown_set_quantifier(value: TreeView) -> Seq<char> {
    if tree::is(value, "All"@) {
        "ALL"@
    } else if tree::is(value, "Distinct"@) {
        "DISTINCT"@
    } else if tree::is(value, "ByName"@) {
        "BY NAME"@
    } else if tree::is(value, "AllByName"@) {
        "ALL BY NAME"@
    } else if tree::is(value, "DistinctByName"@) {
        "DISTINCT BY NAME"@
    } else {
        Seq::empty()
    }
}

/// The SQL text of a set quantifier.
pub(crate) fn show_set_quantifier(value: &Tree) -> (result: String)
    ensures
        result@ == shown_set_quantifier(value@),
{
    if value.is("All") {
        "ALL".to_owned()
    } else if value.is("Distinct") {
        "DISTINCT".to_owned()
    } else if value.is("ByName") {
        "BY NAME".to_owned()
    } else if value.is("AllByName") {
        "ALL BY NAME".to_owned()
    } else if value.is("DistinctByName") {
        "DISTINCT BY NAME".to_owned()
    } else {
        String::new()
    }
}

/// The text that the parser's crate gives to an identifier; empty where the tree is none.
pub uninterp spec fn displayed_ident(value: TreeView) -> Seq<char>;

/// The `Display` form of `sqlparser::ast::Ident`, read back from its serialised
/// form. The contract names the text. The form can panic on what the parser does
/// not build, so the tree is one that has a text.
#[verifier::external_body]
fn display_ident(value: &Tree) -> (result: String)
    requires
        showable(value@),
    ensures
        result@ == displayed_ident(value@),
{
    serde_json::from_value(to_json(value)).map(
        |value: sqlparser::ast::Ident| value.to_string(),
    ).unwrap_or_default()
}

/// The SQL text of an identifier; empty where the tree is none, or is one that the
/// parser does not build.
pub open spec fn shown_ident(value: TreeView) -> Seq<char> {
    if showable(value) {
        displayed_ident(value)
    } else {
        Seq::empty()
    }
}

/// The SQL text of an identifier.
pub(crate) fn show_ident(value: &Tree) -> (result: String)
    ensures
        result@ == shown_ident(value@),
{
    if value.is_showable() {
        display_ident(value)
    } else {
        String::new()
    }
}

/// The debug text of a join operator; empty where the tree is none.
pub uninterp spec fn shown_join_operator(value: TreeView) -> Seq<char>;

/// The `Debug` form of `sqlparser::ast::JoinOperator`, read back from its
/// serialised form. The contract names the text.
#[verifier::external_body]
pub(crate) fn show_join_operator(value: &Tree) -> (result: String)
    ensures
        result@ == shown_join_operator(value@),
{
    serde_json::from_value(to_json(value)).map(
        |value: sqlparser::ast::JoinOperator| format!("{value:?}"),
    ).unwrap_or_default()
}

/// ASCII whitespace.
pub open spec fn is_blank(character: char) -> bool {
    character == ' ' || character == '\t' || character == '\n' || character == '\u{c}' || character
        == '\r'
}

/// How many blanks a text starts with.
pub open spec fn blanks(sql: Seq<char>) -> nat
    decreases sql.len(),
{
    if sql.len() > 0 && is_blank(sql[0]) {
        1 + blanks(sql.skip(1))
    } else {
        0
    }
}

/// A character that continues an identifier.
pub open spec fn is_word_character(character: char) -> bool {
    ('0' <= character <= '9') || ('a' <= character <= 'z') || ('A' <= character <= 'Z') || character
        == '_'
}

/// Whether a text starts with the word `sort`, in any case.
pub open spec fn starts_with_sort(sql: Seq<char>) -> bool {
    &&& sql.len() >= 4
    &&& (sql[0] == 's' || sql[0] == 'S')
    &&& (sql[1] == 'o' || sql[1] == 'O')
    &&& (sql[2] == 'r' || sql[2] == 'R')
    &&& (sql[3] == 't' || sql[3] == 'T')
    &&& (sql.len() == 4 || !is_word_character(sql[4]))
}

/// The text that the parser gets: outside string literals, a bare `sort` after
/// a closing parenthesis is an alias, which the parser takes only when it is
/// quoted. Everything else stays.
pub open spec fn normalized(sql: Seq<char>, in_literal: bool) -> Seq<char>
    decreases sql.len(),
{
    if sql.len() == 0 {
        Seq::empty()
    } else if sql[0] == '\'' {
        if in_literal && sql.len() > 1 && sql[1] == '\'' {
            seq!['\'', '\''] + normalized(sql.skip(2), in_literal)
        } else {
            seq!['\''] + normalized(sql.skip(1), !in_literal)
        }
    } else if !in_literal && sql[0] == ')' {
        let gap = blanks(sql.skip(1));
        let rest = sql.skip(1 + gap as int);
        proof {
            lemma_blanks_bound(sql.skip(1));
        }
        if starts_with_sort(rest) {
            sql.take(1 + gap as int) + "AS \"sort\""@ + normalized(rest.skip(4), in_literal)
        } else {
            sql.take(1 + gap as int) + normalized(rest, in_literal)
        }
    } else {
        seq![sql[0]] + normalized(sql.skip(1), in_literal)
    }
}

/// A text starts with at most as many blanks as it has characters.
pub proof fn lemma_blanks_bound(sql: Seq<char>)
    ensures
        blanks(sql) <= sql.len(),
    decreases sql.len(),
{
    if sql.len() > 0 && is_blank(sql[0]) {
        lemma_blanks_bound(sql.skip(1));
    }
}

fn blank(character: char) -> (yes: bool)
    ensures
        yes == is_blank(character),
{
    character == ' ' || character == '\t' || character == '\n' || character == '\u{c}' || character
        == '\r'
}

fn word_character(character: char) -> (yes: bool)
    ensures
        yes == is_word_character(character),
{
    ('0' <= character && character <= '9') || ('a' <= character && character <= 'z') || ('A'
        <= character && character <= 'Z') || character == '_'
}

fn sort_at(sql: &Vec<char>, start: usize) -> (yes: bool)
    requires
        start <= sql.len(),
    ensures
        yes == starts_with_sort(sql@.skip(start as int)),
{
    if sql.len() - start < 4 {
        return false;
    }
    (sql[start] == 's' || sql[start] == 'S') && (sql[start + 1] == 'o' || sql[start + 1] == 'O') && (
    sql[start + 2] == 'r' || sql[start + 2] == 'R') && (sql[start + 3] == 't' || sql[start + 3]
        == 'T') && (sql.len() - start == 4 || !word_character(sql[start + 4]))
}

/// The text that the parser gets.
pub fn normalize_postgres_parser_input(sql: &str) -> (result: String)
    ensures
        result@ == normalized(sql@, false),
{
    let source = characters(sql);
    let mut output = String::new();
    let mut index: usize = 0;
    let mut in_literal = false;
    proof {
        assert(source@.skip(0) =~= source@);
        assert(output@ + normalized(source@, false) =~= normalized(source@, false));
    }
    while index < source.len()
        invariant
            index <= source.len(),
            source@ == sql@,
            output@ + normalized(source@.skip(index as int), in_literal) == normalized(source@, false),
        decreases source.len() - index,
    {
        let ghost before = output@;
        let ghost rest = source@.skip(index as int);
        let character = source[index];
        assert(rest[0] == character);
        if character == '\'' {
            output.push('\'');
            index += 1;
            if in_literal && index < source.len() && source[index] == '\'' {
                output.push('\'');
                index += 1;
                proof {
                    assert(rest[1] == '\'');
                    assert(rest.skip(2) =~= source@.skip(index as int));
                    let tail = normalized(source@.skip(index as int), in_literal);
                    assert(output@ + tail =~= before + (seq!['\'', '\''] + tail));
                }
            } else {
                proof {
                    assert(rest.len() > 1 ==> rest[1] == source@[index as int]);
                    assert(rest.skip(1) =~= source@.skip(index as int));
                    let tail = normalized(source@.skip(index as int), !in_literal);
                    assert(output@ + tail =~= before + (seq!['\''] + tail));
                }
                in_literal = !in_literal;
            }
        } else if !in_literal && character == ')' {
            let start = index;
            output.push(')');
            index += 1;
            proof {
                assert(source@.skip(index as int) =~= rest.skip(1));
                assert(output@ =~= before + source@.subrange(start as int, index as int));
            }
            while index < source.len() && blank(source[index])
                invariant
                    start < index <= source.len(),
                    output@ == before + source@.subrange(start as int, index as int),
                    1 + blanks(rest.skip(1)) == index - start + blanks(source@.skip(index as int)),
                    rest == source@.skip(start as int),
                decreases source.len() - index,
            {
                output.push(source[index]);
                proof {
                    assert(source@.skip(index as int)[0] == source@[index as int]);
                    assert(source@.skip(index as int).skip(1) =~= source@.skip(index + 1));
                    assert(before + source@.subrange(start as int, index + 1) =~= (before
                        + source@.subrange(start as int, index as int)).push(source@[index as int]));
                }
                index += 1;
            }
            proof {
                if index < source.len() {
                    assert(source@.skip(index as int)[0] == source@[index as int]);
                }
                assert(blanks(source@.skip(index as int)) == 0);
                assert(rest.take(index - start) =~= source@.subrange(start as int, index as int));
                assert(rest.skip(index - start) =~= source@.skip(index as int));
            }
            if sort_at(&source, index) {
                output.append("AS \"sort\"");
                index += 4;
                proof {
                    assert(source@.skip(index - 4).skip(4) =~= source@.skip(index as int));
                    let tail = normalized(source@.skip(index as int), in_literal);
                    assert(output@ + tail =~= before + (rest.take(index - 4 - start) + "AS \"sort\""@
                        + tail));
                }
            } else {
                proof {
                    let tail = normalized(source@.skip(index as int), in_literal);
                    assert(output@ + tail =~= before + (rest.take(index - start) + tail));
                }
            }
        } else {
            output.push(character);
            index += 1;
            proof {
                assert(rest.skip(1) =~= source@.skip(index as int));
                let tail = normalized(source@.skip(index as int), in_literal);
                assert(output@ + tail =~= before + (seq![character] + tail));
            }
        }
    }
    proof {
        assert(source@.skip(index as int) =~= Seq::empty());
        assert(output@ + Seq::<char>::empty() =~= output@);
    }
    output
}

/// The statements of a text.
pub open spec fn statements_of(sql: Seq<char>) -> Result<Seq<TreeView>, ErrorView> {
    match parsed_statements(normalized(sql, false)) {
        Ok(statements) => Ok(statements),
        Err(message) => Err(ErrorView::Parse(message)),
    }
}

/// Parses the statements of a text.
pub fn parse(sql: &str) -> (result: Result<Vec<Tree>, Error>)
    ensures
        statements_of(sql@) == (match result {
            Ok(statements) => Ok(tree::trees_view(statements@)),
            Err(error) => Err(error@),
        }),
{
    let sql = normalize_postgres_parser_input(sql);
    match parse_statements(sql.as_str()) {
        Ok(statements) => Ok(statements),
        Err(message) => Err(Error::Parse(message)),
    }
}

/// Text without a closing parenthesis reaches the parser as it is.
pub proof fn plain_text_reaches_the_parser(sql: Seq<char>, in_literal: bool)
    requires
        !sql.contains(')'),
    ensures
        normalized(sql, in_literal) == sql,
    decreases sql.len(),
{
    if sql.len() > 0 {
        assert(sql.contains(sql[0]));
        if sql[0] == '\'' && in_literal && sql.len() > 1 && sql[1] == '\'' {
            let rest = sql.skip(2);
            assert forall|i: int| 0 <= i < rest.len() implies rest[i] != ')' by {
                assert(sql.contains(sql[i + 2]));
            }
            plain_text_reaches_the_parser(rest, in_literal);
            assert(seq!['\'', '\''] + rest =~= sql);
        } else {
            let rest = sql.skip(1);
            assert forall|i: int| 0 <= i < rest.len() implies rest[i] != ')' by {
                assert(sql.contains(sql[i + 1]));
            }
            plain_text_reaches_the_parser(
                rest,
                if sql[0] == '\'' {
                    !in_literal
                } else {
                    in_literal
                },
            );
            assert(seq![sql[0]] + rest =~= sql);
        }
    } else {
        assert(normalized(sql, in_literal) =~= sql);
    }
}

/// What stands in a string literal reaches the parser as it is: a literal without
/// a quote in it stays, whatever it holds.
pub proof fn literals_reach_the_parser(literal: Seq<char>, rest: Seq<char>)
    requires
        !literal.contains('\''),
    ensures
        normalized(literal + rest, true) == literal + normalized(rest, true),
    decreases literal.len(),
{
    let whole = literal + rest;
    if literal.len() == 0 {
        assert(whole =~= rest);
        assert(literal + normalized(rest, true) =~= normalized(rest, true));
    } else {
        assert(literal.contains(literal[0]));
        let shorter = literal.skip(1);
        assert forall|i: int| 0 <= i < shorter.len() implies shorter[i] != '\'' by {
            assert(literal.contains(literal[i + 1]));
        }
        literals_reach_the_parser(shorter, rest);
        assert(whole.skip(1) =~= shorter + rest);
        assert(whole[0] == literal[0]);
        assert(seq![literal[0]] + (shorter + normalized(rest, true)) =~= literal + normalized(
            rest,
            true,
        ));
    }
}

} // verus!
