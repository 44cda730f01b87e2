//! Column types, column defaults and indexed columns.

use vstd::prelude::*;

use crate::sql::catalog;
use crate::sql::catalog::{DefaultFunction, DefaultValue, DefaultValueView};
use crate::sql::lir::{RawScalar, RawScalarView, ScalarType};
use crate::sql::literals;
use crate::sql::literals::{identifier, number_literal, object_name, raw_sql_value};
use crate::sql::syntax;
use crate::sql::tree;
use crate::sql::tree::{Tree, TreeView};
use crate::sql::types::{Error, ErrorView};
use crate::text;
use crate::text::{characters, join, join3, parse_integer, quoted, read_float, same_text, to_lower};

verus! {

/// Whether a text stands in another at a position.
pub open spec fn stands_at(whole: Seq<char>, part: Seq<char>, i: int) -> bool {
    0 <= i && i + part.len() <= whole.len() && whole.subrange(i, i + part.len()) == part
}

/// Whether a text starts with another.
pub open spec fn starts_with(whole: Seq<char>, part: Seq<char>) -> bool {
    stands_at(whole, part, 0)
}

/// Whether a text holds another.
pub open spec fn holds(whole: Seq<char>, part: Seq<char>) -> bool {
    exists|i: int| stands_at(whole, part, i)
}

fn part_at(whole: &str, part: &str, i: usize) -> (yes: bool)
    ensures
        yes == stands_at(whole@, part@, i as int),
{
    let size = part.unicode_len();
    let length = whole.unicode_len();
    if size > length || i > length - size {
        return false;
    }
    same_text(whole.substring_char(i, i + size), part)
}

fn has_part(whole: &str, part: &str) -> (yes: bool)
    ensures
        yes == holds(whole@, part@),
{
    let length = whole.unicode_len();
    let mut i: usize = 0;
    while i < length
        invariant
            i <= length,
            length == whole@.len(),
            forall|k: int| 0 <= k < i ==> !stands_at(whole@, part@, k),
        decreases length - i,
    {
        if part_at(whole, part, i) {
            return true;
        }
        i += 1;
    }
    let last = part_at(whole, part, length);
    proof {
        if !last {
            assert forall|k: int| !stands_at(whole@, part@, k) by {}
        }
    }
    last
}

/// The part of a type text before its first parenthesis, bracket or blank.
pub open spec fn base_word(value: Seq<char>) -> Seq<char>
    decreases value.len(),
{
    if value.len() == 0 || value[0] == '(' || value[0] == '[' || value[0] == ' ' {
        Seq::empty()
    } else {
        seq![value[0]] + base_word(value.skip(1))
    }
}

fn base_of(value: &str) -> (base: String)
    ensures
        base@ == base_word(value@),
{
    let all = characters(value);
    let mut base = String::new();
    let mut i: usize = 0;
    assert(all@.skip(0) =~= all@);
    assert(base@ + base_word(all@) =~= base_word(all@));
    while i < all.len() && all[i] != '(' && all[i] != '[' && all[i] != ' '
        invariant
            i <= all.len(),
            all@ == value@,
            base@ + base_word(all@.skip(i as int)) == base_word(all@),
        decreases all.len() - i,
    {
        let ghost before = base@;
        let ghost rest = all@.skip(i as int);
        base.push(all[i]);
        proof {
            assert(rest[0] == all@[i as int]);
            assert(rest.skip(1) =~= all@.skip(i + 1));
            assert(base@ + base_word(rest.skip(1)) =~= before + (seq![rest[0]] + base_word(rest.skip(1))));
        }
        i += 1;
    }
    proof {
        let rest = all@.skip(i as int);
        if i < all.len() {
            assert(rest[0] == all@[i as int]);
        }
        assert(base_word(rest) =~= Seq::empty());
        assert(base@ + Seq::<char>::empty() =~= base@);
    }
    base
}

/// The scalar type and wire format of a PostgreSQL type, by its text in small
/// letters; none where it is not supported.
pub open spec fn column_type(value: Seq<char>) -> Option<(ScalarType, Seq<char>)> {
    if starts_with(value, "timestamp"@) && holds(value, "with time zone"@) {
        Some((ScalarType::Int64, "timestamptz"@))
    } else {
        let base = base_word(value);
        if base == "text"@ {
            Some((ScalarType::Text, "text"@))
        } else if base == "varchar"@ || base == "character"@ || base == "char"@ || base == "name"@ {
            Some((ScalarType::Text, ""@))
        } else if base == "uuid"@ {
            Some((ScalarType::Text, "uuid"@))
        } else if base == "json"@ {
            Some((ScalarType::Text, "json"@))
        } else if base == "jsonb"@ {
            Some((ScalarType::Text, "jsonb"@))
        } else if base == "bytea"@ {
            Some((ScalarType::Text, "bytea"@))
        } else if base == "smallint"@ || base == "integer"@ || base == "int"@ || base == "int2"@ || base
            == "int4"@ || base == "int8"@ || base == "bigint"@ {
            Some((ScalarType::Int64, ""@))
        } else if base == "timestamp"@ {
            Some((ScalarType::Int64, "timestamp"@))
        } else if base == "timestamptz"@ {
            Some((ScalarType::Int64, "timestamptz"@))
        } else if base == "real"@ || base == "float"@ || base == "float4"@ || base == "float8"@ || base
            == "double"@ || base == "numeric"@ || base == "decimal"@ {
            Some((ScalarType::Float64, ""@))
        } else if base == "boolean"@ || base == "bool"@ {
            Some((ScalarType::Bool, ""@))
        } else {
            None
        }
    }
}

/// The scalar type and wire format of a data type.
pub open spec fn typed(data_type: TreeView) -> Result<(ScalarType, Seq<char>), ErrorView> {
    let shown = syntax::shown_data_type(data_type);
    match column_type(text::lower(shown)) {
        Some(found) => Ok(found),
        None => Err(ErrorView::Unsupported("PostgreSQL type "@ + shown + " is not supported"@)),
    }
}

/// The scalar type and wire format of a PostgreSQL type text in small letters.
pub fn column_type_of(value: &str) -> (found: Option<(ScalarType, &'static str)>)
    ensures
        column_type(value@) == (match found {
            Some(found) => Some((found.0, found.1@)),
            None => None,
        }),
{
    if part_at(value, "timestamp", 0) && has_part(value, "with time zone") {
        return Some((ScalarType::Int64, "timestamptz"));
    }
    let base = base_of(value);
    let base = base.as_str();
    if same_text(base, "text") {
        Some((ScalarType::Text, "text"))
    } else if same_text(base, "varchar") || same_text(base, "character") || same_text(base, "char")
        || same_text(base, "name") {
        Some((ScalarType::Text, ""))
    } else if same_text(base, "uuid") {
        Some((ScalarType::Text, "uuid"))
    } else if same_text(base, "json") {
        Some((ScalarType::Text, "json"))
    } else if same_text(base, "jsonb") {
        Some((ScalarType::Text, "jsonb"))
    } else if same_text(base, "bytea") {
        Some((ScalarType::Text, "bytea"))
    } else if same_text(base, "smallint") || same_text(base, "integer") || same_text(base, "int")
        || same_text(base, "int2") || same_text(base, "int4") || same_text(base, "int8")
        || same_text(base, "bigint") {
        Some((ScalarType::Int64, ""))
    } else if same_text(base, "timestamp") {
        Some((ScalarType::Int64, "timestamp"))
    } else if same_text(base, "timestamptz") {
        Some((ScalarType::Int64, "timestamptz"))
    } else if same_text(base, "real") || same_text(base, "float") || same_text(base, "float4")
        || same_text(base, "float8") || same_text(base, "double") || same_text(base, "numeric")
        || same_text(base, "decimal") {
        Some((ScalarType::Float64, ""))
    } else if same_text(base, "boolean") || same_text(base, "bool") {
        Some((ScalarType::Bool, ""))
    } else {
        None
    }
}

/// The scalar type and wire format of a data type.
pub fn scalar_type(data_type: &Tree) -> (result: Result<(ScalarType, String), Error>)
    ensures
        typed(data_type@) == (match result {
            Ok(found) => Ok((found.0, found.1@)),
            Err(error) => Err(error@),
        }),
{
    let shown = syntax::show_data_type(data_type);
    let value = to_lower(shown.as_str());
    match column_type_of(value.as_str()) {
        Some((scalar_type, format)) => Ok((scalar_type, format.to_owned())),
        None => Err(
            Error::Unsupported(join3("PostgreSQL type ", shown.as_str(), " is not supported")),
        ),
    }
}

/// A default without a value.
pub open spec fn empty_default() -> DefaultValueView {
    DefaultValueView {
        text: Seq::empty(),
        int64: 0,
        float64: Seq::empty(),
        bool_value: false,
        function: None,
    }
}

fn no_default() -> (value: DefaultValue)
    ensures
        value@ == empty_default(),
{
    DefaultValue {
        text: String::new(),
        int64: 0,
        float64: String::new(),
        bool_value: false,
        function: None,
    }
}

/// The default that a scalar stands for in a column; none for null.
pub open spec fn scalar_default(
    scalar_type: ScalarType,
    raw: RawScalarView,
    shown: Seq<char>,
) -> Result<Option<DefaultValueView>, ErrorView> {
    match (scalar_type, raw) {
        (ScalarType::Text, RawScalarView::Text(value)) => Ok(
            Some((DefaultValueView { text: value, ..empty_default() })),
        ),
        (ScalarType::Int64, RawScalarView::Number(value)) => match text::signed_value(value) {
            Some(number) => Ok(
                Some((DefaultValueView { int64: number as i64, ..empty_default() })),
            ),
            None => Err(
                ErrorView::Invalid("invalid integer default "@ + text::quoted_text(value)),
            ),
        },
        (ScalarType::Float64, RawScalarView::Number(value)) => if text::float_reading(
            value,
        ) is Some {
            Ok(Some((DefaultValueView { float64: value, ..empty_default() })))
        } else {
            Err(ErrorView::Invalid("invalid float default "@ + text::quoted_text(value)))
        },
        (ScalarType::Bool, RawScalarView::Bool(value)) => Ok(
            Some((DefaultValueView { bool_value: value, ..empty_default() })),
        ),
        (_, RawScalarView::Null) => Ok(None),
        _ => Err(ErrorView::Invalid("default "@ + shown + " has the wrong type"@)),
    }
}

/// The view of a fallible default.
pub open spec fn default_result(result: Result<Option<DefaultValue>, Error>) -> Result<
    Option<DefaultValueView>,
    ErrorView,
> {
    match result {
        Ok(value) => Ok(catalog::optional_default_value_view(value)),
        Err(error) => Err(error@),
    }
}

fn default_of_scalar(scalar_type: ScalarType, raw: RawScalar, shown: &str) -> (result: Result<
    Option<DefaultValue>,
    Error,
>)
    ensures
        default_result(result) == scalar_default(scalar_type, raw@, shown@),
{
    match (scalar_type, raw) {
        (ScalarType::Text, RawScalar::Text(value)) => Ok(
            Some(DefaultValue { text: value, ..no_default() }),
        ),
        (ScalarType::Int64, RawScalar::Number(value)) => match parse_integer(value.as_str()) {
            Some(number) => Ok(Some(DefaultValue { int64: number, ..no_default() })),
            None => {
                let name = quoted(value.as_str());
                Err(Error::Invalid(join("invalid integer default ", name.as_str())))
            },
        },
        (ScalarType::Float64, RawScalar::Number(value)) => {
            if read_float(value.as_str()).is_some() {
                Ok(Some(DefaultValue { float64: value, ..no_default() }))
            } else {
                let name = quoted(value.as_str());
                Err(Error::Invalid(join("invalid float default ", name.as_str())))
            }
        },
        (ScalarType::Bool, RawScalar::Bool(value)) => Ok(
            Some(DefaultValue { bool_value: value, ..no_default() }),
        ),
        (_, RawScalar::Null) => Ok(None),
        _ => Err(Error::Invalid(join3("default ", shown, " has the wrong type"))),
    }
}

/// A default that is computed at insert time.
pub open spec fn function_default(function: DefaultFunction) -> DefaultValueView {
    DefaultValueView { function: Some(function), ..empty_default() }
}

/// The function that a name computes a default with.
pub open spec fn default_function(name: Seq<char>) -> Option<DefaultFunction> {
    if name == "now"@ || name == "current_timestamp"@ {
        Some(DefaultFunction::NowMs)
    } else if name == "gen_random_uuid"@ || name == "uuid_generate_v4"@ {
        Some(DefaultFunction::Uuid)
    } else {
        None
    }
}

/// An expression without the cast or parentheses around it.
pub open spec fn inner_default(expression: TreeView) -> TreeView {
    if tree::is(expression, "Cast"@) {
        tree::at(tree::at(expression, "Cast"@), "expr"@)
    } else if tree::is(expression, "Nested"@) {
        tree::at(expression, "Nested"@)
    } else {
        expression
    }
}

/// An expression without the cast or parentheses around it.
pub fn inner_expression(expression: &Tree) -> (inner: &Tree)
    ensures
        inner@ == inner_default(expression@),
{
    if expression.is("Cast") {
        expression.at("Cast").at("expr")
    } else if expression.is("Nested") {
        expression.at("Nested")
    } else {
        expression
    }
}

/// The literal of an expression, where it is one.
pub open spec fn literal_of(expression: TreeView) -> TreeView {
    tree::at(tree::at(expression, "Value"@), "value"@)
}

/// The negated number that a default is, where it is one.
pub open spec fn negated_number(expression: TreeView) -> Option<Seq<char>> {
    let operation = tree::at(expression, "UnaryOp"@);
    let operand = tree::at(operation, "expr"@);
    if tree::is(expression, "UnaryOp"@) && tree::is(tree::at(operation, "op"@), "Minus"@)
        && tree::is(operand, "Value"@) && tree::is(literal_of(operand), "Number"@) {
        Some("-"@ + literals::number_text(literal_of(operand)))
    } else {
        None
    }
}

/// The default that an expression stands for in a column.
pub open spec fn default_for(expression: TreeView, scalar_type: ScalarType) -> Result<
    Option<DefaultValueView>,
    ErrorView,
> {
    let inner = inner_default(expression);
    let name = if tree::is(inner, "Function"@) {
        literals::object_text(tree::at(tree::at(inner, "Function"@), "name"@))
    } else {
        Ok(Seq::empty())
    };
    match name {
        Err(error) => Err(error),
        Ok(name) => if default_function(text::lower(name)) is Some {
            Ok(Some(function_default(default_function(text::lower(name))->0)))
        } else if text::lower(syntax::shown_expression(inner)) == "current_timestamp"@ {
            Ok(Some(function_default(DefaultFunction::NowMs)))
        } else if negated_number(inner) is Some {
            let number = negated_number(inner)->0;
            scalar_default(scalar_type, RawScalarView::Number(number), number)
        } else if tree::is(inner, "Value"@) {
            match literals::raw_scalar(
                literal_of(inner),
                scalar_type,
                Seq::empty(),
                Seq::empty(),
                None,
            ) {
                Ok((raw, _)) => scalar_default(scalar_type, raw, syntax::shown_expression(inner)),
                Err(error) => Err(error),
            }
        } else {
            Err(
                ErrorView::Unsupported(
                    "default "@ + syntax::shown_expression(inner) + " is not supported"@,
                ),
            )
        },
    }
}

fn computed_default(function: DefaultFunction) -> (value: DefaultValue)
    ensures
        value@ == function_default(function),
{
    DefaultValue { function: Some(function), ..no_default() }
}

/// The default that an expression stands for in a column.
pub fn default_value(expression: &Tree, scalar_type: ScalarType) -> (result: Result<
    Option<DefaultValue>,
    Error,
>)
    ensures
        default_result(result) == default_for(expression@, scalar_type),
{
    let inner = inner_expression(expression);
    if inner.is("Function") {
        let name = match object_name(inner.at("Function").at("name")) {
            Ok(name) => to_lower(name.as_str()),
            Err(error) => {
                return Err(error);
            },
        };
        let name = name.as_str();
        if same_text(name, "now") || same_text(name, "current_timestamp") {
            return Ok(Some(computed_default(DefaultFunction::NowMs)));
        }
        if same_text(name, "gen_random_uuid") || same_text(name, "uuid_generate_v4") {
            return Ok(Some(computed_default(DefaultFunction::Uuid)));
        }
    } else {
        proof {
            lemma_empty_name();
        }
    }
    let shown = syntax::show_expression(inner);
    let lowered = to_lower(shown.as_str());
    if same_text(lowered.as_str(), "current_timestamp") {
        return Ok(Some(computed_default(DefaultFunction::NowMs)));
    }
    if inner.is("UnaryOp") {
        let operation = inner.at("UnaryOp");
        let operand = operation.at("expr");
        if operation.at("op").is("Minus") && operand.is("Value") {
            let value = operand.at("Value").at("value");
            if value.is("Number") {
                let number = join("-", number_literal(value));
                return default_of_scalar(
                    scalar_type,
                    RawScalar::Number(number.clone()),
                    number.as_str(),
                );
            }
        }
    }
    if !inner.is("Value") {
        return Err(
            Error::Unsupported(join3("default ", shown.as_str(), " is not supported")),
        );
    }
    let mut inferred: Vec<Option<ScalarType>> = Vec::new();
    let none: Vec<Option<ScalarType>> = Vec::new();
    match raw_sql_value(
        inner.at("Value").at("value"),
        scalar_type,
        &mut inferred,
        none.as_slice(),
        None,
    ) {
        Ok(raw) => default_of_scalar(scalar_type, raw, shown.as_str()),
        Err(error) => Err(error),
    }
}

proof fn lemma_empty_name()
    ensures
        default_function(text::lower(Seq::empty())) is None,
{
    reveal_strlit("now");
    reveal_strlit("current_timestamp");
    reveal_strlit("gen_random_uuid");
    reveal_strlit("uuid_generate_v4");
    assert(text::lower(Seq::empty()).len() == 0);
}

/// The names of indexed columns, after those that are there.
pub open spec fn column_names(columns: Seq<TreeView>, names: Seq<Seq<char>>) -> Result<
    Seq<Seq<char>>,
    ErrorView,
>
    decreases columns.len(),
{
    if columns.len() == 0 {
        Ok(names)
    } else {
        let expression = tree::at(tree::at(columns[0], "column"@), "expr"@);
        if tree::is(expression, "Identifier"@) {
            column_names(
                columns.skip(1),
                names.push(literals::ident_name(tree::at(expression, "Identifier"@))),
            )
        } else {
            Err(
                ErrorView::Unsupported(
                    "index expression "@ + syntax::shown_expression(expression)
                        + " is not supported"@,
                ),
            )
        }
    }
}

/// The names of indexed columns; only plain columns can be indexed.
pub open spec fn indexed(columns: TreeView) -> Result<Seq<Seq<char>>, ErrorView> {
    column_names(tree::list(columns), Seq::empty())
}

/// The view of fallible names.
pub open spec fn names_result(result: Result<Vec<String>, Error>) -> Result<
    Seq<Seq<char>>,
    ErrorView,
> {
    match result {
        Ok(names) => Ok(text::texts(names@)),
        Err(error) => Err(error@),
    }
}

/// The names of indexed columns.
pub fn index_columns(columns: &Tree) -> (result: Result<Vec<String>, Error>)
    ensures
        names_result(result) == indexed(columns@),
{
    let mut names: Vec<String> = Vec::new();
    let count = columns.count();
    let ghost all = tree::list(columns@);
    let mut i: usize = 0;
    proof {
        assert(all.skip(0) =~= all);
        assert(text::texts(names@) =~= Seq::empty());
    }
    while i < count
        invariant
            i <= count,
            all == tree::list(columns@),
            count == all.len(),
            column_names(all.skip(i as int), text::texts(names@)) == indexed(columns@),
        decreases count - i,
    {
        let expression = columns.item(i).at("column").at("expr");
        proof {
            assert(all.skip(i as int)[0] == all[i as int]);
            assert(all.skip(i as int).skip(1) =~= all.skip(i + 1));
        }
        if !expression.is("Identifier") {
            let shown = syntax::show_expression(expression);
            return Err(
                Error::Unsupported(
                    join3("index expression ", shown.as_str(), " is not supported"),
                ),
            );
        }
        let ghost before = names@;
        let name = identifier(expression.at("Identifier"));
        names.push(name);
        assert(text::texts(names@) =~= text::texts(before).push(name@));
        i += 1;
    }
    Ok(names)
}

} // verus!
