//! Identifiers, literals, data types and patterns.

use vstd::prelude::*;

use crate::sql::catalog;
use crate::sql::lir::{RawScalar, RawScalarView, ScalarType};
use crate::sql::syntax;
use crate::sql::tree;
use crate::sql::tree::{Tree, TreeView};
use crate::sql::types;
use crate::sql::types::{Error, ErrorView, Parameter, ParameterView};
use crate::text;
use crate::text::{
    characters, count_text, join, join3, join5, parse_count, parse_integer, quoted, read_float,
    same_text, to_lower,
};

verus! {

/// The first item of a list; null where there is none.
pub open spec fn first(tree: TreeView) -> TreeView {
    if tree::list(tree).len() > 0 {
        tree::list(tree)[0]
    } else {
        TreeView::Null
    }
}

fn first_item(value: &Tree) -> (item: &Tree)
    ensures
        item@ == first(value@),
{
    if value.count() > 0 {
        value.item(0)
    } else {
        &Tree::Null
    }
}

/// The name that an identifier stands for: as written where it is quoted,
/// otherwise in small letters.
pub open spec fn ident_name(ident: TreeView) -> Seq<char> {
    let value = tree::word(tree::at(ident, "value"@));
    if tree::at(ident, "quote_style"@) is Null {
        text::lower(value)
    } else {
        value
    }
}

/// The name that an identifier stands for.
pub fn identifier(ident: &Tree) -> (name: String)
    ensures
        name@ == ident_name(ident@),
{
    let value = ident.at("value").word();
    if ident.at("quote_style").absent() {
        to_lower(value)
    } else {
        value.to_owned()
    }
}

/// The name that an optionally `public`-qualified object name stands for.
pub open spec fn object_text(name: TreeView) -> Result<Seq<char>, ErrorView> {
    let parts = tree::list(name);
    if parts.len() == 0 {
        Err(ErrorView::Invalid("empty object name"@))
    } else if parts.len() > 2 {
        Err(
            ErrorView::Unsupported(
                "catalog-qualified name "@ + syntax::shown_object_name(name) + " is not supported"@,
            ),
        )
    } else {
        let schema = if tree::is(parts[0], "Identifier"@) {
            ident_name(tree::at(parts[0], "Identifier"@))
        } else {
            Seq::empty()
        };
        if parts.len() == 2 && schema != "public"@ {
            Err(
                ErrorView::Unsupported(
                    "schema "@ + text::quoted_text(schema) + " is not supported"@,
                ),
            )
        } else if tree::is(parts.last(), "Identifier"@) {
            Ok(ident_name(tree::at(parts.last(), "Identifier"@)))
        } else {
            Err(
                ErrorView::Unsupported(
                    "object name "@ + syntax::shown_object_name(name) + " is not an identifier"@,
                ),
            )
        }
    }
}

/// The view of a fallible result.
pub open spec fn text_result(result: Result<String, Error>) -> Result<Seq<char>, ErrorView> {
    match result {
        Ok(value) => Ok(value@),
        Err(error) => Err(error@),
    }
}

/// The name that an object name stands for.
pub fn object_name(name: &Tree) -> (result: Result<String, Error>)
    ensures
        text_result(result) == object_text(name@),
{
    let count = name.count();
    if count == 0 {
        return Err(Error::Invalid("empty object name".to_owned()));
    }
    if count > 2 {
        let shown = syntax::show_object_name(name);
        return Err(
            Error::Unsupported(
                join3("catalog-qualified name ", shown.as_str(), " is not supported"),
            ),
        );
    }
    if count == 2 {
        let part = name.item(0);
        let schema = if part.is("Identifier") {
            identifier(part.at("Identifier"))
        } else {
            String::new()
        };
        if !same_text(schema.as_str(), "public") {
            let shown = quoted(schema.as_str());
            return Err(
                Error::Unsupported(join3("schema ", shown.as_str(), " is not supported")),
            );
        }
    }
    let last = name.item(count - 1);
    if last.is("Identifier") {
        Ok(identifier(last.at("Identifier")))
    } else {
        let shown = syntax::show_object_name(name);
        Err(Error::Unsupported(join3("object name ", shown.as_str(), " is not an identifier")))
    }
}

/// The name of a scalar type in messages.
pub open spec fn type_label(scalar_type: ScalarType) -> Seq<char> {
    match scalar_type {
        ScalarType::Text => "Text"@,
        ScalarType::Int64 => "Int64"@,
        ScalarType::Float64 => "Float64"@,
        ScalarType::Bool => "Bool"@,
    }
}

/// The name of a scalar type in messages.
pub fn type_text(scalar_type: ScalarType) -> (name: &'static str)
    ensures
        name@ == type_label(scalar_type),
{
    match scalar_type {
        ScalarType::Text => "Text",
        ScalarType::Int64 => "Int64",
        ScalarType::Float64 => "Float64",
        ScalarType::Bool => "Bool",
    }
}

/// Whether a literal is a quoted string that carries its text directly.
pub open spec fn is_plain_string(value: TreeView) -> bool {
    ||| tree::is(value, "SingleQuotedString"@)
    ||| tree::is(value, "DoubleQuotedString"@)
    ||| tree::is(value, "TripleSingleQuotedString"@)
    ||| tree::is(value, "TripleDoubleQuotedString"@)
    ||| tree::is(value, "SingleQuotedByteStringLiteral"@)
    ||| tree::is(value, "DoubleQuotedByteStringLiteral"@)
    ||| tree::is(value, "TripleSingleQuotedByteStringLiteral"@)
    ||| tree::is(value, "TripleDoubleQuotedByteStringLiteral"@)
    ||| tree::is(value, "SingleQuotedRawStringLiteral"@)
    ||| tree::is(value, "DoubleQuotedRawStringLiteral"@)
    ||| tree::is(value, "TripleSingleQuotedRawStringLiteral"@)
    ||| tree::is(value, "TripleDoubleQuotedRawStringLiteral"@)
    ||| tree::is(value, "EscapedStringLiteral"@)
    ||| tree::is(value, "UnicodeStringLiteral"@)
    ||| tree::is(value, "NationalStringLiteral"@)
    ||| tree::is(value, "HexStringLiteral"@)
}

/// Whether a literal is a quoted string with its delimiter beside its text.
pub open spec fn is_delimited_string(value: TreeView) -> bool {
    ||| tree::is(value, "DollarQuotedString"@)
    ||| tree::is(value, "QuoteDelimitedStringLiteral"@)
    ||| tree::is(value, "NationalQuoteDelimitedStringLiteral"@)
}

/// What a literal carries under the name of its variant.
pub open spec fn payload(value: TreeView) -> TreeView {
    match value {
        TreeView::Record(fields) => if fields.len() > 0 {
            fields[0].value
        } else {
            TreeView::Null
        },
        _ => TreeView::Null,
    }
}

/// The text of a string literal, whatever its quoting; none for other literals.
pub open spec fn string_text(value: TreeView) -> Option<Seq<char>> {
    if is_plain_string(value) {
        Some(tree::word(payload(value)))
    } else if is_delimited_string(value) {
        Some(tree::word(tree::at(payload(value), "value"@)))
    } else {
        None
    }
}

fn carried(value: &Tree) -> (result: &Tree)
    ensures
        result@ == payload(value@),
{
    match value {
        Tree::Record(fields) => {
            if fields.len() > 0 {
                &fields[0].value
            } else {
                &Tree::Null
            }
        },
        _ => &Tree::Null,
    }
}

/// The text of a string literal, whatever its quoting.
pub fn string_literal(value: &Tree) -> (result: Option<&str>)
    ensures
        string_text(value@) == (match result {
            Some(literal) => Some(literal@),
            None => None,
        }),
{
    if value.is("SingleQuotedString") || value.is("DoubleQuotedString") || value.is(
        "TripleSingleQuotedString",
    ) || value.is("TripleDoubleQuotedString") || value.is("SingleQuotedByteStringLiteral")
        || value.is("DoubleQuotedByteStringLiteral") || value.is(
        "TripleSingleQuotedByteStringLiteral",
    ) || value.is("TripleDoubleQuotedByteStringLiteral") || value.is("SingleQuotedRawStringLiteral")
        || value.is("DoubleQuotedRawStringLiteral") || value.is("TripleSingleQuotedRawStringLiteral")
        || value.is("TripleDoubleQuotedRawStringLiteral") || value.is("EscapedStringLiteral")
        || value.is("UnicodeStringLiteral") || value.is("NationalStringLiteral") || value.is(
        "HexStringLiteral",
    ) {
        Some(carried(value).word())
    } else if value.is("DollarQuotedString") || value.is("QuoteDelimitedStringLiteral") || value.is(
        "NationalQuoteDelimitedStringLiteral",
    ) {
        Some(carried(value).at("value").word())
    } else {
        None
    }
}

/// The digits of a number literal.
pub open spec fn number_text(value: TreeView) -> Seq<char> {
    tree::word(first(tree::at(value, "Number"@)))
}

/// The digits of a number literal.
pub fn number_literal(value: &Tree) -> (digits: &str)
    ensures
        digits@ == number_text(value@),
{
    first_item(value.at("Number")).word()
}

/// Whether a number is written as a fraction or with an exponent.
pub open spec fn is_fractional(digits: Seq<char>) -> bool {
    exists|i: int|
        0 <= i < digits.len() && (#[trigger] digits[i] == '.' || digits[i] == 'e' || digits[i]
            == 'E')
}

fn fractional(digits: &str) -> (yes: bool)
    ensures
        yes == is_fractional(digits@),
{
    let all = characters(digits);
    let mut i: usize = 0;
    while i < all.len()
        invariant
            i <= all.len(),
            all@ == digits@,
            forall|k: int|
                0 <= k < i ==> #[trigger] digits@[k] != '.' && digits@[k] != 'e' && digits@[k] != 'E',
        decreases all.len() - i,
    {
        if all[i] == '.' || all[i] == 'e' || all[i] == 'E' {
            assert(digits@[i as int] == all@[i as int]);
            return true;
        }
        i += 1;
    }
    false
}

/// The type of a literal: the one expected, or the one that it shows itself.
pub open spec fn literal_kind(value: TreeView, expected: Option<ScalarType>) -> Result<
    ScalarType,
    ErrorView,
> {
    if tree::is(value, "Number"@) {
        match expected {
            Some(expected) => Ok(expected),
            None => Ok(
                if is_fractional(number_text(value)) {
                    ScalarType::Float64
                } else {
                    ScalarType::Int64
                },
            ),
        }
    } else if tree::is(value, "Boolean"@) {
        match expected {
            Some(expected) => Ok(expected),
            None => Ok(ScalarType::Bool),
        }
    } else if tree::is(value, "Null"@) || tree::is(value, "Placeholder"@) {
        match expected {
            Some(expected) => Ok(expected),
            None => Err(
                ErrorView::Invalid("cannot infer the type of "@ + syntax::shown_value(value)),
            ),
        }
    } else if string_text(value) is Some {
        match expected {
            Some(expected) => Ok(expected),
            None => Ok(ScalarType::Text),
        }
    } else {
        Err(
            ErrorView::Unsupported(
                "literal "@ + syntax::shown_value(value) + " is not supported"@,
            ),
        )
    }
}

/// The view of a fallible type.
pub open spec fn type_result(result: Result<ScalarType, Error>) -> Result<ScalarType, ErrorView> {
    match result {
        Ok(value) => Ok(value),
        Err(error) => Err(error@),
    }
}

/// The type of a literal.
pub fn literal_type(value: &Tree, expected: Option<ScalarType>) -> (result: Result<
    ScalarType,
    Error,
>)
    ensures
        type_result(result) == literal_kind(value@, expected),
{
    if value.is("Number") {
        match expected {
            Some(expected) => Ok(expected),
            None => {
                if fractional(number_literal(value)) {
                    Ok(ScalarType::Float64)
                } else {
                    Ok(ScalarType::Int64)
                }
            },
        }
    } else if value.is("Boolean") {
        match expected {
            Some(expected) => Ok(expected),
            None => Ok(ScalarType::Bool),
        }
    } else if value.is("Null") || value.is("Placeholder") {
        match expected {
            Some(expected) => Ok(expected),
            None => {
                let shown = syntax::show_value(value);
                Err(Error::Invalid(join("cannot infer the type of ", shown.as_str())))
            },
        }
    } else if string_literal(value).is_some() {
        match expected {
            Some(expected) => Ok(expected),
            None => Ok(ScalarType::Text),
        }
    } else {
        let shown = syntax::show_value(value);
        Err(Error::Unsupported(join3("literal ", shown.as_str(), " is not supported")))
    }
}

/// The position of a parameter, counted from zero: `$1` is the first.
pub open spec fn placeholder_position(name: Seq<char>) -> Option<nat> {
    if name.len() > 0 && name[0] == '$' {
        match text::unsigned_value(name.skip(1), usize::MAX as nat) {
            Some(number) => if number >= 1 {
                Some((number - 1) as nat)
            } else {
                None
            },
            None => None,
        }
    } else {
        None
    }
}

/// The position of a parameter, counted from zero.
pub fn placeholder_index(name: &str) -> (result: Result<usize, Error>)
    ensures
        match result {
            Ok(index) => placeholder_position(name@) == Some(index as nat) && index < usize::MAX,
            Err(error) => placeholder_position(name@) is None && error@ == ErrorView::Invalid(
                "invalid PostgreSQL parameter "@ + text::quoted_text(name@),
            ),
        },
{
    let length = name.unicode_len();
    if length > 0 && name.get_char(0) == '$' {
        let digits = name.substring_char(1, length);
        assert(digits@ =~= name@.skip(1));
        match parse_count(digits) {
            Some(number) => {
                if number >= 1 {
                    return Ok(number - 1);
                }
            },
            None => {},
        }
    }
    let shown = quoted(name);
    Err(Error::Invalid(join("invalid PostgreSQL parameter ", shown.as_str())))
}

/// A boolean word.
pub open spec fn bool_word(word: Seq<char>) -> Option<bool> {
    let word = text::lower(word);
    if word == "true"@ || word == "t"@ || word == "1"@ {
        Some(true)
    } else if word == "false"@ || word == "f"@ || word == "0"@ {
        Some(false)
    } else {
        None
    }
}

fn read_bool(word: &str) -> (value: Option<bool>)
    ensures
        value == bool_word(word@),
{
    let word = to_lower(word);
    let word = word.as_str();
    if same_text(word, "true") || same_text(word, "t") || same_text(word, "1") {
        Some(true)
    } else if same_text(word, "false") || same_text(word, "f") || same_text(word, "0") {
        Some(false)
    } else {
        None
    }
}

/// The parameter types known so far, grown so that a position is among them.
pub open spec fn grown(inferred: Seq<Option<ScalarType>>, index: nat) -> Seq<Option<ScalarType>> {
    if inferred.len() <= index {
        inferred + Seq::new((index + 1 - inferred.len()) as nat, |i: int| None)
    } else {
        inferred
    }
}

/// The hint for a parameter position.
pub open spec fn hint_at(hints: Seq<Option<ScalarType>>, index: nat) -> Option<ScalarType> {
    if index < hints.len() {
        hints[index as int]
    } else {
        None
    }
}

/// What a parameter is bound to; null where nothing is bound.
pub open spec fn bound_value(parameters: Option<Seq<ParameterView>>, index: nat) -> RawScalarView {
    match parameters {
        Some(parameters) => if index < parameters.len() {
            parameters[index as int].value
        } else {
            RawScalarView::Null
        },
        None => RawScalarView::Null,
    }
}

/// A literal as a scalar of the expected type, with the parameter types after
/// it: a placeholder takes the expected type, and must not have another one.
pub open spec fn raw_scalar(
    value: TreeView,
    expected: ScalarType,
    inferred: Seq<Option<ScalarType>>,
    hints: Seq<Option<ScalarType>>,
    parameters: Option<Seq<ParameterView>>,
) -> Result<(RawScalarView, Seq<Option<ScalarType>>), ErrorView> {
    if tree::is(value, "Placeholder"@) {
        let name = tree::word(tree::at(value, "Placeholder"@));
        match placeholder_position(name) {
            None => Err(
                ErrorView::Invalid("invalid PostgreSQL parameter "@ + text::quoted_text(name)),
            ),
            Some(index) => {
                let known = grown(inferred, index);
                let hint = hint_at(hints, index);
                let shown = "parameter $"@ + text::decimal(index + 1);
                if hint is Some && hint != Some(expected) {
                    Err(
                        ErrorView::Invalid(
                            shown + " is hinted as "@ + type_label(hint->0) + ", expected "@
                                + type_label(expected),
                        ),
                    )
                } else if known[index as int] is Some && known[index as int] != Some(expected) {
                    Err(
                        ErrorView::Invalid(
                            shown + " is used as both "@ + type_label(known[index as int]->0)
                                + " and "@ + type_label(expected),
                        ),
                    )
                } else {
                    Ok(
                        (
                            bound_value(parameters, index),
                            known.update(index as int, Some(expected)),
                        ),
                    )
                }
            },
        }
    } else if tree::is(value, "Number"@) {
        Ok((RawScalarView::Number(number_text(value)), inferred))
    } else if tree::is(value, "Boolean"@) {
        Ok((RawScalarView::Bool(tree::flag(tree::at(value, "Boolean"@))), inferred))
    } else if tree::is(value, "Null"@) {
        Ok((RawScalarView::Null, inferred))
    } else {
        match string_text(value) {
            None => Err(
                ErrorView::Unsupported(
                    "literal "@ + syntax::shown_value(value) + " is not supported"@,
                ),
            ),
            Some(literal) => match typed_text(literal, expected) {
                Ok(raw) => Ok((raw, inferred)),
                Err(error) => Err(error),
            },
        }
    }
}

/// A quoted text as a scalar of the expected type.
pub open spec fn typed_text(literal: Seq<char>, expected: ScalarType) -> Result<
    RawScalarView,
    ErrorView,
> {
    match expected {
        ScalarType::Text => Ok(RawScalarView::Text(literal)),
        ScalarType::Int64 => if text::signed_value(literal) is Some {
            Ok(RawScalarView::Number(literal))
        } else {
            Err(ErrorView::Invalid("invalid int64 literal "@ + text::quoted_text(literal)))
        },
        ScalarType::Float64 => if text::float_reading(literal) == Some(true) {
            Ok(RawScalarView::Number(literal))
        } else {
            Err(ErrorView::Invalid("invalid float64 literal "@ + text::quoted_text(literal)))
        },
        ScalarType::Bool => match bool_word(literal) {
            Some(value) => Ok(RawScalarView::Bool(value)),
            None => Err(
                ErrorView::Invalid("invalid boolean literal "@ + text::quoted_text(literal)),
            ),
        },
    }
}

/// The view of a fallible scalar.
pub open spec fn scalar_result(result: Result<RawScalar, Error>) -> Result<
    RawScalarView,
    ErrorView,
> {
    match result {
        Ok(value) => Ok(value@),
        Err(error) => Err(error@),
    }
}

fn text_scalar(literal: &str, expected: ScalarType) -> (result: Result<RawScalar, Error>)
    ensures
        scalar_result(result) == typed_text(literal@, expected),
{
    match expected {
        ScalarType::Text => Ok(RawScalar::Text(literal.to_owned())),
        ScalarType::Int64 => {
            if parse_integer(literal).is_some() {
                Ok(RawScalar::Number(literal.to_owned()))
            } else {
                let shown = quoted(literal);
                Err(Error::Invalid(join("invalid int64 literal ", shown.as_str())))
            }
        },
        ScalarType::Float64 => {
            let finite = match read_float(literal) {
                Some(finite) => finite,
                None => false,
            };
            if finite {
                Ok(RawScalar::Number(literal.to_owned()))
            } else {
                let shown = quoted(literal);
                Err(Error::Invalid(join("invalid float64 literal ", shown.as_str())))
            }
        },
        ScalarType::Bool => match read_bool(literal) {
            Some(value) => Ok(RawScalar::Bool(value)),
            None => {
                let shown = quoted(literal);
                Err(Error::Invalid(join("invalid boolean literal ", shown.as_str())))
            },
        },
    }
}

/// The values of bound parameters.
pub open spec fn bound_view(parameters: Option<&[Parameter]>) -> Option<Seq<ParameterView>> {
    match parameters {
        Some(parameters) => Some(types::parameters_view(parameters@)),
        None => None,
    }
}

/// A literal as a scalar of the expected type. A placeholder takes the
/// expected type, and must not have another one.
pub fn raw_sql_value(
    value: &Tree,
    expected: ScalarType,
    inferred: &mut Vec<Option<ScalarType>>,
    hints: &[Option<ScalarType>],
    parameters: Option<&[Parameter]>,
) -> (result: Result<RawScalar, Error>)
    ensures
        match (
            result,
            raw_scalar(value@, expected, old(inferred)@, hints@, bound_view(parameters)),
        ) {
            (Ok(raw), Ok((expected_raw, after))) => raw@ == expected_raw && final(inferred)@
                == after,
            (Err(error), Err(expected_error)) => error@ == expected_error,
            _ => false,
        },
{
    if value.is("Placeholder") {
        let name = value.at("Placeholder").word();
        let index = match placeholder_index(name) {
            Ok(index) => index,
            Err(error) => {
                return Err(error);
            },
        };
        if inferred.len() <= index {
            inferred.resize(index + 1, None);
        }
        proof {
            assert(inferred@ =~= grown(old(inferred)@, index as nat));
        }
        let hint = if index < hints.len() {
            hints[index]
        } else {
            None
        };
        if let Some(hinted) = hint {
            if hinted != expected {
                let number = count_text(index + 1);
                let shown = join("parameter $", number.as_str());
                return Err(
                    Error::Invalid(
                        join5(
                            shown.as_str(),
                            " is hinted as ",
                            type_text(hinted),
                            ", expected ",
                            type_text(expected),
                        ),
                    ),
                );
            }
        }
        if let Some(previous) = inferred[index] {
            if previous != expected {
                let number = count_text(index + 1);
                let shown = join("parameter $", number.as_str());
                return Err(
                    Error::Invalid(
                        join5(
                            shown.as_str(),
                            " is used as both ",
                            type_text(previous),
                            " and ",
                            type_text(expected),
                        ),
                    ),
                );
            }
        }
        inferred.set(index, Some(expected));
        match parameters {
            Some(parameters) => {
                if index < parameters.len() {
                    Ok(parameters[index].value.clone())
                } else {
                    Ok(RawScalar::Null)
                }
            },
            None => Ok(RawScalar::Null),
        }
    } else if value.is("Number") {
        Ok(RawScalar::Number(number_literal(value).to_owned()))
    } else if value.is("Boolean") {
        Ok(RawScalar::Bool(value.at("Boolean").flag()))
    } else if value.is("Null") {
        Ok(RawScalar::Null)
    } else {
        match string_literal(value) {
            None => {
                let shown = syntax::show_value(value);
                Err(Error::Unsupported(join3("literal ", shown.as_str(), " is not supported")))
            },
            Some(literal) => text_scalar(literal, expected),
        }
    }
}

} // verus!
