//! What SQL expressions mean, and that they are lowered to what they mean.

use vstd::prelude::*;

use crate::sql::datatypes;
use crate::sql::env;
use crate::sql::env::ExpressionCompilerView;
use crate::sql::lir;
use crate::sql::lir::{
    BinaryOp, BranchArmView, ExprView, Kind, LiteralView, RawScalarView, RelationView, ScalarType,
    TextComparison, TextMatchPartView, UnaryOp,
};
use crate::sql::literals;
use crate::sql::lowering;
use crate::sql::lowering::{compiled, Arms, State, Surroundings};
use crate::sql::meaning::{
    both, branched, candidate, computed, constant, either, gives, is_true, known, operated, opposite, part_matches,
    parts_match, read, same_character, some_of, value_of, within, Row, Val, World,
};
use crate::sql::operators;
use crate::sql::tree;
use crate::sql::tree::TreeView;
use crate::sql::types::{CompiledExprView, LoweredQueryView, ResultColumnView, ScopeDefView};
use crate::text;

verus! {

broadcast use tree::group_tree_heights;

// ---- what operators mean ----

/// Whether a value is what a SQL operator makes of two values. Comparisons go by the
/// order of values, and are null where a value is.
pub open spec fn operator_means(
    world: World,
    operator: TreeView,
    left: Val,
    right: Val,
    result: Val,
) -> bool {
    ||| tree::is(operator, "Eq"@) && result == known(left, right, left == right)
    ||| tree::is(operator, "NotEq"@) && result == known(left, right, left != right)
    ||| tree::is(operator, "Lt"@) && result == known(left, right, (world.less)(left, right))
    ||| tree::is(operator, "LtEq"@) && result == known(left, right, !(world.less)(right, left))
    ||| tree::is(operator, "Gt"@) && result == known(left, right, (world.less)(right, left))
    ||| tree::is(operator, "GtEq"@) && result == known(left, right, !(world.less)(left, right))
    ||| tree::is(operator, "And"@) && result == both(left, right)
    ||| tree::is(operator, "Or"@) && result == either(left, right)
    ||| tree::is(operator, "Plus"@) && result == computed(left, right, (world.plus)(left, right))
    ||| tree::is(operator, "Minus"@) && result == computed(left, right, (world.minus)(left, right))
    ||| tree::is(operator, "Multiply"@) && result == computed(
        left,
        right,
        (world.times)(left, right),
    )
    ||| tree::is(operator, "Divide"@) && result == computed(left, right, (world.over)(left, right))
}

/// A SQL operator is lowered to one that computes the same: under every order of
/// values and every arithmetic, the lowered form of `a < b` is true exactly when `a`
/// is less than `b`, and so for the other operators.
pub proof fn operators_keep_their_meaning(
    world: World,
    row: Row,
    operator: TreeView,
    left: CompiledExprView,
    right: CompiledExprView,
)
    requires
        lowering::combined(operator, left, right) is Ok,
    ensures
        operator_means(
            world,
            operator,
            value_of(world, row, left.expr),
            value_of(world, row, right.expr),
            value_of(world, row, lowering::combined(operator, left, right)->Ok_0.expr),
        ),
{
}

/// A negation where it is asked for.
pub open spec fn negated(value: Val, negated: bool) -> Val {
    if negated {
        opposite(value)
    } else {
        value
    }
}

/// Whether a value is what a SQL sign or negation makes of another.
pub open spec fn sign_means(world: World, operator: TreeView, x: Val, v: Val) -> bool {
    ||| (tree::is(operator, "Not"@) || tree::is(operator, "BangNot"@)) && v == opposite(x)
    ||| tree::is(operator, "Minus"@) && v == (if x is Null {
        Val::Null
    } else {
        (world.negative)(x)
    })
    ||| tree::is(operator, "Plus"@) && v == x
}

/// Whether a value says that another is null, or that it is not.
pub open spec fn null_means(x: Val, null: bool, v: Val) -> bool {
    v == Val::Truth((x is Null) == null)
}

/// Whether a value says that another is known to be a truth value, or that it is not.
pub open spec fn truth_means(x: Val, truth: bool, is: bool, v: Val) -> bool {
    v == Val::Truth((x == Val::Truth(truth)) == is)
}

/// Whether a value is another, converted to a type.
pub open spec fn cast_means(world: World, data_type: TreeView, x: Val, v: Val) -> bool {
    datatypes::typed(data_type) matches Ok((to, _)) && v == (world.converted)(x, lir::kind_of(to))
}

/// Whether a value lies in a range that holds its ends.
pub open spec fn in_range(world: World, x: Val, low: Val, high: Val) -> Val {
    both(known(x, low, !(world.less)(x, low)), known(x, high, !(world.less)(high, x)))
}

/// The result of the first of some cases that applies, from a position on: one whose
/// condition is true, or equal to the operand where there is one.
pub open spec fn first_case(
    operand: Option<Val>,
    conditions: Seq<Val>,
    results: Seq<Val>,
    otherwise: Val,
    i: nat,
) -> Val
    decreases conditions.len() - i,
{
    if i >= conditions.len() {
        otherwise
    } else {
        let applies = match operand {
            Some(operand) => is_true(
                known(operand, conditions[i as int], operand == conditions[i as int]),
            ),
            None => is_true(conditions[i as int]),
        };
        if applies {
            results[i as int]
        } else {
            first_case(operand, conditions, results, otherwise, i + 1)
        }
    }
}

/// The first of some values that is not null, from a position on; the last where all
/// are.
pub open spec fn first_present(values: Seq<Val>, i: nat) -> Val
    decreases values.len() - i,
{
    if i + 1 >= values.len() {
        values.last()
    } else if !(values[i as int] is Null) {
        values[i as int]
    } else {
        first_present(values, i + 1)
    }
}

/// Whether a text is like a pattern: `%` stands for any characters, `_` for one, and
/// the escape character makes the next one stand for itself.
pub open spec fn is_like(
    world: World,
    comparison: TextComparison,
    pattern: Seq<char>,
    escape: Option<char>,
    text: Seq<char>,
) -> bool
    decreases pattern.len(),
{
    if pattern.len() == 0 {
        text.len() == 0
    } else if escape == Some(pattern[0]) {
        pattern.len() > 1 && text.len() > 0 && same_character(
            world,
            comparison,
            pattern[1],
            text[0],
        ) && is_like(world, comparison, pattern.skip(2), escape, text.skip(1))
    } else if pattern[0] == '%' {
        exists|k: int|
            0 <= k <= text.len() && is_like(
                world,
                comparison,
                pattern.skip(1),
                escape,
                #[trigger] text.skip(k),
            )
    } else if pattern[0] == '_' {
        text.len() > 0 && is_like(world, comparison, pattern.skip(1), escape, text.skip(1))
    } else {
        text.len() > 0 && same_character(world, comparison, pattern[0], text[0]) && is_like(
            world,
            comparison,
            pattern.skip(1),
            escape,
            text.skip(1),
        )
    }
}

/// Whether a type is what the first word of a type name says: texts of every kind,
/// whole numbers and points in time, numbers with a fraction, or truth values.
pub open spec fn type_means(word: Seq<char>, scalar_type: ScalarType) -> bool {
    ||| scalar_type == ScalarType::Text && (word == "text"@ || word == "varchar"@ || word
        == "character"@ || word == "char"@ || word == "name"@ || word == "uuid"@ || word
        == "json"@ || word == "jsonb"@ || word == "bytea"@)
    ||| scalar_type == ScalarType::Int64 && (word == "smallint"@ || word == "integer"@ || word
        == "int"@ || word == "int2"@ || word == "int4"@ || word == "int8"@ || word == "bigint"@
        || word == "timestamp"@ || word == "timestamptz"@)
    ||| scalar_type == ScalarType::Float64 && (word == "real"@ || word == "float"@ || word
        == "float4"@ || word == "float8"@ || word == "double"@ || word == "numeric"@ || word
        == "decimal"@)
    ||| scalar_type == ScalarType::Bool && (word == "boolean"@ || word == "bool"@)
}

/// A type name means the type of its first word; one with a time zone is a point in
/// time.
pub proof fn types_keep_their_meaning(name: Seq<char>)
    ensures
        datatypes::column_type(name) matches Some((scalar_type, _)) ==> type_means(
            datatypes::base_word(name),
            scalar_type,
        ) || (scalar_type == ScalarType::Int64 && datatypes::starts_with(name, "timestamp"@)
            && datatypes::holds(name, "with time zone"@)),
{
}

// ---- what names and constants mean ----

/// Whether a value is a column of a row that a name can mean: one of the output, or
/// one of a row source in reach, which a qualifier must name.
pub open spec fn name_means(
    compiler: ExpressionCompilerView,
    row: Row,
    qualifier: Option<Seq<char>>,
    name: Seq<char>,
    v: Val,
) -> bool {
    ||| compiler.output matches Some(output) && (qualifier matches Some(qualifier) ==> qualifier
        == output.scope) && column_means(output.columns, row, output.scope, name, v)
    ||| exists|level: int, i: int|
        #![trigger compiler.env.levels[level][i]]
        0 <= level < compiler.env.levels.len() && 0 <= i < compiler.env.levels[level].len() && {
            let source = compiler.env.levels[level][i];
            (qualifier matches Some(qualifier) ==> qualifier == source.alias) && column_means(
                source.columns,
                row,
                source.label,
                name,
                v,
            )
        }
}

/// Whether a value is that of a column with a name, in a scope of a row.
pub open spec fn column_means(
    columns: Seq<ResultColumnView>,
    row: Row,
    scope: Seq<char>,
    name: Seq<char>,
    v: Val,
) -> bool {
    exists|i: int|
        0 <= i < columns.len() && (#[trigger] columns[i]).name == name && v == read(
            row,
            scope,
            columns[i].row_field(),
        )
}

/// Whether a value is what a constant or parameter says. A quoted text can be read
/// as a number or a truth value.
pub open spec fn constant_means(
    around: Surroundings,
    world: World,
    value: TreeView,
    v: Val,
) -> bool {
    ||| tree::is(value, "Number"@) && exists|kind: Option<Kind>|
        v == #[trigger] (world.number)(literals::number_text(value), kind)
    ||| tree::is(value, "Boolean"@) && v == Val::Truth(tree::flag(tree::at(value, "Boolean"@)))
    ||| tree::is(value, "Null"@) && v is Null
    ||| tree::is(value, "Placeholder"@) && exists|kind: Option<Kind>|
        v == #[trigger] bound_to(
            around,
            world,
            tree::word(tree::at(value, "Placeholder"@)),
            kind,
        )
    ||| literals::string_text(value) matches Some(text) && {
        ||| v == Val::Text(text)
        ||| exists|kind: Option<Kind>| v == #[trigger] (world.number)(text, kind)
        ||| literals::bool_word(text) matches Some(truth) && v == Val::Truth(truth)
    }
}

/// What is bound to a parameter; null where nothing is.
pub open spec fn bound_to(
    around: Surroundings,
    world: World,
    name: Seq<char>,
    kind: Option<Kind>,
) -> Val {
    match literals::placeholder_position(name) {
        Some(index) => if around.parameters is Some && index < around.parameters->0.len() {
            constant(world, LiteralView { raw: around.parameters->0[index as int].value, kind })
        } else {
            Val::Null
        },
        None => Val::Null,
    }
}

// ---- what expressions mean ----

/// Whether an expression is what some syntax is lowered to, whatever was known of
/// types.
pub open spec fn stands_for(
    around: Surroundings,
    compiler: ExpressionCompilerView,
    e: TreeView,
    value: CompiledExprView,
) -> bool {
    exists|state: State, expected: Option<ScalarType>|
        (#[trigger] compiled(around, state, compiler, e, expected)) matches Ok((found, _)) && found
            == value
}

/// Whether a query is what some syntax is lowered to.
pub open spec fn query_stands_for(
    around: Surroundings,
    compiler: ExpressionCompilerView,
    query: TreeView,
    relation: LoweredQueryView,
) -> bool {
    exists|state: State|
        (#[trigger] lowering::lowered(around, state, query, compiler.env)) matches Ok((found, _))
            && found == relation
}

/// Whether a text is the pattern that some syntax gives.
pub open spec fn pattern_stands_for(
    around: Surroundings,
    pattern: TreeView,
    text: Seq<char>,
) -> bool {
    exists|state: State|
        (#[trigger] lowering::pattern_text(around, state, pattern)) matches Ok((found, _)) && found
            == text
}

/// Whether a value is one that a SQL expression can have over a row.
#[verifier::opaque]
pub open spec fn means(
    around: Surroundings,
    compiler: ExpressionCompilerView,
    world: World,
    row: Row,
    e: TreeView,
    v: Val,
) -> bool
    decreases tree::height(e),
{
    ||| env::substituted(compiler.substitutions, tree::bare(e)) matches Some(column)
        && compiler.output matches Some(output) && v == read(
        row,
        output.scope,
        column.row_field(),
    )
    ||| tree::is(e, "Identifier"@) && name_means(
        compiler,
        row,
        None,
        literals::ident_name(tree::at(e, "Identifier"@)),
        v,
    )
    ||| tree::is(e, "CompoundIdentifier"@) && {
        let parts = tree::list(tree::at(e, "CompoundIdentifier"@));
        parts.len() == 2 && name_means(
            compiler,
            row,
            Some(literals::ident_name(parts[0])),
            literals::ident_name(parts[1]),
            v,
        )
    }
    ||| tree::is(e, "Value"@) && constant_means(
        around,
        world,
        tree::at(tree::at(e, "Value"@), "value"@),
        v,
    )
    ||| tree::is(e, "Subquery"@) && exists|query: LoweredQueryView|
        #[trigger] query_stands_for(around, compiler, tree::at(e, "Subquery"@), query) && v == (
        world.only)(query.relation, row)
    ||| tree::is(e, "BinaryOp"@) && exists|left: Val, right: Val|
        means(
            around,
            compiler,
            world,
            row,
            tree::at(tree::at(e, "BinaryOp"@), "left"@),
            left,
        ) && means(
            around,
            compiler,
            world,
            row,
            tree::at(tree::at(e, "BinaryOp"@), "right"@),
            right,
        ) && #[trigger] operator_means(
            world,
            tree::at(tree::at(e, "BinaryOp"@), "op"@),
            left,
            right,
            v,
        )
    ||| tree::is(e, "UnaryOp"@) && exists|x: Val|
        means(
            around,
            compiler,
            world,
            row,
            tree::at(tree::at(e, "UnaryOp"@), "expr"@),
            x,
        ) && #[trigger] sign_means(world, tree::at(tree::at(e, "UnaryOp"@), "op"@), x, v)
    ||| tree::is(e, "IsNull"@) && exists|x: Val|
        means(around, compiler, world, row, tree::at(e, "IsNull"@), x) && #[trigger] null_means(x, true, v)
    ||| tree::is(e, "IsNotNull"@) && exists|x: Val|
        means(around, compiler, world, row, tree::at(e, "IsNotNull"@), x) && #[trigger] null_means(x, false, v)
    ||| tree::is(e, "IsTrue"@) && exists|x: Val|
        means(around, compiler, world, row, tree::at(e, "IsTrue"@), x) && #[trigger] truth_means(x, true, true, v)
    ||| tree::is(e, "IsNotTrue"@) && exists|x: Val|
        means(around, compiler, world, row, tree::at(e, "IsNotTrue"@), x) && #[trigger] truth_means(x, true, false, v)
    ||| tree::is(e, "IsFalse"@) && exists|x: Val|
        means(around, compiler, world, row, tree::at(e, "IsFalse"@), x) && #[trigger] truth_means(x, false, true, v)
    ||| tree::is(e, "IsNotFalse"@) && exists|x: Val|
        means(around, compiler, world, row, tree::at(e, "IsNotFalse"@), x) && #[trigger] truth_means(x, false, false, v)
    ||| tree::is(e, "Nested"@) && means(around, compiler, world, row, tree::at(e, "Nested"@), v)
    ||| tree::is(e, "Cast"@) && exists|x: Val|
        means(
            around,
            compiler,
            world,
            row,
            tree::at(tree::at(e, "Cast"@), "expr"@),
            x,
        ) && #[trigger] cast_means(world, tree::at(tree::at(e, "Cast"@), "data_type"@), x, v)
    ||| tree::is(e, "Between"@) && exists|x: Val, low: Val, high: Val|
        means(
            around,
            compiler,
            world,
            row,
            tree::at(tree::at(e, "Between"@), "expr"@),
            x,
        ) && means(
            around,
            compiler,
            world,
            row,
            tree::at(tree::at(e, "Between"@), "low"@),
            low,
        ) && means(
            around,
            compiler,
            world,
            row,
            tree::at(tree::at(e, "Between"@), "high"@),
            high,
        ) && v == negated(
            #[trigger] in_range(world, x, low, high),
            tree::flag(tree::at(tree::at(e, "Between"@), "negated"@)),
        )
    ||| tree::is(e, "InList"@) && exists|x: Val, items: Seq<Val>|
        means(
            around,
            compiler,
            world,
            row,
            tree::at(tree::at(e, "InList"@), "expr"@),
            x,
) && {
            let list = tree::at(tree::at(e, "InList"@), "list"@);
            &&& items.len() == tree::list(list).len()
            &&& forall|i: int|
                0 <= i < tree::list(list).len() ==> means(
                    around,
                    compiler,
                    world,
                    row,
                    tree::list(list)[i],
                    #[trigger] items[i],
                )
            &&& v == negated(
                #[trigger] in_values(items, x),
                tree::flag(tree::at(tree::at(e, "InList"@), "negated"@)),
            )
        }
    ||| tree::is(e, "Like"@) && exists|x: Val|
        means(
            around,
            compiler,
            world,
            row,
            tree::at(tree::at(e, "Like"@), "expr"@),
            x,
        ) && #[trigger] like_means(around, world, tree::at(e, "Like"@), TextComparison::Exact, x, v)
    ||| tree::is(e, "ILike"@) && exists|x: Val|
        means(
            around,
            compiler,
            world,
            row,
            tree::at(tree::at(e, "ILike"@), "expr"@),
            x,
        ) && #[trigger] like_means(
            around,
            world,
            tree::at(e, "ILike"@),
            TextComparison::UnicodeSimpleFold,
            x,
            v,
        )
    ||| tree::is(e, "Case"@) && exists|
        operand: Option<Val>,
        conditions: Seq<Val>,
        results: Seq<Val>,
        otherwise: Val,
    |
        {
            let case = tree::at(e, "Case"@);
            let arms = tree::at(case, "conditions"@);
            &&& (tree::at(case, "operand"@) is Null) == (operand is None)
            &&& operand matches Some(x) ==> means(
                around,
                compiler,
                world,
                row,
                tree::at(case, "operand"@),
                x,
            )
            &&& conditions.len() == tree::list(arms).len()
            &&& results.len() == tree::list(arms).len()
            &&& forall|i: int|
                0 <= i < tree::list(arms).len() ==> means(
                    around,
                    compiler,
                    world,
                    row,
                    tree::at(tree::list(arms)[i], "condition"@),
                    #[trigger] conditions[i],
                )
            &&& forall|i: int|
                0 <= i < tree::list(arms).len() ==> means(
                    around,
                    compiler,
                    world,
                    row,
                    tree::at(tree::list(arms)[i], "result"@),
                    #[trigger] results[i],
                )
            &&& if tree::at(case, "else_result"@) is Null {
                otherwise is Null
            } else {
                means(around, compiler, world, row, tree::at(case, "else_result"@), otherwise)
            }
            &&& v == #[trigger] first_case(operand, conditions, results, otherwise, 0)
        }
    ||| tree::is(e, "Function"@) && exists|items: Seq<Val>|
        {
            let function = tree::at(e, "Function"@);
            let arguments = tree::at(
                tree::at(tree::at(function, "args"@), "List"@),
                "args"@,
            );
            &&& items.len() == tree::list(arguments).len()
            &&& forall|i: int|
                0 <= i < tree::list(arguments).len() ==> means(
                    around,
                    compiler,
                    world,
                    row,
                    lowering::argument_expression(tree::list(arguments)[i]),
                    #[trigger] items[i],
                )
            &&& #[trigger] call_means(called(tree::at(e, "Function"@)), items, v)
        }
    ||| tree::is(e, "Exists"@) && exists|query: LoweredQueryView|
        #[trigger] query_stands_for(
            around,
            compiler,
            tree::at(tree::at(e, "Exists"@), "subquery"@),
            query,
        ) && v == Val::Truth(
            (exists|inner: Row|
                #[trigger] candidate(inner) && gives(world, row, query.relation, inner)) != tree::flag(
                tree::at(tree::at(e, "Exists"@), "negated"@),
            ),
        )
    ||| tree::is(e, "InSubquery"@) && exists|value: CompiledExprView, query: LoweredQueryView|
        {
            let test = tree::at(e, "InSubquery"@);
            &&& #[trigger] stands_for(
                around,
                compiler,
                tree::at(tree::at(e, "InSubquery"@), "expr"@),
                value,
            )
            &&& #[trigger] query_stands_for(
                around,
                compiler,
                tree::at(tree::at(e, "InSubquery"@), "subquery"@),
                query,
            )
            &&& v == Val::Truth(
                (exists|inner: Row|
                #[trigger] candidate(inner) && gives(world, row, query.relation, inner) && is_found(
                        value_of(world, within(row, inner), value.expr),
                        read(
                            within(row, inner),
                            query.scope,
                            query.columns[0].row_field(),
                        ),
                    )) != tree::flag(tree::at(test, "negated"@)),
            )
        }
}

/// Whether two values are known to be the same.
pub open spec fn is_found(left: Val, right: Val) -> bool {
    !(left is Null) && !(right is Null) && left == right
}

/// Whether a value is among others: true where it is known to be, false where it is
/// known not to be.
pub open spec fn in_values(items: Seq<Val>, x: Val) -> Val {
    if exists|i: int| 0 <= i < items.len() && is_found(x, #[trigger] items[i]) {
        Val::Truth(true)
    } else if items.len() > 0 && (x is Null || exists|i: int|
        0 <= i < items.len() && (#[trigger] items[i]) is Null) {
        Val::Null
    } else {
        Val::Truth(false)
    }
}

/// Whether a value is the outcome of a LIKE test on another.
pub open spec fn like_means(
    around: Surroundings,
    world: World,
    test: TreeView,
    comparison: TextComparison,
    x: Val,
    v: Val,
) -> bool {
    lowering::escape_of(tree::at(test, "escape_char"@)) matches Ok(escape) && exists|
        pattern: Seq<char>,
    |
        #[trigger] pattern_stands_for(around, tree::at(test, "pattern"@), pattern) && (match x {
            Val::Text(text) => v == Val::Truth(
                is_like(world, comparison, pattern, escape, text) != tree::flag(
                    tree::at(test, "negated"@),
                ),
            ),
            Val::Null => v is Null,
            _ => true,
        })
}

/// The name of the function that is called, in small letters.
pub open spec fn called(function: TreeView) -> Seq<char> {
    match literals::object_text(tree::at(function, "name"@)) {
        Ok(name) => text::lower(name),
        Err(_) => Seq::empty(),
    }
}

/// Whether a value is what a function makes of its arguments: COALESCE gives the
/// first that is not null, NULLIF null where both are the same and else the first.
pub open spec fn call_means(name: Seq<char>, items: Seq<Val>, v: Val) -> bool {
    ||| name == "coalesce"@ && items.len() > 0 && v == first_present(items, 0)
    ||| name == "nullif"@ && items.len() == 2 && v == (if is_found(items[0], items[1]) {
        Val::Null
    } else {
        items[0]
    })
}

// ---- how the lowered forms compute ----

proof fn lemma_no_literal(
    world: World,
    comparison: TextComparison,
    parts: Seq<TextMatchPartView>,
    text: Seq<char>,
)
    ensures
        parts_match(
            world,
            comparison,
            parts.push(TextMatchPartView::Literal(Seq::empty())),
            text,
        ) == parts_match(world, comparison, parts, text),
{
    let more = parts.push(TextMatchPartView::Literal(Seq::empty()));
    assert(more.drop_last() =~= parts);
    assert(text.take(text.len() as int) =~= text);
    if parts_match(world, comparison, parts, text) {
        assert(parts_match(world, comparison, more.drop_last(), text.take(text.len() as int)));
        assert(part_matches(world, comparison, more.last(), text.skip(text.len() as int)));
    }
    if parts_match(world, comparison, more, text) {
        let k = choose|k: int|
            0 <= k <= text.len() && parts_match(
                world,
                comparison,
                more.drop_last(),
                #[trigger] text.take(k),
            ) && part_matches(world, comparison, more.last(), text.skip(k));
        assert(text.skip(k).len() == 0);
        assert(k == text.len());
    }
}

proof fn lemma_longer_literal(
    world: World,
    comparison: TextComparison,
    parts: Seq<TextMatchPartView>,
    literal: Seq<char>,
    c: char,
    text: Seq<char>,
)
    ensures
        parts_match(
            world,
            comparison,
            parts.push(TextMatchPartView::Literal(literal.push(c))),
            text,
        ) == (text.len() > 0 && same_character(world, comparison, c, text.last()) && parts_match(
            world,
            comparison,
            parts.push(TextMatchPartView::Literal(literal)),
            text.drop_last(),
        )),
{
    let longer = parts.push(TextMatchPartView::Literal(literal.push(c)));
    let shorter = parts.push(TextMatchPartView::Literal(literal));
    assert(longer.drop_last() =~= parts);
    assert(shorter.drop_last() =~= parts);
    if parts_match(world, comparison, longer, text) {
        let k = choose|k: int|
            0 <= k <= text.len() && parts_match(
                world,
                comparison,
                longer.drop_last(),
                #[trigger] text.take(k),
            ) && part_matches(world, comparison, longer.last(), text.skip(k));
        assert(text.skip(k).len() == literal.len() + 1);
        assert(literal.push(c)[literal.len() as int] == c);
        assert(text.skip(k)[literal.len() as int] == text.last());
        assert(text.drop_last().take(k) =~= text.take(k));
        assert forall|i: int| 0 <= i < literal.len() implies same_character(
            world,
            comparison,
            #[trigger] literal[i],
            text.drop_last().skip(k)[i],
        ) by {
            assert(literal.push(c)[i] == literal[i]);
            assert(text.skip(k)[i] == text.drop_last().skip(k)[i]);
        }
        assert(parts_match(world, comparison, shorter.drop_last(), text.drop_last().take(k)));
    }
    if text.len() > 0 && same_character(world, comparison, c, text.last()) && parts_match(
        world,
        comparison,
        shorter,
        text.drop_last(),
    ) {
        let k = choose|k: int|
            0 <= k <= text.drop_last().len() && parts_match(
                world,
                comparison,
                shorter.drop_last(),
                #[trigger] text.drop_last().take(k),
            ) && part_matches(world, comparison, shorter.last(), text.drop_last().skip(k));
        assert(text.drop_last().take(k) =~= text.take(k));
        assert(text.drop_last().skip(k).len() == literal.len());
        assert forall|i: int| 0 <= i < literal.push(c).len() implies same_character(
            world,
            comparison,
            #[trigger] literal.push(c)[i],
            text.skip(k)[i],
        ) by {
            if i < literal.len() {
                assert(literal.push(c)[i] == literal[i]);
                assert(text.skip(k)[i] == text.drop_last().skip(k)[i]);
            }
        }
        assert(parts_match(world, comparison, longer.drop_last(), text.take(k)));
    }
}

proof fn lemma_with_literal(
    world: World,
    comparison: TextComparison,
    parts: Seq<TextMatchPartView>,
    literal: Seq<char>,
    text: Seq<char>,
)
    ensures
        parts_match(world, comparison, operators::with_literal(parts, literal), text)
            == parts_match(
            world,
            comparison,
            parts.push(TextMatchPartView::Literal(literal)),
            text,
        ),
{
    if literal.len() == 0 {
        assert(literal =~= Seq::empty());
        lemma_no_literal(world, comparison, parts, text);
    }
}

proof fn lemma_with_any(
    world: World,
    comparison: TextComparison,
    parts: Seq<TextMatchPartView>,
    text: Seq<char>,
)
    ensures
        parts_match(world, comparison, operators::with_any(parts), text) <==> exists|k: int|
            0 <= k <= text.len() && parts_match(world, comparison, parts, #[trigger] text.take(k)),
{
    let any = operators::with_any(parts);
    let rest = any.drop_last();
    if parts.len() > 0 && parts.last() == TextMatchPartView::AnyMany {
        if parts_match(world, comparison, any, text) {
            assert(text.take(text.len() as int) =~= text);
            assert(parts_match(world, comparison, parts, text.take(text.len() as int)));
        }
        if exists|k: int|
            0 <= k <= text.len() && parts_match(world, comparison, parts, #[trigger] text.take(k)) {
            let k = choose|k: int|
                0 <= k <= text.len() && parts_match(
                    world,
                    comparison,
                    parts,
                    #[trigger] text.take(k),
                );
            let j = choose|j: int|
                0 <= j <= text.take(k).len() && parts_match(
                    world,
                    comparison,
                    parts.drop_last(),
                    #[trigger] text.take(k).take(j),
                ) && part_matches(world, comparison, parts.last(), text.take(k).skip(j));
            assert(text.take(k).take(j) =~= text.take(j));
            assert(parts_match(world, comparison, any.drop_last(), text.take(j)));
        }
    } else {
        assert(rest =~= parts);
        assert(any.last() == TextMatchPartView::AnyMany);
    }
}

proof fn lemma_pattern(
    world: World,
    comparison: TextComparison,
    pattern: Seq<char>,
    escape: Option<char>,
    parts: Seq<TextMatchPartView>,
    literal: Seq<char>,
    text: Seq<char>,
)
    requires
        operators::pattern_parts(pattern, escape, parts, literal) is Ok,
    ensures
        parts_match(
            world,
            comparison,
            operators::pattern_parts(pattern, escape, parts, literal)->Ok_0,
            text,
        ) <==> exists|k: int|
            0 <= k <= text.len() && parts_match(
                world,
                comparison,
                parts.push(TextMatchPartView::Literal(literal)),
                #[trigger] text.take(k),
            ) && is_like(world, comparison, pattern, escape, text.skip(k)),
    decreases pattern.len(),
{
    let all = operators::pattern_parts(pattern, escape, parts, literal)->Ok_0;
    let before = parts.push(TextMatchPartView::Literal(literal));
    if pattern.len() == 0 {
        lemma_with_literal(world, comparison, parts, literal, text);
        if operators::with_literal(parts, literal).len() == 0 {
            assert(literal =~= Seq::empty());
            assert(before =~= seq![TextMatchPartView::Literal(Seq::empty())]);
        }
        assert(text.take(text.len() as int) =~= text);
        if parts_match(world, comparison, all, text) {
            assert(parts_match(world, comparison, before, text.take(text.len() as int)));
            assert(is_like(world, comparison, pattern, escape, text.skip(text.len() as int)));
        }
        assert forall|k: int|
            0 <= k <= text.len() && parts_match(
                world,
                comparison,
                before,
                #[trigger] text.take(k),
            ) && is_like(world, comparison, pattern, escape, text.skip(k)) implies k
            == text.len() by {
            assert(text.skip(k).len() == text.len() - k);
        }
    } else if escape == Some(pattern[0]) || (pattern[0] != '%' && pattern[0] != '_') {
        let (c, used) = if escape == Some(pattern[0]) {
            (pattern[1], 2)
        } else {
            (pattern[0], 1)
        };
        let rest = pattern.skip(used);
        let after = parts.push(TextMatchPartView::Literal(literal.push(c)));
        lemma_pattern(world, comparison, rest, escape, parts, literal.push(c), text);
        if parts_match(world, comparison, all, text) {
            let k = choose|k: int|
                0 <= k <= text.len() && parts_match(
                    world,
                    comparison,
                    after,
                    #[trigger] text.take(k),
                ) && is_like(world, comparison, rest, escape, text.skip(k));
            lemma_longer_literal(world, comparison, parts, literal, c, text.take(k));
            assert(text.take(k).drop_last() =~= text.take(k - 1));
            assert(text.take(k).last() == text[k - 1]);
            assert(text.skip(k - 1)[0] == text[k - 1]);
            assert(text.skip(k - 1).skip(1) =~= text.skip(k));
            assert(parts_match(world, comparison, before, text.take(k - 1)));
        }
        if exists|k: int|
            0 <= k <= text.len() && parts_match(
                world,
                comparison,
                before,
                #[trigger] text.take(k),
            ) && is_like(world, comparison, pattern, escape, text.skip(k)) {
            let k = choose|k: int|
                0 <= k <= text.len() && parts_match(
                    world,
                    comparison,
                    before,
                    #[trigger] text.take(k),
                ) && is_like(world, comparison, pattern, escape, text.skip(k));
            assert(text.skip(k).len() > 0);
            lemma_longer_literal(world, comparison, parts, literal, c, text.take(k + 1));
            assert(text.take(k + 1).drop_last() =~= text.take(k));
            assert(text.take(k + 1).last() == text[k]);
            assert(text.skip(k)[0] == text[k]);
            assert(text.skip(k).skip(1) =~= text.skip(k + 1));
            assert(parts_match(world, comparison, after, text.take(k + 1)));
        }
    } else {
        assert(pattern[0] == '%');
        let rest = pattern.skip(1);
        let so_far = operators::with_literal(parts, literal);
        let next = operators::with_any(so_far);
        let after = next.push(TextMatchPartView::Literal(Seq::empty()));
        lemma_pattern(world, comparison, rest, escape, next, Seq::empty(), text);
        if parts_match(world, comparison, all, text) {
            let k = choose|k: int|
                0 <= k <= text.len() && parts_match(
                    world,
                    comparison,
                    after,
                    #[trigger] text.take(k),
                ) && is_like(world, comparison, rest, escape, text.skip(k));
            lemma_no_literal(world, comparison, next, text.take(k));
            lemma_with_any(world, comparison, so_far, text.take(k));
            let j = choose|j: int|
                0 <= j <= text.take(k).len() && parts_match(
                    world,
                    comparison,
                    so_far,
                    #[trigger] text.take(k).take(j),
                );
            assert(text.take(k).take(j) =~= text.take(j));
            lemma_with_literal(world, comparison, parts, literal, text.take(j));
            assert(text.skip(j).skip(k - j) =~= text.skip(k));
            assert(is_like(world, comparison, rest, escape, text.skip(j).skip(k - j)));
            assert(parts_match(world, comparison, before, text.take(j)));
        }
        if exists|k: int|
            0 <= k <= text.len() && parts_match(
                world,
                comparison,
                before,
                #[trigger] text.take(k),
            ) && is_like(world, comparison, pattern, escape, text.skip(k)) {
            let j = choose|k: int|
                0 <= k <= text.len() && parts_match(
                    world,
                    comparison,
                    before,
                    #[trigger] text.take(k),
                ) && is_like(world, comparison, pattern, escape, text.skip(k));
            let m = choose|m: int|
                0 <= m <= text.skip(j).len() && is_like(
                    world,
                    comparison,
                    pattern.skip(1),
                    escape,
                    #[trigger] text.skip(j).skip(m),
                );
            let k = j + m;
            assert(text.skip(j).skip(m) =~= text.skip(k));
            assert(text.take(k).take(j) =~= text.take(j));
            lemma_with_literal(world, comparison, parts, literal, text.take(j));
            assert(parts_match(world, comparison, so_far, text.take(k).take(j)));
            lemma_with_any(world, comparison, so_far, text.take(k));
            lemma_no_literal(world, comparison, next, text.take(k));
            assert(parts_match(world, comparison, after, text.take(k)));
        }
    }
}

/// The parts that a LIKE pattern is taken apart into match a text exactly when the
/// text is like the pattern.
pub proof fn patterns_keep_their_meaning(
    world: World,
    comparison: TextComparison,
    pattern: Seq<char>,
    escape: Option<char>,
    text: Seq<char>,
)
    requires
        operators::like_parts(pattern, escape) is Ok,
    ensures
        parts_match(world, comparison, operators::like_parts(pattern, escape)->Ok_0, text)
            == is_like(world, comparison, pattern, escape, text),
{
    let none = Seq::<TextMatchPartView>::empty();
    let first = none.push(TextMatchPartView::Literal(Seq::empty()));
    lemma_pattern(world, comparison, pattern, escape, none, Seq::empty(), text);
    assert(first.drop_last() =~= none);
    if is_like(world, comparison, pattern, escape, text) {
        lemma_no_literal(world, comparison, none, text.take(0));
        assert(text.skip(0) =~= text);
        assert(parts_match(world, comparison, first, text.take(0)));
    }
    assert forall|k: int|
        0 <= k <= text.len() && parts_match(
            world,
            comparison,
            first,
            #[trigger] text.take(k),
        ) implies k == 0 by {
        lemma_no_literal(world, comparison, none, text.take(k));
    }
    assert(text.skip(0) =~= text);
}

proof fn lemma_folded(world: World, row: Row, expressions: Seq<ExprView>)
    requires
        expressions.len() > 0,
        forall|i: int|
            0 <= i < expressions.len() ==> {
                let value = value_of(world, row, #[trigger] expressions[i]);
                value is Truth || value is Null
            },
    ensures
        value_of(world, row, operators::balanced(expressions, BinaryOp::Or)) == some_of(
            Seq::new(expressions.len(), |i: int| value_of(world, row, expressions[i])),
        ),
    decreases expressions.len(),
{
    let values = Seq::new(expressions.len(), |i: int| value_of(world, row, expressions[i]));
    if expressions.len() > 1 {
        let level = operators::paired(expressions, BinaryOp::Or);
        let above = Seq::new(level.len(), |i: int| value_of(world, row, level[i]));
        assert forall|i: int| 0 <= i < level.len() implies above[i] == (if 2 * i + 1
            < values.len() {
            either(values[2 * i], values[2 * i + 1])
        } else {
            values[2 * i]
        }) by {
            assert(expressions[2 * i] == expressions[2 * i]);
        }
        assert forall|i: int| 0 <= i < level.len() implies {
            let value = value_of(world, row, #[trigger] level[i]);
            value is Truth || value is Null
        } by {
            assert(above[i] == value_of(world, row, level[i]));
            let value = value_of(world, row, expressions[2 * i]);
            assert(value is Truth || value is Null);
        }
        lemma_folded(world, row, level);
        if exists|i: int| 0 <= i < values.len() && is_true(#[trigger] values[i]) {
            let i = choose|i: int| 0 <= i < values.len() && is_true(#[trigger] values[i]);
            assert(is_true(above[i / 2]));
        } else {
            assert forall|i: int| 0 <= i < above.len() implies !is_true(#[trigger] above[i]) by {
                assert(!is_true(values[2 * i]));
                if 2 * i + 1 < values.len() {
                    assert(!is_true(values[2 * i + 1]));
                }
            }
            if forall|i: int| 0 <= i < values.len() ==> #[trigger] values[i] == Val::Truth(false) {
                assert forall|i: int| 0 <= i < above.len() implies #[trigger] above[i]
                    == Val::Truth(false) by {
                    assert(values[2 * i] == Val::Truth(false));
                }
            } else {
                let i = choose|i: int|
                    0 <= i < values.len() && #[trigger] values[i] != Val::Truth(false);
                assert(above[i / 2] != Val::Truth(false));
            }
        }
    } else {
        assert(values[0] == value_of(world, row, expressions[0]));
        let value = value_of(world, row, expressions[0]);
        assert(value is Truth || value is Null);
    }
}

proof fn lemma_last_case(
    conditions: Seq<Val>,
    results: Seq<Val>,
    otherwise: Val,
    i: nat,
)
    requires
        conditions.len() > 0,
        results.len() == conditions.len(),
        i < conditions.len(),
    ensures
        first_case(None, conditions, results, otherwise, i) == first_case(
            None,
            conditions.drop_last(),
            results.drop_last(),
            if is_true(conditions.last()) {
                results.last()
            } else {
                otherwise
            },
            i,
        ),
    decreases conditions.len() - i,
{
    if i + 1 < conditions.len() {
        lemma_last_case(conditions, results, otherwise, i + 1);
    } else {
        assert(first_case(None, conditions, results, otherwise, i + 1) == otherwise);
    }
}

proof fn lemma_branched(world: World, row: Row, arms: Seq<BranchArmView>, otherwise: Val)
    ensures
        branched(world, row, arms, otherwise) == first_case(
            None,
            Seq::new(arms.len(), |i: int| value_of(world, row, arms[i].when)),
            Seq::new(arms.len(), |i: int| value_of(world, row, arms[i].value)),
            otherwise,
            0,
        ),
    decreases arms.len(),
{
    let conditions = Seq::new(arms.len(), |i: int| value_of(world, row, arms[i].when));
    let results = Seq::new(arms.len(), |i: int| value_of(world, row, arms[i].value));
    if arms.len() > 0 {
        let fewer = arms.drop_last();
        let last = if is_true(conditions.last()) {
            results.last()
        } else {
            otherwise
        };
        lemma_branched(world, row, fewer, last);
        lemma_last_case(conditions, results, otherwise, 0);
        assert(conditions.drop_last() =~= Seq::new(
            fewer.len(),
            |i: int| value_of(world, row, fewer[i].when),
        ));
        assert(results.drop_last() =~= Seq::new(
            fewer.len(),
            |i: int| value_of(world, row, fewer[i].value),
        ));
    }
}

proof fn lemma_operand_case(
    operand: Val,
    conditions: Seq<Val>,
    tests: Seq<Val>,
    results: Seq<Val>,
    otherwise: Val,
    i: nat,
)
    requires
        tests.len() == conditions.len(),
        forall|k: int|
            0 <= k < tests.len() ==> #[trigger] tests[k] == known(
                operand,
                conditions[k],
                operand == conditions[k],
            ),
    ensures
        first_case(Some(operand), conditions, results, otherwise, i) == first_case(
            None,
            tests,
            results,
            otherwise,
            i,
        ),
    decreases conditions.len() - i,
{
    if i < conditions.len() {
        assert(tests[i as int] == known(
            operand,
            conditions[i as int],
            operand == conditions[i as int],
        ));
        lemma_operand_case(operand, conditions, tests, results, otherwise, i + 1);
    }
}

proof fn lemma_first_present(
    items: Seq<Val>,
    tests: Seq<Val>,
    results: Seq<Val>,
    i: nat,
)
    requires
        items.len() == tests.len() + 1,
        results.len() == tests.len(),
        i <= tests.len(),
        forall|k: int|
            0 <= k < tests.len() ==> #[trigger] tests[k] == Val::Truth(!(items[k] is Null)),
        forall|k: int| 0 <= k < tests.len() ==> #[trigger] results[k] == items[k],
    ensures
        first_case(None, tests, results, items.last(), i) == first_present(items, i),
    decreases tests.len() - i,
{
    if i < tests.len() {
        assert(tests[i as int] == Val::Truth(!(items[i as int] is Null)));
        assert(results[i as int] == items[i as int]);
        lemma_first_present(items, tests, results, i + 1);
    }
}

// ---- that expressions are lowered to what they mean ----

proof fn lemma_found_column(
    columns: Seq<ResultColumnView>,
    row: Row,
    scope: Seq<char>,
    name: Seq<char>,
)
    requires
        env::find_column(columns, name) is Some,
    ensures
        column_means(
            columns,
            row,
            scope,
            name,
            read(row, scope, env::find_column(columns, name)->0.row_field()),
        ),
    decreases columns.len(),
{
    let v = read(row, scope, env::find_column(columns, name)->0.row_field());
    if columns[0].name != name {
        lemma_found_column(columns.skip(1), row, scope, name);
        let i = choose|i: int|
            0 <= i < columns.skip(1).len() && (#[trigger] columns.skip(1)[i]).name == name && v
                == read(row, scope, columns.skip(1)[i].row_field());
        assert(columns.skip(1)[i] == columns[i + 1]);
    }
}

proof fn lemma_found_scope(scopes: Seq<ScopeDefView>, alias: Seq<char>) -> (i: int)
    requires
        env::find_scope(scopes, alias) is Some,
    ensures
        0 <= i < scopes.len(),
        scopes[i] == env::find_scope(scopes, alias)->0,
        scopes[i].alias == alias,
    decreases scopes.len(),
{
    if scopes[0].alias == alias {
        0
    } else {
        let i = lemma_found_scope(scopes.skip(1), alias);
        assert(scopes.skip(1)[i] == scopes[i + 1]);
        i + 1
    }
}

proof fn lemma_holder(scopes: Seq<ScopeDefView>, name: Seq<char>, i: nat)
    requires
        env::holder_from(scopes, name, i) is Some,
    ensures
        env::holder_from(scopes, name, i)->0 < scopes.len(),
        env::find_column(
            scopes[env::holder_from(scopes, name, i)->0 as int].columns,
            name,
        ) is Some,
    decreases scopes.len() - i,
{
    if env::find_column(scopes[i as int].columns, name) is None {
        lemma_holder(scopes, name, i + 1);
    }
}

/// A name that is looked up in row sources finds a column of that name, in a source
/// that the qualifier names where there is one.
proof fn lemma_looked_up(
    levels: Seq<Seq<ScopeDefView>>,
    qualifier: Option<Seq<char>>,
    name: Seq<char>,
) -> (at: (int, int))
    requires
        env::looked_up(levels, qualifier, name) is Ok,
    ensures
        0 <= at.0 < levels.len(),
        0 <= at.1 < levels[at.0].len(),
        levels[at.0][at.1] == env::looked_up(levels, qualifier, name)->Ok_0.0,
        qualifier matches Some(qualifier) ==> levels[at.0][at.1].alias == qualifier,
        env::find_column(levels[at.0][at.1].columns, name) == Some(
            env::looked_up(levels, qualifier, name)->Ok_0.1,
        ),
    decreases levels.len(),
{
    let found = match qualifier {
        Some(alias) => env::find_scope(levels[0], alias) is Some,
        None => env::holder_from(levels[0], name, 0) is Some,
    };
    if !found {
        let at = lemma_looked_up(levels.skip(1), qualifier, name);
        assert(levels.skip(1)[at.0] == levels[at.0 + 1]);
        (at.0 + 1, at.1)
    } else {
        match qualifier {
            Some(alias) => (0, lemma_found_scope(levels[0], alias)),
            None => {
                lemma_holder(levels[0], name, 0);
                (0, env::holder_from(levels[0], name, 0)->0 as int)
            },
        }
    }
}

proof fn lemma_name(
    compiler: ExpressionCompilerView,
    world: World,
    row: Row,
    qualifier: Option<Seq<char>>,
    name: Seq<char>,
)
    requires
        env::named_column(compiler, qualifier, name) is Ok,
    ensures
        name_means(
            compiler,
            row,
            qualifier,
            name,
            value_of(world, row, env::named_column(compiler, qualifier, name)->Ok_0.expr),
        ),
{
    let value = env::named_column(compiler, qualifier, name)->Ok_0;
    match env::output_column(compiler.output, qualifier, name) {
        Some(column) => {
            let output = compiler.output->0;
            lemma_found_column(output.columns, row, output.scope, name);
        },
        None => {
            let (level, i) = lemma_looked_up(compiler.env.levels, qualifier, name);
            let source = compiler.env.levels[level][i];
            lemma_found_column(source.columns, row, source.label, name);
        },
    }
}

/// A scalar that a constant or parameter is read as is what it says.
pub proof fn lemma_raw_constant(
    around: Surroundings,
    state: State,
    world: World,
    value: TreeView,
    expected: ScalarType,
    kind: Kind,
)
    requires
        lowering::raw_literal(around, state, value, expected) is Ok,
    ensures
        constant_means(
            around,
            world,
            value,
            constant(
                world,
                LiteralView {
                    raw: lowering::raw_literal(around, state, value, expected)->Ok_0.0,
                    kind: Some(kind),
                },
            ),
        ),
{
    let literal = LiteralView {
        raw: lowering::raw_literal(around, state, value, expected)->Ok_0.0,
        kind: Some(kind),
    };
    let v = constant(world, literal);
    if tree::is(value, "Placeholder"@) {
        let name = tree::word(tree::at(value, "Placeholder"@));
        assert(v == bound_to(around, world, name, literal.kind));
    } else if tree::is(value, "Number"@) {
        assert(v == (world.number)(literals::number_text(value), literal.kind));
    } else if literals::string_text(value) is Some {
        let text = literals::string_text(value)->0;
        assert((world.number)(text, literal.kind) == (world.number)(text, literal.kind));
    }
}

proof fn lemma_constant(
    around: Surroundings,
    state: State,
    world: World,
    row: Row,
    value: TreeView,
    expected: Option<ScalarType>,
)
    requires
        lowering::compiled_literal(around, state, value, expected) is Ok,
    ensures
        constant_means(
            around,
            world,
            value,
            value_of(
                world,
                row,
                lowering::compiled_literal(around, state, value, expected)->Ok_0.0.expr,
            ),
        ),
{
    let made = lowering::compiled_literal(around, state, value, expected)->Ok_0.0;
    let scalar_type = literals::literal_kind(value, expected)->Ok_0;
    lemma_raw_constant(around, state, world, value, scalar_type, lir::kind_of(scalar_type));
}

/// An expression is lowered to one that computes what the expression means: over
/// every row, and whatever is stored, however values are ordered, added and
/// converted.
pub proof fn expressions_keep_their_meaning(
    around: Surroundings,
    state: State,
    compiler: ExpressionCompilerView,
    world: World,
    row: Row,
    e: TreeView,
    expected: Option<ScalarType>,
)
    requires
        compiled(around, state, compiler, e, expected) is Ok,
    ensures
        means(
            around,
            compiler,
            world,
            row,
            e,
            value_of(world, row, compiled(around, state, compiler, e, expected)->Ok_0.0.expr),
        ),
    decreases tree::height(e), 1nat, 0nat,
{
    match env::substituted(compiler.substitutions, tree::bare(e)) {
        Some(column) => {
            reveal(means);
        },
        None => {
            lemma_syntax(around, state, compiler, world, row, e, expected);
        },
    }
}

proof fn lemma_syntax(
    around: Surroundings,
    state: State,
    compiler: ExpressionCompilerView,
    world: World,
    row: Row,
    e: TreeView,
    expected: Option<ScalarType>,
)
    requires
        lowering::compiled_syntax(around, state, compiler, e, expected) is Ok,
    ensures
        means(
            around,
            compiler,
            world,
            row,
            e,
            value_of(
                world,
                row,
                lowering::compiled_syntax(around, state, compiler, e, expected)->Ok_0.0.expr,
            ),
        ),
    decreases tree::height(e), 0nat, 1nat,
{
    if tree::is(e, "Identifier"@) {
        lemma_name(
            compiler,
            world,
            row,
            None,
            literals::ident_name(tree::at(e, "Identifier"@)),
        );
        reveal(means);
    } else if lowering::is_qualified_column(e) {
        let parts = tree::list(tree::at(e, "CompoundIdentifier"@));
        lemma_name(
            compiler,
            world,
            row,
            Some(literals::ident_name(parts[0])),
            literals::ident_name(parts[1]),
        );
        reveal(means);
    } else if tree::is(e, "Value"@) {
        lemma_constant(
            around,
            state,
            world,
            row,
            tree::at(tree::at(e, "Value"@), "value"@),
            expected,
        );
        reveal(means);
    } else if tree::is(e, "BinaryOp"@) {
        lemma_binary(around, state, compiler, world, row, e);
    } else if tree::is(e, "UnaryOp"@) {
        lemma_unary(around, state, compiler, world, row, e, expected);
    } else if tree::is(e, "IsNull"@) || tree::is(e, "IsNotNull"@) || tree::is(e, "IsTrue"@)
        || tree::is(e, "IsNotTrue"@) || tree::is(e, "IsFalse"@) || tree::is(e, "IsNotFalse"@)
        || tree::is(e, "Nested"@) {
        lemma_tested(around, state, compiler, world, row, e, expected);
    } else if tree::is(e, "Cast"@) {
        let cast = tree::at(e, "Cast"@);
        let made = lowering::compiled_cast(around, state, compiler, cast);
        let to = datatypes::typed(tree::at(cast, "data_type"@))->Ok_0.0;
        let inner = tree::at(cast, "expr"@);
        expressions_keep_their_meaning(around, state, compiler, world, row, inner, Some(to));
        let x = compiled(around, state, compiler, inner, Some(to))->Ok_0.0;
        let v = value_of(world, row, made->Ok_0.0.expr);
        assert(cast_means(
            world,
            tree::at(cast, "data_type"@),
            value_of(world, row, x.expr),
            v,
        ));
        reveal(means);
    } else if tree::is(e, "InList"@) {
        lemma_in_list(around, state, compiler, world, row, e);
    } else if tree::is(e, "Between"@) {
        lemma_between(around, state, compiler, world, row, e);
    } else if tree::is(e, "Like"@) {
        lemma_like(around, state, compiler, world, row, tree::at(e, "Like"@), false);
        reveal(means);
    } else if tree::is(e, "ILike"@) {
        lemma_like(around, state, compiler, world, row, tree::at(e, "ILike"@), true);
        reveal(means);
    } else if tree::is(e, "Case"@) {
        lemma_case(around, state, compiler, world, row, e, expected);
    } else if tree::is(e, "Function"@) {
        lemma_call(around, state, compiler, world, row, e, expected);
    } else {
        lemma_queried(around, state, compiler, world, row, e, expected);
    }
}

proof fn lemma_binary(
    around: Surroundings,
    state: State,
    compiler: ExpressionCompilerView,
    world: World,
    row: Row,
    e: TreeView,
)
    requires
        tree::is(e, "BinaryOp"@),
        lowering::compiled_binary(around, state, compiler, tree::at(e, "BinaryOp"@)) is Ok,
    ensures
        means(
            around,
            compiler,
            world,
            row,
            e,
            value_of(
                world,
                row,
                lowering::compiled_binary(
                    around,
                    state,
                    compiler,
                    tree::at(e, "BinaryOp"@),
                )->Ok_0.0.expr,
            ),
        ),
    decreases tree::height(tree::at(e, "BinaryOp"@)), 2nat, 0nat,
{
    let operation = tree::at(e, "BinaryOp"@);
    let left = tree::at(operation, "left"@);
    let right = tree::at(operation, "right"@);
    let operator = tree::at(operation, "op"@);
    let (l, r) = if lowering::right_first(operation) {
        expressions_keep_their_meaning(around, state, compiler, world, row, right, None);
        let (r, state) = compiled(around, state, compiler, right, None)->Ok_0;
        let wanted = Some(r.scalar_type);
        expressions_keep_their_meaning(around, state, compiler, world, row, left, wanted);
        (compiled(around, state, compiler, left, wanted)->Ok_0.0, r)
    } else {
        let wanted = if lowering::is_logical(operator) {
            Some(ScalarType::Bool)
        } else {
            None
        };
        expressions_keep_their_meaning(around, state, compiler, world, row, left, wanted);
        let (l, state) = compiled(around, state, compiler, left, wanted)->Ok_0;
        let wanted = Some(l.scalar_type);
        expressions_keep_their_meaning(around, state, compiler, world, row, right, wanted);
        (l, compiled(around, state, compiler, right, wanted)->Ok_0.0)
    };
    operators_keep_their_meaning(world, row, operator, l, r);
    assert(operator_means(
        world,
        operator,
        value_of(world, row, l.expr),
        value_of(world, row, r.expr),
        value_of(world, row, lowering::combined(operator, l, r)->Ok_0.expr),
    ));
    reveal(means);
}

proof fn lemma_unary(
    around: Surroundings,
    state: State,
    compiler: ExpressionCompilerView,
    world: World,
    row: Row,
    e: TreeView,
    expected: Option<ScalarType>,
)
    requires
        tree::is(e, "UnaryOp"@),
        lowering::compiled_unary(
            around,
            state,
            compiler,
            tree::at(e, "UnaryOp"@),
            expected,
        ) is Ok,
    ensures
        means(
            around,
            compiler,
            world,
            row,
            e,
            value_of(
                world,
                row,
                lowering::compiled_unary(
                    around,
                    state,
                    compiler,
                    tree::at(e, "UnaryOp"@),
                    expected,
                )->Ok_0.0.expr,
            ),
        ),
    decreases tree::height(tree::at(e, "UnaryOp"@)), 2nat, 0nat,
{
    let operation = tree::at(e, "UnaryOp"@);
    let operator = tree::at(operation, "op"@);
    let inner = tree::at(operation, "expr"@);
    let wanted = if tree::is(operator, "Not"@) || tree::is(operator, "BangNot"@) {
        Some(ScalarType::Bool)
    } else {
        expected
    };
    expressions_keep_their_meaning(around, state, compiler, world, row, inner, wanted);
    let x = compiled(around, state, compiler, inner, wanted)->Ok_0.0;
    let made = lowering::compiled_unary(around, state, compiler, operation, expected)->Ok_0.0;
    assert(sign_means(
        world,
        operator,
        value_of(world, row, x.expr),
        value_of(world, row, made.expr),
    ));
    reveal(means);
}

proof fn lemma_truth(world: World, row: Row, value: CompiledExprView, truth: bool, negated: bool)
    ensures
        truth_means(
            value_of(world, row, value.expr),
            truth,
            !negated,
            value_of(world, row, lowering::truth_tested(value, truth, negated).expr),
        ),
{
    let arm = BranchArmView {
        when: operators::binary_of(BinaryOp::Eq, value.expr, operators::bool_constant(truth)),
        value: operators::bool_constant(true),
    };
    let arms = seq![arm];
    let x = value_of(world, row, value.expr);
    assert(value_of(world, row, operators::bool_constant(truth)) == Val::Truth(truth));
    assert(value_of(world, row, operators::bool_constant(true)) == Val::Truth(true));
    assert(value_of(world, row, operators::bool_constant(false)) == Val::Truth(false));
    assert(value_of(world, row, arm.when) == known(x, Val::Truth(truth), x == Val::Truth(truth)));
    let is_value = ExprView::Branch {
        arms,
        otherwise: Box::new(operators::bool_constant(false)),
    };
    lemma_branched(world, row, arms, Val::Truth(false));
    let conditions = Seq::new(arms.len(), |i: int| value_of(world, row, arms[i].when));
    let results = Seq::new(arms.len(), |i: int| value_of(world, row, arms[i].value));
    assert(conditions[0] == value_of(world, row, arm.when));
    assert(results[0] == Val::Truth(true));
    assert(first_case(None, conditions, results, Val::Truth(false), 1) == Val::Truth(false));
    assert(value_of(world, row, is_value) == Val::Truth(x == Val::Truth(truth)));
    assert(lowering::truth_tested(value, truth, negated).expr == operators::negated_if(
        negated,
        is_value,
    ));
}

proof fn lemma_tested(
    around: Surroundings,
    state: State,
    compiler: ExpressionCompilerView,
    world: World,
    row: Row,
    e: TreeView,
    expected: Option<ScalarType>,
)
    requires
        !tree::is(e, "Identifier"@),
        !lowering::is_qualified_column(e),
        !tree::is(e, "Value"@),
        !tree::is(e, "BinaryOp"@),
        !tree::is(e, "UnaryOp"@),
        tree::is(e, "IsNull"@) || tree::is(e, "IsNotNull"@) || tree::is(e, "IsTrue"@) || tree::is(
            e,
            "IsNotTrue"@,
        ) || tree::is(e, "IsFalse"@) || tree::is(e, "IsNotFalse"@) || tree::is(e, "Nested"@),
        lowering::compiled_syntax(around, state, compiler, e, expected) is Ok,
    ensures
        means(
            around,
            compiler,
            world,
            row,
            e,
            value_of(
                world,
                row,
                lowering::compiled_syntax(around, state, compiler, e, expected)->Ok_0.0.expr,
            ),
        ),
    decreases tree::height(e), 0nat, 0nat,
{
    let v = value_of(
        world,
        row,
        lowering::compiled_syntax(around, state, compiler, e, expected)->Ok_0.0.expr,
    );
    let truth = Some(ScalarType::Bool);
    if tree::is(e, "IsNull"@) {
        let inner = tree::at(e, "IsNull"@);
        expressions_keep_their_meaning(around, state, compiler, world, row, inner, expected);
        let x = compiled(around, state, compiler, inner, expected)->Ok_0.0;
        assert(null_means(value_of(world, row, x.expr), true, v));
    } else if tree::is(e, "IsNotNull"@) {
        let inner = tree::at(e, "IsNotNull"@);
        expressions_keep_their_meaning(around, state, compiler, world, row, inner, expected);
        let x = compiled(around, state, compiler, inner, expected)->Ok_0.0;
        assert(null_means(value_of(world, row, x.expr), false, v));
    } else if tree::is(e, "IsTrue"@) {
        let inner = tree::at(e, "IsTrue"@);
        expressions_keep_their_meaning(around, state, compiler, world, row, inner, truth);
        let x = compiled(around, state, compiler, inner, truth)->Ok_0.0;
        lemma_truth(world, row, x, true, false);
    } else if tree::is(e, "IsNotTrue"@) {
        let inner = tree::at(e, "IsNotTrue"@);
        expressions_keep_their_meaning(around, state, compiler, world, row, inner, truth);
        let x = compiled(around, state, compiler, inner, truth)->Ok_0.0;
        lemma_truth(world, row, x, true, true);
    } else if tree::is(e, "IsFalse"@) {
        let inner = tree::at(e, "IsFalse"@);
        expressions_keep_their_meaning(around, state, compiler, world, row, inner, truth);
        let x = compiled(around, state, compiler, inner, truth)->Ok_0.0;
        lemma_truth(world, row, x, false, false);
    } else if tree::is(e, "IsNotFalse"@) {
        let inner = tree::at(e, "IsNotFalse"@);
        expressions_keep_their_meaning(around, state, compiler, world, row, inner, truth);
        let x = compiled(around, state, compiler, inner, truth)->Ok_0.0;
        lemma_truth(world, row, x, false, true);
    } else {
        let inner = tree::at(e, "Nested"@);
        expressions_keep_their_meaning(around, state, compiler, world, row, inner, expected);
    }
    reveal(means);
}

proof fn lemma_between(
    around: Surroundings,
    state: State,
    compiler: ExpressionCompilerView,
    world: World,
    row: Row,
    e: TreeView,
)
    requires
        tree::is(e, "Between"@),
        lowering::compiled_between(around, state, compiler, tree::at(e, "Between"@)) is Ok,
    ensures
        means(
            around,
            compiler,
            world,
            row,
            e,
            value_of(
                world,
                row,
                lowering::compiled_between(
                    around,
                    state,
                    compiler,
                    tree::at(e, "Between"@),
                )->Ok_0.0.expr,
            ),
        ),
    decreases tree::height(tree::at(e, "Between"@)), 2nat, 0nat,
{
    let test = tree::at(e, "Between"@);
    let made = lowering::compiled_between(around, state, compiler, test)->Ok_0.0;
    let inner = tree::at(test, "expr"@);
    let low = tree::at(test, "low"@);
    let high = tree::at(test, "high"@);
    expressions_keep_their_meaning(around, state, compiler, world, row, inner, None);
    let (x, state) = compiled(around, state, compiler, inner, None)->Ok_0;
    let wanted = Some(x.scalar_type);
    expressions_keep_their_meaning(around, state, compiler, world, row, low, wanted);
    let (l, state) = compiled(around, state, compiler, low, wanted)->Ok_0;
    expressions_keep_their_meaning(around, state, compiler, world, row, high, wanted);
    let (h, state) = compiled(around, state, compiler, high, wanted)->Ok_0;
    let at_least = operators::binary_of(BinaryOp::Gte, x.expr, l.expr);
    let at_most = operators::binary_of(BinaryOp::Lte, x.expr, h.expr);
    let found = operators::binary_of(BinaryOp::And, at_least, at_most);
    let within_range = in_range(
        world,
        value_of(world, row, x.expr),
        value_of(world, row, l.expr),
        value_of(world, row, h.expr),
    );
    assert(value_of(world, row, at_least) == operated(
        world,
        BinaryOp::Gte,
        value_of(world, row, x.expr),
        value_of(world, row, l.expr),
    ));
    assert(value_of(world, row, at_most) == operated(
        world,
        BinaryOp::Lte,
        value_of(world, row, x.expr),
        value_of(world, row, h.expr),
    ));
    assert(value_of(world, row, found) == within_range);
    assert(made.expr == operators::negated_if(tree::flag(tree::at(test, "negated"@)), found));
    assert(value_of(world, row, made.expr) == negated(
        within_range,
        tree::flag(tree::at(test, "negated"@)),
    ));
    reveal(means);
}

proof fn lemma_candidates(
    around: Surroundings,
    state: State,
    compiler: ExpressionCompilerView,
    world: World,
    row: Row,
    list: TreeView,
    i: nat,
    value: CompiledExprView,
    predicates: Seq<ExprView>,
) -> (items: Seq<Val>)
    requires
        i <= tree::list(list).len(),
        lowering::candidates(around, state, compiler, list, i, value, predicates) is Ok,
    ensures
        items.len() == tree::list(list).len() - i,
        forall|k: int|
            0 <= k < items.len() ==> means(
                around,
                compiler,
                world,
                row,
                tree::list(list)[i + k],
                #[trigger] items[k],
            ),
        ({
            let x = value_of(world, row, value.expr);
            let found = lowering::candidates(
                around,
                state,
                compiler,
                list,
                i,
                value,
                predicates,
            )->Ok_0.0;
            &&& found.len() == predicates.len() + items.len()
            &&& forall|k: int| 0 <= k < predicates.len() ==> #[trigger] found[k] == predicates[k]
            &&& forall|k: int|
                0 <= k < items.len() ==> value_of(world, row, found[predicates.len() + k])
                    == known(x, #[trigger] items[k], x == items[k])
        }),
    decreases tree::height(list), 3nat, tree::list(list).len() - i,
{
    if i >= tree::list(list).len() {
        Seq::empty()
    } else {
        let e = tree::list(list)[i as int];
        let wanted = Some(value.scalar_type);
        expressions_keep_their_meaning(around, state, compiler, world, row, e, wanted);
        let (candidate, after) = compiled(around, state, compiler, e, wanted)->Ok_0;
        let x = value_of(world, row, value.expr);
        let item = value_of(world, row, candidate.expr);
        let predicate = operators::binary_of(BinaryOp::Eq, value.expr, candidate.expr);
        assert(value_of(world, row, predicate) == known(x, item, x == item));
        let more = lemma_candidates(
            around,
            after,
            compiler,
            world,
            row,
            list,
            i + 1,
            value,
            predicates.push(predicate),
        );
        let items = seq![item] + more;
        let found = lowering::candidates(
            around,
            state,
            compiler,
            list,
            i,
            value,
            predicates,
        )->Ok_0.0;
        assert(found == lowering::candidates(
            around,
            after,
            compiler,
            list,
            i + 1,
            value,
            predicates.push(predicate),
        )->Ok_0.0);
        assert forall|k: int| 0 <= k < predicates.len() implies #[trigger] found[k]
            == predicates[k] by {
            assert(predicates.push(predicate)[k] == predicates[k]);
        }
        assert forall|k: int| 0 <= k < items.len() implies value_of(
            world,
            row,
            found[predicates.len() + k],
        ) == known(x, #[trigger] items[k], x == items[k]) by {
            if k == 0 {
                assert(predicates.push(predicate)[predicates.len() as int] == predicate);
                assert(found[predicates.len() as int] == predicate);
            } else {
                assert(items[k] == more[k - 1]);
                assert(predicates.push(predicate).len() + (k - 1) == predicates.len() + k);
            }
        }
        assert forall|k: int| 0 <= k < items.len() implies means(
            around,
            compiler,
            world,
            row,
            tree::list(list)[i + k],
            #[trigger] items[k],
        ) by {
            if k > 0 {
                assert(items[k] == more[k - 1]);
                assert(i + 1 + (k - 1) == i + k);
            }
        }
        items
    }
}

proof fn lemma_in_list(
    around: Surroundings,
    state: State,
    compiler: ExpressionCompilerView,
    world: World,
    row: Row,
    e: TreeView,
)
    requires
        tree::is(e, "InList"@),
        lowering::compiled_in_list(around, state, compiler, tree::at(e, "InList"@)) is Ok,
    ensures
        means(
            around,
            compiler,
            world,
            row,
            e,
            value_of(
                world,
                row,
                lowering::compiled_in_list(
                    around,
                    state,
                    compiler,
                    tree::at(e, "InList"@),
                )->Ok_0.0.expr,
            ),
        ),
    decreases tree::height(tree::at(e, "InList"@)), 4nat, 0nat,
{
    let test = tree::at(e, "InList"@);
    let inner = tree::at(test, "expr"@);
    let list = tree::at(test, "list"@);
    let asked = tree::flag(tree::at(test, "negated"@));
    let made = lowering::compiled_in_list(around, state, compiler, test)->Ok_0.0;
    expressions_keep_their_meaning(around, state, compiler, world, row, inner, None);
    let (value, state) = compiled(around, state, compiler, inner, None)->Ok_0;
    let x = value_of(world, row, value.expr);
    let none = Seq::<ExprView>::empty();
    let items = lemma_candidates(
        around,
        state,
        compiler,
        world,
        row,
        list,
        0,
        value,
        none,
    );
    let found = lowering::candidates(around, state, compiler, list, 0, value, none)->Ok_0.0;
    assert forall|i: int| 0 <= i < found.len() implies {
        let v = value_of(world, row, #[trigger] found[i]);
        v == known(x, items[i], x == items[i])
    } by {
        assert(none.len() + i == i);
    }
    lemma_folded(world, row, found);
    let values = Seq::new(found.len(), |i: int| value_of(world, row, found[i]));
    assert forall|i: int| 0 <= i < values.len() implies #[trigger] values[i] == known(
        x,
        items[i],
        x == items[i],
    ) by {}
    if exists|i: int| 0 <= i < items.len() && is_found(x, #[trigger] items[i]) {
        let i = choose|i: int| 0 <= i < items.len() && is_found(x, #[trigger] items[i]);
        assert(is_true(values[i]));
    } else {
        assert forall|i: int| 0 <= i < values.len() implies !is_true(#[trigger] values[i]) by {
            assert(!is_found(x, items[i]));
        }
        if x is Null {
            assert(values[0] != Val::Truth(false));
        } else if exists|i: int| 0 <= i < items.len() && (#[trigger] items[i]) is Null {
            let i = choose|i: int| 0 <= i < items.len() && (#[trigger] items[i]) is Null;
            assert(values[i] != Val::Truth(false));
        } else {
            assert forall|i: int| 0 <= i < values.len() implies #[trigger] values[i]
                == Val::Truth(false) by {
                assert(!is_found(x, items[i]));
                assert(!(items[i] is Null));
            }
        }
    }
    assert(some_of(values) == in_values(items, x));
    assert(value_of(world, row, made.expr) == negated(in_values(items, x), asked));
    assert forall|i: int| 0 <= i < tree::list(list).len() implies means(
        around,
        compiler,
        world,
        row,
        tree::list(list)[i],
        #[trigger] items[i],
    ) by {
        assert(0 + i == i);
    }
    reveal(means);
}

/// How a test compares characters.
spec fn comparison_of(insensitive: bool) -> TextComparison {
    if insensitive {
        TextComparison::UnicodeSimpleFold
    } else {
        TextComparison::Exact
    }
}

proof fn lemma_like(
    around: Surroundings,
    state: State,
    compiler: ExpressionCompilerView,
    world: World,
    row: Row,
    test: TreeView,
    insensitive: bool,
)
    requires
        lowering::compiled_like(around, state, compiler, test, insensitive) is Ok,
    ensures
        exists|x: Val|
            means(around, compiler, world, row, tree::at(test, "expr"@), x)
                && #[trigger] like_means(
                around,
                world,
                test,
                comparison_of(insensitive),
                x,
                value_of(
                    world,
                    row,
                    lowering::compiled_like(
                        around,
                        state,
                        compiler,
                        test,
                        insensitive,
                    )->Ok_0.0.expr,
                ),
            ),
    decreases tree::height(test), 2nat, 0nat,
{
    let comparison = comparison_of(insensitive);
    let made = lowering::compiled_like(around, state, compiler, test, insensitive)->Ok_0.0;
    let inner = tree::at(test, "expr"@);
    let wanted = Some(ScalarType::Text);
    let asked = tree::flag(tree::at(test, "negated"@));
    expressions_keep_their_meaning(around, state, compiler, world, row, inner, wanted);
    let (value, state) = compiled(around, state, compiler, inner, wanted)->Ok_0;
    let x = value_of(world, row, value.expr);
    let (pattern, after) = lowering::pattern_text(
        around,
        state,
        tree::at(test, "pattern"@),
    )->Ok_0;
    assert(pattern_stands_for(around, tree::at(test, "pattern"@), pattern));
    let escape = lowering::escape_of(tree::at(test, "escape_char"@))->Ok_0;
    let parts = operators::like_parts(pattern, escape)->Ok_0;
    let expr = lowering::text_match(value.expr, parts, insensitive)->Ok_0;
    let v = value_of(world, row, made.expr);
    assert(made.expr == operators::negated_if(asked, expr));
    match x {
        Val::Text(text) => {
            patterns_keep_their_meaning(world, comparison, pattern, escape, text);
            if !insensitive && parts.len() == 1 && parts[0] is Literal {
                let literal = parts[0]->Literal_0;
                assert(parts =~= Seq::<TextMatchPartView>::empty().push(
                    TextMatchPartView::Literal(literal),
                ));
                assert(parts.drop_last() =~= Seq::empty());
                assert(text.take(0) =~= Seq::empty());
                assert(text.skip(0) =~= text);
                if text == literal {
                    assert(parts_match(world, comparison, parts.drop_last(), text.take(0)));
                    assert(part_matches(world, comparison, parts.last(), text.skip(0)));
                    assert(parts_match(world, comparison, parts, text));
                }
                if parts_match(world, comparison, parts, text) {
                    let k = choose|k: int|
                        0 <= k <= text.len() && parts_match(
                            world,
                            comparison,
                            parts.drop_last(),
                            #[trigger] text.take(k),
                        ) && part_matches(world, comparison, parts.last(), text.skip(k));
                    assert(text.take(k).len() == k);
                    assert(k == 0);
                    assert(literal =~= text);
                }
                let constant_text = ExprView::Literal(
                    LiteralView { raw: RawScalarView::Text(literal), kind: Some(Kind::Text) },
                );
                assert(value_of(world, row, constant_text) == Val::Text(literal));
                assert(value_of(world, row, expr) == Val::Truth(text == literal));
            } else {
                assert(value_of(world, row, expr) == Val::Truth(
                    parts_match(world, comparison, parts, text),
                ));
            }
            assert(v == Val::Truth(is_like(world, comparison, pattern, escape, text) != asked));
        },
        Val::Null => {
            assert(value_of(world, row, expr) is Null);
        },
        _ => {},
    }
    assert(like_means(around, world, test, comparison, x, v));
}

proof fn lemma_arms(
    around: Surroundings,
    state: State,
    compiler: ExpressionCompilerView,
    world: World,
    row: Row,
    list: TreeView,
    i: nat,
    operand: Option<CompiledExprView>,
    result_type: ScalarType,
    done: Arms,
) -> (found: (Seq<Val>, Seq<Val>))
    requires
        i <= tree::list(list).len(),
        lowering::compiled_arms(
            around,
            state,
            compiler,
            list,
            i,
            operand,
            result_type,
            done,
        ) is Ok,
    ensures
        found.0.len() == tree::list(list).len() - i,
        found.1.len() == found.0.len(),
        forall|k: int|
            0 <= k < found.0.len() ==> means(
                around,
                compiler,
                world,
                row,
                tree::at(tree::list(list)[i + k], "condition"@),
                #[trigger] found.0[k],
            ),
        forall|k: int|
            0 <= k < found.1.len() ==> means(
                around,
                compiler,
                world,
                row,
                tree::at(tree::list(list)[i + k], "result"@),
                #[trigger] found.1[k],
            ),
        ({
            let arms = lowering::compiled_arms(
                around,
                state,
                compiler,
                list,
                i,
                operand,
                result_type,
                done,
            )->Ok_0.0.arms;
            &&& arms.len() == done.arms.len() + found.0.len()
            &&& forall|k: int| 0 <= k < done.arms.len() ==> #[trigger] arms[k] == done.arms[k]
            &&& forall|k: int|
                0 <= k < found.0.len() ==> value_of(world, row, arms[done.arms.len() + k].when)
                    == tested(world, row, operand, #[trigger] found.0[k])
            &&& forall|k: int|
                0 <= k < found.1.len() ==> value_of(world, row, arms[done.arms.len() + k].value)
                    == #[trigger] found.1[k]
        }),
    decreases tree::height(list), 3nat, tree::list(list).len() - i,
{
    if i >= tree::list(list).len() {
        (Seq::empty(), Seq::empty())
    } else {
        let arm = tree::list(list)[i as int];
        let wanted = Some(
            match operand {
                Some(operand) => operand.scalar_type,
                None => ScalarType::Bool,
            },
        );
        let when = tree::at(arm, "condition"@);
        let what = tree::at(arm, "result"@);
        expressions_keep_their_meaning(around, state, compiler, world, row, when, wanted);
        let (condition, middle) = compiled(around, state, compiler, when, wanted)->Ok_0;
        let result_wanted = Some(result_type);
        expressions_keep_their_meaning(around, middle, compiler, world, row, what, result_wanted);
        let (result, after) = compiled(around, middle, compiler, what, result_wanted)->Ok_0;
        let c = value_of(world, row, condition.expr);
        let r = value_of(world, row, result.expr);
        let made = BranchArmView {
            when: match operand {
                Some(operand) => operators::binary_of(BinaryOp::Eq, operand.expr, condition.expr),
                None => condition.expr,
            },
            value: result.expr,
        };
        assert(value_of(world, row, made.when) == tested(world, row, operand, c));
        let next = Arms {
            arms: done.arms.push(made),
            nullable: done.nullable || result.nullable,
        };
        let more = lemma_arms(
            around,
            after,
            compiler,
            world,
            row,
            list,
            i + 1,
            operand,
            result_type,
            next,
        );
        let found = (seq![c] + more.0, seq![r] + more.1);
        let arms = lowering::compiled_arms(
            around,
            state,
            compiler,
            list,
            i,
            operand,
            result_type,
            done,
        )->Ok_0.0.arms;
        assert(arms == lowering::compiled_arms(
            around,
            after,
            compiler,
            list,
            i + 1,
            operand,
            result_type,
            next,
        )->Ok_0.0.arms);
        assert forall|k: int| 0 <= k < done.arms.len() implies #[trigger] arms[k]
            == done.arms[k] by {
            assert(next.arms[k] == done.arms[k]);
        }
        assert(next.arms[done.arms.len() as int] == made);
        assert(arms[done.arms.len() as int] == made);
        assert forall|k: int| 0 <= k < found.0.len() implies value_of(
            world,
            row,
            arms[done.arms.len() + k].when,
        ) == tested(world, row, operand, #[trigger] found.0[k]) by {
            if k > 0 {
                assert(found.0[k] == more.0[k - 1]);
                assert(next.arms.len() + (k - 1) == done.arms.len() + k);
            }
        }
        assert forall|k: int| 0 <= k < found.1.len() implies value_of(
            world,
            row,
            arms[done.arms.len() + k].value,
        ) == #[trigger] found.1[k] by {
            if k > 0 {
                assert(found.1[k] == more.1[k - 1]);
                assert(next.arms.len() + (k - 1) == done.arms.len() + k);
            }
        }
        assert forall|k: int| 0 <= k < found.0.len() implies means(
            around,
            compiler,
            world,
            row,
            tree::at(tree::list(list)[i + k], "condition"@),
            #[trigger] found.0[k],
        ) by {
            if k > 0 {
                assert(found.0[k] == more.0[k - 1]);
                assert(i + 1 + (k - 1) == i + k);
            }
        }
        assert forall|k: int| 0 <= k < found.1.len() implies means(
            around,
            compiler,
            world,
            row,
            tree::at(tree::list(list)[i + k], "result"@),
            #[trigger] found.1[k],
        ) by {
            if k > 0 {
                assert(found.1[k] == more.1[k - 1]);
                assert(i + 1 + (k - 1) == i + k);
            }
        }
        found
    }
}

/// What the condition of a case tests: that it is true, or that it is the operand.
spec fn tested(world: World, row: Row, operand: Option<CompiledExprView>, condition: Val) -> Val {
    match operand {
        Some(operand) => {
            let x = value_of(world, row, operand.expr);
            known(x, condition, x == condition)
        },
        None => condition,
    }
}

proof fn lemma_case(
    around: Surroundings,
    state: State,
    compiler: ExpressionCompilerView,
    world: World,
    row: Row,
    e: TreeView,
    expected: Option<ScalarType>,
)
    requires
        tree::is(e, "Case"@),
        lowering::compiled_case(around, state, compiler, tree::at(e, "Case"@), expected) is Ok,
    ensures
        means(
            around,
            compiler,
            world,
            row,
            e,
            value_of(
                world,
                row,
                lowering::compiled_case(
                    around,
                    state,
                    compiler,
                    tree::at(e, "Case"@),
                    expected,
                )->Ok_0.0.expr,
            ),
        ),
    decreases tree::height(tree::at(e, "Case"@)), 4nat, 0nat,
{
    let case = tree::at(e, "Case"@);
    let list = tree::at(case, "conditions"@);
    let other = tree::at(case, "else_result"@);
    let inner = tree::at(case, "operand"@);
    let made = lowering::compiled_case(around, state, compiler, case, expected)->Ok_0.0;
    let result_type = lowering::case_type(compiler, case, expected)->0;
    let (operand, middle) = lowering::case_operand(around, state, compiler, case)->Ok_0;
    if !(inner is Null) {
        expressions_keep_their_meaning(around, state, compiler, world, row, inner, None);
    }
    let x = match operand {
        Some(operand) => Some(value_of(world, row, operand.expr)),
        None => None,
    };
    let none = Arms { arms: Seq::empty(), nullable: other is Null };
    let (conditions, results) = lemma_arms(
        around,
        middle,
        compiler,
        world,
        row,
        list,
        0,
        operand,
        result_type,
        none,
    );
    let (done, after) = lowering::compiled_arms(
        around,
        middle,
        compiler,
        list,
        0,
        operand,
        result_type,
        none,
    )->Ok_0;
    let wanted = Some(result_type);
    let otherwise = if other is Null {
        operators::null_constant(result_type)
    } else {
        expressions_keep_their_meaning(around, after, compiler, world, row, other, wanted);
        compiled(around, after, compiler, other, wanted)->Ok_0.0.expr
    };
    let o = value_of(world, row, otherwise);
    let arms = done.arms;
    assert(made.expr == ExprView::Branch { arms, otherwise: Box::new(otherwise) });
    let tests = Seq::new(arms.len(), |i: int| value_of(world, row, arms[i].when));
    let values = Seq::new(arms.len(), |i: int| value_of(world, row, arms[i].value));
    lemma_branched(world, row, arms, o);
    assert forall|k: int| 0 <= k < tests.len() implies #[trigger] tests[k] == tested(
        world,
        row,
        operand,
        conditions[k],
    ) by {
        assert(none.arms.len() + k == k);
    }
    assert(values =~= results) by {
        assert forall|k: int| 0 <= k < values.len() implies values[k] == results[k] by {
            assert(none.arms.len() + k == k);
            assert(results[k] == results[k]);
        }
    }
    if operand is Some {
        lemma_operand_case(x->0, conditions, tests, results, o, 0);
    } else {
        assert(tests =~= conditions);
    }
    let v = value_of(world, row, made.expr);
    assert(v == first_case(x, conditions, results, o, 0));
    assert forall|i: int| 0 <= i < tree::list(list).len() implies means(
        around,
        compiler,
        world,
        row,
        tree::at(tree::list(list)[i], "condition"@),
        #[trigger] conditions[i],
    ) by {
        assert(0 + i == i);
    }
    assert forall|i: int| 0 <= i < tree::list(list).len() implies means(
        around,
        compiler,
        world,
        row,
        tree::at(tree::list(list)[i], "result"@),
        #[trigger] results[i],
    ) by {
        assert(0 + i == i);
    }
    reveal(means);
}

proof fn lemma_arguments(
    around: Surroundings,
    state: State,
    compiler: ExpressionCompilerView,
    world: World,
    row: Row,
    arguments: TreeView,
    i: nat,
    expected: ScalarType,
    done: Seq<CompiledExprView>,
)
    requires
        i <= tree::list(arguments).len(),
        done.len() == i,
        forall|k: int|
            0 <= k < i ==> means(
                around,
                compiler,
                world,
                row,
                lowering::argument_expression(tree::list(arguments)[k]),
                value_of(world, row, (#[trigger] done[k]).expr),
            ),
        lowering::compiled_arguments(
            around,
            state,
            compiler,
            arguments,
            i,
            expected,
            done,
        ) is Ok,
    ensures
        ({
            let found = lowering::compiled_arguments(
                around,
                state,
                compiler,
                arguments,
                i,
                expected,
                done,
            )->Ok_0.0;
            &&& found.len() == tree::list(arguments).len()
            &&& forall|k: int|
                0 <= k < found.len() ==> means(
                    around,
                    compiler,
                    world,
                    row,
                    lowering::argument_expression(tree::list(arguments)[k]),
                    value_of(world, row, (#[trigger] found[k]).expr),
                )
        }),
    decreases tree::height(arguments), 3nat, tree::list(arguments).len() - i,
{
    if i < tree::list(arguments).len() {
        let e = lowering::argument_expression(tree::list(arguments)[i as int]);
        let wanted = Some(expected);
        expressions_keep_their_meaning(around, state, compiler, world, row, e, wanted);
        let (value, after) = compiled(around, state, compiler, e, wanted)->Ok_0;
        let next = done.push(value);
        assert forall|k: int| 0 <= k < i + 1 implies means(
            around,
            compiler,
            world,
            row,
            lowering::argument_expression(tree::list(arguments)[k]),
            value_of(world, row, (#[trigger] next[k]).expr),
        ) by {
            if k < i {
                assert(next[k] == done[k]);
            }
        }
        lemma_arguments(
            around,
            after,
            compiler,
            world,
            row,
            arguments,
            i + 1,
            expected,
            next,
        );
    }
}

proof fn lemma_coalesced(
    world: World,
    row: Row,
    values: Seq<CompiledExprView>,
    result_type: ScalarType,
)
    requires
        values.len() > 0,
    ensures
        value_of(world, row, lowering::coalesced(values, result_type)->Ok_0.expr) == first_present(
            Seq::new(values.len(), |i: int| value_of(world, row, values[i].expr)),
            0,
        ),
{
    let items = Seq::new(values.len(), |i: int| value_of(world, row, values[i].expr));
    if values.len() > 1 {
        let count = (values.len() - 1) as nat;
        let arms = Seq::new(count, |i: int| lowering::present_arm(values[i]));
        let tests = Seq::new(arms.len(), |i: int| value_of(world, row, arms[i].when));
        let results = Seq::new(arms.len(), |i: int| value_of(world, row, arms[i].value));
        lemma_branched(world, row, arms, items.last());
        assert forall|k: int| 0 <= k < tests.len() implies #[trigger] tests[k] == Val::Truth(
            !(items[k] is Null),
        ) by {
            assert(arms[k] == lowering::present_arm(values[k]));
        }
        lemma_first_present(items, tests, results, 0);
    }
}

proof fn lemma_call(
    around: Surroundings,
    state: State,
    compiler: ExpressionCompilerView,
    world: World,
    row: Row,
    e: TreeView,
    expected: Option<ScalarType>,
)
    requires
        tree::is(e, "Function"@),
        lowering::compiled_function(
            around,
            state,
            compiler,
            tree::at(e, "Function"@),
            expected,
        ) is Ok,
    ensures
        means(
            around,
            compiler,
            world,
            row,
            e,
            value_of(
                world,
                row,
                lowering::compiled_function(
                    around,
                    state,
                    compiler,
                    tree::at(e, "Function"@),
                    expected,
                )->Ok_0.0.expr,
            ),
        ),
    decreases tree::height(tree::at(e, "Function"@)), 4nat, 0nat,
{
    let function = tree::at(e, "Function"@);
    let arguments = tree::at(tree::at(tree::at(function, "args"@), "List"@), "args"@);
    let made = lowering::compiled_function(around, state, compiler, function, expected)->Ok_0.0;
    let v = value_of(world, row, made.expr);
    assert(tree::height(arguments) <= tree::height(tree::at(tree::at(function, "args"@), "List"@)));
    assert(tree::height(tree::at(tree::at(function, "args"@), "List"@)) <= tree::height(
        tree::at(function, "args"@),
    ));
    if called(function) == "coalesce"@ {
        let result_type = match expected {
            Some(expected) => expected,
            None => lowering::arguments_hint(compiler, arguments, 0)->0,
        };
        let none = Seq::<CompiledExprView>::empty();
        lemma_arguments(
            around,
            state,
            compiler,
            world,
            row,
            arguments,
            0,
            result_type,
            none,
        );
        let values = lowering::compiled_arguments(
            around,
            state,
            compiler,
            arguments,
            0,
            result_type,
            none,
        )->Ok_0.0;
        let items = Seq::new(values.len(), |i: int| value_of(world, row, values[i].expr));
        lemma_coalesced(world, row, values, result_type);
        assert(made == lowering::coalesced(values, result_type)->Ok_0);
        assert forall|i: int| 0 <= i < tree::list(arguments).len() implies means(
            around,
            compiler,
            world,
            row,
            lowering::argument_expression(tree::list(arguments)[i]),
            #[trigger] items[i],
        ) by {
            assert(values[i] == values[i]);
        }
        assert(call_means(called(function), items, v));
        reveal(means);
    } else {
        let first = lowering::argument_expression(tree::list(arguments)[0]);
        let second = lowering::argument_expression(tree::list(arguments)[1]);
        expressions_keep_their_meaning(around, state, compiler, world, row, first, expected);
        let (left, middle) = compiled(around, state, compiler, first, expected)->Ok_0;
        let wanted = Some(left.scalar_type);
        expressions_keep_their_meaning(around, middle, compiler, world, row, second, wanted);
        let (right, after) = compiled(around, middle, compiler, second, wanted)->Ok_0;
        let l = value_of(world, row, left.expr);
        let r = value_of(world, row, right.expr);
        let items = seq![l, r];
        let arm = BranchArmView {
            when: operators::binary_of(BinaryOp::Eq, left.expr, right.expr),
            value: operators::null_constant(left.scalar_type),
        };
        let arms = seq![arm];
        assert(value_of(world, row, arm.when) == known(l, r, l == r));
        assert(value_of(world, row, arm.value) is Null);
        lemma_branched(world, row, arms, l);
        let conditions = Seq::new(arms.len(), |i: int| value_of(world, row, arms[i].when));
        let results = Seq::new(arms.len(), |i: int| value_of(world, row, arms[i].value));
        assert(conditions[0] == value_of(world, row, arm.when));
        assert(results[0] is Null);
        assert(first_case(None, conditions, results, l, 1) == l);
        assert(made.expr == ExprView::Branch { arms, otherwise: Box::new(left.expr) });
        assert(v == branched(world, row, arms, l));
        assert(call_means(called(function), items, v));
        assert forall|i: int| 0 <= i < tree::list(arguments).len() implies means(
            around,
            compiler,
            world,
            row,
            lowering::argument_expression(tree::list(arguments)[i]),
            #[trigger] items[i],
        ) by {
            if i == 0 {
                assert(items[0] == l);
            } else {
                assert(items[1] == r);
            }
        }
        reveal(means);
    }
}

proof fn lemma_matching(
    world: World,
    row: Row,
    given: Row,
    value: CompiledExprView,
    query: LoweredQueryView,
)
    ensures
        gives(
            world,
            row,
            RelationView::Filter {
                input: Box::new(query.relation),
                predicate: operators::binary_of(
                    BinaryOp::Eq,
                    value.expr,
                    operators::column_of(query.scope, query.columns[0].row_field()),
                ),
            },
            given,
        ) == (gives(world, row, query.relation, given) && is_found(
            value_of(world, within(row, given), value.expr),
            read(within(row, given), query.scope, query.columns[0].row_field()),
        )),
{
    let over = within(row, given);
    let column = operators::column_of(query.scope, query.columns[0].row_field());
    let predicate = operators::binary_of(BinaryOp::Eq, value.expr, column);
    assert(value_of(world, over, column) == read(
        over,
        query.scope,
        query.columns[0].row_field(),
    ));
    assert(value_of(world, over, predicate) == operated(
        world,
        BinaryOp::Eq,
        value_of(world, over, value.expr),
        value_of(world, over, column),
    ));
}

proof fn lemma_membership(
    world: World,
    row: Row,
    value: CompiledExprView,
    query: LoweredQueryView,
    asked: bool,
)
    requires
        lowering::membership(value, query, asked) is Ok,
    ensures
        value_of(world, row, lowering::membership(value, query, asked)->Ok_0.expr) == Val::Truth(
            (exists|given: Row|
                #[trigger] candidate(given) && gives(world, row, query.relation, given) && is_found(
                    value_of(world, within(row, given), value.expr),
                    read(within(row, given), query.scope, query.columns[0].row_field()),
                )) != asked,
        ),
{
    let matching = RelationView::Filter {
        input: Box::new(query.relation),
        predicate: operators::binary_of(
            BinaryOp::Eq,
            value.expr,
            operators::column_of(query.scope, query.columns[0].row_field()),
        ),
    };
    let found = ExprView::Exists(Box::new(matching));
    assert forall|given: Row|
        #[trigger] candidate(given) implies gives(world, row, matching, given) == (gives(world, row, query.relation, given)
            && is_found(
            value_of(world, within(row, given), value.expr),
            read(within(row, given), query.scope, query.columns[0].row_field()),
        )) by {
        lemma_matching(world, row, given, value, query);
    }
    assert(value_of(world, row, found) == Val::Truth(
        exists|given: Row|
                #[trigger] candidate(given) && gives(world, row, matching, given),
    ));
    assert(lowering::membership(value, query, asked)->Ok_0.expr == operators::negated_if(
        asked,
        found,
    ));
}

proof fn lemma_existence(world: World, row: Row, query: LoweredQueryView, asked: bool)
    ensures
        value_of(world, row, lowering::existence(query, asked).expr) == Val::Truth(
            (exists|given: Row|
                #[trigger] candidate(given) && gives(world, row, query.relation, given)) != asked,
        ),
{
    let found = ExprView::Exists(Box::new(query.relation));
    assert(value_of(world, row, found) == Val::Truth(
        exists|given: Row|
                #[trigger] candidate(given) && gives(world, row, query.relation, given),
    ));
}

proof fn lemma_queried(
    around: Surroundings,
    state: State,
    compiler: ExpressionCompilerView,
    world: World,
    row: Row,
    e: TreeView,
    expected: Option<ScalarType>,
)
    requires
        !tree::is(e, "Identifier"@),
        !lowering::is_qualified_column(e),
        !tree::is(e, "Value"@),
        !tree::is(e, "BinaryOp"@),
        !tree::is(e, "UnaryOp"@),
        !tree::is(e, "IsNull"@),
        !tree::is(e, "IsNotNull"@),
        !tree::is(e, "IsTrue"@),
        !tree::is(e, "IsNotTrue"@),
        !tree::is(e, "IsFalse"@),
        !tree::is(e, "IsNotFalse"@),
        !tree::is(e, "Nested"@),
        !tree::is(e, "Cast"@),
        !tree::is(e, "InList"@),
        !tree::is(e, "Between"@),
        !tree::is(e, "Like"@),
        !tree::is(e, "ILike"@),
        !tree::is(e, "Case"@),
        !tree::is(e, "Function"@),
        lowering::compiled_syntax(around, state, compiler, e, expected) is Ok,
    ensures
        means(
            around,
            compiler,
            world,
            row,
            e,
            value_of(
                world,
                row,
                lowering::compiled_syntax(around, state, compiler, e, expected)->Ok_0.0.expr,
            ),
        ),
{
    if tree::is(e, "Exists"@) {
        let test = tree::at(e, "Exists"@);
        let inner = tree::at(test, "subquery"@);
        let query = lowering::lowered(around, state, inner, compiler.env)->Ok_0.0;
        assert(query_stands_for(around, compiler, inner, query));
        lemma_existence(world, row, query, tree::flag(tree::at(test, "negated"@)));
        reveal(means);
    } else if tree::is(e, "Subquery"@) {
        let inner = tree::at(e, "Subquery"@);
        let query = lowering::lowered(around, state, inner, compiler.env)->Ok_0.0;
        assert(query_stands_for(around, compiler, inner, query));
        reveal(means);
    } else {
        let test = tree::at(e, "InSubquery"@);
        let left = tree::at(test, "expr"@);
        let inner = tree::at(test, "subquery"@);
        let (value, after) = compiled(around, state, compiler, left, None)->Ok_0;
        let query = lowering::lowered(around, after, inner, compiler.env)->Ok_0.0;
        assert(stands_for(around, compiler, left, value));
        assert(query_stands_for(around, compiler, inner, query));
        lemma_membership(world, row, value, query, tree::flag(tree::at(test, "negated"@)));
        reveal(means);
    }
}

} // verus!
