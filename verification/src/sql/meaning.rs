//! What relational expressions and relations compute.
//!
//! Expressions are evaluated over a row, relations as the rows that they give.
//! How values are ordered, added and converted is left open, so that what is
//! said here holds however that is done.

use vstd::prelude::*;

use crate::sql::lir::{
    AggregateFunction, BinaryOp, BranchArmView, ExprView, JoinKind, Kind, LiteralView,
    ProjectFieldView, RawScalarView, RelationView, RowsColumnView, SetQuantifier, TextComparison,
    TextMatchPartView, UnaryOp,
};

verus! {

/// A value.
pub enum Val {
    Null,
    Truth(bool),
    Number(int),
    Text(Seq<char>),
}

/// A stored record: its columns by name.
pub type Record = Map<Seq<char>, Val>;

/// A row: its columns by scope and name.
pub type Row = Map<(Seq<char>, Seq<char>), Val>;

/// What evaluation leaves open: the order of values, arithmetic, conversion, how
/// numbers are read and characters folded, what is stored and bound, and which rows
/// relations give whose rows depend on one another.
pub struct World {
    pub less: spec_fn(Val, Val) -> bool,
    pub plus: spec_fn(Val, Val) -> Val,
    pub minus: spec_fn(Val, Val) -> Val,
    pub times: spec_fn(Val, Val) -> Val,
    pub over: spec_fn(Val, Val) -> Val,
    pub negative: spec_fn(Val) -> Val,
    pub converted: spec_fn(Val, Kind) -> Val,
    pub number: spec_fn(Seq<char>, Option<Kind>) -> Val,
    pub folded: spec_fn(char) -> char,
    pub stored: spec_fn(Seq<char>, Record) -> bool,
    pub bound: spec_fn(Seq<char>, Record) -> bool,
    pub only: spec_fn(RelationView, Row) -> Val,
    pub gathered: spec_fn(ExprView, Row) -> Val,
    pub grouped: spec_fn(RelationView, Row, Row) -> bool,
}

// ---- truth ----

/// Whether a value is true; null is not.
pub open spec fn is_true(value: Val) -> bool {
    value == Val::Truth(true)
}

/// What holds of two values, where both are known; null where one is not.
pub open spec fn known(left: Val, right: Val, holds: bool) -> Val {
    if left is Null || right is Null {
        Val::Null
    } else {
        Val::Truth(holds)
    }
}

/// A result of two values, where both are known; null where one is not.
pub open spec fn computed(left: Val, right: Val, result: Val) -> Val {
    if left is Null || right is Null {
        Val::Null
    } else {
        result
    }
}

/// The opposite of a truth value; null where it is not known.
pub open spec fn opposite(value: Val) -> Val {
    match value {
        Val::Truth(truth) => Val::Truth(!truth),
        _ => Val::Null,
    }
}

/// Whether both hold; false where one is known not to.
pub open spec fn both(left: Val, right: Val) -> Val {
    if left == Val::Truth(false) || right == Val::Truth(false) {
        Val::Truth(false)
    } else if is_true(left) && is_true(right) {
        Val::Truth(true)
    } else {
        Val::Null
    }
}

/// Whether one of two holds; true where one is known to.
pub open spec fn either(left: Val, right: Val) -> Val {
    if is_true(left) || is_true(right) {
        Val::Truth(true)
    } else if left == Val::Truth(false) && right == Val::Truth(false) {
        Val::Truth(false)
    } else {
        Val::Null
    }
}

/// Whether one of some holds; true where one is known to.
pub open spec fn some_of(values: Seq<Val>) -> Val {
    if exists|i: int| 0 <= i < values.len() && is_true(#[trigger] values[i]) {
        Val::Truth(true)
    } else if forall|i: int| 0 <= i < values.len() ==> #[trigger] values[i] == Val::Truth(false) {
        Val::Truth(false)
    } else {
        Val::Null
    }
}

// ---- texts ----

/// Whether two characters are the same, as a pattern compares them.
pub open spec fn same_character(world: World, comparison: TextComparison, a: char, b: char) -> bool {
    match comparison {
        TextComparison::Exact => a == b,
        TextComparison::UnicodeSimpleFold => (world.folded)(a) == (world.folded)(b),
    }
}

/// Whether two texts are the same, as a pattern compares them.
pub open spec fn same_characters(
    world: World,
    comparison: TextComparison,
    left: Seq<char>,
    right: Seq<char>,
) -> bool {
    left.len() == right.len() && forall|i: int|
        0 <= i < left.len() ==> same_character(world, comparison, #[trigger] left[i], right[i])
}

/// Whether a part of a pattern matches a text.
pub open spec fn part_matches(
    world: World,
    comparison: TextComparison,
    part: TextMatchPartView,
    text: Seq<char>,
) -> bool {
    match part {
        TextMatchPartView::Literal(literal) => same_characters(world, comparison, literal, text),
        TextMatchPartView::AnyMany => true,
    }
}

/// Whether the parts of a pattern match a text, one after the other.
pub open spec fn parts_match(
    world: World,
    comparison: TextComparison,
    parts: Seq<TextMatchPartView>,
    text: Seq<char>,
) -> bool
    decreases parts.len(),
{
    if parts.len() == 0 {
        text.len() == 0
    } else {
        exists|k: int|
            0 <= k <= text.len() && parts_match(
                world,
                comparison,
                parts.drop_last(),
                #[trigger] text.take(k),
            ) && part_matches(world, comparison, parts.last(), text.skip(k))
    }
}

// ---- expressions ----

/// A column of a row; null where the row has none.
pub open spec fn read(row: Row, scope: Seq<char>, name: Seq<char>) -> Val {
    if row.contains_key((scope, name)) {
        row[(scope, name)]
    } else {
        Val::Null
    }
}

/// A row inside another, whose columns it can read too.
pub open spec fn within(outer: Row, row: Row) -> Row {
    outer.union_prefer_right(row)
}

/// Whether a row can be tried: all can.
pub open spec fn candidate(row: Row) -> bool {
    true
}

/// A constant.
pub open spec fn constant(world: World, literal: LiteralView) -> Val {
    match literal.raw {
        RawScalarView::Null => Val::Null,
        RawScalarView::Bool(value) => Val::Truth(value),
        RawScalarView::Text(text) => Val::Text(text),
        RawScalarView::Number(digits) => (world.number)(digits, literal.kind),
    }
}

/// Two values under an operator.
pub open spec fn operated(world: World, op: BinaryOp, left: Val, right: Val) -> Val {
    match op {
        BinaryOp::Eq => known(left, right, left == right),
        BinaryOp::Ne => known(left, right, left != right),
        BinaryOp::Lt => known(left, right, (world.less)(left, right)),
        BinaryOp::Lte => known(left, right, !(world.less)(right, left)),
        BinaryOp::Gt => known(left, right, (world.less)(right, left)),
        BinaryOp::Gte => known(left, right, !(world.less)(left, right)),
        BinaryOp::And => both(left, right),
        BinaryOp::Or => either(left, right),
        BinaryOp::Add => computed(left, right, (world.plus)(left, right)),
        BinaryOp::Sub => computed(left, right, (world.minus)(left, right)),
        BinaryOp::Mul => computed(left, right, (world.times)(left, right)),
        BinaryOp::Div => computed(left, right, (world.over)(left, right)),
    }
}

/// A value under an operator.
pub open spec fn operated_alone(world: World, op: UnaryOp, value: Val) -> Val {
    match op {
        UnaryOp::Not => opposite(value),
        UnaryOp::Negate => if value is Null {
            Val::Null
        } else {
            (world.negative)(value)
        },
        UnaryOp::IsNull => Val::Truth(value is Null),
        UnaryOp::IsNotNull => Val::Truth(!(value is Null)),
    }
}

/// The value of an expression over a row.
pub open spec fn value_of(world: World, row: Row, expression: ExprView) -> Val
    decreases expression,
{
    match expression {
        ExprView::Literal(literal) => constant(world, literal),
        ExprView::Column { scope, name } => read(row, scope, name),
        ExprView::Unary { op, expression } => operated_alone(
            world,
            op,
            value_of(world, row, *expression),
        ),
        ExprView::Binary { op, left, right } => operated(
            world,
            op,
            value_of(world, row, *left),
            value_of(world, row, *right),
        ),
        ExprView::Cast { expression, to } => (world.converted)(
            value_of(world, row, *expression),
            to,
        ),
        ExprView::Branch { arms, otherwise } => branched(
            world,
            row,
            arms,
            value_of(world, row, *otherwise),
        ),
        ExprView::TextMatch { value, parts, comparison } => match value_of(world, row, *value) {
            Val::Text(text) => Val::Truth(parts_match(world, comparison, parts, text)),
            _ => Val::Null,
        },
        ExprView::Exists(relation) => Val::Truth(
            exists|inner: Row|
                #[trigger] candidate(inner) && gives(world, row, *relation, inner),
        ),
        ExprView::Scalar(relation) => (world.only)(*relation, row),
        _ => (world.gathered)(expression, row),
    }
}

/// The value of the last arm but those before it: of the first arm whose condition
/// is true, or of none.
pub open spec fn branched(
    world: World,
    row: Row,
    arms: Seq<BranchArmView>,
    otherwise: Val,
) -> Val
    decreases arms,
{
    if arms.len() == 0 {
        otherwise
    } else {
        let last = arms.last();
        branched(
            world,
            row,
            arms.drop_last(),
            if is_true(value_of(world, row, last.when)) {
                value_of(world, row, last.value)
            } else {
                otherwise
            },
        )
    }
}

// ---- relations ----

/// A record as a row of a scope.
pub open spec fn in_scope(scope: Seq<char>, record: Record) -> Row {
    Map::new(
        |key: (Seq<char>, Seq<char>)| key.0 == scope && record.contains_key(key.1),
        |key: (Seq<char>, Seq<char>)| record[key.1],
    )
}

/// The columns of a row in one scope, by name.
pub open spec fn record_of(row: Row, scope: Seq<char>) -> Record {
    Map::new(
        |name: Seq<char>| row.contains_key((scope, name)),
        |name: Seq<char>| row[(scope, name)],
    )
}

/// Whether a row holds what the fields of a projection compute, each under its
/// name.
pub open spec fn holds_fields(
    world: World,
    over: Row,
    scope: Seq<char>,
    fields: Seq<ProjectFieldView>,
    row: Row,
) -> bool
    decreases fields,
{
    fields.len() == 0 || {
        &&& holds_fields(world, over, scope, fields.drop_last(), row)
        &&& row.contains_key((scope, fields.last().name))
        &&& row[(scope, fields.last().name)] == value_of(world, over, fields.last().expression)
    }
}

/// Whether a relation gives a row, inside an outer row.
pub open spec fn gives(world: World, outer: Row, relation: RelationView, row: Row) -> bool
    decreases relation,
{
    match relation {
        RelationView::Scan { table, scope } => exists|record: Record|
            #[trigger] (world.stored)(table, record) && row == in_scope(scope, record),
        RelationView::Rows { scope, columns, values } => exists|cells: Seq<RawScalarView>|
            #[trigger] values.contains(cells) && row == in_scope(
                scope,
                constants(world, columns, cells),
            ),
        RelationView::Ref { binding, scope } => exists|record: Record|
            #[trigger] (world.bound)(binding, record) && row == in_scope(scope, record),
        RelationView::RecursiveRef { binding, scope } => exists|record: Record|
            #[trigger] (world.bound)(binding, record) && row == in_scope(scope, record),
        RelationView::Filter { input, predicate } => gives(world, outer, *input, row) && is_true(
            value_of(world, within(outer, row), predicate),
        ),
        RelationView::Project { input, scope, spread, fields } => exists|source: Row|
            #[trigger] candidate(source) && gives(world, outer, *input, source) && holds_fields(
                world,
                within(outer, source),
                label_of(scope),
                fields,
                row,
            ) && forall|key: (Seq<char>, Seq<char>)|
                #[trigger] row.contains_key(key) <==> (key.0 == label_of(scope) && names_field(
                    fields,
                    key.1,
                )) || (spread.contains(key.0) && source.contains_key(key)),
        RelationView::Join { left, right, kind, on } => {
            ||| exists|first: Row, second: Row|
                #[trigger] candidate(first) && #[trigger] candidate(second) && gives(
                    world,
                    outer,
                    *left,
                    first,
                ) && gives(world, outer, *right, second) && row == within(first, second)
                    && is_true(value_of(world, within(outer, within(first, second)), on))
            ||| kind == JoinKind::Left && gives(world, outer, *left, row) && !(exists|second: Row|
                #[trigger] candidate(second) && gives(world, outer, *right, second) && is_true(
                    value_of(world, within(outer, within(row, second)), on),
                ))
        },
        RelationView::Concatenate { scope, inputs } => exists|source: Row|
            #[trigger] candidate(source) && one_gives(world, outer, inputs, source) && is_moved(
                source,
                scope,
                row,
            ),
        RelationView::Intersect { scope, left, right, .. } => (exists|source: Row|
            #[trigger] candidate(source) && gives(world, outer, *left, source) && is_moved(
                source,
                scope,
                row,
            )) && (exists|source: Row|
            #[trigger] candidate(source) && gives(world, outer, *right, source) && is_moved(
                source,
                scope,
                row,
            )),
        RelationView::Except { scope, left, right, quantifier: SetQuantifier::Distinct } => (exists|
            source: Row,
        |
            #[trigger] candidate(source) && gives(world, outer, *left, source) && is_moved(
                source,
                scope,
                row,
            )) && !(exists|source: Row|
            #[trigger] candidate(source) && gives(world, outer, *right, source) && is_moved(
                source,
                scope,
                row,
            )),
        RelationView::Order { input, .. } => gives(world, outer, *input, row),
        RelationView::Distinct(input) => gives(world, outer, *input, row),
        _ => (world.grouped)(relation, outer, row),
    }
}

/// Whether one of some relations gives a row, inside an outer row.
pub open spec fn one_gives(world: World, outer: Row, relations: Seq<RelationView>, row: Row) -> bool
    decreases relations,
{
    relations.len() > 0 && (one_gives(world, outer, relations.drop_last(), row) || gives(
        world,
        outer,
        relations.last(),
        row,
    ))
}

/// Whether a row is another with all its columns in one scope.
pub open spec fn is_moved(source: Row, scope: Seq<char>, row: Row) -> bool {
    &&& forall|key: (Seq<char>, Seq<char>)| #[trigger]
        row.contains_key(key) ==> key.0 == scope && exists|from: Seq<char>|
            #[trigger] source.contains_key((from, key.1)) && source[(from, key.1)] == row[key]
    &&& forall|from: Seq<char>, name: Seq<char>| #[trigger]
        source.contains_key((from, name)) ==> row.contains_key((scope, name))
}

/// The scope of a projection; one that names none has the empty name.
pub open spec fn label_of(scope: Option<Seq<char>>) -> Seq<char> {
    match scope {
        Some(scope) => scope,
        None => Seq::empty(),
    }
}

/// Whether some fields name one.
pub open spec fn names_field(fields: Seq<ProjectFieldView>, name: Seq<char>) -> bool {
    exists|i: int| 0 <= i < fields.len() && (#[trigger] fields[i]).name == name
}

/// A row of constants.
pub open spec fn constants(
    world: World,
    columns: Seq<RowsColumnView>,
    values: Seq<RawScalarView>,
) -> Record
    decreases columns.len(),
{
    if columns.len() == 0 {
        Map::empty()
    } else {
        constants(world, columns.drop_last(), values).insert(
            columns.last().name,
            constant(
                world,
                LiteralView {
                    raw: values[columns.len() - 1],
                    kind: Some(columns.last().kind),
                },
            ),
        )
    }
}

// ---- aggregates ----

/// The values of some that are not null.
pub open spec fn present(values: Seq<Val>) -> Seq<Val>
    decreases values.len(),
{
    if values.len() == 0 {
        Seq::empty()
    } else if values.last() is Null {
        present(values.drop_last())
    } else {
        present(values.drop_last()).push(values.last())
    }
}

/// The sum of values that are not null.
pub open spec fn total(world: World, values: Seq<Val>) -> Val
    decreases values.len(),
{
    if values.len() <= 1 {
        values[0]
    } else {
        (world.plus)(total(world, values.drop_last()), values.last())
    }
}

/// Whether a value is what an aggregate function makes of the values of a group:
/// how many are there, their sum, their mean, one that none is less than, or one
/// that is less than none. Nulls count for nothing; of no values all but the count
/// are null.
pub open spec fn aggregates_to(
    world: World,
    function: AggregateFunction,
    values: Seq<Val>,
    result: Val,
) -> bool {
    let all = present(values);
    match function {
        AggregateFunction::Count => result == Val::Number(all.len() as int),
        _ => if all.len() == 0 {
            result is Null
        } else {
            match function {
                AggregateFunction::Sum => result == total(world, all),
                AggregateFunction::Average => result == (world.over)(
                    total(world, all),
                    Val::Number(all.len() as int),
                ),
                AggregateFunction::Min => all.contains(result) && forall|i: int|
                    0 <= i < all.len() ==> !(world.less)(#[trigger] all[i], result),
                _ => all.contains(result) && forall|i: int|
                    0 <= i < all.len() ==> !(world.less)(result, #[trigger] all[i]),
            }
        },
    }
}

} // verus!
