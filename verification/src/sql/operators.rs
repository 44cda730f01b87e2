//! Operators, folded predicates and text patterns.

use vstd::prelude::*;

use crate::sql::lir;
use crate::sql::lir::{
    BinaryOp, Expr, ExprView, Kind, Literal, LiteralView, RawScalar, RawScalarView, ScalarType,
    TextMatchPart, TextMatchPartView, UnaryOp,
};
use crate::sql::literals;
use crate::sql::literals::type_text;
use crate::sql::syntax;
use crate::sql::tree;
use crate::sql::tree::{Tree, TreeView};
use crate::sql::types::{Error, ErrorView};
use crate::text::{characters, join3, join4};

verus! {

broadcast use lir::group_lir_views;

/// A column of a scope.
pub open spec fn column_of(scope: Seq<char>, name: Seq<char>) -> ExprView {
    ExprView::Column { scope, name }
}

/// A column of a scope.
pub fn column_expr(scope: &str, name: &str) -> (result: Expr)
    ensures
        result@ == column_of(scope@, name@),
{
    Expr::Column { scope: scope.to_owned(), name: name.to_owned() }
}

/// Two operands under an operator.
pub open spec fn binary_of(op: BinaryOp, left: ExprView, right: ExprView) -> ExprView {
    ExprView::Binary { op, left: Box::new(left), right: Box::new(right) }
}

/// Two operands under an operator.
pub fn binary(op: BinaryOp, left: Expr, right: Expr) -> (result: Expr)
    ensures
        result@ == binary_of(op, left@, right@),
{
    Expr::Binary { op, left: Box::new(left), right: Box::new(right) }
}

/// One operand under an operator.
pub open spec fn unary_of(op: UnaryOp, expression: ExprView) -> ExprView {
    ExprView::Unary { op, expression: Box::new(expression) }
}

/// One operand under an operator.
pub fn unary(op: UnaryOp, expression: Expr) -> (result: Expr)
    ensures
        result@ == unary_of(op, expression@),
{
    Expr::Unary { op, expression: Box::new(expression) }
}

/// An expression, negated where that is asked for.
pub open spec fn negated_if(negated: bool, expression: ExprView) -> ExprView {
    if negated {
        unary_of(UnaryOp::Not, expression)
    } else {
        expression
    }
}

/// An expression, negated where that is asked for.
pub fn negate_if(negated: bool, expression: Expr) -> (result: Expr)
    ensures
        result@ == negated_if(negated, expression@),
{
    if negated {
        unary(UnaryOp::Not, expression)
    } else {
        expression
    }
}

/// A boolean constant.
pub open spec fn bool_constant(value: bool) -> ExprView {
    ExprView::Literal(LiteralView { raw: RawScalarView::Bool(value), kind: Some(Kind::Bool) })
}

/// A boolean constant.
pub fn bool_literal(value: bool) -> (result: Expr)
    ensures
        result@ == bool_constant(value),
{
    Expr::Literal(Literal { raw: RawScalar::Bool(value), kind: Some(Kind::Bool) })
}

/// A null of a type.
pub open spec fn null_constant(scalar_type: ScalarType) -> ExprView {
    ExprView::Literal(
        LiteralView { raw: RawScalarView::Null, kind: Some(lir::kind_of(scalar_type)) },
    )
}

/// A null of a type.
pub fn null_literal(scalar_type: ScalarType) -> (result: Expr)
    ensures
        result@ == null_constant(scalar_type),
{
    Expr::Literal(Literal { raw: RawScalar::Null, kind: Some(Kind::of(scalar_type)) })
}

/// Equality of a column in two scopes that also holds between nulls.
pub open spec fn null_safe_equal(
    left_scope: Seq<char>,
    right_scope: Seq<char>,
    name: Seq<char>,
) -> ExprView {
    let left = column_of(left_scope, name);
    let right = column_of(right_scope, name);
    binary_of(
        BinaryOp::Or,
        binary_of(BinaryOp::Eq, left, right),
        binary_of(
            BinaryOp::And,
            unary_of(UnaryOp::IsNull, left),
            unary_of(UnaryOp::IsNull, right),
        ),
    )
}

/// Equality of a column in two scopes that also holds between nulls.
pub fn null_safe_equality(left_scope: &str, right_scope: &str, name: &str) -> (result: Expr)
    ensures
        result@ == null_safe_equal(left_scope@, right_scope@, name@),
{
    binary(
        BinaryOp::Or,
        binary(BinaryOp::Eq, column_expr(left_scope, name), column_expr(right_scope, name)),
        binary(
            BinaryOp::And,
            unary(UnaryOp::IsNull, column_expr(left_scope, name)),
            unary(UnaryOp::IsNull, column_expr(right_scope, name)),
        ),
    )
}

/// The operator that a binary operator lowers to; none where it has none.
pub open spec fn lowered_operator(operator: TreeView) -> Option<BinaryOp> {
    if tree::is(operator, "Eq"@) {
        Some(BinaryOp::Eq)
    } else if tree::is(operator, "NotEq"@) {
        Some(BinaryOp::Ne)
    } else if tree::is(operator, "Lt"@) {
        Some(BinaryOp::Lt)
    } else if tree::is(operator, "LtEq"@) {
        Some(BinaryOp::Lte)
    } else if tree::is(operator, "Gt"@) {
        Some(BinaryOp::Gt)
    } else if tree::is(operator, "GtEq"@) {
        Some(BinaryOp::Gte)
    } else if tree::is(operator, "And"@) {
        Some(BinaryOp::And)
    } else if tree::is(operator, "Or"@) {
        Some(BinaryOp::Or)
    } else if tree::is(operator, "Plus"@) {
        Some(BinaryOp::Add)
    } else if tree::is(operator, "Minus"@) {
        Some(BinaryOp::Sub)
    } else if tree::is(operator, "Multiply"@) {
        Some(BinaryOp::Mul)
    } else if tree::is(operator, "Divide"@) {
        Some(BinaryOp::Div)
    } else {
        None
    }
}

fn lower_operator(operator: &Tree) -> (result: Option<BinaryOp>)
    ensures
        result == lowered_operator(operator@),
{
    if operator.is("Eq") {
        Some(BinaryOp::Eq)
    } else if operator.is("NotEq") {
        Some(BinaryOp::Ne)
    } else if operator.is("Lt") {
        Some(BinaryOp::Lt)
    } else if operator.is("LtEq") {
        Some(BinaryOp::Lte)
    } else if operator.is("Gt") {
        Some(BinaryOp::Gt)
    } else if operator.is("GtEq") {
        Some(BinaryOp::Gte)
    } else if operator.is("And") {
        Some(BinaryOp::And)
    } else if operator.is("Or") {
        Some(BinaryOp::Or)
    } else if operator.is("Plus") {
        Some(BinaryOp::Add)
    } else if operator.is("Minus") {
        Some(BinaryOp::Sub)
    } else if operator.is("Multiply") {
        Some(BinaryOp::Mul)
    } else if operator.is("Divide") {
        Some(BinaryOp::Div)
    } else {
        None
    }
}

/// Whether an operator compares.
pub open spec fn compares(op: BinaryOp) -> bool {
    op == BinaryOp::Eq || op == BinaryOp::Ne || op == BinaryOp::Lt || op == BinaryOp::Lte || op
        == BinaryOp::Gt || op == BinaryOp::Gte
}

/// Whether an operator combines truth values.
pub open spec fn combines(op: BinaryOp) -> bool {
    op == BinaryOp::And || op == BinaryOp::Or
}

/// Whether a type is numeric.
pub open spec fn is_numeric(scalar_type: ScalarType) -> bool {
    scalar_type == ScalarType::Int64 || scalar_type == ScalarType::Float64
}

/// The type of an operation on two types: comparisons need equal types, logic
/// needs booleans, and arithmetic needs numbers and widens to floats.
pub open spec fn operation_type(op: BinaryOp, left: ScalarType, right: ScalarType) -> Result<
    ScalarType,
    ErrorView,
> {
    if compares(op) {
        if left != right {
            Err(
                ErrorView::Invalid(
                    "cannot compare "@ + literals::type_label(left) + " with "@
                        + literals::type_label(right),
                ),
            )
        } else {
            Ok(ScalarType::Bool)
        }
    } else if combines(op) {
        if left != ScalarType::Bool || right != ScalarType::Bool {
            Err(ErrorView::Invalid("AND/OR operands must be boolean"@))
        } else {
            Ok(ScalarType::Bool)
        }
    } else if !is_numeric(left) || !is_numeric(right) {
        Err(ErrorView::Invalid("arithmetic operands must be numeric"@))
    } else if left == ScalarType::Float64 || right == ScalarType::Float64 {
        Ok(ScalarType::Float64)
    } else {
        Ok(ScalarType::Int64)
    }
}

/// The lowered operator with the type of its result.
pub open spec fn operation(operator: TreeView, left: ScalarType, right: ScalarType) -> Result<
    (BinaryOp, ScalarType),
    ErrorView,
> {
    match lowered_operator(operator) {
        None => Err(
            ErrorView::Unsupported(
                "binary operator "@ + syntax::shown_binary_operator(operator)
                    + " is not supported"@,
            ),
        ),
        Some(op) => match operation_type(op, left, right) {
            Ok(scalar_type) => Ok((op, scalar_type)),
            Err(error) => Err(error),
        },
    }
}

/// The lowered operator with the type of its result.
pub fn binary_operator(operator: &Tree, left: ScalarType, right: ScalarType) -> (result: Result<
    (BinaryOp, ScalarType),
    Error,
>)
    ensures
        operation(operator@, left, right) == (match result {
            Ok(found) => Ok(found),
            Err(error) => Err(error@),
        }),
{
    let op = match lower_operator(operator) {
        Some(op) => op,
        None => {
            let shown = syntax::show_binary_operator(operator);
            return Err(
                Error::Unsupported(
                    join3("binary operator ", shown.as_str(), " is not supported"),
                ),
            );
        },
    };
    let scalar_type = match op {
        BinaryOp::Eq
        | BinaryOp::Ne
        | BinaryOp::Lt
        | BinaryOp::Lte
        | BinaryOp::Gt
        | BinaryOp::Gte => {
            if left != right {
                return Err(
                    Error::Invalid(
                        join4("cannot compare ", type_text(left), " with ", type_text(right)),
                    ),
                );
            }
            ScalarType::Bool
        },
        BinaryOp::And | BinaryOp::Or => {
            if left != ScalarType::Bool || right != ScalarType::Bool {
                return Err(Error::Invalid("AND/OR operands must be boolean".to_owned()));
            }
            ScalarType::Bool
        },
        BinaryOp::Add | BinaryOp::Sub | BinaryOp::Mul | BinaryOp::Div => {
            let left_numeric = left == ScalarType::Int64 || left == ScalarType::Float64;
            let right_numeric = right == ScalarType::Int64 || right == ScalarType::Float64;
            if !left_numeric || !right_numeric {
                return Err(Error::Invalid("arithmetic operands must be numeric".to_owned()));
            }
            if left == ScalarType::Float64 || right == ScalarType::Float64 {
                ScalarType::Float64
            } else {
                ScalarType::Int64
            }
        },
    };
    Ok((op, scalar_type))
}

/// One level of a fold: neighbours paired under the operator, an odd last one
/// left alone.
pub open spec fn paired(expressions: Seq<ExprView>, op: BinaryOp) -> Seq<ExprView> {
    Seq::new(
        (expressions.len() + 1) / 2,
        |i: int|
            if 2 * i + 1 < expressions.len() {
                binary_of(op, expressions[2 * i], expressions[2 * i + 1])
            } else {
                expressions[2 * i]
            },
    )
}

/// Expressions under one operator, as a balanced tree.
pub open spec fn balanced(expressions: Seq<ExprView>, op: BinaryOp) -> ExprView
    recommends
        expressions.len() > 0,
    decreases expressions.len(),
{
    if expressions.len() <= 1 {
        expressions[0]
    } else {
        balanced(paired(expressions, op), op)
    }
}

/// Expressions under one operator; there must be some.
pub open spec fn folded(expressions: Seq<ExprView>, op: BinaryOp) -> Result<ExprView, ErrorView> {
    if expressions.len() == 0 {
        Err(ErrorView::Invalid("expression list must not be empty"@))
    } else {
        Ok(balanced(expressions, op))
    }
}

/// The view of a fallible expression.
pub open spec fn expr_result(result: Result<Expr, Error>) -> Result<ExprView, ErrorView> {
    match result {
        Ok(value) => Ok(value@),
        Err(error) => Err(error@),
    }
}

fn pair_level(expressions: Vec<Expr>, op: BinaryOp) -> (level: Vec<Expr>)
    requires
        expressions.len() > 0,
    ensures
        lir::exprs_view(level@) == paired(lir::exprs_view(expressions@), op),
{
    let ghost all = lir::exprs_view(expressions@);
    let mut rest = expressions;
    let mut reversed: Vec<Expr> = Vec::new();
    if rest.len() % 2 == 1 {
        match rest.pop() {
            Some(last) => {
                reversed.push(last);
            },
            None => {},
        }
    }
    let ghost pairs = paired(all, op);
    while rest.len() > 0
        invariant
            pairs == paired(all, op),
            rest.len() % 2 == 0,
            rest.len() <= all.len(),
            lir::exprs_view(rest@) == all.take(rest.len() as int),
            reversed.len() + rest.len() / 2 == pairs.len(),
            forall|k: int|
                0 <= k < reversed.len() ==> (#[trigger] reversed@[k])@ == pairs[pairs.len() - 1 - k],
        decreases rest.len(),
    {
        let ghost view = lir::exprs_view(rest@);
        let ghost size = rest.len();
        let right = rest.pop();
        let left = rest.pop();
        match (left, right) {
            (Some(left), Some(right)) => {
                proof {
                    assert(right@ == view[size - 1]);
                    assert(left@ == view[size - 2]);
                    assert(view[size - 1] == all[size - 1]);
                    assert(view[size - 2] == all[size - 2]);
                }
                reversed.push(binary(op, left, right));
                assert(lir::exprs_view(rest@) =~= all.take(rest.len() as int));
            },
            _ => {},
        }
    }
    let mut level: Vec<Expr> = Vec::new();
    while reversed.len() > 0
        invariant
            reversed.len() + level.len() == pairs.len(),
            forall|k: int|
                0 <= k < reversed.len() ==> (#[trigger] reversed@[k])@ == pairs[pairs.len() - 1 - k],
            forall|k: int| 0 <= k < level.len() ==> (#[trigger] level@[k])@ == pairs[k],
        decreases reversed.len(),
    {
        match reversed.pop() {
            Some(expression) => {
                level.push(expression);
            },
            None => {},
        }
    }
    assert(lir::exprs_view(level@) =~= pairs);
    level
}

/// Folds expressions under one operator into a balanced tree.
pub fn fold_binary(expressions: Vec<Expr>, op: BinaryOp) -> (result: Result<Expr, Error>)
    ensures
        expr_result(result) == folded(lir::exprs_view(expressions@), op),
{
    if expressions.len() == 0 {
        return Err(Error::Invalid("expression list must not be empty".to_owned()));
    }
    let ghost all = lir::exprs_view(expressions@);
    let mut level = expressions;
    while level.len() > 1
        invariant
            level.len() > 0,
            balanced(lir::exprs_view(level@), op) == balanced(all, op),
        decreases level.len(),
    {
        level = pair_level(level, op);
    }
    match level.pop() {
        Some(expression) => Ok(expression),
        None => Err(Error::Invalid("expression list must not be empty".to_owned())),
    }
}

/// How often a count can be halved, rounding up, until one is left.
pub open spec fn halvings(count: nat) -> nat
    decreases count,
{
    if count <= 1 {
        0
    } else {
        1 + halvings((count + 1) / 2)
    }
}

/// The depth of an expression in binary operators.
pub open spec fn binary_depth(expression: ExprView) -> nat
    decreases expression,
{
    match expression {
        ExprView::Binary { op, left, right } => {
            let left = binary_depth(*left);
            let right = binary_depth(*right);
            1 + (if left > right {
                left
            } else {
                right
            })
        },
        _ => 1,
    }
}

/// A folded list is balanced: it is deeper than its deepest expression by no
/// more than the halvings of the number of expressions.
pub proof fn fold_is_balanced(expressions: Seq<ExprView>, op: BinaryOp, depth: nat)
    requires
        expressions.len() > 0,
        forall|i: int| 0 <= i < expressions.len() ==> binary_depth(#[trigger] expressions[i]) <= depth,
    ensures
        binary_depth(balanced(expressions, op)) <= depth + halvings(expressions.len()),
    decreases expressions.len(),
{
    if expressions.len() > 1 {
        let level = paired(expressions, op);
        assert forall|i: int| 0 <= i < level.len() implies binary_depth(#[trigger] level[i]) <= depth
            + 1 by {
            if 2 * i + 1 < expressions.len() {
                assert(binary_depth(expressions[2 * i]) <= depth);
                assert(binary_depth(expressions[2 * i + 1]) <= depth);
            } else {
                assert(binary_depth(expressions[2 * i]) <= depth);
            }
        }
        fold_is_balanced(level, op, depth + 1);
    }
}

/// A disjunction folded from a list is true exactly when one of the list is.
pub proof fn folded_or_means_any(expressions: Seq<ExprView>, holds: spec_fn(ExprView) -> bool)
    requires
        expressions.len() > 0,
        forall|left: ExprView, right: ExprView|
            #[trigger] holds(binary_of(BinaryOp::Or, left, right)) == (holds(left) || holds(right)),
    ensures
        holds(balanced(expressions, BinaryOp::Or)) <==> exists|i: int|
            0 <= i < expressions.len() && holds(#[trigger] expressions[i]),
    decreases expressions.len(),
{
    if expressions.len() > 1 {
        let level = paired(expressions, BinaryOp::Or);
        folded_or_means_any(level, holds);
        if exists|i: int| 0 <= i < expressions.len() && holds(#[trigger] expressions[i]) {
            let i = choose|i: int| 0 <= i < expressions.len() && holds(#[trigger] expressions[i]);
            assert(holds(level[i / 2]));
        }
        if exists|i: int| 0 <= i < level.len() && holds(#[trigger] level[i]) {
            let i = choose|i: int| 0 <= i < level.len() && holds(#[trigger] level[i]);
            if 2 * i + 1 < expressions.len() {
                assert(holds(expressions[2 * i]) || holds(expressions[2 * i + 1]));
            } else {
                assert(holds(expressions[2 * i]));
            }
        }
    } else if holds(expressions[0]) {
        assert(holds(expressions[0]));
    }
}

/// A conjunction folded from a list is true exactly when all of the list are.
pub proof fn folded_and_means_all(expressions: Seq<ExprView>, holds: spec_fn(ExprView) -> bool)
    requires
        expressions.len() > 0,
        forall|left: ExprView, right: ExprView|
            #[trigger] holds(binary_of(BinaryOp::And, left, right)) == (holds(left) && holds(right)),
    ensures
        holds(balanced(expressions, BinaryOp::And)) <==> forall|i: int|
            0 <= i < expressions.len() ==> holds(#[trigger] expressions[i]),
    decreases expressions.len(),
{
    if expressions.len() > 1 {
        let level = paired(expressions, BinaryOp::And);
        folded_and_means_all(level, holds);
        if forall|i: int| 0 <= i < expressions.len() ==> holds(#[trigger] expressions[i]) {
            assert forall|i: int| 0 <= i < level.len() implies holds(#[trigger] level[i]) by {
                assert(holds(expressions[2 * i]));
                if 2 * i + 1 < expressions.len() {
                    assert(holds(expressions[2 * i + 1]));
                }
            }
        }
        if forall|i: int| 0 <= i < level.len() ==> holds(#[trigger] level[i]) {
            assert forall|i: int| 0 <= i < expressions.len() implies holds(#[trigger] expressions[i]) by {
                assert(holds(level[i / 2]));
            }
        }
    } else if holds(expressions[0]) {
        assert forall|i: int| 0 <= i < expressions.len() implies holds(#[trigger] expressions[i]) by {}
    }
}

/// Parts after a literal text; an empty one adds nothing.
pub open spec fn with_literal(parts: Seq<TextMatchPartView>, literal: Seq<char>) -> Seq<
    TextMatchPartView,
> {
    if literal.len() == 0 {
        parts
    } else {
        parts.push(TextMatchPartView::Literal(literal))
    }
}

/// Parts after a run of any characters; two runs in a row are one.
pub open spec fn with_any(parts: Seq<TextMatchPartView>) -> Seq<TextMatchPartView> {
    if parts.len() > 0 && parts.last() == TextMatchPartView::AnyMany {
        parts
    } else {
        parts.push(TextMatchPartView::AnyMany)
    }
}

/// The rest of a pattern, after the parts and the literal text read so far.
pub open spec fn pattern_parts(
    pattern: Seq<char>,
    escape: Option<char>,
    parts: Seq<TextMatchPartView>,
    literal: Seq<char>,
) -> Result<Seq<TextMatchPartView>, ErrorView>
    decreases pattern.len(),
{
    if pattern.len() == 0 {
        let parts = with_literal(parts, literal);
        if parts.len() == 0 {
            Ok(seq![TextMatchPartView::Literal(Seq::empty())])
        } else {
            Ok(parts)
        }
    } else if escape == Some(pattern[0]) {
        if pattern.len() == 1 {
            Err(ErrorView::Invalid("LIKE pattern ends with its escape character"@))
        } else {
            pattern_parts(pattern.skip(2), escape, parts, literal.push(pattern[1]))
        }
    } else if pattern[0] == '%' {
        pattern_parts(pattern.skip(1), escape, with_any(with_literal(parts, literal)), Seq::empty())
    } else if pattern[0] == '_' {
        Err(ErrorView::Unsupported("LIKE '_' needs a one-rune wildcard in LIR"@))
    } else {
        pattern_parts(pattern.skip(1), escape, parts, literal.push(pattern[0]))
    }
}

/// The parts of a LIKE pattern: literal texts, and `%` for any characters. The
/// escape character makes the next one literal.
pub open spec fn like_parts(pattern: Seq<char>, escape: Option<char>) -> Result<
    Seq<TextMatchPartView>,
    ErrorView,
> {
    pattern_parts(pattern, escape, Seq::empty(), Seq::empty())
}

/// The view of fallible pattern parts.
pub open spec fn parts_result(result: Result<Vec<TextMatchPart>, Error>) -> Result<
    Seq<TextMatchPartView>,
    ErrorView,
> {
    match result {
        Ok(parts) => Ok(lir::text_match_parts_view(parts@)),
        Err(error) => Err(error@),
    }
}

/// The parts of a LIKE pattern.
pub fn like_pattern(pattern: &str, escape: Option<char>) -> (result: Result<
    Vec<TextMatchPart>,
    Error,
>)
    ensures
        parts_result(result) == like_parts(pattern@, escape),
{
    let source = characters(pattern);
    let mut parts: Vec<TextMatchPart> = Vec::new();
    let mut literal = String::new();
    let mut i: usize = 0;
    proof {
        assert(source@.skip(0) =~= source@);
        assert(literal@ =~= Seq::empty());
    }
    while i < source.len()
        invariant
            i <= source.len(),
            source@ == pattern@,
            pattern_parts(
                source@.skip(i as int),
                escape,
                lir::text_match_parts_view(parts@),
                literal@,
            ) == like_parts(pattern@, escape),
        decreases source.len() - i,
    {
        let ghost rest = source@.skip(i as int);
        let character = source[i];
        let escaped = match escape {
            Some(escape) => escape == character,
            None => false,
        };
        proof {
            assert(rest[0] == character);
            assert(rest.skip(1) =~= source@.skip(i + 1));
            if rest.len() > 1 {
                assert(rest[1] == source@[i + 1]);
                assert(rest.skip(2) =~= source@.skip(i + 2));
            }
        }
        if escaped {
            if i + 1 >= source.len() {
                return Err(
                    Error::Invalid("LIKE pattern ends with its escape character".to_owned()),
                );
            }
            literal.push(source[i + 1]);
            i += 2;
        } else if character == '%' {
            if literal.as_str().unicode_len() > 0 {
                parts.push(TextMatchPart::Literal(literal));
                literal = String::new();
                assert(literal@ =~= Seq::empty());
            }
            assert(literal@ =~= Seq::empty());
            let ends_with_any = if parts.len() > 0 {
                match parts[parts.len() - 1] {
                    TextMatchPart::AnyMany => true,
                    _ => false,
                }
            } else {
                false
            };
            if !ends_with_any {
                parts.push(TextMatchPart::AnyMany);
            }
            i += 1;
        } else if character == '_' {
            return Err(
                Error::Unsupported("LIKE '_' needs a one-rune wildcard in LIR".to_owned()),
            );
        } else {
            literal.push(character);
            i += 1;
        }
    }
    proof {
        assert(source@.skip(i as int) =~= Seq::empty());
    }
    if literal.as_str().unicode_len() > 0 {
        parts.push(TextMatchPart::Literal(literal));
    }
    if parts.len() == 0 {
        parts.push(TextMatchPart::Literal(String::new()));
        proof {
            assert(lir::text_match_parts_view(parts@) =~= seq![
                TextMatchPartView::Literal(Seq::empty()),
            ]);
        }
    }
    Ok(parts)
}

/// Whether parts are in lowest terms: no two runs of any characters in a row,
/// no two literals in a row, and no empty literal.
pub open spec fn lowest_terms(parts: Seq<TextMatchPartView>) -> bool {
    &&& forall|i: int|
        0 <= i < parts.len() ==> ((#[trigger] parts[i]) matches TextMatchPartView::Literal(value)
            ==> value.len() > 0)
    &&& forall|i: int|
        0 <= i < parts.len() - 1 ==> ((#[trigger] parts[i]) is AnyMany) != (parts[i + 1] is AnyMany)
}

proof fn lemma_pattern_lowest(
    pattern: Seq<char>,
    escape: Option<char>,
    parts: Seq<TextMatchPartView>,
    literal: Seq<char>,
)
    requires
        lowest_terms(parts),
        parts.len() > 0 ==> parts.last() is AnyMany,
        pattern_parts(pattern, escape, parts, literal) is Ok,
    ensures
        ({
            let result = pattern_parts(pattern, escape, parts, literal)->Ok_0;
            result == seq![TextMatchPartView::Literal(Seq::empty())] || lowest_terms(result)
        }),
    decreases pattern.len(),
{
    if pattern.len() == 0 {
    } else if escape == Some(pattern[0]) {
        lemma_pattern_lowest(pattern.skip(2), escape, parts, literal.push(pattern[1]));
    } else if pattern[0] == '%' {
        let next = with_any(with_literal(parts, literal));
        lemma_pattern_lowest(pattern.skip(1), escape, next, Seq::empty());
    } else {
        lemma_pattern_lowest(pattern.skip(1), escape, parts, literal.push(pattern[0]));
    }
}

/// A pattern that is read comes out in lowest terms, or as the one empty
/// literal that an empty pattern is.
pub proof fn patterns_are_in_lowest_terms(pattern: Seq<char>, escape: Option<char>)
    requires
        like_parts(pattern, escape) is Ok,
    ensures
        ({
            let parts = like_parts(pattern, escape)->Ok_0;
            parts == seq![TextMatchPartView::Literal(Seq::empty())] || lowest_terms(parts)
        }),
{
    lemma_pattern_lowest(pattern, escape, Seq::empty(), Seq::empty());
}

} // verus!
