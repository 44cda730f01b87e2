//! Expressions built from compiled parts.

use vstd::prelude::*;

use crate::sql::datatypes;
use crate::sql::env::ExpressionCompiler;
use crate::sql::lir;
use crate::sql::lir::{
    BinaryOp, BranchArm, Expr, ExprView, Kind, Literal, RawScalar, Relation, ScalarType,
    TextComparison, TextMatchPart, TextMatchPartView, UnaryOp,
};
use crate::sql::literals;
use crate::sql::literals::{identifier, string_literal, type_text};
use crate::sql::lowering;
use crate::sql::lowering::Arms;
use crate::sql::operators::{binary, binary_operator, bool_literal, column_expr, negate_if, unary};
use crate::sql::tree;
use crate::sql::tree::Tree;
use crate::sql::types;
use crate::sql::types::{CompiledExpr, CompiledExprView, Error, ErrorView, LoweredQuery};
use crate::text::{characters, count_text, join3, join4};

verus! {

broadcast use {
    tree::group_tree_heights,
    lir::group_lir_views,
    types::group_sql_views,
};

/// The view of a fallible result.
pub open spec fn viewed<T: View>(result: Result<T, Error>) -> Result<T::V, ErrorView> {
    match result {
        Ok(value) => Ok(value@),
        Err(error) => Err(error@),
    }
}

/// The view of fallible expressions.
pub open spec fn exprs_result(result: Result<Vec<Expr>, Error>) -> Result<Seq<ExprView>, ErrorView> {
    match result {
        Ok(values) => Ok(lir::exprs_view(values@)),
        Err(error) => Err(error@),
    }
}

/// The view of fallible compiled expressions.
pub open spec fn compiled_result(result: Result<Vec<CompiledExpr>, Error>) -> Result<
    Seq<CompiledExprView>,
    ErrorView,
> {
    match result {
        Ok(values) => Ok(types::compiled_exprs_view(values@)),
        Err(error) => Err(error@),
    }
}

/// The view of an optional compiled expression.
pub open spec fn operand_view(operand: Option<CompiledExpr>) -> Option<CompiledExprView> {
    match operand {
        Some(operand) => Some(operand@),
        None => None,
    }
}

/// The view of a fallible operand.
pub open spec fn operand_result(result: Result<Option<CompiledExpr>, Error>) -> Result<
    Option<CompiledExprView>,
    ErrorView,
> {
    match result {
        Ok(operand) => Ok(operand_view(operand)),
        Err(error) => Err(error@),
    }
}

/// The view of fallible CASE arms.
pub open spec fn arms_result(result: Result<(Vec<BranchArm>, bool), Error>) -> Result<
    Arms,
    ErrorView,
> {
    match result {
        Ok((arms, nullable)) => Ok(Arms { arms: lir::branch_arms_view(arms@), nullable }),
        Err(error) => Err(error@),
    }
}

/// Whether a value is null, or is not.
pub fn null_test(value: CompiledExpr, op: UnaryOp) -> (result: CompiledExpr)
    ensures
        result@ == lowering::null_tested(value@, op),
{
    CompiledExpr { expr: unary(op, value.expr), scalar_type: ScalarType::Bool, nullable: false }
}

/// Whether a truth value is the given one.
pub fn truth_test(value: CompiledExpr, truth: bool, negated: bool) -> (result: CompiledExpr)
    ensures
        result@ == lowering::truth_tested(value@, truth, negated),
{
    let arm = BranchArm {
        when: binary(BinaryOp::Eq, value.expr, bool_literal(truth)),
        value: bool_literal(true),
    };
    let mut arms: Vec<BranchArm> = Vec::new();
    arms.push(arm);
    assert(lir::branch_arms_view(arms@) =~= seq![arm@]);
    let is_value = Expr::Branch { arms, otherwise: Box::new(bool_literal(false)) };
    CompiledExpr {
        expr: negate_if(negated, is_value),
        scalar_type: ScalarType::Bool,
        nullable: false,
    }
}

/// Two operands under an operator.
pub fn combine(operator: &Tree, left: CompiledExpr, right: CompiledExpr) -> (result: Result<
    CompiledExpr,
    Error,
>)
    ensures
        viewed(result) == lowering::combined(operator@, left@, right@),
{
    match binary_operator(operator, left.scalar_type, right.scalar_type) {
        Ok((op, scalar_type)) => Ok(
            CompiledExpr {
                expr: binary(op, left.expr, right.expr),
                scalar_type,
                nullable: left.nullable || right.nullable,
            },
        ),
        Err(error) => Err(error),
    }
}

/// Whether a query has a row.
pub fn exists_query(query: LoweredQuery, negated: bool) -> (result: CompiledExpr)
    ensures
        result@ == lowering::existence(query@, negated),
{
    CompiledExpr {
        expr: negate_if(negated, Expr::Exists(Box::new(query.relation))),
        scalar_type: ScalarType::Bool,
        nullable: false,
    }
}

/// The one value of a query with one column.
pub fn scalar_query(query: LoweredQuery) -> (result: Result<CompiledExpr, Error>)
    ensures
        viewed(result) == lowering::scalar_of(query@),
{
    if query.columns.len() != 1 {
        let count = count_text(query.columns.len());
        return Err(
            Error::Invalid(join3("scalar subquery returns ", count.as_str(), " columns")),
        );
    }
    let scalar_type = query.columns[0].scalar_type;
    Ok(
        CompiledExpr {
            expr: Expr::Scalar(Box::new(query.relation)),
            scalar_type,
            nullable: true,
        },
    )
}

/// Membership of a value in the one column of a query.
pub fn in_query(value: CompiledExpr, query: LoweredQuery, negated: bool) -> (result: Result<
    CompiledExpr,
    Error,
>)
    ensures
        viewed(result) == lowering::membership(value@, query@, negated),
{
    if query.columns.len() != 1 {
        let count = count_text(query.columns.len());
        return Err(Error::Invalid(join3("IN subquery returns ", count.as_str(), " columns")));
    }
    let found = query.columns[0].scalar_type;
    if found != value.scalar_type {
        return Err(
            Error::Invalid(
                join4("IN compares ", type_text(value.scalar_type), " with ", type_text(found)),
            ),
        );
    }
    let column = column_expr(query.scope.as_str(), query.columns[0].field());
    let matching = Relation::Filter {
        input: Box::new(query.relation),
        predicate: binary(BinaryOp::Eq, value.expr, column),
    };
    assert(matching@ is Filter);
    Ok(
        CompiledExpr {
            expr: negate_if(negated, Expr::Exists(Box::new(matching))),
            scalar_type: ScalarType::Bool,
            nullable: false,
        },
    )
}

/// The escape character of a pattern.
pub fn escape_character(escape: &Tree) -> (result: Result<Option<char>, Error>)
    ensures
        lowering::escape_of(escape@) == (match result {
            Ok(escape) => Ok(escape),
            Err(error) => Err(error@),
        }),
{
    if escape.absent() {
        return Ok(Some('\\'));
    }
    match string_literal(escape.at("value")) {
        None => Err(Error::Invalid("LIKE ESCAPE must be text".to_owned())),
        Some(escape) => {
            let escape = characters(escape);
            if escape.len() == 0 {
                Ok(None)
            } else if escape.len() == 1 {
                Ok(Some(escape[0]))
            } else {
                Err(Error::Invalid("LIKE ESCAPE must be empty or one character".to_owned()))
            }
        },
    }
}

/// A text match against the parts of a pattern.
pub fn match_text(value: Expr, parts: Vec<TextMatchPart>, insensitive: bool) -> (result: Result<
    Expr,
    Error,
>)
    ensures
        viewed(result) == lowering::text_match(
            value@,
            lir::text_match_parts_view(parts@),
            insensitive,
        ),
{
    let ghost shown = lir::text_match_parts_view(parts@);
    if parts.len() == 1 {
        if let TextMatchPart::Literal(literal) = &parts[0] {
            assert(shown[0] == TextMatchPartView::Literal(literal@));
            if insensitive {
                if literal.as_str().unicode_len() == 0 {
                    proof {
                        assert(literal@ =~= Seq::empty());
                        assert(shown =~= seq![TextMatchPartView::Literal(Seq::empty())]);
                    }
                    return Err(
                        Error::Unsupported(
                            "empty ILIKE patterns need case-folded equality in LIR".to_owned(),
                        ),
                    );
                }
                proof {
                    assert(seq![TextMatchPartView::Literal(Seq::empty())][0]
                        == TextMatchPartView::Literal(Seq::empty()));
                }
            } else {
                let pattern = Expr::Literal(
                    Literal { raw: RawScalar::Text(literal.clone()), kind: Some(Kind::Text) },
                );
                return Ok(binary(BinaryOp::Eq, value, pattern));
            }
        } else {
            proof {
                assert(shown[0] is AnyMany);
                assert(seq![TextMatchPartView::Literal(Seq::empty())][0] is Literal);
            }
        }
    } else {
        assert(seq![TextMatchPartView::Literal(Seq::empty())].len() == 1);
    }
    let comparison = if insensitive {
        TextComparison::UnicodeSimpleFold
    } else {
        TextComparison::Exact
    };
    Ok(Expr::TextMatch { value: Box::new(value), parts, comparison })
}

/// A branch with its type.
pub fn branch(arms: Vec<BranchArm>, otherwise: Expr, scalar_type: ScalarType, nullable: bool) -> (result:
    CompiledExpr)
    ensures
        result@ == lowering::branch(
            lir::branch_arms_view(arms@),
            otherwise@,
            scalar_type,
            nullable,
        ),
{
    CompiledExpr {
        expr: Expr::Branch { arms, otherwise: Box::new(otherwise) },
        scalar_type,
        nullable,
    }
}

/// The first argument that is not a plain expression.
pub fn first_odd_argument(arguments: &Tree) -> (found: Option<&Tree>)
    ensures
        lowering::odd_argument(arguments@, 0) == (match found {
            Some(argument) => Some(argument@),
            None => None,
        }),
{
    let count = arguments.count();
    let mut i: usize = 0;
    while i < count
        invariant
            i <= count,
            count == tree::list(arguments@).len(),
            lowering::odd_argument(arguments@, 0) == lowering::odd_argument(arguments@, i as nat),
        decreases count - i,
    {
        let argument = arguments.item(i);
        if !argument.at("Unnamed").is("Expr") {
            return Some(argument);
        }
        i += 1;
    }
    None
}

/// The first of the values that is not null.
pub fn coalesce(values: Vec<CompiledExpr>, result_type: ScalarType) -> (result: Result<
    CompiledExpr,
    Error,
>)
    ensures
        viewed(result) == lowering::coalesced(types::compiled_exprs_view(values@), result_type),
{
    let ghost shown = types::compiled_exprs_view(values@);
    if values.len() == 0 {
        return Err(Error::Invalid("COALESCE needs at least one argument".to_owned()));
    }
    if values.len() == 1 {
        return Ok(values[0].clone());
    }
    let last = values.len() - 1;
    let mut arms: Vec<BranchArm> = Vec::new();
    let mut nullable = values[last].nullable;
    let mut i: usize = 0;
    while i < last
        invariant
            i <= last,
            last == values.len() - 1,
            arms.len() == i,
            shown == types::compiled_exprs_view(values@),
            forall|k: int| 0 <= k < i ==> (#[trigger] arms@[k])@ == lowering::present_arm(shown[k]),
            nullable == (shown[last as int].nullable && forall|k: int|
                0 <= k < i ==> (#[trigger] shown[k]).nullable),
        decreases last - i,
    {
        let value = &values[i];
        assert(shown[i as int] == value@);
        arms.push(
            BranchArm {
                when: unary(UnaryOp::IsNotNull, value.expr.clone()),
                value: value.expr.clone(),
            },
        );
        nullable = nullable && value.nullable;
        i += 1;
    }
    proof {
        assert(lir::branch_arms_view(arms@) =~= Seq::new(
            (shown.len() - 1) as nat,
            |k: int| lowering::present_arm(shown[k]),
        ));
        assert(nullable == forall|k: int| 0 <= k < shown.len() ==> (#[trigger] shown[k]).nullable);
        assert(shown.last() == values@[last as int]@);
    }
    Ok(branch(arms, values[last].expr.clone(), result_type, nullable))
}

fn column_type(column: Result<CompiledExpr, Error>) -> (found: Option<ScalarType>)
    ensures
        found == lowering::column_hint(viewed(column)),
{
    match column {
        Ok(column) => Some(column.scalar_type),
        Err(_) => None,
    }
}

fn truth_operator(operator: &Tree) -> (yes: bool)
    ensures
        yes == lowering::yields_truth(operator@),
{
    operator.is("Eq") || operator.is("NotEq") || operator.is("Lt") || operator.is("LtEq")
        || operator.is("Gt") || operator.is("GtEq") || operator.is("And") || operator.is("Or")
}

/// The type that an expression shows without being compiled.
pub fn type_hint(compiler: &ExpressionCompiler, expression: &Tree) -> (found: Option<ScalarType>)
    ensures
        found == lowering::hinted(compiler@, expression@),
    decreases tree::height(expression@), 0nat, 0nat,
{
    let e = expression;
    if let Some(column) = compiler.substitution(e) {
        return Some(column.scalar_type);
    }
    if e.is("Identifier") {
        let name = identifier(e.at("Identifier"));
        column_type(compiler.column(None, name.as_str()))
    } else if e.is("CompoundIdentifier") && e.at("CompoundIdentifier").count() == 2 {
        let qualifier = identifier(e.at("CompoundIdentifier").item(0));
        let name = identifier(e.at("CompoundIdentifier").item(1));
        column_type(compiler.column(Some(qualifier.as_str()), name.as_str()))
    } else if e.is("Value") {
        match literals::literal_type(e.at("Value").at("value"), None) {
            Ok(scalar_type) => Some(scalar_type),
            Err(_) => None,
        }
    } else if e.is("Cast") {
        match datatypes::scalar_type(e.at("Cast").at("data_type")) {
            Ok((scalar_type, _)) => Some(scalar_type),
            Err(_) => None,
        }
    } else if e.is("Nested") {
        type_hint(compiler, e.at("Nested"))
    } else if e.is("BinaryOp") {
        let operation = e.at("BinaryOp");
        if truth_operator(operation.at("op")) {
            Some(ScalarType::Bool)
        } else {
            match type_hint(compiler, operation.at("left")) {
                Some(scalar_type) => Some(scalar_type),
                None => type_hint(compiler, operation.at("right")),
            }
        }
    } else if e.is("Case") {
        let case = e.at("Case");
        match first_arm_hint(compiler, case.at("conditions")) {
            Some(scalar_type) => Some(scalar_type),
            None => if case.at("else_result").absent() {
                None
            } else {
                type_hint(compiler, case.at("else_result"))
            },
        }
    } else {
        None
    }
}

fn first_arm_hint(compiler: &ExpressionCompiler, arms: &Tree) -> (found: Option<ScalarType>)
    ensures
        found == lowering::arms_hint(compiler@, arms@, 0),
    decreases tree::height(arms@), 1nat, 0nat,
{
    let count = arms.count();
    let mut i: usize = 0;
    while i < count
        invariant
            i <= count,
            count == tree::list(arms@).len(),
            lowering::arms_hint(compiler@, arms@, 0) == lowering::arms_hint(
                compiler@,
                arms@,
                i as nat,
            ),
        decreases count - i,
    {
        let found = type_hint(compiler, arms.item(i).at("result"));
        if found.is_some() {
            return found;
        }
        i += 1;
    }
    None
}

/// The type of a CASE.
pub fn case_hint(compiler: &ExpressionCompiler, case: &Tree, expected: Option<ScalarType>) -> (found:
    Option<ScalarType>)
    ensures
        found == lowering::case_type(compiler@, case@, expected),
{
    if expected.is_some() {
        return expected;
    }
    match first_arm_hint(compiler, case.at("conditions")) {
        Some(scalar_type) => Some(scalar_type),
        None => if case.at("else_result").absent() {
            None
        } else {
            type_hint(compiler, case.at("else_result"))
        },
    }
}

/// The first type that arguments show.
pub fn first_argument_hint(compiler: &ExpressionCompiler, arguments: &Tree) -> (found: Option<
    ScalarType,
>)
    ensures
        found == lowering::arguments_hint(compiler@, arguments@, 0),
{
    let count = arguments.count();
    let mut i: usize = 0;
    while i < count
        invariant
            i <= count,
            count == tree::list(arguments@).len(),
            lowering::arguments_hint(compiler@, arguments@, 0) == lowering::arguments_hint(
                compiler@,
                arguments@,
                i as nat,
            ),
        decreases count - i,
    {
        let found = type_hint(compiler, arguments.item(i).at("Unnamed").at("Expr"));
        if found.is_some() {
            return found;
        }
        i += 1;
    }
    None
}

} // verus!
