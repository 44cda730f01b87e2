//! What statements lower to.
//!
//! The functions here say, for each piece of syntax, which relation or
//! expression it becomes, how the parameter types and names known so far
//! change, and which error comes where it has no lowering.

use vstd::prelude::*;

use crate::sql::catalog;
use crate::sql::catalog::TableView;
use crate::sql::datatypes;
use crate::sql::env;
use crate::sql::env::{ExpressionCompilerView, SubstitutionView};
use crate::sql::lir;
use crate::sql::lir::{
    AggregateFunction, AggregateTermView, BinaryOp, BindingView, BranchArmView, ExprView,
    GroupTermView, JoinKind, Kind, LiteralView, OrderTermView, ProjectFieldView, RawScalarView,
    RecursiveAccumulation, RelationView, RowsColumnView, ScalarType, SetQuantifier, TextComparison,
    TextMatchPartView, UnaryOp,
};
use crate::sql::literals;
use crate::sql::operators;
use crate::sql::scopes;
use crate::sql::scopes::ReplacementView;
use crate::sql::shapes;
use crate::sql::shapes::OutputKeyView;
use crate::sql::syntax;
use crate::sql::tree;
use crate::sql::tree::TreeView;
use crate::sql::types::{
    BindingColumnsView, CompiledExprView, ErrorView, ExpressionEnvView, LoweredQueryView,
    ParameterView, ResultColumnView, ScopeDefView, SelectSourceView,
};
use crate::text;

verus! {

broadcast use tree::group_tree_heights;

/// What a statement is lowered against.
pub struct Surroundings {
    pub tables: Seq<TableView>,
    pub hints: Seq<Option<ScalarType>>,
    pub parameters: Option<Seq<ParameterView>>,
}

/// What is known in the course of a lowering: the parameter types, the WITH
/// names with their relations and columns, the WITH name whose recursive step
/// is being lowered, and how many scopes have been named.
#[verifier::ext_equal]
pub struct State {
    pub inferred: Seq<Option<ScalarType>>,
    pub bindings: Seq<BindingView>,
    pub columns: Seq<BindingColumnsView>,
    pub recursive: Option<Seq<char>>,
    pub next: nat,
}

/// What is known at first.
pub open spec fn initial(hints: Seq<Option<ScalarType>>) -> State {
    State {
        inferred: hints,
        bindings: Seq::empty(),
        columns: Seq::empty(),
        recursive: None,
        next: 0,
    }
}

/// What comes out of a step, with what is known after it.
pub type Step<T> = Result<(T, State), ErrorView>;

/// The number of the next scope.
pub open spec fn next_number(state: State) -> nat {
    if state.next < usize::MAX {
        state.next + 1
    } else {
        state.next
    }
}

/// A scope name that was not given out before: the base and a running number.
pub open spec fn fresh_label(state: State, base: Seq<char>) -> Seq<char> {
    (if base.len() == 0 {
        "sql"@
    } else {
        base
    }) + "_"@ + text::decimal(next_number(state))
}

/// What is known after a scope was named.
pub open spec fn after_label(state: State) -> State {
    State { next: next_number(state), ..state }
}

/// The columns of a WITH name.
pub open spec fn bound_columns(columns: Seq<BindingColumnsView>, name: Seq<char>) -> Option<
    Seq<ResultColumnView>,
>
    decreases columns.len(),
{
    if columns.len() == 0 {
        None
    } else if columns[0].name == name {
        Some(columns[0].columns)
    } else {
        bound_columns(columns.skip(1), name)
    }
}

/// WITH columns with those of a name, in place of any it had.
pub open spec fn with_binding_columns(
    columns: Seq<BindingColumnsView>,
    name: Seq<char>,
    bound: Seq<ResultColumnView>,
    i: nat,
) -> Seq<BindingColumnsView>
    decreases columns.len() - i,
{
    let entry = BindingColumnsView { name, columns: bound };
    if i >= columns.len() {
        columns.push(entry)
    } else if columns[i as int].name == name {
        columns.update(i as int, entry)
    } else {
        with_binding_columns(columns, name, bound, i + 1)
    }
}

/// WITH relations with that of a name, in place of any it had.
pub open spec fn with_binding(
    bindings: Seq<BindingView>,
    name: Seq<char>,
    relation: RelationView,
    i: nat,
) -> Seq<BindingView>
    decreases bindings.len() - i,
{
    let entry = BindingView { name, relation };
    if i >= bindings.len() {
        bindings.push(entry)
    } else if bindings[i as int].name == name {
        bindings.update(i as int, entry)
    } else {
        with_binding(bindings, name, relation, i + 1)
    }
}

/// The larger of two heights.
pub open spec fn higher(left: nat, right: nat) -> nat {
    if left > right {
        left
    } else {
        right
    }
}

// ---- expressions ----

/// An expression with its type: syntax that stands for an output column is
/// that column.
pub open spec fn compiled(
    around: Surroundings,
    state: State,
    compiler: ExpressionCompilerView,
    expression: TreeView,
    expected: Option<ScalarType>,
) -> Step<CompiledExprView>
    decreases tree::height(expression), 1nat, 0nat,
{
    match env::substituted(compiler.substitutions, tree::bare(expression)) {
        Some(column) => match compiler.output {
            Some(output) => Ok((env::reference(output.scope, column), state)),
            None => Err(ErrorView::Invalid("expression substitution lacks a scope"@)),
        },
        None => compiled_syntax(around, state, compiler, expression, expected),
    }
}

/// An expression by its own syntax.
pub open spec fn compiled_syntax(
    around: Surroundings,
    state: State,
    compiler: ExpressionCompilerView,
    expression: TreeView,
    expected: Option<ScalarType>,
) -> Step<CompiledExprView>
    decreases tree::height(expression), 0nat, 0nat,
{
    let e = expression;
    if tree::is(e, "Identifier"@) {
        settled(
            env::named_column(compiler, None, literals::ident_name(tree::at(e, "Identifier"@))),
            state,
        )
    } else if is_qualified_column(e) {
        let parts = tree::list(tree::at(e, "CompoundIdentifier"@));
        settled(
            env::named_column(
                compiler,
                Some(literals::ident_name(parts[0])),
                literals::ident_name(parts[1]),
            ),
            state,
        )
    } else if tree::is(e, "Value"@) {
        compiled_literal(around, state, shapes::value_of(e), expected)
    } else if tree::is(e, "BinaryOp"@) {
        compiled_binary(around, state, compiler, tree::at(e, "BinaryOp"@))
    } else if tree::is(e, "UnaryOp"@) {
        compiled_unary(around, state, compiler, tree::at(e, "UnaryOp"@), expected)
    } else if tree::is(e, "IsNull"@) {
        null_test(
            compiled(around, state, compiler, tree::at(e, "IsNull"@), expected),
            UnaryOp::IsNull,
        )
    } else if tree::is(e, "IsNotNull"@) {
        null_test(
            compiled(around, state, compiler, tree::at(e, "IsNotNull"@), expected),
            UnaryOp::IsNotNull,
        )
    } else if tree::is(e, "IsTrue"@) {
        truth_test(
            compiled(around, state, compiler, tree::at(e, "IsTrue"@), Some(ScalarType::Bool)),
            true,
            false,
        )
    } else if tree::is(e, "IsNotTrue"@) {
        truth_test(
            compiled(around, state, compiler, tree::at(e, "IsNotTrue"@), Some(ScalarType::Bool)),
            true,
            true,
        )
    } else if tree::is(e, "IsFalse"@) {
        truth_test(
            compiled(around, state, compiler, tree::at(e, "IsFalse"@), Some(ScalarType::Bool)),
            false,
            false,
        )
    } else if tree::is(e, "IsNotFalse"@) {
        truth_test(
            compiled(around, state, compiler, tree::at(e, "IsNotFalse"@), Some(ScalarType::Bool)),
            false,
            true,
        )
    } else if tree::is(e, "Nested"@) {
        compiled(around, state, compiler, tree::at(e, "Nested"@), expected)
    } else if tree::is(e, "Cast"@) {
        compiled_cast(around, state, compiler, tree::at(e, "Cast"@))
    } else if tree::is(e, "InList"@) {
        compiled_in_list(around, state, compiler, tree::at(e, "InList"@))
    } else if tree::is(e, "Between"@) {
        compiled_between(around, state, compiler, tree::at(e, "Between"@))
    } else if tree::is(e, "Like"@) {
        compiled_like(around, state, compiler, tree::at(e, "Like"@), false)
    } else if tree::is(e, "ILike"@) {
        compiled_like(around, state, compiler, tree::at(e, "ILike"@), true)
    } else if tree::is(e, "Case"@) {
        compiled_case(around, state, compiler, tree::at(e, "Case"@), expected)
    } else if tree::is(e, "Function"@) {
        compiled_function(around, state, compiler, tree::at(e, "Function"@), expected)
    } else if tree::is(e, "Exists"@) {
        let test = tree::at(e, "Exists"@);
        exists_query(
            lowered(around, state, tree::at(test, "subquery"@), compiler.env),
            tree::flag(tree::at(test, "negated"@)),
        )
    } else if tree::is(e, "Subquery"@) {
        scalar_query(lowered(around, state, tree::at(e, "Subquery"@), compiler.env))
    } else if tree::is(e, "InSubquery"@) {
        let test = tree::at(e, "InSubquery"@);
        match compiled(around, state, compiler, tree::at(test, "expr"@), None) {
            Err(error) => Err(error),
            Ok((value, state)) => in_query(
                value,
                lowered(around, state, tree::at(test, "subquery"@), compiler.env),
                tree::flag(tree::at(test, "negated"@)),
            ),
        }
    } else {
        Err(
            ErrorView::Unsupported(
                "expression "@ + syntax::shown_expression(e) + " is not supported yet"@,
            ),
        )
    }
}

/// Whether an expression is a column with a qualifier.
pub open spec fn is_qualified_column(expression: TreeView) -> bool {
    tree::is(expression, "CompoundIdentifier"@) && tree::list(
        tree::at(expression, "CompoundIdentifier"@),
    ).len() == 2
}

/// A result that leaves what is known as it is.
pub open spec fn settled<T>(result: Result<T, ErrorView>, state: State) -> Step<T> {
    match result {
        Ok(value) => Ok((value, state)),
        Err(error) => Err(error),
    }
}

/// A literal as a scalar of the expected type.
pub open spec fn raw_literal(
    around: Surroundings,
    state: State,
    value: TreeView,
    expected: ScalarType,
) -> Step<RawScalarView> {
    match literals::raw_scalar(value, expected, state.inferred, around.hints, around.parameters) {
        Err(error) => Err(error),
        Ok((raw, inferred)) => Ok((raw, State { inferred, ..state })),
    }
}

/// A literal with its type.
pub open spec fn compiled_literal(
    around: Surroundings,
    state: State,
    value: TreeView,
    expected: Option<ScalarType>,
) -> Step<CompiledExprView> {
    match literals::literal_kind(value, expected) {
        Err(error) => Err(error),
        Ok(scalar_type) => match raw_literal(around, state, value, scalar_type) {
            Err(error) => Err(error),
            Ok((raw, state)) => Ok(
                (
                    CompiledExprView {
                        expr: ExprView::Literal(
                            LiteralView { raw, kind: Some(lir::kind_of(scalar_type)) },
                        ),
                        scalar_type,
                        nullable: raw is Null,
                    },
                    state,
                ),
            ),
        },
    }
}

/// Whether the right operand is compiled first: a parameter or quoted text on
/// the left takes its type from the right.
pub open spec fn right_first(operation: TreeView) -> bool {
    let left = tree::at(operation, "left"@);
    (shapes::is_parameter(left) || shapes::is_quoted_text(left)) && !is_logical(
        tree::at(operation, "op"@),
    )
}

/// Whether an operator combines truth values.
pub open spec fn is_logical(operator: TreeView) -> bool {
    tree::is(operator, "And"@) || tree::is(operator, "Or"@)
}

/// Two compiled operands under an operator.
pub open spec fn combined(
    operator: TreeView,
    left: CompiledExprView,
    right: CompiledExprView,
) -> Result<CompiledExprView, ErrorView> {
    match operators::operation(operator, left.scalar_type, right.scalar_type) {
        Err(error) => Err(error),
        Ok((op, scalar_type)) => Ok(
            CompiledExprView {
                expr: operators::binary_of(op, left.expr, right.expr),
                scalar_type,
                nullable: left.nullable || right.nullable,
            },
        ),
    }
}

/// A binary operation.
pub open spec fn compiled_binary(
    around: Surroundings,
    state: State,
    compiler: ExpressionCompilerView,
    operation: TreeView,
) -> Step<CompiledExprView>
    decreases tree::height(operation), 2nat, 0nat,
{
    let left = tree::at(operation, "left"@);
    let right = tree::at(operation, "right"@);
    let operator = tree::at(operation, "op"@);
    if right_first(operation) {
        match compiled(around, state, compiler, right, None) {
            Err(error) => Err(error),
            Ok((right, state)) => match compiled(
                around,
                state,
                compiler,
                left,
                Some(right.scalar_type),
            ) {
                Err(error) => Err(error),
                Ok((left, state)) => settled(combined(operator, left, right), state),
            },
        }
    } else {
        let operand = if is_logical(operator) {
            Some(ScalarType::Bool)
        } else {
            None
        };
        match compiled(around, state, compiler, left, operand) {
            Err(error) => Err(error),
            Ok((left, state)) => match compiled(
                around,
                state,
                compiler,
                right,
                Some(left.scalar_type),
            ) {
                Err(error) => Err(error),
                Ok((right, state)) => settled(combined(operator, left, right), state),
            },
        }
    }
}

/// An operation on one operand.
pub open spec fn compiled_unary(
    around: Surroundings,
    state: State,
    compiler: ExpressionCompilerView,
    operation: TreeView,
    expected: Option<ScalarType>,
) -> Step<CompiledExprView>
    decreases tree::height(operation), 2nat, 0nat,
{
    let operator = tree::at(operation, "op"@);
    let negation = tree::is(operator, "Not"@) || tree::is(operator, "BangNot"@);
    let expected = if negation {
        Some(ScalarType::Bool)
    } else {
        expected
    };
    match compiled(around, state, compiler, tree::at(operation, "expr"@), expected) {
        Err(error) => Err(error),
        Ok((value, state)) => if negation {
            Ok(
                (
                    CompiledExprView { expr: operators::unary_of(UnaryOp::Not, value.expr), ..value },
                    state,
                ),
            )
        } else if tree::is(operator, "Minus"@) {
            Ok(
                (
                    CompiledExprView {
                        expr: operators::unary_of(UnaryOp::Negate, value.expr),
                        ..value
                    },
                    state,
                ),
            )
        } else if tree::is(operator, "Plus"@) {
            Ok((value, state))
        } else {
            Err(
                ErrorView::Unsupported(
                    "unary operator "@ + syntax::shown_unary_operator(operator)
                        + " is not supported"@,
                ),
            )
        },
    }
}

/// Whether a value is null, or is not.
pub open spec fn null_tested(value: CompiledExprView, op: UnaryOp) -> CompiledExprView {
    CompiledExprView {
        expr: operators::unary_of(op, value.expr),
        scalar_type: ScalarType::Bool,
        nullable: false,
    }
}

pub open spec fn null_test(value: Step<CompiledExprView>, op: UnaryOp) -> Step<CompiledExprView> {
    match value {
        Err(error) => Err(error),
        Ok((value, state)) => Ok((null_tested(value, op), state)),
    }
}

/// Whether a truth value is the given one, where null counts as neither.
pub open spec fn truth_tested(value: CompiledExprView, truth: bool, negated: bool) -> CompiledExprView {
    let arm = BranchArmView {
        when: operators::binary_of(BinaryOp::Eq, value.expr, operators::bool_constant(truth)),
        value: operators::bool_constant(true),
    };
    let is_value = ExprView::Branch {
        arms: seq![arm],
        otherwise: Box::new(operators::bool_constant(false)),
    };
    CompiledExprView {
        expr: operators::negated_if(negated, is_value),
        scalar_type: ScalarType::Bool,
        nullable: false,
    }
}

pub open spec fn truth_test(
    value: Step<CompiledExprView>,
    truth: bool,
    negated: bool,
) -> Step<CompiledExprView> {
    match value {
        Err(error) => Err(error),
        Ok((value, state)) => Ok((truth_tested(value, truth, negated), state)),
    }
}

/// A cast.
pub open spec fn compiled_cast(
    around: Surroundings,
    state: State,
    compiler: ExpressionCompilerView,
    cast: TreeView,
) -> Step<CompiledExprView>
    decreases tree::height(cast), 2nat, 0nat,
{
    match datatypes::typed(tree::at(cast, "data_type"@)) {
        Err(error) => Err(error),
        Ok((to, _)) => match compiled(
            around,
            state,
            compiler,
            tree::at(cast, "expr"@),
            Some(to),
        ) {
            Err(error) => Err(error),
            Ok((value, state)) => Ok(
                (
                    CompiledExprView {
                        expr: ExprView::Cast {
                            expression: Box::new(value.expr),
                            to: lir::kind_of(to),
                        },
                        scalar_type: to,
                        nullable: value.nullable,
                    },
                    state,
                ),
            ),
        },
    }
}

/// The comparisons of a value with the candidates of a list, from a position
/// on.
pub open spec fn candidates(
    around: Surroundings,
    state: State,
    compiler: ExpressionCompilerView,
    list: TreeView,
    i: nat,
    value: CompiledExprView,
    predicates: Seq<ExprView>,
) -> Step<Seq<ExprView>>
    decreases tree::height(list), 3nat, tree::list(list).len() - i,
{
    if i >= tree::list(list).len() {
        Ok((predicates, state))
    } else {
        match compiled(
            around,
            state,
            compiler,
            tree::list(list)[i as int],
            Some(value.scalar_type),
        ) {
            Err(error) => Err(error),
            Ok((candidate, state)) => candidates(
                around,
                state,
                compiler,
                list,
                i + 1,
                value,
                predicates.push(operators::binary_of(BinaryOp::Eq, value.expr, candidate.expr)),
            ),
        }
    }
}

/// Membership in a list.
pub open spec fn compiled_in_list(
    around: Surroundings,
    state: State,
    compiler: ExpressionCompilerView,
    test: TreeView,
) -> Step<CompiledExprView>
    decreases tree::height(test), 4nat, 0nat,
{
    match compiled(around, state, compiler, tree::at(test, "expr"@), None) {
        Err(error) => Err(error),
        Ok((value, state)) => match candidates(
            around,
            state,
            compiler,
            tree::at(test, "list"@),
            0,
            value,
            Seq::empty(),
        ) {
            Err(error) => Err(error),
            Ok((predicates, state)) => match operators::folded(predicates, BinaryOp::Or) {
                Err(error) => Err(error),
                Ok(predicate) => Ok(
                    (
                        CompiledExprView {
                            expr: operators::negated_if(
                                tree::flag(tree::at(test, "negated"@)),
                                predicate,
                            ),
                            scalar_type: ScalarType::Bool,
                            nullable: value.nullable,
                        },
                        state,
                    ),
                ),
            },
        },
    }
}

/// Membership in a range.
pub open spec fn compiled_between(
    around: Surroundings,
    state: State,
    compiler: ExpressionCompilerView,
    test: TreeView,
) -> Step<CompiledExprView>
    decreases tree::height(test), 2nat, 0nat,
{
    match compiled(around, state, compiler, tree::at(test, "expr"@), None) {
        Err(error) => Err(error),
        Ok((value, state)) => match compiled(
            around,
            state,
            compiler,
            tree::at(test, "low"@),
            Some(value.scalar_type),
        ) {
            Err(error) => Err(error),
            Ok((low, state)) => match compiled(
                around,
                state,
                compiler,
                tree::at(test, "high"@),
                Some(value.scalar_type),
            ) {
                Err(error) => Err(error),
                Ok((high, state)) => {
                    let predicate = operators::binary_of(
                        BinaryOp::And,
                        operators::binary_of(BinaryOp::Gte, value.expr, low.expr),
                        operators::binary_of(BinaryOp::Lte, value.expr, high.expr),
                    );
                    Ok(
                        (
                            CompiledExprView {
                                expr: operators::negated_if(
                                    tree::flag(tree::at(test, "negated"@)),
                                    predicate,
                                ),
                                scalar_type: ScalarType::Bool,
                                nullable: value.nullable || low.nullable || high.nullable,
                            },
                            state,
                        ),
                    )
                },
            },
        },
    }
}

/// The constant text of a pattern expression. A parameter that is not bound
/// yet matches everything.
pub open spec fn pattern_text(around: Surroundings, state: State, pattern: TreeView) -> Step<
    Seq<char>,
> {
    let inner = datatypes::inner_default(pattern);
    let value = shapes::value_of(inner);
    if !tree::is(inner, "Value"@) {
        Err(
            ErrorView::Unsupported(
                "row-dependent LIKE patterns need a dynamic matcher in LIR"@,
            ),
        )
    } else {
        match raw_literal(around, state, value, ScalarType::Text) {
            Err(error) => Err(error),
            Ok((raw, state)) => match raw {
                RawScalarView::Text(pattern) => Ok((pattern, state)),
                RawScalarView::Null => if tree::is(value, "Placeholder"@) {
                    Ok(("%"@, state))
                } else {
                    Err(ErrorView::Invalid("LIKE pattern must not be NULL"@))
                },
                _ => Err(ErrorView::Invalid("LIKE pattern must be text"@)),
            },
        }
    }
}

/// The escape character of a pattern: a backslash where none is given.
pub open spec fn escape_of(escape: TreeView) -> Result<Option<char>, ErrorView> {
    if escape is Null {
        Ok(Some('\\'))
    } else {
        match literals::string_text(tree::at(escape, "value"@)) {
            None => Err(ErrorView::Invalid("LIKE ESCAPE must be text"@)),
            Some(escape) => if escape.len() == 0 {
                Ok(None)
            } else if escape.len() == 1 {
                Ok(Some(escape[0]))
            } else {
                Err(ErrorView::Invalid("LIKE ESCAPE must be empty or one character"@))
            },
        }
    }
}

/// A text match against the parts of a pattern. A case-sensitive pattern that
/// is one literal is an equality.
pub open spec fn text_match(
    value: ExprView,
    parts: Seq<TextMatchPartView>,
    insensitive: bool,
) -> Result<ExprView, ErrorView> {
    if insensitive && parts == seq![TextMatchPartView::Literal(Seq::empty())] {
        Err(
            ErrorView::Unsupported(
                "empty ILIKE patterns need case-folded equality in LIR"@,
            ),
        )
    } else if !insensitive && parts.len() == 1 && parts[0] is Literal {
        Ok(
            operators::binary_of(
                BinaryOp::Eq,
                value,
                ExprView::Literal(
                    LiteralView {
                        raw: RawScalarView::Text(parts[0]->Literal_0),
                        kind: Some(Kind::Text),
                    },
                ),
            ),
        )
    } else {
        Ok(
            ExprView::TextMatch {
                value: Box::new(value),
                parts,
                comparison: if insensitive {
                    TextComparison::UnicodeSimpleFold
                } else {
                    TextComparison::Exact
                },
            },
        )
    }
}

/// A LIKE or ILIKE test.
pub open spec fn compiled_like(
    around: Surroundings,
    state: State,
    compiler: ExpressionCompilerView,
    test: TreeView,
    insensitive: bool,
) -> Step<CompiledExprView>
    decreases tree::height(test), 2nat, 0nat,
{
    if tree::flag(tree::at(test, "any"@)) {
        Err(ErrorView::Unsupported("LIKE ANY is not supported"@))
    } else {
        match compiled(
            around,
            state,
            compiler,
            tree::at(test, "expr"@),
            Some(ScalarType::Text),
        ) {
            Err(error) => Err(error),
            Ok((value, state)) => match pattern_text(
                around,
                state,
                tree::at(test, "pattern"@),
            ) {
                Err(error) => Err(error),
                Ok((pattern, state)) => match escape_of(tree::at(test, "escape_char"@)) {
                    Err(error) => Err(error),
                    Ok(escape) => match operators::like_parts(pattern, escape) {
                        Err(error) => Err(error),
                        Ok(parts) => match text_match(value.expr, parts, insensitive) {
                            Err(error) => Err(error),
                            Ok(expr) => Ok(
                                (
                                    CompiledExprView {
                                        expr: operators::negated_if(
                                            tree::flag(tree::at(test, "negated"@)),
                                            expr,
                                        ),
                                        scalar_type: ScalarType::Bool,
                                        nullable: value.nullable,
                                    },
                                    state,
                                ),
                            ),
                        },
                    },
                },
            },
        }
    }
}

/// The type that an expression shows without being compiled.
pub open spec fn hinted(compiler: ExpressionCompilerView, expression: TreeView) -> Option<ScalarType>
    decreases tree::height(expression), 0nat, 0nat,
{
    let e = expression;
    match env::substituted(compiler.substitutions, tree::bare(e)) {
        Some(column) => Some(column.scalar_type),
        None => if tree::is(e, "Identifier"@) {
            column_hint(
                env::named_column(compiler, None, literals::ident_name(tree::at(e, "Identifier"@))),
            )
        } else if is_qualified_column(e) {
            let parts = tree::list(tree::at(e, "CompoundIdentifier"@));
            column_hint(
                env::named_column(
                    compiler,
                    Some(literals::ident_name(parts[0])),
                    literals::ident_name(parts[1]),
                ),
            )
        } else if tree::is(e, "Value"@) {
            match literals::literal_kind(shapes::value_of(e), None) {
                Ok(scalar_type) => Some(scalar_type),
                Err(_) => None,
            }
        } else if tree::is(e, "Cast"@) {
            match datatypes::typed(tree::at(tree::at(e, "Cast"@), "data_type"@)) {
                Ok((scalar_type, _)) => Some(scalar_type),
                Err(_) => None,
            }
        } else if tree::is(e, "Nested"@) {
            hinted(compiler, tree::at(e, "Nested"@))
        } else if tree::is(e, "BinaryOp"@) {
            let operation = tree::at(e, "BinaryOp"@);
            if yields_truth(tree::at(operation, "op"@)) {
                Some(ScalarType::Bool)
            } else {
                match hinted(compiler, tree::at(operation, "left"@)) {
                    Some(scalar_type) => Some(scalar_type),
                    None => hinted(compiler, tree::at(operation, "right"@)),
                }
            }
        } else if tree::is(e, "Case"@) {
            let case = tree::at(e, "Case"@);
            match arms_hint(compiler, tree::at(case, "conditions"@), 0) {
                Some(scalar_type) => Some(scalar_type),
                None => if tree::at(case, "else_result"@) is Null {
                    None
                } else {
                    hinted(compiler, tree::at(case, "else_result"@))
                },
            }
        } else {
            None
        },
    }
}

/// The first type that the results of CASE arms show, from a position on.
pub open spec fn arms_hint(compiler: ExpressionCompilerView, arms: TreeView, i: nat) -> Option<
    ScalarType,
>
    decreases tree::height(arms), 1nat, tree::list(arms).len() - i,
{
    if i >= tree::list(arms).len() {
        None
    } else {
        match hinted(compiler, tree::at(tree::list(arms)[i as int], "result"@)) {
            Some(scalar_type) => Some(scalar_type),
            None => arms_hint(compiler, arms, i + 1),
        }
    }
}

/// The type of a column reference, where it means one.
pub open spec fn column_hint(column: Result<CompiledExprView, ErrorView>) -> Option<ScalarType> {
    match column {
        Ok(column) => Some(column.scalar_type),
        Err(_) => None,
    }
}

/// Whether an operator yields a truth value.
pub open spec fn yields_truth(operator: TreeView) -> bool {
    ||| tree::is(operator, "Eq"@)
    ||| tree::is(operator, "NotEq"@)
    ||| tree::is(operator, "Lt"@)
    ||| tree::is(operator, "LtEq"@)
    ||| tree::is(operator, "Gt"@)
    ||| tree::is(operator, "GtEq"@)
    ||| tree::is(operator, "And"@)
    ||| tree::is(operator, "Or"@)
}

/// The type of a CASE: the expected one, or the first that a result shows.
pub open spec fn case_type(
    compiler: ExpressionCompilerView,
    case: TreeView,
    expected: Option<ScalarType>,
) -> Option<ScalarType> {
    match expected {
        Some(expected) => Some(expected),
        None => match arms_hint(compiler, tree::at(case, "conditions"@), 0) {
            Some(scalar_type) => Some(scalar_type),
            None => if tree::at(case, "else_result"@) is Null {
                None
            } else {
                hinted(compiler, tree::at(case, "else_result"@))
            },
        },
    }
}

/// Lowered CASE arms, and whether a result may be null.
pub struct Arms {
    pub arms: Seq<BranchArmView>,
    pub nullable: bool,
}

/// The arms of a CASE from a position on.
pub open spec fn compiled_arms(
    around: Surroundings,
    state: State,
    compiler: ExpressionCompilerView,
    conditions: TreeView,
    i: nat,
    operand: Option<CompiledExprView>,
    result_type: ScalarType,
    done: Arms,
) -> Step<Arms>
    decreases tree::height(conditions), 3nat, tree::list(conditions).len() - i,
{
    if i >= tree::list(conditions).len() {
        Ok((done, state))
    } else {
        let arm = tree::list(conditions)[i as int];
        let wanted = match operand {
            Some(operand) => operand.scalar_type,
            None => ScalarType::Bool,
        };
        match compiled(around, state, compiler, tree::at(arm, "condition"@), Some(wanted)) {
            Err(error) => Err(error),
            Ok((condition, state)) => match compiled(
                around,
                state,
                compiler,
                tree::at(arm, "result"@),
                Some(result_type),
            ) {
                Err(error) => Err(error),
                Ok((result, state)) => compiled_arms(
                    around,
                    state,
                    compiler,
                    conditions,
                    i + 1,
                    operand,
                    result_type,
                    Arms {
                        arms: done.arms.push(
                            BranchArmView {
                                when: match operand {
                                    Some(operand) => operators::binary_of(
                                        BinaryOp::Eq,
                                        operand.expr,
                                        condition.expr,
                                    ),
                                    None => condition.expr,
                                },
                                value: result.expr,
                            },
                        ),
                        nullable: done.nullable || result.nullable,
                    },
                ),
            },
        }
    }
}

/// The operand of a CASE, where it has one.
pub open spec fn case_operand(
    around: Surroundings,
    state: State,
    compiler: ExpressionCompilerView,
    case: TreeView,
) -> Step<Option<CompiledExprView>>
    decreases tree::height(case), 2nat, 0nat,
{
    let operand = tree::at(case, "operand"@);
    if operand is Null {
        Ok((None, state))
    } else {
        match compiled(around, state, compiler, operand, None) {
            Err(error) => Err(error),
            Ok((operand, state)) => Ok((Some(operand), state)),
        }
    }
}

/// A CASE.
pub open spec fn compiled_case(
    around: Surroundings,
    state: State,
    compiler: ExpressionCompilerView,
    case: TreeView,
    expected: Option<ScalarType>,
) -> Step<CompiledExprView>
    decreases tree::height(case), 4nat, 0nat,
{
    let conditions = tree::at(case, "conditions"@);
    let otherwise = tree::at(case, "else_result"@);
    if tree::list(conditions).len() == 0 {
        Err(ErrorView::Invalid("CASE needs at least one WHEN arm"@))
    } else {
        match case_type(compiler, case, expected) {
            None => Err(ErrorView::Invalid("cannot determine CASE result type"@)),
            Some(result_type) => match case_operand(around, state, compiler, case) {
                Err(error) => Err(error),
                Ok((operand, state)) => match compiled_arms(
                    around,
                    state,
                    compiler,
                    conditions,
                    0,
                    operand,
                    result_type,
                    Arms { arms: Seq::empty(), nullable: otherwise is Null },
                ) {
                    Err(error) => Err(error),
                    Ok((done, state)) => if otherwise is Null {
                        Ok(
                            (
                                branch(
                                    done.arms,
                                    operators::null_constant(result_type),
                                    result_type,
                                    done.nullable,
                                ),
                                state,
                            ),
                        )
                    } else {
                        match compiled(around, state, compiler, otherwise, Some(result_type)) {
                            Err(error) => Err(error),
                            Ok((last, state)) => Ok(
                                (
                                    branch(
                                        done.arms,
                                        last.expr,
                                        result_type,
                                        done.nullable || last.nullable,
                                    ),
                                    state,
                                ),
                            ),
                        }
                    },
                },
            },
        }
    }
}

/// A branch with its type.
pub open spec fn branch(
    arms: Seq<BranchArmView>,
    otherwise: ExprView,
    scalar_type: ScalarType,
    nullable: bool,
) -> CompiledExprView {
    CompiledExprView {
        expr: ExprView::Branch { arms, otherwise: Box::new(otherwise) },
        scalar_type,
        nullable,
    }
}

/// The first argument from a position on that is not a plain expression.
pub open spec fn odd_argument(arguments: TreeView, i: nat) -> Option<TreeView>
    decreases tree::list(arguments).len() - i,
{
    if i >= tree::list(arguments).len() {
        None
    } else {
        let argument = tree::list(arguments)[i as int];
        if tree::is(tree::at(argument, "Unnamed"@), "Expr"@) {
            odd_argument(arguments, i + 1)
        } else {
            Some(argument)
        }
    }
}

/// The expression of a plain argument.
pub open spec fn argument_expression(argument: TreeView) -> TreeView {
    tree::at(tree::at(argument, "Unnamed"@), "Expr"@)
}

/// The first type that arguments show, from a position on.
pub open spec fn arguments_hint(compiler: ExpressionCompilerView, arguments: TreeView, i: nat) -> Option<
    ScalarType,
>
    decreases tree::list(arguments).len() - i,
{
    if i >= tree::list(arguments).len() {
        None
    } else {
        match hinted(compiler, argument_expression(tree::list(arguments)[i as int])) {
            Some(scalar_type) => Some(scalar_type),
            None => arguments_hint(compiler, arguments, i + 1),
        }
    }
}

/// Compiled arguments from a position on.
pub open spec fn compiled_arguments(
    around: Surroundings,
    state: State,
    compiler: ExpressionCompilerView,
    arguments: TreeView,
    i: nat,
    expected: ScalarType,
    done: Seq<CompiledExprView>,
) -> Step<Seq<CompiledExprView>>
    decreases tree::height(arguments), 3nat, tree::list(arguments).len() - i,
{
    if i >= tree::list(arguments).len() {
        Ok((done, state))
    } else {
        match compiled(
            around,
            state,
            compiler,
            argument_expression(tree::list(arguments)[i as int]),
            Some(expected),
        ) {
            Err(error) => Err(error),
            Ok((value, state)) => compiled_arguments(
                around,
                state,
                compiler,
                arguments,
                i + 1,
                expected,
                done.push(value),
            ),
        }
    }
}

/// The arm of a COALESCE for one value.
pub open spec fn present_arm(value: CompiledExprView) -> BranchArmView {
    BranchArmView {
        when: operators::unary_of(UnaryOp::IsNotNull, value.expr),
        value: value.expr,
    }
}

/// The first of the values that is not null, else the last.
pub open spec fn coalesced(values: Seq<CompiledExprView>, result_type: ScalarType) -> Result<
    CompiledExprView,
    ErrorView,
> {
    if values.len() == 0 {
        Err(ErrorView::Invalid("COALESCE needs at least one argument"@))
    } else if values.len() == 1 {
        Ok(values[0])
    } else {
        Ok(
            branch(
                Seq::new((values.len() - 1) as nat, |i: int| present_arm(values[i])),
                values.last().expr,
                result_type,
                forall|i: int| 0 <= i < values.len() ==> (#[trigger] values[i]).nullable,
            ),
        )
    }
}

/// A scalar function call.
pub open spec fn compiled_function(
    around: Surroundings,
    state: State,
    compiler: ExpressionCompilerView,
    function: TreeView,
    expected: Option<ScalarType>,
) -> Step<CompiledExprView>
    decreases tree::height(function), 4nat, 0nat,
{
    let list = tree::at(tree::at(function, "args"@), "List"@);
    let arguments = tree::at(list, "args"@);
    if !(tree::at(function, "over"@) is Null) || !(tree::at(function, "filter"@) is Null) {
        Err(ErrorView::Unsupported("window functions are not supported"@))
    } else {
        match literals::object_text(tree::at(function, "name"@)) {
            Err(error) => Err(error),
            Ok(name) => {
                let name = text::lower(name);
                if !tree::is(tree::at(function, "args"@), "List"@) {
                    Err(ErrorView::Unsupported("function "@ + name + " arguments"@))
                } else if odd_argument(arguments, 0) is Some {
                    Err(
                        ErrorView::Unsupported(
                            "function "@ + name + " argument "@ + syntax::shown_function_arg(
                                odd_argument(arguments, 0)->0,
                            ),
                        ),
                    )
                } else if name == "coalesce"@ {
                    let result_type = match expected {
                        Some(expected) => Some(expected),
                        None => arguments_hint(compiler, arguments, 0),
                    };
                    match result_type {
                        None => Err(
                            ErrorView::Invalid("cannot determine COALESCE result type"@),
                        ),
                        Some(result_type) => match compiled_arguments(
                            around,
                            state,
                            compiler,
                            arguments,
                            0,
                            result_type,
                            Seq::empty(),
                        ) {
                            Err(error) => Err(error),
                            Ok((values, state)) => settled(coalesced(values, result_type), state),
                        },
                    }
                } else if name == "nullif"@ && tree::list(arguments).len() == 2 {
                    match compiled(
                        around,
                        state,
                        compiler,
                        argument_expression(tree::list(arguments)[0]),
                        expected,
                    ) {
                        Err(error) => Err(error),
                        Ok((left, state)) => match compiled(
                            around,
                            state,
                            compiler,
                            argument_expression(tree::list(arguments)[1]),
                            Some(left.scalar_type),
                        ) {
                            Err(error) => Err(error),
                            Ok((right, state)) => Ok(
                                (
                                    branch(
                                        seq![
                                            BranchArmView {
                                                when: operators::binary_of(
                                                    BinaryOp::Eq,
                                                    left.expr,
                                                    right.expr,
                                                ),
                                                value: operators::null_constant(left.scalar_type),
                                            },
                                        ],
                                        left.expr,
                                        left.scalar_type,
                                        true,
                                    ),
                                    state,
                                ),
                            ),
                        },
                    }
                } else {
                    Err(
                        ErrorView::Unsupported(
                            "scalar function "@ + name + " is not supported"@,
                        ),
                    )
                }
            },
        }
    }
}

/// Whether a query has a row.
pub open spec fn existence(query: LoweredQueryView, negated: bool) -> CompiledExprView {
    CompiledExprView {
        expr: operators::negated_if(negated, ExprView::Exists(Box::new(query.relation))),
        scalar_type: ScalarType::Bool,
        nullable: false,
    }
}

pub open spec fn exists_query(query: Step<LoweredQueryView>, negated: bool) -> Step<
    CompiledExprView,
> {
    match query {
        Err(error) => Err(error),
        Ok((query, state)) => Ok((existence(query, negated), state)),
    }
}

/// The one value of a query with one column.
pub open spec fn scalar_of(query: LoweredQueryView) -> Result<CompiledExprView, ErrorView> {
    if query.columns.len() != 1 {
        Err(
            ErrorView::Invalid(
                "scalar subquery returns "@ + text::decimal(query.columns.len()) + " columns"@,
            ),
        )
    } else {
        Ok(
            CompiledExprView {
                expr: ExprView::Scalar(Box::new(query.relation)),
                scalar_type: query.columns[0].scalar_type,
                nullable: true,
            },
        )
    }
}

pub open spec fn scalar_query(query: Step<LoweredQueryView>) -> Step<CompiledExprView> {
    match query {
        Err(error) => Err(error),
        Ok((query, state)) => settled(scalar_of(query), state),
    }
}

/// Membership of a value in the one column of a query.
pub open spec fn membership(
    value: CompiledExprView,
    query: LoweredQueryView,
    negated: bool,
) -> Result<CompiledExprView, ErrorView> {
    if query.columns.len() != 1 {
        Err(
            ErrorView::Invalid(
                "IN subquery returns "@ + text::decimal(query.columns.len()) + " columns"@,
            ),
        )
    } else if query.columns[0].scalar_type != value.scalar_type {
        Err(
            ErrorView::Invalid(
                "IN compares "@ + literals::type_label(value.scalar_type) + " with "@
                    + literals::type_label(query.columns[0].scalar_type),
            ),
        )
    } else {
        let matching = RelationView::Filter {
            input: Box::new(query.relation),
            predicate: operators::binary_of(
                BinaryOp::Eq,
                value.expr,
                operators::column_of(query.scope, query.columns[0].row_field()),
            ),
        };
        Ok(
            CompiledExprView {
                expr: operators::negated_if(negated, ExprView::Exists(Box::new(matching))),
                scalar_type: ScalarType::Bool,
                nullable: false,
            },
        )
    }
}

pub open spec fn in_query(
    value: CompiledExprView,
    query: Step<LoweredQueryView>,
    negated: bool,
) -> Step<CompiledExprView> {
    match query {
        Err(error) => Err(error),
        Ok((query, state)) => settled(membership(value, query, negated), state),
    }
}

// ---- queries ----

/// A query inside row sources that it may refer to.
pub open spec fn lowered(
    around: Surroundings,
    state: State,
    query: TreeView,
    parent: ExpressionEnvView,
) -> Step<LoweredQueryView>
    decreases tree::height(query), 9nat, 0nat,
{
    let with = tree::at(query, "with"@);
    let body = tree::at(query, "body"@);
    if tree::list(tree::at(query, "locks"@)).len() > 0 || !(tree::at(query, "fetch"@) is Null) {
        Err(ErrorView::Unsupported("row locks and FETCH are not supported yet"@))
    } else {
        match registered(around, state, with, 0) {
            Err(error) => Err(error),
            Ok(state) => if tree::is(body, "Select"@) {
                selected(
                    around,
                    state,
                    tree::at(body, "Select"@),
                    tree::at(query, "order_by"@),
                    tree::at(query, "limit_clause"@),
                    parent,
                )
            } else if tree::is(body, "Query"@) {
                lowered(around, state, tree::at(body, "Query"@), parent)
            } else if tree::is(body, "SetOperation"@) {
                set_query(around, state, query, parent)
            } else {
                Err(
                    ErrorView::Unsupported(
                        "query body "@ + syntax::shown_set_expr(body) + " is not supported yet"@,
                    ),
                )
            },
        }
    }
}

/// The column names that a WITH item gives.
pub open spec fn cte_names(cte: TreeView) -> Seq<Seq<char>> {
    let columns = tree::list(tree::at(tree::at(cte, "alias"@), "columns"@));
    Seq::new(columns.len(), |i: int| literals::ident_name(tree::at(columns[i], "name"@)))
}

/// Whether a WITH item is a recursion over its own name.
pub open spec fn is_recursive(with: TreeView, cte: TreeView, name: Seq<char>) -> bool {
    let body = tree::at(tree::at(cte, "query"@), "body"@);
    let operation = tree::at(body, "SetOperation"@);
    tree::flag(tree::at(with, "recursive"@)) && tree::is(body, "SetOperation"@) && tree::is(
        tree::at(operation, "op"@),
        "Union"@,
    ) && shapes::body_reads(tree::at(operation, "right"@), name)
}

/// What is known after the WITH items from a position on.
pub open spec fn registered(around: Surroundings, state: State, with: TreeView, i: nat) -> Result<
    State,
    ErrorView,
>
    decreases tree::height(with), 8nat, tree::list(tree::at(with, "cte_tables"@)).len() - i,
{
    let items = tree::at(with, "cte_tables"@);
    if i >= tree::list(items).len() {
        Ok(state)
    } else {
        let cte = tree::list(items)[i as int];
        let name = literals::ident_name(tree::at(tree::at(cte, "alias"@), "name"@));
        if bound_columns(state.columns, name) is Some {
            Err(ErrorView::Invalid("WITH name "@ + text::quoted_text(name) + " used twice"@))
        } else {
            let after = if is_recursive(with, cte, name) {
                recursive_item(around, state, cte, name)
            } else {
                plain_item(around, state, cte, name)
            };
            match after {
                Err(error) => Err(error),
                Ok(state) => registered(around, state, with, i + 1),
            }
        }
    }
}

/// A query with its columns named by a WITH item.
pub open spec fn named_output(
    query: LoweredQueryView,
    state: State,
    names: Seq<Seq<char>>,
    base: Seq<char>,
) -> Step<LoweredQueryView> {
    if names.len() == 0 {
        Ok((query, state))
    } else {
        renamed_output(query, state, names, base)
    }
}

/// What is known after a WITH item that does not recurse.
pub open spec fn plain_item(
    around: Surroundings,
    state: State,
    cte: TreeView,
    name: Seq<char>,
) -> Result<State, ErrorView>
    decreases tree::height(cte), 10nat, 0nat,
{
    match lowered(around, state, tree::at(cte, "query"@), env::no_env()) {
        Err(error) => Err(error),
        Ok((query, state)) => match named_output(query, state, cte_names(cte), name) {
            Err(error) => Err(error),
            Ok((query, state)) => Ok(
                State {
                    columns: with_binding_columns(state.columns, name, query.columns, 0),
                    bindings: with_binding(state.bindings, name, query.relation, 0),
                    ..state
                },
            ),
        },
    }
}

/// Whether columns have the same number and types.
pub open spec fn same_types(left: Seq<ResultColumnView>, right: Seq<ResultColumnView>) -> bool {
    left.len() == right.len() && forall|i: int|
        0 <= i < left.len() ==> (#[trigger] left[i]).scalar_type == right[i].scalar_type
}

/// Which rows a recursive UNION feeds back.
pub open spec fn accumulated(quantifier: TreeView) -> Result<RecursiveAccumulation, ErrorView> {
    if tree::is(quantifier, "All"@) {
        Ok(RecursiveAccumulation::All)
    } else if tree::is(quantifier, "None"@) || tree::is(quantifier, "Distinct"@) {
        Ok(RecursiveAccumulation::New)
    } else {
        Err(
            ErrorView::Unsupported(
                "recursive UNION quantifier "@ + syntax::shown_set_quantifier(quantifier)
                    + " is not supported"@,
            ),
        )
    }
}

/// What is known after a recursive WITH item: its columns are those of the
/// anchor, and its step may refer to it.
pub open spec fn recursive_item(
    around: Surroundings,
    state: State,
    cte: TreeView,
    name: Seq<char>,
) -> Result<State, ErrorView>
    decreases tree::height(cte), 10nat, 0nat,
{
    let operation = tree::at(
        tree::at(tree::at(cte, "query"@), "body"@),
        "SetOperation"@,
    );
    match set_branch(around, state, tree::at(operation, "left"@), env::no_env()) {
        Err(error) => Err(error),
        Ok((anchor, state)) => match named_output(anchor, state, cte_names(cte), name) {
            Err(error) => Err(error),
            Ok((anchor, state)) => {
                let state = State {
                    columns: with_binding_columns(state.columns, name, anchor.columns, 0),
                    recursive: Some(name),
                    ..state
                };
                match set_branch(around, state, tree::at(operation, "right"@), env::no_env()) {
                    Err(error) => Err(error),
                    Ok((step, state)) => {
                        let state = State { recursive: None, ..state };
                        if !same_types(anchor.columns, step.columns) {
                            Err(
                                ErrorView::Invalid(
                                    "recursive CTE "@ + text::quoted_text(name)
                                        + " anchor and step have incompatible columns"@,
                                ),
                            )
                        } else {
                            let aligned = aligned_branch(
                                step,
                                state,
                                anchor.columns,
                                Seq::new(anchor.columns.len(), |i: int| false),
                            );
                            let state = after_label(state);
                            match accumulated(tree::at(operation, "set_quantifier"@)) {
                                Err(error) => Err(error),
                                Ok(accumulation) => Ok(
                                    State {
                                        bindings: with_binding(
                                            state.bindings,
                                            name,
                                            RelationView::Recursive {
                                                anchor: Box::new(anchor.relation),
                                                step: Box::new(aligned.relation),
                                                accumulation,
                                            },
                                            0,
                                        ),
                                        ..state
                                    },
                                ),
                            }
                        }
                    },
                }
            },
        },
    }
}

/// A query with its columns under other names, in a scope of their own.
pub open spec fn renamed_output(
    query: LoweredQueryView,
    state: State,
    names: Seq<Seq<char>>,
    base: Seq<char>,
) -> Step<LoweredQueryView> {
    if names.len() != query.columns.len() {
        Err(
            ErrorView::Invalid(
                base + " names "@ + text::decimal(names.len()) + " columns for a "@
                    + text::decimal(query.columns.len()) + "-column query"@,
            ),
        )
    } else {
        Ok((renamed_in(query, fresh_label(state, base), names), after_label(state)))
    }
}

/// One field of a renamed query.
pub open spec fn renamed_field(query: LoweredQueryView, names: Seq<Seq<char>>, i: int) -> ProjectFieldView {
    ProjectFieldView {
        name: names[i],
        expression: operators::column_of(query.scope, query.columns[i].row_field()),
    }
}

/// One column of a renamed query.
pub open spec fn renamed_column(query: LoweredQueryView, names: Seq<Seq<char>>, i: int) -> ResultColumnView {
    ResultColumnView { name: names[i], field: names[i], ..query.columns[i] }
}

/// A query projected into a scope under other column names.
pub open spec fn renamed_in(
    query: LoweredQueryView,
    scope: Seq<char>,
    names: Seq<Seq<char>>,
) -> LoweredQueryView {
    LoweredQueryView {
        relation: project(
            query.relation,
            scope,
            Seq::new(names.len(), |i: int| renamed_field(query, names, i)),
        ),
        columns: Seq::new(names.len(), |i: int| renamed_column(query, names, i)),
        scope,
        one: query.one,
    }
}

/// The smallest of three numbers.
pub open spec fn smallest(first: nat, second: nat, third: nat) -> nat {
    let pair = if first < second {
        first
    } else {
        second
    };
    if pair < third {
        pair
    } else {
        third
    }
}

/// A branch of a set operation under the columns of the whole, cast to floats
/// where asked.
pub open spec fn aligned_branch(
    query: LoweredQueryView,
    state: State,
    target: Seq<ResultColumnView>,
    casts: Seq<bool>,
) -> LoweredQueryView {
    aligned_in(query, fresh_label(state, "set_branch"@), target, casts)
}

/// An aligned branch in its scope.
pub open spec fn aligned_in(
    query: LoweredQueryView,
    scope: Seq<char>,
    target: Seq<ResultColumnView>,
    casts: Seq<bool>,
) -> LoweredQueryView {
    LoweredQueryView {
        relation: project(
            query.relation,
            scope,
            Seq::new(
                smallest(query.columns.len(), target.len(), casts.len()),
                |i: int| aligned_field(query, target, casts, i),
            ),
        ),
        columns: target,
        scope,
        one: query.one,
    }
}

/// One field of an aligned branch.
pub open spec fn aligned_field(
    query: LoweredQueryView,
    target: Seq<ResultColumnView>,
    casts: Seq<bool>,
    i: int,
) -> ProjectFieldView {
    let column = operators::column_of(query.scope, query.columns[i].row_field());
    ProjectFieldView {
        name: target[i].row_field(),
        expression: if casts[i] {
            ExprView::Cast { expression: Box::new(column), to: Kind::Float64 }
        } else {
            column
        },
    }
}

/// The order that an ORDER BY of an output gives, or none.
pub open spec fn set_query(
    around: Surroundings,
    state: State,
    query: TreeView,
    parent: ExpressionEnvView,
) -> Step<LoweredQueryView>
    decreases tree::height(query), 8nat, 0nat,
{
    let order = tree::at(query, "order_by"@);
    match set_branch(around, state, tree::at(query, "body"@), parent) {
        Err(error) => Err(error),
        Ok((body, state)) => {
            let compiler = env::over_output(body.scope, body.columns, Seq::empty());
            match output_sorted(around, state, compiler, order, None, body.columns) {
                Err(error) => Err(error),
                Ok((terms, state)) => {
                    let relation = match terms {
                        Some(terms) => RelationView::Order {
                            input: Box::new(body.relation),
                            terms,
                        },
                        None => if body.one {
                            body.relation
                        } else {
                            env::ordered_by_output(body.relation, body.columns, body.scope)
                        },
                    };
                    match limited(around, state, compiler, tree::at(query, "limit_clause"@)) {
                        Err(error) => Err(error),
                        Ok((slice, state)) => Ok(
                            (
                                LoweredQueryView {
                                    relation: sliced(relation, slice),
                                    one: body.one || shows_one(slice),
                                    ..body
                                },
                                state,
                            ),
                        ),
                    }
                },
            }
        },
    }
}

/// An offset and a limit.
pub struct Slice {
    pub offset: usize,
    pub limit: Option<usize>,
}

/// Whether a slice keeps at most one row.
pub open spec fn shows_one(slice: Option<Slice>) -> bool {
    match slice {
        Some(slice) => match slice.limit {
            Some(limit) => limit <= 1,
            None => false,
        },
        None => false,
    }
}

/// A relation cut down to a slice, where there is one.
pub open spec fn sliced(relation: RelationView, slice: Option<Slice>) -> RelationView {
    match slice {
        Some(slice) => RelationView::Slice {
            input: Box::new(relation),
            offset: slice.offset,
            limit: slice.limit,
        },
        None => relation,
    }
}

/// The first column from a position on whose two types cannot be united.
pub open spec fn ununited(
    left: Seq<ResultColumnView>,
    right: Seq<ResultColumnView>,
    i: nat,
) -> Option<nat>
    decreases left.len() - i,
{
    if i >= left.len() {
        None
    } else if unites(left[i as int].scalar_type, right[i as int].scalar_type) {
        ununited(left, right, i + 1)
    } else {
        Some(i)
    }
}

/// Whether two types have a common one: they are equal, or both numeric.
pub open spec fn unites(left: ScalarType, right: ScalarType) -> bool {
    left == right || (operators::is_numeric(left) && operators::is_numeric(right))
}

/// Whether the columns of two branches have common types.
pub open spec fn set_types(left: Seq<ResultColumnView>, right: Seq<ResultColumnView>) -> Result<
    (),
    ErrorView,
> {
    match ununited(left, right, 0) {
        Some(i) => Err(
            ErrorView::Invalid(
                "set-operation column "@ + text::decimal(i + 1) + " has types "@
                    + literals::type_label(left[i as int].scalar_type) + " and "@
                    + literals::type_label(right[i as int].scalar_type),
            ),
        ),
        None => Ok(()),
    }
}

/// The columns of a set operation.
pub open spec fn united(left: Seq<ResultColumnView>, right: Seq<ResultColumnView>) -> Seq<
    ResultColumnView,
> {
    Seq::new(
        left.len(),
        |i: int|
            ResultColumnView {
                scalar_type: if left[i].scalar_type == right[i].scalar_type {
                    left[i].scalar_type
                } else {
                    ScalarType::Float64
                },
                nullable: left[i].nullable || right[i].nullable,
                ..left[i]
            },
    )
}

/// Which columns of one branch must be cast to the type of the other.
pub open spec fn widened(mine: Seq<ResultColumnView>, other: Seq<ResultColumnView>) -> Seq<bool> {
    Seq::new(
        mine.len(),
        |i: int|
            mine[i].scalar_type == ScalarType::Int64 && other[i].scalar_type == ScalarType::Float64,
    )
}

/// Whether a set operation keeps duplicates.
pub open spec fn quantified(quantifier: TreeView) -> Result<SetQuantifier, ErrorView> {
    if tree::is(quantifier, "All"@) {
        Ok(SetQuantifier::All)
    } else if tree::is(quantifier, "None"@) || tree::is(quantifier, "Distinct"@) {
        Ok(SetQuantifier::Distinct)
    } else {
        Err(
            ErrorView::Unsupported(
                "set quantifier "@ + syntax::shown_set_quantifier(quantifier)
                    + " is not supported"@,
            ),
        )
    }
}

/// The relation of a set operation.
pub open spec fn set_relation(
    operator: TreeView,
    quantifier: SetQuantifier,
    scope: Seq<char>,
    left: RelationView,
    right: RelationView,
) -> Result<RelationView, ErrorView> {
    if tree::is(operator, "Union"@) {
        let all = RelationView::Concatenate { scope, inputs: seq![left, right] };
        if quantifier == SetQuantifier::Distinct {
            Ok(RelationView::Distinct(Box::new(all)))
        } else {
            Ok(all)
        }
    } else if tree::is(operator, "Intersect"@) {
        Ok(
            RelationView::Intersect {
                scope,
                left: Box::new(left),
                right: Box::new(right),
                quantifier,
            },
        )
    } else if tree::is(operator, "Except"@) {
        Ok(
            RelationView::Except {
                scope,
                left: Box::new(left),
                right: Box::new(right),
                quantifier,
            },
        )
    } else {
        Err(ErrorView::Unsupported("MINUS is not PostgreSQL syntax"@))
    }
}

/// Two branches as one set operation.
pub open spec fn set_combined(
    operation: TreeView,
    state: State,
    left: LoweredQueryView,
    right: LoweredQueryView,
) -> Step<LoweredQueryView> {
    if left.columns.len() != right.columns.len() {
        Err(
            ErrorView::Invalid(
                "set-operation branches return "@ + text::decimal(left.columns.len()) + " and "@
                    + text::decimal(right.columns.len()) + " columns"@,
            ),
        )
    } else {
        match set_types(left.columns, right.columns) {
            Err(error) => Err(error),
            Ok(_) => {
                let target = united(left.columns, right.columns);
                let aligned_left = aligned_branch(
                    left,
                    state,
                    target,
                    widened(left.columns, right.columns),
                );
                let state = after_label(state);
                let aligned_right = aligned_branch(
                    right,
                    state,
                    target,
                    widened(right.columns, left.columns),
                );
                let state = after_label(state);
                let scope = fresh_label(state, "set"@);
                let state = after_label(state);
                match quantified(tree::at(operation, "set_quantifier"@)) {
                    Err(error) => Err(error),
                    Ok(quantifier) => match set_relation(
                        tree::at(operation, "op"@),
                        quantifier,
                        scope,
                        aligned_left.relation,
                        aligned_right.relation,
                    ) {
                        Err(error) => Err(error),
                        Ok(relation) => Ok(
                            (
                                LoweredQueryView { relation, columns: target, scope, one: false },
                                state,
                            ),
                        ),
                    },
                }
            },
        }
    }
}

/// A branch of a set operation.
pub open spec fn set_branch(
    around: Surroundings,
    state: State,
    body: TreeView,
    parent: ExpressionEnvView,
) -> Step<LoweredQueryView>
    decreases tree::height(body), 7nat, 0nat,
{
    let operation = tree::at(body, "SetOperation"@);
    if tree::is(body, "Select"@) {
        selected(
            around,
            state,
            tree::at(body, "Select"@),
            TreeView::Null,
            TreeView::Null,
            parent,
        )
    } else if tree::is(body, "Query"@) {
        lowered(around, state, tree::at(body, "Query"@), parent)
    } else if tree::is(body, "SetOperation"@) {
        match set_branch(around, state, tree::at(operation, "left"@), parent) {
            Err(error) => Err(error),
            Ok((left, state)) => match set_branch(
                around,
                state,
                tree::at(operation, "right"@),
                parent,
            ) {
                Err(error) => Err(error),
                Ok((right, state)) => set_combined(operation, state, left, right),
            },
        }
    } else {
        Err(
            ErrorView::Unsupported(
                "set-operation branch "@ + syntax::shown_set_expr(body) + " is not supported"@,
            ),
        )
    }
}

// ---- SELECT ----

/// The expressions of a GROUP BY.
pub open spec fn group_values(select: TreeView) -> TreeView {
    tree::part(tree::at(tree::at(select, "group_by"@), "Expressions"@), 0)
}

/// The modifiers of a GROUP BY.
pub open spec fn group_modifiers(select: TreeView) -> TreeView {
    tree::part(tree::at(tree::at(select, "group_by"@), "Expressions"@), 1)
}

/// Whether a SELECT has a GROUP BY.
pub open spec fn is_grouped(select: TreeView) -> bool {
    tree::is(tree::at(select, "group_by"@), "All"@) || tree::list(group_values(select)).len() > 0
        || tree::list(group_modifiers(select)).len() > 0
}

/// Whether a projected expression holds an aggregate, from a position on.
pub open spec fn projects_aggregate(projection: TreeView, i: nat) -> bool
    decreases tree::list(projection).len() - i,
{
    if i >= tree::list(projection).len() {
        false
    } else {
        let item = tree::list(projection)[i as int];
        (shapes::is_expression_item(item) && shapes::aggregates_in(
            shapes::item_expression(item),
            Seq::empty(),
        ).len() > 0) || projects_aggregate(projection, i + 1)
    }
}

/// Whether a SELECT aggregates its rows.
pub open spec fn aggregates(select: TreeView) -> bool {
    is_grouped(select) || projects_aggregate(tree::at(select, "projection"@), 0) || !(tree::at(
        select,
        "having"@,
    ) is Null)
}

/// The height of a SELECT with what sorts and limits it.
pub open spec fn select_height(select: TreeView, order: TreeView, limit: TreeView) -> nat {
    higher(tree::height(select), higher(tree::height(order), tree::height(limit)))
}

/// A SELECT.
pub open spec fn selected(
    around: Surroundings,
    state: State,
    select: TreeView,
    order: TreeView,
    limit: TreeView,
    parent: ExpressionEnvView,
) -> Step<LoweredQueryView>
    decreases select_height(select, order, limit), 6nat, 0nat,
{
    if aggregates(select) {
        aggregated(around, state, select, order, limit, parent)
    } else {
        plainly_selected(around, state, select, order, limit, parent)
    }
}

/// A relation under a predicate, where there is one.
pub open spec fn filtered(
    around: Surroundings,
    state: State,
    compiler: ExpressionCompilerView,
    relation: RelationView,
    predicate: TreeView,
) -> Step<RelationView>
    decreases tree::height(predicate), 2nat, 0nat,
{
    if predicate is Null {
        Ok((relation, state))
    } else {
        match compiled(around, state, compiler, predicate, Some(ScalarType::Bool)) {
            Err(error) => Err(error),
            Ok((predicate, state)) => Ok(
                (
                    RelationView::Filter {
                        input: Box::new(relation),
                        predicate: predicate.expr,
                    },
                    state,
                ),
            ),
        }
    }
}

/// Whether a sort key descends.
pub open spec fn descends(term: TreeView) -> bool {
    tree::at(tree::at(term, "options"@), "asc"@) == TreeView::Bool(false)
}

/// Whether nulls come before other values of a sort key: as asked, else where
/// it descends.
pub open spec fn nulls_lead(term: TreeView) -> bool {
    match tree::at(tree::at(term, "options"@), "nulls_first"@) {
        TreeView::Bool(first) => first,
        _ => descends(term),
    }
}

/// The two order terms of a sort key: where its nulls go, and its values.
pub open spec fn sort_pair(expression: ExprView, term: TreeView) -> Seq<OrderTermView> {
    seq![
        OrderTermView {
            expression: operators::unary_of(UnaryOp::IsNull, expression),
            descending: nulls_lead(term),
        },
        OrderTermView { expression, descending: descends(term) },
    ]
}

/// The order terms of sort keys over what a SELECT projects, from a position
/// on.
pub open spec fn sorted_terms(
    around: Surroundings,
    state: State,
    compiler: ExpressionCompilerView,
    terms: TreeView,
    i: nat,
    projection: TreeView,
    done: Seq<OrderTermView>,
) -> Step<Seq<OrderTermView>>
    decreases
            higher(tree::height(terms), tree::height(projection)),
            3nat,
            tree::list(terms).len() - i,
{
    if i >= tree::list(terms).len() {
        Ok((done, state))
    } else {
        let term = tree::list(terms)[i as int];
        proof {
            shapes::lemma_projected_key_height(tree::at(term, "expr"@), projection);
        }
        match shapes::projected_key(tree::at(term, "expr"@), projection) {
            Err(error) => Err(error),
            Ok(key) => match compiled(around, state, compiler, key, None) {
                Err(error) => Err(error),
                Ok((value, state)) => sorted_terms(
                    around,
                    state,
                    compiler,
                    terms,
                    i + 1,
                    projection,
                    done + sort_pair(value.expr, term),
                ),
            },
        }
    }
}

/// The order terms of an ORDER BY over what a SELECT projects, where there is
/// one.
pub open spec fn sorted(
    around: Surroundings,
    state: State,
    compiler: ExpressionCompilerView,
    order: TreeView,
    projection: TreeView,
) -> Step<Option<Seq<OrderTermView>>>
    decreases higher(tree::height(order), tree::height(projection)), 4nat, 0nat,
{
    let kind = tree::at(order, "kind"@);
    if order is Null {
        Ok((None, state))
    } else if tree::is(kind, "Expressions"@) {
        match sorted_terms(
            around,
            state,
            compiler,
            tree::at(kind, "Expressions"@),
            0,
            projection,
            Seq::empty(),
        ) {
            Err(error) => Err(error),
            Ok((terms, state)) => Ok((Some(terms), state)),
        }
    } else {
        Err(ErrorView::Unsupported("ORDER BY ALL is not supported"@))
    }
}

/// The key of an output that a sort expression means: over a projection also
/// by the projected expression itself.
pub open spec fn output_sort_key(
    expression: TreeView,
    projection: Option<TreeView>,
    columns: Seq<ResultColumnView>,
) -> Result<OutputKeyView, ErrorView> {
    match projection {
        Some(projection) => Ok(shapes::projected_output_key(expression, projection, columns)),
        None => shapes::output_key(expression, columns),
    }
}

pub proof fn lemma_output_sort_key_height(
    expression: TreeView,
    projection: Option<TreeView>,
    columns: Seq<ResultColumnView>,
)
    ensures
        output_sort_key(expression, projection, columns) matches Ok(OutputKeyView::Syntax(syntax))
            ==> syntax == expression,
{
}

/// The value of a sort key over an output.
pub open spec fn output_sort_value(
    around: Surroundings,
    state: State,
    compiler: ExpressionCompilerView,
    expression: TreeView,
    projection: Option<TreeView>,
    columns: Seq<ResultColumnView>,
) -> Step<CompiledExprView>
    decreases tree::height(expression), 2nat, 0nat,
{
    proof {
        lemma_output_sort_key_height(expression, projection, columns);
    }
    match output_sort_key(expression, projection, columns) {
        Err(error) => Err(error),
        Ok(OutputKeyView::Column(name)) => settled(
            env::named_column(compiler, None, name),
            state,
        ),
        Ok(OutputKeyView::Syntax(syntax)) => compiled(around, state, compiler, syntax, None),
    }
}

/// The order terms of sort keys over an output, from a position on.
pub open spec fn output_sorted_terms(
    around: Surroundings,
    state: State,
    compiler: ExpressionCompilerView,
    terms: TreeView,
    i: nat,
    projection: Option<TreeView>,
    columns: Seq<ResultColumnView>,
    done: Seq<OrderTermView>,
) -> Step<Seq<OrderTermView>>
    decreases tree::height(terms), 3nat, tree::list(terms).len() - i,
{
    if i >= tree::list(terms).len() {
        Ok((done, state))
    } else {
        let term = tree::list(terms)[i as int];
        match output_sort_value(
            around,
            state,
            compiler,
            tree::at(term, "expr"@),
            projection,
            columns,
        ) {
            Err(error) => Err(error),
            Ok((value, state)) => output_sorted_terms(
                around,
                state,
                compiler,
                terms,
                i + 1,
                projection,
                columns,
                done + sort_pair(value.expr, term),
            ),
        }
    }
}

/// The order terms of an ORDER BY over an output, where there is one.
pub open spec fn output_sorted(
    around: Surroundings,
    state: State,
    compiler: ExpressionCompilerView,
    order: TreeView,
    projection: Option<TreeView>,
    columns: Seq<ResultColumnView>,
) -> Step<Option<Seq<OrderTermView>>>
    decreases tree::height(order), 4nat, 0nat,
{
    let kind = tree::at(order, "kind"@);
    if order is Null {
        Ok((None, state))
    } else if tree::is(kind, "Expressions"@) {
        match output_sorted_terms(
            around,
            state,
            compiler,
            tree::at(kind, "Expressions"@),
            0,
            projection,
            columns,
            Seq::empty(),
        ) {
            Err(error) => Err(error),
            Ok((terms, state)) => Ok((Some(terms), state)),
        }
    } else {
        Err(ErrorView::Unsupported("ORDER BY ALL is not supported"@))
    }
}

/// A bound of a LIMIT or OFFSET.
pub open spec fn counted(
    around: Surroundings,
    state: State,
    compiler: ExpressionCompilerView,
    expression: TreeView,
) -> Step<usize>
    decreases tree::height(expression), 2nat, 0nat,
{
    match compiled(around, state, compiler, expression, Some(ScalarType::Int64)) {
        Err(error) => Err(error),
        Ok((value, state)) => match value.expr {
            ExprView::Literal(LiteralView { raw: RawScalarView::Number(digits), .. }) => {
                match text::unsigned_value(digits, usize::MAX as nat) {
                    Some(count) => Ok((count as usize, state)),
                    None => Err(
                        ErrorView::Invalid(
                            "LIMIT/OFFSET "@ + text::quoted_text(digits)
                                + " is not a non-negative integer"@,
                        ),
                    ),
                }
            },
            _ => Err(ErrorView::Invalid("LIMIT/OFFSET must be a bound integer"@)),
        },
    }
}

/// The slice of a LIMIT clause, where there is one.
pub open spec fn limited(
    around: Surroundings,
    state: State,
    compiler: ExpressionCompilerView,
    clause: TreeView,
) -> Step<Option<Slice>>
    decreases tree::height(clause), 3nat, 0nat,
{
    let bounds = tree::at(clause, "LimitOffset"@);
    let limit = tree::at(bounds, "limit"@);
    let offset = tree::at(bounds, "offset"@);
    if clause is Null {
        Ok((None, state))
    } else if !tree::is(clause, "LimitOffset"@) {
        Err(ErrorView::Unsupported("comma LIMIT syntax is not supported"@))
    } else if tree::list(tree::at(bounds, "limit_by"@)).len() > 0 {
        Err(ErrorView::Unsupported("LIMIT BY is not supported"@))
    } else {
        let limit = if limit is Null {
            Ok((None, state))
        } else {
            match counted(around, state, compiler, limit) {
                Err(error) => Err(error),
                Ok((limit, state)) => Ok((Some(limit), state)),
            }
        };
        match limit {
            Err(error) => Err(error),
            Ok((limit, state)) => if offset is Null {
                Ok((Some(Slice { offset: 0, limit }), state))
            } else {
                match counted(around, state, compiler, tree::at(offset, "value"@)) {
                    Err(error) => Err(error),
                    Ok((offset, state)) => Ok((Some(Slice { offset, limit }), state)),
                }
            },
        }
    }
}

/// What a projection has produced: the names used, and the fields and columns.
#[verifier::ext_equal]
pub struct Outputs {
    pub names: Seq<Seq<char>>,
    pub fields: Seq<ProjectFieldView>,
    pub columns: Seq<ResultColumnView>,
}

/// No output yet.
pub open spec fn no_outputs() -> Outputs {
    Outputs { names: Seq::empty(), fields: Seq::empty(), columns: Seq::empty() }
}

/// The output with the columns of a row source from a position on.
pub open spec fn with_columns(done: Outputs, scope: ScopeDefView, i: nat) -> Outputs
    decreases scope.columns.len() - i,
{
    if i >= scope.columns.len() {
        done
    } else {
        let names = done.names.push(scope.columns[i as int].name);
        let column = ResultColumnView {
            field: env::unique_field(names),
            ..scope.columns[i as int]
        };
        with_columns(
            Outputs {
                names,
                fields: done.fields.push(
                    ProjectFieldView {
                        name: column.field,
                        expression: operators::column_of(
                            scope.label,
                            scope.columns[i as int].row_field(),
                        ),
                    },
                ),
                columns: done.columns.push(column),
            },
            scope,
            i + 1,
        )
    }
}

/// The output with the columns of row sources from a position on.
pub open spec fn with_scopes(done: Outputs, scopes: Seq<ScopeDefView>, i: nat) -> Outputs
    decreases scopes.len() - i,
{
    if i >= scopes.len() {
        done
    } else {
        with_scopes(with_columns(done, scopes[i as int], 0), scopes, i + 1)
    }
}

/// The output with one expression.
pub open spec fn with_expression(
    done: Outputs,
    item: TreeView,
    value: CompiledExprView,
    env: ExpressionEnvView,
) -> Outputs {
    let names = done.names.push(shapes::item_name(item));
    let field = env::unique_field(names);
    Outputs {
        names,
        fields: done.fields.push(ProjectFieldView { name: field, expression: value.expr }),
        columns: done.columns.push(
            ResultColumnView {
                name: shapes::item_name(item),
                field,
                scalar_type: value.scalar_type,
                nullable: value.nullable,
                format: shapes::column_format(shapes::item_expression(item), env),
            },
        ),
    }
}

/// The output with a wildcard.
pub open spec fn with_wildcard(done: Outputs, item: TreeView, env: ExpressionEnvView) -> Result<
    Outputs,
    ErrorView,
> {
    let kind = tree::part(tree::at(item, "QualifiedWildcard"@), 0);
    let name = tree::at(kind, "ObjectName"@);
    if tree::is(item, "Wildcard"@) {
        if env::local_scopes(env).len() == 0 {
            Err(ErrorView::Invalid("SELECT * needs a FROM item"@))
        } else {
            Ok(with_scopes(done, env::local_scopes(env), 0))
        }
    } else if tree::is(item, "QualifiedWildcard"@) && tree::is(kind, "ObjectName"@) {
        match literals::object_text(name) {
            Err(error) => Err(error),
            Ok(qualifier) => match env::find_scope(env::local_scopes(env), qualifier) {
                Some(scope) => Ok(with_columns(done, scope, 0)),
                None => Err(
                    ErrorView::Invalid(
                        "unknown wildcard qualifier "@ + syntax::shown_object_name(name),
                    ),
                ),
            },
        }
    } else {
        Err(
            ErrorView::Unsupported(
                "projection item "@ + syntax::shown_select_item(item) + " is not supported"@,
            ),
        )
    }
}

/// The output of projection items from a position on.
pub open spec fn projected(
    around: Surroundings,
    state: State,
    compiler: ExpressionCompilerView,
    items: TreeView,
    i: nat,
    done: Outputs,
) -> Step<Outputs>
    decreases tree::height(items), 3nat, tree::list(items).len() - i,
{
    if i >= tree::list(items).len() {
        Ok((done, state))
    } else {
        let item = tree::list(items)[i as int];
        if shapes::is_expression_item(item) {
            match compiled(around, state, compiler, shapes::item_expression(item), None) {
                Err(error) => Err(error),
                Ok((value, state)) => projected(
                    around,
                    state,
                    compiler,
                    items,
                    i + 1,
                    with_expression(done, item, value, compiler.env),
                ),
            }
        } else {
            match with_wildcard(done, item, compiler.env) {
                Err(error) => Err(error),
                Ok(done) => projected(around, state, compiler, items, i + 1, done),
            }
        }
    }
}

/// A projection into a scope.
pub open spec fn project(
    input: RelationView,
    scope: Seq<char>,
    fields: Seq<ProjectFieldView>,
) -> RelationView {
    RelationView::Project {
        input: Box::new(input),
        scope: Some(scope),
        spread: Seq::empty(),
        fields,
    }
}

/// The relation of a SELECT that keeps duplicates: sorted before it is
/// projected where there is something to sort by, and by its output otherwise.
pub open spec fn arranged(
    relation: RelationView,
    terms: Seq<OrderTermView>,
    slice: Option<Slice>,
    scope: Seq<char>,
    fields: Seq<ProjectFieldView>,
    columns: Seq<ResultColumnView>,
) -> RelationView {
    if terms.len() == 0 {
        sliced(
            env::ordered_by_output(project(relation, scope, fields), columns, scope),
            slice,
        )
    } else {
        project(
            sliced(RelationView::Order { input: Box::new(relation), terms }, slice),
            scope,
            fields,
        )
    }
}

/// An output without duplicates, sorted by itself.
pub open spec fn distinctly_arranged(
    around: Surroundings,
    state: State,
    order: TreeView,
    projection: TreeView,
    projected: RelationView,
    columns: Seq<ResultColumnView>,
    scope: Seq<char>,
    slice: Option<Slice>,
) -> Step<RelationView>
    decreases tree::height(order), 5nat, 0nat,
{
    match output_sorted(
        around,
        state,
        env::over_output(scope, columns, Seq::empty()),
        order,
        Some(projection),
        columns,
    ) {
        Err(error) => Err(error),
        Ok((terms, state)) => Ok(
            (
                sliced(
                    RelationView::Order {
                        input: Box::new(RelationView::Distinct(Box::new(projected))),
                        terms: match terms {
                            Some(terms) => terms,
                            None => env::output_terms(columns, scope),
                        },
                    },
                    slice,
                ),
                state,
            ),
        ),
    }
}

/// What a SELECT without aggregates has before it is arranged.
pub struct Selection {
    pub relation: RelationView,
    pub terms: Seq<OrderTermView>,
    pub slice: Option<Slice>,
    pub outputs: Outputs,
}

/// The filter, order, limit and projection of a SELECT without aggregates.
pub open spec fn selection(
    around: Surroundings,
    state: State,
    select: TreeView,
    order: TreeView,
    limit: TreeView,
    source: SelectSourceView,
) -> Step<Selection>
    decreases select_height(select, order, limit), 4nat, 1nat,
{
    let compiler = env::over(source.env);
    let projection = tree::at(select, "projection"@);
    match filtered(around, state, compiler, source.relation, tree::at(select, "selection"@)) {
        Err(error) => Err(error),
        Ok((relation, state)) => match sorted(around, state, compiler, order, projection) {
            Err(error) => Err(error),
            Ok((terms, state)) => match limited(around, state, compiler, limit) {
                Err(error) => Err(error),
                Ok((slice, state)) => match projected(
                    around,
                    state,
                    compiler,
                    projection,
                    0,
                    no_outputs(),
                ) {
                    Err(error) => Err(error),
                    Ok((outputs, state)) => Ok(
                        (
                            Selection {
                                relation,
                                terms: match terms {
                                    Some(terms) => terms,
                                    None => source.default_order,
                                },
                                slice,
                                outputs,
                            },
                            state,
                        ),
                    ),
                },
            },
        },
    }
}

/// A SELECT without aggregates.
pub open spec fn plainly_selected(
    around: Surroundings,
    state: State,
    select: TreeView,
    order: TreeView,
    limit: TreeView,
    parent: ExpressionEnvView,
) -> Step<LoweredQueryView>
    decreases select_height(select, order, limit), 5nat, 1nat,
{
    let projection = tree::at(select, "projection"@);
    match source_of(around, state, select, parent) {
        Err(error) => Err(error),
        Ok((source, state)) => match shapes::drops_duplicates(select) {
            Err(error) => Err(error),
            Ok(distinct) => {
                let scope = fresh_label(state, "result"@);
                match selection(around, after_label(state), select, order, limit, source) {
                    Err(error) => Err(error),
                    Ok((found, state)) => {
                        let one = tree::list(tree::at(select, "from"@)).len() == 0 || shows_one(
                            found.slice,
                        );
                        let columns = found.outputs.columns;
                        if distinct {
                            match distinctly_arranged(
                                around,
                                state,
                                order,
                                projection,
                                project(found.relation, scope, found.outputs.fields),
                                columns,
                                scope,
                                found.slice,
                            ) {
                                Err(error) => Err(error),
                                Ok((relation, state)) => Ok(
                                    (LoweredQueryView { relation, columns, scope, one }, state),
                                ),
                            }
                        } else {
                            let relation = arranged(
                                found.relation,
                                found.terms,
                                found.slice,
                                scope,
                                found.outputs.fields,
                                columns,
                            );
                            Ok((LoweredQueryView { relation, columns, scope, one }, state))
                        }
                    },
                }
            },
        },
    }
}

// ---- row sources ----

/// The row source of a SELECT without a FROM: one row.
pub open spec fn constant_source(label: Seq<char>, parent: ExpressionEnvView) -> SelectSourceView {
    let column = ResultColumnView {
        name: "_one"@,
        field: "_one"@,
        scalar_type: ScalarType::Int64,
        nullable: false,
        format: Seq::empty(),
    };
    SelectSourceView {
        relation: RelationView::Rows {
            scope: label,
            columns: seq![
                RowsColumnView { name: "_one"@, kind: Kind::Int64, nullable: false },
            ],
            values: seq![seq![RawScalarView::Number("1"@)]],
        },
        env: env::local_env(
            seq![
                ScopeDefView {
                    alias: "constant"@,
                    label,
                    columns: seq![column],
                    primary_key: Seq::empty(),
                },
            ],
            parent,
        ),
        default_order: seq![
            OrderTermView {
                expression: operators::column_of(label, "_one"@),
                descending: false,
            },
        ],
    }
}

/// The row sources of a SELECT.
pub open spec fn source_of(
    around: Surroundings,
    state: State,
    select: TreeView,
    parent: ExpressionEnvView,
) -> Step<SelectSourceView>
    decreases tree::height(select), 4nat, 0nat,
{
    let from = tree::at(select, "from"@);
    if tree::list(from).len() == 0 {
        Ok((constant_source(fresh_label(state, "constant"@), parent), after_label(state)))
    } else {
        match from_items(around, state, from, 0, parent, no_sources()) {
            Err(error) => Err(error),
            Ok((sources, state)) => Ok((all_sources(sources, parent), state)),
        }
    }
}

/// The row sources joined so far, with their scopes.
#[verifier::ext_equal]
pub struct Sources {
    pub relation: Option<RelationView>,
    pub scopes: Seq<ScopeDefView>,
}

/// No row source yet.
pub open spec fn no_sources() -> Sources {
    Sources { relation: None, scopes: Seq::empty() }
}

/// The order terms for the primary keys of row sources, from a position on.
pub open spec fn key_order(scopes: Seq<ScopeDefView>, i: nat, done: Seq<OrderTermView>) -> Seq<
    OrderTermView,
>
    decreases scopes.len() - i,
{
    if i >= scopes.len() {
        done
    } else {
        key_order(
            scopes,
            i + 1,
            done + env::name_terms(scopes[i as int].primary_key, scopes[i as int].label),
        )
    }
}

/// Joined row sources as those of a SELECT.
pub open spec fn all_sources(sources: Sources, parent: ExpressionEnvView) -> SelectSourceView {
    SelectSourceView {
        relation: sources.relation->0,
        env: env::local_env(sources.scopes, parent),
        default_order: key_order(sources.scopes, 0, Seq::empty()),
    }
}

/// An inner join.
pub open spec fn crossed(left: Option<RelationView>, right: RelationView) -> RelationView {
    match left {
        Some(left) => RelationView::Join {
            left: Box::new(left),
            right: Box::new(right),
            kind: JoinKind::Inner,
            on: operators::bool_constant(true),
        },
        None => right,
    }
}

/// The row sources with the FROM items from a position on.
pub open spec fn from_items(
    around: Surroundings,
    state: State,
    items: TreeView,
    i: nat,
    parent: ExpressionEnvView,
    done: Sources,
) -> Step<Sources>
    decreases tree::height(items), 3nat, tree::list(items).len() - i,
{
    if i >= tree::list(items).len() {
        Ok((done, state))
    } else {
        match from_item(around, state, tree::list(items)[i as int], parent, done) {
            Err(error) => Err(error),
            Ok((done, state)) => from_items(around, state, items, i + 1, parent, done),
        }
    }
}

/// The row sources with one more FROM item.
pub open spec fn from_item(
    around: Surroundings,
    state: State,
    item: TreeView,
    parent: ExpressionEnvView,
    done: Sources,
) -> Step<Sources>
    decreases tree::height(item), 5nat, 0nat,
{
    match table_source(around, state, tree::at(item, "relation"@), parent) {
        Err(error) => Err(error),
        Ok(((relation, scope), state)) => joined(
            around,
            state,
            tree::at(item, "joins"@),
            0,
            parent,
            Sources {
                relation: Some(crossed(done.relation, relation)),
                scopes: done.scopes.push(scope),
            },
        ),
    }
}

/// The row sources with the joins of a FROM item from a position on.
pub open spec fn joined(
    around: Surroundings,
    state: State,
    joins: TreeView,
    i: nat,
    parent: ExpressionEnvView,
    done: Sources,
) -> Step<Sources>
    decreases tree::height(joins), 4nat, tree::list(joins).len() - i,
{
    if i >= tree::list(joins).len() {
        Ok((done, state))
    } else {
        match join_with(around, state, tree::list(joins)[i as int], parent, done) {
            Err(error) => Err(error),
            Ok((done, state)) => joined(around, state, joins, i + 1, parent, done),
        }
    }
}

/// Which side of a join keeps the rows that match nothing, and its constraint.
pub struct JoinShape {
    pub keeps_left: bool,
    pub keeps_right: bool,
    pub constraint: TreeView,
}

/// The shape of a join operator.
pub open spec fn join_shape(operator: TreeView) -> Result<JoinShape, ErrorView> {
    if tree::is(operator, "Join"@) {
        Ok(inner_shape(tree::at(operator, "Join"@)))
    } else if tree::is(operator, "Inner"@) {
        Ok(inner_shape(tree::at(operator, "Inner"@)))
    } else if tree::is(operator, "CrossJoin"@) {
        Ok(inner_shape(tree::at(operator, "CrossJoin"@)))
    } else if tree::is(operator, "Left"@) {
        Ok(left_shape(tree::at(operator, "Left"@)))
    } else if tree::is(operator, "LeftOuter"@) {
        Ok(left_shape(tree::at(operator, "LeftOuter"@)))
    } else if tree::is(operator, "Right"@) {
        Ok(right_shape(tree::at(operator, "Right"@)))
    } else if tree::is(operator, "RightOuter"@) {
        Ok(right_shape(tree::at(operator, "RightOuter"@)))
    } else if tree::is(operator, "FullOuter"@) {
        Err(ErrorView::Unsupported("FULL OUTER JOIN needs a Rad relational primitive"@))
    } else {
        Err(
            ErrorView::Unsupported(
                "join operator "@ + syntax::shown_join_operator(operator) + " is not supported"@,
            ),
        )
    }
}

pub open spec fn inner_shape(constraint: TreeView) -> JoinShape {
    JoinShape { keeps_left: false, keeps_right: false, constraint }
}

pub open spec fn left_shape(constraint: TreeView) -> JoinShape {
    JoinShape { keeps_left: true, keeps_right: false, constraint }
}

pub open spec fn right_shape(constraint: TreeView) -> JoinShape {
    JoinShape { keeps_left: false, keeps_right: true, constraint }
}

pub proof fn lemma_join_shape_height(operator: TreeView)
    ensures
        join_shape(operator) matches Ok(shape) ==> tree::height(shape.constraint) <= tree::height(
            operator,
        ),
{
    assert(tree::height(tree::at(operator, "Join"@)) <= tree::height(operator));
    assert(tree::height(tree::at(operator, "Inner"@)) <= tree::height(operator));
    assert(tree::height(tree::at(operator, "CrossJoin"@)) <= tree::height(operator));
    assert(tree::height(tree::at(operator, "Left"@)) <= tree::height(operator));
    assert(tree::height(tree::at(operator, "LeftOuter"@)) <= tree::height(operator));
    assert(tree::height(tree::at(operator, "Right"@)) <= tree::height(operator));
    assert(tree::height(tree::at(operator, "RightOuter"@)) <= tree::height(operator));
}

/// A row source whose columns may all be null.
pub open spec fn nullable_scope(scope: ScopeDefView) -> ScopeDefView {
    ScopeDefView {
        columns: Seq::new(
            scope.columns.len(),
            |i: int| ResultColumnView { nullable: true, ..scope.columns[i] },
        ),
        ..scope
    }
}

/// Row sources whose columns may be null where a join keeps the other side.
pub open spec fn nullable_if(nullable: bool, scopes: Seq<ScopeDefView>) -> Seq<ScopeDefView> {
    if nullable {
        Seq::new(scopes.len(), |i: int| nullable_scope(scopes[i]))
    } else {
        scopes
    }
}

/// The row sources with one more join.
pub open spec fn join_with(
    around: Surroundings,
    state: State,
    join: TreeView,
    parent: ExpressionEnvView,
    done: Sources,
) -> Step<Sources>
    decreases tree::height(join), 5nat, 0nat,
{
    match table_source(around, state, tree::at(join, "relation"@), parent) {
        Err(error) => Err(error),
        Ok(((right, scope), state)) => {
            proof {
                lemma_join_shape_height(tree::at(join, "join_operator"@));
            }
            match join_shape(tree::at(join, "join_operator"@)) {
                Err(error) => Err(error),
                Ok(shape) => {
                    let env = env::local_env(done.scopes.push(scope), parent);
                    let right_scope = if shape.keeps_left {
                        nullable_scope(scope)
                    } else {
                        scope
                    };
                    let scopes = nullable_if(shape.keeps_right, done.scopes);
                    match join_condition(
                        around,
                        state,
                        shape.constraint,
                        env,
                        scopes,
                        right_scope,
                    ) {
                        Err(error) => Err(error),
                        Ok((on, state)) => Ok(
                            (
                                Sources {
                                    relation: Some(
                                        join_relation(done.relation->0, right, shape, on),
                                    ),
                                    scopes: scopes.push(right_scope),
                                },
                                state,
                            ),
                        ),
                    }
                },
            }
        },
    }
}

/// A join: one that keeps the right side is a left join of the right side.
pub open spec fn join_relation(
    left: RelationView,
    right: RelationView,
    shape: JoinShape,
    on: ExprView,
) -> RelationView {
    let kind = if shape.keeps_left || shape.keeps_right {
        JoinKind::Left
    } else {
        JoinKind::Inner
    };
    if shape.keeps_right {
        RelationView::Join { left: Box::new(right), right: Box::new(left), kind, on }
    } else {
        RelationView::Join { left: Box::new(left), right: Box::new(right), kind, on }
    }
}

/// The last of the first row sources that has a column.
pub open spec fn last_holder(scopes: Seq<ScopeDefView>, name: Seq<char>, count: nat) -> Option<
    ScopeDefView,
>
    decreases count,
{
    if count == 0 {
        None
    } else if env::find_column(scopes[count - 1].columns, name) is Some {
        Some(scopes[count - 1])
    } else {
        last_holder(scopes, name, (count - 1) as nat)
    }
}

/// That two row sources agree in a column.
pub open spec fn agreement(left: ScopeDefView, right: ScopeDefView, name: Seq<char>) -> ExprView {
    operators::binary_of(
        BinaryOp::Eq,
        operators::column_of(left.label, env::find_column(left.columns, name)->0.row_field()),
        operators::column_of(right.label, env::find_column(right.columns, name)->0.row_field()),
    )
}

/// The agreements that a USING list asks for, from a position on.
pub open spec fn using_predicates(
    names: TreeView,
    i: nat,
    left: Seq<ScopeDefView>,
    right: ScopeDefView,
    done: Seq<ExprView>,
) -> Result<Seq<ExprView>, ErrorView>
    decreases tree::list(names).len() - i,
{
    if i >= tree::list(names).len() {
        Ok(done)
    } else {
        match literals::object_text(tree::list(names)[i as int]) {
            Err(error) => Err(error),
            Ok(name) => match last_holder(left, name, left.len()) {
                Some(holder) if env::find_column(right.columns, name) is Some => using_predicates(
                    names,
                    i + 1,
                    left,
                    right,
                    done.push(agreement(holder, right, name)),
                ),
                _ => Err(
                    ErrorView::Invalid("unknown JOIN USING column "@ + text::quoted_text(name)),
                ),
            },
        }
    }
}

/// The agreements in the columns that both sides have, from a column on.
pub open spec fn natural_predicates(
    left: Seq<ScopeDefView>,
    right: ScopeDefView,
    i: nat,
    done: Seq<ExprView>,
) -> Seq<ExprView>
    decreases right.columns.len() - i,
{
    if i >= right.columns.len() {
        done
    } else {
        let name = right.columns[i as int].name;
        match last_holder(left, name, left.len()) {
            Some(holder) => natural_predicates(
                left,
                right,
                i + 1,
                done.push(agreement(holder, right, name)),
            ),
            None => natural_predicates(left, right, i + 1, done),
        }
    }
}

/// The condition of a join.
pub open spec fn join_condition(
    around: Surroundings,
    state: State,
    constraint: TreeView,
    env: ExpressionEnvView,
    left: Seq<ScopeDefView>,
    right: ScopeDefView,
) -> Step<ExprView>
    decreases tree::height(constraint), 2nat, 0nat,
{
    if tree::is(constraint, "On"@) {
        match compiled(
            around,
            state,
            env::over(env),
            tree::at(constraint, "On"@),
            Some(ScalarType::Bool),
        ) {
            Err(error) => Err(error),
            Ok((value, state)) => Ok((value.expr, state)),
        }
    } else if tree::is(constraint, "Using"@) {
        match using_predicates(tree::at(constraint, "Using"@), 0, left, right, Seq::empty()) {
            Err(error) => Err(error),
            Ok(predicates) => settled(operators::folded(predicates, BinaryOp::And), state),
        }
    } else if tree::is(constraint, "Natural"@) {
        let predicates = natural_predicates(left, right, 0, Seq::empty());
        if predicates.len() == 0 {
            Ok((operators::bool_constant(true), state))
        } else {
            settled(operators::folded(predicates, BinaryOp::And), state)
        }
    } else {
        Ok((operators::bool_constant(true), state))
    }
}

/// The name that a table goes by: its alias, or its own name.
pub open spec fn alias_name(alias: TreeView, name: Seq<char>) -> Seq<char> {
    if alias is Null {
        name
    } else {
        literals::ident_name(tree::at(alias, "name"@))
    }
}

/// A row source under its column aliases.
pub open spec fn sourced(
    relation: RelationView,
    scope: ScopeDefView,
    alias: TreeView,
) -> Result<(RelationView, ScopeDefView), ErrorView> {
    match env::aliased(scope, alias) {
        Err(error) => Err(error),
        Ok(scope) => Ok((relation, scope)),
    }
}

/// A named row source: a WITH name, or a table.
pub open spec fn named_source(around: Surroundings, state: State, table: TreeView) -> Step<
    (RelationView, ScopeDefView),
> {
    let alias = tree::at(table, "alias"@);
    if !(tree::at(table, "args"@) is Null) {
        Err(ErrorView::Unsupported("table functions are not supported yet"@))
    } else {
        match literals::object_text(tree::at(table, "name"@)) {
            Err(error) => Err(error),
            Ok(name) => {
                let known = alias_name(alias, name);
                let label = fresh_label(state, known);
                match bound_columns(state.columns, name) {
                    Some(columns) => settled(
                        sourced(
                            if state.recursive == Some(name) {
                                RelationView::RecursiveRef { binding: name, scope: label }
                            } else {
                                RelationView::Ref { binding: name, scope: label }
                            },
                            ScopeDefView {
                                alias: known,
                                label,
                                columns,
                                primary_key: Seq::empty(),
                            },
                            alias,
                        ),
                        after_label(state),
                    ),
                    None => match catalog::find_table(around.tables, name) {
                        None => Err(
                            ErrorView::Invalid("unknown table "@ + text::quoted_text(name)),
                        ),
                        Some(table) => settled(
                            sourced(
                                RelationView::Scan { table: table.name, scope: label },
                                env::table_scope(table, known, label),
                                alias,
                            ),
                            after_label(state),
                        ),
                    },
                }
            },
        }
    }
}

/// A row source of a FROM.
pub open spec fn table_source(
    around: Surroundings,
    state: State,
    factor: TreeView,
    parent: ExpressionEnvView,
) -> Step<(RelationView, ScopeDefView)>
    decreases tree::height(factor), 2nat, 0nat,
{
    let derived = tree::at(factor, "Derived"@);
    let alias = tree::at(derived, "alias"@);
    if tree::is(factor, "Table"@) {
        named_source(around, state, tree::at(factor, "Table"@))
    } else if tree::is(factor, "Derived"@) {
        if !(tree::at(derived, "sample"@) is Null) {
            Err(ErrorView::Unsupported("TABLESAMPLE is not supported"@))
        } else if alias is Null {
            Err(ErrorView::Invalid("PostgreSQL derived tables need an alias"@))
        } else {
            let outer = if tree::flag(tree::at(derived, "lateral"@)) {
                parent
            } else {
                env::no_env()
            };
            match lowered(around, state, tree::at(derived, "subquery"@), outer) {
                Err(error) => Err(error),
                Ok((query, state)) => settled(
                    sourced(
                        query.relation,
                        ScopeDefView {
                            alias: literals::ident_name(tree::at(alias, "name"@)),
                            label: query.scope,
                            columns: query.columns,
                            primary_key: Seq::empty(),
                        },
                        alias,
                    ),
                    state,
                ),
            }
        }
    } else {
        Err(
            ErrorView::Unsupported(
                "FROM item "@ + syntax::shown_table_factor(factor) + " is not supported yet"@,
            ),
        )
    }
}

// ---- aggregation ----

/// How high a run of trees reaches: above its highest, where there is one.
pub open spec fn reach(trees: Seq<TreeView>) -> nat {
    if trees.len() == 0 {
        0
    } else {
        1 + tree::items_height(trees)
    }
}

pub proof fn lemma_reach(trees: Seq<TreeView>, bound: nat)
    requires
        shapes::all_lower(trees, bound),
    ensures
        reach(trees) <= bound,
    decreases trees.len(),
{
    if trees.len() > 0 {
        let rest = trees.drop_last();
        assert forall|i: int| 0 <= i < rest.len() implies tree::height(#[trigger] rest[i])
            < bound by {
            assert(rest[i] == trees[i]);
        }
        lemma_reach(rest, bound);
        assert(trees.last() == trees[trees.len() - 1]);
    }
}

/// The expressions that GROUP BY keys stand for, from a position on.
pub open spec fn group_keys(
    values: TreeView,
    projection: TreeView,
    i: nat,
    done: Seq<TreeView>,
) -> Result<Seq<TreeView>, ErrorView>
    decreases tree::list(values).len() - i,
{
    if i >= tree::list(values).len() {
        Ok(done)
    } else {
        match shapes::projected_key(tree::list(values)[i as int], projection) {
            Err(error) => Err(error),
            Ok(key) => group_keys(values, projection, i + 1, done.push(key)),
        }
    }
}

pub proof fn lemma_group_keys_lower(
    values: TreeView,
    projection: TreeView,
    i: nat,
    done: Seq<TreeView>,
    bound: nat,
)
    requires
        shapes::all_lower(done, bound),
        tree::height(values) <= bound,
        tree::height(projection) <= bound,
    ensures
        group_keys(values, projection, i, done) matches Ok(keys) ==> shapes::all_lower(keys, bound),
    decreases tree::list(values).len() - i,
{
    if i < tree::list(values).len() {
        let value = tree::list(values)[i as int];
        shapes::lemma_projected_key_height(value, projection);
        if let Ok(key) = shapes::projected_key(value, projection) {
            assert(tree::height(value) < tree::height(values));
            assert(shapes::all_lower(done.push(key), bound));
            lemma_group_keys_lower(values, projection, i + 1, done.push(key), bound);
        }
    }
}

/// The GROUP BY keys of a SELECT.
#[verifier::opaque]
pub open spec fn grouping_keys(select: TreeView) -> Result<Seq<TreeView>, ErrorView> {
    if tree::is(tree::at(select, "group_by"@), "All"@) {
        Err(ErrorView::Unsupported("GROUP BY ALL is not supported"@))
    } else if tree::list(group_modifiers(select)).len() > 0 {
        Err(ErrorView::Unsupported("GROUP BY modifiers are not supported"@))
    } else {
        group_keys(group_values(select), tree::at(select, "projection"@), 0, Seq::empty())
    }
}

pub proof fn lemma_grouping_keys_reach(select: TreeView)
    ensures
        grouping_keys(select) matches Ok(keys) ==> reach(keys) <= tree::height(select),
{
    reveal(grouping_keys);
    let by = tree::at(select, "group_by"@);
    assert(tree::height(tree::at(by, "Expressions"@)) <= tree::height(by));
    assert(tree::height(by) <= tree::height(select));
    let values = group_values(select);
    let all = tree::at(by, "Expressions"@);
    if tree::list(all).len() > 0 {
        assert(tree::height(tree::list(all)[0]) < tree::height(all));
    }
    assert(tree::height(values) <= tree::height(select));
    let projection = tree::at(select, "projection"@);
    assert(tree::height(projection) <= tree::height(select));
    lemma_group_keys_lower(values, projection, 0, Seq::empty(), tree::height(select));
    if let Ok(keys) = grouping_keys(select) {
        lemma_reach(keys, tree::height(select));
    }
}

/// What is known of an aggregation: its groups, its terms with whether each
/// drops duplicates, the columns of both, and the syntax that stands for them.
#[verifier::ext_equal]
pub struct Aggregation {
    pub groups: Seq<GroupTermView>,
    pub terms: Seq<AggregateTermView>,
    pub distinct: Seq<bool>,
    pub columns: Seq<ResultColumnView>,
    pub substitutions: Seq<SubstitutionView>,
}

/// An aggregation without groups or terms.
pub open spec fn no_aggregation() -> Aggregation {
    Aggregation {
        groups: Seq::empty(),
        terms: Seq::empty(),
        distinct: Seq::empty(),
        columns: Seq::empty(),
        substitutions: Seq::empty(),
    }
}

/// The aggregation with one more group.
pub open spec fn with_group(
    done: Aggregation,
    key: TreeView,
    value: CompiledExprView,
    env: ExpressionEnvView,
) -> Aggregation {
    let name = "group_"@ + text::decimal(done.groups.len() + 1);
    let column = ResultColumnView {
        name: shapes::own_name(key),
        field: name,
        scalar_type: value.scalar_type,
        nullable: value.nullable,
        format: shapes::column_format(key, env),
    };
    Aggregation {
        groups: done.groups.push(GroupTermView { name, expression: value.expr }),
        columns: done.columns.push(column),
        substitutions: done.substitutions.push(
            SubstitutionView { syntax: tree::bare(key), column },
        ),
        ..done
    }
}

/// The aggregation with the groups of keys from a position on.
pub open spec fn grouped(
    around: Surroundings,
    state: State,
    compiler: ExpressionCompilerView,
    keys: Seq<TreeView>,
    i: nat,
    done: Aggregation,
) -> Step<Aggregation>
    decreases reach(keys), 3nat, keys.len() - i,
{
    if i >= keys.len() {
        Ok((done, state))
    } else {
        proof {
            tree::lemma_item_height(keys, i as int);
        }
        match compiled(around, state, compiler, keys[i as int], None) {
            Err(error) => Err(error),
            Ok((value, state)) => grouped(
                around,
                state,
                compiler,
                keys,
                i + 1,
                with_group(done, keys[i as int], value, compiler.env),
            ),
        }
    }
}

/// The aggregates of projection items from a position on, after those found.
pub open spec fn projected_aggregates(projection: TreeView, i: nat, found: Seq<TreeView>) -> Seq<
    TreeView,
>
    decreases tree::list(projection).len() - i,
{
    if i >= tree::list(projection).len() {
        found
    } else {
        projected_aggregates(
            projection,
            i + 1,
            shapes::aggregates_in(
                shapes::item_expression(tree::list(projection)[i as int]),
                found,
            ),
        )
    }
}

/// The aggregates of sort keys from a position on, after those found.
pub open spec fn sorted_aggregates(terms: TreeView, i: nat, found: Seq<TreeView>) -> Seq<TreeView>
    decreases tree::list(terms).len() - i,
{
    if i >= tree::list(terms).len() {
        found
    } else {
        sorted_aggregates(
            terms,
            i + 1,
            shapes::aggregates_in(tree::at(tree::list(terms)[i as int], "expr"@), found),
        )
    }
}

/// Whether every projection item from a position on is an expression.
pub open spec fn projects_expressions(projection: TreeView, i: nat) -> bool
    decreases tree::list(projection).len() - i,
{
    if i >= tree::list(projection).len() {
        true
    } else {
        shapes::is_expression_item(tree::list(projection)[i as int]) && projects_expressions(
            projection,
            i + 1,
        )
    }
}

/// The aggregates of a SELECT and its ORDER BY, each once.
#[verifier::opaque]
pub open spec fn all_aggregates(select: TreeView, order: TreeView) -> Seq<TreeView> {
    let found = projected_aggregates(tree::at(select, "projection"@), 0, Seq::empty());
    let found = if tree::at(select, "having"@) is Null {
        found
    } else {
        shapes::aggregates_in(tree::at(select, "having"@), found)
    };
    sorted_aggregates(tree::at(tree::at(order, "kind"@), "Expressions"@), 0, found)
}

proof fn lemma_projected_aggregates_lower(
    projection: TreeView,
    i: nat,
    found: Seq<TreeView>,
    bound: nat,
)
    requires
        shapes::all_lower(found, bound),
        tree::height(projection) <= bound,
    ensures
        shapes::all_lower(projected_aggregates(projection, i, found), bound),
    decreases tree::list(projection).len() - i,
{
    if i < tree::list(projection).len() {
        let item = tree::list(projection)[i as int];
        assert(tree::height(item) < tree::height(projection));
        assert(tree::height(tree::at(item, "UnnamedExpr"@)) <= tree::height(item));
        assert(tree::height(tree::at(item, "ExprWithAlias"@)) <= tree::height(item));
        let expression = shapes::item_expression(item);
        assert(tree::height(expression) <= tree::height(item));
        shapes::lemma_aggregates_height(expression, found, bound);
        lemma_projected_aggregates_lower(
            projection,
            i + 1,
            shapes::aggregates_in(expression, found),
            bound,
        );
    }
}

proof fn lemma_sorted_aggregates_lower(terms: TreeView, i: nat, found: Seq<TreeView>, bound: nat)
    requires
        shapes::all_lower(found, bound),
        tree::height(terms) <= bound,
    ensures
        shapes::all_lower(sorted_aggregates(terms, i, found), bound),
    decreases tree::list(terms).len() - i,
{
    if i < tree::list(terms).len() {
        let term = tree::list(terms)[i as int];
        let expression = tree::at(term, "expr"@);
        assert(tree::height(term) < tree::height(terms));
        assert(tree::height(expression) <= tree::height(term));
        shapes::lemma_aggregates_height(expression, found, bound);
        lemma_sorted_aggregates_lower(
            terms,
            i + 1,
            shapes::aggregates_in(expression, found),
            bound,
        );
    }
}

pub proof fn lemma_all_aggregates_reach(select: TreeView, order: TreeView)
    ensures
        reach(all_aggregates(select, order)) <= higher(tree::height(select), tree::height(order)),
{
    reveal(all_aggregates);
    let bound = higher(tree::height(select), tree::height(order));
    let projection = tree::at(select, "projection"@);
    let having = tree::at(select, "having"@);
    let terms = tree::at(tree::at(order, "kind"@), "Expressions"@);
    assert(tree::height(projection) <= tree::height(select));
    assert(tree::height(having) <= tree::height(select));
    assert(tree::height(tree::at(order, "kind"@)) <= tree::height(order));
    assert(tree::height(terms) <= tree::height(tree::at(order, "kind"@)));
    lemma_projected_aggregates_lower(projection, 0, Seq::empty(), bound);
    let found = projected_aggregates(projection, 0, Seq::empty());
    let found = if having is Null {
        found
    } else {
        assert(tree::height(having) < tree::height(select));
        shapes::lemma_aggregates_height(having, found, bound);
        shapes::aggregates_in(having, found)
    };
    lemma_sorted_aggregates_lower(terms, 0, found, bound);
    lemma_reach(all_aggregates(select, order), bound);
}

/// The function of an aggregate name.
pub open spec fn aggregate_function(name: Seq<char>) -> Option<AggregateFunction> {
    if name == "count"@ {
        Some(AggregateFunction::Count)
    } else if name == "sum"@ {
        Some(AggregateFunction::Sum)
    } else if name == "avg"@ {
        Some(AggregateFunction::Average)
    } else if name == "min"@ {
        Some(AggregateFunction::Min)
    } else if name == "max"@ {
        Some(AggregateFunction::Max)
    } else {
        None
    }
}

/// An aggregate: its function and argument, its type, whether it may be null,
/// and whether it drops duplicates.
pub struct Aggregate {
    pub function: AggregateFunction,
    pub argument: Option<ExprView>,
    pub scalar_type: ScalarType,
    pub nullable: bool,
    pub distinct: bool,
}

/// Whether arguments are one wildcard.
pub open spec fn is_count_all(arguments: TreeView) -> bool {
    tree::list(arguments).len() == 1 && tree::is(
        tree::at(tree::list(arguments)[0], "Unnamed"@),
        "Wildcard"@,
    )
}

/// Whether arguments are one expression.
pub open spec fn is_one_argument(arguments: TreeView) -> bool {
    tree::list(arguments).len() == 1 && tree::is(
        tree::at(tree::list(arguments)[0], "Unnamed"@),
        "Expr"@,
    )
}

/// The type of an aggregate over an argument type.
pub open spec fn aggregate_type(function: AggregateFunction, argument: ScalarType) -> ScalarType {
    match function {
        AggregateFunction::Count => ScalarType::Int64,
        AggregateFunction::Average => ScalarType::Float64,
        _ => argument,
    }
}

/// An aggregate call.
pub open spec fn aggregate_of(
    around: Surroundings,
    state: State,
    compiler: ExpressionCompilerView,
    function: TreeView,
) -> Step<Aggregate>
    decreases tree::height(function), 2nat, 0nat,
{
    let list = tree::at(tree::at(function, "args"@), "List"@);
    let arguments = tree::at(list, "args"@);
    let distinct = tree::is(tree::at(list, "duplicate_treatment"@), "Distinct"@);
    if !(tree::at(function, "over"@) is Null) || !(tree::at(function, "filter"@) is Null) {
        Err(ErrorView::Unsupported("window and filtered aggregates are not supported"@))
    } else {
        match literals::object_text(tree::at(function, "name"@)) {
            Err(error) => Err(error),
            Ok(name) => {
                let name = text::lower(name);
                if !tree::is(tree::at(function, "args"@), "List"@) {
                    Err(
                        ErrorView::Unsupported(
                            "aggregate "@ + name + " has unsupported arguments"@,
                        ),
                    )
                } else if tree::list(tree::at(list, "clauses"@)).len() > 0 {
                    Err(
                        ErrorView::Unsupported(
                            "aggregate "@ + name + " argument clauses are not supported"@,
                        ),
                    )
                } else if name == "count"@ && is_count_all(arguments) {
                    if distinct {
                        Err(ErrorView::Invalid("COUNT(DISTINCT *) is not valid"@))
                    } else {
                        Ok(
                            (
                                Aggregate {
                                    function: AggregateFunction::Count,
                                    argument: None,
                                    scalar_type: ScalarType::Int64,
                                    nullable: false,
                                    distinct: false,
                                },
                                state,
                            ),
                        )
                    }
                } else if !is_one_argument(arguments) {
                    Err(
                        ErrorView::Unsupported("aggregate "@ + name + " needs one argument"@),
                    )
                } else {
                    match compiled(
                        around,
                        state,
                        compiler,
                        argument_expression(tree::list(arguments)[0]),
                        None,
                    ) {
                        Err(error) => Err(error),
                        Ok((value, state)) => match aggregate_function(name) {
                            None => Err(
                                ErrorView::Unsupported(
                                    "aggregate "@ + name + " is not supported"@,
                                ),
                            ),
                            Some(function) => Ok(
                                (
                                    Aggregate {
                                        function,
                                        argument: Some(value.expr),
                                        scalar_type: aggregate_type(function, value.scalar_type),
                                        nullable: function != AggregateFunction::Count,
                                        distinct,
                                    },
                                    state,
                                ),
                            ),
                        },
                    }
                }
            },
        }
    }
}

/// The aggregation with one more term.
pub open spec fn with_term(
    done: Aggregation,
    expression: TreeView,
    aggregate: Aggregate,
) -> Aggregation {
    let name = "aggregate_"@ + text::decimal(done.terms.len() + 1);
    let column = ResultColumnView {
        name: syntax::shown_expression(expression),
        field: name,
        scalar_type: aggregate.scalar_type,
        nullable: aggregate.nullable,
        format: Seq::empty(),
    };
    Aggregation {
        terms: done.terms.push(
            AggregateTermView {
                function: aggregate.function,
                argument: aggregate.argument,
                name,
            },
        ),
        distinct: done.distinct.push(aggregate.distinct),
        columns: done.columns.push(column),
        substitutions: done.substitutions.push(
            SubstitutionView { syntax: tree::bare(expression), column },
        ),
        ..done
    }
}

/// The aggregation with the terms of aggregates from a position on.
pub open spec fn with_terms(
    around: Surroundings,
    state: State,
    compiler: ExpressionCompilerView,
    found: Seq<TreeView>,
    i: nat,
    done: Aggregation,
) -> Step<Aggregation>
    decreases reach(found), 3nat, found.len() - i,
{
    if i >= found.len() {
        Ok((done, state))
    } else {
        proof {
            tree::lemma_item_height(found, i as int);
        }
        match aggregate_of(around, state, compiler, tree::at(found[i as int], "Function"@)) {
            Err(error) => Err(error),
            Ok((aggregate, state)) => with_terms(
                around,
                state,
                compiler,
                found,
                i + 1,
                with_term(done, found[i as int], aggregate),
            ),
        }
    }
}

/// Terms that are computed together: over the distinct values of an argument,
/// or over all rows.
#[verifier::ext_equal]
pub struct TermGroup {
    pub key: Option<ExprView>,
    pub members: Seq<nat>,
}

/// The groups with a term under its key, from a group on.
pub open spec fn with_member(
    groups: Seq<TermGroup>,
    key: Option<ExprView>,
    member: nat,
    i: nat,
) -> Seq<TermGroup>
    decreases groups.len() - i,
{
    if i >= groups.len() {
        groups.push(TermGroup { key, members: seq![member] })
    } else if groups[i as int].key == key {
        groups.update(
            i as int,
            TermGroup { key, members: groups[i as int].members.push(member) },
        )
    } else {
        with_member(groups, key, member, i + 1)
    }
}

/// The terms of an aggregation by what they are computed over, from a term on.
pub open spec fn term_groups(made: Aggregation, i: nat, done: Seq<TermGroup>) -> Seq<TermGroup>
    decreases made.terms.len() - i,
{
    if i >= made.terms.len() {
        done
    } else {
        let key = if made.distinct[i as int] {
            made.terms[i as int].argument
        } else {
            None
        };
        term_groups(made, i + 1, with_member(done, key, i, 0))
    }
}

/// The groups of terms of an aggregation, at least one.
pub open spec fn branch_groups(made: Aggregation) -> Seq<TermGroup> {
    let groups = term_groups(made, 0, Seq::empty());
    if groups.len() == 0 {
        seq![TermGroup { key: None, members: Seq::empty() }]
    } else {
        groups
    }
}

/// Fresh names for scopes from a position on.
pub open spec fn fresh_names(
    state: State,
    scopes: Seq<Seq<char>>,
    i: nat,
    done: Seq<ReplacementView>,
) -> (Seq<ReplacementView>, State)
    decreases scopes.len() - i,
{
    if i >= scopes.len() {
        (done, state)
    } else {
        fresh_names(
            after_label(state),
            scopes,
            i + 1,
            done.push(
                ReplacementView {
                    from: scopes[i as int],
                    to: fresh_label(state, "aggregate_input"@),
                },
            ),
        )
    }
}

/// Fresh names for all scopes of a relation.
pub open spec fn fresh_relation(state: State, relation: RelationView) -> (
    Seq<ReplacementView>,
    State,
) {
    fresh_names(
        state,
        scopes::ordered_names(scopes::relation_scopes(relation)),
        0,
        Seq::empty(),
    )
}

/// One branch of an aggregation: its relation and scope, and its terms.
#[verifier::ext_equal]
pub struct AggregateBranch {
    pub relation: RelationView,
    pub scope: Seq<char>,
    pub members: Seq<nat>,
}

/// The terms of a group.
pub open spec fn member_terms(made: Aggregation, members: Seq<nat>) -> Seq<AggregateTermView> {
    Seq::new(members.len(), |i: int| made.terms[members[i] as int])
}

/// Fields for groups, each under its name.
pub open spec fn group_fields(groups: Seq<GroupTermView>) -> Seq<ProjectFieldView> {
    Seq::new(
        groups.len(),
        |i: int|
            ProjectFieldView { name: groups[i].name, expression: groups[i].expression },
    )
}

/// Groups by the columns of a scope that hold them.
pub open spec fn scope_groups(groups: Seq<GroupTermView>, scope: Seq<char>) -> Seq<GroupTermView> {
    Seq::new(
        groups.len(),
        |i: int|
            GroupTermView {
                name: groups[i].name,
                expression: operators::column_of(scope, groups[i].name),
            },
    )
}

/// A branch over the distinct values of an argument.
pub open spec fn distinct_branch(
    made: Aggregation,
    members: Seq<nat>,
    key: ExprView,
    input: RelationView,
    replacements: Seq<ReplacementView>,
    distinct_scope: Seq<char>,
    scope: Seq<char>,
) -> RelationView {
    let fields = group_fields(scopes::renamed_group_terms(made.groups, replacements)).push(
        ProjectFieldView {
            name: "distinct_value"@,
            expression: scopes::renamed_expr(key, replacements),
        },
    );
    RelationView::Aggregate {
        input: Box::new(
            RelationView::Distinct(Box::new(project(input, distinct_scope, fields))),
        ),
        scope: Some(scope),
        groups: scope_groups(made.groups, distinct_scope),
        terms: Seq::new(
            members.len(),
            |i: int|
                AggregateTermView {
                    argument: Some(operators::column_of(distinct_scope, "distinct_value"@)),
                    ..made.terms[members[i] as int]
                },
        ),
    }
}

/// A branch over all rows.
pub open spec fn whole_branch(
    made: Aggregation,
    members: Seq<nat>,
    input: RelationView,
    replacements: Seq<ReplacementView>,
    scope: Seq<char>,
) -> RelationView {
    RelationView::Aggregate {
        input: Box::new(input),
        scope: Some(scope),
        groups: scopes::renamed_group_terms(made.groups, replacements),
        terms: scopes::renamed_aggregate_terms(member_terms(made, members), replacements),
    }
}

/// The branch of a group of terms. Every branch reads the input under scopes
/// of its own.
pub open spec fn branch_of(
    state: State,
    relation: RelationView,
    made: Aggregation,
    group: TermGroup,
    scope: Option<Seq<char>>,
) -> (AggregateBranch, State) {
    let (replacements, state) = fresh_relation(state, relation);
    let input = scopes::renamed_relation(relation, replacements);
    let label = match scope {
        Some(scope) => scope,
        None => fresh_label(state, "aggregate_branch"@),
    };
    let state = match scope {
        Some(_) => state,
        None => after_label(state),
    };
    match group.key {
        Some(key) => {
            let distinct_scope = fresh_label(state, "aggregate_distinct"@);
            (
                AggregateBranch {
                    relation: distinct_branch(
                        made,
                        group.members,
                        key,
                        input,
                        replacements,
                        distinct_scope,
                        label,
                    ),
                    scope: label,
                    members: group.members,
                },
                after_label(state),
            )
        },
        None => (
            AggregateBranch {
                relation: whole_branch(made, group.members, input, replacements, label),
                scope: label,
                members: group.members,
            },
            state,
        ),
    }
}

/// The branches of groups of terms from a position on.
pub open spec fn branches(
    state: State,
    relation: RelationView,
    made: Aggregation,
    groups: Seq<TermGroup>,
    i: nat,
    scope: Option<Seq<char>>,
    done: Seq<AggregateBranch>,
) -> (Seq<AggregateBranch>, State)
    decreases groups.len() - i,
{
    if i >= groups.len() {
        (done, state)
    } else {
        let (branch, state) = branch_of(state, relation, made, groups[i as int], scope);
        branches(state, relation, made, groups, i + 1, scope, done.push(branch))
    }
}

/// That two branches agree in all groups.
pub open spec fn groups_agree(
    groups: Seq<GroupTermView>,
    left: Seq<char>,
    right: Seq<char>,
) -> ExprView {
    if groups.len() == 0 {
        operators::bool_constant(true)
    } else {
        operators::balanced(
            Seq::new(
                groups.len(),
                |i: int| operators::null_safe_equal(left, right, groups[i].name),
            ),
            BinaryOp::And,
        )
    }
}

/// The branches from a position on joined to those before them.
pub open spec fn joined_branches(
    groups: Seq<GroupTermView>,
    branches: Seq<AggregateBranch>,
    i: nat,
    left: RelationView,
) -> RelationView
    decreases branches.len() - i,
{
    if i >= branches.len() {
        left
    } else {
        joined_branches(
            groups,
            branches,
            i + 1,
            RelationView::Join {
                left: Box::new(left),
                right: Box::new(branches[i as int].relation),
                kind: JoinKind::Inner,
                on: groups_agree(groups, branches[0].scope, branches[i as int].scope),
            },
        )
    }
}

/// The scope of the branch that computes a term, from a branch on.
pub open spec fn term_scope(branches: Seq<AggregateBranch>, term: nat, i: nat) -> Seq<char>
    decreases branches.len() - i,
{
    if i >= branches.len() {
        Seq::empty()
    } else if branches[i as int].members.contains(term) {
        branches[i as int].scope
    } else {
        term_scope(branches, term, i + 1)
    }
}

/// The fields of joined branches: the groups, then the terms.
pub open spec fn branch_fields(made: Aggregation, branches: Seq<AggregateBranch>) -> Seq<
    ProjectFieldView,
> {
    group_fields(scope_groups(made.groups, branches[0].scope)) + Seq::new(
        made.terms.len(),
        |i: int|
            ProjectFieldView {
                name: made.terms[i].name,
                expression: operators::column_of(
                    term_scope(branches, i as nat, 0),
                    made.terms[i].name,
                ),
            },
    )
}

/// The relation that computes an aggregation in a scope: one branch, or
/// several joined by their groups.
#[verifier::opaque]
pub open spec fn aggregate_relation(
    state: State,
    relation: RelationView,
    made: Aggregation,
    scope: Seq<char>,
) -> (RelationView, State) {
    let groups = branch_groups(made);
    if groups.len() > 1 {
        let (parts, state) = branches(state, relation, made, groups, 0, None, Seq::empty());
        (
            project(
                joined_branches(made.groups, parts, 1, parts[0].relation),
                scope,
                branch_fields(made, parts),
            ),
            state,
        )
    } else {
        let (branch, state) = branch_of(state, relation, made, groups[0], Some(scope));
        (branch.relation, state)
    }
}

/// What the projection of an aggregation has produced.
#[verifier::ext_equal]
pub struct AggregateOutputs {
    pub names: Seq<Seq<char>>,
    pub columns: Seq<ResultColumnView>,
    pub sources: Seq<ExprView>,
}

/// No output of an aggregation yet.
pub open spec fn no_aggregate_outputs() -> AggregateOutputs {
    AggregateOutputs { names: Seq::empty(), columns: Seq::empty(), sources: Seq::empty() }
}

/// The format of the group that an expression is, from a group on.
pub open spec fn group_format(
    keys: Seq<TreeView>,
    columns: Seq<ResultColumnView>,
    expression: TreeView,
    i: nat,
) -> Seq<char>
    decreases keys.len() - i,
{
    if i >= keys.len() {
        Seq::empty()
    } else if tree::same_syntax(keys[i as int], expression) {
        columns[i as int].format
    } else {
        group_format(keys, columns, expression, i + 1)
    }
}

/// The projection items of an aggregation from a position on.
pub open spec fn aggregate_outputs(
    around: Surroundings,
    state: State,
    compiler: ExpressionCompilerView,
    projection: TreeView,
    i: nat,
    keys: Seq<TreeView>,
    columns: Seq<ResultColumnView>,
    done: AggregateOutputs,
) -> Step<AggregateOutputs>
    decreases tree::height(projection), 3nat, tree::list(projection).len() - i,
{
    if i >= tree::list(projection).len() {
        Ok((done, state))
    } else {
        let item = tree::list(projection)[i as int];
        let expression = shapes::item_expression(item);
        match compiled(around, state, compiler, expression, None) {
            Err(error) => Err(error),
            Ok((value, state)) => {
                let names = done.names.push(shapes::item_name(item));
                aggregate_outputs(
                    around,
                    state,
                    compiler,
                    projection,
                    i + 1,
                    keys,
                    columns,
                    AggregateOutputs {
                        names,
                        columns: done.columns.push(
                            ResultColumnView {
                                name: shapes::item_name(item),
                                field: env::unique_field(names),
                                scalar_type: value.scalar_type,
                                nullable: value.nullable,
                                format: group_format(keys, columns, expression, 0),
                            },
                        ),
                        sources: done.sources.push(value.expr),
                    },
                )
            },
        }
    }
}

/// The fields of an aggregation's output.
pub open spec fn output_fields(columns: Seq<ResultColumnView>, sources: Seq<ExprView>) -> Seq<
    ProjectFieldView,
> {
    Seq::new(
        columns.len(),
        |i: int|
            ProjectFieldView { name: columns[i].row_field(), expression: sources[i] },
    )
}

/// Order terms for expressions, ascending.
pub open spec fn ascending(expressions: Seq<ExprView>) -> Seq<OrderTermView> {
    Seq::new(
        expressions.len(),
        |i: int| OrderTermView { expression: expressions[i], descending: false },
    )
}

/// An aggregation with the input it reads and the keys it groups by.
pub struct Gathered {
    pub relation: RelationView,
    pub keys: Seq<TreeView>,
    pub made: Aggregation,
}

/// The GROUP BY keys of a SELECT, and its groups.
pub open spec fn grouped_rows(
    around: Surroundings,
    state: State,
    compiler: ExpressionCompilerView,
    select: TreeView,
) -> Step<(Seq<TreeView>, Aggregation)>
    decreases tree::height(select), 4nat, 0nat,
{
    proof {
        lemma_grouping_keys_reach(select);
    }
    match grouping_keys(select) {
        Err(error) => Err(error),
        Ok(keys) => match grouped(around, state, compiler, keys, 0, no_aggregation()) {
            Err(error) => Err(error),
            Ok((made, state)) => Ok(((keys, made), state)),
        },
    }
}

/// The aggregation with the aggregates of a SELECT and its ORDER BY.
pub open spec fn with_aggregates(
    around: Surroundings,
    state: State,
    compiler: ExpressionCompilerView,
    select: TreeView,
    order: TreeView,
    made: Aggregation,
) -> Step<Aggregation>
    decreases higher(tree::height(select), tree::height(order)), 4nat, 0nat,
{
    proof {
        lemma_all_aggregates_reach(select, order);
    }
    if !projects_expressions(tree::at(select, "projection"@), 0) {
        Err(
            ErrorView::Unsupported(
                "wildcard projection is not valid in an aggregate query"@,
            ),
        )
    } else {
        with_terms(around, state, compiler, all_aggregates(select, order), 0, made)
    }
}

/// The input, groups and terms of a SELECT that aggregates.
pub open spec fn gathered(
    around: Surroundings,
    state: State,
    select: TreeView,
    order: TreeView,
    source: SelectSourceView,
) -> Step<Gathered>
    decreases higher(tree::height(select), tree::height(order)), 4nat, 1nat,
{
    let compiler = env::over(source.env);
    match filtered(around, state, compiler, source.relation, tree::at(select, "selection"@)) {
        Err(error) => Err(error),
        Ok((relation, state)) => match grouped_rows(around, state, compiler, select) {
            Err(error) => Err(error),
            Ok(((keys, made), state)) => match with_aggregates(
                around,
                state,
                compiler,
                select,
                order,
                made,
            ) {
                Err(error) => Err(error),
                Ok((made, state)) => Ok((Gathered { relation, keys, made }, state)),
            },
        },
    }
}

/// A relation sorted before it is projected.
pub open spec fn aggregate_sorted(
    around: Surroundings,
    state: State,
    compiler: ExpressionCompilerView,
    order: TreeView,
    projection: TreeView,
    relation: RelationView,
    sources: Seq<ExprView>,
    distinct: bool,
) -> Step<RelationView>
    decreases higher(tree::height(order), tree::height(projection)), 5nat, 0nat,
{
    if distinct {
        Ok((relation, state))
    } else {
        match sorted(around, state, compiler, order, projection) {
            Err(error) => Err(error),
            Ok((terms, state)) => Ok(
                (
                    RelationView::Order {
                        input: Box::new(relation),
                        terms: match terms {
                            Some(terms) => terms,
                            None => ascending(sources),
                        },
                    },
                    state,
                ),
            ),
        }
    }
}

/// The output of an aggregation whose relation stands in a scope.
pub open spec fn aggregate_output(
    around: Surroundings,
    state: State,
    select: TreeView,
    order: TreeView,
    limit: TreeView,
    relation: RelationView,
    keys: Seq<TreeView>,
    made: Aggregation,
    aggregate_scope: Seq<char>,
    scope: Seq<char>,
) -> Step<LoweredQueryView>
    decreases select_height(select, order, limit), 5nat, 1nat,
{
    let compiler = env::over_output(aggregate_scope, made.columns, made.substitutions);
    let projection = tree::at(select, "projection"@);
    match filtered(around, state, compiler, relation, tree::at(select, "having"@)) {
        Err(error) => Err(error),
        Ok((relation, state)) => match aggregate_outputs(
            around,
            state,
            compiler,
            projection,
            0,
            keys,
            made.columns,
            no_aggregate_outputs(),
        ) {
            Err(error) => Err(error),
            Ok((outputs, state)) => match shapes::drops_duplicates(select) {
                Err(error) => Err(error),
                Ok(distinct) => match aggregate_sorted(
                    around,
                    state,
                    compiler,
                    order,
                    projection,
                    relation,
                    outputs.sources,
                    distinct,
                ) {
                    Err(error) => Err(error),
                    Ok((relation, state)) => match limited(around, state, compiler, limit) {
                        Err(error) => Err(error),
                        Ok((slice, state)) => {
                            let one = keys.len() == 0 || shows_one(slice);
                            let columns = outputs.columns;
                            let fields = output_fields(columns, outputs.sources);
                            if distinct {
                                match distinctly_arranged(
                                    around,
                                    state,
                                    order,
                                    projection,
                                    project(relation, scope, fields),
                                    columns,
                                    scope,
                                    slice,
                                ) {
                                    Err(error) => Err(error),
                                    Ok((relation, state)) => Ok(
                                        (
                                            LoweredQueryView { relation, columns, scope, one },
                                            state,
                                        ),
                                    ),
                                }
                            } else {
                                Ok(
                                    (
                                        LoweredQueryView {
                                            relation: project(
                                                sliced(relation, slice),
                                                scope,
                                                fields,
                                            ),
                                            columns,
                                            scope,
                                            one,
                                        },
                                        state,
                                    ),
                                )
                            }
                        },
                    },
                },
            },
        },
    }
}

/// A SELECT that aggregates.
pub open spec fn aggregated(
    around: Surroundings,
    state: State,
    select: TreeView,
    order: TreeView,
    limit: TreeView,
    parent: ExpressionEnvView,
) -> Step<LoweredQueryView>
    decreases select_height(select, order, limit), 5nat, 2nat,
{
    match source_of(around, state, select, parent) {
        Err(error) => Err(error),
        Ok((source, state)) => {
            let aggregate_scope = fresh_label(state, "aggregate"@);
            let state = after_label(state);
            let scope = fresh_label(state, "result"@);
            match gathered(around, after_label(state), select, order, source) {
                Err(error) => Err(error),
                Ok((found, state)) => {
                    let (relation, state) = aggregate_relation(
                        state,
                        found.relation,
                        found.made,
                        aggregate_scope,
                    );
                    aggregate_output(
                        around,
                        state,
                        select,
                        order,
                        limit,
                        relation,
                        found.keys,
                        found.made,
                        aggregate_scope,
                        scope,
                    )
                },
            }
        },
    }
}

} // verus!
