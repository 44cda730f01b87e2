//! Questions about pieces of syntax.

use vstd::prelude::*;

use crate::sql::catalog::Table;
use crate::sql::env;
use crate::sql::literals;
use crate::sql::literals::{identifier, number_literal, object_name, string_literal};
use crate::sql::tree;
use crate::sql::tree::{Tree, TreeView};
use crate::sql::types;
use crate::sql::types::{Error, ErrorView, ExpressionEnv, ExpressionEnvView, ResultColumn, ResultColumnView};
use crate::text;
use crate::text::{count_text, join3, parse_count, quoted, same_text, to_lower};

verus! {

broadcast use tree::group_tree_heights;

/// The values of a run of borrowed trees.
pub open spec fn refs_view(trees: Seq<&Tree>) -> Seq<TreeView> {
    Seq::new(trees.len(), |i: int| trees[i]@)
}

/// The literal of an expression.
pub open spec fn value_of(expression: TreeView) -> TreeView {
    tree::at(tree::at(expression, "Value"@), "value"@)
}

/// Whether an expression is a parameter.
pub open spec fn is_parameter(expression: TreeView) -> bool {
    tree::is(expression, "Value"@) && tree::is(value_of(expression), "Placeholder"@)
}

/// Whether an expression is a parameter.
pub fn is_placeholder(expression: &Tree) -> (yes: bool)
    ensures
        yes == is_parameter(expression@),
{
    expression.is("Value") && expression.at("Value").at("value").is("Placeholder")
}

/// Whether an expression is a quoted text.
pub open spec fn is_quoted_text(expression: TreeView) -> bool {
    tree::is(expression, "Value"@) && literals::string_text(value_of(expression)) is Some
}

/// Whether an expression is a quoted text.
pub fn is_string_literal(expression: &Tree) -> (yes: bool)
    ensures
        yes == is_quoted_text(expression@),
{
    expression.is("Value") && string_literal(expression.at("Value").at("value")).is_some()
}

/// Whether a name is that of an aggregate function.
pub open spec fn names_aggregate(name: Seq<char>) -> bool {
    name == "count"@ || name == "sum"@ || name == "avg"@ || name == "min"@ || name == "max"@
}

/// Whether a function is an aggregate.
pub open spec fn is_aggregate(function: TreeView) -> bool {
    match literals::object_text(tree::at(function, "name"@)) {
        Ok(name) => names_aggregate(text::lower(name)),
        Err(_) => false,
    }
}

/// Whether a function is an aggregate.
pub fn is_aggregate_function(function: &Tree) -> (yes: bool)
    ensures
        yes == is_aggregate(function@),
{
    match object_name(function.at("name")) {
        Ok(name) => {
            let name = to_lower(name.as_str());
            let name = name.as_str();
            same_text(name, "count") || same_text(name, "sum") || same_text(name, "avg")
                || same_text(name, "min") || same_text(name, "max")
        },
        Err(_) => false,
    }
}

/// Whether a run holds the same syntax as an expression.
pub open spec fn has_syntax(found: Seq<TreeView>, expression: TreeView) -> bool {
    exists|i: int| 0 <= i < found.len() && tree::same_syntax(#[trigger] found[i], expression)
}

fn contains_syntax(found: &Vec<&Tree>, expression: &Tree) -> (yes: bool)
    ensures
        yes == has_syntax(refs_view(found@), expression@),
{
    let mut i: usize = 0;
    while i < found.len()
        invariant
            i <= found.len(),
            forall|k: int| 0 <= k < i ==> !tree::same_syntax((#[trigger] found@[k])@, expression@),
        decreases found.len() - i,
    {
        if found[i].same_syntax(expression) {
            assert(refs_view(found@)[i as int] == found@[i as int]@);
            return true;
        }
        i += 1;
    }
    proof {
        assert forall|k: int| 0 <= k < refs_view(found@).len() implies !tree::same_syntax(
            #[trigger] refs_view(found@)[k],
            expression@,
        ) by {
            assert(refs_view(found@)[k] == found@[k]@);
        }
    }
    false
}

/// The expression that a test of one operand is about.
pub open spec fn tested(expression: TreeView) -> Option<TreeView> {
    if tree::is(expression, "UnaryOp"@) {
        Some(tree::at(tree::at(expression, "UnaryOp"@), "expr"@))
    } else if tree::is(expression, "Nested"@) {
        Some(tree::at(expression, "Nested"@))
    } else if tree::is(expression, "IsNull"@) {
        Some(tree::at(expression, "IsNull"@))
    } else if tree::is(expression, "IsNotNull"@) {
        Some(tree::at(expression, "IsNotNull"@))
    } else if tree::is(expression, "IsTrue"@) {
        Some(tree::at(expression, "IsTrue"@))
    } else if tree::is(expression, "IsNotTrue"@) {
        Some(tree::at(expression, "IsNotTrue"@))
    } else if tree::is(expression, "IsFalse"@) {
        Some(tree::at(expression, "IsFalse"@))
    } else if tree::is(expression, "IsNotFalse"@) {
        Some(tree::at(expression, "IsNotFalse"@))
    } else if tree::is(expression, "Cast"@) {
        Some(tree::at(tree::at(expression, "Cast"@), "expr"@))
    } else {
        None
    }
}

fn operand(expression: &Tree) -> (result: Option<&Tree>)
    ensures
        tested(expression@) == (match result {
            Some(value) => Some(value@),
            None => None,
        }),
{
    if expression.is("UnaryOp") {
        Some(expression.at("UnaryOp").at("expr"))
    } else if expression.is("Nested") {
        Some(expression.at("Nested"))
    } else if expression.is("IsNull") {
        Some(expression.at("IsNull"))
    } else if expression.is("IsNotNull") {
        Some(expression.at("IsNotNull"))
    } else if expression.is("IsTrue") {
        Some(expression.at("IsTrue"))
    } else if expression.is("IsNotTrue") {
        Some(expression.at("IsNotTrue"))
    } else if expression.is("IsFalse") {
        Some(expression.at("IsFalse"))
    } else if expression.is("IsNotFalse") {
        Some(expression.at("IsNotFalse"))
    } else if expression.is("Cast") {
        Some(expression.at("Cast").at("expr"))
    } else {
        None
    }
}

/// The aggregates of an expression after those found, each once and in order
/// of appearance. The arguments of an aggregate are not searched.
pub open spec fn aggregates_in(expression: TreeView, found: Seq<TreeView>) -> Seq<TreeView>
    decreases tree::height(expression), 0nat,
{
    if tree::is(expression, "Function"@) {
        let function = tree::at(expression, "Function"@);
        if is_aggregate(function) {
            if has_syntax(found, expression) {
                found
            } else {
                found.push(expression)
            }
        } else if tree::is(tree::at(function, "args"@), "List"@) {
            aggregates_in_arguments(
                tree::at(tree::at(tree::at(function, "args"@), "List"@), "args"@),
                0,
                found,
            )
        } else {
            found
        }
    } else if tree::is(expression, "BinaryOp"@) {
        let operation = tree::at(expression, "BinaryOp"@);
        aggregates_in(
            tree::at(operation, "right"@),
            aggregates_in(tree::at(operation, "left"@), found),
        )
    } else if tested(expression) is Some {
        aggregates_in(tested(expression)->0, found)
    } else if tree::is(expression, "InList"@) {
        let test = tree::at(expression, "InList"@);
        aggregates_in_list(
            tree::at(test, "list"@),
            0,
            aggregates_in(tree::at(test, "expr"@), found),
        )
    } else if tree::is(expression, "Between"@) {
        let test = tree::at(expression, "Between"@);
        aggregates_in(
            tree::at(test, "high"@),
            aggregates_in(tree::at(test, "low"@), aggregates_in(tree::at(test, "expr"@), found)),
        )
    } else if tree::is(expression, "Like"@) {
        let test = tree::at(expression, "Like"@);
        aggregates_in(tree::at(test, "pattern"@), aggregates_in(tree::at(test, "expr"@), found))
    } else if tree::is(expression, "ILike"@) {
        let test = tree::at(expression, "ILike"@);
        aggregates_in(tree::at(test, "pattern"@), aggregates_in(tree::at(test, "expr"@), found))
    } else if tree::is(expression, "Case"@) {
        let case = tree::at(expression, "Case"@);
        let operand = tree::at(case, "operand"@);
        let otherwise = tree::at(case, "else_result"@);
        let found = if operand is Null {
            found
        } else {
            aggregates_in(operand, found)
        };
        let found = aggregates_in_arms(tree::at(case, "conditions"@), 0, found);
        if otherwise is Null {
            found
        } else {
            aggregates_in(otherwise, found)
        }
    } else {
        found
    }
}

/// The aggregates of function arguments from a position on.
pub open spec fn aggregates_in_arguments(
    arguments: TreeView,
    i: nat,
    found: Seq<TreeView>,
) -> Seq<TreeView>
    decreases tree::height(arguments), tree::list(arguments).len() - i,
{
    if i >= tree::list(arguments).len() {
        found
    } else {
        let argument = tree::at(tree::list(arguments)[i as int], "Unnamed"@);
        aggregates_in_arguments(
            arguments,
            i + 1,
            if tree::is(argument, "Expr"@) {
                aggregates_in(tree::at(argument, "Expr"@), found)
            } else {
                found
            },
        )
    }
}

/// The aggregates of expressions from a position on.
pub open spec fn aggregates_in_list(
    expressions: TreeView,
    i: nat,
    found: Seq<TreeView>,
) -> Seq<TreeView>
    decreases tree::height(expressions), tree::list(expressions).len() - i,
{
    if i >= tree::list(expressions).len() {
        found
    } else {
        aggregates_in_list(
            expressions,
            i + 1,
            aggregates_in(tree::list(expressions)[i as int], found),
        )
    }
}

/// The aggregates of CASE arms from a position on.
pub open spec fn aggregates_in_arms(arms: TreeView, i: nat, found: Seq<TreeView>) -> Seq<TreeView>
    decreases tree::height(arms), tree::list(arms).len() - i,
{
    if i >= tree::list(arms).len() {
        found
    } else {
        let arm = tree::list(arms)[i as int];
        aggregates_in_arms(
            arms,
            i + 1,
            aggregates_in(
                tree::at(arm, "result"@),
                aggregates_in(tree::at(arm, "condition"@), found),
            ),
        )
    }
}

/// Whether all trees of a run are lower than a bound.
pub open spec fn all_lower(trees: Seq<TreeView>, bound: nat) -> bool {
    forall|i: int| 0 <= i < trees.len() ==> tree::height(#[trigger] trees[i]) < bound
}

/// Aggregates are no higher than the expression that holds them.
pub proof fn lemma_aggregates_height(expression: TreeView, found: Seq<TreeView>, bound: nat)
    requires
        all_lower(found, bound),
        tree::height(expression) < bound,
    ensures
        all_lower(aggregates_in(expression, found), bound),
    decreases tree::height(expression), 0nat,
{
    let e = expression;
    if tree::is(e, "Function"@) {
        let function = tree::at(e, "Function"@);
        if !is_aggregate(function) && tree::is(tree::at(function, "args"@), "List"@) {
            lemma_argument_aggregates_height(
                tree::at(tree::at(tree::at(function, "args"@), "List"@), "args"@),
                0,
                found,
                bound,
            );
        }
    } else if tree::is(e, "BinaryOp"@) {
        let operation = tree::at(e, "BinaryOp"@);
        lemma_aggregates_height(tree::at(operation, "left"@), found, bound);
        lemma_aggregates_height(
            tree::at(operation, "right"@),
            aggregates_in(tree::at(operation, "left"@), found),
            bound,
        );
    } else if tested(e) is Some {
        assert(tree::height(tested(e)->0) < tree::height(e));
        lemma_aggregates_height(tested(e)->0, found, bound);
    } else if tree::is(e, "InList"@) {
        let test = tree::at(e, "InList"@);
        lemma_aggregates_height(tree::at(test, "expr"@), found, bound);
        lemma_list_aggregates_height(
            tree::at(test, "list"@),
            0,
            aggregates_in(tree::at(test, "expr"@), found),
            bound,
        );
    } else if tree::is(e, "Between"@) {
        let test = tree::at(e, "Between"@);
        let first = aggregates_in(tree::at(test, "expr"@), found);
        lemma_aggregates_height(tree::at(test, "expr"@), found, bound);
        lemma_aggregates_height(tree::at(test, "low"@), first, bound);
        lemma_aggregates_height(
            tree::at(test, "high"@),
            aggregates_in(tree::at(test, "low"@), first),
            bound,
        );
    } else if tree::is(e, "Like"@) {
        let test = tree::at(e, "Like"@);
        lemma_aggregates_height(tree::at(test, "expr"@), found, bound);
        lemma_aggregates_height(
            tree::at(test, "pattern"@),
            aggregates_in(tree::at(test, "expr"@), found),
            bound,
        );
    } else if tree::is(e, "ILike"@) {
        let test = tree::at(e, "ILike"@);
        lemma_aggregates_height(tree::at(test, "expr"@), found, bound);
        lemma_aggregates_height(
            tree::at(test, "pattern"@),
            aggregates_in(tree::at(test, "expr"@), found),
            bound,
        );
    } else if tree::is(e, "Case"@) {
        let case = tree::at(e, "Case"@);
        let operand = tree::at(case, "operand"@);
        let otherwise = tree::at(case, "else_result"@);
        lemma_aggregates_height(operand, found, bound);
        let found = if operand is Null {
            found
        } else {
            aggregates_in(operand, found)
        };
        lemma_arm_aggregates_height(tree::at(case, "conditions"@), 0, found, bound);
        let found = aggregates_in_arms(tree::at(case, "conditions"@), 0, found);
        lemma_aggregates_height(otherwise, found, bound);
    }
}

proof fn lemma_argument_aggregates_height(
    arguments: TreeView,
    i: nat,
    found: Seq<TreeView>,
    bound: nat,
)
    requires
        all_lower(found, bound),
        tree::height(arguments) < bound,
    ensures
        all_lower(aggregates_in_arguments(arguments, i, found), bound),
    decreases tree::height(arguments), tree::list(arguments).len() - i,
{
    if i < tree::list(arguments).len() {
        let item = tree::list(arguments)[i as int];
        assert(tree::height(item) < tree::height(arguments));
        let argument = tree::at(item, "Unnamed"@);
        assert(tree::height(argument) <= tree::height(item));
        assert(tree::height(tree::at(argument, "Expr"@)) <= tree::height(argument));
        if tree::is(argument, "Expr"@) {
            lemma_aggregates_height(tree::at(argument, "Expr"@), found, bound);
            lemma_argument_aggregates_height(
                arguments,
                i + 1,
                aggregates_in(tree::at(argument, "Expr"@), found),
                bound,
            );
        } else {
            lemma_argument_aggregates_height(arguments, i + 1, found, bound);
        }
    }
}

proof fn lemma_list_aggregates_height(
    expressions: TreeView,
    i: nat,
    found: Seq<TreeView>,
    bound: nat,
)
    requires
        all_lower(found, bound),
        tree::height(expressions) < bound,
    ensures
        all_lower(aggregates_in_list(expressions, i, found), bound),
    decreases tree::height(expressions), tree::list(expressions).len() - i,
{
    if i < tree::list(expressions).len() {
        let item = tree::list(expressions)[i as int];
        assert(tree::height(item) < tree::height(expressions));
        lemma_aggregates_height(item, found, bound);
        lemma_list_aggregates_height(expressions, i + 1, aggregates_in(item, found), bound);
    }
}

proof fn lemma_arm_aggregates_height(arms: TreeView, i: nat, found: Seq<TreeView>, bound: nat)
    requires
        all_lower(found, bound),
        tree::height(arms) < bound,
    ensures
        all_lower(aggregates_in_arms(arms, i, found), bound),
    decreases tree::height(arms), tree::list(arms).len() - i,
{
    if i < tree::list(arms).len() {
        let arm = tree::list(arms)[i as int];
        assert(tree::height(arm) < tree::height(arms));
        let condition = tree::at(arm, "condition"@);
        let result = tree::at(arm, "result"@);
        assert(tree::height(condition) <= tree::height(arm));
        assert(tree::height(result) <= tree::height(arm));
        lemma_aggregates_height(condition, found, bound);
        lemma_aggregates_height(result, aggregates_in(condition, found), bound);
        lemma_arm_aggregates_height(
            arms,
            i + 1,
            aggregates_in(result, aggregates_in(condition, found)),
            bound,
        );
    }
}

/// Adds the aggregates of an expression to those found.
pub fn collect_aggregate_expressions<'a>(expression: &'a Tree, found: &mut Vec<&'a Tree>)
    ensures
        refs_view(final(found)@) == aggregates_in(expression@, refs_view(old(found)@)),
    decreases tree::height(expression@), 0nat,
{
    if expression.is("Function") {
        let function = expression.at("Function");
        if is_aggregate_function(function) {
            if !contains_syntax(found, expression) {
                found.push(expression);
                assert(refs_view(found@) =~= refs_view(old(found)@).push(expression@));
            }
        } else if function.at("args").is("List") {
            collect_from_arguments(function.at("args").at("List").at("args"), found);
        }
    } else if expression.is("BinaryOp") {
        let operation = expression.at("BinaryOp");
        collect_aggregate_expressions(operation.at("left"), found);
        collect_aggregate_expressions(operation.at("right"), found);
    } else if let Some(inner) = operand(expression) {
        collect_aggregate_expressions(inner, found);
    } else if expression.is("InList") {
        let test = expression.at("InList");
        collect_aggregate_expressions(test.at("expr"), found);
        collect_from_list(test.at("list"), found);
    } else if expression.is("Between") {
        let test = expression.at("Between");
        collect_aggregate_expressions(test.at("expr"), found);
        collect_aggregate_expressions(test.at("low"), found);
        collect_aggregate_expressions(test.at("high"), found);
    } else if expression.is("Like") {
        let test = expression.at("Like");
        collect_aggregate_expressions(test.at("expr"), found);
        collect_aggregate_expressions(test.at("pattern"), found);
    } else if expression.is("ILike") {
        let test = expression.at("ILike");
        collect_aggregate_expressions(test.at("expr"), found);
        collect_aggregate_expressions(test.at("pattern"), found);
    } else if expression.is("Case") {
        let case = expression.at("Case");
        if !case.at("operand").absent() {
            collect_aggregate_expressions(case.at("operand"), found);
        }
        collect_from_arms(case.at("conditions"), found);
        if !case.at("else_result").absent() {
            collect_aggregate_expressions(case.at("else_result"), found);
        }
    }
}

fn collect_from_arguments<'a>(arguments: &'a Tree, found: &mut Vec<&'a Tree>)
    ensures
        refs_view(final(found)@) == aggregates_in_arguments(arguments@, 0, refs_view(old(found)@)),
    decreases tree::height(arguments@), 1nat,
{
    let count = arguments.count();
    let mut i: usize = 0;
    while i < count
        invariant
            i <= count,
            count == tree::list(arguments@).len(),
            aggregates_in_arguments(arguments@, i as nat, refs_view(found@)) == aggregates_in_arguments(
                arguments@,
                0,
                refs_view(old(found)@),
            ),
        decreases count - i,
    {
        let argument = arguments.item(i).at("Unnamed");
        if argument.is("Expr") {
            collect_aggregate_expressions(argument.at("Expr"), found);
        }
        i += 1;
    }
}

fn collect_from_list<'a>(expressions: &'a Tree, found: &mut Vec<&'a Tree>)
    ensures
        refs_view(final(found)@) == aggregates_in_list(expressions@, 0, refs_view(old(found)@)),
    decreases tree::height(expressions@), 1nat,
{
    let count = expressions.count();
    let mut i: usize = 0;
    while i < count
        invariant
            i <= count,
            count == tree::list(expressions@).len(),
            aggregates_in_list(expressions@, i as nat, refs_view(found@)) == aggregates_in_list(
                expressions@,
                0,
                refs_view(old(found)@),
            ),
        decreases count - i,
    {
        collect_aggregate_expressions(expressions.item(i), found);
        i += 1;
    }
}

fn collect_from_arms<'a>(arms: &'a Tree, found: &mut Vec<&'a Tree>)
    ensures
        refs_view(final(found)@) == aggregates_in_arms(arms@, 0, refs_view(old(found)@)),
    decreases tree::height(arms@), 1nat,
{
    let count = arms.count();
    let mut i: usize = 0;
    while i < count
        invariant
            i <= count,
            count == tree::list(arms@).len(),
            aggregates_in_arms(arms@, i as nat, refs_view(found@)) == aggregates_in_arms(
                arms@,
                0,
                refs_view(old(found)@),
            ),
        decreases count - i,
    {
        let arm = arms.item(i);
        collect_aggregate_expressions(arm.at("condition"), found);
        collect_aggregate_expressions(arm.at("result"), found);
        i += 1;
    }
}

/// Whether a projection item is an expression.
pub open spec fn is_expression_item(item: TreeView) -> bool {
    tree::is(item, "UnnamedExpr"@) || tree::is(item, "ExprWithAlias"@)
}

/// Whether a projection item is an expression.
pub fn expression_item(item: &Tree) -> (yes: bool)
    ensures
        yes == is_expression_item(item@),
{
    item.is("UnnamedExpr") || item.is("ExprWithAlias")
}

/// The expression of a projection item; null where it is none.
pub open spec fn item_expression(item: TreeView) -> TreeView {
    if tree::is(item, "UnnamedExpr"@) {
        tree::at(item, "UnnamedExpr"@)
    } else {
        tree::at(tree::at(item, "ExprWithAlias"@), "expr"@)
    }
}

/// The expression of a projection item; null where it is none.
pub fn expression_ast(item: &Tree) -> (expression: &Tree)
    ensures
        expression@ == item_expression(item@),
{
    if item.is("UnnamedExpr") {
        item.at("UnnamedExpr")
    } else {
        item.at("ExprWithAlias").at("expr")
    }
}

/// The name that an expression gives its column.
pub open spec fn own_name(expression: TreeView) -> Seq<char> {
    if tree::is(expression, "Identifier"@) {
        literals::ident_name(tree::at(expression, "Identifier"@))
    } else if tree::is(expression, "CompoundIdentifier"@) {
        let parts = tree::list(tree::at(expression, "CompoundIdentifier"@));
        if parts.len() > 0 {
            literals::ident_name(parts.last())
        } else {
            "column"@
        }
    } else if tree::is(expression, "Function"@) {
        match literals::object_text(tree::at(tree::at(expression, "Function"@), "name"@)) {
            Ok(name) => name,
            Err(_) => "column"@,
        }
    } else {
        "?column?"@
    }
}

/// The name that an expression gives its column.
pub fn expression_name(expression: &Tree) -> (name: String)
    ensures
        name@ == own_name(expression@),
{
    if expression.is("Identifier") {
        identifier(expression.at("Identifier"))
    } else if expression.is("CompoundIdentifier") {
        let parts = expression.at("CompoundIdentifier");
        let count = parts.count();
        if count > 0 {
            identifier(parts.item(count - 1))
        } else {
            "column".to_owned()
        }
    } else if expression.is("Function") {
        match object_name(expression.at("Function").at("name")) {
            Ok(name) => name,
            Err(_) => "column".to_owned(),
        }
    } else {
        "?column?".to_owned()
    }
}

/// The name of the column that a projection item yields.
pub open spec fn item_name(item: TreeView) -> Seq<char> {
    if tree::is(item, "ExprWithAlias"@) {
        literals::ident_name(tree::at(tree::at(item, "ExprWithAlias"@), "alias"@))
    } else if tree::is(item, "UnnamedExpr"@) {
        own_name(tree::at(item, "UnnamedExpr"@))
    } else {
        "column"@
    }
}

/// The name of the column that a projection item yields.
pub fn select_item_name(item: &Tree) -> (name: String)
    ensures
        name@ == item_name(item@),
{
    if item.is("ExprWithAlias") {
        identifier(item.at("ExprWithAlias").at("alias"))
    } else if item.is("UnnamedExpr") {
        expression_name(item.at("UnnamedExpr"))
    } else {
        "column".to_owned()
    }
}

/// The wire format of an expression that is just a column; empty otherwise.
pub open spec fn column_format(expression: TreeView, env: ExpressionEnvView) -> Seq<char> {
    let parts = tree::list(tree::at(expression, "CompoundIdentifier"@));
    let found = if tree::is(expression, "Identifier"@) {
        env::looked_up(
            env.levels,
            None,
            literals::ident_name(tree::at(expression, "Identifier"@)),
        )
    } else if tree::is(expression, "CompoundIdentifier"@) && parts.len() == 2 {
        env::looked_up(
            env.levels,
            Some(literals::ident_name(parts[0])),
            literals::ident_name(parts[1]),
        )
    } else {
        Err(ErrorView::Invalid(Seq::empty()))
    };
    match found {
        Ok((_, column)) => column.format,
        Err(_) => Seq::empty(),
    }
}

/// The wire format of an expression that is just a column; empty otherwise.
pub fn direct_column_format(expression: &Tree, env: &ExpressionEnv) -> (format: String)
    ensures
        format@ == column_format(expression@, env@),
{
    if expression.is("Identifier") {
        let name = identifier(expression.at("Identifier"));
        match env.lookup(None, name.as_str()) {
            Ok((_, column)) => column.format.clone(),
            Err(_) => String::new(),
        }
    } else if expression.is("CompoundIdentifier") {
        let parts = expression.at("CompoundIdentifier");
        if parts.count() != 2 {
            return String::new();
        }
        let qualifier = identifier(parts.item(0));
        let name = identifier(parts.item(1));
        match env.lookup(Some(qualifier.as_str()), name.as_str()) {
            Ok((_, column)) => column.format.clone(),
            Err(_) => String::new(),
        }
    } else {
        String::new()
    }
}

/// Whether duplicate rows are dropped.
pub open spec fn drops_duplicates(select: TreeView) -> Result<bool, ErrorView> {
    let distinct = tree::at(select, "distinct"@);
    if tree::is(distinct, "Distinct"@) {
        Ok(true)
    } else if tree::is(distinct, "On"@) {
        Err(
            ErrorView::Unsupported(
                "DISTINCT ON needs a per-group first-row relational primitive"@,
            ),
        )
    } else {
        Ok(false)
    }
}

/// Whether duplicate rows are dropped.
pub fn select_distinct(select: &Tree) -> (result: Result<bool, Error>)
    ensures
        drops_duplicates(select@) == (match result {
            Ok(yes) => Ok(yes),
            Err(error) => Err(error@),
        }),
{
    let distinct = select.at("distinct");
    if distinct.is("Distinct") {
        Ok(true)
    } else if distinct.is("On") {
        Err(
            Error::Unsupported(
                "DISTINCT ON needs a per-group first-row relational primitive".to_owned(),
            ),
        )
    } else {
        Ok(false)
    }
}

/// Whether a query body reads from a name.
pub open spec fn body_reads(body: TreeView, name: Seq<char>) -> bool
    decreases tree::height(body), 1nat,
{
    if tree::is(body, "Select"@) {
        sources_read(tree::at(tree::at(body, "Select"@), "from"@), name, 0)
    } else if tree::is(body, "Query"@) {
        body_reads(tree::at(tree::at(body, "Query"@), "body"@), name)
    } else if tree::is(body, "SetOperation"@) {
        let operation = tree::at(body, "SetOperation"@);
        body_reads(tree::at(operation, "left"@), name) || body_reads(
            tree::at(operation, "right"@),
            name,
        )
    } else {
        false
    }
}

/// Whether FROM items from a position on read from a name.
pub open spec fn sources_read(sources: TreeView, name: Seq<char>, i: nat) -> bool
    decreases tree::height(sources), tree::list(sources).len() - i,
{
    if i >= tree::list(sources).len() {
        false
    } else {
        let source = tree::list(sources)[i as int];
        factor_reads(tree::at(source, "relation"@), name) || joins_read(
            tree::at(source, "joins"@),
            name,
            0,
        ) || sources_read(sources, name, i + 1)
    }
}

/// Whether joins from a position on read from a name.
pub open spec fn joins_read(joins: TreeView, name: Seq<char>, i: nat) -> bool
    decreases tree::height(joins), tree::list(joins).len() - i,
{
    if i >= tree::list(joins).len() {
        false
    } else {
        factor_reads(tree::at(tree::list(joins)[i as int], "relation"@), name) || joins_read(
            joins,
            name,
            i + 1,
        )
    }
}

/// Whether a FROM item reads from a name.
pub open spec fn factor_reads(factor: TreeView, name: Seq<char>) -> bool
    decreases tree::height(factor), 1nat,
{
    if tree::is(factor, "Table"@) {
        literals::object_text(tree::at(tree::at(factor, "Table"@), "name"@)) == Ok::<
            Seq<char>,
            ErrorView,
        >(name)
    } else if tree::is(factor, "Derived"@) {
        body_reads(
            tree::at(tree::at(tree::at(factor, "Derived"@), "subquery"@), "body"@),
            name,
        )
    } else if tree::is(factor, "NestedJoin"@) {
        let inner = tree::at(tree::at(factor, "NestedJoin"@), "table_with_joins"@);
        factor_reads(tree::at(inner, "relation"@), name) || joins_read(
            tree::at(inner, "joins"@),
            name,
            0,
        )
    } else {
        false
    }
}

/// Whether a query body reads from a name.
pub fn set_expr_references(body: &Tree, name: &str) -> (yes: bool)
    ensures
        yes == body_reads(body@, name@),
    decreases tree::height(body@), 1nat,
{
    if body.is("Select") {
        let sources = body.at("Select").at("from");
        let count = sources.count();
        let mut i: usize = 0;
        while i < count
            invariant
                i <= count,
                count == tree::list(sources@).len(),
                tree::height(sources@) < tree::height(body@),
                body_reads(body@, name@) == sources_read(sources@, name@, 0),
                sources_read(sources@, name@, 0) == sources_read(sources@, name@, i as nat),
            decreases count - i,
        {
            let source = sources.item(i);
            if table_factor_references(source.at("relation"), name) {
                return true;
            }
            if joins_reference(source.at("joins"), name) {
                return true;
            }
            i += 1;
        }
        false
    } else if body.is("Query") {
        set_expr_references(body.at("Query").at("body"), name)
    } else if body.is("SetOperation") {
        let operation = body.at("SetOperation");
        set_expr_references(operation.at("left"), name) || set_expr_references(
            operation.at("right"),
            name,
        )
    } else {
        false
    }
}

fn joins_reference(joins: &Tree, name: &str) -> (yes: bool)
    ensures
        yes == joins_read(joins@, name@, 0),
    decreases tree::height(joins@), 2nat,
{
    let count = joins.count();
    let mut i: usize = 0;
    while i < count
        invariant
            i <= count,
            count == tree::list(joins@).len(),
            joins_read(joins@, name@, 0) == joins_read(joins@, name@, i as nat),
        decreases count - i,
    {
        if table_factor_references(joins.item(i).at("relation"), name) {
            return true;
        }
        i += 1;
    }
    false
}

/// Whether a FROM item reads from a name.
pub fn table_factor_references(factor: &Tree, name: &str) -> (yes: bool)
    ensures
        yes == factor_reads(factor@, name@),
    decreases tree::height(factor@), 1nat,
{
    if factor.is("Table") {
        match object_name(factor.at("Table").at("name")) {
            Ok(table) => same_text(table.as_str(), name),
            Err(_) => false,
        }
    } else if factor.is("Derived") {
        set_expr_references(factor.at("Derived").at("subquery").at("body"), name)
    } else if factor.is("NestedJoin") {
        let inner = factor.at("NestedJoin").at("table_with_joins");
        table_factor_references(inner.at("relation"), name) || joins_reference(
            inner.at("joins"),
            name,
        )
    } else {
        false
    }
}

/// The position that a number literal names, where an expression is one.
pub open spec fn ordinal(expression: TreeView) -> Option<nat> {
    if tree::is(expression, "Value"@) && tree::is(value_of(expression), "Number"@) {
        text::unsigned_value(literals::number_text(value_of(expression)), usize::MAX as nat)
    } else {
        None
    }
}

fn read_ordinal(expression: &Tree) -> (position: Option<usize>)
    ensures
        ordinal(expression@) == (match position {
            Some(position) => Some(position as nat),
            None => None,
        }),
{
    if expression.is("Value") {
        let value = expression.at("Value").at("value");
        if value.is("Number") {
            return parse_count(number_literal(value));
        }
    }
    None
}

/// The error for a sort position that is not there.
pub open spec fn out_of_range(position: nat) -> ErrorView {
    ErrorView::Invalid("ORDER BY position "@ + text::decimal(position) + " is out of range"@)
}

fn range_error(position: usize) -> (error: Error)
    ensures
        error@ == out_of_range(position as nat),
{
    let number = count_text(position);
    Error::Invalid(join3("ORDER BY position ", number.as_str(), " is out of range"))
}

/// The first projected expression with an alias.
pub open spec fn aliased_expression(projection: TreeView, name: Seq<char>, i: nat) -> Option<TreeView>
    decreases tree::list(projection).len() - i,
{
    if i >= tree::list(projection).len() {
        None
    } else {
        let item = tree::list(projection)[i as int];
        let named = tree::at(item, "ExprWithAlias"@);
        if tree::is(item, "ExprWithAlias"@) && literals::ident_name(tree::at(named, "alias"@))
            == name {
            Some(tree::at(named, "expr"@))
        } else {
            aliased_expression(projection, name, i + 1)
        }
    }
}

/// The expression that a sort or group key stands for: a position or an alias
/// means the projected expression. A position that names a wildcard has no
/// expression.
pub open spec fn projected_key(expression: TreeView, projection: TreeView) -> Result<
    TreeView,
    ErrorView,
> {
    match ordinal(expression) {
        Some(position) => if 0 < position <= tree::list(projection).len() {
            Ok(item_expression(tree::list(projection)[position - 1]))
        } else {
            Err(out_of_range(position))
        },
        None => if tree::is(expression, "Identifier"@) {
            match aliased_expression(
                projection,
                literals::ident_name(tree::at(expression, "Identifier"@)),
                0,
            ) {
                Some(projected) => Ok(projected),
                None => Ok(expression),
            }
        } else {
            Ok(expression)
        },
    }
}

proof fn lemma_aliased_height(projection: TreeView, name: Seq<char>, i: nat)
    ensures
        aliased_expression(projection, name, i) matches Some(found) ==> tree::height(found)
            < tree::height(projection),
    decreases tree::list(projection).len() - i,
{
    if i < tree::list(projection).len() {
        lemma_aliased_height(projection, name, i + 1);
        let item = tree::list(projection)[i as int];
        assert(tree::height(item) < tree::height(projection));
        assert(tree::height(tree::at(item, "ExprWithAlias"@)) <= tree::height(item));
    }
}

/// A projected key is the key itself or lower than the projection.
pub proof fn lemma_projected_key_height(expression: TreeView, projection: TreeView)
    ensures
        projected_key(expression, projection) matches Ok(key) ==> key == expression
            || tree::height(key) < tree::height(projection),
{
    match ordinal(expression) {
        Some(position) => {
            if 0 < position <= tree::list(projection).len() {
                let item = tree::list(projection)[position - 1];
                assert(tree::height(item) < tree::height(projection));
                assert(tree::height(tree::at(item, "UnnamedExpr"@)) <= tree::height(item));
                assert(tree::height(tree::at(item, "ExprWithAlias"@)) <= tree::height(item));
            }
        },
        None => {
            lemma_aliased_height(
                projection,
                literals::ident_name(tree::at(expression, "Identifier"@)),
                0,
            );
        },
    }
}

/// The expression that a sort or group key stands for.
pub fn aggregate_order_expression<'a>(expression: &'a Tree, projection: &'a Tree) -> (result: Result<
    &'a Tree,
    Error,
>)
    ensures
        projected_key(expression@, projection@) == (match result {
            Ok(key) => Ok(key@),
            Err(error) => Err(error@),
        }),
{
    if let Some(position) = read_ordinal(expression) {
        if position > 0 && position <= projection.count() {
            return Ok(expression_ast(projection.item(position - 1)));
        }
        return Err(range_error(position));
    }
    if expression.is("Identifier") {
        let name = identifier(expression.at("Identifier"));
        let count = projection.count();
        let mut i: usize = 0;
        while i < count
            invariant
                i <= count,
                count == tree::list(projection@).len(),
                aliased_expression(projection@, name@, 0) == aliased_expression(
                    projection@,
                    name@,
                    i as nat,
                ),
                name@ == literals::ident_name(tree::at(expression@, "Identifier"@)),
                tree::is(expression@, "Identifier"@),
                ordinal(expression@) is None,
            decreases count - i,
        {
            let item = projection.item(i);
            if item.is("ExprWithAlias") {
                let named = item.at("ExprWithAlias");
                let alias = identifier(named.at("alias"));
                if same_text(alias.as_str(), name.as_str()) {
                    return Ok(named.at("expr"));
                }
            }
            i += 1;
        }
    }
    Ok(expression)
}

/// What a sort key of an output means: one of its columns, or an expression
/// over them.
pub enum OutputKey<'a> {
    Column(String),
    Syntax(&'a Tree),
}

/// The value of an [`OutputKey`].
pub enum OutputKeyView {
    Column(Seq<char>),
    Syntax(TreeView),
}

impl<'a> View for OutputKey<'a> {
    type V = OutputKeyView;

    open spec fn view(&self) -> OutputKeyView {
        match *self {
            OutputKey::Column(name) => OutputKeyView::Column(name@),
            OutputKey::Syntax(syntax) => OutputKeyView::Syntax(syntax@),
        }
    }
}

/// The sort key of an output: a position means a column.
pub open spec fn output_key(expression: TreeView, columns: Seq<ResultColumnView>) -> Result<
    OutputKeyView,
    ErrorView,
> {
    match ordinal(expression) {
        Some(position) => if 0 < position <= columns.len() {
            Ok(OutputKeyView::Column(columns[position - 1].name))
        } else {
            Err(out_of_range(position))
        },
        None => Ok(OutputKeyView::Syntax(expression)),
    }
}

/// The view of a fallible key.
pub open spec fn key_result(result: Result<OutputKey, Error>) -> Result<OutputKeyView, ErrorView> {
    match result {
        Ok(key) => Ok(key@),
        Err(error) => Err(error@),
    }
}

/// The sort key of an output: a position means a column.
pub fn order_output_expression<'a>(expression: &'a Tree, columns: &Vec<ResultColumn>) -> (result:
    Result<OutputKey<'a>, Error>)
    ensures
        key_result(result) == output_key(expression@, types::result_columns_view(columns@)),
{
    if let Some(position) = read_ordinal(expression) {
        if position > 0 && position <= columns.len() {
            return Ok(OutputKey::Column(columns[position - 1].name.clone()));
        }
        return Err(range_error(position));
    }
    Ok(OutputKey::Syntax(expression))
}

/// The column that shows the same expression, among the projected ones.
pub open spec fn shown_column(
    expression: TreeView,
    projection: TreeView,
    columns: Seq<ResultColumnView>,
    i: nat,
) -> Option<Seq<char>>
    decreases tree::list(projection).len() - i,
{
    if i >= tree::list(projection).len() || i >= columns.len() {
        None
    } else {
        let item = tree::list(projection)[i as int];
        if is_expression_item(item) && tree::same_syntax(item_expression(item), expression) {
            Some(columns[i as int].name)
        } else {
            shown_column(expression, projection, columns, i + 1)
        }
    }
}

/// The sort key of a projected output: a position or a column name means the
/// column, and so does the projected expression itself.
pub open spec fn projected_output_key(
    expression: TreeView,
    projection: TreeView,
    columns: Seq<ResultColumnView>,
) -> OutputKeyView {
    if tree::is(expression, "Value"@) && tree::is(value_of(expression), "Number"@) {
        match output_key(expression, columns) {
            Ok(key) => key,
            Err(_) => OutputKeyView::Syntax(expression),
        }
    } else if tree::is(expression, "Identifier"@) && env::find_column(
        columns,
        literals::ident_name(tree::at(expression, "Identifier"@)),
    ) is Some {
        OutputKeyView::Syntax(expression)
    } else {
        match shown_column(expression, projection, columns, 0) {
            Some(name) => OutputKeyView::Column(name),
            None => OutputKeyView::Syntax(expression),
        }
    }
}

/// The sort key of a projected output.
pub fn projection_order_expression<'a>(
    expression: &'a Tree,
    projection: &Tree,
    columns: &Vec<ResultColumn>,
) -> (key: OutputKey<'a>)
    ensures
        key@ == projected_output_key(
            expression@,
            projection@,
            types::result_columns_view(columns@),
        ),
{
    if expression.is("Value") && expression.at("Value").at("value").is("Number") {
        return match order_output_expression(expression, columns) {
            Ok(key) => key,
            Err(_) => OutputKey::Syntax(expression),
        };
    }
    if expression.is("Identifier") {
        let name = identifier(expression.at("Identifier"));
        if env::column_named(columns, name.as_str()).is_some() {
            return OutputKey::Syntax(expression);
        }
    }
    let ghost all = types::result_columns_view(columns@);
    let count = projection.count();
    let mut i: usize = 0;
    while i < count && i < columns.len()
        invariant
            i <= count,
            i <= columns.len(),
            count == tree::list(projection@).len(),
            all == types::result_columns_view(columns@),
            shown_column(expression@, projection@, all, 0) == shown_column(
                expression@,
                projection@,
                all,
                i as nat,
            ),
            projected_output_key(expression@, projection@, all) == (match shown_column(
                expression@,
                projection@,
                all,
                0,
            ) {
                Some(name) => OutputKeyView::Column(name),
                None => OutputKeyView::Syntax(expression@),
            }),
        decreases count - i,
    {
        let item = projection.item(i);
        assert(all[i as int] == columns@[i as int]@);
        if expression_item(item) && expression_ast(item).same_syntax(expression) {
            return OutputKey::Column(columns[i].name.clone());
        }
        i += 1;
    }
    OutputKey::Syntax(expression)
}

/// Names from identifiers.
pub open spec fn ident_names(idents: TreeView) -> Seq<Seq<char>> {
    Seq::new(tree::list(idents).len(), |i: int| literals::ident_name(tree::list(idents)[i]))
}

/// Names from identifiers.
pub fn identifiers(idents: &Tree) -> (names: Vec<String>)
    ensures
        text::texts(names@) == ident_names(idents@),
{
    let mut names: Vec<String> = Vec::new();
    let count = idents.count();
    let mut i: usize = 0;
    while i < count
        invariant
            i <= count,
            count == tree::list(idents@).len(),
            names.len() == i,
            forall|k: int|
                0 <= k < i ==> (#[trigger] names@[k])@ == literals::ident_name(
                    tree::list(idents@)[k],
                ),
        decreases count - i,
    {
        names.push(identifier(idents.item(i)));
        i += 1;
    }
    assert(text::texts(names@) =~= ident_names(idents@));
    names
}

} // verus!
