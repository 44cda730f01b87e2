//! Lowering of expressions.

use vstd::prelude::*;

use crate::sql::catalog;
use crate::sql::catalog::Table;
use crate::sql::datatypes;
use crate::sql::env;
use crate::sql::env::{refer, ExpressionCompiler};
use crate::sql::forms;
use crate::sql::lir;
use crate::sql::lir::{
    BinaryOp, Binding, BranchArm, Expr, Kind, Literal, RawScalar, ScalarType, UnaryOp,
};
use crate::sql::literals;
use crate::sql::literals::{identifier, object_name};
use crate::sql::lowering;
use crate::sql::lowering::{State, Surroundings};
use crate::sql::operators;
use crate::sql::operators::{binary, fold_binary, negate_if, null_literal, unary};
use crate::sql::shapes;
use crate::sql::syntax;
use crate::sql::tree;
use crate::sql::tree::Tree;
use crate::sql::types;
use crate::sql::types::{BindingColumns, CompiledExpr, Error, Parameter};
use crate::text;
use crate::text::{count_text, join3, join4, same_text, to_lower};

verus! {

broadcast use {
    tree::group_tree_heights,
    lir::group_lir_views,
    types::group_sql_views,
};

/// A statement in the course of its lowering: the catalog and parameters it is
/// lowered against, and what is known so far.
pub struct Context<'a> {
    pub tables: &'a [Table],
    pub hints: &'a [Option<ScalarType>],
    pub parameters: Option<&'a [Parameter]>,
    pub inferred: Vec<Option<ScalarType>>,
    pub bindings: Vec<Binding>,
    pub binding_columns: Vec<BindingColumns>,
    pub recursive_binding: Option<String>,
    pub next_scope: usize,
}

impl<'a> Context<'a> {
    /// What the statement is lowered against.
    pub open spec fn around(&self) -> Surroundings {
        Surroundings {
            tables: catalog::tables_view(self.tables@),
            hints: self.hints@,
            parameters: literals::bound_view(self.parameters),
        }
    }

    /// What is known so far.
    pub open spec fn state(&self) -> State {
        State {
            inferred: self.inferred@,
            bindings: lir::bindings_view(self.bindings@),
            columns: types::binding_columnss_view(self.binding_columns@),
            recursive: text::text_option(self.recursive_binding),
            next: self.next_scope as nat,
        }
    }

    /// A context that knows nothing but the hinted parameter types.
    pub fn new(
        tables: &'a [Table],
        hints: &'a [Option<ScalarType>],
        parameters: Option<&'a [Parameter]>,
    ) -> (context: Context<'a>)
        ensures
            context.around() == (Surroundings {
                tables: catalog::tables_view(tables@),
                hints: hints@,
                parameters: literals::bound_view(parameters),
            }),
            context.state() == lowering::initial(hints@),
    {
        let mut inferred: Vec<Option<ScalarType>> = Vec::new();
        let mut i: usize = 0;
        while i < hints.len()
            invariant
                i <= hints.len(),
                inferred@ == hints@.take(i as int),
            decreases hints.len() - i,
        {
            inferred.push(hints[i]);
            proof {
                assert(hints@.take(i + 1) =~= hints@.take(i as int).push(hints@[i as int]));
            }
            i += 1;
        }
        assert(hints@.take(i as int) =~= hints@);
        Context {
            tables,
            hints,
            parameters,
            inferred,
            bindings: Vec::new(),
            binding_columns: Vec::new(),
            recursive_binding: None,
            next_scope: 0,
        }
    }

    /// A scope name that was not given out before.
    pub fn scope(&mut self, base: &str) -> (label: String)
        ensures
            label@ == lowering::fresh_label(old(self).state(), base@),
            final(self).state() == lowering::after_label(old(self).state()),
            final(self).around() == old(self).around(),
    {
        if self.next_scope < usize::MAX {
            self.next_scope += 1;
        }
        let number = count_text(self.next_scope);
        if base.unicode_len() == 0 {
            join3("sql", "_", number.as_str())
        } else {
            join3(base, "_", number.as_str())
        }
    }

    /// A literal as a scalar of the expected type.
    pub(crate) fn raw_literal(&mut self, value: &Tree, expected: ScalarType) -> (result: Result<
        RawScalar,
        Error,
    >)
        ensures
            final(self).around() == old(self).around(),
            lowering::raw_literal(old(self).around(), old(self).state(), value@, expected)
                == lowering::settled(forms::viewed(result), final(self).state()),
    {
        literals::raw_sql_value(value, expected, &mut self.inferred, self.hints, self.parameters)
    }

    /// Lowers an expression.
    pub fn compile(
        &mut self,
        compiler: &ExpressionCompiler,
        expression: &Tree,
        expected: Option<ScalarType>,
    ) -> (result: Result<CompiledExpr, Error>)
        ensures
            final(self).around() == old(self).around(),
            lowering::compiled(
                old(self).around(),
                old(self).state(),
                compiler@,
                expression@,
                expected,
            ) == lowering::settled(forms::viewed(result), final(self).state()),
        decreases tree::height(expression@), 1nat, 0nat,
    {
        if let Some(column) = compiler.substitution(expression) {
            return match &compiler.output {
                Some(output) => Ok(refer(output.scope.as_str(), column)),
                None => Err(Error::Invalid("expression substitution lacks a scope".to_owned())),
            };
        }
        self.compile_syntax(compiler, expression, expected)
    }

    #[verifier::rlimit(40)]
    pub(crate) fn compile_syntax(
        &mut self,
        compiler: &ExpressionCompiler,
        expression: &Tree,
        expected: Option<ScalarType>,
    ) -> (result: Result<CompiledExpr, Error>)
        ensures
            final(self).around() == old(self).around(),
            lowering::compiled_syntax(
                old(self).around(),
                old(self).state(),
                compiler@,
                expression@,
                expected,
            ) == lowering::settled(forms::viewed(result), final(self).state()),
        decreases tree::height(expression@), 0nat, 0nat,
    {
        let e = expression;
        if e.is("Identifier") {
            let name = identifier(e.at("Identifier"));
            compiler.column(None, name.as_str())
        } else if e.is("CompoundIdentifier") && e.at("CompoundIdentifier").count() == 2 {
            let qualifier = identifier(e.at("CompoundIdentifier").item(0));
            let name = identifier(e.at("CompoundIdentifier").item(1));
            compiler.column(Some(qualifier.as_str()), name.as_str())
        } else if e.is("Value") {
            self.compile_literal(e.at("Value").at("value"), expected)
        } else if e.is("BinaryOp") {
            self.compile_binary(compiler, e.at("BinaryOp"))
        } else if e.is("UnaryOp") {
            self.compile_unary(compiler, e.at("UnaryOp"), expected)
        } else if e.is("IsNull") {
            match self.compile(compiler, e.at("IsNull"), expected) {
                Ok(value) => Ok(forms::null_test(value, UnaryOp::IsNull)),
                Err(error) => Err(error),
            }
        } else if e.is("IsNotNull") {
            match self.compile(compiler, e.at("IsNotNull"), expected) {
                Ok(value) => Ok(forms::null_test(value, UnaryOp::IsNotNull)),
                Err(error) => Err(error),
            }
        } else if e.is("IsTrue") {
            match self.compile(compiler, e.at("IsTrue"), Some(ScalarType::Bool)) {
                Ok(value) => Ok(forms::truth_test(value, true, false)),
                Err(error) => Err(error),
            }
        } else if e.is("IsNotTrue") {
            match self.compile(compiler, e.at("IsNotTrue"), Some(ScalarType::Bool)) {
                Ok(value) => Ok(forms::truth_test(value, true, true)),
                Err(error) => Err(error),
            }
        } else if e.is("IsFalse") {
            match self.compile(compiler, e.at("IsFalse"), Some(ScalarType::Bool)) {
                Ok(value) => Ok(forms::truth_test(value, false, false)),
                Err(error) => Err(error),
            }
        } else if e.is("IsNotFalse") {
            match self.compile(compiler, e.at("IsNotFalse"), Some(ScalarType::Bool)) {
                Ok(value) => Ok(forms::truth_test(value, false, true)),
                Err(error) => Err(error),
            }
        } else if e.is("Nested") {
            self.compile(compiler, e.at("Nested"), expected)
        } else if e.is("Cast") {
            self.compile_cast(compiler, e.at("Cast"))
        } else if e.is("InList") {
            self.compile_in_list(compiler, e.at("InList"))
        } else if e.is("Between") {
            self.compile_between(compiler, e.at("Between"))
        } else if e.is("Like") {
            self.compile_like(compiler, e.at("Like"), false)
        } else if e.is("ILike") {
            self.compile_like(compiler, e.at("ILike"), true)
        } else if e.is("Case") {
            self.compile_case(compiler, e.at("Case"), expected)
        } else if e.is("Function") {
            self.compile_scalar_function(compiler, e.at("Function"), expected)
        } else if e.is("Exists") {
            let test = e.at("Exists");
            match self.select_query_in(test.at("subquery"), &compiler.env) {
                Ok(query) => Ok(forms::exists_query(query, test.at("negated").flag())),
                Err(error) => Err(error),
            }
        } else if e.is("Subquery") {
            match self.select_query_in(e.at("Subquery"), &compiler.env) {
                Ok(query) => forms::scalar_query(query),
                Err(error) => Err(error),
            }
        } else if e.is("InSubquery") {
            let test = e.at("InSubquery");
            let value = match self.compile(compiler, test.at("expr"), None) {
                Ok(value) => value,
                Err(error) => {
                    return Err(error);
                },
            };
            match self.select_query_in(test.at("subquery"), &compiler.env) {
                Ok(query) => forms::in_query(value, query, test.at("negated").flag()),
                Err(error) => Err(error),
            }
        } else {
            let shown = syntax::show_expression(e);
            Err(
                Error::Unsupported(
                    join3("expression ", shown.as_str(), " is not supported yet"),
                ),
            )
        }
    }

    pub(crate) fn compile_literal(&mut self, value: &Tree, expected: Option<ScalarType>) -> (result: Result<
        CompiledExpr,
        Error,
    >)
        ensures
            final(self).around() == old(self).around(),
            lowering::compiled_literal(old(self).around(), old(self).state(), value@, expected)
                == lowering::settled(forms::viewed(result), final(self).state()),
    {
        let scalar_type = match literals::literal_type(value, expected) {
            Ok(scalar_type) => scalar_type,
            Err(error) => {
                return Err(error);
            },
        };
        let raw = match self.raw_literal(value, scalar_type) {
            Ok(raw) => raw,
            Err(error) => {
                return Err(error);
            },
        };
        let nullable = matches!(raw, RawScalar::Null);
        Ok(
            CompiledExpr {
                expr: Expr::Literal(Literal { raw, kind: Some(Kind::of(scalar_type)) }),
                scalar_type,
                nullable,
            },
        )
    }

    pub(crate) fn compile_binary(&mut self, compiler: &ExpressionCompiler, operation: &Tree) -> (result:
        Result<CompiledExpr, Error>)
        ensures
            final(self).around() == old(self).around(),
            lowering::compiled_binary(
                old(self).around(),
                old(self).state(),
                compiler@,
                operation@,
            ) == lowering::settled(forms::viewed(result), final(self).state()),
        decreases tree::height(operation@), 2nat, 0nat,
    {
        let operator = operation.at("op");
        let logical = operator.is("And") || operator.is("Or");
        let left = operation.at("left");
        let right = operation.at("right");
        if (shapes::is_placeholder(left) || shapes::is_string_literal(left)) && !logical {
            let right = match self.compile(compiler, right, None) {
                Ok(right) => right,
                Err(error) => {
                    return Err(error);
                },
            };
            let left = match self.compile(compiler, left, Some(right.scalar_type)) {
                Ok(left) => left,
                Err(error) => {
                    return Err(error);
                },
            };
            forms::combine(operator, left, right)
        } else {
            let expected = if logical {
                Some(ScalarType::Bool)
            } else {
                None
            };
            let left = match self.compile(compiler, left, expected) {
                Ok(left) => left,
                Err(error) => {
                    return Err(error);
                },
            };
            let right = match self.compile(compiler, right, Some(left.scalar_type)) {
                Ok(right) => right,
                Err(error) => {
                    return Err(error);
                },
            };
            forms::combine(operator, left, right)
        }
    }

    pub(crate) fn compile_unary(
        &mut self,
        compiler: &ExpressionCompiler,
        operation: &Tree,
        expected: Option<ScalarType>,
    ) -> (result: Result<CompiledExpr, Error>)
        ensures
            final(self).around() == old(self).around(),
            lowering::compiled_unary(
                old(self).around(),
                old(self).state(),
                compiler@,
                operation@,
                expected,
            ) == lowering::settled(forms::viewed(result), final(self).state()),
        decreases tree::height(operation@), 2nat, 0nat,
    {
        let operator = operation.at("op");
        let negation = operator.is("Not") || operator.is("BangNot");
        let expected = if negation {
            Some(ScalarType::Bool)
        } else {
            expected
        };
        let value = match self.compile(compiler, operation.at("expr"), expected) {
            Ok(value) => value,
            Err(error) => {
                return Err(error);
            },
        };
        let op = if negation {
            UnaryOp::Not
        } else if operator.is("Minus") {
            UnaryOp::Negate
        } else if operator.is("Plus") {
            return Ok(value);
        } else {
            let shown = syntax::show_unary_operator(operator);
            return Err(
                Error::Unsupported(
                    join3("unary operator ", shown.as_str(), " is not supported"),
                ),
            );
        };
        Ok(
            CompiledExpr {
                expr: unary(op, value.expr),
                scalar_type: value.scalar_type,
                nullable: value.nullable,
            },
        )
    }

    pub(crate) fn compile_cast(&mut self, compiler: &ExpressionCompiler, cast: &Tree) -> (result: Result<
        CompiledExpr,
        Error,
    >)
        ensures
            final(self).around() == old(self).around(),
            lowering::compiled_cast(old(self).around(), old(self).state(), compiler@, cast@)
                == lowering::settled(forms::viewed(result), final(self).state()),
        decreases tree::height(cast@), 2nat, 0nat,
    {
        let to = match datatypes::scalar_type(cast.at("data_type")) {
            Ok((to, _)) => to,
            Err(error) => {
                return Err(error);
            },
        };
        let value = match self.compile(compiler, cast.at("expr"), Some(to)) {
            Ok(value) => value,
            Err(error) => {
                return Err(error);
            },
        };
        Ok(
            CompiledExpr {
                expr: Expr::Cast { expression: Box::new(value.expr), to: Kind::of(to) },
                scalar_type: to,
                nullable: value.nullable,
            },
        )
    }

    pub(crate) fn compile_in_list(&mut self, compiler: &ExpressionCompiler, test: &Tree) -> (result: Result<
        CompiledExpr,
        Error,
    >)
        ensures
            final(self).around() == old(self).around(),
            lowering::compiled_in_list(old(self).around(), old(self).state(), compiler@, test@)
                == lowering::settled(forms::viewed(result), final(self).state()),
        decreases tree::height(test@), 4nat, 0nat,
    {
        let value = match self.compile(compiler, test.at("expr"), None) {
            Ok(value) => value,
            Err(error) => {
                return Err(error);
            },
        };
        let predicates = match self.compile_candidates(compiler, test.at("list"), &value) {
            Ok(predicates) => predicates,
            Err(error) => {
                return Err(error);
            },
        };
        match fold_binary(predicates, BinaryOp::Or) {
            Ok(predicate) => Ok(
                CompiledExpr {
                    expr: negate_if(test.at("negated").flag(), predicate),
                    scalar_type: ScalarType::Bool,
                    nullable: value.nullable,
                },
            ),
            Err(error) => Err(error),
        }
    }

    pub(crate) fn compile_candidates(
        &mut self,
        compiler: &ExpressionCompiler,
        list: &Tree,
        value: &CompiledExpr,
    ) -> (result: Result<Vec<Expr>, Error>)
        ensures
            final(self).around() == old(self).around(),
            lowering::candidates(
                old(self).around(),
                old(self).state(),
                compiler@,
                list@,
                0,
                value@,
                Seq::empty(),
            ) == lowering::settled(forms::exprs_result(result), final(self).state()),
        decreases tree::height(list@), 3nat, 0nat,
    {
        let mut predicates: Vec<Expr> = Vec::new();
        let count = list.count();
        let mut i: usize = 0;
        while i < count
            invariant
                i <= count,
                count == tree::list(list@).len(),
                self.around() == old(self).around(),
                lowering::candidates(
                    old(self).around(),
                    old(self).state(),
                    compiler@,
                    list@,
                    0,
                    value@,
                    Seq::empty(),
                ) == lowering::candidates(
                    self.around(),
                    self.state(),
                    compiler@,
                    list@,
                    i as nat,
                    value@,
                    lir::exprs_view(predicates@),
                ),
            decreases count - i,
        {
            match self.compile(compiler, list.item(i), Some(value.scalar_type)) {
                Ok(candidate) => {
                    predicates.push(binary(BinaryOp::Eq, value.expr.clone(), candidate.expr));
                },
                Err(error) => {
                    return Err(error);
                },
            }
            i += 1;
        }
        Ok(predicates)
    }

    pub(crate) fn compile_between(&mut self, compiler: &ExpressionCompiler, test: &Tree) -> (result: Result<
        CompiledExpr,
        Error,
    >)
        ensures
            final(self).around() == old(self).around(),
            lowering::compiled_between(old(self).around(), old(self).state(), compiler@, test@)
                == lowering::settled(forms::viewed(result), final(self).state()),
        decreases tree::height(test@), 2nat, 0nat,
    {
        let value = match self.compile(compiler, test.at("expr"), None) {
            Ok(value) => value,
            Err(error) => {
                return Err(error);
            },
        };
        let low = match self.compile(compiler, test.at("low"), Some(value.scalar_type)) {
            Ok(low) => low,
            Err(error) => {
                return Err(error);
            },
        };
        let high = match self.compile(compiler, test.at("high"), Some(value.scalar_type)) {
            Ok(high) => high,
            Err(error) => {
                return Err(error);
            },
        };
        let nullable = value.nullable || low.nullable || high.nullable;
        let above = binary(BinaryOp::Gte, value.expr.clone(), low.expr);
        let below = binary(BinaryOp::Lte, value.expr, high.expr);
        Ok(
            CompiledExpr {
                expr: negate_if(
                    test.at("negated").flag(),
                    binary(BinaryOp::And, above, below),
                ),
                scalar_type: ScalarType::Bool,
                nullable,
            },
        )
    }

    pub(crate) fn pattern_value(&mut self, pattern: &Tree) -> (result: Result<String, Error>)
        ensures
            final(self).around() == old(self).around(),
            lowering::pattern_text(old(self).around(), old(self).state(), pattern@)
                == lowering::settled(forms::viewed(result), final(self).state()),
    {
        let inner = datatypes::inner_expression(pattern);
        if !inner.is("Value") {
            return Err(
                Error::Unsupported(
                    "row-dependent LIKE patterns need a dynamic matcher in LIR".to_owned(),
                ),
            );
        }
        let value = inner.at("Value").at("value");
        match self.raw_literal(value, ScalarType::Text) {
            Ok(RawScalar::Text(pattern)) => Ok(pattern),
            Ok(RawScalar::Null) => if value.is("Placeholder") {
                Ok("%".to_owned())
            } else {
                Err(Error::Invalid("LIKE pattern must not be NULL".to_owned()))
            },
            Ok(_) => Err(Error::Invalid("LIKE pattern must be text".to_owned())),
            Err(error) => Err(error),
        }
    }

    pub(crate) fn compile_like(
        &mut self,
        compiler: &ExpressionCompiler,
        test: &Tree,
        insensitive: bool,
    ) -> (result: Result<CompiledExpr, Error>)
        ensures
            final(self).around() == old(self).around(),
            lowering::compiled_like(
                old(self).around(),
                old(self).state(),
                compiler@,
                test@,
                insensitive,
            ) == lowering::settled(forms::viewed(result), final(self).state()),
        decreases tree::height(test@), 2nat, 0nat,
    {
        if test.at("any").flag() {
            return Err(Error::Unsupported("LIKE ANY is not supported".to_owned()));
        }
        let value = match self.compile(compiler, test.at("expr"), Some(ScalarType::Text)) {
            Ok(value) => value,
            Err(error) => {
                return Err(error);
            },
        };
        let pattern = match self.pattern_value(test.at("pattern")) {
            Ok(pattern) => pattern,
            Err(error) => {
                return Err(error);
            },
        };
        let escape = match forms::escape_character(test.at("escape_char")) {
            Ok(escape) => escape,
            Err(error) => {
                return Err(error);
            },
        };
        let parts = match operators::like_pattern(pattern.as_str(), escape) {
            Ok(parts) => parts,
            Err(error) => {
                return Err(error);
            },
        };
        let nullable = value.nullable;
        match forms::match_text(value.expr, parts, insensitive) {
            Ok(expr) => Ok(
                CompiledExpr {
                    expr: negate_if(test.at("negated").flag(), expr),
                    scalar_type: ScalarType::Bool,
                    nullable,
                },
            ),
            Err(error) => Err(error),
        }
    }

    pub(crate) fn compile_case(
        &mut self,
        compiler: &ExpressionCompiler,
        case: &Tree,
        expected: Option<ScalarType>,
    ) -> (result: Result<CompiledExpr, Error>)
        ensures
            final(self).around() == old(self).around(),
            lowering::compiled_case(
                old(self).around(),
                old(self).state(),
                compiler@,
                case@,
                expected,
            ) == lowering::settled(forms::viewed(result), final(self).state()),
        decreases tree::height(case@), 4nat, 0nat,
    {
        let conditions = case.at("conditions");
        let otherwise = case.at("else_result");
        if conditions.count() == 0 {
            return Err(Error::Invalid("CASE needs at least one WHEN arm".to_owned()));
        }
        let result_type = match forms::case_hint(compiler, case, expected) {
            Some(result_type) => result_type,
            None => {
                return Err(Error::Invalid("cannot determine CASE result type".to_owned()));
            },
        };
        let operand = match self.compile_operand(compiler, case) {
            Ok(operand) => operand,
            Err(error) => {
                return Err(error);
            },
        };
        let (arms, nullable) = match self.compile_arms(
            compiler,
            conditions,
            &operand,
            result_type,
            otherwise.absent(),
        ) {
            Ok(arms) => arms,
            Err(error) => {
                return Err(error);
            },
        };
        if otherwise.absent() {
            return Ok(forms::branch(arms, null_literal(result_type), result_type, nullable));
        }
        match self.compile(compiler, otherwise, Some(result_type)) {
            Ok(last) => Ok(forms::branch(arms, last.expr, result_type, nullable || last.nullable)),
            Err(error) => Err(error),
        }
    }

    pub(crate) fn compile_operand(&mut self, compiler: &ExpressionCompiler, case: &Tree) -> (result: Result<
        Option<CompiledExpr>,
        Error,
    >)
        ensures
            final(self).around() == old(self).around(),
            lowering::case_operand(old(self).around(), old(self).state(), compiler@, case@)
                == lowering::settled(forms::operand_result(result), final(self).state()),
        decreases tree::height(case@), 2nat, 0nat,
    {
        let operand = case.at("operand");
        if operand.absent() {
            return Ok(None);
        }
        match self.compile(compiler, operand, None) {
            Ok(operand) => Ok(Some(operand)),
            Err(error) => Err(error),
        }
    }

    pub(crate) fn compile_arms(
        &mut self,
        compiler: &ExpressionCompiler,
        conditions: &Tree,
        operand: &Option<CompiledExpr>,
        result_type: ScalarType,
        nullable: bool,
    ) -> (result: Result<(Vec<BranchArm>, bool), Error>)
        ensures
            final(self).around() == old(self).around(),
            lowering::compiled_arms(
                old(self).around(),
                old(self).state(),
                compiler@,
                conditions@,
                0,
                forms::operand_view(*operand),
                result_type,
                (lowering::Arms { arms: Seq::empty(), nullable }),
            ) == lowering::settled(forms::arms_result(result), final(self).state()),
        decreases tree::height(conditions@), 3nat, 0nat,
    {
        let mut arms: Vec<BranchArm> = Vec::new();
        let mut any: bool = nullable;
        let count = conditions.count();
        let mut i: usize = 0;
        while i < count
            invariant
                i <= count,
                count == tree::list(conditions@).len(),
                self.around() == old(self).around(),
                lowering::compiled_arms(
                    old(self).around(),
                    old(self).state(),
                    compiler@,
                    conditions@,
                    0,
                    forms::operand_view(*operand),
                    result_type,
                    (lowering::Arms { arms: Seq::empty(), nullable }),
                ) == lowering::compiled_arms(
                    self.around(),
                    self.state(),
                    compiler@,
                    conditions@,
                    i as nat,
                    forms::operand_view(*operand),
                    result_type,
                    (lowering::Arms { arms: lir::branch_arms_view(arms@), nullable: any }),
                ),
            decreases count - i,
        {
            let arm = conditions.item(i);
            let wanted = match operand {
                Some(operand) => operand.scalar_type,
                None => ScalarType::Bool,
            };
            let condition = match self.compile(compiler, arm.at("condition"), Some(wanted)) {
                Ok(condition) => condition,
                Err(error) => {
                    return Err(error);
                },
            };
            let value = match self.compile(compiler, arm.at("result"), Some(result_type)) {
                Ok(value) => value,
                Err(error) => {
                    return Err(error);
                },
            };
            let when = match operand {
                Some(operand) => binary(BinaryOp::Eq, operand.expr.clone(), condition.expr),
                None => condition.expr,
            };
            any = any || value.nullable;
            arms.push(BranchArm { when, value: value.expr });
            i += 1;
        }
        Ok((arms, any))
    }

    pub(crate) fn compile_arguments(
        &mut self,
        compiler: &ExpressionCompiler,
        arguments: &Tree,
        expected: ScalarType,
    ) -> (result: Result<Vec<CompiledExpr>, Error>)
        ensures
            final(self).around() == old(self).around(),
            lowering::compiled_arguments(
                old(self).around(),
                old(self).state(),
                compiler@,
                arguments@,
                0,
                expected,
                Seq::empty(),
            ) == lowering::settled(forms::compiled_result(result), final(self).state()),
        decreases tree::height(arguments@), 3nat, 0nat,
    {
        let mut values: Vec<CompiledExpr> = Vec::new();
        let count = arguments.count();
        let mut i: usize = 0;
        while i < count
            invariant
                i <= count,
                count == tree::list(arguments@).len(),
                self.around() == old(self).around(),
                lowering::compiled_arguments(
                    old(self).around(),
                    old(self).state(),
                    compiler@,
                    arguments@,
                    0,
                    expected,
                    Seq::empty(),
                ) == lowering::compiled_arguments(
                    self.around(),
                    self.state(),
                    compiler@,
                    arguments@,
                    i as nat,
                    expected,
                    types::compiled_exprs_view(values@),
                ),
            decreases count - i,
        {
            let argument = arguments.item(i).at("Unnamed").at("Expr");
            match self.compile(compiler, argument, Some(expected)) {
                Ok(value) => {
                    values.push(value);
                },
                Err(error) => {
                    return Err(error);
                },
            }
            i += 1;
        }
        Ok(values)
    }

    pub(crate) fn compile_scalar_function(
        &mut self,
        compiler: &ExpressionCompiler,
        function: &Tree,
        expected: Option<ScalarType>,
    ) -> (result: Result<CompiledExpr, Error>)
        ensures
            final(self).around() == old(self).around(),
            lowering::compiled_function(
                old(self).around(),
                old(self).state(),
                compiler@,
                function@,
                expected,
            ) == lowering::settled(forms::viewed(result), final(self).state()),
        decreases tree::height(function@), 4nat, 0nat,
    {
        if !function.at("over").absent() || !function.at("filter").absent() {
            return Err(Error::Unsupported("window functions are not supported".to_owned()));
        }
        let name = match object_name(function.at("name")) {
            Ok(name) => to_lower(name.as_str()),
            Err(error) => {
                return Err(error);
            },
        };
        if !function.at("args").is("List") {
            return Err(
                Error::Unsupported(join3("function ", name.as_str(), " arguments")),
            );
        }
        let arguments = function.at("args").at("List").at("args");
        if let Some(argument) = forms::first_odd_argument(arguments) {
            let shown = syntax::show_function_arg(argument);
            return Err(
                Error::Unsupported(
                    join4("function ", name.as_str(), " argument ", shown.as_str()),
                ),
            );
        }
        if same_text(name.as_str(), "coalesce") {
            let hint = match expected {
                Some(expected) => Some(expected),
                None => forms::first_argument_hint(compiler, arguments),
            };
            let result_type = match hint {
                Some(result_type) => result_type,
                None => {
                    return Err(
                        Error::Invalid("cannot determine COALESCE result type".to_owned()),
                    );
                },
            };
            match self.compile_arguments(compiler, arguments, result_type) {
                Ok(values) => forms::coalesce(values, result_type),
                Err(error) => Err(error),
            }
        } else if same_text(name.as_str(), "nullif") && arguments.count() == 2 {
            let left = match self.compile(
                compiler,
                arguments.item(0).at("Unnamed").at("Expr"),
                expected,
            ) {
                Ok(left) => left,
                Err(error) => {
                    return Err(error);
                },
            };
            let right = match self.compile(
                compiler,
                arguments.item(1).at("Unnamed").at("Expr"),
                Some(left.scalar_type),
            ) {
                Ok(right) => right,
                Err(error) => {
                    return Err(error);
                },
            };
            let mut arms: Vec<BranchArm> = Vec::new();
            arms.push(
                BranchArm {
                    when: binary(BinaryOp::Eq, left.expr.clone(), right.expr),
                    value: null_literal(left.scalar_type),
                },
            );
            let scalar_type = left.scalar_type;
            let result = forms::branch(arms, left.expr, scalar_type, true);
            proof {
                assert(result@.expr->arms =~= lir::branch_arms_view(arms@));
            }
            Ok(result)
        } else {
            Err(
                Error::Unsupported(
                    join3("scalar function ", name.as_str(), " is not supported"),
                ),
            )
        }
    }
}

} // verus!
