//! The relational language that statements are lowered into.

use vstd::prelude::*;

use crate::text;
use crate::text::{copy_text_option, copy_texts, same_text, same_text_option, same_texts};

verus! {

/// The scalar types of catalog columns.
#[derive(Clone, Copy, Debug, PartialEq, Eq, Structural)]
pub enum ScalarType {
    Text,
    Int64,
    Float64,
    Bool,
}

/// The kinds of relational values.
#[derive(Clone, Copy, Debug, PartialEq, Eq, Structural)]
pub enum Kind {
    Text,
    Int64,
    Float64,
    Bool,
}

/// The kind of a scalar type.
pub open spec fn kind_of(scalar_type: ScalarType) -> Kind {
    match scalar_type {
        ScalarType::Text => Kind::Text,
        ScalarType::Int64 => Kind::Int64,
        ScalarType::Float64 => Kind::Float64,
        ScalarType::Bool => Kind::Bool,
    }
}

impl Kind {
    /// The kind of a scalar type.
    pub fn of(scalar_type: ScalarType) -> (kind: Kind)
        ensures
            kind == kind_of(scalar_type),
    {
        match scalar_type {
            ScalarType::Text => Kind::Text,
            ScalarType::Int64 => Kind::Int64,
            ScalarType::Float64 => Kind::Float64,
            ScalarType::Bool => Kind::Bool,
        }
    }
}

/// Operators on one value.
#[derive(Clone, Copy, Debug, PartialEq, Eq, Structural)]
pub enum UnaryOp {
    Not,
    Negate,
    IsNull,
    IsNotNull,
}

/// Operators on two values.
#[derive(Clone, Copy, Debug, PartialEq, Eq, Structural)]
pub enum BinaryOp {
    Eq,
    Ne,
    Lt,
    Lte,
    Gt,
    Gte,
    And,
    Or,
    Add,
    Sub,
    Mul,
    Div,
}

/// Which rows of the left side a join keeps.
#[derive(Clone, Copy, Debug, PartialEq, Eq, Structural)]
pub enum JoinKind {
    Inner,
    Left,
}

/// Whether a set operation keeps duplicates.
#[derive(Clone, Copy, Debug, PartialEq, Eq, Structural)]
pub enum SetQuantifier {
    All,
    Distinct,
}

/// Which rows of a recursive step are fed back.
#[derive(Clone, Copy, Debug, PartialEq, Eq, Structural)]
pub enum RecursiveAccumulation {
    All,
    New,
}

/// How text patterns compare characters.
#[derive(Clone, Copy, Debug, PartialEq, Eq, Structural)]
pub enum TextComparison {
    Exact,
    UnicodeSimpleFold,
}

/// The aggregate functions.
#[derive(Clone, Copy, Debug, PartialEq, Eq, Structural)]
pub enum AggregateFunction {
    Count,
    Sum,
    Average,
    Min,
    Max,
}

/// How many rows of a root relation the result shows.
#[derive(Clone, Copy, Debug, PartialEq, Eq, Structural)]
pub enum RootCardinality {
    First,
    Many,
}

/// A scalar as it was written.
#[derive(Debug, PartialEq)]
pub enum RawScalar {
    Null,
    Bool(bool),
    Number(String),
    Text(String),
}

/// The value of a [`RawScalar`].
pub enum RawScalarView {
    Null,
    Bool(bool),
    Number(Seq<char>),
    Text(Seq<char>),
}

pub open spec fn raw_scalar_view(value: RawScalar) -> RawScalarView
{
    match value {
        RawScalar::Null => RawScalarView::Null,
        RawScalar::Bool(inner) => RawScalarView::Bool(inner),
        RawScalar::Number(inner) => RawScalarView::Number(inner@),
        RawScalar::Text(inner) => RawScalarView::Text(inner@),
    }
}

impl View for RawScalar {
    type V = RawScalarView;

    open spec fn view(&self) -> RawScalarView {
        raw_scalar_view(*self)
    }
}

/// A constant with its kind.
#[derive(Debug, PartialEq)]
pub struct Literal {
    pub raw: RawScalar,
    pub kind: Option<Kind>,
}

/// The value of a [`Literal`].
pub struct LiteralView {
    pub raw: RawScalarView,
    pub kind: Option<Kind>,
}

pub open spec fn literal_view(value: Literal) -> LiteralView
{
    LiteralView {
        raw: raw_scalar_view(value.raw),
        kind: value.kind,
    }
}

impl View for Literal {
    type V = LiteralView;

    open spec fn view(&self) -> LiteralView {
        literal_view(*self)
    }
}

/// One part of a text pattern.
#[derive(Debug, PartialEq)]
pub enum TextMatchPart {
    Literal(String),
    AnyMany,
}

/// The value of a [`TextMatchPart`].
pub enum TextMatchPartView {
    Literal(Seq<char>),
    AnyMany,
}

pub open spec fn text_match_part_view(value: TextMatchPart) -> TextMatchPartView
{
    match value {
        TextMatchPart::Literal(inner) => TextMatchPartView::Literal(inner@),
        TextMatchPart::AnyMany => TextMatchPartView::AnyMany,
    }
}

impl View for TextMatchPart {
    type V = TextMatchPartView;

    open spec fn view(&self) -> TextMatchPartView {
        text_match_part_view(*self)
    }
}

/// A column of constant rows.
#[derive(Debug, PartialEq)]
pub struct RowsColumn {
    pub name: String,
    pub kind: Kind,
    pub nullable: bool,
}

/// The value of a [`RowsColumn`].
pub struct RowsColumnView {
    pub name: Seq<char>,
    pub kind: Kind,
    pub nullable: bool,
}

pub open spec fn rows_column_view(value: RowsColumn) -> RowsColumnView
{
    RowsColumnView {
        name: value.name@,
        kind: value.kind,
        nullable: value.nullable,
    }
}

impl View for RowsColumn {
    type V = RowsColumnView;

    open spec fn view(&self) -> RowsColumnView {
        rows_column_view(*self)
    }
}

/// One condition of a branch, with its value.
#[derive(Debug, PartialEq)]
pub struct BranchArm {
    pub when: Expr,
    pub value: Expr,
}

/// The value of a [`BranchArm`].
pub struct BranchArmView {
    pub when: ExprView,
    pub value: ExprView,
}

pub open spec fn branch_arm_view(value: BranchArm) -> BranchArmView
    decreases value,
{
    BranchArmView {
        when: expr_view(value.when),
        value: expr_view(value.value),
    }
}

impl View for BranchArm {
    type V = BranchArmView;

    open spec fn view(&self) -> BranchArmView {
        branch_arm_view(*self)
    }
}

/// One named output of a projection.
#[derive(Debug, PartialEq)]
pub struct ProjectField {
    pub name: String,
    pub expression: Expr,
}

/// The value of a [`ProjectField`].
pub struct ProjectFieldView {
    pub name: Seq<char>,
    pub expression: ExprView,
}

pub open spec fn project_field_view(value: ProjectField) -> ProjectFieldView
    decreases value,
{
    ProjectFieldView {
        name: value.name@,
        expression: expr_view(value.expression),
    }
}

impl View for ProjectField {
    type V = ProjectFieldView;

    open spec fn view(&self) -> ProjectFieldView {
        project_field_view(*self)
    }
}

/// One named grouping expression.
#[derive(Debug, PartialEq)]
pub struct GroupTerm {
    pub name: String,
    pub expression: Expr,
}

/// The value of a [`GroupTerm`].
pub struct GroupTermView {
    pub name: Seq<char>,
    pub expression: ExprView,
}

pub open spec fn group_term_view(value: GroupTerm) -> GroupTermView
    decreases value,
{
    GroupTermView {
        name: value.name@,
        expression: expr_view(value.expression),
    }
}

impl View for GroupTerm {
    type V = GroupTermView;

    open spec fn view(&self) -> GroupTermView {
        group_term_view(*self)
    }
}

/// One named aggregate.
#[derive(Debug, PartialEq)]
pub struct AggregateTerm {
    pub function: AggregateFunction,
    pub argument: Option<Expr>,
    pub name: String,
}

/// The value of an [`AggregateTerm`].
pub struct AggregateTermView {
    pub function: AggregateFunction,
    pub argument: Option<ExprView>,
    pub name: Seq<char>,
}

pub open spec fn aggregate_term_view(value: AggregateTerm) -> AggregateTermView
    decreases value,
{
    AggregateTermView {
        function: value.function,
        argument: optional_expr_view(value.argument),
        name: value.name@,
    }
}

impl View for AggregateTerm {
    type V = AggregateTermView;

    open spec fn view(&self) -> AggregateTermView {
        aggregate_term_view(*self)
    }
}

/// One sort key.
#[derive(Debug, PartialEq)]
pub struct OrderTerm {
    pub expression: Expr,
    pub descending: bool,
}

/// The value of an [`OrderTerm`].
pub struct OrderTermView {
    pub expression: ExprView,
    pub descending: bool,
}

pub open spec fn order_term_view(value: OrderTerm) -> OrderTermView
    decreases value,
{
    OrderTermView {
        expression: expr_view(value.expression),
        descending: value.descending,
    }
}

impl View for OrderTerm {
    type V = OrderTermView;

    open spec fn view(&self) -> OrderTermView {
        order_term_view(*self)
    }
}

/// A scalar expression over rows.
#[derive(Debug, PartialEq)]
#[allow(inconsistent_fields)]
pub enum Expr {
    Literal(Literal),
    Column {
        scope: String,
        name: String,
    },
    Unary {
        op: UnaryOp,
        expression: Box<Expr>,
    },
    Binary {
        op: BinaryOp,
        left: Box<Expr>,
        right: Box<Expr>,
    },
    Cast {
        expression: Box<Expr>,
        to: Kind,
    },
    Branch {
        arms: Vec<BranchArm>,
        otherwise: Box<Expr>,
    },
    TextMatch {
        value: Box<Expr>,
        parts: Vec<TextMatchPart>,
        comparison: TextComparison,
    },
    Exists(Box<Relation>),
    First(Box<Relation>),
    Scalar(Box<Relation>),
    Array(Box<Relation>),
}

/// The value of an [`Expr`].
#[allow(inconsistent_fields)]
pub enum ExprView {
    Literal(LiteralView),
    Column {
        scope: Seq<char>,
        name: Seq<char>,
    },
    Unary {
        op: UnaryOp,
        expression: Box<ExprView>,
    },
    Binary {
        op: BinaryOp,
        left: Box<ExprView>,
        right: Box<ExprView>,
    },
    Cast {
        expression: Box<ExprView>,
        to: Kind,
    },
    Branch {
        arms: Seq<BranchArmView>,
        otherwise: Box<ExprView>,
    },
    TextMatch {
        value: Box<ExprView>,
        parts: Seq<TextMatchPartView>,
        comparison: TextComparison,
    },
    Exists(Box<RelationView>),
    First(Box<RelationView>),
    Scalar(Box<RelationView>),
    Array(Box<RelationView>),
}

pub open spec fn expr_view(value: Expr) -> ExprView
    decreases value,
{
    match value {
        Expr::Literal(inner) => ExprView::Literal(literal_view(inner)),
        Expr::Column { scope, name } => ExprView::Column {
            scope: scope@,
            name: name@,
        },
        Expr::Unary { op, expression } => ExprView::Unary {
            op: op,
            expression: Box::new(expr_view(*expression)),
        },
        Expr::Binary { op, left, right } => ExprView::Binary {
            op: op,
            left: Box::new(expr_view(*left)),
            right: Box::new(expr_view(*right)),
        },
        Expr::Cast { expression, to } => ExprView::Cast {
            expression: Box::new(expr_view(*expression)),
            to: to,
        },
        Expr::Branch { arms, otherwise } => ExprView::Branch {
            arms: branch_arms_view(arms@),
            otherwise: Box::new(expr_view(*otherwise)),
        },
        Expr::TextMatch { value, parts, comparison } => ExprView::TextMatch {
            value: Box::new(expr_view(*value)),
            parts: text_match_parts_view(parts@),
            comparison: comparison,
        },
        Expr::Exists(inner) => ExprView::Exists(Box::new(relation_view(*inner))),
        Expr::First(inner) => ExprView::First(Box::new(relation_view(*inner))),
        Expr::Scalar(inner) => ExprView::Scalar(Box::new(relation_view(*inner))),
        Expr::Array(inner) => ExprView::Array(Box::new(relation_view(*inner))),
    }
}

impl View for Expr {
    type V = ExprView;

    open spec fn view(&self) -> ExprView {
        expr_view(*self)
    }
}

/// A relational operator tree.
#[derive(Debug, PartialEq)]
#[allow(inconsistent_fields)]
pub enum Relation {
    Scan {
        table: String,
        scope: String,
    },
    Rows {
        scope: String,
        columns: Vec<RowsColumn>,
        values: Vec<Vec<RawScalar>>,
    },
    Ref {
        binding: String,
        scope: String,
    },
    RecursiveRef {
        binding: String,
        scope: String,
    },
    Filter {
        input: Box<Relation>,
        predicate: Expr,
    },
    Project {
        input: Box<Relation>,
        scope: Option<String>,
        spread: Vec<String>,
        fields: Vec<ProjectField>,
    },
    Join {
        left: Box<Relation>,
        right: Box<Relation>,
        kind: JoinKind,
        on: Expr,
    },
    Concatenate {
        scope: String,
        inputs: Vec<Relation>,
    },
    Intersect {
        scope: String,
        left: Box<Relation>,
        right: Box<Relation>,
        quantifier: SetQuantifier,
    },
    Except {
        scope: String,
        left: Box<Relation>,
        right: Box<Relation>,
        quantifier: SetQuantifier,
    },
    Aggregate {
        input: Box<Relation>,
        scope: Option<String>,
        groups: Vec<GroupTerm>,
        terms: Vec<AggregateTerm>,
    },
    Order {
        input: Box<Relation>,
        terms: Vec<OrderTerm>,
    },
    Slice {
        input: Box<Relation>,
        offset: usize,
        limit: Option<usize>,
    },
    Distinct(Box<Relation>),
    Recursive {
        anchor: Box<Relation>,
        step: Box<Relation>,
        accumulation: RecursiveAccumulation,
    },
}

/// The value of a [`Relation`].
#[allow(inconsistent_fields)]
pub enum RelationView {
    Scan {
        table: Seq<char>,
        scope: Seq<char>,
    },
    Rows {
        scope: Seq<char>,
        columns: Seq<RowsColumnView>,
        values: Seq<Seq<RawScalarView>>,
    },
    Ref {
        binding: Seq<char>,
        scope: Seq<char>,
    },
    RecursiveRef {
        binding: Seq<char>,
        scope: Seq<char>,
    },
    Filter {
        input: Box<RelationView>,
        predicate: ExprView,
    },
    Project {
        input: Box<RelationView>,
        scope: Option<Seq<char>>,
        spread: Seq<Seq<char>>,
        fields: Seq<ProjectFieldView>,
    },
    Join {
        left: Box<RelationView>,
        right: Box<RelationView>,
        kind: JoinKind,
        on: ExprView,
    },
    Concatenate {
        scope: Seq<char>,
        inputs: Seq<RelationView>,
    },
    Intersect {
        scope: Seq<char>,
        left: Box<RelationView>,
        right: Box<RelationView>,
        quantifier: SetQuantifier,
    },
    Except {
        scope: Seq<char>,
        left: Box<RelationView>,
        right: Box<RelationView>,
        quantifier: SetQuantifier,
    },
    Aggregate {
        input: Box<RelationView>,
        scope: Option<Seq<char>>,
        groups: Seq<GroupTermView>,
        terms: Seq<AggregateTermView>,
    },
    Order {
        input: Box<RelationView>,
        terms: Seq<OrderTermView>,
    },
    Slice {
        input: Box<RelationView>,
        offset: usize,
        limit: Option<usize>,
    },
    Distinct(Box<RelationView>),
    Recursive {
        anchor: Box<RelationView>,
        step: Box<RelationView>,
        accumulation: RecursiveAccumulation,
    },
}

pub open spec fn relation_view(value: Relation) -> RelationView
    decreases value,
{
    match value {
        Relation::Scan { table, scope } => RelationView::Scan {
            table: table@,
            scope: scope@,
        },
        Relation::Rows { scope, columns, values } => RelationView::Rows {
            scope: scope@,
            columns: rows_columns_view(columns@),
            values: raw_scalar_rows_view(values@),
        },
        Relation::Ref { binding, scope } => RelationView::Ref {
            binding: binding@,
            scope: scope@,
        },
        Relation::RecursiveRef { binding, scope } => RelationView::RecursiveRef {
            binding: binding@,
            scope: scope@,
        },
        Relation::Filter { input, predicate } => RelationView::Filter {
            input: Box::new(relation_view(*input)),
            predicate: expr_view(predicate),
        },
        Relation::Project { input, scope, spread, fields } => RelationView::Project {
            input: Box::new(relation_view(*input)),
            scope: text::text_option(scope),
            spread: text::texts(spread@),
            fields: project_fields_view(fields@),
        },
        Relation::Join { left, right, kind, on } => RelationView::Join {
            left: Box::new(relation_view(*left)),
            right: Box::new(relation_view(*right)),
            kind: kind,
            on: expr_view(on),
        },
        Relation::Concatenate { scope, inputs } => RelationView::Concatenate {
            scope: scope@,
            inputs: relations_view(inputs@),
        },
        Relation::Intersect { scope, left, right, quantifier } => RelationView::Intersect {
            scope: scope@,
            left: Box::new(relation_view(*left)),
            right: Box::new(relation_view(*right)),
            quantifier: quantifier,
        },
        Relation::Except { scope, left, right, quantifier } => RelationView::Except {
            scope: scope@,
            left: Box::new(relation_view(*left)),
            right: Box::new(relation_view(*right)),
            quantifier: quantifier,
        },
        Relation::Aggregate { input, scope, groups, terms } => RelationView::Aggregate {
            input: Box::new(relation_view(*input)),
            scope: text::text_option(scope),
            groups: group_terms_view(groups@),
            terms: aggregate_terms_view(terms@),
        },
        Relation::Order { input, terms } => RelationView::Order {
            input: Box::new(relation_view(*input)),
            terms: order_terms_view(terms@),
        },
        Relation::Slice { input, offset, limit } => RelationView::Slice {
            input: Box::new(relation_view(*input)),
            offset: offset,
            limit: limit,
        },
        Relation::Distinct(inner) => RelationView::Distinct(Box::new(relation_view(*inner))),
        Relation::Recursive { anchor, step, accumulation } => RelationView::Recursive {
            anchor: Box::new(relation_view(*anchor)),
            step: Box::new(relation_view(*step)),
            accumulation: accumulation,
        },
    }
}

impl View for Relation {
    type V = RelationView;

    open spec fn view(&self) -> RelationView {
        relation_view(*self)
    }
}

/// A named relation that a query may refer to.
#[derive(Debug, PartialEq)]
pub struct Binding {
    pub name: String,
    pub relation: Relation,
}

/// The value of a [`Binding`].
pub struct BindingView {
    pub name: Seq<char>,
    pub relation: RelationView,
}

pub open spec fn binding_view(value: Binding) -> BindingView
{
    BindingView {
        name: value.name@,
        relation: relation_view(value.relation),
    }
}

impl View for Binding {
    type V = BindingView;

    open spec fn view(&self) -> BindingView {
        binding_view(*self)
    }
}

/// A relation tree with its bindings.
#[derive(Debug, PartialEq)]
pub struct Query {
    pub root: Relation,
    pub cardinality: RootCardinality,
    pub bindings: Vec<Binding>,
}

/// The value of a [`Query`].
pub struct QueryView {
    pub root: RelationView,
    pub cardinality: RootCardinality,
    pub bindings: Seq<BindingView>,
}

pub open spec fn query_view(value: Query) -> QueryView
{
    QueryView {
        root: relation_view(value.root),
        cardinality: value.cardinality,
        bindings: bindings_view(value.bindings@),
    }
}

impl View for Query {
    type V = QueryView;

    open spec fn view(&self) -> QueryView {
        query_view(*self)
    }
}

pub open spec fn raw_scalars_view(values: Seq<RawScalar>) -> Seq<RawScalarView>
{
    Seq::new(
        values.len(),
        |i: int|
            if 0 <= i < values.len() {
                raw_scalar_view(values[i])
            } else {
                arbitrary()
            },
    )
}

pub broadcast proof fn lemma_raw_scalars_push(values: Seq<RawScalar>, value: RawScalar)
    ensures
        #[trigger] raw_scalars_view(values.push(value)) == raw_scalars_view(values).push(value@),
{
    assert(raw_scalars_view(values.push(value)) =~= raw_scalars_view(values).push(value@));
}

pub broadcast proof fn lemma_no_raw_scalars()
    ensures
        #[trigger] raw_scalars_view(Seq::empty()) == Seq::<RawScalarView>::empty(),
{
    assert(raw_scalars_view(Seq::empty()) =~= Seq::<RawScalarView>::empty());
}

pub open spec fn text_match_parts_view(values: Seq<TextMatchPart>) -> Seq<TextMatchPartView>
{
    Seq::new(
        values.len(),
        |i: int|
            if 0 <= i < values.len() {
                text_match_part_view(values[i])
            } else {
                arbitrary()
            },
    )
}

pub broadcast proof fn lemma_text_match_parts_push(values: Seq<TextMatchPart>, value: TextMatchPart)
    ensures
        #[trigger] text_match_parts_view(values.push(value)) == text_match_parts_view(values).push(value@),
{
    assert(text_match_parts_view(values.push(value)) =~= text_match_parts_view(values).push(value@));
}

pub broadcast proof fn lemma_no_text_match_parts()
    ensures
        #[trigger] text_match_parts_view(Seq::empty()) == Seq::<TextMatchPartView>::empty(),
{
    assert(text_match_parts_view(Seq::empty()) =~= Seq::<TextMatchPartView>::empty());
}

pub open spec fn rows_columns_view(values: Seq<RowsColumn>) -> Seq<RowsColumnView>
{
    Seq::new(
        values.len(),
        |i: int|
            if 0 <= i < values.len() {
                rows_column_view(values[i])
            } else {
                arbitrary()
            },
    )
}

pub broadcast proof fn lemma_rows_columns_push(values: Seq<RowsColumn>, value: RowsColumn)
    ensures
        #[trigger] rows_columns_view(values.push(value)) == rows_columns_view(values).push(value@),
{
    assert(rows_columns_view(values.push(value)) =~= rows_columns_view(values).push(value@));
}

pub broadcast proof fn lemma_no_rows_columns()
    ensures
        #[trigger] rows_columns_view(Seq::empty()) == Seq::<RowsColumnView>::empty(),
{
    assert(rows_columns_view(Seq::empty()) =~= Seq::<RowsColumnView>::empty());
}

pub open spec fn branch_arms_view(values: Seq<BranchArm>) -> Seq<BranchArmView>
    decreases values,
{
    Seq::new(
        values.len(),
        |i: int|
            if 0 <= i < values.len() {
                branch_arm_view(values[i])
            } else {
                arbitrary()
            },
    )
}

pub broadcast proof fn lemma_branch_arms_push(values: Seq<BranchArm>, value: BranchArm)
    ensures
        #[trigger] branch_arms_view(values.push(value)) == branch_arms_view(values).push(value@),
{
    assert(branch_arms_view(values.push(value)) =~= branch_arms_view(values).push(value@));
}

pub broadcast proof fn lemma_no_branch_arms()
    ensures
        #[trigger] branch_arms_view(Seq::empty()) == Seq::<BranchArmView>::empty(),
{
    assert(branch_arms_view(Seq::empty()) =~= Seq::<BranchArmView>::empty());
}

pub open spec fn project_fields_view(values: Seq<ProjectField>) -> Seq<ProjectFieldView>
    decreases values,
{
    Seq::new(
        values.len(),
        |i: int|
            if 0 <= i < values.len() {
                project_field_view(values[i])
            } else {
                arbitrary()
            },
    )
}

pub broadcast proof fn lemma_project_fields_push(values: Seq<ProjectField>, value: ProjectField)
    ensures
        #[trigger] project_fields_view(values.push(value)) == project_fields_view(values).push(value@),
{
    assert(project_fields_view(values.push(value)) =~= project_fields_view(values).push(value@));
}

pub broadcast proof fn lemma_no_project_fields()
    ensures
        #[trigger] project_fields_view(Seq::empty()) == Seq::<ProjectFieldView>::empty(),
{
    assert(project_fields_view(Seq::empty()) =~= Seq::<ProjectFieldView>::empty());
}

pub open spec fn group_terms_view(values: Seq<GroupTerm>) -> Seq<GroupTermView>
    decreases values,
{
    Seq::new(
        values.len(),
        |i: int|
            if 0 <= i < values.len() {
                group_term_view(values[i])
            } else {
                arbitrary()
            },
    )
}

pub broadcast proof fn lemma_group_terms_push(values: Seq<GroupTerm>, value: GroupTerm)
    ensures
        #[trigger] group_terms_view(values.push(value)) == group_terms_view(values).push(value@),
{
    assert(group_terms_view(values.push(value)) =~= group_terms_view(values).push(value@));
}

pub broadcast proof fn lemma_no_group_terms()
    ensures
        #[trigger] group_terms_view(Seq::empty()) == Seq::<GroupTermView>::empty(),
{
    assert(group_terms_view(Seq::empty()) =~= Seq::<GroupTermView>::empty());
}

pub open spec fn aggregate_terms_view(values: Seq<AggregateTerm>) -> Seq<AggregateTermView>
    decreases values,
{
    Seq::new(
        values.len(),
        |i: int|
            if 0 <= i < values.len() {
                aggregate_term_view(values[i])
            } else {
                arbitrary()
            },
    )
}

pub broadcast proof fn lemma_aggregate_terms_push(values: Seq<AggregateTerm>, value: AggregateTerm)
    ensures
        #[trigger] aggregate_terms_view(values.push(value)) == aggregate_terms_view(values).push(value@),
{
    assert(aggregate_terms_view(values.push(value)) =~= aggregate_terms_view(values).push(value@));
}

pub broadcast proof fn lemma_no_aggregate_terms()
    ensures
        #[trigger] aggregate_terms_view(Seq::empty()) == Seq::<AggregateTermView>::empty(),
{
    assert(aggregate_terms_view(Seq::empty()) =~= Seq::<AggregateTermView>::empty());
}

pub open spec fn order_terms_view(values: Seq<OrderTerm>) -> Seq<OrderTermView>
    decreases values,
{
    Seq::new(
        values.len(),
        |i: int|
            if 0 <= i < values.len() {
                order_term_view(values[i])
            } else {
                arbitrary()
            },
    )
}

pub broadcast proof fn lemma_order_terms_push(values: Seq<OrderTerm>, value: OrderTerm)
    ensures
        #[trigger] order_terms_view(values.push(value)) == order_terms_view(values).push(value@),
{
    assert(order_terms_view(values.push(value)) =~= order_terms_view(values).push(value@));
}

pub broadcast proof fn lemma_no_order_terms()
    ensures
        #[trigger] order_terms_view(Seq::empty()) == Seq::<OrderTermView>::empty(),
{
    assert(order_terms_view(Seq::empty()) =~= Seq::<OrderTermView>::empty());
}

pub open spec fn relations_view(values: Seq<Relation>) -> Seq<RelationView>
    decreases values,
{
    Seq::new(
        values.len(),
        |i: int|
            if 0 <= i < values.len() {
                relation_view(values[i])
            } else {
                arbitrary()
            },
    )
}

pub broadcast proof fn lemma_relations_push(values: Seq<Relation>, value: Relation)
    ensures
        #[trigger] relations_view(values.push(value)) == relations_view(values).push(value@),
{
    assert(relations_view(values.push(value)) =~= relations_view(values).push(value@));
}

pub broadcast proof fn lemma_no_relations()
    ensures
        #[trigger] relations_view(Seq::empty()) == Seq::<RelationView>::empty(),
{
    assert(relations_view(Seq::empty()) =~= Seq::<RelationView>::empty());
}

pub open spec fn bindings_view(values: Seq<Binding>) -> Seq<BindingView>
{
    Seq::new(
        values.len(),
        |i: int|
            if 0 <= i < values.len() {
                binding_view(values[i])
            } else {
                arbitrary()
            },
    )
}

pub broadcast proof fn lemma_bindings_push(values: Seq<Binding>, value: Binding)
    ensures
        #[trigger] bindings_view(values.push(value)) == bindings_view(values).push(value@),
{
    assert(bindings_view(values.push(value)) =~= bindings_view(values).push(value@));
}

pub broadcast proof fn lemma_no_bindings()
    ensures
        #[trigger] bindings_view(Seq::empty()) == Seq::<BindingView>::empty(),
{
    assert(bindings_view(Seq::empty()) =~= Seq::<BindingView>::empty());
}

pub open spec fn exprs_view(values: Seq<Expr>) -> Seq<ExprView>
    decreases values,
{
    Seq::new(
        values.len(),
        |i: int|
            if 0 <= i < values.len() {
                expr_view(values[i])
            } else {
                arbitrary()
            },
    )
}

pub broadcast proof fn lemma_exprs_push(values: Seq<Expr>, value: Expr)
    ensures
        #[trigger] exprs_view(values.push(value)) == exprs_view(values).push(value@),
{
    assert(exprs_view(values.push(value)) =~= exprs_view(values).push(value@));
}

pub broadcast proof fn lemma_no_exprs()
    ensures
        #[trigger] exprs_view(Seq::empty()) == Seq::<ExprView>::empty(),
{
    assert(exprs_view(Seq::empty()) =~= Seq::<ExprView>::empty());
}

pub open spec fn raw_scalar_rows_view(rows: Seq<Vec<RawScalar>>) -> Seq<Seq<RawScalarView>> {
    Seq::new(rows.len(), |i: int| raw_scalars_view(rows[i]@))
}

pub open spec fn optional_expr_view(value: Option<Expr>) -> Option<ExprView>
    decreases value,
{
    match value {
        Some(value) => Some(expr_view(value)),
        None => None,
    }
}

pub broadcast group group_lir_views {
    lemma_raw_scalars_push,
    lemma_no_raw_scalars,
    lemma_text_match_parts_push,
    lemma_no_text_match_parts,
    lemma_rows_columns_push,
    lemma_no_rows_columns,
    lemma_branch_arms_push,
    lemma_no_branch_arms,
    lemma_project_fields_push,
    lemma_no_project_fields,
    lemma_group_terms_push,
    lemma_no_group_terms,
    lemma_aggregate_terms_push,
    lemma_no_aggregate_terms,
    lemma_order_terms_push,
    lemma_no_order_terms,
    lemma_relations_push,
    lemma_no_relations,
    lemma_bindings_push,
    lemma_no_bindings,
    lemma_exprs_push,
    lemma_no_exprs,
}

pub(crate) fn copy_raw_scalar(value: &RawScalar) -> (copy: RawScalar)
    ensures
        copy@ == value@,
{
    match value {
        RawScalar::Null => RawScalar::Null,
        RawScalar::Bool(inner) => RawScalar::Bool(*inner),
        RawScalar::Number(inner) => RawScalar::Number(inner.clone()),
        RawScalar::Text(inner) => RawScalar::Text(inner.clone()),
    }
}

impl Clone for RawScalar {
    fn clone(&self) -> (copy: Self)
        ensures
            copy@ == self@,
    {
        copy_raw_scalar(self)
    }
}

pub(crate) fn copy_literal(value: &Literal) -> (copy: Literal)
    ensures
        copy@ == value@,
{
    Literal {
        raw: copy_raw_scalar(&value.raw),
        kind: value.kind,
    }
}

impl Clone for Literal {
    fn clone(&self) -> (copy: Self)
        ensures
            copy@ == self@,
    {
        copy_literal(self)
    }
}

pub(crate) fn copy_text_match_part(value: &TextMatchPart) -> (copy: TextMatchPart)
    ensures
        copy@ == value@,
{
    match value {
        TextMatchPart::Literal(inner) => TextMatchPart::Literal(inner.clone()),
        TextMatchPart::AnyMany => TextMatchPart::AnyMany,
    }
}

impl Clone for TextMatchPart {
    fn clone(&self) -> (copy: Self)
        ensures
            copy@ == self@,
    {
        copy_text_match_part(self)
    }
}

pub(crate) fn copy_rows_column(value: &RowsColumn) -> (copy: RowsColumn)
    ensures
        copy@ == value@,
{
    RowsColumn {
        name: value.name.clone(),
        kind: value.kind,
        nullable: value.nullable,
    }
}

impl Clone for RowsColumn {
    fn clone(&self) -> (copy: Self)
        ensures
            copy@ == self@,
    {
        copy_rows_column(self)
    }
}

pub(crate) fn copy_branch_arm(value: &BranchArm) -> (copy: BranchArm)
    ensures
        copy@ == value@,
    decreases value,
{
    BranchArm {
        when: copy_expr(&value.when),
        value: copy_expr(&value.value),
    }
}

impl Clone for BranchArm {
    fn clone(&self) -> (copy: Self)
        ensures
            copy@ == self@,
    {
        copy_branch_arm(self)
    }
}

pub(crate) fn copy_project_field(value: &ProjectField) -> (copy: ProjectField)
    ensures
        copy@ == value@,
    decreases value,
{
    ProjectField {
        name: value.name.clone(),
        expression: copy_expr(&value.expression),
    }
}

impl Clone for ProjectField {
    fn clone(&self) -> (copy: Self)
        ensures
            copy@ == self@,
    {
        copy_project_field(self)
    }
}

pub(crate) fn copy_group_term(value: &GroupTerm) -> (copy: GroupTerm)
    ensures
        copy@ == value@,
    decreases value,
{
    GroupTerm {
        name: value.name.clone(),
        expression: copy_expr(&value.expression),
    }
}

impl Clone for GroupTerm {
    fn clone(&self) -> (copy: Self)
        ensures
            copy@ == self@,
    {
        copy_group_term(self)
    }
}

pub(crate) fn copy_aggregate_term(value: &AggregateTerm) -> (copy: AggregateTerm)
    ensures
        copy@ == value@,
    decreases value,
{
    AggregateTerm {
        function: value.function,
        argument: copy_optional_expr(&value.argument),
        name: value.name.clone(),
    }
}

impl Clone for AggregateTerm {
    fn clone(&self) -> (copy: Self)
        ensures
            copy@ == self@,
    {
        copy_aggregate_term(self)
    }
}

pub(crate) fn copy_order_term(value: &OrderTerm) -> (copy: OrderTerm)
    ensures
        copy@ == value@,
    decreases value,
{
    OrderTerm {
        expression: copy_expr(&value.expression),
        descending: value.descending,
    }
}

impl Clone for OrderTerm {
    fn clone(&self) -> (copy: Self)
        ensures
            copy@ == self@,
    {
        copy_order_term(self)
    }
}

pub(crate) fn copy_expr(value: &Expr) -> (copy: Expr)
    ensures
        copy@ == value@,
    decreases value,
{
    match value {
        Expr::Literal(inner) => Expr::Literal(copy_literal(inner)),
        Expr::Column { scope, name } => Expr::Column {
            scope: scope.clone(),
            name: name.clone(),
        },
        Expr::Unary { op, expression } => Expr::Unary {
            op: *op,
            expression: Box::new(copy_expr(&**expression)),
        },
        Expr::Binary { op, left, right } => Expr::Binary {
            op: *op,
            left: Box::new(copy_expr(&**left)),
            right: Box::new(copy_expr(&**right)),
        },
        Expr::Cast { expression, to } => Expr::Cast {
            expression: Box::new(copy_expr(&**expression)),
            to: *to,
        },
        Expr::Branch { arms, otherwise } => Expr::Branch {
            arms: copy_branch_arms(arms),
            otherwise: Box::new(copy_expr(&**otherwise)),
        },
        Expr::TextMatch { value, parts, comparison } => Expr::TextMatch {
            value: Box::new(copy_expr(&**value)),
            parts: copy_text_match_parts(parts),
            comparison: *comparison,
        },
        Expr::Exists(inner) => Expr::Exists(Box::new(copy_relation(&**inner))),
        Expr::First(inner) => Expr::First(Box::new(copy_relation(&**inner))),
        Expr::Scalar(inner) => Expr::Scalar(Box::new(copy_relation(&**inner))),
        Expr::Array(inner) => Expr::Array(Box::new(copy_relation(&**inner))),
    }
}

impl Clone for Expr {
    fn clone(&self) -> (copy: Self)
        ensures
            copy@ == self@,
    {
        copy_expr(self)
    }
}

pub(crate) fn copy_relation(value: &Relation) -> (copy: Relation)
    ensures
        copy@ == value@,
    decreases value,
{
    match value {
        Relation::Scan { table, scope } => Relation::Scan {
            table: table.clone(),
            scope: scope.clone(),
        },
        Relation::Rows { scope, columns, values } => Relation::Rows {
            scope: scope.clone(),
            columns: copy_rows_columns(columns),
            values: copy_raw_scalar_rows(values),
        },
        Relation::Ref { binding, scope } => Relation::Ref {
            binding: binding.clone(),
            scope: scope.clone(),
        },
        Relation::RecursiveRef { binding, scope } => Relation::RecursiveRef {
            binding: binding.clone(),
            scope: scope.clone(),
        },
        Relation::Filter { input, predicate } => Relation::Filter {
            input: Box::new(copy_relation(&**input)),
            predicate: copy_expr(predicate),
        },
        Relation::Project { input, scope, spread, fields } => Relation::Project {
            input: Box::new(copy_relation(&**input)),
            scope: copy_text_option(scope),
            spread: copy_texts(spread),
            fields: copy_project_fields(fields),
        },
        Relation::Join { left, right, kind, on } => Relation::Join {
            left: Box::new(copy_relation(&**left)),
            right: Box::new(copy_relation(&**right)),
            kind: *kind,
            on: copy_expr(on),
        },
        Relation::Concatenate { scope, inputs } => Relation::Concatenate {
            scope: scope.clone(),
            inputs: copy_relations(inputs),
        },
        Relation::Intersect { scope, left, right, quantifier } => Relation::Intersect {
            scope: scope.clone(),
            left: Box::new(copy_relation(&**left)),
            right: Box::new(copy_relation(&**right)),
            quantifier: *quantifier,
        },
        Relation::Except { scope, left, right, quantifier } => Relation::Except {
            scope: scope.clone(),
            left: Box::new(copy_relation(&**left)),
            right: Box::new(copy_relation(&**right)),
            quantifier: *quantifier,
        },
        Relation::Aggregate { input, scope, groups, terms } => Relation::Aggregate {
            input: Box::new(copy_relation(&**input)),
            scope: copy_text_option(scope),
            groups: copy_group_terms(groups),
            terms: copy_aggregate_terms(terms),
        },
        Relation::Order { input, terms } => Relation::Order {
            input: Box::new(copy_relation(&**input)),
            terms: copy_order_terms(terms),
        },
        Relation::Slice { input, offset, limit } => Relation::Slice {
            input: Box::new(copy_relation(&**input)),
            offset: *offset,
            limit: *limit,
        },
        Relation::Distinct(inner) => Relation::Distinct(Box::new(copy_relation(&**inner))),
        Relation::Recursive { anchor, step, accumulation } => Relation::Recursive {
            anchor: Box::new(copy_relation(&**anchor)),
            step: Box::new(copy_relation(&**step)),
            accumulation: *accumulation,
        },
    }
}

impl Clone for Relation {
    fn clone(&self) -> (copy: Self)
        ensures
            copy@ == self@,
    {
        copy_relation(self)
    }
}

pub(crate) fn copy_binding(value: &Binding) -> (copy: Binding)
    ensures
        copy@ == value@,
{
    Binding {
        name: value.name.clone(),
        relation: copy_relation(&value.relation),
    }
}

impl Clone for Binding {
    fn clone(&self) -> (copy: Self)
        ensures
            copy@ == self@,
    {
        copy_binding(self)
    }
}

pub(crate) fn copy_query(value: &Query) -> (copy: Query)
    ensures
        copy@ == value@,
{
    Query {
        root: copy_relation(&value.root),
        cardinality: value.cardinality,
        bindings: copy_bindings(&value.bindings),
    }
}

impl Clone for Query {
    fn clone(&self) -> (copy: Self)
        ensures
            copy@ == self@,
    {
        copy_query(self)
    }
}

/// A copy of a run of values.
pub fn copy_raw_scalars(values: &Vec<RawScalar>) -> (copies: Vec<RawScalar>)
    ensures
        raw_scalars_view(copies@) == raw_scalars_view(values@),
{
    let mut copies: Vec<RawScalar> = Vec::new();
    let mut i: usize = 0;
    while i < values.len()
        invariant
            i <= values.len(),
            copies.len() == i,
            forall|k: int| 0 <= k < i ==> (#[trigger] copies@[k])@ == values@[k]@,
        decreases values.len() - i,
    {
        let value = &values[i];
        copies.push(copy_raw_scalar(value));
        i += 1;
    }
    assert(raw_scalars_view(copies@) =~= raw_scalars_view(values@));
    copies
}

/// A copy of a run of values.
pub fn copy_text_match_parts(values: &Vec<TextMatchPart>) -> (copies: Vec<TextMatchPart>)
    ensures
        text_match_parts_view(copies@) == text_match_parts_view(values@),
{
    let mut copies: Vec<TextMatchPart> = Vec::new();
    let mut i: usize = 0;
    while i < values.len()
        invariant
            i <= values.len(),
            copies.len() == i,
            forall|k: int| 0 <= k < i ==> (#[trigger] copies@[k])@ == values@[k]@,
        decreases values.len() - i,
    {
        let value = &values[i];
        copies.push(copy_text_match_part(value));
        i += 1;
    }
    assert(text_match_parts_view(copies@) =~= text_match_parts_view(values@));
    copies
}

/// A copy of a run of values.
pub fn copy_rows_columns(values: &Vec<RowsColumn>) -> (copies: Vec<RowsColumn>)
    ensures
        rows_columns_view(copies@) == rows_columns_view(values@),
{
    let mut copies: Vec<RowsColumn> = Vec::new();
    let mut i: usize = 0;
    while i < values.len()
        invariant
            i <= values.len(),
            copies.len() == i,
            forall|k: int| 0 <= k < i ==> (#[trigger] copies@[k])@ == values@[k]@,
        decreases values.len() - i,
    {
        let value = &values[i];
        copies.push(copy_rows_column(value));
        i += 1;
    }
    assert(rows_columns_view(copies@) =~= rows_columns_view(values@));
    copies
}

/// A copy of a run of values.
pub fn copy_branch_arms(values: &Vec<BranchArm>) -> (copies: Vec<BranchArm>)
    ensures
        branch_arms_view(copies@) == branch_arms_view(values@),
    decreases values,
{
    let mut copies: Vec<BranchArm> = Vec::new();
    let mut i: usize = 0;
    while i < values.len()
        invariant
            i <= values.len(),
            copies.len() == i,
            forall|k: int| 0 <= k < i ==> (#[trigger] copies@[k])@ == values@[k]@,
        decreases values.len() - i,
    {
        let value = &values[i];
        assert(decreases_to!(*values => values[i as int]));
        copies.push(copy_branch_arm(value));
        i += 1;
    }
    assert(branch_arms_view(copies@) =~= branch_arms_view(values@));
    copies
}

/// A copy of a run of values.
pub fn copy_project_fields(values: &Vec<ProjectField>) -> (copies: Vec<ProjectField>)
    ensures
        project_fields_view(copies@) == project_fields_view(values@),
    decreases values,
{
    let mut copies: Vec<ProjectField> = Vec::new();
    let mut i: usize = 0;
    while i < values.len()
        invariant
            i <= values.len(),
            copies.len() == i,
            forall|k: int| 0 <= k < i ==> (#[trigger] copies@[k])@ == values@[k]@,
        decreases values.len() - i,
    {
        let value = &values[i];
        assert(decreases_to!(*values => values[i as int]));
        copies.push(copy_project_field(value));
        i += 1;
    }
    assert(project_fields_view(copies@) =~= project_fields_view(values@));
    copies
}

/// A copy of a run of values.
pub fn copy_group_terms(values: &Vec<GroupTerm>) -> (copies: Vec<GroupTerm>)
    ensures
        group_terms_view(copies@) == group_terms_view(values@),
    decreases values,
{
    let mut copies: Vec<GroupTerm> = Vec::new();
    let mut i: usize = 0;
    while i < values.len()
        invariant
            i <= values.len(),
            copies.len() == i,
            forall|k: int| 0 <= k < i ==> (#[trigger] copies@[k])@ == values@[k]@,
        decreases values.len() - i,
    {
        let value = &values[i];
        assert(decreases_to!(*values => values[i as int]));
        copies.push(copy_group_term(value));
        i += 1;
    }
    assert(group_terms_view(copies@) =~= group_terms_view(values@));
    copies
}

/// A copy of a run of values.
pub fn copy_aggregate_terms(values: &Vec<AggregateTerm>) -> (copies: Vec<AggregateTerm>)
    ensures
        aggregate_terms_view(copies@) == aggregate_terms_view(values@),
    decreases values,
{
    let mut copies: Vec<AggregateTerm> = Vec::new();
    let mut i: usize = 0;
    while i < values.len()
        invariant
            i <= values.len(),
            copies.len() == i,
            forall|k: int| 0 <= k < i ==> (#[trigger] copies@[k])@ == values@[k]@,
        decreases values.len() - i,
    {
        let value = &values[i];
        assert(decreases_to!(*values => values[i as int]));
        copies.push(copy_aggregate_term(value));
        i += 1;
    }
    assert(aggregate_terms_view(copies@) =~= aggregate_terms_view(values@));
    copies
}

/// A copy of a run of values.
pub fn copy_order_terms(values: &Vec<OrderTerm>) -> (copies: Vec<OrderTerm>)
    ensures
        order_terms_view(copies@) == order_terms_view(values@),
    decreases values,
{
    let mut copies: Vec<OrderTerm> = Vec::new();
    let mut i: usize = 0;
    while i < values.len()
        invariant
            i <= values.len(),
            copies.len() == i,
            forall|k: int| 0 <= k < i ==> (#[trigger] copies@[k])@ == values@[k]@,
        decreases values.len() - i,
    {
        let value = &values[i];
        assert(decreases_to!(*values => values[i as int]));
        copies.push(copy_order_term(value));
        i += 1;
    }
    assert(order_terms_view(copies@) =~= order_terms_view(values@));
    copies
}

/// A copy of a run of values.
pub fn copy_relations(values: &Vec<Relation>) -> (copies: Vec<Relation>)
    ensures
        relations_view(copies@) == relations_view(values@),
    decreases values,
{
    let mut copies: Vec<Relation> = Vec::new();
    let mut i: usize = 0;
    while i < values.len()
        invariant
            i <= values.len(),
            copies.len() == i,
            forall|k: int| 0 <= k < i ==> (#[trigger] copies@[k])@ == values@[k]@,
        decreases values.len() - i,
    {
        let value = &values[i];
        assert(decreases_to!(*values => values[i as int]));
        copies.push(copy_relation(value));
        i += 1;
    }
    assert(relations_view(copies@) =~= relations_view(values@));
    copies
}

/// A copy of a run of values.
pub fn copy_bindings(values: &Vec<Binding>) -> (copies: Vec<Binding>)
    ensures
        bindings_view(copies@) == bindings_view(values@),
{
    let mut copies: Vec<Binding> = Vec::new();
    let mut i: usize = 0;
    while i < values.len()
        invariant
            i <= values.len(),
            copies.len() == i,
            forall|k: int| 0 <= k < i ==> (#[trigger] copies@[k])@ == values@[k]@,
        decreases values.len() - i,
    {
        let value = &values[i];
        copies.push(copy_binding(value));
        i += 1;
    }
    assert(bindings_view(copies@) =~= bindings_view(values@));
    copies
}

pub(crate) fn copy_raw_scalar_rows(rows: &Vec<Vec<RawScalar>>) -> (copies: Vec<Vec<RawScalar>>)
    ensures
        raw_scalar_rows_view(copies@) == raw_scalar_rows_view(rows@),
{
    let mut copies: Vec<Vec<RawScalar>> = Vec::new();
    let mut i: usize = 0;
    while i < rows.len()
        invariant
            i <= rows.len(),
            copies.len() == i,
            forall|k: int| 0 <= k < i ==> raw_scalars_view((#[trigger] copies@[k])@) == raw_scalars_view(rows@[k]@),
        decreases rows.len() - i,
    {
        copies.push(copy_raw_scalars(&rows[i]));
        i += 1;
    }
    assert(raw_scalar_rows_view(copies@) =~= raw_scalar_rows_view(rows@));
    copies
}

pub(crate) fn copy_optional_expr(value: &Option<Expr>) -> (copy: Option<Expr>)
    ensures
        optional_expr_view(copy) == optional_expr_view(*value),
    decreases value,
{
    match value {
        Some(value) => Some(copy_expr(value)),
        None => None,
    }
}

/// Whether two values are the same.
pub fn same_raw_scalar(left: &RawScalar, right: &RawScalar) -> (same: bool)
    ensures
        same == (left@ == right@),
{
    match (left, right) {
        (RawScalar::Null, RawScalar::Null) => true,
        (RawScalar::Bool(mine), RawScalar::Bool(theirs)) => *mine == *theirs,
        (RawScalar::Number(mine), RawScalar::Number(theirs)) => same_text(mine.as_str(), theirs.as_str()),
        (RawScalar::Text(mine), RawScalar::Text(theirs)) => same_text(mine.as_str(), theirs.as_str()),
        _ => false,
    }
}

/// Whether two values are the same.
pub fn same_literal(left: &Literal, right: &Literal) -> (same: bool)
    ensures
        same == (left@ == right@),
{
    same_raw_scalar(&left.raw, &right.raw)
        && left.kind == right.kind
}

/// Whether two values are the same.
pub fn same_text_match_part(left: &TextMatchPart, right: &TextMatchPart) -> (same: bool)
    ensures
        same == (left@ == right@),
{
    match (left, right) {
        (TextMatchPart::Literal(mine), TextMatchPart::Literal(theirs)) => same_text(mine.as_str(), theirs.as_str()),
        (TextMatchPart::AnyMany, TextMatchPart::AnyMany) => true,
        _ => false,
    }
}

/// Whether two values are the same.
pub fn same_rows_column(left: &RowsColumn, right: &RowsColumn) -> (same: bool)
    ensures
        same == (left@ == right@),
{
    same_text(left.name.as_str(), right.name.as_str())
        && left.kind == right.kind
        && left.nullable == right.nullable
}

/// Whether two values are the same.
pub fn same_branch_arm(left: &BranchArm, right: &BranchArm) -> (same: bool)
    ensures
        same == (left@ == right@),
    decreases left,
{
    same_expr(&left.when, &right.when)
        && same_expr(&left.value, &right.value)
}

/// Whether two values are the same.
pub fn same_project_field(left: &ProjectField, right: &ProjectField) -> (same: bool)
    ensures
        same == (left@ == right@),
    decreases left,
{
    same_text(left.name.as_str(), right.name.as_str())
        && same_expr(&left.expression, &right.expression)
}

/// Whether two values are the same.
pub fn same_group_term(left: &GroupTerm, right: &GroupTerm) -> (same: bool)
    ensures
        same == (left@ == right@),
    decreases left,
{
    same_text(left.name.as_str(), right.name.as_str())
        && same_expr(&left.expression, &right.expression)
}

/// Whether two values are the same.
pub fn same_aggregate_term(left: &AggregateTerm, right: &AggregateTerm) -> (same: bool)
    ensures
        same == (left@ == right@),
    decreases left,
{
    left.function == right.function
        && same_optional_expr(&left.argument, &right.argument)
        && same_text(left.name.as_str(), right.name.as_str())
}

/// Whether two values are the same.
pub fn same_order_term(left: &OrderTerm, right: &OrderTerm) -> (same: bool)
    ensures
        same == (left@ == right@),
    decreases left,
{
    same_expr(&left.expression, &right.expression)
        && left.descending == right.descending
}

/// Whether two values are the same.
pub fn same_expr(left: &Expr, right: &Expr) -> (same: bool)
    ensures
        same == (left@ == right@),
    decreases left,
{
    match (left, right) {
        (Expr::Literal(mine), Expr::Literal(theirs)) => same_literal(mine, theirs),
        (Expr::Column { scope, name }, Expr::Column { scope: other_scope, name: other_name }) => {
            same_text(scope.as_str(), other_scope.as_str())
                && same_text(name.as_str(), other_name.as_str())
        },
        (Expr::Unary { op, expression }, Expr::Unary { op: other_op, expression: other_expression }) => {
            *op == *other_op
                && same_expr(&**expression, &**other_expression)
        },
        (Expr::Binary { op, left, right }, Expr::Binary { op: other_op, left: other_left, right: other_right }) => {
            *op == *other_op
                && same_expr(&**left, &**other_left)
                && same_expr(&**right, &**other_right)
        },
        (Expr::Cast { expression, to }, Expr::Cast { expression: other_expression, to: other_to }) => {
            same_expr(&**expression, &**other_expression)
                && *to == *other_to
        },
        (Expr::Branch { arms, otherwise }, Expr::Branch { arms: other_arms, otherwise: other_otherwise }) => {
            same_branch_arms(arms, other_arms)
                && same_expr(&**otherwise, &**other_otherwise)
        },
        (Expr::TextMatch { value, parts, comparison }, Expr::TextMatch { value: other_value, parts: other_parts, comparison: other_comparison }) => {
            same_expr(&**value, &**other_value)
                && same_text_match_parts(parts, other_parts)
                && *comparison == *other_comparison
        },
        (Expr::Exists(mine), Expr::Exists(theirs)) => same_relation(&**mine, &**theirs),
        (Expr::First(mine), Expr::First(theirs)) => same_relation(&**mine, &**theirs),
        (Expr::Scalar(mine), Expr::Scalar(theirs)) => same_relation(&**mine, &**theirs),
        (Expr::Array(mine), Expr::Array(theirs)) => same_relation(&**mine, &**theirs),
        _ => false,
    }
}

/// Whether two values are the same.
pub fn same_relation(left: &Relation, right: &Relation) -> (same: bool)
    ensures
        same == (left@ == right@),
    decreases left,
{
    match (left, right) {
        (Relation::Scan { table, scope }, Relation::Scan { table: other_table, scope: other_scope }) => {
            same_text(table.as_str(), other_table.as_str())
                && same_text(scope.as_str(), other_scope.as_str())
        },
        (Relation::Rows { scope, columns, values }, Relation::Rows { scope: other_scope, columns: other_columns, values: other_values }) => {
            same_text(scope.as_str(), other_scope.as_str())
                && same_rows_columns(columns, other_columns)
                && same_raw_scalar_rows(values, other_values)
        },
        (Relation::Ref { binding, scope }, Relation::Ref { binding: other_binding, scope: other_scope }) => {
            same_text(binding.as_str(), other_binding.as_str())
                && same_text(scope.as_str(), other_scope.as_str())
        },
        (Relation::RecursiveRef { binding, scope }, Relation::RecursiveRef { binding: other_binding, scope: other_scope }) => {
            same_text(binding.as_str(), other_binding.as_str())
                && same_text(scope.as_str(), other_scope.as_str())
        },
        (Relation::Filter { input, predicate }, Relation::Filter { input: other_input, predicate: other_predicate }) => {
            same_relation(&**input, &**other_input)
                && same_expr(predicate, other_predicate)
        },
        (Relation::Project { input, scope, spread, fields }, Relation::Project { input: other_input, scope: other_scope, spread: other_spread, fields: other_fields }) => {
            same_relation(&**input, &**other_input)
                && same_text_option(scope, other_scope)
                && same_texts(spread, other_spread)
                && same_project_fields(fields, other_fields)
        },
        (Relation::Join { left, right, kind, on }, Relation::Join { left: other_left, right: other_right, kind: other_kind, on: other_on }) => {
            same_relation(&**left, &**other_left)
                && same_relation(&**right, &**other_right)
                && *kind == *other_kind
                && same_expr(on, other_on)
        },
        (Relation::Concatenate { scope, inputs }, Relation::Concatenate { scope: other_scope, inputs: other_inputs }) => {
            same_text(scope.as_str(), other_scope.as_str())
                && same_relations(inputs, other_inputs)
        },
        (Relation::Intersect { scope, left, right, quantifier }, Relation::Intersect { scope: other_scope, left: other_left, right: other_right, quantifier: other_quantifier }) => {
            same_text(scope.as_str(), other_scope.as_str())
                && same_relation(&**left, &**other_left)
                && same_relation(&**right, &**other_right)
                && *quantifier == *other_quantifier
        },
        (Relation::Except { scope, left, right, quantifier }, Relation::Except { scope: other_scope, left: other_left, right: other_right, quantifier: other_quantifier }) => {
            same_text(scope.as_str(), other_scope.as_str())
                && same_relation(&**left, &**other_left)
                && same_relation(&**right, &**other_right)
                && *quantifier == *other_quantifier
        },
        (Relation::Aggregate { input, scope, groups, terms }, Relation::Aggregate { input: other_input, scope: other_scope, groups: other_groups, terms: other_terms }) => {
            same_relation(&**input, &**other_input)
                && same_text_option(scope, other_scope)
                && same_group_terms(groups, other_groups)
                && same_aggregate_terms(terms, other_terms)
        },
        (Relation::Order { input, terms }, Relation::Order { input: other_input, terms: other_terms }) => {
            same_relation(&**input, &**other_input)
                && same_order_terms(terms, other_terms)
        },
        (Relation::Slice { input, offset, limit }, Relation::Slice { input: other_input, offset: other_offset, limit: other_limit }) => {
            same_relation(&**input, &**other_input)
                && *offset == *other_offset
                && *limit == *other_limit
        },
        (Relation::Distinct(mine), Relation::Distinct(theirs)) => same_relation(&**mine, &**theirs),
        (Relation::Recursive { anchor, step, accumulation }, Relation::Recursive { anchor: other_anchor, step: other_step, accumulation: other_accumulation }) => {
            same_relation(&**anchor, &**other_anchor)
                && same_relation(&**step, &**other_step)
                && *accumulation == *other_accumulation
        },
        _ => false,
    }
}

/// Whether two runs hold the same values.
pub fn same_raw_scalars(left: &Vec<RawScalar>, right: &Vec<RawScalar>) -> (same: bool)
    ensures
        same == (raw_scalars_view(left@) == raw_scalars_view(right@)),
{
    let ghost mine = raw_scalars_view(left@);
    let ghost theirs = raw_scalars_view(right@);
    if left.len() != right.len() {
        assert(mine.len() != theirs.len());
        return false;
    }
    let mut i: usize = 0;
    while i < left.len()
        invariant
            i <= left.len(),
            left.len() == right.len(),
            mine == raw_scalars_view(left@),
            theirs == raw_scalars_view(right@),
            forall|k: int| 0 <= k < i ==> mine[k] == theirs[k],
        decreases left.len() - i,
    {
        let value = &left[i];
        if !same_raw_scalar(value, &right[i]) {
            assert(mine[i as int] != theirs[i as int]);
            return false;
        }
        i += 1;
    }
    assert(mine =~= theirs);
    true
}

/// Whether two runs hold the same values.
pub fn same_text_match_parts(left: &Vec<TextMatchPart>, right: &Vec<TextMatchPart>) -> (same: bool)
    ensures
        same == (text_match_parts_view(left@) == text_match_parts_view(right@)),
{
    let ghost mine = text_match_parts_view(left@);
    let ghost theirs = text_match_parts_view(right@);
    if left.len() != right.len() {
        assert(mine.len() != theirs.len());
        return false;
    }
    let mut i: usize = 0;
    while i < left.len()
        invariant
            i <= left.len(),
            left.len() == right.len(),
            mine == text_match_parts_view(left@),
            theirs == text_match_parts_view(right@),
            forall|k: int| 0 <= k < i ==> mine[k] == theirs[k],
        decreases left.len() - i,
    {
        let value = &left[i];
        if !same_text_match_part(value, &right[i]) {
            assert(mine[i as int] != theirs[i as int]);
            return false;
        }
        i += 1;
    }
    assert(mine =~= theirs);
    true
}

/// Whether two runs hold the same values.
pub fn same_rows_columns(left: &Vec<RowsColumn>, right: &Vec<RowsColumn>) -> (same: bool)
    ensures
        same == (rows_columns_view(left@) == rows_columns_view(right@)),
{
    let ghost mine = rows_columns_view(left@);
    let ghost theirs = rows_columns_view(right@);
    if left.len() != right.len() {
        assert(mine.len() != theirs.len());
        return false;
    }
    let mut i: usize = 0;
    while i < left.len()
        invariant
            i <= left.len(),
            left.len() == right.len(),
            mine == rows_columns_view(left@),
            theirs == rows_columns_view(right@),
            forall|k: int| 0 <= k < i ==> mine[k] == theirs[k],
        decreases left.len() - i,
    {
        let value = &left[i];
        if !same_rows_column(value, &right[i]) {
            assert(mine[i as int] != theirs[i as int]);
            return false;
        }
        i += 1;
    }
    assert(mine =~= theirs);
    true
}

/// Whether two runs hold the same values.
pub fn same_branch_arms(left: &Vec<BranchArm>, right: &Vec<BranchArm>) -> (same: bool)
    ensures
        same == (branch_arms_view(left@) == branch_arms_view(right@)),
    decreases left,
{
    let ghost mine = branch_arms_view(left@);
    let ghost theirs = branch_arms_view(right@);
    if left.len() != right.len() {
        assert(mine.len() != theirs.len());
        return false;
    }
    let mut i: usize = 0;
    while i < left.len()
        invariant
            i <= left.len(),
            left.len() == right.len(),
            mine == branch_arms_view(left@),
            theirs == branch_arms_view(right@),
            forall|k: int| 0 <= k < i ==> mine[k] == theirs[k],
        decreases left.len() - i,
    {
        let value = &left[i];
        assert(decreases_to!(*left => left[i as int]));
        if !same_branch_arm(value, &right[i]) {
            assert(mine[i as int] != theirs[i as int]);
            return false;
        }
        i += 1;
    }
    assert(mine =~= theirs);
    true
}

/// Whether two runs hold the same values.
pub fn same_project_fields(left: &Vec<ProjectField>, right: &Vec<ProjectField>) -> (same: bool)
    ensures
        same == (project_fields_view(left@) == project_fields_view(right@)),
    decreases left,
{
    let ghost mine = project_fields_view(left@);
    let ghost theirs = project_fields_view(right@);
    if left.len() != right.len() {
        assert(mine.len() != theirs.len());
        return false;
    }
    let mut i: usize = 0;
    while i < left.len()
        invariant
            i <= left.len(),
            left.len() == right.len(),
            mine == project_fields_view(left@),
            theirs == project_fields_view(right@),
            forall|k: int| 0 <= k < i ==> mine[k] == theirs[k],
        decreases left.len() - i,
    {
        let value = &left[i];
        assert(decreases_to!(*left => left[i as int]));
        if !same_project_field(value, &right[i]) {
            assert(mine[i as int] != theirs[i as int]);
            return false;
        }
        i += 1;
    }
    assert(mine =~= theirs);
    true
}

/// Whether two runs hold the same values.
pub fn same_group_terms(left: &Vec<GroupTerm>, right: &Vec<GroupTerm>) -> (same: bool)
    ensures
        same == (group_terms_view(left@) == group_terms_view(right@)),
    decreases left,
{
    let ghost mine = group_terms_view(left@);
    let ghost theirs = group_terms_view(right@);
    if left.len() != right.len() {
        assert(mine.len() != theirs.len());
        return false;
    }
    let mut i: usize = 0;
    while i < left.len()
        invariant
            i <= left.len(),
            left.len() == right.len(),
            mine == group_terms_view(left@),
            theirs == group_terms_view(right@),
            forall|k: int| 0 <= k < i ==> mine[k] == theirs[k],
        decreases left.len() - i,
    {
        let value = &left[i];
        assert(decreases_to!(*left => left[i as int]));
        if !same_group_term(value, &right[i]) {
            assert(mine[i as int] != theirs[i as int]);
            return false;
        }
        i += 1;
    }
    assert(mine =~= theirs);
    true
}

/// Whether two runs hold the same values.
pub fn same_aggregate_terms(left: &Vec<AggregateTerm>, right: &Vec<AggregateTerm>) -> (same: bool)
    ensures
        same == (aggregate_terms_view(left@) == aggregate_terms_view(right@)),
    decreases left,
{
    let ghost mine = aggregate_terms_view(left@);
    let ghost theirs = aggregate_terms_view(right@);
    if left.len() != right.len() {
        assert(mine.len() != theirs.len());
        return false;
    }
    let mut i: usize = 0;
    while i < left.len()
        invariant
            i <= left.len(),
            left.len() == right.len(),
            mine == aggregate_terms_view(left@),
            theirs == aggregate_terms_view(right@),
            forall|k: int| 0 <= k < i ==> mine[k] == theirs[k],
        decreases left.len() - i,
    {
        let value = &left[i];
        assert(decreases_to!(*left => left[i as int]));
        if !same_aggregate_term(value, &right[i]) {
            assert(mine[i as int] != theirs[i as int]);
            return false;
        }
        i += 1;
    }
    assert(mine =~= theirs);
    true
}

/// Whether two runs hold the same values.
pub fn same_order_terms(left: &Vec<OrderTerm>, right: &Vec<OrderTerm>) -> (same: bool)
    ensures
        same == (order_terms_view(left@) == order_terms_view(right@)),
    decreases left,
{
    let ghost mine = order_terms_view(left@);
    let ghost theirs = order_terms_view(right@);
    if left.len() != right.len() {
        assert(mine.len() != theirs.len());
        return false;
    }
    let mut i: usize = 0;
    while i < left.len()
        invariant
            i <= left.len(),
            left.len() == right.len(),
            mine == order_terms_view(left@),
            theirs == order_terms_view(right@),
            forall|k: int| 0 <= k < i ==> mine[k] == theirs[k],
        decreases left.len() - i,
    {
        let value = &left[i];
        assert(decreases_to!(*left => left[i as int]));
        if !same_order_term(value, &right[i]) {
            assert(mine[i as int] != theirs[i as int]);
            return false;
        }
        i += 1;
    }
    assert(mine =~= theirs);
    true
}

/// Whether two runs hold the same values.
pub fn same_relations(left: &Vec<Relation>, right: &Vec<Relation>) -> (same: bool)
    ensures
        same == (relations_view(left@) == relations_view(right@)),
    decreases left,
{
    let ghost mine = relations_view(left@);
    let ghost theirs = relations_view(right@);
    if left.len() != right.len() {
        assert(mine.len() != theirs.len());
        return false;
    }
    let mut i: usize = 0;
    while i < left.len()
        invariant
            i <= left.len(),
            left.len() == right.len(),
            mine == relations_view(left@),
            theirs == relations_view(right@),
            forall|k: int| 0 <= k < i ==> mine[k] == theirs[k],
        decreases left.len() - i,
    {
        let value = &left[i];
        assert(decreases_to!(*left => left[i as int]));
        if !same_relation(value, &right[i]) {
            assert(mine[i as int] != theirs[i as int]);
            return false;
        }
        i += 1;
    }
    assert(mine =~= theirs);
    true
}

fn same_raw_scalar_rows(left: &Vec<Vec<RawScalar>>, right: &Vec<Vec<RawScalar>>) -> (same: bool)
    ensures
        same == (raw_scalar_rows_view(left@) == raw_scalar_rows_view(right@)),
{
    let ghost mine = raw_scalar_rows_view(left@);
    let ghost theirs = raw_scalar_rows_view(right@);
    if left.len() != right.len() {
        assert(mine.len() != theirs.len());
        return false;
    }
    let mut i: usize = 0;
    while i < left.len()
        invariant
            i <= left.len(),
            left.len() == right.len(),
            mine == raw_scalar_rows_view(left@),
            theirs == raw_scalar_rows_view(right@),
            forall|k: int| 0 <= k < i ==> mine[k] == theirs[k],
        decreases left.len() - i,
    {
        if !same_raw_scalars(&left[i], &right[i]) {
            assert(mine[i as int] != theirs[i as int]);
            return false;
        }
        i += 1;
    }
    assert(mine =~= theirs);
    true
}

/// Whether two optional values are the same.
pub fn same_optional_expr(left: &Option<Expr>, right: &Option<Expr>) -> (same: bool)
    ensures
        same == (optional_expr_view(*left) == optional_expr_view(*right)),
    decreases left,
{
    match (left, right) {
        (Some(left), Some(right)) => same_expr(left, right),
        (None, None) => true,
        _ => false,
    }
}

} // verus!
