//! Failures that a caller sees, whatever carries them.

use vstd::prelude::*;

verus! {

/// Where in the handling of a program a failure came up.
#[derive(Clone, Copy, Debug, PartialEq, Eq, Structural)]
pub enum Stage {
    Schema,
    Preflight,
    Binding,
    Planning,
    Execution,
    Storage,
}

impl Stage {
    /// The name of a stage on the wire.
    pub open spec fn spec_str(self) -> Seq<char> {
        match self {
            Stage::Schema => "schema"@,
            Stage::Preflight => "preflight"@,
            Stage::Binding => "binding"@,
            Stage::Planning => "planning"@,
            Stage::Execution => "execution"@,
            Stage::Storage => "storage"@,
        }
    }

    /// The name of a stage on the wire.
    pub fn as_str(self) -> (name: &'static str)
        ensures
            name@ == self.spec_str(),
    {
        match self {
            Stage::Schema => "schema",
            Stage::Preflight => "preflight",
            Stage::Binding => "binding",
            Stage::Planning => "planning",
            Stage::Execution => "execution",
            Stage::Storage => "storage",
        }
    }
}

/// Where in a program a failure came up.
#[derive(Clone, Debug, Default, PartialEq, Eq)]
pub struct Location {
    pub pointer: Option<String>,
    pub node: Option<String>,
    pub binding: Option<String>,
    pub scope: Option<String>,
    pub role: Option<String>,
}

impl Location {
    /// Whether a location says nothing.
    pub fn is_empty(&self) -> (yes: bool)
        ensures
            yes == (self.pointer is None && self.node is None && self.binding is None
                && self.scope is None && self.role is None),
    {
        self.pointer.is_none() && self.node.is_none() && self.binding.is_none()
            && self.scope.is_none() && self.role.is_none()
    }
}

/// Why a program is invalid.
#[derive(Clone, Copy, Debug, PartialEq, Eq, Structural)]
pub enum InvalidReason {
    Invalid,
    SchemaViolation,
    UnknownTable,
    UnknownColumn,
    UnknownScope,
    UnknownBinding,
    UnknownNode,
    NodeCycle,
    SharedNode,
    UnreachableNode,
    DuplicateScope,
    TypeMismatch,
    ScalarArity,
    NondeterministicOrder,
    DependentJoin,
    ProjectionCollision,
    BindingCycle,
    BindingOutputCollision,
    ConstraintViolation,
    MutationTargetAmbiguous,
    MutationShape,
    SchemaDataLossAcceptanceRequired,
    SchemaClientOutdated,
    SchemaServerOutdated,
    SchemaHistoryDiverged,
}

impl InvalidReason {
    /// The name of a reason on the wire.
    pub open spec fn spec_str(self) -> Seq<char> {
        match self {
            InvalidReason::Invalid => "invalid"@,
            InvalidReason::SchemaViolation => "schema_violation"@,
            InvalidReason::UnknownTable => "unknown_table"@,
            InvalidReason::UnknownColumn => "unknown_column"@,
            InvalidReason::UnknownScope => "unknown_scope"@,
            InvalidReason::UnknownBinding => "unknown_binding"@,
            InvalidReason::UnknownNode => "unknown_node"@,
            InvalidReason::NodeCycle => "node_cycle"@,
            InvalidReason::SharedNode => "shared_node"@,
            InvalidReason::UnreachableNode => "unreachable_node"@,
            InvalidReason::DuplicateScope => "duplicate_scope"@,
            InvalidReason::TypeMismatch => "type_mismatch"@,
            InvalidReason::ScalarArity => "scalar_arity"@,
            InvalidReason::NondeterministicOrder => "nondeterministic_order"@,
            InvalidReason::DependentJoin => "dependent_join"@,
            InvalidReason::ProjectionCollision => "projection_collision"@,
            InvalidReason::BindingCycle => "binding_cycle"@,
            InvalidReason::BindingOutputCollision => "binding_output_collision"@,
            InvalidReason::ConstraintViolation => "constraint_violation"@,
            InvalidReason::MutationTargetAmbiguous => "mutation_target_ambiguous"@,
            InvalidReason::MutationShape => "mutation_shape"@,
            InvalidReason::SchemaDataLossAcceptanceRequired => "schema_data_loss_acceptance_required"@,
            InvalidReason::SchemaClientOutdated => "schema_client_outdated"@,
            InvalidReason::SchemaServerOutdated => "schema_server_outdated"@,
            InvalidReason::SchemaHistoryDiverged => "schema_history_diverged"@,
        }
    }

    /// The name of a reason on the wire.
    pub fn as_str(self) -> (name: &'static str)
        ensures
            name@ == self.spec_str(),
    {
        match self {
            InvalidReason::Invalid => "invalid",
            InvalidReason::SchemaViolation => "schema_violation",
            InvalidReason::UnknownTable => "unknown_table",
            InvalidReason::UnknownColumn => "unknown_column",
            InvalidReason::UnknownScope => "unknown_scope",
            InvalidReason::UnknownBinding => "unknown_binding",
            InvalidReason::UnknownNode => "unknown_node",
            InvalidReason::NodeCycle => "node_cycle",
            InvalidReason::SharedNode => "shared_node",
            InvalidReason::UnreachableNode => "unreachable_node",
            InvalidReason::DuplicateScope => "duplicate_scope",
            InvalidReason::TypeMismatch => "type_mismatch",
            InvalidReason::ScalarArity => "scalar_arity",
            InvalidReason::NondeterministicOrder => "nondeterministic_order",
            InvalidReason::DependentJoin => "dependent_join",
            InvalidReason::ProjectionCollision => "projection_collision",
            InvalidReason::BindingCycle => "binding_cycle",
            InvalidReason::BindingOutputCollision => "binding_output_collision",
            InvalidReason::ConstraintViolation => "constraint_violation",
            InvalidReason::MutationTargetAmbiguous => "mutation_target_ambiguous",
            InvalidReason::MutationShape => "mutation_shape",
            InvalidReason::SchemaDataLossAcceptanceRequired => "schema_data_loss_acceptance_required",
            InvalidReason::SchemaClientOutdated => "schema_client_outdated",
            InvalidReason::SchemaServerOutdated => "schema_server_outdated",
            InvalidReason::SchemaHistoryDiverged => "schema_history_diverged",
        }
    }
}

/// Why a program failed while it ran.
#[derive(Clone, Copy, Debug, PartialEq, Eq, Structural)]
pub enum ExecutionFailureReason {
    ExecutionFailed,
    DivisionByZero,
    CardinalityViolation,
    MutationTargetNotFound,
    RecursionLimit,
    NumericOverflow,
}

impl ExecutionFailureReason {
    /// The name of a reason on the wire.
    pub open spec fn spec_str(self) -> Seq<char> {
        match self {
            ExecutionFailureReason::ExecutionFailed => "execution_failed"@,
            ExecutionFailureReason::DivisionByZero => "division_by_zero"@,
            ExecutionFailureReason::CardinalityViolation => "cardinality_violation"@,
            ExecutionFailureReason::MutationTargetNotFound => "mutation_target_not_found"@,
            ExecutionFailureReason::RecursionLimit => "recursion_limit"@,
            ExecutionFailureReason::NumericOverflow => "numeric_overflow"@,
        }
    }

    /// The name of a reason on the wire.
    pub fn as_str(self) -> (name: &'static str)
        ensures
            name@ == self.spec_str(),
    {
        match self {
            ExecutionFailureReason::ExecutionFailed => "execution_failed",
            ExecutionFailureReason::DivisionByZero => "division_by_zero",
            ExecutionFailureReason::CardinalityViolation => "cardinality_violation",
            ExecutionFailureReason::MutationTargetNotFound => "mutation_target_not_found",
            ExecutionFailureReason::RecursionLimit => "recursion_limit",
            ExecutionFailureReason::NumericOverflow => "numeric_overflow",
        }
    }
}

/// Why a program has to be tried again.
#[derive(Clone, Copy, Debug, PartialEq, Eq, Structural)]
pub enum ConflictReason {
    SerializableConflict,
    SchemaTransitionBackpressure,
    SchemaTransitionFinalizing,
}

impl ConflictReason {
    /// The name of a reason on the wire.
    pub open spec fn spec_str(self) -> Seq<char> {
        match self {
            ConflictReason::SerializableConflict => "serializable_conflict"@,
            ConflictReason::SchemaTransitionBackpressure => "schema_transition_backpressure"@,
            ConflictReason::SchemaTransitionFinalizing => "schema_transition_finalizing"@,
        }
    }

    /// The name of a reason on the wire.
    pub fn as_str(self) -> (name: &'static str)
        ensures
            name@ == self.spec_str(),
    {
        match self {
            ConflictReason::SerializableConflict => "serializable_conflict",
            ConflictReason::SchemaTransitionBackpressure => "schema_transition_backpressure",
            ConflictReason::SchemaTransitionFinalizing => "schema_transition_finalizing",
        }
    }
}

/// What was not found.
#[derive(Clone, Copy, Debug, PartialEq, Eq, Structural)]
pub enum NotFoundReason {
    NotFound,
    Transaction,
    SchemaTransition,
}

impl NotFoundReason {
    /// The name of a reason on the wire.
    pub open spec fn spec_str(self) -> Seq<char> {
        match self {
            NotFoundReason::NotFound => "not_found"@,
            NotFoundReason::Transaction => "transaction_not_found"@,
            NotFoundReason::SchemaTransition => "schema_transition_not_found"@,
        }
    }

    /// The name of a reason on the wire.
    pub fn as_str(self) -> (name: &'static str)
        ensures
            name@ == self.spec_str(),
    {
        match self {
            NotFoundReason::NotFound => "not_found",
            NotFoundReason::Transaction => "transaction_not_found",
            NotFoundReason::SchemaTransition => "schema_transition_not_found",
        }
    }
}

/// What kind of error the executor reports.
#[derive(Clone, Copy, Debug, PartialEq, Eq, Structural)]
pub enum ErrorKind {
    InvalidInput,
    DataLossAcceptance,
    Storage,
    CorruptData,
    CommitOutcomeUnknown,
    ConstraintViolation,
    MutationNotFound,
    MutationAmbiguous,
    TransitionFinalizing,
    TransitionBackpressure,
    Runtime,
    RecursionLimit,
    Conflict,
    Internal,
}

/// Why the executor reports an error.
#[derive(Clone, Copy, Debug, PartialEq, Eq, Structural)]
pub enum ErrorReason {
    Invalid,
    SchemaViolation,
    UnknownTable,
    UnknownColumn,
    UnknownScope,
    UnknownBinding,
    UnknownNode,
    NodeCycle,
    SharedNode,
    UnreachableNode,
    DuplicateScope,
    TypeMismatch,
    ScalarArity,
    NondeterministicOrder,
    DependentJoin,
    ProjectionCollision,
    BindingCycle,
    BindingOutputCollision,
    ConstraintViolation,
    MutationTargetAmbiguous,
    MutationShape,
    SchemaDataLossAcceptanceRequired,
    SchemaTransitionNotFound,
    ExecutionFailed,
    DivisionByZero,
    CardinalityViolation,
    MutationTargetNotFound,
    RecursionLimit,
    NumericOverflow,
    SerializableConflict,
    SchemaTransitionBackpressure,
    SchemaTransitionFinalizing,
    CommitOutcomeUnknown,
    CatalogCorrupt,
    CatalogSchemaDrift,
    StorageUnavailable,
    Internal,
}

/// An error of the executor.
#[derive(Debug, PartialEq)]
pub struct ExecError {
    pub kind: ErrorKind,
    pub reason: ErrorReason,
    pub message: String,
}

/// What was running when a failure came up.
#[derive(Clone, Debug, Default, PartialEq, Eq)]
pub struct ExecutionContext {
    pub operator: Option<String>,
    pub operator_id: Option<String>,
    pub table: Option<String>,
    pub index: Option<String>,
    pub binding: Option<String>,
    pub crossing: Option<String>,
}

impl ExecutionContext {
    /// Whether a context says nothing.
    pub fn is_empty(&self) -> (yes: bool)
        ensures
            yes == (self.operator is None && self.operator_id is None && self.table is None
                && self.index is None && self.binding is None && self.crossing is None),
    {
        self.operator.is_none() && self.operator_id.is_none() && self.table.is_none()
            && self.index.is_none() && self.binding.is_none() && self.crossing.is_none()
    }
}

/// What two transactions conflict on.
#[derive(Clone, Copy, Debug, PartialEq, Eq, Structural)]
pub enum ConflictObject {
    Table,
    Index,
}

/// What a conflicting transaction did.
#[derive(Clone, Copy, Debug, PartialEq, Eq, Structural)]
pub enum ConflictOperation {
    Read,
    Insert,
    Update,
    Delete,
}

/// What a conflict is about.
#[derive(Clone, Debug, Default, PartialEq, Eq)]
pub struct ConflictContext {
    pub object: Option<ConflictObject>,
    pub table: Option<String>,
    pub index: Option<String>,
    pub operation: Option<ConflictOperation>,
}

impl ConflictContext {
    /// Whether a context says nothing.
    pub fn is_empty(&self) -> (yes: bool)
        ensures
            yes == (self.object is None && self.table is None && self.index is None
                && self.operation is None),
    {
        self.object.is_none() && self.table.is_none() && self.index.is_none()
            && self.operation.is_none()
    }
}

/// A thing that was asked for.
#[derive(Clone, Debug, PartialEq, Eq)]
pub struct ResourceContext {
    pub kind: String,
    pub name: Option<String>,
}

/// One thing that is wrong with a program.
#[derive(Clone, Debug, PartialEq, Eq)]
pub struct InvalidDiagnostic {
    pub reason: InvalidReason,
    pub detail: String,
    pub location: Option<Location>,
}

/// The program is invalid.
#[derive(Clone, Debug, PartialEq, Eq)]
pub struct InvalidFailure {
    pub stage: Stage,
    pub reason: InvalidReason,
    pub detail: String,
    pub location: Option<Location>,
    pub diagnostics: Vec<InvalidDiagnostic>,
}

/// The program failed while it ran.
#[derive(Clone, Debug, PartialEq, Eq)]
pub struct ExecutionFailure {
    pub stage: Stage,
    pub reason: ExecutionFailureReason,
    pub detail: String,
    pub location: Option<Location>,
    pub execution: Option<ExecutionContext>,
}

/// The program met another transaction.
#[derive(Clone, Debug, PartialEq, Eq)]
pub struct ConflictFailure {
    pub stage: Stage,
    pub reason: ConflictReason,
    pub detail: String,
    pub conflict: Option<ConflictContext>,
}

/// Something was not found.
#[derive(Clone, Debug, PartialEq, Eq)]
pub struct NotFoundFailure {
    pub stage: Stage,
    pub reason: NotFoundReason,
    pub detail: String,
    pub resource: Option<ResourceContext>,
}

/// The system failed. The diagnostic is not for the caller.
#[derive(Clone, Debug, PartialEq, Eq)]
pub struct InternalFailure {
    pub stage: Stage,
    diagnostic: String,
}

impl InternalFailure {
    /// Where it went wrong.
    pub closed spec fn spec_stage(&self) -> Stage {
        self.stage
    }

    /// Where it went wrong.
    pub fn stage(&self) -> (stage: Stage)
        ensures
            stage == self.spec_stage(),
    {
        self.stage
    }

    /// What went wrong.
    pub closed spec fn spec_diagnostic(&self) -> Seq<char> {
        self.diagnostic@
    }

    /// What went wrong.
    pub fn diagnostic(&self) -> (diagnostic: &str)
        ensures
            diagnostic@ == self.spec_diagnostic(),
    {
        self.diagnostic.as_str()
    }
}

/// A failure.
#[derive(Clone, Debug, PartialEq, Eq)]
pub enum Failure {
    Invalid(InvalidFailure),
    ExecutionFailed(ExecutionFailure),
    Conflict(ConflictFailure),
    NotFound(NotFoundFailure),
    Internal(InternalFailure),
}

/// The class of a failure, with its reason.
pub enum FailureClass {
    Invalid(InvalidReason),
    ExecutionFailed(ExecutionFailureReason),
    Conflict(ConflictReason),
    NotFound(NotFoundReason),
    Internal,
}

/// The class of an executor error.
pub open spec fn class_of(reason: ErrorReason) -> FailureClass {
    match reason {
        ErrorReason::Invalid => FailureClass::Invalid(InvalidReason::Invalid),
        ErrorReason::SchemaViolation => FailureClass::Invalid(InvalidReason::SchemaViolation),
        ErrorReason::UnknownTable => FailureClass::Invalid(InvalidReason::UnknownTable),
        ErrorReason::UnknownColumn => FailureClass::Invalid(InvalidReason::UnknownColumn),
        ErrorReason::UnknownScope => FailureClass::Invalid(InvalidReason::UnknownScope),
        ErrorReason::UnknownBinding => FailureClass::Invalid(InvalidReason::UnknownBinding),
        ErrorReason::UnknownNode => FailureClass::Invalid(InvalidReason::UnknownNode),
        ErrorReason::NodeCycle => FailureClass::Invalid(InvalidReason::NodeCycle),
        ErrorReason::SharedNode => FailureClass::Invalid(InvalidReason::SharedNode),
        ErrorReason::UnreachableNode => FailureClass::Invalid(InvalidReason::UnreachableNode),
        ErrorReason::DuplicateScope => FailureClass::Invalid(InvalidReason::DuplicateScope),
        ErrorReason::TypeMismatch => FailureClass::Invalid(InvalidReason::TypeMismatch),
        ErrorReason::ScalarArity => FailureClass::Invalid(InvalidReason::ScalarArity),
        ErrorReason::NondeterministicOrder => FailureClass::Invalid(InvalidReason::NondeterministicOrder),
        ErrorReason::DependentJoin => FailureClass::Invalid(InvalidReason::DependentJoin),
        ErrorReason::ProjectionCollision => FailureClass::Invalid(InvalidReason::ProjectionCollision),
        ErrorReason::BindingCycle => FailureClass::Invalid(InvalidReason::BindingCycle),
        ErrorReason::BindingOutputCollision => FailureClass::Invalid(InvalidReason::BindingOutputCollision),
        ErrorReason::ConstraintViolation => FailureClass::Invalid(InvalidReason::ConstraintViolation),
        ErrorReason::MutationTargetAmbiguous => FailureClass::Invalid(InvalidReason::MutationTargetAmbiguous),
        ErrorReason::MutationShape => FailureClass::Invalid(InvalidReason::MutationShape),
        ErrorReason::SchemaDataLossAcceptanceRequired => FailureClass::Invalid(InvalidReason::SchemaDataLossAcceptanceRequired),
        ErrorReason::ExecutionFailed => FailureClass::ExecutionFailed(ExecutionFailureReason::ExecutionFailed),
        ErrorReason::DivisionByZero => FailureClass::ExecutionFailed(ExecutionFailureReason::DivisionByZero),
        ErrorReason::CardinalityViolation => FailureClass::ExecutionFailed(ExecutionFailureReason::CardinalityViolation),
        ErrorReason::MutationTargetNotFound => FailureClass::ExecutionFailed(ExecutionFailureReason::MutationTargetNotFound),
        ErrorReason::RecursionLimit => FailureClass::ExecutionFailed(ExecutionFailureReason::RecursionLimit),
        ErrorReason::NumericOverflow => FailureClass::ExecutionFailed(ExecutionFailureReason::NumericOverflow),
        ErrorReason::SerializableConflict => FailureClass::Conflict(ConflictReason::SerializableConflict),
        ErrorReason::SchemaTransitionBackpressure => FailureClass::Conflict(ConflictReason::SchemaTransitionBackpressure),
        ErrorReason::SchemaTransitionFinalizing => FailureClass::Conflict(ConflictReason::SchemaTransitionFinalizing),
        ErrorReason::SchemaTransitionNotFound => FailureClass::NotFound(
            NotFoundReason::SchemaTransition,
        ),
        _ => FailureClass::Internal,
    }
}

/// Whether a reason comes up when names and types are bound.
pub open spec fn is_binding(reason: ErrorReason) -> bool {
    ||| reason == ErrorReason::UnknownTable
    ||| reason == ErrorReason::UnknownColumn
    ||| reason == ErrorReason::UnknownScope
    ||| reason == ErrorReason::UnknownBinding
    ||| reason == ErrorReason::DuplicateScope
    ||| reason == ErrorReason::TypeMismatch
    ||| reason == ErrorReason::ScalarArity
    ||| reason == ErrorReason::NondeterministicOrder
    ||| reason == ErrorReason::DependentJoin
    ||| reason == ErrorReason::ProjectionCollision
    ||| reason == ErrorReason::BindingCycle
    ||| reason == ErrorReason::BindingOutputCollision
}

/// The stage of an executor error. A schema violation is always one of the
/// schema.
pub open spec fn stage_of(kind: ErrorKind, reason: ErrorReason) -> Stage {
    if reason == ErrorReason::SchemaViolation {
        Stage::Schema
    } else {
        kind_stage(kind, reason)
    }
}

/// The stage that the kind of an executor error shows.
pub open spec fn kind_stage(kind: ErrorKind, reason: ErrorReason) -> Stage {
    match kind {
        ErrorKind::InvalidInput | ErrorKind::DataLossAcceptance => if is_binding(reason) {
            Stage::Binding
        } else {
            Stage::Preflight
        },
        ErrorKind::Storage | ErrorKind::CorruptData | ErrorKind::CommitOutcomeUnknown => {
            Stage::Storage
        },
        _ => Stage::Execution,
    }
}

/// Whether a failure is the one for an executor error.
pub open spec fn is_failure_of(failure: Failure, error: ExecError) -> bool {
    let stage = stage_of(error.kind, error.reason);
    match (class_of(error.reason), failure) {
        (FailureClass::Invalid(reason), Failure::Invalid(found)) => {
            &&& found.stage == stage
            &&& found.reason == reason
            &&& found.detail@ == error.message@
            &&& found.location is None
            &&& found.diagnostics@.len() == 0
        },
        (FailureClass::ExecutionFailed(reason), Failure::ExecutionFailed(found)) => {
            &&& found.stage == stage
            &&& found.reason == reason
            &&& found.detail@ == error.message@
            &&& found.location is None
            &&& found.execution is None
        },
        (FailureClass::Conflict(reason), Failure::Conflict(found)) => {
            &&& found.stage == stage
            &&& found.reason == reason
            &&& found.detail@ == error.message@
            &&& found.conflict is None
        },
        (FailureClass::NotFound(reason), Failure::NotFound(found)) => {
            &&& found.stage == stage
            &&& found.reason == reason
            &&& found.detail@ == error.message@
            &&& found.resource is None
        },
        (FailureClass::Internal, Failure::Internal(found)) => {
            &&& found.spec_stage() == stage
            &&& found.spec_diagnostic() == error.message@
        },
        _ => false,
    }
}

fn stage(error: &ExecError) -> (stage: Stage)
    ensures
        stage == kind_stage(error.kind, error.reason),
{
    match error.kind {
        ErrorKind::InvalidInput | ErrorKind::DataLossAcceptance => {
            if matches!(
                error.reason,
                ErrorReason::UnknownTable
                | ErrorReason::UnknownColumn
                | ErrorReason::UnknownScope
                | ErrorReason::UnknownBinding
                | ErrorReason::DuplicateScope
                | ErrorReason::TypeMismatch
                | ErrorReason::ScalarArity
                | ErrorReason::NondeterministicOrder
                | ErrorReason::DependentJoin
                | ErrorReason::ProjectionCollision
                | ErrorReason::BindingCycle
                | ErrorReason::BindingOutputCollision
            ) {
                Stage::Binding
            } else {
                Stage::Preflight
            }
        },
        ErrorKind::Storage | ErrorKind::CorruptData | ErrorKind::CommitOutcomeUnknown => {
            Stage::Storage
        },
        _ => Stage::Execution,
    }
}

fn invalid(stage: Stage, reason: InvalidReason, detail: String) -> (failure: Failure)
    ensures
        failure matches Failure::Invalid(found) && found.stage == stage && found.reason == reason
            && found.detail == detail && found.location is None && found.diagnostics@.len() == 0,
{
    Failure::Invalid(
        InvalidFailure { stage, reason, detail, location: None, diagnostics: Vec::new() },
    )
}

fn execution(stage: Stage, reason: ExecutionFailureReason, detail: String) -> (failure: Failure)
    ensures
        failure matches Failure::ExecutionFailed(found) && found.stage == stage && found.reason
            == reason && found.detail == detail && found.location is None && found.execution
            is None,
{
    Failure::ExecutionFailed(
        ExecutionFailure { stage, reason, detail, location: None, execution: None },
    )
}

fn conflict(stage: Stage, reason: ConflictReason, detail: String) -> (failure: Failure)
    ensures
        failure matches Failure::Conflict(found) && found.stage == stage && found.reason == reason
            && found.detail == detail && found.conflict is None,
{
    Failure::Conflict(ConflictFailure { stage, reason, detail, conflict: None })
}

impl Failure {
    /// The failure for an executor error.
    pub fn from_exec(error: &ExecError) -> (failure: Failure)
        ensures
            is_failure_of(failure, *error),
    {
        let stage = stage(error);
        let detail = error.message.clone();
        match error.reason {
            ErrorReason::Invalid => invalid(stage, InvalidReason::Invalid, detail),
            ErrorReason::SchemaViolation => invalid(Stage::Schema, InvalidReason::SchemaViolation, detail),
            ErrorReason::UnknownTable => invalid(stage, InvalidReason::UnknownTable, detail),
            ErrorReason::UnknownColumn => invalid(stage, InvalidReason::UnknownColumn, detail),
            ErrorReason::UnknownScope => invalid(stage, InvalidReason::UnknownScope, detail),
            ErrorReason::UnknownBinding => invalid(stage, InvalidReason::UnknownBinding, detail),
            ErrorReason::UnknownNode => invalid(stage, InvalidReason::UnknownNode, detail),
            ErrorReason::NodeCycle => invalid(stage, InvalidReason::NodeCycle, detail),
            ErrorReason::SharedNode => invalid(stage, InvalidReason::SharedNode, detail),
            ErrorReason::UnreachableNode => invalid(stage, InvalidReason::UnreachableNode, detail),
            ErrorReason::DuplicateScope => invalid(stage, InvalidReason::DuplicateScope, detail),
            ErrorReason::TypeMismatch => invalid(stage, InvalidReason::TypeMismatch, detail),
            ErrorReason::ScalarArity => invalid(stage, InvalidReason::ScalarArity, detail),
            ErrorReason::NondeterministicOrder => invalid(stage, InvalidReason::NondeterministicOrder, detail),
            ErrorReason::DependentJoin => invalid(stage, InvalidReason::DependentJoin, detail),
            ErrorReason::ProjectionCollision => invalid(stage, InvalidReason::ProjectionCollision, detail),
            ErrorReason::BindingCycle => invalid(stage, InvalidReason::BindingCycle, detail),
            ErrorReason::BindingOutputCollision => invalid(stage, InvalidReason::BindingOutputCollision, detail),
            ErrorReason::ConstraintViolation => invalid(stage, InvalidReason::ConstraintViolation, detail),
            ErrorReason::MutationTargetAmbiguous => invalid(stage, InvalidReason::MutationTargetAmbiguous, detail),
            ErrorReason::MutationShape => invalid(stage, InvalidReason::MutationShape, detail),
            ErrorReason::SchemaDataLossAcceptanceRequired => invalid(stage, InvalidReason::SchemaDataLossAcceptanceRequired, detail),
            ErrorReason::ExecutionFailed => execution(stage, ExecutionFailureReason::ExecutionFailed, detail),
            ErrorReason::DivisionByZero => execution(stage, ExecutionFailureReason::DivisionByZero, detail),
            ErrorReason::CardinalityViolation => execution(stage, ExecutionFailureReason::CardinalityViolation, detail),
            ErrorReason::MutationTargetNotFound => execution(stage, ExecutionFailureReason::MutationTargetNotFound, detail),
            ErrorReason::RecursionLimit => execution(stage, ExecutionFailureReason::RecursionLimit, detail),
            ErrorReason::NumericOverflow => execution(stage, ExecutionFailureReason::NumericOverflow, detail),
            ErrorReason::SerializableConflict => conflict(stage, ConflictReason::SerializableConflict, detail),
            ErrorReason::SchemaTransitionBackpressure => conflict(stage, ConflictReason::SchemaTransitionBackpressure, detail),
            ErrorReason::SchemaTransitionFinalizing => conflict(stage, ConflictReason::SchemaTransitionFinalizing, detail),
            ErrorReason::SchemaTransitionNotFound => Failure::not_found(
                stage,
                NotFoundReason::SchemaTransition,
                detail,
                None,
            ),
            ErrorReason::CommitOutcomeUnknown
            | ErrorReason::CatalogCorrupt
            | ErrorReason::CatalogSchemaDrift
            | ErrorReason::StorageUnavailable
            | ErrorReason::Internal => Failure::Internal(
                InternalFailure { stage, diagnostic: detail },
            ),
        }
    }

    /// The failure for something that was not found.
    pub fn not_found(
        stage: Stage,
        reason: NotFoundReason,
        detail: String,
        resource: Option<ResourceContext>,
    ) -> (failure: Failure)
        ensures
            failure == Failure::NotFound(NotFoundFailure { stage, reason, detail, resource }),
    {
        Failure::NotFound(NotFoundFailure { stage, reason, detail, resource })
    }
}

/// A caller can tell what to try again from what to mend: only a conflict is a
/// conflict, and what violates a constraint stays invalid, whatever kind the
/// error has.
pub proof fn retryability_is_kept(failure: Failure, error: ExecError)
    requires
        is_failure_of(failure, error),
    ensures
        failure is Conflict <==> (error.reason == ErrorReason::SerializableConflict || error.reason
            == ErrorReason::SchemaTransitionBackpressure || error.reason
            == ErrorReason::SchemaTransitionFinalizing),
        error.reason == ErrorReason::ConstraintViolation ==> failure is Invalid,
        failure is Internal <==> (error.reason == ErrorReason::CommitOutcomeUnknown || error.reason
            == ErrorReason::CatalogCorrupt || error.reason == ErrorReason::CatalogSchemaDrift
            || error.reason == ErrorReason::StorageUnavailable || error.reason
            == ErrorReason::Internal),
{
}

} // verus!
