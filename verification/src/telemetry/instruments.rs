//! The instruments of the process, and what is recorded on them.

use vstd::prelude::*;

use crate::text;

verus! {

/// What kind of instrument takes a measurement.
#[derive(Clone, Copy, Debug, PartialEq, Eq, Structural)]
pub enum InstrumentKind {
    Counter,
    UpDownCounter,
    Gauge,
    Histogram,
    ObservedCounter,
    ObservedGauge,
}

/// What kind of number an instrument takes.
#[derive(Clone, Copy, Debug, PartialEq, Eq, Structural)]
pub enum NumberKind {
    Unsigned,
    Signed,
    Real,
}

/// How an instrument is defined.
#[derive(Clone, Copy, Debug)]
pub struct Definition {
    pub name: &'static str,
    pub kind: InstrumentKind,
    pub numbers: NumberKind,
    pub unit: Option<&'static str>,
    pub description: &'static str,
}

/// The value of a [`Definition`].
pub struct DefinitionView {
    pub name: Seq<char>,
    pub kind: InstrumentKind,
    pub numbers: NumberKind,
    pub unit: Option<Seq<char>>,
    pub description: Seq<char>,
}

impl View for Definition {
    type V = DefinitionView;

    open spec fn view(&self) -> DefinitionView {
        DefinitionView {
            name: self.name@,
            kind: self.kind,
            numbers: self.numbers,
            unit: match self.unit {
                Some(unit) => Some(unit@),
                None => None,
            },
            description: self.description@,
        }
    }
}

/// The instruments of the process.
#[derive(Clone, Copy, Debug, PartialEq, Eq, Structural)]
pub enum Instrument {
    ProcessCpuTime,
    ProcessCpuLimit,
    ProcessCpuThrottledTime,
    ProcessCpuThrottledEvents,
    ProcessMemoryRss,
    ProcessMemoryLimit,
    HttpActive,
    HttpRequests,
    HttpDuration,
    ProgramActive,
    ProgramAdmittedActive,
    ProgramQueueActive,
    ProgramQueueDuration,
    ProgramExecutions,
    ProgramDuration,
    ProgramResultRows,
    ProgramAffectedRows,
    ProgramStatements,
    StatementExecutions,
    StatementDuration,
    StatementRows,
    PlannerDuration,
    OperatorDuration,
    OperatorRows,
    ExecutionParallelWidth,
    ExecutionParallelBatches,
    ExecutionParallelRows,
    RelationCacheLookups,
    RelationCacheAdmissions,
    RelationCacheEvictions,
    RelationCacheEntries,
    RelationCacheRetainedBytes,
    RelationCacheCapacityEntries,
    RelationCacheCapacityBytes,
    RelationCacheResultLimitBytes,
    RelationCacheResultBytes,
    RelationCacheDependencyLookups,
    RelationCacheDependencyEvictions,
    RelationCacheCatalogLookups,
    RelationCacheCatalogEvictions,
    RelationCacheCatalogEntries,
    RelationCacheCatalogRetainedBytes,
    RelationCachePreparedLookups,
    RelationCachePreparedAdmissions,
    RelationCachePreparedEvictions,
    RelationCachePreparedEntries,
    RelationCachePreparedRetainedBytes,
    RelationCachePreparedCapacityEntries,
    RelationCachePreparedCapacityBytes,
    RelationCachePreparedPlanLimitBytes,
    RelationCachePreparedCandidateBytes,
    RelationCachePreparedAvoidedBinds,
    RelationCachePreparedAvoidedPlans,
    RelationCacheAvoidedReads,
    RelationCacheAvoidedBytes,
    RelationCacheAvoidedTime,
    RelationCacheCoalescedFills,
    RelationCacheReuseOpportunities,
    RelationCacheCohortTransitions,
    RelationCacheCohortReuse,
    RelationCacheShadowDecisions,
    RelationCacheShadowCandidateWork,
    RelationCacheShadowCandidateDensity,
    RelationCacheShadowRejectedReuse,
    RelationCacheEvidenceEvictions,
    KvOperations,
    KvBytes,
    KvOperationDuration,
    KvScanRows,
    TransactionCompletions,
    TransactionDuration,
    TransactionConflicts,
    PostgresActive,
    PostgresConnections,
    StorageAvailable,
    StorageOutages,
    StorageOutageDuration,
    StorageFencing,
    StorageCacheAccesses,
    StorageCacheCapacity,
    StorageRequests,
    StorageRequestDuration,
    StorageRequestBytes,
    SchedulerJobs,
    SchedulerQuarantined,
    SchedulerLostWorkers,
}

/// The number of instruments.
pub const INSTRUMENT_COUNT: usize = 86;

impl Instrument {
    /// The name of an instrument.
    pub open spec fn spec_name(self) -> Seq<char> {
        match self {
            Instrument::ProcessCpuTime => "rad.process.cpu.time"@,
            Instrument::ProcessCpuLimit => "rad.process.cpu.limit"@,
            Instrument::ProcessCpuThrottledTime => "rad.process.cpu.throttled.duration"@,
            Instrument::ProcessCpuThrottledEvents => "rad.process.cpu.throttled.events"@,
            Instrument::ProcessMemoryRss => "rad.process.memory.rss"@,
            Instrument::ProcessMemoryLimit => "rad.process.memory.limit"@,
            Instrument::HttpActive => "http.server.active_requests"@,
            Instrument::HttpRequests => "http.server.requests"@,
            Instrument::HttpDuration => "http.server.request.duration"@,
            Instrument::ProgramActive => "rad.program.active"@,
            Instrument::ProgramAdmittedActive => "rad.program.admitted.active"@,
            Instrument::ProgramQueueActive => "rad.program.queue.active"@,
            Instrument::ProgramQueueDuration => "rad.program.queue.duration"@,
            Instrument::ProgramExecutions => "rad.program.executions"@,
            Instrument::ProgramDuration => "rad.program.duration"@,
            Instrument::ProgramResultRows => "rad.program.result.rows"@,
            Instrument::ProgramAffectedRows => "rad.program.affected.rows"@,
            Instrument::ProgramStatements => "rad.program.statements"@,
            Instrument::StatementExecutions => "rad.statement.executions"@,
            Instrument::StatementDuration => "rad.statement.duration"@,
            Instrument::StatementRows => "rad.statement.rows"@,
            Instrument::PlannerDuration => "rad.planner.duration"@,
            Instrument::OperatorDuration => "rad.operator.duration"@,
            Instrument::OperatorRows => "rad.operator.rows"@,
            Instrument::ExecutionParallelWidth => "rad.execution.parallel.width"@,
            Instrument::ExecutionParallelBatches => "rad.execution.parallel.batches"@,
            Instrument::ExecutionParallelRows => "rad.execution.parallel.rows"@,
            Instrument::RelationCacheLookups => "rad.relation.cache.lookups"@,
            Instrument::RelationCacheAdmissions => "rad.relation.cache.admissions"@,
            Instrument::RelationCacheEvictions => "rad.relation.cache.evictions"@,
            Instrument::RelationCacheEntries => "rad.relation.cache.entries"@,
            Instrument::RelationCacheRetainedBytes => "rad.relation.cache.retained.bytes"@,
            Instrument::RelationCacheCapacityEntries => "rad.relation.cache.capacity.entries"@,
            Instrument::RelationCacheCapacityBytes => "rad.relation.cache.capacity.bytes"@,
            Instrument::RelationCacheResultLimitBytes => "rad.relation.cache.result.limit.bytes"@,
            Instrument::RelationCacheResultBytes => "rad.relation.cache.result.bytes"@,
            Instrument::RelationCacheDependencyLookups => "rad.relation.cache.dependency.lookups"@,
            Instrument::RelationCacheDependencyEvictions => "rad.relation.cache.dependency.evictions"@,
            Instrument::RelationCacheCatalogLookups => "rad.relation.cache.catalog.lookups"@,
            Instrument::RelationCacheCatalogEvictions => "rad.relation.cache.catalog.evictions"@,
            Instrument::RelationCacheCatalogEntries => "rad.relation.cache.catalog.entries"@,
            Instrument::RelationCacheCatalogRetainedBytes => "rad.relation.cache.catalog.retained.bytes"@,
            Instrument::RelationCachePreparedLookups => "rad.relation.cache.prepared.lookups"@,
            Instrument::RelationCachePreparedAdmissions => "rad.relation.cache.prepared.admissions"@,
            Instrument::RelationCachePreparedEvictions => "rad.relation.cache.prepared.evictions"@,
            Instrument::RelationCachePreparedEntries => "rad.relation.cache.prepared.entries"@,
            Instrument::RelationCachePreparedRetainedBytes => "rad.relation.cache.prepared.retained.bytes"@,
            Instrument::RelationCachePreparedCapacityEntries => "rad.relation.cache.prepared.capacity.entries"@,
            Instrument::RelationCachePreparedCapacityBytes => "rad.relation.cache.prepared.capacity.bytes"@,
            Instrument::RelationCachePreparedPlanLimitBytes => "rad.relation.cache.prepared.plan.limit.bytes"@,
            Instrument::RelationCachePreparedCandidateBytes => "rad.relation.cache.prepared.candidate.bytes"@,
            Instrument::RelationCachePreparedAvoidedBinds => "rad.relation.cache.prepared.avoided.binds"@,
            Instrument::RelationCachePreparedAvoidedPlans => "rad.relation.cache.prepared.avoided.plans"@,
            Instrument::RelationCacheAvoidedReads => "rad.relation.cache.avoided.reads"@,
            Instrument::RelationCacheAvoidedBytes => "rad.relation.cache.avoided.bytes"@,
            Instrument::RelationCacheAvoidedTime => "rad.relation.cache.avoided.time"@,
            Instrument::RelationCacheCoalescedFills => "rad.relation.cache.coalesced.fills"@,
            Instrument::RelationCacheReuseOpportunities => "rad.relation.cache.reuse.opportunities"@,
            Instrument::RelationCacheCohortTransitions => "rad.relation.cache.cohort.transitions"@,
            Instrument::RelationCacheCohortReuse => "rad.relation.cache.cohort.reuse.opportunities"@,
            Instrument::RelationCacheShadowDecisions => "rad.relation.cache.shadow.decisions"@,
            Instrument::RelationCacheShadowCandidateWork => "rad.relation.cache.shadow.candidate.work"@,
            Instrument::RelationCacheShadowCandidateDensity => "rad.relation.cache.shadow.candidate.density"@,
            Instrument::RelationCacheShadowRejectedReuse => "rad.relation.cache.shadow.rejected.reuse"@,
            Instrument::RelationCacheEvidenceEvictions => "rad.relation.cache.evidence.evictions"@,
            Instrument::KvOperations => "rad.kv.operations"@,
            Instrument::KvBytes => "rad.kv.io.bytes"@,
            Instrument::KvOperationDuration => "rad.kv.operation.duration"@,
            Instrument::KvScanRows => "rad.kv.scan.rows"@,
            Instrument::TransactionCompletions => "rad.transaction.completions"@,
            Instrument::TransactionDuration => "rad.transaction.duration"@,
            Instrument::TransactionConflicts => "rad.transaction.conflicts"@,
            Instrument::PostgresActive => "rad.postgresql.connections.active"@,
            Instrument::PostgresConnections => "rad.postgresql.connections"@,
            Instrument::StorageAvailable => "rad.storage.available"@,
            Instrument::StorageOutages => "rad.storage.outages"@,
            Instrument::StorageOutageDuration => "rad.storage.outage.duration"@,
            Instrument::StorageFencing => "rad.storage.fencing"@,
            Instrument::StorageCacheAccesses => "rad.storage.cache.accesses"@,
            Instrument::StorageCacheCapacity => "rad.storage.cache.capacity.bytes"@,
            Instrument::StorageRequests => "rad.storage.requests"@,
            Instrument::StorageRequestDuration => "rad.storage.request.duration"@,
            Instrument::StorageRequestBytes => "rad.storage.request.bytes"@,
            Instrument::SchedulerJobs => "rad.scheduler.jobs"@,
            Instrument::SchedulerQuarantined => "rad.scheduler.quarantined"@,
            Instrument::SchedulerLostWorkers => "rad.scheduler.lost_workers"@,
        }
    }

    /// The kind of an instrument.
    pub open spec fn spec_kind(self) -> InstrumentKind {
        match self {
            Instrument::ProcessCpuTime => InstrumentKind::ObservedCounter,
            Instrument::ProcessCpuLimit => InstrumentKind::ObservedGauge,
            Instrument::ProcessCpuThrottledTime => InstrumentKind::ObservedCounter,
            Instrument::ProcessCpuThrottledEvents => InstrumentKind::ObservedCounter,
            Instrument::ProcessMemoryRss => InstrumentKind::ObservedGauge,
            Instrument::ProcessMemoryLimit => InstrumentKind::ObservedGauge,
            Instrument::HttpActive => InstrumentKind::UpDownCounter,
            Instrument::HttpRequests => InstrumentKind::Counter,
            Instrument::HttpDuration => InstrumentKind::Histogram,
            Instrument::ProgramActive => InstrumentKind::UpDownCounter,
            Instrument::ProgramAdmittedActive => InstrumentKind::UpDownCounter,
            Instrument::ProgramQueueActive => InstrumentKind::UpDownCounter,
            Instrument::ProgramQueueDuration => InstrumentKind::Histogram,
            Instrument::ProgramExecutions => InstrumentKind::Counter,
            Instrument::ProgramDuration => InstrumentKind::Histogram,
            Instrument::ProgramResultRows => InstrumentKind::Histogram,
            Instrument::ProgramAffectedRows => InstrumentKind::Histogram,
            Instrument::ProgramStatements => InstrumentKind::Histogram,
            Instrument::StatementExecutions => InstrumentKind::Counter,
            Instrument::StatementDuration => InstrumentKind::Histogram,
            Instrument::StatementRows => InstrumentKind::Counter,
            Instrument::PlannerDuration => InstrumentKind::Histogram,
            Instrument::OperatorDuration => InstrumentKind::Histogram,
            Instrument::OperatorRows => InstrumentKind::Histogram,
            Instrument::ExecutionParallelWidth => InstrumentKind::Histogram,
            Instrument::ExecutionParallelBatches => InstrumentKind::Counter,
            Instrument::ExecutionParallelRows => InstrumentKind::Counter,
            Instrument::RelationCacheLookups => InstrumentKind::Counter,
            Instrument::RelationCacheAdmissions => InstrumentKind::Counter,
            Instrument::RelationCacheEvictions => InstrumentKind::Counter,
            Instrument::RelationCacheEntries => InstrumentKind::Gauge,
            Instrument::RelationCacheRetainedBytes => InstrumentKind::Gauge,
            Instrument::RelationCacheCapacityEntries => InstrumentKind::Gauge,
            Instrument::RelationCacheCapacityBytes => InstrumentKind::Gauge,
            Instrument::RelationCacheResultLimitBytes => InstrumentKind::Gauge,
            Instrument::RelationCacheResultBytes => InstrumentKind::Histogram,
            Instrument::RelationCacheDependencyLookups => InstrumentKind::Counter,
            Instrument::RelationCacheDependencyEvictions => InstrumentKind::Counter,
            Instrument::RelationCacheCatalogLookups => InstrumentKind::Counter,
            Instrument::RelationCacheCatalogEvictions => InstrumentKind::Counter,
            Instrument::RelationCacheCatalogEntries => InstrumentKind::Gauge,
            Instrument::RelationCacheCatalogRetainedBytes => InstrumentKind::Gauge,
            Instrument::RelationCachePreparedLookups => InstrumentKind::Counter,
            Instrument::RelationCachePreparedAdmissions => InstrumentKind::Counter,
            Instrument::RelationCachePreparedEvictions => InstrumentKind::Counter,
            Instrument::RelationCachePreparedEntries => InstrumentKind::Gauge,
            Instrument::RelationCachePreparedRetainedBytes => InstrumentKind::Gauge,
            Instrument::RelationCachePreparedCapacityEntries => InstrumentKind::Gauge,
            Instrument::RelationCachePreparedCapacityBytes => InstrumentKind::Gauge,
            Instrument::RelationCachePreparedPlanLimitBytes => InstrumentKind::Gauge,
            Instrument::RelationCachePreparedCandidateBytes => InstrumentKind::Histogram,
            Instrument::RelationCachePreparedAvoidedBinds => InstrumentKind::Counter,
            Instrument::RelationCachePreparedAvoidedPlans => InstrumentKind::Counter,
            Instrument::RelationCacheAvoidedReads => InstrumentKind::Counter,
            Instrument::RelationCacheAvoidedBytes => InstrumentKind::Counter,
            Instrument::RelationCacheAvoidedTime => InstrumentKind::Counter,
            Instrument::RelationCacheCoalescedFills => InstrumentKind::Counter,
            Instrument::RelationCacheReuseOpportunities => InstrumentKind::Counter,
            Instrument::RelationCacheCohortTransitions => InstrumentKind::Counter,
            Instrument::RelationCacheCohortReuse => InstrumentKind::Histogram,
            Instrument::RelationCacheShadowDecisions => InstrumentKind::Counter,
            Instrument::RelationCacheShadowCandidateWork => InstrumentKind::Histogram,
            Instrument::RelationCacheShadowCandidateDensity => InstrumentKind::Histogram,
            Instrument::RelationCacheShadowRejectedReuse => InstrumentKind::Counter,
            Instrument::RelationCacheEvidenceEvictions => InstrumentKind::Counter,
            Instrument::KvOperations => InstrumentKind::Counter,
            Instrument::KvBytes => InstrumentKind::Counter,
            Instrument::KvOperationDuration => InstrumentKind::Histogram,
            Instrument::KvScanRows => InstrumentKind::Histogram,
            Instrument::TransactionCompletions => InstrumentKind::Counter,
            Instrument::TransactionDuration => InstrumentKind::Histogram,
            Instrument::TransactionConflicts => InstrumentKind::Counter,
            Instrument::PostgresActive => InstrumentKind::UpDownCounter,
            Instrument::PostgresConnections => InstrumentKind::Counter,
            Instrument::StorageAvailable => InstrumentKind::Gauge,
            Instrument::StorageOutages => InstrumentKind::Counter,
            Instrument::StorageOutageDuration => InstrumentKind::Histogram,
            Instrument::StorageFencing => InstrumentKind::Counter,
            Instrument::StorageCacheAccesses => InstrumentKind::Counter,
            Instrument::StorageCacheCapacity => InstrumentKind::Gauge,
            Instrument::StorageRequests => InstrumentKind::Counter,
            Instrument::StorageRequestDuration => InstrumentKind::Histogram,
            Instrument::StorageRequestBytes => InstrumentKind::Counter,
            Instrument::SchedulerJobs => InstrumentKind::Counter,
            Instrument::SchedulerQuarantined => InstrumentKind::Counter,
            Instrument::SchedulerLostWorkers => InstrumentKind::Counter,
        }
    }

    /// The kind of number that an instrument takes.
    pub open spec fn spec_numbers(self) -> NumberKind {
        match self {
            Instrument::ProcessCpuTime => NumberKind::Real,
            Instrument::ProcessCpuLimit => NumberKind::Real,
            Instrument::ProcessCpuThrottledTime => NumberKind::Real,
            Instrument::ProcessCpuThrottledEvents => NumberKind::Unsigned,
            Instrument::ProcessMemoryRss => NumberKind::Unsigned,
            Instrument::ProcessMemoryLimit => NumberKind::Unsigned,
            Instrument::HttpActive => NumberKind::Signed,
            Instrument::HttpRequests => NumberKind::Unsigned,
            Instrument::HttpDuration => NumberKind::Real,
            Instrument::ProgramActive => NumberKind::Signed,
            Instrument::ProgramAdmittedActive => NumberKind::Signed,
            Instrument::ProgramQueueActive => NumberKind::Signed,
            Instrument::ProgramQueueDuration => NumberKind::Real,
            Instrument::ProgramExecutions => NumberKind::Unsigned,
            Instrument::ProgramDuration => NumberKind::Real,
            Instrument::ProgramResultRows => NumberKind::Unsigned,
            Instrument::ProgramAffectedRows => NumberKind::Unsigned,
            Instrument::ProgramStatements => NumberKind::Unsigned,
            Instrument::StatementExecutions => NumberKind::Unsigned,
            Instrument::StatementDuration => NumberKind::Real,
            Instrument::StatementRows => NumberKind::Unsigned,
            Instrument::PlannerDuration => NumberKind::Real,
            Instrument::OperatorDuration => NumberKind::Real,
            Instrument::OperatorRows => NumberKind::Unsigned,
            Instrument::ExecutionParallelWidth => NumberKind::Unsigned,
            Instrument::ExecutionParallelBatches => NumberKind::Unsigned,
            Instrument::ExecutionParallelRows => NumberKind::Unsigned,
            Instrument::RelationCacheLookups => NumberKind::Unsigned,
            Instrument::RelationCacheAdmissions => NumberKind::Unsigned,
            Instrument::RelationCacheEvictions => NumberKind::Unsigned,
            Instrument::RelationCacheEntries => NumberKind::Unsigned,
            Instrument::RelationCacheRetainedBytes => NumberKind::Unsigned,
            Instrument::RelationCacheCapacityEntries => NumberKind::Unsigned,
            Instrument::RelationCacheCapacityBytes => NumberKind::Unsigned,
            Instrument::RelationCacheResultLimitBytes => NumberKind::Unsigned,
            Instrument::RelationCacheResultBytes => NumberKind::Unsigned,
            Instrument::RelationCacheDependencyLookups => NumberKind::Unsigned,
            Instrument::RelationCacheDependencyEvictions => NumberKind::Unsigned,
            Instrument::RelationCacheCatalogLookups => NumberKind::Unsigned,
            Instrument::RelationCacheCatalogEvictions => NumberKind::Unsigned,
            Instrument::RelationCacheCatalogEntries => NumberKind::Unsigned,
            Instrument::RelationCacheCatalogRetainedBytes => NumberKind::Unsigned,
            Instrument::RelationCachePreparedLookups => NumberKind::Unsigned,
            Instrument::RelationCachePreparedAdmissions => NumberKind::Unsigned,
            Instrument::RelationCachePreparedEvictions => NumberKind::Unsigned,
            Instrument::RelationCachePreparedEntries => NumberKind::Unsigned,
            Instrument::RelationCachePreparedRetainedBytes => NumberKind::Unsigned,
            Instrument::RelationCachePreparedCapacityEntries => NumberKind::Unsigned,
            Instrument::RelationCachePreparedCapacityBytes => NumberKind::Unsigned,
            Instrument::RelationCachePreparedPlanLimitBytes => NumberKind::Unsigned,
            Instrument::RelationCachePreparedCandidateBytes => NumberKind::Unsigned,
            Instrument::RelationCachePreparedAvoidedBinds => NumberKind::Unsigned,
            Instrument::RelationCachePreparedAvoidedPlans => NumberKind::Unsigned,
            Instrument::RelationCacheAvoidedReads => NumberKind::Unsigned,
            Instrument::RelationCacheAvoidedBytes => NumberKind::Unsigned,
            Instrument::RelationCacheAvoidedTime => NumberKind::Real,
            Instrument::RelationCacheCoalescedFills => NumberKind::Unsigned,
            Instrument::RelationCacheReuseOpportunities => NumberKind::Unsigned,
            Instrument::RelationCacheCohortTransitions => NumberKind::Unsigned,
            Instrument::RelationCacheCohortReuse => NumberKind::Unsigned,
            Instrument::RelationCacheShadowDecisions => NumberKind::Unsigned,
            Instrument::RelationCacheShadowCandidateWork => NumberKind::Unsigned,
            Instrument::RelationCacheShadowCandidateDensity => NumberKind::Real,
            Instrument::RelationCacheShadowRejectedReuse => NumberKind::Unsigned,
            Instrument::RelationCacheEvidenceEvictions => NumberKind::Unsigned,
            Instrument::KvOperations => NumberKind::Unsigned,
            Instrument::KvBytes => NumberKind::Unsigned,
            Instrument::KvOperationDuration => NumberKind::Real,
            Instrument::KvScanRows => NumberKind::Unsigned,
            Instrument::TransactionCompletions => NumberKind::Unsigned,
            Instrument::TransactionDuration => NumberKind::Real,
            Instrument::TransactionConflicts => NumberKind::Unsigned,
            Instrument::PostgresActive => NumberKind::Signed,
            Instrument::PostgresConnections => NumberKind::Unsigned,
            Instrument::StorageAvailable => NumberKind::Signed,
            Instrument::StorageOutages => NumberKind::Unsigned,
            Instrument::StorageOutageDuration => NumberKind::Real,
            Instrument::StorageFencing => NumberKind::Unsigned,
            Instrument::StorageCacheAccesses => NumberKind::Unsigned,
            Instrument::StorageCacheCapacity => NumberKind::Signed,
            Instrument::StorageRequests => NumberKind::Unsigned,
            Instrument::StorageRequestDuration => NumberKind::Real,
            Instrument::StorageRequestBytes => NumberKind::Unsigned,
            Instrument::SchedulerJobs => NumberKind::Unsigned,
            Instrument::SchedulerQuarantined => NumberKind::Unsigned,
            Instrument::SchedulerLostWorkers => NumberKind::Unsigned,
        }
    }

    /// The unit of an instrument, where it has one.
    pub open spec fn spec_unit(self) -> Option<Seq<char>> {
        match self {
            Instrument::ProcessCpuTime => Some("s"@),
            Instrument::ProcessCpuLimit => Some("{cpu}"@),
            Instrument::ProcessCpuThrottledTime => Some("s"@),
            Instrument::ProcessMemoryRss => Some("By"@),
            Instrument::ProcessMemoryLimit => Some("By"@),
            Instrument::HttpDuration => Some("s"@),
            Instrument::ProgramQueueDuration => Some("s"@),
            Instrument::ProgramDuration => Some("s"@),
            Instrument::StatementDuration => Some("s"@),
            Instrument::PlannerDuration => Some("s"@),
            Instrument::OperatorDuration => Some("s"@),
            Instrument::RelationCacheRetainedBytes => Some("By"@),
            Instrument::RelationCacheCapacityBytes => Some("By"@),
            Instrument::RelationCacheResultLimitBytes => Some("By"@),
            Instrument::RelationCacheResultBytes => Some("By"@),
            Instrument::RelationCacheCatalogRetainedBytes => Some("By"@),
            Instrument::RelationCachePreparedRetainedBytes => Some("By"@),
            Instrument::RelationCachePreparedCapacityBytes => Some("By"@),
            Instrument::RelationCachePreparedPlanLimitBytes => Some("By"@),
            Instrument::RelationCachePreparedCandidateBytes => Some("By"@),
            Instrument::RelationCacheAvoidedBytes => Some("By"@),
            Instrument::RelationCacheAvoidedTime => Some("s"@),
            Instrument::KvOperationDuration => Some("s"@),
            Instrument::TransactionDuration => Some("s"@),
            Instrument::StorageOutageDuration => Some("s"@),
            Instrument::StorageRequestDuration => Some("s"@),
            _ => None,
        }
    }

    /// What an instrument measures.
    pub open spec fn spec_description(self) -> Seq<char> {
        match self {
            Instrument::ProcessCpuTime => "Rad process CPU time"@,
            Instrument::ProcessCpuLimit => "Rad process CPU limit"@,
            Instrument::ProcessCpuThrottledTime => "Rad process CPU throttled duration"@,
            Instrument::ProcessCpuThrottledEvents => "Rad process CPU throttled events"@,
            Instrument::ProcessMemoryRss => "Rad process resident memory"@,
            Instrument::ProcessMemoryLimit => "Rad process memory limit"@,
            Instrument::HttpActive => "Active Rad HTTP requests"@,
            Instrument::HttpRequests => "Completed Rad HTTP requests"@,
            Instrument::HttpDuration => "Rad HTTP request duration"@,
            Instrument::ProgramActive => "Active Rad programs"@,
            Instrument::ProgramAdmittedActive => "Programs admitted for execution"@,
            Instrument::ProgramQueueActive => "Programs waiting for execution"@,
            Instrument::ProgramQueueDuration => "Program execution queue duration"@,
            Instrument::ProgramExecutions => "Completed Rad programs"@,
            Instrument::ProgramDuration => "Rad program duration"@,
            Instrument::ProgramResultRows => "Rows returned by Rad programs"@,
            Instrument::ProgramAffectedRows => "Rows changed by Rad programs"@,
            Instrument::ProgramStatements => "Statements in a Rad program"@,
            Instrument::StatementExecutions => "Completed Rad statements"@,
            Instrument::StatementDuration => "Rad statement duration"@,
            Instrument::StatementRows => "Rows produced by Rad statements"@,
            Instrument::PlannerDuration => "Rad statement binding and planning duration"@,
            Instrument::OperatorDuration => "Rad physical operator duration"@,
            Instrument::OperatorRows => "Rows processed by Rad physical operators"@,
            Instrument::ExecutionParallelWidth => "Workers used by a parallel execution batch"@,
            Instrument::ExecutionParallelBatches => "Parallel execution batches"@,
            Instrument::ExecutionParallelRows => "Rows processed by parallel execution batches"@,
            Instrument::RelationCacheLookups => "Rad relation cache lookups"@,
            Instrument::RelationCacheAdmissions => "Rad relation cache admission results"@,
            Instrument::RelationCacheEvictions => "Rad relation cache removals"@,
            Instrument::RelationCacheEntries => "Rad relation cache entries"@,
            Instrument::RelationCacheRetainedBytes => "Rad relation cache retained bytes"@,
            Instrument::RelationCacheCapacityEntries => "Rad relation cache entry limit"@,
            Instrument::RelationCacheCapacityBytes => "Rad relation cache byte limit"@,
            Instrument::RelationCacheResultLimitBytes => "Rad relation cache individual result byte limit"@,
            Instrument::RelationCacheResultBytes => "Relation cache candidate result bytes"@,
            Instrument::RelationCacheDependencyLookups => "Relation cache dependency validation lookups"@,
            Instrument::RelationCacheDependencyEvictions => "Entries removed from snapshot dependency validation"@,
            Instrument::RelationCacheCatalogLookups => "Snapshot catalog metadata cache lookups"@,
            Instrument::RelationCacheCatalogEvictions => "Entries removed from the snapshot catalog metadata cache"@,
            Instrument::RelationCacheCatalogEntries => "Snapshot catalog metadata cache entries"@,
            Instrument::RelationCacheCatalogRetainedBytes => "Snapshot catalog metadata cache retained bytes"@,
            Instrument::RelationCachePreparedLookups => "Prepared read cache lookups"@,
            Instrument::RelationCachePreparedAdmissions => "Prepared read cache admission results"@,
            Instrument::RelationCachePreparedEvictions => "Entries removed from the prepared read cache"@,
            Instrument::RelationCachePreparedEntries => "Prepared read cache entries"@,
            Instrument::RelationCachePreparedRetainedBytes => "Prepared read cache retained bytes"@,
            Instrument::RelationCachePreparedCapacityEntries => "Prepared read cache entry limit"@,
            Instrument::RelationCachePreparedCapacityBytes => "Prepared read cache byte limit"@,
            Instrument::RelationCachePreparedPlanLimitBytes => "Prepared read cache individual plan byte limit"@,
            Instrument::RelationCachePreparedCandidateBytes => "Prepared read cache candidate bytes"@,
            Instrument::RelationCachePreparedAvoidedBinds => "Query binds avoided by the prepared read cache"@,
            Instrument::RelationCachePreparedAvoidedPlans => "Physical plans avoided by the prepared read cache"@,
            Instrument::RelationCacheAvoidedReads => "Logical reads avoided by the Rad relation cache"@,
            Instrument::RelationCacheAvoidedBytes => "Logical read bytes avoided by the Rad relation cache"@,
            Instrument::RelationCacheAvoidedTime => "Execution time avoided by the Rad relation cache"@,
            Instrument::RelationCacheCoalescedFills => "Rad relation cache fills shared by concurrent requests"@,
            Instrument::RelationCacheReuseOpportunities => "Requests after the first request for one exact dependency cohort"@,
            Instrument::RelationCacheCohortTransitions => "Observed relation cache dependency cohort transitions"@,
            Instrument::RelationCacheCohortReuse => "Reuse opportunities observed before a dependency cohort is superseded"@,
            Instrument::RelationCacheShadowDecisions => "Relation cache admission decisions from the inactive policy scorer"@,
            Instrument::RelationCacheShadowCandidateWork => "Deterministic work units for relation cache admission candidates"@,
            Instrument::RelationCacheShadowCandidateDensity => "Deterministic work units per retained candidate byte"@,
            Instrument::RelationCacheShadowRejectedReuse => "Reuse opportunities after the shadow policy rejects a candidate"@,
            Instrument::RelationCacheEvidenceEvictions => "Entries removed from bounded relation cache policy evidence"@,
            Instrument::KvOperations => "Rad logical KV operations"@,
            Instrument::KvBytes => "Rad logical KV bytes"@,
            Instrument::KvOperationDuration => "Rad logical KV operation duration"@,
            Instrument::KvScanRows => "Rows returned by Rad logical KV scans"@,
            Instrument::TransactionCompletions => "Completed Rad transactions"@,
            Instrument::TransactionDuration => "Rad transaction duration"@,
            Instrument::TransactionConflicts => "Rad transaction conflicts"@,
            Instrument::PostgresActive => "Active PostgreSQL connections"@,
            Instrument::PostgresConnections => "Completed PostgreSQL connections"@,
            Instrument::StorageAvailable => "Rad storage availability"@,
            Instrument::StorageOutages => "Rad storage outages"@,
            Instrument::StorageOutageDuration => "Rad storage outage duration"@,
            Instrument::StorageFencing => "Rad storage fencing events"@,
            Instrument::StorageCacheAccesses => "Rad statement storage cache accesses"@,
            Instrument::StorageCacheCapacity => "Configured Rad storage cache capacity"@,
            Instrument::StorageRequests => "Rad statement backing storage requests"@,
            Instrument::StorageRequestDuration => "Rad statement backing storage request duration"@,
            Instrument::StorageRequestBytes => "Rad statement backing storage bytes"@,
            Instrument::SchedulerJobs => "Rad scheduler job batches"@,
            Instrument::SchedulerQuarantined => "Rad scheduler quarantined jobs"@,
            Instrument::SchedulerLostWorkers => "Rad scheduler lost workers"@,
        }
    }

    /// The position of an instrument among all.
    pub open spec fn position(self) -> int {
        match self {
            Instrument::ProcessCpuTime => 0,
            Instrument::ProcessCpuLimit => 1,
            Instrument::ProcessCpuThrottledTime => 2,
            Instrument::ProcessCpuThrottledEvents => 3,
            Instrument::ProcessMemoryRss => 4,
            Instrument::ProcessMemoryLimit => 5,
            Instrument::HttpActive => 6,
            Instrument::HttpRequests => 7,
            Instrument::HttpDuration => 8,
            Instrument::ProgramActive => 9,
            Instrument::ProgramAdmittedActive => 10,
            Instrument::ProgramQueueActive => 11,
            Instrument::ProgramQueueDuration => 12,
            Instrument::ProgramExecutions => 13,
            Instrument::ProgramDuration => 14,
            Instrument::ProgramResultRows => 15,
            Instrument::ProgramAffectedRows => 16,
            Instrument::ProgramStatements => 17,
            Instrument::StatementExecutions => 18,
            Instrument::StatementDuration => 19,
            Instrument::StatementRows => 20,
            Instrument::PlannerDuration => 21,
            Instrument::OperatorDuration => 22,
            Instrument::OperatorRows => 23,
            Instrument::ExecutionParallelWidth => 24,
            Instrument::ExecutionParallelBatches => 25,
            Instrument::ExecutionParallelRows => 26,
            Instrument::RelationCacheLookups => 27,
            Instrument::RelationCacheAdmissions => 28,
            Instrument::RelationCacheEvictions => 29,
            Instrument::RelationCacheEntries => 30,
            Instrument::RelationCacheRetainedBytes => 31,
            Instrument::RelationCacheCapacityEntries => 32,
            Instrument::RelationCacheCapacityBytes => 33,
            Instrument::RelationCacheResultLimitBytes => 34,
            Instrument::RelationCacheResultBytes => 35,
            Instrument::RelationCacheDependencyLookups => 36,
            Instrument::RelationCacheDependencyEvictions => 37,
            Instrument::RelationCacheCatalogLookups => 38,
            Instrument::RelationCacheCatalogEvictions => 39,
            Instrument::RelationCacheCatalogEntries => 40,
            Instrument::RelationCacheCatalogRetainedBytes => 41,
            Instrument::RelationCachePreparedLookups => 42,
            Instrument::RelationCachePreparedAdmissions => 43,
            Instrument::RelationCachePreparedEvictions => 44,
            Instrument::RelationCachePreparedEntries => 45,
            Instrument::RelationCachePreparedRetainedBytes => 46,
            Instrument::RelationCachePreparedCapacityEntries => 47,
            Instrument::RelationCachePreparedCapacityBytes => 48,
            Instrument::RelationCachePreparedPlanLimitBytes => 49,
            Instrument::RelationCachePreparedCandidateBytes => 50,
            Instrument::RelationCachePreparedAvoidedBinds => 51,
            Instrument::RelationCachePreparedAvoidedPlans => 52,
            Instrument::RelationCacheAvoidedReads => 53,
            Instrument::RelationCacheAvoidedBytes => 54,
            Instrument::RelationCacheAvoidedTime => 55,
            Instrument::RelationCacheCoalescedFills => 56,
            Instrument::RelationCacheReuseOpportunities => 57,
            Instrument::RelationCacheCohortTransitions => 58,
            Instrument::RelationCacheCohortReuse => 59,
            Instrument::RelationCacheShadowDecisions => 60,
            Instrument::RelationCacheShadowCandidateWork => 61,
            Instrument::RelationCacheShadowCandidateDensity => 62,
            Instrument::RelationCacheShadowRejectedReuse => 63,
            Instrument::RelationCacheEvidenceEvictions => 64,
            Instrument::KvOperations => 65,
            Instrument::KvBytes => 66,
            Instrument::KvOperationDuration => 67,
            Instrument::KvScanRows => 68,
            Instrument::TransactionCompletions => 69,
            Instrument::TransactionDuration => 70,
            Instrument::TransactionConflicts => 71,
            Instrument::PostgresActive => 72,
            Instrument::PostgresConnections => 73,
            Instrument::StorageAvailable => 74,
            Instrument::StorageOutages => 75,
            Instrument::StorageOutageDuration => 76,
            Instrument::StorageFencing => 77,
            Instrument::StorageCacheAccesses => 78,
            Instrument::StorageCacheCapacity => 79,
            Instrument::StorageRequests => 80,
            Instrument::StorageRequestDuration => 81,
            Instrument::StorageRequestBytes => 82,
            Instrument::SchedulerJobs => 83,
            Instrument::SchedulerQuarantined => 84,
            Instrument::SchedulerLostWorkers => 85,
        }
    }

    /// How an instrument is defined.
    pub fn definition(self) -> (definition: Definition)
        ensures
            definition@ == (DefinitionView {
                name: self.spec_name(),
                kind: self.spec_kind(),
                numbers: self.spec_numbers(),
                unit: self.spec_unit(),
                description: self.spec_description(),
            }),
    {
        match self {
            Instrument::ProcessCpuTime => Definition {
                name: "rad.process.cpu.time",
                kind: InstrumentKind::ObservedCounter,
                numbers: NumberKind::Real,
                unit: Some("s"),
                description: "Rad process CPU time",
            },
            Instrument::ProcessCpuLimit => Definition {
                name: "rad.process.cpu.limit",
                kind: InstrumentKind::ObservedGauge,
                numbers: NumberKind::Real,
                unit: Some("{cpu}"),
                description: "Rad process CPU limit",
            },
            Instrument::ProcessCpuThrottledTime => Definition {
                name: "rad.process.cpu.throttled.duration",
                kind: InstrumentKind::ObservedCounter,
                numbers: NumberKind::Real,
                unit: Some("s"),
                description: "Rad process CPU throttled duration",
            },
            Instrument::ProcessCpuThrottledEvents => Definition {
                name: "rad.process.cpu.throttled.events",
                kind: InstrumentKind::ObservedCounter,
                numbers: NumberKind::Unsigned,
                unit: None,
                description: "Rad process CPU throttled events",
            },
            Instrument::ProcessMemoryRss => Definition {
                name: "rad.process.memory.rss",
                kind: InstrumentKind::ObservedGauge,
                numbers: NumberKind::Unsigned,
                unit: Some("By"),
                description: "Rad process resident memory",
            },
            Instrument::ProcessMemoryLimit => Definition {
                name: "rad.process.memory.limit",
                kind: InstrumentKind::ObservedGauge,
                numbers: NumberKind::Unsigned,
                unit: Some("By"),
                description: "Rad process memory limit",
            },
            Instrument::HttpActive => Definition {
                name: "http.server.active_requests",
                kind: InstrumentKind::UpDownCounter,
                numbers: NumberKind::Signed,
                unit: None,
                description: "Active Rad HTTP requests",
            },
            Instrument::HttpRequests => Definition {
                name: "http.server.requests",
                kind: InstrumentKind::Counter,
                numbers: NumberKind::Unsigned,
                unit: None,
                description: "Completed Rad HTTP requests",
            },
            Instrument::HttpDuration => Definition {
                name: "http.server.request.duration",
                kind: InstrumentKind::Histogram,
                numbers: NumberKind::Real,
                unit: Some("s"),
                description: "Rad HTTP request duration",
            },
            Instrument::ProgramActive => Definition {
                name: "rad.program.active",
                kind: InstrumentKind::UpDownCounter,
                numbers: NumberKind::Signed,
                unit: None,
                description: "Active Rad programs",
            },
            Instrument::ProgramAdmittedActive => Definition {
                name: "rad.program.admitted.active",
                kind: InstrumentKind::UpDownCounter,
                numbers: NumberKind::Signed,
                unit: None,
                description: "Programs admitted for execution",
            },
            Instrument::ProgramQueueActive => Definition {
                name: "rad.program.queue.active",
                kind: InstrumentKind::UpDownCounter,
                numbers: NumberKind::Signed,
                unit: None,
                description: "Programs waiting for execution",
            },
            Instrument::ProgramQueueDuration => Definition {
                name: "rad.program.queue.duration",
                kind: InstrumentKind::Histogram,
                numbers: NumberKind::Real,
                unit: Some("s"),
                description: "Program execution queue duration",
            },
            Instrument::ProgramExecutions => Definition {
                name: "rad.program.executions",
                kind: InstrumentKind::Counter,
                numbers: NumberKind::Unsigned,
                unit: None,
                description: "Completed Rad programs",
            },
            Instrument::ProgramDuration => Definition {
                name: "rad.program.duration",
                kind: InstrumentKind::Histogram,
                numbers: NumberKind::Real,
                unit: Some("s"),
                description: "Rad program duration",
            },
            Instrument::ProgramResultRows => Definition {
                name: "rad.program.result.rows",
                kind: InstrumentKind::Histogram,
                numbers: NumberKind::Unsigned,
                unit: None,
                description: "Rows returned by Rad programs",
            },
            Instrument::ProgramAffectedRows => Definition {
                name: "rad.program.affected.rows",
                kind: InstrumentKind::Histogram,
                numbers: NumberKind::Unsigned,
                unit: None,
                description: "Rows changed by Rad programs",
            },
            Instrument::ProgramStatements => Definition {
                name: "rad.program.statements",
                kind: InstrumentKind::Histogram,
                numbers: NumberKind::Unsigned,
                unit: None,
                description: "Statements in a Rad program",
            },
            Instrument::StatementExecutions => Definition {
                name: "rad.statement.executions",
                kind: InstrumentKind::Counter,
                numbers: NumberKind::Unsigned,
                unit: None,
                description: "Completed Rad statements",
            },
            Instrument::StatementDuration => Definition {
                name: "rad.statement.duration",
                kind: InstrumentKind::Histogram,
                numbers: NumberKind::Real,
                unit: Some("s"),
                description: "Rad statement duration",
            },
            Instrument::StatementRows => Definition {
                name: "rad.statement.rows",
                kind: InstrumentKind::Counter,
                numbers: NumberKind::Unsigned,
                unit: None,
                description: "Rows produced by Rad statements",
            },
            Instrument::PlannerDuration => Definition {
                name: "rad.planner.duration",
                kind: InstrumentKind::Histogram,
                numbers: NumberKind::Real,
                unit: Some("s"),
                description: "Rad statement binding and planning duration",
            },
            Instrument::OperatorDuration => Definition {
                name: "rad.operator.duration",
                kind: InstrumentKind::Histogram,
                numbers: NumberKind::Real,
                unit: Some("s"),
                description: "Rad physical operator duration",
            },
            Instrument::OperatorRows => Definition {
                name: "rad.operator.rows",
                kind: InstrumentKind::Histogram,
                numbers: NumberKind::Unsigned,
                unit: None,
                description: "Rows processed by Rad physical operators",
            },
            Instrument::ExecutionParallelWidth => Definition {
                name: "rad.execution.parallel.width",
                kind: InstrumentKind::Histogram,
                numbers: NumberKind::Unsigned,
                unit: None,
                description: "Workers used by a parallel execution batch",
            },
            Instrument::ExecutionParallelBatches => Definition {
                name: "rad.execution.parallel.batches",
                kind: InstrumentKind::Counter,
                numbers: NumberKind::Unsigned,
                unit: None,
                description: "Parallel execution batches",
            },
            Instrument::ExecutionParallelRows => Definition {
                name: "rad.execution.parallel.rows",
                kind: InstrumentKind::Counter,
                numbers: NumberKind::Unsigned,
                unit: None,
                description: "Rows processed by parallel execution batches",
            },
            Instrument::RelationCacheLookups => Definition {
                name: "rad.relation.cache.lookups",
                kind: InstrumentKind::Counter,
                numbers: NumberKind::Unsigned,
                unit: None,
                description: "Rad relation cache lookups",
            },
            Instrument::RelationCacheAdmissions => Definition {
                name: "rad.relation.cache.admissions",
                kind: InstrumentKind::Counter,
                numbers: NumberKind::Unsigned,
                unit: None,
                description: "Rad relation cache admission results",
            },
            Instrument::RelationCacheEvictions => Definition {
                name: "rad.relation.cache.evictions",
                kind: InstrumentKind::Counter,
                numbers: NumberKind::Unsigned,
                unit: None,
                description: "Rad relation cache removals",
            },
            Instrument::RelationCacheEntries => Definition {
                name: "rad.relation.cache.entries",
                kind: InstrumentKind::Gauge,
                numbers: NumberKind::Unsigned,
                unit: None,
                description: "Rad relation cache entries",
            },
            Instrument::RelationCacheRetainedBytes => Definition {
                name: "rad.relation.cache.retained.bytes",
                kind: InstrumentKind::Gauge,
                numbers: NumberKind::Unsigned,
                unit: Some("By"),
                description: "Rad relation cache retained bytes",
            },
            Instrument::RelationCacheCapacityEntries => Definition {
                name: "rad.relation.cache.capacity.entries",
                kind: InstrumentKind::Gauge,
                numbers: NumberKind::Unsigned,
                unit: None,
                description: "Rad relation cache entry limit",
            },
            Instrument::RelationCacheCapacityBytes => Definition {
                name: "rad.relation.cache.capacity.bytes",
                kind: InstrumentKind::Gauge,
                numbers: NumberKind::Unsigned,
                unit: Some("By"),
                description: "Rad relation cache byte limit",
            },
            Instrument::RelationCacheResultLimitBytes => Definition {
                name: "rad.relation.cache.result.limit.bytes",
                kind: InstrumentKind::Gauge,
                numbers: NumberKind::Unsigned,
                unit: Some("By"),
                description: "Rad relation cache individual result byte limit",
            },
            Instrument::RelationCacheResultBytes => Definition {
                name: "rad.relation.cache.result.bytes",
                kind: InstrumentKind::Histogram,
                numbers: NumberKind::Unsigned,
                unit: Some("By"),
                description: "Relation cache candidate result bytes",
            },
            Instrument::RelationCacheDependencyLookups => Definition {
                name: "rad.relation.cache.dependency.lookups",
                kind: InstrumentKind::Counter,
                numbers: NumberKind::Unsigned,
                unit: None,
                description: "Relation cache dependency validation lookups",
            },
            Instrument::RelationCacheDependencyEvictions => Definition {
                name: "rad.relation.cache.dependency.evictions",
                kind: InstrumentKind::Counter,
                numbers: NumberKind::Unsigned,
                unit: None,
                description: "Entries removed from snapshot dependency validation",
            },
            Instrument::RelationCacheCatalogLookups => Definition {
                name: "rad.relation.cache.catalog.lookups",
                kind: InstrumentKind::Counter,
                numbers: NumberKind::Unsigned,
                unit: None,
                description: "Snapshot catalog metadata cache lookups",
            },
            Instrument::RelationCacheCatalogEvictions => Definition {
                name: "rad.relation.cache.catalog.evictions",
                kind: InstrumentKind::Counter,
                numbers: NumberKind::Unsigned,
                unit: None,
                description: "Entries removed from the snapshot catalog metadata cache",
            },
            Instrument::RelationCacheCatalogEntries => Definition {
                name: "rad.relation.cache.catalog.entries",
                kind: InstrumentKind::Gauge,
                numbers: NumberKind::Unsigned,
                unit: None,
                description: "Snapshot catalog metadata cache entries",
            },
            Instrument::RelationCacheCatalogRetainedBytes => Definition {
                name: "rad.relation.cache.catalog.retained.bytes",
                kind: InstrumentKind::Gauge,
                numbers: NumberKind::Unsigned,
                unit: Some("By"),
                description: "Snapshot catalog metadata cache retained bytes",
            },
            Instrument::RelationCachePreparedLookups => Definition {
                name: "rad.relation.cache.prepared.lookups",
                kind: InstrumentKind::Counter,
                numbers: NumberKind::Unsigned,
                unit: None,
                description: "Prepared read cache lookups",
            },
            Instrument::RelationCachePreparedAdmissions => Definition {
                name: "rad.relation.cache.prepared.admissions",
                kind: InstrumentKind::Counter,
                numbers: NumberKind::Unsigned,
                unit: None,
                description: "Prepared read cache admission results",
            },
            Instrument::RelationCachePreparedEvictions => Definition {
                name: "rad.relation.cache.prepared.evictions",
                kind: InstrumentKind::Counter,
                numbers: NumberKind::Unsigned,
                unit: None,
                description: "Entries removed from the prepared read cache",
            },
            Instrument::RelationCachePreparedEntries => Definition {
                name: "rad.relation.cache.prepared.entries",
                kind: InstrumentKind::Gauge,
                numbers: NumberKind::Unsigned,
                unit: None,
                description: "Prepared read cache entries",
            },
            Instrument::RelationCachePreparedRetainedBytes => Definition {
                name: "rad.relation.cache.prepared.retained.bytes",
                kind: InstrumentKind::Gauge,
                numbers: NumberKind::Unsigned,
                unit: Some("By"),
                description: "Prepared read cache retained bytes",
            },
            Instrument::RelationCachePreparedCapacityEntries => Definition {
                name: "rad.relation.cache.prepared.capacity.entries",
                kind: InstrumentKind::Gauge,
                numbers: NumberKind::Unsigned,
                unit: None,
                description: "Prepared read cache entry limit",
            },
            Instrument::RelationCachePreparedCapacityBytes => Definition {
                name: "rad.relation.cache.prepared.capacity.bytes",
                kind: InstrumentKind::Gauge,
                numbers: NumberKind::Unsigned,
                unit: Some("By"),
                description: "Prepared read cache byte limit",
            },
            Instrument::RelationCachePreparedPlanLimitBytes => Definition {
                name: "rad.relation.cache.prepared.plan.limit.bytes",
                kind: InstrumentKind::Gauge,
                numbers: NumberKind::Unsigned,
                unit: Some("By"),
                description: "Prepared read cache individual plan byte limit",
            },
            Instrument::RelationCachePreparedCandidateBytes => Definition {
                name: "rad.relation.cache.prepared.candidate.bytes",
                kind: InstrumentKind::Histogram,
                numbers: NumberKind::Unsigned,
                unit: Some("By"),
                description: "Prepared read cache candidate bytes",
            },
            Instrument::RelationCachePreparedAvoidedBinds => Definition {
                name: "rad.relation.cache.prepared.avoided.binds",
                kind: InstrumentKind::Counter,
                numbers: NumberKind::Unsigned,
                unit: None,
                description: "Query binds avoided by the prepared read cache",
            },
            Instrument::RelationCachePreparedAvoidedPlans => Definition {
                name: "rad.relation.cache.prepared.avoided.plans",
                kind: InstrumentKind::Counter,
                numbers: NumberKind::Unsigned,
                unit: None,
                description: "Physical plans avoided by the prepared read cache",
            },
            Instrument::RelationCacheAvoidedReads => Definition {
                name: "rad.relation.cache.avoided.reads",
                kind: InstrumentKind::Counter,
                numbers: NumberKind::Unsigned,
                unit: None,
                description: "Logical reads avoided by the Rad relation cache",
            },
            Instrument::RelationCacheAvoidedBytes => Definition {
                name: "rad.relation.cache.avoided.bytes",
                kind: InstrumentKind::Counter,
                numbers: NumberKind::Unsigned,
                unit: Some("By"),
                description: "Logical read bytes avoided by the Rad relation cache",
            },
            Instrument::RelationCacheAvoidedTime => Definition {
                name: "rad.relation.cache.avoided.time",
                kind: InstrumentKind::Counter,
                numbers: NumberKind::Real,
                unit: Some("s"),
                description: "Execution time avoided by the Rad relation cache",
            },
            Instrument::RelationCacheCoalescedFills => Definition {
                name: "rad.relation.cache.coalesced.fills",
                kind: InstrumentKind::Counter,
                numbers: NumberKind::Unsigned,
                unit: None,
                description: "Rad relation cache fills shared by concurrent requests",
            },
            Instrument::RelationCacheReuseOpportunities => Definition {
                name: "rad.relation.cache.reuse.opportunities",
                kind: InstrumentKind::Counter,
                numbers: NumberKind::Unsigned,
                unit: None,
                description: "Requests after the first request for one exact dependency cohort",
            },
            Instrument::RelationCacheCohortTransitions => Definition {
                name: "rad.relation.cache.cohort.transitions",
                kind: InstrumentKind::Counter,
                numbers: NumberKind::Unsigned,
                unit: None,
                description: "Observed relation cache dependency cohort transitions",
            },
            Instrument::RelationCacheCohortReuse => Definition {
                name: "rad.relation.cache.cohort.reuse.opportunities",
                kind: InstrumentKind::Histogram,
                numbers: NumberKind::Unsigned,
                unit: None,
                description: "Reuse opportunities observed before a dependency cohort is superseded",
            },
            Instrument::RelationCacheShadowDecisions => Definition {
                name: "rad.relation.cache.shadow.decisions",
                kind: InstrumentKind::Counter,
                numbers: NumberKind::Unsigned,
                unit: None,
                description: "Relation cache admission decisions from the inactive policy scorer",
            },
            Instrument::RelationCacheShadowCandidateWork => Definition {
                name: "rad.relation.cache.shadow.candidate.work",
                kind: InstrumentKind::Histogram,
                numbers: NumberKind::Unsigned,
                unit: None,
                description: "Deterministic work units for relation cache admission candidates",
            },
            Instrument::RelationCacheShadowCandidateDensity => Definition {
                name: "rad.relation.cache.shadow.candidate.density",
                kind: InstrumentKind::Histogram,
                numbers: NumberKind::Real,
                unit: None,
                description: "Deterministic work units per retained candidate byte",
            },
            Instrument::RelationCacheShadowRejectedReuse => Definition {
                name: "rad.relation.cache.shadow.rejected.reuse",
                kind: InstrumentKind::Counter,
                numbers: NumberKind::Unsigned,
                unit: None,
                description: "Reuse opportunities after the shadow policy rejects a candidate",
            },
            Instrument::RelationCacheEvidenceEvictions => Definition {
                name: "rad.relation.cache.evidence.evictions",
                kind: InstrumentKind::Counter,
                numbers: NumberKind::Unsigned,
                unit: None,
                description: "Entries removed from bounded relation cache policy evidence",
            },
            Instrument::KvOperations => Definition {
                name: "rad.kv.operations",
                kind: InstrumentKind::Counter,
                numbers: NumberKind::Unsigned,
                unit: None,
                description: "Rad logical KV operations",
            },
            Instrument::KvBytes => Definition {
                name: "rad.kv.io.bytes",
                kind: InstrumentKind::Counter,
                numbers: NumberKind::Unsigned,
                unit: None,
                description: "Rad logical KV bytes",
            },
            Instrument::KvOperationDuration => Definition {
                name: "rad.kv.operation.duration",
                kind: InstrumentKind::Histogram,
                numbers: NumberKind::Real,
                unit: Some("s"),
                description: "Rad logical KV operation duration",
            },
            Instrument::KvScanRows => Definition {
                name: "rad.kv.scan.rows",
                kind: InstrumentKind::Histogram,
                numbers: NumberKind::Unsigned,
                unit: None,
                description: "Rows returned by Rad logical KV scans",
            },
            Instrument::TransactionCompletions => Definition {
                name: "rad.transaction.completions",
                kind: InstrumentKind::Counter,
                numbers: NumberKind::Unsigned,
                unit: None,
                description: "Completed Rad transactions",
            },
            Instrument::TransactionDuration => Definition {
                name: "rad.transaction.duration",
                kind: InstrumentKind::Histogram,
                numbers: NumberKind::Real,
                unit: Some("s"),
                description: "Rad transaction duration",
            },
            Instrument::TransactionConflicts => Definition {
                name: "rad.transaction.conflicts",
                kind: InstrumentKind::Counter,
                numbers: NumberKind::Unsigned,
                unit: None,
                description: "Rad transaction conflicts",
            },
            Instrument::PostgresActive => Definition {
                name: "rad.postgresql.connections.active",
                kind: InstrumentKind::UpDownCounter,
                numbers: NumberKind::Signed,
                unit: None,
                description: "Active PostgreSQL connections",
            },
            Instrument::PostgresConnections => Definition {
                name: "rad.postgresql.connections",
                kind: InstrumentKind::Counter,
                numbers: NumberKind::Unsigned,
                unit: None,
                description: "Completed PostgreSQL connections",
            },
            Instrument::StorageAvailable => Definition {
                name: "rad.storage.available",
                kind: InstrumentKind::Gauge,
                numbers: NumberKind::Signed,
                unit: None,
                description: "Rad storage availability",
            },
            Instrument::StorageOutages => Definition {
                name: "rad.storage.outages",
                kind: InstrumentKind::Counter,
                numbers: NumberKind::Unsigned,
                unit: None,
                description: "Rad storage outages",
            },
            Instrument::StorageOutageDuration => Definition {
                name: "rad.storage.outage.duration",
                kind: InstrumentKind::Histogram,
                numbers: NumberKind::Real,
                unit: Some("s"),
                description: "Rad storage outage duration",
            },
            Instrument::StorageFencing => Definition {
                name: "rad.storage.fencing",
                kind: InstrumentKind::Counter,
                numbers: NumberKind::Unsigned,
                unit: None,
                description: "Rad storage fencing events",
            },
            Instrument::StorageCacheAccesses => Definition {
                name: "rad.storage.cache.accesses",
                kind: InstrumentKind::Counter,
                numbers: NumberKind::Unsigned,
                unit: None,
                description: "Rad statement storage cache accesses",
            },
            Instrument::StorageCacheCapacity => Definition {
                name: "rad.storage.cache.capacity.bytes",
                kind: InstrumentKind::Gauge,
                numbers: NumberKind::Signed,
                unit: None,
                description: "Configured Rad storage cache capacity",
            },
            Instrument::StorageRequests => Definition {
                name: "rad.storage.requests",
                kind: InstrumentKind::Counter,
                numbers: NumberKind::Unsigned,
                unit: None,
                description: "Rad statement backing storage requests",
            },
            Instrument::StorageRequestDuration => Definition {
                name: "rad.storage.request.duration",
                kind: InstrumentKind::Histogram,
                numbers: NumberKind::Real,
                unit: Some("s"),
                description: "Rad statement backing storage request duration",
            },
            Instrument::StorageRequestBytes => Definition {
                name: "rad.storage.request.bytes",
                kind: InstrumentKind::Counter,
                numbers: NumberKind::Unsigned,
                unit: None,
                description: "Rad statement backing storage bytes",
            },
            Instrument::SchedulerJobs => Definition {
                name: "rad.scheduler.jobs",
                kind: InstrumentKind::Counter,
                numbers: NumberKind::Unsigned,
                unit: None,
                description: "Rad scheduler job batches",
            },
            Instrument::SchedulerQuarantined => Definition {
                name: "rad.scheduler.quarantined",
                kind: InstrumentKind::Counter,
                numbers: NumberKind::Unsigned,
                unit: None,
                description: "Rad scheduler quarantined jobs",
            },
            Instrument::SchedulerLostWorkers => Definition {
                name: "rad.scheduler.lost_workers",
                kind: InstrumentKind::Counter,
                numbers: NumberKind::Unsigned,
                unit: None,
                description: "Rad scheduler lost workers",
            },
        }
    }

    /// All instruments, each once.
    pub fn all() -> (instruments: Vec<Instrument>)
        ensures
            instruments.len() == INSTRUMENT_COUNT,
            forall|instrument: Instrument|
                0 <= #[trigger] instrument.position() < INSTRUMENT_COUNT
                    && instruments@[instrument.position()] == instrument,
    {
        vec![
            Instrument::ProcessCpuTime,
            Instrument::ProcessCpuLimit,
            Instrument::ProcessCpuThrottledTime,
            Instrument::ProcessCpuThrottledEvents,
            Instrument::ProcessMemoryRss,
            Instrument::ProcessMemoryLimit,
            Instrument::HttpActive,
            Instrument::HttpRequests,
            Instrument::HttpDuration,
            Instrument::ProgramActive,
            Instrument::ProgramAdmittedActive,
            Instrument::ProgramQueueActive,
            Instrument::ProgramQueueDuration,
            Instrument::ProgramExecutions,
            Instrument::ProgramDuration,
            Instrument::ProgramResultRows,
            Instrument::ProgramAffectedRows,
            Instrument::ProgramStatements,
            Instrument::StatementExecutions,
            Instrument::StatementDuration,
            Instrument::StatementRows,
            Instrument::PlannerDuration,
            Instrument::OperatorDuration,
            Instrument::OperatorRows,
            Instrument::ExecutionParallelWidth,
            Instrument::ExecutionParallelBatches,
            Instrument::ExecutionParallelRows,
            Instrument::RelationCacheLookups,
            Instrument::RelationCacheAdmissions,
            Instrument::RelationCacheEvictions,
            Instrument::RelationCacheEntries,
            Instrument::RelationCacheRetainedBytes,
            Instrument::RelationCacheCapacityEntries,
            Instrument::RelationCacheCapacityBytes,
            Instrument::RelationCacheResultLimitBytes,
            Instrument::RelationCacheResultBytes,
            Instrument::RelationCacheDependencyLookups,
            Instrument::RelationCacheDependencyEvictions,
            Instrument::RelationCacheCatalogLookups,
            Instrument::RelationCacheCatalogEvictions,
            Instrument::RelationCacheCatalogEntries,
            Instrument::RelationCacheCatalogRetainedBytes,
            Instrument::RelationCachePreparedLookups,
            Instrument::RelationCachePreparedAdmissions,
            Instrument::RelationCachePreparedEvictions,
            Instrument::RelationCachePreparedEntries,
            Instrument::RelationCachePreparedRetainedBytes,
            Instrument::RelationCachePreparedCapacityEntries,
            Instrument::RelationCachePreparedCapacityBytes,
            Instrument::RelationCachePreparedPlanLimitBytes,
            Instrument::RelationCachePreparedCandidateBytes,
            Instrument::RelationCachePreparedAvoidedBinds,
            Instrument::RelationCachePreparedAvoidedPlans,
            Instrument::RelationCacheAvoidedReads,
            Instrument::RelationCacheAvoidedBytes,
            Instrument::RelationCacheAvoidedTime,
            Instrument::RelationCacheCoalescedFills,
            Instrument::RelationCacheReuseOpportunities,
            Instrument::RelationCacheCohortTransitions,
            Instrument::RelationCacheCohortReuse,
            Instrument::RelationCacheShadowDecisions,
            Instrument::RelationCacheShadowCandidateWork,
            Instrument::RelationCacheShadowCandidateDensity,
            Instrument::RelationCacheShadowRejectedReuse,
            Instrument::RelationCacheEvidenceEvictions,
            Instrument::KvOperations,
            Instrument::KvBytes,
            Instrument::KvOperationDuration,
            Instrument::KvScanRows,
            Instrument::TransactionCompletions,
            Instrument::TransactionDuration,
            Instrument::TransactionConflicts,
            Instrument::PostgresActive,
            Instrument::PostgresConnections,
            Instrument::StorageAvailable,
            Instrument::StorageOutages,
            Instrument::StorageOutageDuration,
            Instrument::StorageFencing,
            Instrument::StorageCacheAccesses,
            Instrument::StorageCacheCapacity,
            Instrument::StorageRequests,
            Instrument::StorageRequestDuration,
            Instrument::StorageRequestBytes,
            Instrument::SchedulerJobs,
            Instrument::SchedulerQuarantined,
            Instrument::SchedulerLostWorkers,
        ]
    }
}

/// Every instrument is one that the metric view takes: its name starts with
/// the prefix of the process or of its HTTP server.
pub proof fn names_are_viewed(instrument: Instrument)
    ensures
        text::begins(instrument.spec_name(), "rad."@) || text::begins(
            instrument.spec_name(),
            "http.server."@,
        ),
{
    reveal_strlit("rad.");
    reveal_strlit("http.server.");
    match instrument {
        Instrument::ProcessCpuTime => {
            reveal_strlit("rad.process.cpu.time");
            assert("rad.process.cpu.time"@.subrange(0, 4) =~= "rad."@);
        },
        Instrument::ProcessCpuLimit => {
            reveal_strlit("rad.process.cpu.limit");
            assert("rad.process.cpu.limit"@.subrange(0, 4) =~= "rad."@);
        },
        Instrument::ProcessCpuThrottledTime => {
            reveal_strlit("rad.process.cpu.throttled.duration");
            assert("rad.process.cpu.throttled.duration"@.subrange(0, 4) =~= "rad."@);
        },
        Instrument::ProcessCpuThrottledEvents => {
            reveal_strlit("rad.process.cpu.throttled.events");
            assert("rad.process.cpu.throttled.events"@.subrange(0, 4) =~= "rad."@);
        },
        Instrument::ProcessMemoryRss => {
            reveal_strlit("rad.process.memory.rss");
            assert("rad.process.memory.rss"@.subrange(0, 4) =~= "rad."@);
        },
        Instrument::ProcessMemoryLimit => {
            reveal_strlit("rad.process.memory.limit");
            assert("rad.process.memory.limit"@.subrange(0, 4) =~= "rad."@);
        },
        Instrument::HttpActive => {
            reveal_strlit("http.server.active_requests");
            assert("http.server.active_requests"@.subrange(0, 12) =~= "http.server."@);
        },
        Instrument::HttpRequests => {
            reveal_strlit("http.server.requests");
            assert("http.server.requests"@.subrange(0, 12) =~= "http.server."@);
        },
        Instrument::HttpDuration => {
            reveal_strlit("http.server.request.duration");
            assert("http.server.request.duration"@.subrange(0, 12) =~= "http.server."@);
        },
        Instrument::ProgramActive => {
            reveal_strlit("rad.program.active");
            assert("rad.program.active"@.subrange(0, 4) =~= "rad."@);
        },
        Instrument::ProgramAdmittedActive => {
            reveal_strlit("rad.program.admitted.active");
            assert("rad.program.admitted.active"@.subrange(0, 4) =~= "rad."@);
        },
        Instrument::ProgramQueueActive => {
            reveal_strlit("rad.program.queue.active");
            assert("rad.program.queue.active"@.subrange(0, 4) =~= "rad."@);
        },
        Instrument::ProgramQueueDuration => {
            reveal_strlit("rad.program.queue.duration");
            assert("rad.program.queue.duration"@.subrange(0, 4) =~= "rad."@);
        },
        Instrument::ProgramExecutions => {
            reveal_strlit("rad.program.executions");
            assert("rad.program.executions"@.subrange(0, 4) =~= "rad."@);
        },
        Instrument::ProgramDuration => {
            reveal_strlit("rad.program.duration");
            assert("rad.program.duration"@.subrange(0, 4) =~= "rad."@);
        },
        Instrument::ProgramResultRows => {
            reveal_strlit("rad.program.result.rows");
            assert("rad.program.result.rows"@.subrange(0, 4) =~= "rad."@);
        },
        Instrument::ProgramAffectedRows => {
            reveal_strlit("rad.program.affected.rows");
            assert("rad.program.affected.rows"@.subrange(0, 4) =~= "rad."@);
        },
        Instrument::ProgramStatements => {
            reveal_strlit("rad.program.statements");
            assert("rad.program.statements"@.subrange(0, 4) =~= "rad."@);
        },
        Instrument::StatementExecutions => {
            reveal_strlit("rad.statement.executions");
            assert("rad.statement.executions"@.subrange(0, 4) =~= "rad."@);
        },
        Instrument::StatementDuration => {
            reveal_strlit("rad.statement.duration");
            assert("rad.statement.duration"@.subrange(0, 4) =~= "rad."@);
        },
        Instrument::StatementRows => {
            reveal_strlit("rad.statement.rows");
            assert("rad.statement.rows"@.subrange(0, 4) =~= "rad."@);
        },
        Instrument::PlannerDuration => {
            reveal_strlit("rad.planner.duration");
            assert("rad.planner.duration"@.subrange(0, 4) =~= "rad."@);
        },
        Instrument::OperatorDuration => {
            reveal_strlit("rad.operator.duration");
            assert("rad.operator.duration"@.subrange(0, 4) =~= "rad."@);
        },
        Instrument::OperatorRows => {
            reveal_strlit("rad.operator.rows");
            assert("rad.operator.rows"@.subrange(0, 4) =~= "rad."@);
        },
        Instrument::ExecutionParallelWidth => {
            reveal_strlit("rad.execution.parallel.width");
            assert("rad.execution.parallel.width"@.subrange(0, 4) =~= "rad."@);
        },
        Instrument::ExecutionParallelBatches => {
            reveal_strlit("rad.execution.parallel.batches");
            assert("rad.execution.parallel.batches"@.subrange(0, 4) =~= "rad."@);
        },
        Instrument::ExecutionParallelRows => {
            reveal_strlit("rad.execution.parallel.rows");
            assert("rad.execution.parallel.rows"@.subrange(0, 4) =~= "rad."@);
        },
        Instrument::RelationCacheLookups => {
            reveal_strlit("rad.relation.cache.lookups");
            assert("rad.relation.cache.lookups"@.subrange(0, 4) =~= "rad."@);
        },
        Instrument::RelationCacheAdmissions => {
            reveal_strlit("rad.relation.cache.admissions");
            assert("rad.relation.cache.admissions"@.subrange(0, 4) =~= "rad."@);
        },
        Instrument::RelationCacheEvictions => {
            reveal_strlit("rad.relation.cache.evictions");
            assert("rad.relation.cache.evictions"@.subrange(0, 4) =~= "rad."@);
        },
        Instrument::RelationCacheEntries => {
            reveal_strlit("rad.relation.cache.entries");
            assert("rad.relation.cache.entries"@.subrange(0, 4) =~= "rad."@);
        },
        Instrument::RelationCacheRetainedBytes => {
            reveal_strlit("rad.relation.cache.retained.bytes");
            assert("rad.relation.cache.retained.bytes"@.subrange(0, 4) =~= "rad."@);
        },
        Instrument::RelationCacheCapacityEntries => {
            reveal_strlit("rad.relation.cache.capacity.entries");
            assert("rad.relation.cache.capacity.entries"@.subrange(0, 4) =~= "rad."@);
        },
        Instrument::RelationCacheCapacityBytes => {
            reveal_strlit("rad.relation.cache.capacity.bytes");
            assert("rad.relation.cache.capacity.bytes"@.subrange(0, 4) =~= "rad."@);
        },
        Instrument::RelationCacheResultLimitBytes => {
            reveal_strlit("rad.relation.cache.result.limit.bytes");
            assert("rad.relation.cache.result.limit.bytes"@.subrange(0, 4) =~= "rad."@);
        },
        Instrument::RelationCacheResultBytes => {
            reveal_strlit("rad.relation.cache.result.bytes");
            assert("rad.relation.cache.result.bytes"@.subrange(0, 4) =~= "rad."@);
        },
        Instrument::RelationCacheDependencyLookups => {
            reveal_strlit("rad.relation.cache.dependency.lookups");
            assert("rad.relation.cache.dependency.lookups"@.subrange(0, 4) =~= "rad."@);
        },
        Instrument::RelationCacheDependencyEvictions => {
            reveal_strlit("rad.relation.cache.dependency.evictions");
            assert("rad.relation.cache.dependency.evictions"@.subrange(0, 4) =~= "rad."@);
        },
        Instrument::RelationCacheCatalogLookups => {
            reveal_strlit("rad.relation.cache.catalog.lookups");
            assert("rad.relation.cache.catalog.lookups"@.subrange(0, 4) =~= "rad."@);
        },
        Instrument::RelationCacheCatalogEvictions => {
            reveal_strlit("rad.relation.cache.catalog.evictions");
            assert("rad.relation.cache.catalog.evictions"@.subrange(0, 4) =~= "rad."@);
        },
        Instrument::RelationCacheCatalogEntries => {
            reveal_strlit("rad.relation.cache.catalog.entries");
            assert("rad.relation.cache.catalog.entries"@.subrange(0, 4) =~= "rad."@);
        },
        Instrument::RelationCacheCatalogRetainedBytes => {
            reveal_strlit("rad.relation.cache.catalog.retained.bytes");
            assert("rad.relation.cache.catalog.retained.bytes"@.subrange(0, 4) =~= "rad."@);
        },
        Instrument::RelationCachePreparedLookups => {
            reveal_strlit("rad.relation.cache.prepared.lookups");
            assert("rad.relation.cache.prepared.lookups"@.subrange(0, 4) =~= "rad."@);
        },
        Instrument::RelationCachePreparedAdmissions => {
            reveal_strlit("rad.relation.cache.prepared.admissions");
            assert("rad.relation.cache.prepared.admissions"@.subrange(0, 4) =~= "rad."@);
        },
        Instrument::RelationCachePreparedEvictions => {
            reveal_strlit("rad.relation.cache.prepared.evictions");
            assert("rad.relation.cache.prepared.evictions"@.subrange(0, 4) =~= "rad."@);
        },
        Instrument::RelationCachePreparedEntries => {
            reveal_strlit("rad.relation.cache.prepared.entries");
            assert("rad.relation.cache.prepared.entries"@.subrange(0, 4) =~= "rad."@);
        },
        Instrument::RelationCachePreparedRetainedBytes => {
            reveal_strlit("rad.relation.cache.prepared.retained.bytes");
            assert("rad.relation.cache.prepared.retained.bytes"@.subrange(0, 4) =~= "rad."@);
        },
        Instrument::RelationCachePreparedCapacityEntries => {
            reveal_strlit("rad.relation.cache.prepared.capacity.entries");
            assert("rad.relation.cache.prepared.capacity.entries"@.subrange(0, 4) =~= "rad."@);
        },
        Instrument::RelationCachePreparedCapacityBytes => {
            reveal_strlit("rad.relation.cache.prepared.capacity.bytes");
            assert("rad.relation.cache.prepared.capacity.bytes"@.subrange(0, 4) =~= "rad."@);
        },
        Instrument::RelationCachePreparedPlanLimitBytes => {
            reveal_strlit("rad.relation.cache.prepared.plan.limit.bytes");
            assert("rad.relation.cache.prepared.plan.limit.bytes"@.subrange(0, 4) =~= "rad."@);
        },
        Instrument::RelationCachePreparedCandidateBytes => {
            reveal_strlit("rad.relation.cache.prepared.candidate.bytes");
            assert("rad.relation.cache.prepared.candidate.bytes"@.subrange(0, 4) =~= "rad."@);
        },
        Instrument::RelationCachePreparedAvoidedBinds => {
            reveal_strlit("rad.relation.cache.prepared.avoided.binds");
            assert("rad.relation.cache.prepared.avoided.binds"@.subrange(0, 4) =~= "rad."@);
        },
        Instrument::RelationCachePreparedAvoidedPlans => {
            reveal_strlit("rad.relation.cache.prepared.avoided.plans");
            assert("rad.relation.cache.prepared.avoided.plans"@.subrange(0, 4) =~= "rad."@);
        },
        Instrument::RelationCacheAvoidedReads => {
            reveal_strlit("rad.relation.cache.avoided.reads");
            assert("rad.relation.cache.avoided.reads"@.subrange(0, 4) =~= "rad."@);
        },
        Instrument::RelationCacheAvoidedBytes => {
            reveal_strlit("rad.relation.cache.avoided.bytes");
            assert("rad.relation.cache.avoided.bytes"@.subrange(0, 4) =~= "rad."@);
        },
        Instrument::RelationCacheAvoidedTime => {
            reveal_strlit("rad.relation.cache.avoided.time");
            assert("rad.relation.cache.avoided.time"@.subrange(0, 4) =~= "rad."@);
        },
        Instrument::RelationCacheCoalescedFills => {
            reveal_strlit("rad.relation.cache.coalesced.fills");
            assert("rad.relation.cache.coalesced.fills"@.subrange(0, 4) =~= "rad."@);
        },
        Instrument::RelationCacheReuseOpportunities => {
            reveal_strlit("rad.relation.cache.reuse.opportunities");
            assert("rad.relation.cache.reuse.opportunities"@.subrange(0, 4) =~= "rad."@);
        },
        Instrument::RelationCacheCohortTransitions => {
            reveal_strlit("rad.relation.cache.cohort.transitions");
            assert("rad.relation.cache.cohort.transitions"@.subrange(0, 4) =~= "rad."@);
        },
        Instrument::RelationCacheCohortReuse => {
            reveal_strlit("rad.relation.cache.cohort.reuse.opportunities");
            assert("rad.relation.cache.cohort.reuse.opportunities"@.subrange(0, 4) =~= "rad."@);
        },
        Instrument::RelationCacheShadowDecisions => {
            reveal_strlit("rad.relation.cache.shadow.decisions");
            assert("rad.relation.cache.shadow.decisions"@.subrange(0, 4) =~= "rad."@);
        },
        Instrument::RelationCacheShadowCandidateWork => {
            reveal_strlit("rad.relation.cache.shadow.candidate.work");
            assert("rad.relation.cache.shadow.candidate.work"@.subrange(0, 4) =~= "rad."@);
        },
        Instrument::RelationCacheShadowCandidateDensity => {
            reveal_strlit("rad.relation.cache.shadow.candidate.density");
            assert("rad.relation.cache.shadow.candidate.density"@.subrange(0, 4) =~= "rad."@);
        },
        Instrument::RelationCacheShadowRejectedReuse => {
            reveal_strlit("rad.relation.cache.shadow.rejected.reuse");
            assert("rad.relation.cache.shadow.rejected.reuse"@.subrange(0, 4) =~= "rad."@);
        },
        Instrument::RelationCacheEvidenceEvictions => {
            reveal_strlit("rad.relation.cache.evidence.evictions");
            assert("rad.relation.cache.evidence.evictions"@.subrange(0, 4) =~= "rad."@);
        },
        Instrument::KvOperations => {
            reveal_strlit("rad.kv.operations");
            assert("rad.kv.operations"@.subrange(0, 4) =~= "rad."@);
        },
        Instrument::KvBytes => {
            reveal_strlit("rad.kv.io.bytes");
            assert("rad.kv.io.bytes"@.subrange(0, 4) =~= "rad."@);
        },
        Instrument::KvOperationDuration => {
            reveal_strlit("rad.kv.operation.duration");
            assert("rad.kv.operation.duration"@.subrange(0, 4) =~= "rad."@);
        },
        Instrument::KvScanRows => {
            reveal_strlit("rad.kv.scan.rows");
            assert("rad.kv.scan.rows"@.subrange(0, 4) =~= "rad."@);
        },
        Instrument::TransactionCompletions => {
            reveal_strlit("rad.transaction.completions");
            assert("rad.transaction.completions"@.subrange(0, 4) =~= "rad."@);
        },
        Instrument::TransactionDuration => {
            reveal_strlit("rad.transaction.duration");
            assert("rad.transaction.duration"@.subrange(0, 4) =~= "rad."@);
        },
        Instrument::TransactionConflicts => {
            reveal_strlit("rad.transaction.conflicts");
            assert("rad.transaction.conflicts"@.subrange(0, 4) =~= "rad."@);
        },
        Instrument::PostgresActive => {
            reveal_strlit("rad.postgresql.connections.active");
            assert("rad.postgresql.connections.active"@.subrange(0, 4) =~= "rad."@);
        },
        Instrument::PostgresConnections => {
            reveal_strlit("rad.postgresql.connections");
            assert("rad.postgresql.connections"@.subrange(0, 4) =~= "rad."@);
        },
        Instrument::StorageAvailable => {
            reveal_strlit("rad.storage.available");
            assert("rad.storage.available"@.subrange(0, 4) =~= "rad."@);
        },
        Instrument::StorageOutages => {
            reveal_strlit("rad.storage.outages");
            assert("rad.storage.outages"@.subrange(0, 4) =~= "rad."@);
        },
        Instrument::StorageOutageDuration => {
            reveal_strlit("rad.storage.outage.duration");
            assert("rad.storage.outage.duration"@.subrange(0, 4) =~= "rad."@);
        },
        Instrument::StorageFencing => {
            reveal_strlit("rad.storage.fencing");
            assert("rad.storage.fencing"@.subrange(0, 4) =~= "rad."@);
        },
        Instrument::StorageCacheAccesses => {
            reveal_strlit("rad.storage.cache.accesses");
            assert("rad.storage.cache.accesses"@.subrange(0, 4) =~= "rad."@);
        },
        Instrument::StorageCacheCapacity => {
            reveal_strlit("rad.storage.cache.capacity.bytes");
            assert("rad.storage.cache.capacity.bytes"@.subrange(0, 4) =~= "rad."@);
        },
        Instrument::StorageRequests => {
            reveal_strlit("rad.storage.requests");
            assert("rad.storage.requests"@.subrange(0, 4) =~= "rad."@);
        },
        Instrument::StorageRequestDuration => {
            reveal_strlit("rad.storage.request.duration");
            assert("rad.storage.request.duration"@.subrange(0, 4) =~= "rad."@);
        },
        Instrument::StorageRequestBytes => {
            reveal_strlit("rad.storage.request.bytes");
            assert("rad.storage.request.bytes"@.subrange(0, 4) =~= "rad."@);
        },
        Instrument::SchedulerJobs => {
            reveal_strlit("rad.scheduler.jobs");
            assert("rad.scheduler.jobs"@.subrange(0, 4) =~= "rad."@);
        },
        Instrument::SchedulerQuarantined => {
            reveal_strlit("rad.scheduler.quarantined");
            assert("rad.scheduler.quarantined"@.subrange(0, 4) =~= "rad."@);
        },
        Instrument::SchedulerLostWorkers => {
            reveal_strlit("rad.scheduler.lost_workers");
            assert("rad.scheduler.lost_workers"@.subrange(0, 4) =~= "rad."@);
        },
    }
}

} // verus!
