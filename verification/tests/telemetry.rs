//! Recording of measurements.

use rad::telemetry::instruments::{Instrument, InstrumentKind, NumberKind, INSTRUMENT_COUNT};
use rad::telemetry::system::{
    cgroup_memory_limit, cgroup_stat, process_cpu_limit, process_rss_bytes, rad_metric_view,
    resource, signal_endpoint, Config,
};
use rad::telemetry::{
    enabled, execution_parallel_batch, http_finished, http_started, kv_finished, operator_finished,
    postgres_connection_finished, postgres_connection_started, program_admitted_finished,
    program_admitted_started, program_finished, program_queue_cancelled, program_queue_finished,
    program_queue_started, program_started, relation_cache_admission, relation_cache_avoided,
    relation_cache_catalog_eviction, relation_cache_catalog_lookup,
    relation_cache_catalog_residency, relation_cache_coalesced, relation_cache_cohort_reuse,
    relation_cache_cohort_transition, relation_cache_dependency_eviction,
    relation_cache_dependency_lookup, relation_cache_eviction, relation_cache_evidence_eviction,
    relation_cache_limits, relation_cache_lookup, relation_cache_prepared_admission,
    relation_cache_prepared_avoided, relation_cache_prepared_candidate,
    relation_cache_prepared_eviction, relation_cache_prepared_limits,
    relation_cache_prepared_lookup, relation_cache_prepared_residency, relation_cache_residency,
    relation_cache_result_size, relation_cache_reuse_opportunity, relation_cache_shadow_candidate,
    relation_cache_shadow_decision, relation_cache_shadow_rejected_reuse, scheduler_job,
    scheduler_quarantined, scheduler_worker_lost, statement_finished, storage_cache_capacity,
    storage_cache_observed, storage_fenced, storage_observed, storage_outage_finished,
    storage_outage_started, storage_request_finished, transaction_finished, Amount, Attribute,
    AttributeValue, KvMeasurement, Measurement, Meters, OperatorMeasurement, ProgramMeasurement,
};

fn active() -> Meters {
    let mut meters = Meters::new();
    meters.activate();
    meters
}

fn text(key: &'static str, value: &str) -> Attribute {
    Attribute { key, value: AttributeValue::Text(value.to_owned()) }
}

fn measured(instrument: Instrument, amount: Amount, attributes: Vec<Attribute>) -> Measurement {
    Measurement { instrument, amount, attributes }
}

#[test]
fn signal_endpoint_accepts_base_and_signal_endpoints() {
    assert_eq!(
        signal_endpoint("http://collector:4318", "v1/traces"),
        "http://collector:4318/v1/traces"
    );
    assert_eq!(
        signal_endpoint("http://collector:4318/v1/traces", "v1/traces"),
        "http://collector:4318/v1/traces"
    );
}

#[test]
fn slashes_at_the_end_of_an_endpoint_are_dropped() {
    assert_eq!(
        signal_endpoint("http://collector:4318//", "v1/metrics"),
        "http://collector:4318/v1/metrics"
    );
}

#[test]
fn inactive_meters_record_nothing() {
    let mut meters = Meters::new();
    assert!(!enabled(&meters));
    http_started(&mut meters, "GET");
    scheduler_worker_lost(&mut meters);
    assert_eq!(meters.take(), Vec::new());
    meters.activate();
    assert!(enabled(&meters));
    scheduler_worker_lost(&mut meters);
    assert_eq!(
        meters.take(),
        vec![measured(Instrument::SchedulerLostWorkers, Amount::Count(1), Vec::new())]
    );
    assert_eq!(meters.take(), Vec::new());
}

#[test]
fn requests_are_counted_by_method_and_status() {
    let mut meters = active();
    http_started(&mut meters, "GET");
    http_finished(&mut meters, "GET", 404, 1_500_000_000);
    let both = || {
        vec![
            text("http.request.method", "GET"),
            Attribute { key: "http.response.status_code", value: AttributeValue::Integer(404) },
        ]
    };
    assert_eq!(
        meters.take(),
        vec![
            measured(Instrument::HttpActive, Amount::Up, vec![text("http.request.method", "GET")]),
            measured(Instrument::HttpActive, Amount::Down, vec![text("http.request.method", "GET")]),
            measured(Instrument::HttpRequests, Amount::Count(1), both()),
            measured(Instrument::HttpDuration, Amount::Nanoseconds(1_500_000_000), both()),
        ]
    );
}

#[test]
fn programs_are_counted_by_transport_and_status() {
    let mut meters = active();
    program_finished(
        &mut meters,
        ProgramMeasurement {
            transport: "http",
            status: "ok",
            nanoseconds: 7,
            result_rows: 3,
            affected_rows: 2,
            statements: 1,
            dry_run: true,
        },
    );
    let all = || {
        vec![
            text("rad.transport", "http"),
            text("rad.status", "ok"),
            Attribute { key: "rad.program.dry_run", value: AttributeValue::Flag(true) },
        ]
    };
    assert_eq!(
        meters.take(),
        vec![
            measured(Instrument::ProgramActive, Amount::Down, vec![text("rad.transport", "http")]),
            measured(Instrument::ProgramExecutions, Amount::Count(1), all()),
            measured(Instrument::ProgramDuration, Amount::Nanoseconds(7), all()),
            measured(Instrument::ProgramResultRows, Amount::Count(3), all()),
            measured(Instrument::ProgramAffectedRows, Amount::Count(2), all()),
            measured(
                Instrument::ProgramStatements,
                Amount::Count(1),
                vec![text("rad.transport", "http")]
            ),
        ]
    );
}

#[test]
fn statements_and_operators_are_timed() {
    let mut meters = active();
    statement_finished(&mut meters, "query", "wire", "ok", 5, 6, 9);
    let all = || {
        vec![
            text("rad.statement.kind", "query"),
            text("rad.statement.source", "wire"),
            text("rad.status", "ok"),
        ]
    };
    assert_eq!(
        meters.take(),
        vec![
            measured(Instrument::StatementExecutions, Amount::Count(1), all()),
            measured(Instrument::StatementDuration, Amount::Nanoseconds(6), all()),
            measured(Instrument::StatementRows, Amount::Count(9), all()),
            measured(Instrument::PlannerDuration, Amount::Nanoseconds(5), all()),
        ]
    );
    operator_finished(
        &mut meters,
        &OperatorMeasurement {
            operator: "scan",
            exclusive_micros: 2,
            open_micros: 3,
            input_rows: 4,
            output_rows: 5,
        },
    );
    let labelled =
        |key, value| vec![text("rad.operator.name", "scan"), text(key, value)];
    assert_eq!(
        meters.take(),
        vec![
            measured(
                Instrument::OperatorDuration,
                Amount::Nanoseconds(2_000),
                labelled("rad.operator.measurement", "exclusive")
            ),
            measured(
                Instrument::OperatorDuration,
                Amount::Nanoseconds(3_000),
                labelled("rad.operator.measurement", "open")
            ),
            measured(
                Instrument::OperatorRows,
                Amount::Count(4),
                labelled("rad.operator.direction", "input")
            ),
            measured(
                Instrument::OperatorRows,
                Amount::Count(5),
                labelled("rad.operator.direction", "output")
            ),
        ]
    );
}

#[test]
fn the_relation_cache_is_observed() {
    let mut meters = active();
    relation_cache_residency(&mut meters, 3, 4096);
    relation_cache_avoided(&mut meters, 2, 64, 9);
    relation_cache_shadow_decision(&mut meters, "admit", "dense", "known");
    relation_cache_shadow_candidate(&mut meters, 8, 0.5f64.to_bits());
    assert_eq!(
        meters.take(),
        vec![
            measured(Instrument::RelationCacheEntries, Amount::Count(3), Vec::new()),
            measured(Instrument::RelationCacheRetainedBytes, Amount::Count(4096), Vec::new()),
            measured(Instrument::RelationCacheAvoidedReads, Amount::Count(2), Vec::new()),
            measured(Instrument::RelationCacheAvoidedBytes, Amount::Count(64), Vec::new()),
            measured(Instrument::RelationCacheAvoidedTime, Amount::Nanoseconds(9), Vec::new()),
            measured(
                Instrument::RelationCacheShadowDecisions,
                Amount::Count(1),
                vec![
                    text("rad.cache.decision", "admit"),
                    text("rad.cache.reason", "dense"),
                    text("rad.cache.evidence", "known"),
                ]
            ),
            measured(Instrument::RelationCacheShadowCandidateWork, Amount::Count(8), Vec::new()),
            measured(
                Instrument::RelationCacheShadowCandidateDensity,
                Amount::Bits(0.5f64.to_bits()),
                Vec::new()
            ),
        ]
    );
}

#[test]
fn empty_storage_counts_are_left_out() {
    let mut meters = active();
    storage_cache_observed(&mut meters, "memory", None, 5, 3, 0, 2);
    let seen = |kind: &str, result| {
        vec![
            text("rad.storage.cache.tier", "memory"),
            text("rad.storage.cache.entry_kind", kind),
            text("rad.storage.cache.result", result),
        ]
    };
    assert_eq!(
        meters.take(),
        vec![
            measured(Instrument::StorageCacheAccesses, Amount::Count(5), seen("all", "access")),
            measured(Instrument::StorageCacheAccesses, Amount::Count(3), seen("all", "hit")),
            measured(Instrument::StorageCacheAccesses, Amount::Count(2), seen("all", "error")),
        ]
    );
    storage_cache_observed(&mut meters, "memory", Some("block"), 0, 0, 4, 0);
    assert_eq!(
        meters.take(),
        vec![measured(
            Instrument::StorageCacheAccesses,
            Amount::Count(4),
            seen("block", "miss")
        )]
    );
    storage_cache_capacity(&mut meters, "block", u64::MAX);
    storage_observed(&mut meters, true);
    assert_eq!(
        meters.take(),
        vec![
            measured(
                Instrument::StorageCacheCapacity,
                Amount::Level(i64::MAX),
                vec![
                    text("rad.storage.cache.tier", "memory"),
                    text("rad.storage.cache.entry_kind", "block"),
                ]
            ),
            measured(Instrument::StorageAvailable, Amount::Level(1), Vec::new()),
        ]
    );
}

#[test]
fn storage_requests_say_how_they_ended() {
    for (completed, error, status) in [
        (true, false, "success"),
        (false, false, "incomplete"),
        (true, true, "error"),
        (false, true, "error"),
    ] {
        let mut meters = active();
        storage_request_finished(&mut meters, "standard", "get", completed, error, 0, 11);
        let all = || {
            vec![
                text("rad.storage.service_tier", "standard"),
                text("rad.storage.request.class", "get"),
                text("rad.status", status),
            ]
        };
        assert_eq!(
            meters.take(),
            vec![
                measured(Instrument::StorageRequests, Amount::Count(1), all()),
                measured(Instrument::StorageRequestDuration, Amount::Nanoseconds(11), all()),
            ]
        );
        storage_request_finished(&mut meters, "standard", "get", completed, error, 12, 11);
        assert_eq!(
            meters.take()[2],
            measured(Instrument::StorageRequestBytes, Amount::Count(12), all())
        );
    }
}

#[test]
fn kv_work_is_counted_by_direction() {
    let mut meters = active();
    kv_finished(
        &mut meters,
        KvMeasurement {
            operation: "scan",
            keyspace: "rows",
            status: "ok",
            nanoseconds: 3,
            bytes_read: 10,
            bytes_written: 0,
            rows: Some(4),
        },
    );
    let all = || {
        vec![
            text("rad.kv.operation", "scan"),
            text("rad.kv.keyspace", "rows"),
            text("rad.status", "ok"),
        ]
    };
    assert_eq!(
        meters.take(),
        vec![
            measured(Instrument::KvOperations, Amount::Count(1), all()),
            measured(Instrument::KvOperationDuration, Amount::Nanoseconds(3), all()),
            measured(
                Instrument::KvBytes,
                Amount::Count(10),
                vec![text("rad.kv.direction", "read"), text("rad.kv.keyspace", "rows")]
            ),
            measured(Instrument::KvScanRows, Amount::Count(4), all()),
        ]
    );
    transaction_finished(&mut meters, "commit", "error", 8, Some("write"));
    let ended =
        || vec![text("rad.transaction.outcome", "commit"), text("rad.status", "error")];
    assert_eq!(
        meters.take(),
        vec![
            measured(Instrument::TransactionCompletions, Amount::Count(1), ended()),
            measured(Instrument::TransactionDuration, Amount::Nanoseconds(8), ended()),
            measured(
                Instrument::TransactionConflicts,
                Amount::Count(1),
                vec![text("rad.error.reason", "write")]
            ),
        ]
    );
}

#[test]
fn connections_and_jobs_are_counted() {
    let mut meters = active();
    postgres_connection_started(&mut meters);
    postgres_connection_finished(&mut meters, "closed");
    scheduler_job(&mut meters, "backfill", "done");
    scheduler_quarantined(&mut meters, "backfill", "limit");
    assert_eq!(
        meters.take(),
        vec![
            measured(Instrument::PostgresActive, Amount::Up, Vec::new()),
            measured(Instrument::PostgresActive, Amount::Down, Vec::new()),
            measured(
                Instrument::PostgresConnections,
                Amount::Count(1),
                vec![text("rad.outcome", "closed")]
            ),
            measured(
                Instrument::SchedulerJobs,
                Amount::Count(1),
                vec![text("rad.scheduler.job.kind", "backfill"), text("rad.outcome", "done")]
            ),
            measured(
                Instrument::SchedulerQuarantined,
                Amount::Count(1),
                vec![text("rad.scheduler.job.kind", "backfill"), text("rad.error.reason", "limit")]
            ),
        ]
    );
}

#[test]
fn every_instrument_is_defined_once() {
    let instruments = Instrument::all();
    assert_eq!(instruments.len(), INSTRUMENT_COUNT);
    let mut names: Vec<&str> =
        instruments.iter().map(|instrument| instrument.definition().name).collect();
    names.sort();
    names.dedup();
    assert_eq!(names.len(), INSTRUMENT_COUNT);
    let duration = Instrument::HttpDuration.definition();
    assert_eq!(duration.name, "http.server.request.duration");
    assert_eq!(duration.kind, InstrumentKind::Histogram);
    assert_eq!(duration.numbers, NumberKind::Real);
    assert_eq!(duration.unit, Some("s"));
    assert_eq!(duration.description, "Rad HTTP request duration");
    assert_eq!(Instrument::HttpRequests.definition().kind, InstrumentKind::Counter);
}

#[test]
fn own_metrics_are_bounded() {
    assert!(rad_metric_view("process.cpu.time", true).is_none());
    let view = rad_metric_view("rad.program.duration", true).unwrap();
    assert_eq!(view.cardinality_limit, 256);
    let boundaries = view.boundaries.unwrap();
    assert_eq!(boundaries.len(), 16);
    assert_eq!((boundaries[0], boundaries[1], boundaries[15]), (10, 25, 1_200_000));
    assert!(rad_metric_view("rad.program.duration", false).unwrap().boundaries.is_none());
    assert!(rad_metric_view("http.server.requests", true).unwrap().boundaries.is_none());
    assert_eq!(
        rad_metric_view("rad.relation.cache.cohort.reuse.opportunities", true)
            .unwrap()
            .boundaries
            .unwrap()[..3],
        [0, 10_000, 20_000]
    );
}

#[test]
fn control_group_files_are_read() {
    let stat = "usage_usec 1200\nnr_throttled 3\r\nthrottled_usec x\nthrottled_usec 9\n";
    assert_eq!(cgroup_stat(stat, "usage_usec"), Some(1200));
    assert_eq!(cgroup_stat(stat, "nr_throttled"), Some(3));
    assert_eq!(cgroup_stat(stat, "throttled_usec"), Some(9));
    assert_eq!(cgroup_stat(stat, "user_usec"), None);
    assert_eq!(
        process_cpu_limit(" 150000 100000\n"),
        Some(("150000".to_owned(), "100000".to_owned()))
    );
    assert_eq!(process_cpu_limit("max 100000\n"), None);
    assert_eq!(process_cpu_limit("150000\n"), None);
    assert_eq!(cgroup_memory_limit("1073741824\n"), Some(1_073_741_824));
    assert_eq!(cgroup_memory_limit("max\n"), None);
    assert_eq!(cgroup_memory_limit("-1\n"), None);
    assert_eq!(process_rss_bytes("VmPeak:\t 9 kB\nVmRSS:\t  2048 kB\n"), Some(2_097_152));
    assert_eq!(process_rss_bytes("VmPeak:\t 9 kB\n"), None);
    assert_eq!(process_rss_bytes("VmRSS:\t18446744073709551615 kB\n"), None);
}

#[test]
fn the_process_is_described() {
    let config = Config {
        endpoint: None,
        instance_id: Some("one".to_owned()),
        role: None,
        metrics: false,
    };
    assert!(!config.wants_runtime());
    assert!(Config::default().wants_runtime());
    assert_eq!(
        resource(&config, "1.2.3", &Some("ns".to_owned()), &Some(String::new()), &None),
        vec![
            text("service.name", "rad"),
            text("service.version", "1.2.3"),
            text("service.instance.id", "one"),
            text("k8s.namespace.name", "ns"),
        ]
    );
}

#[test]
fn every_recording_names_its_instrument() {
    let mut meters = active();
    program_started(&mut meters, "http");
    program_admitted_started(&mut meters);
    program_admitted_finished(&mut meters);
    program_queue_started(&mut meters);
    program_queue_finished(&mut meters, 4);
    program_queue_cancelled(&mut meters);
    execution_parallel_batch(&mut meters, "scan", 2, 5);
    relation_cache_lookup(&mut meters, "hit");
    relation_cache_admission(&mut meters, "kept");
    relation_cache_eviction(&mut meters, "size");
    relation_cache_limits(&mut meters, 1, 2, 3);
    relation_cache_result_size(&mut meters, 6);
    relation_cache_dependency_lookup(&mut meters, "miss");
    relation_cache_dependency_eviction(&mut meters, 7);
    relation_cache_catalog_lookup(&mut meters, "hit");
    relation_cache_catalog_eviction(&mut meters, 8);
    relation_cache_catalog_residency(&mut meters, 9, 10);
    relation_cache_prepared_lookup(&mut meters, "hit");
    relation_cache_prepared_admission(&mut meters, "kept");
    relation_cache_prepared_eviction(&mut meters, 11);
    relation_cache_prepared_residency(&mut meters, 12, 13);
    relation_cache_prepared_limits(&mut meters, 14, 15, 16);
    relation_cache_prepared_candidate(&mut meters, 17);
    relation_cache_prepared_avoided(&mut meters);
    relation_cache_coalesced(&mut meters);
    relation_cache_reuse_opportunity(&mut meters);
    relation_cache_cohort_transition(&mut meters, "age");
    relation_cache_cohort_reuse(&mut meters, 18, "kept");
    relation_cache_shadow_rejected_reuse(&mut meters);
    relation_cache_evidence_eviction(&mut meters, "age");
    storage_outage_started(&mut meters, "network");
    storage_outage_finished(&mut meters, "network", 19);
    storage_fenced(&mut meters, "newer");
    let expected: Vec<(Instrument, Amount, Option<(&'static str, &str)>)> = vec![
        (Instrument::ProgramActive, Amount::Up, Some(("rad.transport", "http"))),
        (Instrument::ProgramAdmittedActive, Amount::Up, None),
        (Instrument::ProgramAdmittedActive, Amount::Down, None),
        (Instrument::ProgramQueueActive, Amount::Up, None),
        (Instrument::ProgramQueueActive, Amount::Down, None),
        (Instrument::ProgramQueueDuration, Amount::Nanoseconds(4), None),
        (Instrument::ProgramQueueActive, Amount::Down, None),
        (Instrument::ExecutionParallelWidth, Amount::Count(2), Some(("rad.operator.name", "scan"))),
        (
            Instrument::ExecutionParallelBatches,
            Amount::Count(1),
            Some(("rad.operator.name", "scan")),
        ),
        (Instrument::ExecutionParallelRows, Amount::Count(5), Some(("rad.operator.name", "scan"))),
        (Instrument::RelationCacheLookups, Amount::Count(1), Some(("rad.cache.result", "hit"))),
        (Instrument::RelationCacheAdmissions, Amount::Count(1), Some(("rad.cache.result", "kept"))),
        (Instrument::RelationCacheEvictions, Amount::Count(1), Some(("rad.cache.cause", "size"))),
        (Instrument::RelationCacheCapacityEntries, Amount::Count(1), None),
        (Instrument::RelationCacheCapacityBytes, Amount::Count(2), None),
        (Instrument::RelationCacheResultLimitBytes, Amount::Count(3), None),
        (Instrument::RelationCacheResultBytes, Amount::Count(6), None),
        (
            Instrument::RelationCacheDependencyLookups,
            Amount::Count(1),
            Some(("rad.cache.result", "miss")),
        ),
        (Instrument::RelationCacheDependencyEvictions, Amount::Count(7), None),
        (
            Instrument::RelationCacheCatalogLookups,
            Amount::Count(1),
            Some(("rad.cache.result", "hit")),
        ),
        (Instrument::RelationCacheCatalogEvictions, Amount::Count(8), None),
        (Instrument::RelationCacheCatalogEntries, Amount::Count(9), None),
        (Instrument::RelationCacheCatalogRetainedBytes, Amount::Count(10), None),
        (
            Instrument::RelationCachePreparedLookups,
            Amount::Count(1),
            Some(("rad.cache.result", "hit")),
        ),
        (
            Instrument::RelationCachePreparedAdmissions,
            Amount::Count(1),
            Some(("rad.cache.result", "kept")),
        ),
        (Instrument::RelationCachePreparedEvictions, Amount::Count(11), None),
        (Instrument::RelationCachePreparedEntries, Amount::Count(12), None),
        (Instrument::RelationCachePreparedRetainedBytes, Amount::Count(13), None),
        (Instrument::RelationCachePreparedCapacityEntries, Amount::Count(14), None),
        (Instrument::RelationCachePreparedCapacityBytes, Amount::Count(15), None),
        (Instrument::RelationCachePreparedPlanLimitBytes, Amount::Count(16), None),
        (Instrument::RelationCachePreparedCandidateBytes, Amount::Count(17), None),
        (Instrument::RelationCachePreparedAvoidedBinds, Amount::Count(1), None),
        (Instrument::RelationCachePreparedAvoidedPlans, Amount::Count(1), None),
        (Instrument::RelationCacheCoalescedFills, Amount::Count(1), None),
        (Instrument::RelationCacheReuseOpportunities, Amount::Count(1), None),
        (
            Instrument::RelationCacheCohortTransitions,
            Amount::Count(1),
            Some(("rad.cache.cause", "age")),
        ),
        (
            Instrument::RelationCacheCohortReuse,
            Amount::Count(18),
            Some(("rad.cache.cohort.outcome", "kept")),
        ),
        (Instrument::RelationCacheShadowRejectedReuse, Amount::Count(1), None),
        (
            Instrument::RelationCacheEvidenceEvictions,
            Amount::Count(1),
            Some(("rad.cache.cause", "age")),
        ),
        (Instrument::StorageOutages, Amount::Count(1), Some(("rad.error.reason", "network"))),
        (
            Instrument::StorageOutageDuration,
            Amount::Nanoseconds(19),
            Some(("rad.error.reason", "network")),
        ),
        (Instrument::StorageFencing, Amount::Count(1), Some(("rad.error.reason", "newer"))),
    ];
    let expected: Vec<Measurement> = expected
        .into_iter()
        .map(|(instrument, amount, attribute)| {
            let attributes = attribute.into_iter().map(|(key, value)| text(key, value)).collect();
            measured(instrument, amount, attributes)
        })
        .collect();
    assert_eq!(meters.take(), expected);
}

#[test]
fn active_meters_go_on_recording() {
    let mut meters = active();
    for _ in 0..3 {
        scheduler_worker_lost(&mut meters);
        assert_eq!(meters.take().len(), 1);
        assert!(enabled(&meters));
    }
    meters.activate();
    assert!(enabled(&meters));
}
