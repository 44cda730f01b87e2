//! What is stored of statistics and of the workload, and the runner over it.

use rad::scheduler::batch::{StatisticsBatch, StatisticsConfig, DEFAULT_REGISTRY_CAPACITY};
use rad::scheduler::collector::{StatisticsCollector, StatisticsEvent};
use rad::scheduler::corpus::{
    retain_corpus, CorpusPolicy, ExecutionEntry, ProgramEntry, StoredCorpusExecution,
};
use rad::scheduler::evidence::{DependencyStamp, KvResourceSample};
use rad::scheduler::identity::{decode_hash, hash_text, statistics_identity};
use rad::scheduler::model::{
    ObservationModelKind, QueryModel, RelationFingerprints, StatementObservation,
};
use rad::scheduler::physical::{
    CumulativeHistogram, PhysicalCacheSnapshot, PhysicalCacheTier, PhysicalRequestClass,
    PhysicalRequestCondition, PhysicalRequestSnapshot, PhysicalTelemetryCapabilities,
    PhysicalTelemetryIdentity, PhysicalTelemetrySnapshot,
};
use rad::scheduler::planner::{
    CollectorReport, CorpusMaintenanceStats, FeedbackModel, PersistedStatisticsSnapshot,
    PlannerStats, StatisticsScope,
};
use rad::scheduler::records::{ProgramRecord, ProgramStatementOutcome, SynopsisModel};
use rad::scheduler::registry::HotRegistry;
use rad::scheduler::relay::{
    IngestOutcome, ObservationBatch, Publication, RelayIngest, RelaySink, TransportError,
    RELAY_FORMAT,
};
use rad::scheduler::runner::{
    next_publication, publication_continues, relay_report, StatisticsRunner, TickInput,
};
use rad::scheduler::sketches::Fingerprint;
use rad::scheduler::storage::{
    CorpusEraseError, CorpusReplayError, SlateStatistics, StatisticsRecords,
};
use rad::scheduler::synopsis::Distributions;

fn mean(last: Option<u64>, micros: u64) -> u64 {
    match last {
        None => (micros as f64).to_bits(),
        Some(bits) => (0.1 * micros as f64 + 0.9 * f64::from_bits(bits)).to_bits(),
    }
}

fn fingerprint(seed: u8) -> Fingerprint {
    let mut digest = [0u8; 16];
    for (index, byte) in digest.iter_mut().enumerate() {
        *byte = seed.wrapping_mul(31).wrapping_add(index as u8);
    }
    Fingerprint {
        canonicalization_version: 1,
        hash_algorithm: 1,
        digest: u128::from_be_bytes(digest),
    }
}

fn observation(family_seed: u8, exact_seed: u8, rows: u64) -> StatementObservation {
    let family = fingerprint(family_seed);
    let exact = fingerprint(exact_seed);
    StatementObservation {
        exact,
        family,
        subtrees: vec![RelationFingerprints { exact, family }],
        plan: Some(fingerprint(family_seed.wrapping_add(100))),
        bind_micros: 50,
        execute_micros: 400,
        rows,
        estimate: None,
        stamp: DependencyStamp::default(),
        relations: Vec::new(),
        affected: rows,
        mutated: None,
        kv: KvResourceSample::default(),
    }
}

fn new_store() -> SlateStatistics {
    SlateStatistics::new(StatisticsRecords::default())
}

fn synopsis(table: u64) -> SynopsisModel {
    SynopsisModel {
        table,
        observed_rows: 100,
        sample_size: 100,
        changes_since_collection: 0,
        table_existence_generation: 0,
        collected_at_unix_micros: 1,
        catalog_version: 1,
        distributions: Distributions {
            other: vec![1, 2, 3],
            ..Distributions::default()
        },
    }
}

#[test]
fn synopsis_drift_survives_persistence() {
    let mut slate = new_store();
    slate.write(
        &StatisticsBatch {
            synopses: vec![SynopsisModel {
                changes_since_collection: 12,
                table_existence_generation: 3,
                collected_at_unix_micros: 9,
                catalog_version: 4,
                ..synopsis(7)
            }],
            ..StatisticsBatch::default()
        },
        0,
    );

    let loaded = slate.records.load_synopses();
    assert_eq!(loaded.len(), 1);
    assert_eq!(loaded[0].changes_since_collection, 12);
    assert_eq!(loaded[0].table_existence_generation, 3);
    assert_eq!(loaded[0].distributions.other, vec![1, 2, 3]);
}

#[test]
fn persisted_loading_keeps_only_the_most_observed_models() {
    let mut slate = new_store();
    let mut models = Vec::new();
    for seed in 0..20u8 {
        let family = fingerprint(seed);
        let mut model = QueryModel::new(family, ObservationModelKind::Statement);
        model.executions = u64::from(seed) + 1;
        models.push((family, model));
    }
    slate.write(
        &StatisticsBatch {
            models,
            ..StatisticsBatch::default()
        },
        0,
    );

    let loaded = slate.records.load_models(4);
    assert_eq!(loaded.len(), 4);
    assert!(loaded.iter().all(|model| model.executions >= 17));
}

#[test]
fn persisted_model_catalog_bounds_durable_models() {
    let mut slate = SlateStatistics::with_model_capacity(StatisticsRecords::default(), 16);
    let mut models = Vec::new();
    let mut frequency = Vec::new();
    for seed in 0..40u8 {
        let family = fingerprint(seed);
        let mut model = QueryModel::new(family, ObservationModelKind::Statement);
        model.executions = u64::from(seed) + 1;
        models.push((family, model));
        frequency.push((family, u32::from(seed) + 1));
    }
    slate.write(
        &StatisticsBatch {
            models,
            frequency,
            ..StatisticsBatch::default()
        },
        0,
    );

    let loaded = slate.records.load_models(100);
    assert_eq!(loaded.len(), 16);
    assert!(loaded.iter().all(|model| model.executions >= 25));
    assert_eq!(slate.records.load_frequencies(100).len(), 16);
    assert_eq!(slate.records.frequencies.len(), 16);
    assert!(slate.records.catalog.is_some());
}

#[test]
fn persisted_frequency_uses_lazy_decay_and_requires_a_model() {
    let mut slate = new_store();
    let family = fingerprint(1);
    let absent = fingerprint(2);
    let mut model = QueryModel::new(family, ObservationModelKind::Statement);
    model.executions = 80;
    slate.write(
        &StatisticsBatch {
            models: vec![(family, model)],
            frequency: vec![(family, 80), (absent, 90)],
            ..StatisticsBatch::default()
        },
        0,
    );
    assert_eq!(slate.records.load_frequencies(16), vec![(family, 80)]);
    assert!(!slate
        .records
        .frequencies
        .iter()
        .any(|(stored, _)| *stored == absent));
    slate.write(
        &StatisticsBatch {
            frequency_decays: 2,
            ..StatisticsBatch::default()
        },
        0,
    );
    assert_eq!(slate.records.load_frequencies(16), vec![(family, 20)]);
}

#[test]
fn persistence_keeps_relation_and_statement_models_for_one_family() {
    let mut slate = new_store();
    let family = fingerprint(1);
    let mut relation = QueryModel::new(family, ObservationModelKind::Relation);
    relation.executions = 3;
    relation.rows.record(4);
    let mut statement = QueryModel::new(family, ObservationModelKind::Statement);
    statement.executions = 5;
    statement.rows.record(10);
    slate.write(
        &StatisticsBatch {
            models: vec![(family, relation), (family, statement)],
            ..StatisticsBatch::default()
        },
        0,
    );

    let loaded = slate.records.load_models(16);
    assert!(loaded.iter().any(|model| {
        model.family == family
            && model.kind == ObservationModelKind::Relation
            && model.rows.maximum() == 4
    }));
    assert!(loaded.iter().any(|model| {
        model.family == family
            && model.kind == ObservationModelKind::Statement
            && model.rows.maximum() == 10
    }));
}

#[test]
fn a_family_evicted_from_the_hot_set_keeps_its_stored_history() {
    let mut slate = new_store();
    let at = 1_000;
    let mut registry = HotRegistry::new(16);

    for index in 0..3u8 {
        registry.absorb(&observation(1, index, 40), at, mean);
    }
    slate.write(&registry.take_batch(), at);

    // Crowd the working set with families that are hotter than this one, until
    // the policy drops it.
    for family in 2..40u8 {
        for _ in 0..5 {
            registry.absorb(&observation(family, family, 7), at, mean);
        }
    }
    assert!(
        registry
            .model(ObservationModelKind::Statement, &fingerprint(1))
            .is_none(),
        "the family was never evicted, so this proves nothing about eviction"
    );
    slate.write(&registry.take_batch(), at);

    registry.absorb(&observation(1, 9, 40), at, mean);
    slate.write(&registry.take_batch(), at);

    let stored = slate.records.load_models(DEFAULT_REGISTRY_CAPACITY);
    let model = stored
        .iter()
        .find(|model| {
            model.kind == ObservationModelKind::Statement && model.family == fingerprint(1)
        })
        .expect("the evicted family is still stored");
    assert_eq!(
        model.executions, 4,
        "returning to the hot set replaced the stored history instead of extending it"
    );
    assert_eq!(model.rows.count(), 4);
}

fn program(seed: u8, at_unix_micros: u64) -> ProgramRecord {
    ProgramRecord {
        canonical: vec![seed],
        content_hash: u128::from_be_bytes([seed; 16]),
        at_unix_micros,
        statements: 1,
        outcomes: Vec::new(),
    }
}

fn programs(programs: Vec<ProgramRecord>) -> StatisticsBatch {
    StatisticsBatch {
        programs,
        ..StatisticsBatch::default()
    }
}

fn stores_program(slate: &SlateStatistics, seed: u8) -> bool {
    slate.records.programs.iter().any(|entry| {
        matches!(&entry.identity, Some((version, hash)) if *version == 1 && *hash == vec![seed; 16])
    })
}

#[test]
fn corpus_retention_bounds_storage_and_erasure_clears_the_cache() {
    let mut slate = SlateStatistics::with_options(
        StatisticsRecords::default(),
        DEFAULT_REGISTRY_CAPACITY,
        CorpusPolicy {
            max_executions: 2,
            max_bytes: 2,
            max_age: 50,
        },
    );

    slate.write(
        &programs(vec![program(1, 80), program(2, 90), program(3, 100)]),
        100,
    );
    assert_eq!(slate.records.executions.len(), 2);
    assert_eq!(slate.records.programs.len(), 2);
    assert!(!stores_program(&slate, 1));
    assert_eq!(
        slate.corpus_maintenance,
        Some(CorpusMaintenanceStats {
            pruned_executions: 1,
            pruned_programs: 1,
            retained_executions: 2,
            retained_programs: 2,
            retained_program_bytes: 2,
            ..CorpusMaintenanceStats::default()
        })
    );

    let mut oversized = program(5, 101);
    oversized.canonical = vec![5; 3];
    slate.write(&programs(vec![oversized]), 100);
    assert_eq!(slate.records.executions.len(), 1);
    assert!(!stores_program(&slate, 5));
    assert_eq!(
        slate.corpus_maintenance,
        Some(CorpusMaintenanceStats {
            pruned_executions: 3,
            pruned_programs: 3,
            retained_executions: 1,
            retained_programs: 1,
            retained_program_bytes: 1,
            ..CorpusMaintenanceStats::default()
        })
    );

    slate.write(&programs(vec![program(4, 200)]), 200);
    assert_eq!(slate.records.executions.len(), 1);
    assert_eq!(slate.records.programs.len(), 1);
    assert_eq!(
        slate.corpus_maintenance,
        Some(CorpusMaintenanceStats {
            expired_executions: 1,
            pruned_executions: 3,
            pruned_programs: 4,
            retained_executions: 1,
            retained_programs: 1,
            retained_program_bytes: 1,
            ..CorpusMaintenanceStats::default()
        })
    );

    assert_eq!(slate.erase_corpus(), 2);
    assert_eq!(slate.records.executions.len(), 0);
    assert_eq!(
        slate.corpus_maintenance,
        Some(CorpusMaintenanceStats {
            expired_executions: 1,
            pruned_executions: 3,
            pruned_programs: 4,
            erased_executions: 1,
            erased_programs: 1,
            ..CorpusMaintenanceStats::default()
        })
    );
    assert_eq!(slate.records.programs.len(), 0);

    slate.write(&programs(vec![program(4, 201)]), 201);
    assert_eq!(slate.records.programs.len(), 1);
    assert_eq!(
        slate.corpus_maintenance,
        Some(CorpusMaintenanceStats {
            expired_executions: 1,
            pruned_executions: 3,
            pruned_programs: 4,
            erased_executions: 1,
            erased_programs: 1,
            retained_executions: 1,
            retained_programs: 1,
            retained_program_bytes: 1,
            ..CorpusMaintenanceStats::default()
        })
    );
}

#[test]
fn corpus_startup_maintenance_removes_invalid_entries() {
    let records = StatisticsRecords {
        executions: vec![ExecutionEntry {
            at: None,
            sequence: 0,
            stored: None,
        }],
        programs: vec![ProgramEntry {
            identity: None,
            bytes: b"program".to_vec(),
        }],
        ..StatisticsRecords::default()
    };

    let mut slate = SlateStatistics::new(records);
    assert_eq!(slate.corpus_maintenance, None);
    slate.initialize_corpus_maintenance(0);

    assert_eq!(
        slate.corpus_maintenance,
        Some(CorpusMaintenanceStats {
            invalid_executions: 1,
            invalid_programs: 1,
            ..CorpusMaintenanceStats::default()
        })
    );
    assert_eq!(slate.records.executions.len(), 0);
    assert_eq!(slate.records.programs.len(), 0);
}

// ---- the runner ----

/// A runner with the world around it: what it observes, and where it publishes.
struct Process {
    runner: StatisticsRunner,
    collector: StatisticsCollector,
    now: u64,
}

fn input(collector: &StatisticsCollector, now: u64) -> TickInput {
    TickInput {
        telemetry: None,
        can_survey: false,
        flush_every: 1,
        sink_is_pending: false,
        collector: collector.report(),
        corpus_maintenance: None,
        now,
    }
}

fn encoded(part: &impl std::fmt::Debug) -> Vec<u8> {
    format!("{part:?}").into_bytes()
}

/// What is loaded from a store, with its identity.
fn loaded(slate: &SlateStatistics) -> PersistedStatisticsSnapshot {
    let mut snapshot = slate.records.load_snapshot(DEFAULT_REGISTRY_CAPACITY);
    let models = snapshot.models.iter().map(encoded).collect();
    let synopses = snapshot.synopses.iter().map(encoded).collect();
    snapshot.identify(&models, &synopses);
    snapshot
}

impl Process {
    fn start(config: StatisticsConfig, has_source: bool, has_sink: bool, owns: bool) -> Process {
        Process {
            collector: StatisticsCollector::channel_with_programs(
                config.channel_capacity,
                config.capture_programs,
            ),
            runner: StatisticsRunner::start(config, has_source, has_sink, owns),
            now: 1_000,
        }
    }

    fn drain(&mut self) {
        while let Some(event) = self.collector.receive() {
            self.runner.observe(event, self.now, mean);
        }
    }

    /// One tick against a store, with all that follows from it.
    fn tick(&mut self, slate: &mut SlateStatistics) {
        let actions = self.runner.tick(input(&self.collector, self.now));
        if let Some(batch) = actions.flush {
            slate.write(&batch, self.now);
            self.runner.flushed(Ok(()));
        }
        if actions.refresh {
            self.runner.refreshed(loaded(slate));
        }
        if actions.published {
            self.identify();
        }
    }

    fn load(&mut self, slate: &SlateStatistics) {
        self.runner.refreshed(loaded(slate));
    }

    /// Names the live snapshots by what they hold.
    fn identify(&mut self) {
        let parts = self.runner.snapshot_records();
        let models = parts.models.iter().map(encoded).collect();
        let synopses = parts.synopses.iter().map(encoded).collect();
        self.runner
            .identify(&models, &synopses, &encoded(&parts.workload_frequency));
    }

    fn shutdown(&mut self, slate: &mut SlateStatistics) {
        let batch = self.runner.finish();
        if publication_continues(&batch, false) {
            slate.write(&batch, self.now);
        }
        self.runner
            .take_snapshots(self.collector.report(), None, self.now);
        self.identify();
    }
}

fn feedback(stats: &PlannerStats, seed: u8) -> Option<&FeedbackModel> {
    stats
        .statement_models
        .iter()
        .find(|model| model.family == fingerprint(seed))
}

fn flushing() -> StatisticsConfig {
    StatisticsConfig {
        flush_every: 1,
        refresh_every: 1,
        ..StatisticsConfig::default()
    }
}

#[test]
fn runner_drains_the_collector_and_publishes_snapshots() {
    let mut process = Process::start(StatisticsConfig::default(), false, false, false);
    for index in 0..20 {
        process.collector.statement(observation(1, index, 50));
    }
    process.drain();
    let actions = process.runner.tick(input(&process.collector, 5));
    assert!(actions.published);
    let stats = process.runner.stats();
    assert_eq!(stats.absorbed, 20);
    let model = feedback(stats, 1).unwrap();
    assert_eq!(model.retained_executions, 20);
    assert!(model.rows_p50_upper_bound >= 50);
    assert!(stats.frequency(&fingerprint(1)) >= 20);
    assert_eq!(stats.dropped, 0);
    // Nothing new, nothing published.
    assert!(!process.runner.tick(input(&process.collector, 6)).published);
}

fn physical_snapshot(
    requests: u64,
    buckets: Vec<u64>,
    maximum_micros: u64,
    cache: (u64, u64),
) -> PhysicalTelemetrySnapshot {
    PhysicalTelemetrySnapshot {
        identity: PhysicalTelemetryIdentity {
            backend: "test".to_owned(),
            format: 1,
        },
        capabilities: PhysicalTelemetryCapabilities {
            request_latency: true,
            request_bytes: false,
            cache_tiers: true,
        },
        requests: vec![PhysicalRequestSnapshot {
            class: PhysicalRequestClass::RangeRead,
            condition: PhysicalRequestCondition {
                size_upper_bound: None,
                concurrency_upper_bound: None,
                service_tier: None,
            },
            requests,
            errors: 0,
            latency_micros: Some(CumulativeHistogram {
                boundaries: vec![1_000, 5_000],
                bucket_counts: buckets,
                count: requests,
                maximum: maximum_micros,
            }),
            bytes: None,
        }],
        caches: vec![PhysicalCacheSnapshot {
            tier: PhysicalCacheTier::Memory,
            accesses: cache.0,
            hits: cache.1,
        }],
    }
}

#[test]
fn runner_publishes_instance_local_physical_cost_calibration() {
    let mut process = Process::start(StatisticsConfig::default(), true, false, false);
    let mut first = input(&process.collector, 5);
    first.telemetry = Some(physical_snapshot(0, vec![0, 0, 0], 0, (0, 0)));
    process.runner.tick(first);
    assert!(process.runner.stats().physical_cost.is_none());
    let mut second = input(&process.collector, 6);
    second.telemetry = Some(physical_snapshot(2, vec![0, 2, 0], 4_000, (2, 1)));
    assert!(process.runner.tick(second).published);

    let cost = process
        .runner
        .stats()
        .physical_cost
        .as_ref()
        .expect("physical cost calibration was not published");
    assert_eq!(cost.backend, "test");
    assert_eq!(cost.requests[0].observed_requests, 2);
    assert_eq!(cost.caches[0].hit_rate_ppm, 500_000);
}

#[test]
fn shutdown_publication_stops_when_the_sink_returns_the_batch() {
    let mut attempts = 0;
    let mut batch = StatisticsBatch {
        frequency: vec![(fingerprint(1), 1)],
        ..StatisticsBatch::default()
    };
    while publication_continues(&batch, false) {
        attempts += 1;
        match next_publication(Err(batch), false) {
            Some(next) => batch = next,
            None => break,
        }
    }
    assert_eq!(attempts, 1);
}

#[test]
fn a_slow_sink_does_not_stop_observation_drain() {
    let mut process = Process::start(flushing(), false, true, false);
    process.collector.statement(observation(1, 1, 10));
    process.drain();
    let actions = process.runner.tick(input(&process.collector, 5));
    assert!(actions.flush.is_some());

    for index in 0..20 {
        process.collector.statement(observation(1, index, 20));
    }
    process.drain();
    // The publication runs: no second one begins, and observation goes on.
    let actions = process.runner.tick(input(&process.collector, 6));
    assert!(actions.flush.is_none());
    assert_eq!(process.runner.stats().absorbed, 21);
    process.runner.flushed(Ok(()));
    let actions = process.runner.tick(input(&process.collector, 7));
    assert_eq!(actions.flush.expect("the next batch").models[0].1.executions, 20);
}

#[test]
fn initial_model_loading_does_not_stop_observation_drain() {
    let mut process = Process::start(StatisticsConfig::default(), true, false, false);
    for index in 0..20 {
        process.collector.statement(observation(1, index, 20));
    }
    process.drain();
    process.runner.tick(input(&process.collector, 5));
    assert_eq!(process.runner.stats().absorbed, 20);
}

#[test]
fn models_and_table_changes_survive_a_runner_restart() {
    let mut slate = new_store();
    let mut first = Process::start(flushing(), true, true, true);
    first.load(&slate);
    for index in 0..5 {
        let mut observed = observation(1, index, 40);
        observed.mutated = Some(9);
        observed.kv = KvResourceSample {
            gets: u64::from(index) + 1,
            scans: 1,
            iterated: 40,
            bytes_read: 400,
            bytes_written: 100,
            ..KvResourceSample::default()
        };
        first.collector.statement(observed);
    }
    first.drain();
    first.tick(&mut slate);
    first.shutdown(&mut slate);

    assert_eq!(slate.records.table_changes, vec![(9, 200)]);

    let mut second = Process::start(flushing(), true, true, true);
    second.load(&slate);
    second.tick(&mut slate);
    let stats = second.runner.stats();
    let model = feedback(stats, 1).expect("persisted model never loaded");
    assert_eq!(model.retained_executions, 5);
    assert!(model.rows_p50_upper_bound >= 40);
    assert_eq!(stats.frequency(&fingerprint(1)), 5);
    assert_eq!(model.plan_profiles.len(), 1);
    assert_eq!(model.plan_profiles[0].executions, 5);
    assert_eq!(model.plan_profiles[0].execute_micros_p50_upper_bound(), 400);
    let cost = model.resources.cost().expect("resource cost");
    assert_eq!(cost.observed_executions, 5);
    assert_eq!(cost.gets.maximum, 5);
    assert_eq!(cost.scans.maximum, 1);
    assert_eq!(cost.iterated.maximum, 40);
    assert_eq!(cost.bytes_read.maximum, 400);
    assert_eq!(cost.bytes_written.maximum, 100);
    assert_eq!(
        model.plan_profiles[0]
            .resources
            .cost()
            .expect("plan resource cost")
            .gets
            .maximum,
        5
    );
}

#[test]
fn stored_evidence_accumulates_across_restarts_rather_than_resetting() {
    let mut slate = new_store();
    let mut serve = |executions: u64| {
        let mut process = Process::start(flushing(), true, true, true);
        process.load(&slate);
        for index in 0..executions {
            process
                .collector
                .statement(observation(1, index as u8, 40));
        }
        process.drain();
        process.tick(&mut slate);
        let retained = feedback(process.runner.stats(), 1)
            .expect("the family this process observed")
            .retained_executions;
        process.shutdown(&mut slate);
        retained
    };

    assert_eq!(serve(5), 5);
    assert_eq!(
        serve(3),
        8,
        "a restart discarded the evidence gathered before it"
    );
    assert_eq!(serve(2), 10);
}

#[test]
fn an_owner_publishes_nothing_before_it_has_loaded() {
    let mut process = Process::start(flushing(), true, true, true);
    process.collector.statement(observation(1, 1, 10));
    process.drain();
    assert!(process.runner.tick(input(&process.collector, 5)).flush.is_none());
    process
        .runner
        .refreshed(PersistedStatisticsSnapshot::new(&Vec::new(), &Vec::new(), &Vec::new()));
    assert!(process.runner.tick(input(&process.collector, 6)).flush.is_some());
}

#[test]
fn a_source_only_instance_refreshes_published_models() {
    let mut slate = new_store();
    let mut writer = Process::start(flushing(), true, true, true);
    writer.load(&slate);
    for index in 0..12 {
        writer.collector.statement(observation(1, index, 70));
    }
    writer.drain();
    writer.tick(&mut slate);
    assert_eq!(writer.runner.stats().absorbed, 12);
    writer.shutdown(&mut slate);

    // A reader instance holds no sink: it cannot publish, but it must be able to
    // plan from what the writer established.
    let mut reader = Process::start(flushing(), true, false, false);
    reader.load(&slate);
    reader.tick(&mut slate);
    let model = feedback(reader.runner.stats(), 1).expect("the published model");
    assert_eq!(model.retained_executions, 12);
    assert!(model.rows_p50_upper_bound >= 70);
    let planning = reader.runner.planning_stats();
    assert_eq!(planning.scope, StatisticsScope::Persisted);
    assert_eq!(planning.snapshot_identity.len(), 32);
    assert_eq!(
        feedback(planning, 1)
            .expect("persisted planning model")
            .retained_executions,
        12
    );
    let planning_identity = planning.snapshot_identity.clone();

    let mut peer = Process::start(flushing(), true, false, false);
    peer.load(&slate);
    peer.tick(&mut slate);
    assert_eq!(peer.runner.planning_stats().snapshot_identity, planning_identity);
    assert!(feedback(peer.runner.planning_stats(), 1).is_some());

    reader.collector.statement(observation(2, 1, 9));
    reader.drain();
    reader.tick(&mut slate);
    reader.tick(&mut slate);
    assert!(feedback(reader.runner.stats(), 2).is_some());
    assert!(feedback(reader.runner.planning_stats(), 2).is_none());
    assert_eq!(reader.runner.planning_stats().snapshot_identity, planning_identity);
    assert_eq!(peer.runner.planning_stats().snapshot_identity, planning_identity);
}

#[test]
fn an_owner_plans_from_the_snapshot_that_it_shows() {
    let mut slate = new_store();
    let mut writer = Process::start(flushing(), true, true, true);
    writer.load(&slate);
    writer.collector.statement(observation(1, 1, 70));
    writer.drain();
    writer.tick(&mut slate);
    let shown = writer.runner.stats().snapshot_identity.clone();
    assert_eq!(shown.len(), 32);
    assert_eq!(writer.runner.planning_stats().snapshot_identity, shown);
    writer.collector.statement(observation(2, 1, 70));
    writer.drain();
    writer.tick(&mut slate);
    assert_ne!(writer.runner.stats().snapshot_identity, shown);
}

#[test]
fn nothing_stored_has_an_identity_too() {
    let mut empty = PersistedStatisticsSnapshot::new(&Vec::new(), &Vec::new(), &Vec::new());
    empty.identify(&Vec::new(), &Vec::new());
    let nothing = PersistedStatisticsSnapshot::default();
    assert_eq!(nothing.identity.len(), 32);
    assert_eq!(nothing.identity, empty.identity);
}

fn wire(sequence: u64, models: Vec<QueryModel>, frequency: Vec<(Fingerprint, u32)>) -> ObservationBatch {
    ObservationBatch {
        format: RELAY_FORMAT,
        instance: "reader-1".into(),
        boot: "boot-1".into(),
        sequence,
        sent_at_micros: 0,
        families: models,
        frequency,
        corpus: Vec::new(),
    }
}

#[test]
fn a_reader_adopts_relayed_evidence_only_after_writer_publication() {
    let mut slate = new_store();
    let mut writer = Process::start(flushing(), true, true, true);
    writer.load(&slate);
    let mut reader = Process::start(flushing(), true, false, false);
    reader.load(&slate);
    let family = fingerprint(9);
    let mut relayed = QueryModel::new(family, ObservationModelKind::Statement);
    relayed.executions = 6;
    let mut ingest = RelayIngest::channel(8);
    assert_eq!(
        ingest.submit(wire(1, vec![relayed], vec![(family, 6)])),
        IngestOutcome::Accepted
    );
    writer.runner.relayed(ingest.receive().expect("the batch"), 10);

    // The writer plans from it at once; the reader does not know of it.
    let mut unflushed = input(&writer.collector, 11);
    unflushed.flush_every = 1_000_000;
    assert!(writer.runner.tick(unflushed).published);
    assert!(feedback(writer.runner.planning_stats(), 9).is_some());
    reader.tick(&mut slate);
    assert!(feedback(reader.runner.planning_stats(), 9).is_none());

    writer.shutdown(&mut slate);
    reader.tick(&mut slate);
    reader.tick(&mut slate);
    assert!(feedback(reader.runner.planning_stats(), 9).is_some());
}

#[test]
fn a_runner_folds_a_relayed_batch_into_its_published_models() {
    let mut process = Process::start(StatisticsConfig::default(), false, false, false);
    let mut ingest = RelayIngest::channel(8);
    let mut model = QueryModel::new(fingerprint(1), ObservationModelKind::Statement);
    for _ in 0..6 {
        model.rows.record(40);
        model.executions += 1;
    }
    let outcome = ingest.submit(wire(1, vec![model], vec![(fingerprint(2), 4)]));
    assert_eq!(outcome, IngestOutcome::Accepted);
    process
        .runner
        .relayed(ingest.receive().expect("the batch"), 10);
    process.runner.tick(input(&process.collector, 11));

    let stats = process.runner.stats();
    let model = feedback(stats, 1).expect("relayed evidence never reached the published models");
    assert_eq!(model.retained_executions, 6);
    assert!(stats.frequency(&fingerprint(2)) >= 4);
    assert_eq!(relay_report(None, &ingest).receiving.accepted, 1);
}

#[test]
fn corpus_stores_programs_once_and_logs_every_execution() {
    let mut slate = new_store();
    let mut process = Process::start(
        StatisticsConfig {
            flush_every: 1,
            capture_programs: true,
            ..StatisticsConfig::default()
        },
        true,
        true,
        true,
    );
    process.load(&slate);
    let now = process.now;
    let record = |at_unix_micros| ProgramRecord {
        canonical: br#"{"statements":[]}"#.to_vec(),
        content_hash: u128::from_be_bytes([7; 16]),
        at_unix_micros,
        statements: 1,
        outcomes: vec![ProgramStatementOutcome {
            name: "read".into(),
            rows: 7,
        }],
    };
    process.collector.program(record(now));
    process.collector.program(record(now + 1));
    process.drain();
    process.tick(&mut slate);
    process.shutdown(&mut slate);

    assert_eq!(slate.records.programs.len(), 1);
    assert_eq!(slate.records.programs[0].bytes, record(now).canonical);
    assert!(stores_program(&slate, 7));
    let mut executions = 0;
    for entry in &slate.records.executions {
        assert_eq!(
            entry.stored.as_ref().expect("a log entry").program,
            "07".repeat(16)
        );
        executions += 1;
    }
    assert_eq!(executions, 2);
    let replayed = slate.records.load_corpus(10);
    assert_eq!(replayed.len(), 2);
    assert_eq!(replayed[0].outcomes, record(now).outcomes);
}

#[test]
fn only_a_write_instance_surveys() {
    let config = StatisticsConfig {
        survey_every: 1,
        ..StatisticsConfig::default()
    };
    let mut reader = Process::start(config, false, false, false);
    for now in 5..25 {
        reader.collector.statement(observation(1, 1, 10));
        reader.drain();
        let actions = reader.runner.tick(input(&reader.collector, now));
        assert!(
            actions.survey.is_none(),
            "a read instance surveyed the whole database for a synopsis it cannot publish"
        );
        assert!(reader.runner.stats().synopsis_models.is_empty());
    }

    let mut writer = Process::start(config, false, false, false);
    let mut writing = input(&writer.collector, 5);
    writing.can_survey = true;
    let request = writer.runner.tick(writing).survey.expect("a survey");
    assert_eq!(request.now_micros, 5);
    writer.runner.surveyed(Some((synopsis(7), 0)));
    writer.runner.tick(input(&writer.collector, 6));
    assert_eq!(writer.runner.stats().synopsis_models.len(), 1);
}

/// Publishes through the relay; the script says what the transport answers.
fn relay_publish(
    sink: &mut RelaySink,
    script: &mut Vec<Result<(), TransportError>>,
    delivered: &mut usize,
    batch: StatisticsBatch,
) -> Result<(), StatisticsBatch> {
    let mut answer = |script: &mut Vec<Result<(), TransportError>>| {
        *delivered += 1;
        if script.is_empty() {
            Ok(())
        } else {
            script.remove(0)
        }
    };
    let held = if sink.held().is_some() {
        answer(script)
    } else {
        Ok(())
    };
    match sink.publish(batch, held, false, 1_000) {
        Publication::Stuck(batch) => Err(batch),
        Publication::Done => Ok(()),
        Publication::Submit(wire) => {
            let outcome = answer(script);
            sink.settle_sent(wire, outcome);
            Ok(())
        }
    }
}

#[test]
fn the_runner_retries_a_held_batch_without_new_evidence() {
    let mut script = vec![Err(TransportError::Unavailable), Ok(())];
    let mut delivered = 0;
    let mut sink = RelaySink::new("reader-1".into(), "boot".into());
    let mut process = Process::start(flushing(), false, true, false);
    process.collector.statement(observation(1, 1, 1));
    process.drain();
    for now in 0..3 {
        let mut tick = input(&process.collector, now);
        tick.sink_is_pending = sink.has_pending_publication();
        if let Some(batch) = process.runner.tick(tick).flush {
            let result = relay_publish(&mut sink, &mut script, &mut delivered, batch);
            process.runner.flushed(result);
        }
    }
    assert_eq!(sink.counters().sent, 1);
    assert_eq!(delivered, 2);
    assert!(!sink.counters().holding);
    assert_eq!(
        relay_report(Some(&sink), &RelayIngest::channel(1))
            .sending
            .expect("a sender")
            .sent,
        1
    );
}

#[test]
fn shutdown_drains_a_held_batch() {
    let mut script = vec![
        Err(TransportError::Unavailable),
        Err(TransportError::Unavailable),
        Ok(()),
    ];
    let mut delivered = 0;
    let mut sink = RelaySink::new("reader-1".into(), "boot".into());
    let mut model = QueryModel::new(fingerprint(1), ObservationModelKind::Statement);
    model.executions = 1;
    assert!(relay_publish(
        &mut sink,
        &mut script,
        &mut delivered,
        StatisticsBatch {
            models: vec![(fingerprint(1), model)],
            ..StatisticsBatch::default()
        }
    )
    .is_ok());
    assert!(sink.counters().holding);

    let mut process = Process::start(StatisticsConfig::default(), false, true, false);
    let mut batch = process.runner.finish();
    while publication_continues(&batch, sink.has_pending_publication()) {
        let result = relay_publish(&mut sink, &mut script, &mut delivered, batch);
        match next_publication(result, sink.has_pending_publication()) {
            Some(next) => batch = next,
            None => break,
        }
    }

    assert_eq!(sink.counters().sent, 1);
    assert!(!sink.counters().holding);
}

// ---- further scenarios ----

#[test]
fn a_batch_that_could_not_be_published_is_kept() {
    let mut process = Process::start(flushing(), false, true, false);
    process.collector.statement(observation(1, 1, 10));
    process.drain();
    let batch = process
        .runner
        .tick(input(&process.collector, 5))
        .flush
        .expect("a batch");
    process.runner.flushed(Err(batch));
    process.collector.statement(observation(1, 2, 10));
    process.drain();
    let batch = process
        .runner
        .tick(input(&process.collector, 6))
        .flush
        .expect("both observations");
    assert_eq!(batch.models[0].1.executions, 2);
}

#[test]
fn identities_are_digests_of_framed_records() {
    let first = statistics_identity("kind", &vec![vec![1, 2], vec![3]]);
    let second = statistics_identity("kind", &vec![vec![1], vec![2, 3]]);
    let third = statistics_identity("other", &vec![vec![1, 2], vec![3]]);
    assert_eq!(first.len(), 32);
    assert_ne!(first, second);
    assert_ne!(first, third);
    assert!(first.chars().all(|digit| digit.is_ascii_hexdigit()));
}

#[test]
fn hashes_are_written_and_read_as_hexadecimal() {
    let hash = u128::from_be_bytes([7; 16]);
    assert_eq!(hash_text(hash), "07".repeat(16));
    assert_eq!(decode_hash(&hash_text(hash)), Some(vec![7; 16]));
    assert_eq!(decode_hash("07"), Some(vec![7]));
    assert_eq!(decode_hash("070"), None);
    assert_eq!(decode_hash(&"zz".repeat(16)), None);
}

#[test]
fn errors_of_the_corpus_say_what_is_missing() {
    for message in [
        CorpusEraseError::Unavailable.message(),
        CorpusReplayError::Unavailable.message(),
        CorpusReplayError::EngineUnavailable.message(),
    ] {
        assert!(!message.is_empty());
    }
    assert!(CorpusEraseError::Storage("disk".into()).message().contains("disk"));
    assert!(CorpusReplayError::Engine("bind".into()).message().contains("bind"));
    assert!(CorpusReplayError::Storage("disk".into()).message().contains("disk"));
}

#[test]
fn an_event_is_what_was_collected() {
    let mut collector = StatisticsCollector::channel(1);
    collector.statement(observation(3, 3, 1));
    assert!(matches!(
        collector.receive(),
        Some(StatisticsEvent::Statement(observed)) if observed.family == fingerprint(3)
    ));
    assert_eq!(collector.report(), CollectorReport::default());
}

#[test]
fn a_retention_accounts_for_everything() {
    let program = |seed: u8| ProgramEntry {
        identity: Some((1, vec![seed; 16])),
        bytes: vec![seed; 10],
    };
    let execution = |at: u64, seed: u8| ExecutionEntry {
        at: Some(at),
        sequence: at,
        stored: Some(StoredCorpusExecution {
            program: hash_text(u128::from_be_bytes([seed; 16])),
            canonical_version: 1,
            statements: 1,
            outcomes: Vec::new(),
        }),
    };
    let programs = vec![
        program(1),
        program(2),
        program(3),
        ProgramEntry { identity: None, bytes: Vec::new() },
    ];
    let executions = vec![
        execution(5, 1),
        ExecutionEntry { at: None, sequence: 0, stored: None },
        execution(110, 1),
        execution(120, 2),
        execution(130, 3),
        execution(140, 3),
    ];
    let policy = CorpusPolicy { max_executions: 3, max_bytes: 15, max_age: 100 };
    let (kept_programs, kept, _, report) = retain_corpus(&programs, &executions, 150, policy);
    assert_eq!(report.expired_executions, 1);
    assert_eq!(report.invalid_executions, 1);
    assert_eq!(report.pruned_executions, 2);
    assert_eq!(report.retained_executions, 2);
    assert_eq!(kept.len(), 2);
    assert_eq!(report.invalid_programs, 1);
    assert_eq!(report.pruned_programs, 2);
    assert_eq!(report.retained_programs, 1);
    assert_eq!(kept_programs.len(), 1);
    assert_eq!(report.retained_program_bytes, 10);
}
