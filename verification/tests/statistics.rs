//! What is learned from executions: registries, batches, sketches and models.

use rad::scheduler::batch::{StatisticsBatch, StatisticsConfig};
use rad::scheduler::collector::{
    StatisticsCollector, StatisticsEvent, CORPUS_MAX_PROGRAM_BYTES,
};
use rad::scheduler::evidence::{q_error_x100, DependencyStamp, KvResourceSample};
use rad::scheduler::histogram::Log2Histogram;
use rad::scheduler::identity::{decode_hash, hash_text, push_big_endian};
use rad::scheduler::model::{
    ObservationModelKind, QueryModel, RelationFingerprints, RelationObservation,
    StatementObservation,
};
use rad::scheduler::physical::{
    CumulativeHistogram, PhysicalCacheSnapshot, PhysicalCacheTier, PhysicalCostRegistry,
    PhysicalRequestClass, PhysicalRequestCondition, PhysicalRequestSnapshot,
    PhysicalTelemetryCapabilities, PhysicalTelemetryIdentity, PhysicalTelemetrySnapshot,
};
use rad::scheduler::planner::{
    distill_with_persisted, CollectorReport, PersistedStatisticsSnapshot, PlannerStats,
    StatisticsScope,
};
use rad::scheduler::records::{decay_frequency, ProgramRecord, SynopsisModel};
use rad::scheduler::registry::{HotRegistry, MAX_PENDING_PROGRAMS};
use rad::scheduler::sketches::{Fingerprint, FrequencySketch};
use rad::scheduler::sorting::{sorted_order, Key};
use rad::scheduler::synopsis::{
    ColumnGroupSynopsis, DegreeSequenceSegment, Distributions, PredicateConditionedDegreeSynopsis,
};

/// The moving mean of durations, as the bits of a number.
fn mean(last: Option<u64>, micros: u64) -> u64 {
    match last {
        None => (micros as f64).to_bits(),
        Some(bits) => (0.1 * micros as f64 + 0.9 * f64::from_bits(bits)).to_bits(),
    }
}

fn fingerprint(seed: u8) -> Fingerprint {
    let mut digest = [0u8; 16];
    for (index, byte) in digest.iter_mut().enumerate() {
        *byte = seed.wrapping_mul(31).wrapping_add(index as u8);
    }
    Fingerprint {
        canonicalization_version: 1,
        hash_algorithm: 1,
        digest: u128::from_be_bytes(digest),
    }
}

fn observation(family_seed: u8, exact_seed: u8, rows: u64) -> StatementObservation {
    let family = fingerprint(family_seed);
    let exact = fingerprint(exact_seed);
    StatementObservation {
        exact,
        family,
        subtrees: vec![RelationFingerprints { exact, family }],
        plan: Some(fingerprint(family_seed.wrapping_add(100))),
        bind_micros: 50,
        execute_micros: 400,
        rows,
        estimate: None,
        stamp: DependencyStamp::default(),
        relations: Vec::new(),
        affected: rows,
        mutated: None,
        kv: KvResourceSample::default(),
    }
}

fn synopsis(table: u64, collected_at_unix_micros: u64) -> SynopsisModel {
    SynopsisModel {
        table,
        observed_rows: 100,
        sample_size: 100,
        changes_since_collection: 0,
        table_existence_generation: 0,
        collected_at_unix_micros,
        catalog_version: 1,
        distributions: Distributions::default(),
    }
}

fn statement_model(registry: &HotRegistry, seed: u8) -> &QueryModel {
    registry
        .model(ObservationModelKind::Statement, &fingerprint(seed))
        .expect("statement model")
}

fn knows_relation(stats: &PlannerStats, family: &Fingerprint) -> bool {
    stats.feedback_models.iter().any(|model| model.family == *family)
}

fn knows_statement(stats: &PlannerStats, family: &Fingerprint) -> bool {
    stats.statement_models.iter().any(|model| model.family == *family)
}

fn identified(
    models: Vec<QueryModel>,
    frequencies: Vec<(Fingerprint, u32)>,
) -> PersistedStatisticsSnapshot {
    let mut snapshot = PersistedStatisticsSnapshot::new(&models, &Vec::new(), &frequencies);
    let encoded: Vec<Vec<u8>> = snapshot
        .models
        .iter()
        .map(|model| format!("{model:?}").into_bytes())
        .collect();
    snapshot.identify(&encoded, &Vec::new());
    snapshot
}

#[test]
fn persisted_snapshot_identity_is_canonical_and_content_sensitive() {
    let mut first = QueryModel::new(fingerprint(1), ObservationModelKind::Statement);
    first.executions = 3;
    let mut second = QueryModel::new(fingerprint(2), ObservationModelKind::Relation);
    second.executions = 5;
    let canonical = identified(
        vec![first.copy(), second.copy()],
        vec![(fingerprint(1), 7), (fingerprint(2), 11)],
    );
    let reordered = identified(
        vec![second.copy(), first.copy()],
        vec![(fingerprint(2), 11), (fingerprint(1), 7)],
    );
    let changed = identified(
        vec![first, second],
        vec![(fingerprint(1), 8), (fingerprint(2), 11)],
    );

    assert_eq!(canonical.identity, reordered.identity);
    assert_ne!(canonical.identity, changed.identity);
    assert_eq!(canonical.identity.len(), 32);
}

fn encoded(part: &impl std::fmt::Debug) -> Vec<u8> {
    format!("{part:?}").into_bytes()
}

fn identified_stats(registry: &HotRegistry) -> PlannerStats {
    let mut stats = registry.distill(CollectorReport::default(), 0);
    let parts = stats.canonical();
    let models = parts.models.iter().map(encoded).collect();
    let synopses = parts.synopses.iter().map(encoded).collect();
    stats.identify(&models, &synopses, &encoded(&parts.workload_frequency));
    stats
}

#[test]
fn live_snapshot_identity_changes_with_planner_content() {
    let mut registry = HotRegistry::new(16);
    let empty = identified_stats(&registry);
    registry.absorb(&observation(1, 1, 10), 0, mean);
    let observed = identified_stats(&registry);

    assert_eq!(empty.snapshot_identity.len(), 32);
    assert_eq!(observed.snapshot_identity.len(), 32);
    assert_ne!(empty.snapshot_identity, observed.snapshot_identity);
}

#[test]
fn live_snapshots_have_one_canonical_form() {
    let mut registry = HotRegistry::new(16);
    registry.absorb(&observation(2, 1, 10), 0, mean);
    registry.absorb(&observation(1, 1, 10), 0, mean);
    registry.set_synopsis(synopsis(9, 5), 0);
    registry.set_synopsis(synopsis(4, 5), 0);
    let stats = registry.distill(CollectorReport::default(), 0);
    let parts = stats.canonical();
    let mut families = [fingerprint(1), fingerprint(2)];
    families.sort_by_key(|family| family.digest);
    let statements: Vec<Fingerprint> = parts
        .models
        .iter()
        .filter(|(kind, _)| *kind == ObservationModelKind::Statement)
        .map(|(_, model)| model.family)
        .collect();
    assert_eq!(statements, families);
    let tables: Vec<u64> = parts.synopses.iter().map(|synopsis| synopsis.table).collect();
    assert_eq!(tables, [4, 9]);
    assert_eq!(parts.workload_frequency, stats.workload_frequency);
    assert_eq!(identified_stats(&registry).snapshot_identity.len(), 32);
}

fn physical_snapshot(
    backend: &str,
    requests: u64,
    errors: u64,
    buckets: Vec<u64>,
    maximum_micros: u64,
    cache: (u64, u64),
) -> PhysicalTelemetrySnapshot {
    PhysicalTelemetrySnapshot {
        identity: PhysicalTelemetryIdentity {
            backend: backend.to_owned(),
            format: 1,
        },
        capabilities: PhysicalTelemetryCapabilities {
            request_latency: true,
            request_bytes: false,
            cache_tiers: true,
        },
        requests: vec![PhysicalRequestSnapshot {
            class: PhysicalRequestClass::RangeRead,
            condition: PhysicalRequestCondition {
                size_upper_bound: None,
                concurrency_upper_bound: None,
                service_tier: None,
            },
            requests,
            errors,
            latency_micros: Some(CumulativeHistogram {
                boundaries: vec![1_000, 5_000],
                bucket_counts: buckets,
                count: requests,
                maximum: maximum_micros,
            }),
            bytes: None,
        }],
        caches: vec![PhysicalCacheSnapshot {
            tier: PhysicalCacheTier::Memory,
            accesses: cache.0,
            hits: cache.1,
        }],
    }
}

#[test]
fn physical_cost_calibration_uses_only_new_cumulative_samples() {
    let mut registry = PhysicalCostRegistry::default();
    assert!(!registry.observe(physical_snapshot(
        "test",
        4,
        0,
        vec![1, 3, 0],
        4_000,
        (10, 4),
    )));
    assert!(registry.model().is_none());

    assert!(registry.observe(physical_snapshot(
        "test",
        7,
        1,
        vec![1, 5, 1],
        8_000,
        (15, 7),
    )));
    let model = registry.model().expect("physical cost model");
    assert_eq!(model.backend, "test");
    assert_eq!(model.requests.len(), 1);
    assert_eq!(model.requests[0].observed_requests, 3);
    assert_eq!(model.requests[0].errors, 1);
    let latency = model.requests[0].latency_micros.expect("latency");
    assert!(latency.p50_upper_bound >= 5_000);
    assert_eq!(latency.maximum_upper_bound, 8_000);
    assert_eq!(model.caches[0].accesses, 5);
    assert_eq!(model.caches[0].hits, 3);
    assert_eq!(model.caches[0].hit_rate_ppm, 600_000);
    assert!(model.capabilities.request_latency);
    assert!(!model.capabilities.request_bytes);
}

#[test]
fn physical_cost_calibration_resets_for_a_new_backend_identity() {
    let mut registry = PhysicalCostRegistry::default();
    registry.observe(physical_snapshot("first", 1, 0, vec![1, 0, 0], 500, (1, 1)));
    registry.observe(physical_snapshot("first", 2, 0, vec![2, 0, 0], 500, (2, 2)));
    assert!(registry.model().is_some());

    assert!(!registry.observe(physical_snapshot(
        "second",
        100,
        20,
        vec![50, 30, 20],
        20_000,
        (100, 50),
    )));
    assert!(registry.model().is_none());
}

#[test]
fn physical_cost_calibration_keeps_request_conditions_separate() {
    let mut registry = PhysicalCostRegistry::default();
    let two_requests = || {
        let mut snapshot = physical_snapshot("test", 0, 0, vec![0, 0, 0], 0, (0, 0));
        snapshot.requests[0].condition.size_upper_bound = Some(4_096);
        let mut larger = physical_snapshot("test", 0, 0, vec![0, 0, 0], 0, (0, 0))
            .requests
            .remove(0);
        larger.condition.size_upper_bound = Some(1_048_576);
        snapshot.requests.push(larger);
        snapshot
    };
    let initial = two_requests();

    let mut current = two_requests();
    current.requests[0].requests = 2;
    current.requests[0]
        .latency_micros
        .as_mut()
        .expect("small latency")
        .bucket_counts = vec![0, 2, 0];
    current.requests[0]
        .latency_micros
        .as_mut()
        .expect("small latency")
        .count = 2;
    current.requests[1].requests = 1;
    current.requests[1]
        .latency_micros
        .as_mut()
        .expect("large latency")
        .bucket_counts = vec![0, 0, 1];
    current.requests[1]
        .latency_micros
        .as_mut()
        .expect("large latency")
        .count = 1;
    current.requests[1]
        .latency_micros
        .as_mut()
        .expect("large latency")
        .maximum = 20_000;

    assert!(!registry.observe(initial));
    assert!(registry.observe(current));
    let model = registry.model().expect("physical cost model");
    assert_eq!(model.requests.len(), 2);
    assert_eq!(model.requests[0].size_upper_bound, Some(4_096));
    assert_eq!(model.requests[0].observed_requests, 2);
    assert_eq!(model.requests[1].size_upper_bound, Some(1_048_576));
    assert_eq!(model.requests[1].observed_requests, 1);
}

#[test]
fn malformed_physical_histograms_do_not_create_latency_evidence() {
    let mut registry = PhysicalCostRegistry::default();
    registry.observe(physical_snapshot("test", 1, 0, vec![1, 0, 0], 500, (0, 0)));
    registry.observe(physical_snapshot("test", 2, 0, vec![2], 800, (0, 0)));
    let model = registry.model().expect("request count model");
    assert!(model.requests[0].latency_micros.is_none());

    registry.observe(physical_snapshot("test", 3, 0, vec![3, 0, 0], 900, (0, 0)));
    let calibration = registry.requests.first().expect("request model");
    assert_eq!(calibration.observed_requests, 2);
    assert_eq!(calibration.latency_micros.count(), 2);
}

#[test]
fn registry_builds_models_and_tracks_frequency() {
    let mut registry = HotRegistry::new(16);
    for index in 0..10 {
        registry.absorb(&observation(1, index, 100 + u64::from(index)), 0, mean);
    }
    registry.absorb(&observation(2, 200, 5), 1_000_000, mean);

    let hot = statement_model(&registry, 1);
    assert_eq!(hot.executions, 10);
    assert!(hot.rows.quantile_upper_bound(50) >= 100);
    assert!(hot.exact_variants.estimate() >= 9);
    assert_eq!(hot.plans.len(), 1);
    assert_eq!(hot.plans[0].1, 10);
    assert!(registry.frequency(&fingerprint(1)) >= 10);
    assert!(registry.frequency(&fingerprint(2)) >= 1);
    assert_eq!(registry.frequency(&fingerprint(3)), 0);
}

#[test]
fn plan_profiles_partition_access_generations() {
    let mut registry = HotRegistry::new(16);
    let mut first = observation(1, 1, 10);
    first.stamp.access = 7;
    registry.absorb(&first, 0, mean);
    registry.absorb(&first, 0, mean);
    let mut second = observation(1, 1, 10);
    second.stamp.access = 8;
    registry.absorb(&second, 0, mean);

    let model = statement_model(&registry, 1);
    assert_eq!(model.plan_profiles.len(), 2);
    assert_eq!(
        model
            .plan_profiles
            .iter()
            .find(|profile| profile.access_stamp == 7)
            .expect("first access generation")
            .executions,
        2
    );
    assert_eq!(
        model
            .plan_profiles
            .iter()
            .find(|profile| profile.access_stamp == 8)
            .expect("second access generation")
            .executions,
        1
    );
}

#[test]
fn measured_relations_do_not_increment_subtree_frequency_twice() {
    let mut registry = HotRegistry::new(16);
    let mut observed = observation(1, 1, 10);
    let relation_family = fingerprint(2);
    observed.subtrees = vec![RelationFingerprints {
        exact: fingerprint(3),
        family: relation_family,
    }];
    observed.relations.push(RelationObservation {
        family: relation_family,
        rows: 5,
        estimate: None,
    });

    registry.absorb(&observed, 0, mean);

    assert_eq!(registry.frequency(&relation_family), 1);
    assert_eq!(registry.frequency(&observed.family), 1);
    let stats = registry.distill(CollectorReport::default(), 0);
    assert!(knows_relation(&stats, &relation_family));
    assert!(knows_statement(&stats, &observed.family));
    assert!(!knows_relation(&stats, &observed.family));
}

#[test]
fn a_root_relation_and_its_statement_keep_separate_models() {
    let mut registry = HotRegistry::new(16);
    let mut observed = observation(1, 1, 10);
    observed.relations.push(RelationObservation {
        family: observed.family,
        rows: 4,
        estimate: None,
    });

    registry.absorb(&observed, 1_000_000, mean);

    let relation = registry
        .model(ObservationModelKind::Relation, &observed.family)
        .expect("relation model");
    let statement = registry
        .model(ObservationModelKind::Statement, &observed.family)
        .expect("statement model");
    assert_eq!(relation.rows.maximum(), 4);
    assert_eq!(relation.execute_micros.count(), 0);
    assert_eq!(statement.rows.maximum(), 10);
    assert_eq!(statement.execute_micros.count(), 1);
    assert_eq!(registry.len(), 2);
}

#[test]
fn persisted_writer_models_replace_reader_local_models() {
    let family = fingerprint(1);
    let mut registry = HotRegistry::new(16);
    for index in 0..3 {
        registry.absorb(&observation(1, index, 10), 0, mean);
    }

    let mut writer_model = QueryModel::new(family, ObservationModelKind::Statement);
    writer_model.executions = 20;
    writer_model.rows.record(900);
    let persisted =
        PersistedStatisticsSnapshot::new(&vec![writer_model], &Vec::new(), &vec![(family, 10)]);

    let stats = distill_with_persisted(
        &registry,
        &persisted,
        None,
        CollectorReport::default(),
        None,
        0,
    );
    let model = stats
        .statement_models
        .iter()
        .find(|model| model.family == family)
        .expect("writer model");
    assert_eq!(model.retained_executions, 20);
    assert_eq!(model.rows_max, 900);
    assert_eq!(stats.frequency(&family), 10);
}

#[test]
fn synopsis_drift_survives_a_survey_and_an_overlapping_flush() {
    let table = 7;
    let mutation = |affected| {
        let mut observation = observation(1, 1, affected);
        observation.mutated = Some(table);
        observation
    };
    let mut registry = HotRegistry::new(16);
    registry.set_synopses(vec![synopsis(table, 1)]);
    registry.synopses_dirty = false;

    registry.absorb(&mutation(5), 0, mean);
    let request = registry.survey_request(&StatisticsConfig::default(), 0);
    assert_eq!(
        request.changed.iter().find(|(changed, _)| *changed == table),
        Some(&(table, 5))
    );
    registry.absorb(&mutation(2), 0, mean);
    registry.set_synopsis(synopsis(table, 2), 5);
    assert_eq!(registry.synopses[0].table, table);
    assert_eq!(registry.synopses[0].changes_since_collection, 2);

    let publishing = registry.take_batch();
    assert_eq!(publishing.synopses[0].changes_since_collection, 2);
    registry.absorb(&mutation(3), 0, mean);
    registry.batch_published(&publishing);
    let next = registry.take_batch();
    assert_eq!(next.synopses[0].changes_since_collection, 5);
}

#[test]
fn synopsis_loading_includes_writes_observed_during_startup() {
    let table = 7;
    let mut mutation = observation(1, 1, 4);
    mutation.mutated = Some(table);
    let mut registry = HotRegistry::new(16);
    registry.absorb(&mutation, 0, mean);
    let mut stored = synopsis(table, 1);
    stored.changes_since_collection = 6;
    registry.hydrate_synopses(vec![stored]);

    assert_eq!(registry.synopses[0].changes_since_collection, 10);
    assert_eq!(registry.take_batch().synopses.len(), 1);
}

#[test]
fn a_moved_semantic_stamp_restarts_a_model_rather_than_blending_it() {
    let mut registry = HotRegistry::new(16);
    for _ in 0..10 {
        let mut observed = observation(1, 1, 100);
        observed.stamp = DependencyStamp {
            semantic: 7,
            access: 7,
        };
        registry.absorb(&observed, 0, mean);
    }
    assert_eq!(statement_model(&registry, 1).executions, 10);

    let mut replaced = observation(1, 1, 3);
    replaced.stamp = DependencyStamp {
        semantic: 9,
        access: 7,
    };
    registry.absorb(&replaced, 0, mean);

    let model = statement_model(&registry, 1);
    assert_eq!(model.executions, 1);
    assert_eq!(model.stamp.semantic, 9);
    assert!(
        model.rows.quantile_upper_bound(50) < 100,
        "the pre-change distribution must not survive"
    );
}

#[test]
fn an_access_path_change_alone_preserves_accumulated_evidence() {
    let mut registry = HotRegistry::new(16);
    for index in 0..10 {
        let mut observed = observation(1, 1, 100);
        observed.stamp = DependencyStamp {
            semantic: 7,
            access: index,
        };
        registry.absorb(&observed, 0, mean);
    }
    assert_eq!(statement_model(&registry, 1).executions, 10);
}

#[test]
fn registry_stays_bounded_and_keeps_the_hot_set() {
    let mut registry = HotRegistry::new(16);
    for _ in 0..50 {
        registry.absorb(&observation(1, 1, 10), 0, mean);
    }
    for seed in 10..200 {
        registry.absorb(&observation(seed, seed, 1), 0, mean);
    }
    assert!(registry.len() <= 16);
    assert!(registry.evicted() > 0);
    assert!(
        registry
            .model(ObservationModelKind::Statement, &fingerprint(1))
            .is_some(),
        "the hot family must survive eviction pressure"
    );
}

#[test]
fn sketch_estimates_never_undercount_and_decay_halves() {
    let mut sketch = FrequencySketch::new(1024);
    let hot = fingerprint(7);
    for _ in 0..100 {
        sketch.record(&hot);
    }
    assert!(sketch.estimate(&hot) >= 100);
    sketch.decay();
    assert!(sketch.estimate(&hot) >= 50);
    assert!(sketch.estimate(&hot) < 100);
}

#[test]
fn a_returned_frequency_batch_ages_before_retry() {
    let family = fingerprint(7);
    let mut registry = HotRegistry::new(16);
    registry.merge_relayed_frequency(family, 80);
    let rejected = registry.take_batch();

    registry.decay();
    registry.decay();
    registry.batch_returned(rejected);

    let retried = registry.take_batch();
    assert_eq!(retried.frequency, vec![(family, 20)]);
    assert_eq!(retried.frequency_decays, 2);
}

#[test]
fn a_returned_batch_is_drained_again_as_it_was() {
    let mut registry = HotRegistry::new(16);
    registry.absorb(&observation(1, 1, 10), 5, mean);
    registry.merge_relayed_frequency(fingerprint(7), 80);
    let first = registry.take_batch();
    let (frequency, models) = (first.frequency.clone(), format!("{:?}", first.models));
    registry.batch_returned(first);
    let second = registry.take_batch();
    assert_eq!(second.frequency, frequency);
    assert_eq!(second.frequency_decays, 0);
    assert_eq!(format!("{:?}", second.models), models);
}

#[test]
fn every_variant_of_a_family_is_counted() {
    let mut registry = HotRegistry::new(16);
    for variant in 0..300u64 {
        let mut observed = observation(1, 0, 10);
        observed.exact.digest = u128::from(variant) << 64;
        registry.absorb(&observed, variant, mean);
    }
    assert!(statement_model(&registry, 1).exact_variants.estimate() == 300);
}

#[test]
fn a_known_frequency_family_keeps_counting_at_the_family_limit() {
    let mut registry = HotRegistry::new(16);
    for seed in 0..64 {
        registry.merge_relayed_frequency(fingerprint(seed), 1);
    }
    let known = fingerprint(0);
    registry.merge_relayed_frequency(known, 4);

    let batch = registry.take_batch();
    let count = batch
        .frequency
        .iter()
        .find(|(family, _)| *family == known)
        .map(|(_, count)| *count);
    assert_eq!(count, Some(5));
}

#[test]
fn histogram_quantiles_bracket_recorded_values() {
    let mut histogram = Log2Histogram::default();
    for value in [1u64, 2, 3, 100, 100, 100, 100, 5000] {
        histogram.record(value);
    }
    assert_eq!(histogram.count(), 8);
    assert!(histogram.quantile_upper_bound(50) >= 100);
    assert!(histogram.quantile_upper_bound(50) <= 127);
    assert!(histogram.quantile_upper_bound(100) >= 5000);
}

#[test]
fn model_merge_keeps_the_latest_wall_time_in_any_order() {
    let family = fingerprint(1);
    let mut early = QueryModel::new(family, ObservationModelKind::Statement);
    early.last_seen = 100_000_000;
    early.duration_ewma_bits = 100.0f64.to_bits();
    let mut late = QueryModel::new(family, ObservationModelKind::Statement);
    late.last_seen = 200_000_000;
    late.duration_ewma_bits = 50.0f64.to_bits();

    let mut forward = early.copy();
    forward.merge(&late);
    let mut backward = late;
    backward.merge(&early);

    assert_eq!(forward.last_seen, 200_000_000);
    assert_eq!(backward.last_seen, 200_000_000);
    assert_eq!(f64::from_bits(forward.duration_ewma_bits), 50.0);
    assert_eq!(f64::from_bits(backward.duration_ewma_bits), 50.0);
}

#[test]
fn merged_deltas_equal_evidence_gathered_in_one_place() {
    let together_at = 500_000;
    let mut together = HotRegistry::new(64);
    for index in 0..24u8 {
        together.absorb(&observation(1, index, 10 * u64::from(index)), together_at, mean);
    }
    let whole = statement_model(&together, 1);

    let mut apart = HotRegistry::new(64);
    let mut received = QueryModel::new(fingerprint(1), ObservationModelKind::Statement);
    for (index, observed) in (0..24u8).enumerate() {
        apart.absorb(
            &observation(1, observed, 10 * u64::from(observed)),
            together_at,
            mean,
        );
        if index % 5 == 4 {
            for (_, delta) in apart.take_batch().models {
                received.merge(&delta);
            }
        }
    }
    for (_, delta) in apart.take_batch().models {
        received.merge(&delta);
    }

    assert_eq!(received.executions, whole.executions);
    assert_eq!(received.estimated_executions, whole.estimated_executions);
    assert_eq!(received.q_error_max_x100, whole.q_error_max_x100);
    assert_eq!(received.stamp, whole.stamp);
    assert_eq!(received.plans, whole.plans);
    for (merged, gathered) in [
        (&received.rows, &whole.rows),
        (&received.execute_micros, &whole.execute_micros),
        (&received.bind_micros, &whole.bind_micros),
        (&received.q_errors, &whole.q_errors),
    ] {
        assert_eq!(merged.count(), gathered.count());
        assert_eq!(merged.maximum(), gathered.maximum());
        for quantile in [50, 95, 100] {
            assert_eq!(
                merged.quantile_upper_bound(quantile),
                gathered.quantile_upper_bound(quantile),
                "quantile {quantile} differs between merged and whole evidence"
            );
        }
    }
    // The excluded field is the last value, not a blend of nothing.
    assert_eq!(
        f64::from_bits(received.duration_ewma_bits),
        f64::from_bits(whole.duration_ewma_bits)
    );
}

#[test]
fn a_returned_batch_merges_forward_instead_of_being_lost() {
    let at = 10_000;
    let mut registry = HotRegistry::new(64);
    for index in 0..3u8 {
        registry.absorb(&observation(1, index, 40), at, mean);
    }
    let rejected = registry.take_batch();
    assert_eq!(rejected.models.len(), 1);
    registry.batch_returned(rejected);

    for index in 3..7u8 {
        registry.absorb(&observation(1, index, 40), at, mean);
    }
    let retried = registry.take_batch();
    let (_, delta) = retried
        .models
        .iter()
        .find(|(family, _)| *family == fingerprint(1))
        .expect("the family observed across both attempts");
    assert_eq!(
        delta.executions, 7,
        "the returned delta did not survive into the next attempt"
    );
    assert_eq!(delta.rows.count(), 7);

    // Draining twice must not report the same evidence twice.
    assert!(registry.take_batch().models.is_empty());
}

#[test]
fn collector_drops_on_full_channel_and_counts_drops() {
    let mut collector = StatisticsCollector::channel(2);
    for index in 0..5 {
        collector.statement(observation(index, index, 1));
    }
    assert_eq!(collector.dropped(), 3);
    assert!(collector.receive().is_some());
    assert!(collector.receive().is_some());
    assert!(collector.receive().is_none());
}

#[test]
fn program_capture_is_disabled_by_default() {
    assert!(!StatisticsConfig::default().capture_programs);
    let mut collector = StatisticsCollector::channel(2);
    collector.program(ProgramRecord {
        canonical: br#"{"statements":[]}"#.to_vec(),
        content_hash: u128::from_be_bytes([7; 16]),
        at_unix_micros: 1,
        statements: 0,
        outcomes: Vec::new(),
    });

    assert!(!collector.captures_programs());
    assert!(collector.receive().is_none());
}

#[test]
fn corpus_loss_reasons_are_counted_separately() {
    let record = |size| ProgramRecord {
        canonical: vec![1; size],
        content_hash: u128::from_be_bytes([1; 16]),
        at_unix_micros: 1,
        statements: 1,
        outcomes: Vec::new(),
    };
    let mut collector = StatisticsCollector::channel_with_programs(1, true);
    collector.program(record(CORPUS_MAX_PROGRAM_BYTES + 1));
    collector.program(record(1));
    collector.program(record(1));

    let report = collector.report();
    assert_eq!(report.corpus_captured, 1);
    assert_eq!(report.corpus_skipped_oversize, 1);
    assert_eq!(report.corpus_dropped_queue, 1);
    assert!(matches!(
        collector.receive(),
        Some(StatisticsEvent::Program(_))
    ));

    let mut registry = HotRegistry::new(16);
    for _ in 0..=MAX_PENDING_PROGRAMS {
        registry.absorb_program(record(1));
    }
    let stats = registry.distill(report, 0);
    assert_eq!(stats.corpus.shed_pending, 1);
}

// ---- further scenarios ----

#[test]
fn histograms_count_by_powers_of_two() {
    let mut histogram = Log2Histogram::default();
    assert_eq!(histogram.quantile_upper_bound(50), 0);
    histogram.record(0);
    histogram.record(1);
    histogram.record(6);
    histogram.record_many(100, 5);
    assert_eq!(histogram.buckets[0], 1);
    assert_eq!(histogram.buckets[1], 1);
    assert_eq!(histogram.buckets[3], 1);
    assert_eq!(histogram.buckets[7], 5);
    assert_eq!(histogram.count(), 8);
    assert_eq!(histogram.maximum(), 100);
    // The bucket of 100 ends at 127, and no value is larger than 100.
    assert_eq!(histogram.quantile_upper_bound(95), 100);

    let mut other = Log2Histogram::default();
    other.record(u64::MAX);
    let mut merged = histogram;
    merged.merge(&other);
    assert_eq!(merged.count(), 9);
    assert_eq!(merged.maximum(), u64::MAX);
    assert_eq!(merged.buckets[64], 1);
    let mut reversed = other;
    reversed.merge(&histogram);
    assert_eq!(merged, reversed);
}

#[test]
fn estimation_errors_are_ratios_in_hundredths() {
    assert_eq!(q_error_x100(1_000, 1), 100_000);
    assert_eq!(q_error_x100(1, 1_000), 100_000);
    assert_eq!(q_error_x100(7, 7), 100);
    assert_eq!(q_error_x100(0, 0), 100);
    assert_eq!(q_error_x100(3, 2), 150);
    assert_eq!(q_error_x100(u64::MAX, 1), u64::MAX);
}

#[test]
fn appearances_halve_with_each_epoch() {
    assert_eq!(decay_frequency(80, 0), 80);
    assert_eq!(decay_frequency(80, 2), 20);
    assert_eq!(decay_frequency(80, 40), 0);
    assert_eq!(decay_frequency(decay_frequency(81, 1), 2), decay_frequency(81, 3));
}

#[test]
fn a_batch_without_evidence_may_still_hold_programs() {
    let mut batch = StatisticsBatch::default();
    assert!(batch.is_empty());
    assert!(batch.carries_no_evidence());
    batch.frequency_decays = 1;
    assert!(!batch.is_empty());
}

#[test]
fn the_last_observed_duration_weighs_a_tenth() {
    let mut registry = HotRegistry::new(16);
    let mut slow = observation(1, 1, 10);
    slow.execute_micros = 100;
    registry.absorb(&slow, 0, mean);
    let mut fast = observation(1, 2, 10);
    fast.execute_micros = 200;
    registry.absorb(&fast, 1, mean);
    assert_eq!(
        f64::from_bits(statement_model(&registry, 1).duration_ewma_bits),
        0.1 * 200.0 + 0.9 * 100.0
    );
}

#[test]
fn a_distilled_registry_says_whose_it_is() {
    let mut registry = HotRegistry::new(16);
    registry.absorb(&observation(1, 1, 10), 3, mean);
    let stats = registry.distill(CollectorReport::default(), 9);
    assert_eq!(stats.scope, StatisticsScope::WriterLive);
    assert_eq!(stats.published_at, 9);
    assert_eq!(stats.absorbed, 1);
    assert_eq!(PlannerStats::empty().scope, StatisticsScope::Empty);
}

#[test]
fn distributions_have_one_canonical_form() {
    let segment = |rank_start, rank_end, frequency_upper| DegreeSequenceSegment {
        rank_start,
        rank_end,
        frequency_upper,
    };
    let group = |columns: Vec<u64>, values: Vec<Vec<u8>>| ColumnGroupSynopsis {
        columns,
        most_common_values: values,
        segments: Some(vec![segment(3, 8, 1), segment(0, 3, 9), segment(0, 2, 9)]),
        other: vec![7],
    };
    let conditioned = |join_columns: Vec<u64>, predicate_column| {
        PredicateConditionedDegreeSynopsis {
            join_columns,
            predicate_column,
            values: vec![(vec![2], vec![0]), (vec![1, 9], vec![1]), (vec![1], vec![2])],
            other: Vec::new(),
        }
    };
    let given = Distributions {
        columns: vec![
            group(vec![9], vec![b"hot".to_vec(), b"cold".to_vec()]),
            group(vec![8], Vec::new()),
        ],
        column_groups: vec![group(vec![8, 9], Vec::new()), group(vec![8], Vec::new())],
        predicate_conditioned_degrees: vec![
            conditioned(vec![8, 1], 0),
            conditioned(vec![8], 9),
            conditioned(vec![8], 3),
        ],
        other: Vec::new(),
    };
    let canonical = given.canonical();
    assert_eq!(canonical.columns[0].columns, vec![8]);
    assert_eq!(canonical.columns[1].columns, vec![9]);
    assert_eq!(
        canonical.columns[1].most_common_values,
        vec![b"cold".to_vec(), b"hot".to_vec()]
    );
    assert_eq!(
        canonical.columns[0].segments,
        Some(vec![segment(0, 2, 9), segment(0, 3, 9), segment(3, 8, 1)])
    );
    assert_eq!(canonical.column_groups[0].columns, vec![8]);
    let degrees = &canonical.predicate_conditioned_degrees;
    assert_eq!(degrees[0].predicate_column, 3);
    assert_eq!(degrees[1].predicate_column, 9);
    assert_eq!(degrees[2].join_columns, vec![8, 1]);
    assert_eq!(
        degrees[0].values,
        vec![(vec![1], vec![2]), (vec![1, 9], vec![1]), (vec![2], vec![0])]
    );
    assert_eq!(canonical.canonical(), canonical);
    assert!(canonical.same(&canonical.copy()));
    assert!(!canonical.same(&given));
}

#[test]
fn changes_of_tables_add_up_until_they_are_taken() {
    let mut registry = HotRegistry::new(16);
    for (table, rows) in [(7, 3), (9, 1), (7, 4), (5, 0)] {
        let mut write = observation(1, 1, rows);
        write.mutated = Some(table);
        registry.absorb(&write, 0, mean);
    }
    registry.absorb(&observation(2, 2, 8), 0, mean);
    let mut deltas = registry.take_table_change_deltas();
    deltas.sort();
    assert_eq!(deltas, [(7, 7), (9, 1)]);
    assert_eq!(registry.take_table_change_deltas(), []);
}

#[test]
fn orders_are_by_key_and_stable() {
    let keys = vec![Key::number(3), Key::number(1), Key::number(3), Key::number(2)];
    assert_eq!(sorted_order(&keys), [1, 3, 0, 2]);
    assert!(Key::of(1, fingerprint(1), 0).before(Key::of(1, fingerprint(1), 1)));
    assert!(!Key::of(1, fingerprint(1), 1).before(Key::of(1, fingerprint(1), 1)));
}

#[test]
fn numbers_are_written_from_their_greatest_byte() {
    let mut bytes = vec![9];
    push_big_endian(&mut bytes, 0x0102_0304, 4);
    assert_eq!(bytes, [9, 1, 2, 3, 4]);
    assert_eq!(decode_hash(&hash_text(0xab)).unwrap(), 0xabu128.to_be_bytes());
}
