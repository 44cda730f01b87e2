//! Sending and receiving of observation batches.

use rad::scheduler::batch::StatisticsBatch;
use rad::scheduler::collector::{
    StatisticsCollector, StatisticsEvent, CORPUS_MAX_PROGRAM_BYTES,
};
use rad::scheduler::evidence::{DependencyStamp, KvResourceSample};
use rad::scheduler::model::{
    ObservationModelKind, QueryModel, RelationFingerprints, StatementObservation,
};
use rad::scheduler::records::ProgramRecord;
use rad::scheduler::registry::HotRegistry;
use rad::scheduler::relay::{
    IngestOutcome, ObservationBatch, Publication, RelayCounters, RelayHealth, RelayIngest,
    RelaySink, TransportError, MAX_SOURCES, RELAY_FORMAT, RETRY_BUDGET,
};
use rad::scheduler::sketches::Fingerprint;

fn mean(last: Option<u64>, micros: u64) -> u64 {
    match last {
        None => (micros as f64).to_bits(),
        Some(bits) => (0.1 * micros as f64 + 0.9 * f64::from_bits(bits)).to_bits(),
    }
}

fn copy_of(batch: &ObservationBatch) -> ObservationBatch {
    ObservationBatch {
        format: batch.format,
        instance: batch.instance.clone(),
        boot: batch.boot.clone(),
        sequence: batch.sequence,
        sent_at_micros: batch.sent_at_micros,
        families: batch.families.iter().map(QueryModel::copy).collect(),
        frequency: batch.frequency.clone(),
        corpus: batch.corpus.iter().map(ProgramRecord::copy).collect(),
    }
}

/// Records everything submitted and answers however the test says. Both ends of
/// the relay are in one process.
struct ScriptedTransport {
    delivered: Vec<ObservationBatch>,
    outcomes: Vec<Result<(), TransportError>>,
    ingest: Option<RelayIngest>,
    confidential: bool,
}

impl ScriptedTransport {
    fn always_ok(ingest: RelayIngest) -> Self {
        Self {
            delivered: Vec::new(),
            outcomes: Vec::new(),
            ingest: Some(ingest),
            confidential: false,
        }
    }

    fn scripted(outcomes: Vec<Result<(), TransportError>>) -> Self {
        Self {
            delivered: Vec::new(),
            outcomes,
            ingest: None,
            confidential: false,
        }
    }

    fn submit(&mut self, batch: &ObservationBatch) -> Result<(), TransportError> {
        self.delivered.push(copy_of(batch));
        if !self.outcomes.is_empty() {
            // A scripted failure stands in for the network. A scripted success
            // still has to be delivered.
            self.outcomes.remove(0)?;
        }
        match &mut self.ingest {
            Some(ingest) => match ingest.submit(copy_of(batch)) {
                IngestOutcome::Accepted | IngestOutcome::AlreadyAdmitted => Ok(()),
                IngestOutcome::Saturated => Err(TransportError::Backpressured),
                IngestOutcome::FormatMismatch
                | IngestOutcome::CorpusDisabled
                | IngestOutcome::CorpusOversize => Err(TransportError::Rejected),
            },
            None => Ok(()),
        }
    }
}

/// Publishes through a transport: the held batch first, and the new one after it.
fn publish(
    sink: &mut RelaySink,
    transport: &mut ScriptedTransport,
    batch: StatisticsBatch,
) -> Result<(), StatisticsBatch> {
    let held = match sink.held() {
        Some(held) => transport.submit(held),
        None => Ok(()),
    };
    match sink.publish(batch, held, transport.confidential, 200_000) {
        Publication::Stuck(batch) => Err(batch),
        Publication::Done => Ok(()),
        Publication::Submit(wire) => {
            let outcome = transport.submit(&wire);
            sink.settle_sent(wire, outcome);
            Ok(())
        }
    }
}

fn new_sink() -> RelaySink {
    RelaySink::new("reader-1".into(), "boot".into())
}

fn batch(models: Vec<(Fingerprint, QueryModel)>) -> StatisticsBatch {
    StatisticsBatch {
        models,
        ..StatisticsBatch::default()
    }
}

fn family(seed: u8) -> Fingerprint {
    Fingerprint {
        canonicalization_version: 1,
        hash_algorithm: 1,
        digest: u128::from_be_bytes([seed; 16]),
    }
}

fn model(seed: u8, executions: u64) -> QueryModel {
    let mut model = QueryModel::new(family(seed), ObservationModelKind::Statement);
    for _ in 0..executions {
        model.rows.record(40);
        model.resources.record(KvResourceSample {
            gets: u64::from(seed),
            scans: 1,
            iterated: 40,
            bytes_read: 400,
            ..KvResourceSample::default()
        });
        model.executions += 1;
    }
    model
}

fn document(seed: u8) -> ProgramRecord {
    ProgramRecord {
        canonical: format!(r#"{{"literal":"secret-{seed}"}}"#).into_bytes(),
        content_hash: u128::from_be_bytes([seed; 16]),
        at_unix_micros: 1_700_000_000_000_000,
        statements: 1,
        outcomes: Vec::new(),
    }
}

fn wire(sequence: u64) -> ObservationBatch {
    ObservationBatch {
        format: RELAY_FORMAT,
        instance: "reader-1".into(),
        boot: "boot".into(),
        sequence,
        sent_at_micros: 0,
        families: vec![model(1, 3)],
        frequency: Vec::new(),
        corpus: Vec::new(),
    }
}

fn observation(family_seed: u8, exact_seed: u8, rows: u64) -> StatementObservation {
    StatementObservation {
        exact: family(exact_seed),
        family: family(family_seed),
        subtrees: vec![RelationFingerprints {
            exact: family(exact_seed),
            family: family(family_seed),
        }],
        plan: Some(family(family_seed.wrapping_add(100))),
        bind_micros: 50,
        execute_micros: 400,
        rows,
        estimate: None,
        stamp: DependencyStamp::default(),
        relations: Vec::new(),
        affected: rows,
        mutated: None,
        kv: KvResourceSample::default(),
    }
}

#[test]
fn a_plaintext_transport_carries_evidence_but_never_user_values() {
    let mut transport = ScriptedTransport::scripted(Vec::new());
    assert!(
        !transport.confidential,
        "the default transport claimed confidentiality"
    );
    let mut sink = new_sink();

    let batch = StatisticsBatch {
        models: vec![(family(1), model(1, 5))],
        programs: vec![document(1), document(2)],
        ..StatisticsBatch::default()
    };
    assert!(publish(&mut sink, &mut transport, batch).is_ok());

    let sent = transport.delivered.pop().expect("one batch");
    assert!(
        sent.corpus.is_empty(),
        "user values crossed a transport that is not confidential"
    );
    // The aggregate evidence still travels.
    assert_eq!(sent.families.len(), 1);

    let counters = sink.counters();
    assert_eq!(counters.corpus_withheld, 2);
    assert_eq!(counters.corpus_sent, 0);
}

#[test]
fn a_confidential_transport_carries_user_values() {
    let mut transport = ScriptedTransport::always_ok(RelayIngest::channel_with_corpus(8, true));
    transport.confidential = true;
    let mut sink = new_sink();

    let batch = StatisticsBatch {
        models: vec![(family(1), model(1, 5))],
        programs: vec![document(1), document(2)],
        ..StatisticsBatch::default()
    };
    assert!(publish(&mut sink, &mut transport, batch).is_ok());
    assert_eq!(sink.counters().corpus_sent, 2);
    assert_eq!(sink.counters().corpus_withheld, 0);

    let delivered = transport
        .ingest
        .as_mut()
        .expect("a receiver")
        .receive()
        .expect("a batch arrived");
    assert_eq!(delivered.corpus.len(), 2);

    let mut registry = HotRegistry::new(64);
    for record in delivered.corpus {
        registry.absorb_relayed_program(record);
    }
    let published = registry.take_batch();
    assert_eq!(
        published.programs.len(),
        2,
        "adopted documents never reached the store"
    );
}

#[test]
fn relay_health_separates_evidence_in_hand_from_evidence_lost() {
    let idle = RelayCounters::default();
    assert_eq!(idle.health(), RelayHealth::Idle);

    let sending = RelayCounters {
        sent: 3,
        ..RelayCounters::default()
    };
    assert_eq!(sending.health(), RelayHealth::Connected);

    let holding = RelayCounters {
        sent: 3,
        holding: true,
        ..RelayCounters::default()
    };
    assert_eq!(holding.health(), RelayHealth::Retrying);

    // Abandonment outranks a healthy send count: the evidence it dropped
    // is not recovered by later batches succeeding.
    let lost = RelayCounters {
        sent: 100,
        abandoned: 1,
        ..RelayCounters::default()
    };
    assert_eq!(lost.health(), RelayHealth::Losing);
    let refused = RelayCounters {
        sent: 100,
        rejected: 1,
        ..RelayCounters::default()
    };
    assert_eq!(refused.health(), RelayHealth::Losing);

    // Holding outranks abandonment: the immediate state is what an
    // operator acts on, and the loss is still counted beside it.
    let both = RelayCounters {
        sent: 1,
        abandoned: 1,
        holding: true,
        ..RelayCounters::default()
    };
    assert_eq!(both.health(), RelayHealth::Retrying);
}

#[test]
fn a_replayed_batch_enters_the_queue_once() {
    let mut transport = ScriptedTransport::always_ok(RelayIngest::channel(8));
    let mut sink = new_sink();

    assert!(publish(
        &mut sink,
        &mut transport,
        batch(vec![(family(1), model(1, 5))])
    )
    .is_ok());
    let sent = transport.delivered.pop().expect("one batch");

    let ingest = transport.ingest.as_mut().expect("a receiver");
    for _ in 0..4 {
        assert_eq!(ingest.submit(copy_of(&sent)), IngestOutcome::AlreadyAdmitted);
    }
    assert_eq!(ingest.counters().accepted, 1);
    assert_eq!(ingest.counters().already_admitted, 4);

    let mut merged = QueryModel::new(family(1), ObservationModelKind::Statement);
    while let Some(batch) = ingest.receive() {
        for model in &batch.families {
            merged.merge(model);
        }
    }
    assert_eq!(
        merged.executions, 5,
        "replaying a batch entered the queue more than once"
    );
}

#[test]
fn concurrent_duplicates_enter_the_queue_once() {
    let mut ingest = RelayIngest::channel(32);
    let mut accepted = 0;
    for _ in 0..16 {
        if ingest.submit(wire(1)) == IngestOutcome::Accepted {
            accepted += 1;
        }
    }
    assert_eq!(accepted, 1);
    ingest.receive().expect("accepted batch");
    assert!(ingest.receive().is_none());
}

#[test]
fn a_batch_refused_for_saturation_can_still_be_retried() {
    let mut ingest = RelayIngest::channel(1);
    assert_eq!(ingest.submit(wire(1)), IngestOutcome::Accepted);
    assert_eq!(ingest.submit(wire(2)), IngestOutcome::Saturated);

    // Draining makes room, and the refused batch is still welcome.
    ingest.receive().expect("the queued batch");
    assert_eq!(ingest.submit(wire(2)), IngestOutcome::Accepted);
}

#[test]
fn a_different_wire_version_is_refused_rather_than_translated() {
    let mut ingest = RelayIngest::channel(8);
    let mut batch = wire(1);
    batch.format = RELAY_FORMAT + 1;
    assert_eq!(ingest.submit(batch), IngestOutcome::FormatMismatch);
    assert_eq!(ingest.counters().format_mismatch, 1);
}

fn corpus_only(sequence: u64, bytes: Vec<u8>) -> ObservationBatch {
    let mut batch = wire(sequence);
    batch.families = Vec::new();
    batch.corpus = vec![ProgramRecord {
        canonical: bytes,
        content_hash: u128::from_be_bytes([1; 16]),
        at_unix_micros: 1,
        statements: 0,
        outcomes: Vec::new(),
    }];
    batch
}

#[test]
fn a_receiver_rejects_corpus_when_capture_is_disabled() {
    let mut ingest = RelayIngest::channel(8);
    assert_eq!(
        ingest.submit(corpus_only(1, br#"{"statements":[]}"#.to_vec())),
        IngestOutcome::CorpusDisabled
    );
    assert!(ingest.receive().is_none());

    let mut ingest = RelayIngest::channel_with_corpus(8, true);
    assert_eq!(
        ingest.submit(corpus_only(2, br#"{"statements":[]}"#.to_vec())),
        IngestOutcome::Accepted
    );
    assert_eq!(ingest.receive().expect("corpus batch").corpus.len(), 1);
}

#[test]
fn a_receiver_counts_an_oversize_corpus_document() {
    let mut ingest = RelayIngest::channel_with_corpus(8, true);
    let submitted = corpus_only(1, vec![0; CORPUS_MAX_PROGRAM_BYTES + 1]);

    assert_eq!(ingest.submit(submitted), IngestOutcome::CorpusOversize);
    assert_eq!(ingest.counters().corpus_oversize, 1);
    assert!(ingest.receive().is_none());
}

#[test]
fn a_corpus_only_batch_uses_a_confidential_transport() {
    let mut transport = ScriptedTransport::scripted(Vec::new());
    transport.confidential = true;
    let mut sink = new_sink();
    let batch = StatisticsBatch {
        programs: vec![ProgramRecord {
            canonical: br#"{"statements":[]}"#.to_vec(),
            content_hash: u128::from_be_bytes([2; 16]),
            at_unix_micros: 2,
            statements: 0,
            outcomes: Vec::new(),
        }],
        ..StatisticsBatch::default()
    };

    assert!(publish(&mut sink, &mut transport, batch).is_ok());
    assert_eq!(transport.delivered.len(), 1);
    assert_eq!(transport.delivered[0].corpus.len(), 1);
}

#[test]
fn corpus_sent_counts_receiver_admission() {
    let mut transport =
        ScriptedTransport::scripted(vec![Err(TransportError::Unavailable), Ok(())]);
    transport.confidential = true;
    let mut sink = new_sink();
    let batch = StatisticsBatch {
        programs: vec![document(3)],
        ..StatisticsBatch::default()
    };

    assert!(publish(&mut sink, &mut transport, batch).is_ok());
    assert_eq!(sink.counters().corpus_sent, 0);
    assert!(publish(&mut sink, &mut transport, StatisticsBatch::default()).is_ok());
    assert_eq!(sink.counters().corpus_sent, 1);
}

#[test]
fn an_unacknowledged_batch_is_retried_unchanged() {
    let mut transport = ScriptedTransport::scripted(vec![
        Err(TransportError::Unavailable),
        Err(TransportError::Unavailable),
        Ok(()),
    ]);
    let mut sink = new_sink();

    assert!(publish(
        &mut sink,
        &mut transport,
        batch(vec![(family(1), model(1, 5))])
    )
    .is_ok());
    assert!(sink.counters().holding, "the failed batch was not held");

    // The registry keeps its newer evidence while the sink is stuck.
    assert!(publish(
        &mut sink,
        &mut transport,
        batch(vec![(family(2), model(2, 2))])
    )
    .is_err());
    assert!(publish(
        &mut sink,
        &mut transport,
        batch(vec![(family(2), model(2, 3))])
    )
    .is_ok());

    let delivered = &transport.delivered;
    assert_eq!(delivered[0].sequence, delivered[1].sequence);
    assert_eq!(delivered[0].families[0].executions, 5);
    assert_eq!(delivered[1].families[0].executions, 5);
    assert!(!sink.counters().holding);
    assert_eq!(
        sink.counters().sent,
        2,
        "the held batch and then the new one"
    );
}

#[test]
fn a_batch_is_abandoned_once_the_retry_budget_runs_out() {
    let mut transport =
        ScriptedTransport::scripted(vec![Err(TransportError::Unavailable); 16]);
    let mut sink = new_sink();

    assert!(publish(
        &mut sink,
        &mut transport,
        batch(vec![(family(1), model(1, 5))])
    )
    .is_ok());
    assert!(sink.counters().holding);

    let mut attempts = 0;
    while sink.counters().abandoned == 0 {
        attempts += 1;
        assert!(
            attempts <= RETRY_BUDGET + 2,
            "the batch was retried forever"
        );
        // While a batch is held, the registry keeps its newer evidence: the sink
        // refuses to take on a second thing it might lose.
        let outcome = publish(
            &mut sink,
            &mut transport,
            batch(vec![(family(2), model(2, 1))]),
        );
        assert_eq!(
            outcome.is_err(),
            sink.counters().abandoned == 0,
            "evidence was neither kept by the registry nor taken by the sink"
        );
    }
    assert!(
        attempts > 1,
        "the batch was abandoned without being retried"
    );
}

#[test]
fn a_refused_batch_is_not_retried() {
    let mut transport = ScriptedTransport::scripted(vec![Err(TransportError::Rejected)]);
    let mut sink = new_sink();
    assert!(publish(
        &mut sink,
        &mut transport,
        batch(vec![(family(1), model(1, 5))])
    )
    .is_ok());
    assert!(
        !sink.counters().holding,
        "a batch the receiver refused was kept for retry"
    );
    assert_eq!(sink.counters().rejected, 1);
}

#[test]
fn relayed_evidence_joins_the_models_and_the_next_publication() {
    let mut registry = HotRegistry::new(16);
    let now = 100_000_000;
    registry.merge_relayed(family(1), &model(1, 7), 2_000_000, now);
    registry.merge_relayed_frequency(family(2), 9);

    let resident = registry
        .model(ObservationModelKind::Statement, &family(1))
        .expect("relayed family");
    assert_eq!(resident.executions, 7);
    assert_eq!(
        resident
            .resources
            .cost()
            .expect("relayed resource cost")
            .observed_executions,
        7
    );
    assert_eq!(
        resident.last_seen, 98_000_000,
        "the remote observation age was not rebased"
    );
    assert!(registry.frequency(&family(2)) >= 9);

    let published = registry.take_batch();
    let (_, delta) = published
        .models
        .iter()
        .find(|(seen, _)| *seen == family(1))
        .expect("relayed evidence awaiting publication");
    assert_eq!(delta.executions, 7);
    assert_eq!(
        delta
            .resources
            .cost()
            .expect("published resource cost")
            .gets
            .maximum,
        1
    );
    assert!(published
        .frequency
        .iter()
        .any(|(seen, count)| *seen == family(2) && *count == 9));
}

#[test]
fn relayed_evidence_from_a_different_catalog_is_dropped() {
    let mut registry = HotRegistry::new(16);
    let now = 10_000_000;
    let mut current = model(1, 4);
    current.stamp = DependencyStamp {
        semantic: 2,
        access: 0,
    };
    registry.merge_relayed(family(1), &current, 0, now);

    let mut stale = model(1, 100);
    stale.stamp = DependencyStamp {
        semantic: 1,
        access: 0,
    };
    registry.merge_relayed(family(1), &stale, 0, now);

    assert_eq!(
        registry
            .model(ObservationModelKind::Statement, &family(1))
            .expect("resident")
            .executions,
        4,
        "a lagging instance's evidence displaced what this instance holds"
    );

    for seed in 2..40 {
        registry.merge_relayed(family(seed), &model(seed, 100), 0, now);
    }
    assert!(registry
        .model(ObservationModelKind::Statement, &family(1))
        .is_none());
    registry.merge_relayed(family(1), &stale, 0, now);
    assert!(
        registry
            .model(ObservationModelKind::Statement, &family(1))
            .is_none(),
        "eviction removed the stamp that rejects stale evidence"
    );
}

#[test]
fn a_readers_workload_reaches_the_writer_intact() {
    let mut transport = ScriptedTransport::always_ok(RelayIngest::channel(64));
    // Every third attempt fails, so the run exercises holding, retrying, and the
    // registry accumulating behind a stuck sink.
    for index in 0..24 {
        transport.outcomes.push(if index % 3 == 2 {
            Err(TransportError::Unavailable)
        } else {
            Ok(())
        });
    }
    let mut sink = new_sink();

    // What the reader served, and what a writer serving it would hold.
    let mut collector = StatisticsCollector::channel(256);
    let mut reader = HotRegistry::new(64);
    let mut alone = HotRegistry::new(64);
    for index in 0..30u8 {
        collector.statement(observation(1, index, 10 * u64::from(index)));
    }
    let at = 200_000;
    let mut published = 0;
    while let Some(event) = collector.receive() {
        if let StatisticsEvent::Statement(observed) = event {
            reader.absorb(&observed, at, mean);
            alone.absorb(&observed, at, mean);
            published += 1;
            if published % 4 == 0 {
                let batch = reader.take_batch();
                if let Err(returned) = publish(&mut sink, &mut transport, batch) {
                    reader.batch_returned(returned);
                }
            }
        }
    }
    // Drain whatever is left, retrying until the sink lets go of it.
    for _ in 0..8 {
        let batch = reader.take_batch();
        if let Err(returned) = publish(&mut sink, &mut transport, batch) {
            reader.batch_returned(returned);
        }
    }

    let mut writer = HotRegistry::new(64);
    let now = 9_000_000;
    let ingest = transport.ingest.as_mut().expect("a receiver");
    while let Some(batch) = ingest.receive() {
        for model in &batch.families {
            writer.merge_relayed(model.family, model, batch.age_of(model), now);
        }
    }

    let observed = alone.models[0].family;
    let relayed = writer
        .model(ObservationModelKind::Statement, &observed)
        .expect("the relayed family");
    let served = alone
        .model(ObservationModelKind::Statement, &observed)
        .expect("the observed family");
    assert_eq!(
        relayed.executions, served.executions,
        "the writer's view of the reader's workload is not what the reader saw"
    );
    assert_eq!(relayed.rows.count(), served.rows.count());
    assert_eq!(relayed.rows.maximum(), served.rows.maximum());
    for quantile in [50, 95, 100] {
        assert_eq!(
            relayed.rows.quantile_upper_bound(quantile),
            served.rows.quantile_upper_bound(quantile),
            "row distribution differs at quantile {quantile}"
        );
    }
    assert_eq!(relayed.plans, served.plans);
    assert_eq!(relayed.q_error_max_x100, served.q_error_max_x100);
}

#[test]
fn sources_that_are_not_heard_of_make_room() {
    let mut ingest = RelayIngest::channel(1_000);
    for index in 0..200 {
        let mut batch = wire(1);
        batch.instance = format!("reader-{index}");
        assert_eq!(ingest.submit(batch), IngestOutcome::Accepted);
    }
    assert!(ingest.counters().sources <= 64);
    assert_eq!(ingest.counters().accepted, 200);
}

#[test]
fn a_later_boot_starts_its_numbers_over() {
    let mut ingest = RelayIngest::channel(8);
    assert_eq!(ingest.submit(wire(5)), IngestOutcome::Accepted);
    assert_eq!(ingest.submit(wire(4)), IngestOutcome::AlreadyAdmitted);
    let mut restarted = wire(1);
    restarted.boot = "second boot".into();
    assert_eq!(ingest.submit(restarted), IngestOutcome::Accepted);
}

#[test]
fn only_transport_trouble_is_tried_again() {
    assert!(TransportError::Unavailable.retryable());
    assert!(TransportError::Backpressured.retryable());
    assert!(!TransportError::Rejected.retryable());
    assert_eq!(RelayHealth::Losing.as_str(), "losing");
}

#[test]
fn earlier_numbers_are_not_taken_later_on() {
    let mut ingest = RelayIngest::channel(8);
    let from = |instance: &str, sequence: u64| {
        let mut batch = wire(sequence);
        batch.instance = instance.into();
        batch
    };
    assert_eq!(ingest.submit(from("first", 5)), IngestOutcome::Accepted);
    assert_eq!(ingest.submit(from("second", 1)), IngestOutcome::Accepted);
    assert!(ingest.receive().is_some());
    assert_eq!(ingest.submit(from("first", 7)), IngestOutcome::Accepted);
    for sequence in 0..8 {
        assert_eq!(ingest.submit(from("first", sequence)), IngestOutcome::AlreadyAdmitted);
    }
    assert_eq!(ingest.submit(from("first", 8)), IngestOutcome::Accepted);
}

#[test]
fn the_sender_heard_least_recently_is_forgotten() {
    let mut ingest = RelayIngest::channel(2 * MAX_SOURCES + 8);
    let from = |instance: usize, sequence: u64| {
        let mut batch = wire(sequence);
        batch.instance = format!("reader-{instance}");
        batch
    };
    for instance in 0..MAX_SOURCES {
        assert_eq!(ingest.submit(from(instance, 1)), IngestOutcome::Accepted);
    }
    // The first is heard again, so the second is the one that is forgotten.
    assert_eq!(ingest.submit(from(0, 2)), IngestOutcome::Accepted);
    assert_eq!(ingest.submit(from(MAX_SOURCES, 1)), IngestOutcome::Accepted);
    assert_eq!(ingest.counters().sources, MAX_SOURCES);
    assert_eq!(ingest.submit(from(0, 2)), IngestOutcome::AlreadyAdmitted);
    assert_eq!(ingest.submit(from(2, 1)), IngestOutcome::AlreadyAdmitted);
    assert_eq!(ingest.submit(from(1, 1)), IngestOutcome::Accepted);
}
