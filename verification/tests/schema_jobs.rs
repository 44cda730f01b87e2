//! Scheduling of schema work.

use rad::scheduler::job_map::SchemaJob;
use rad::scheduler::schema_jobs::{
    exponential_backoff, is_contention, ConfigError, JobError, JobReply, JobStep, Phase,
    SchemaJobConfig, SchemaJobEvent, WaitOutcome, Worker,
};
use rad::service::error::ErrorKind;

const MILLISECOND: u64 = 1_000_000;
const SECOND: u64 = 1_000_000_000;

fn fast_config() -> SchemaJobConfig {
    SchemaJobConfig {
        transition_batch_size: 1,
        reclamation_batch_size: 1,
        batches_per_round: 2,
        items_per_round: 2,
        yield_interval: MILLISECOND,
        idle_poll_interval: 30 * SECOND,
        retry_backoff_min: MILLISECOND,
        retry_backoff_max: 10 * MILLISECOND,
        catalog_history_retain: 8,
        catalog_history_batch_size: 2,
        ..SchemaJobConfig::default()
    }
}

fn failure(cause: &str) -> JobError {
    JobError::of(ErrorKind::CorruptData, cause.to_owned())
}

fn conflict(cause: &str) -> JobError {
    JobError::of(ErrorKind::Conflict, cause.to_owned())
}

#[test]
fn configuration_rejects_zero_work_bounds_and_inverted_backoff() {
    let config = SchemaJobConfig {
        items_per_round: 0,
        ..SchemaJobConfig::default()
    };
    assert!(config.validate().is_err());
    let config = SchemaJobConfig {
        retry_backoff_min: 2 * SECOND,
        retry_backoff_max: SECOND,
        ..SchemaJobConfig::default()
    };
    assert!(config.validate().is_err());
    let config = SchemaJobConfig {
        idle_poll_interval: 0,
        ..SchemaJobConfig::default()
    };
    assert!(config.validate().is_err());
}

#[test]
fn configuration_errors_name_the_first_setting() {
    assert!(SchemaJobConfig::default().validate().is_ok());
    let config = SchemaJobConfig {
        items_per_round: 0,
        yield_interval: 0,
        ..SchemaJobConfig::default()
    };
    let error = config.validate().unwrap_err();
    assert!(matches!(error, ConfigError::Zero("items_per_round")));
    assert_eq!(
        error.message(),
        "schema scheduler setting items_per_round must be greater than zero"
    );
    let config = SchemaJobConfig {
        max_failures: 0,
        ..SchemaJobConfig::default()
    };
    assert!(matches!(
        config.validate(),
        Err(ConfigError::Zero("max_failures"))
    ));
    let config = SchemaJobConfig {
        retry_backoff_min: 2,
        retry_backoff_max: 1,
        ..SchemaJobConfig::default()
    };
    assert_eq!(
        config.validate().unwrap_err().message(),
        "schema scheduler retry_backoff_max must not be less than retry_backoff_min"
    );
}

#[test]
fn backoff_doubles_up_to_its_maximum() {
    assert_eq!(exponential_backoff(5, 1_000, 0), 5);
    assert_eq!(exponential_backoff(5, 1_000, 1), 5);
    assert_eq!(exponential_backoff(5, 1_000, 2), 10);
    assert_eq!(exponential_backoff(5, 1_000, 5), 80);
    assert_eq!(exponential_backoff(5, 1_000, 9), 1_000);
    assert_eq!(exponential_backoff(1, u64::MAX, 32), 1 << 31);
    assert_eq!(exponential_backoff(1, u64::MAX, 33), 1 << 31);
    assert_eq!(exponential_backoff(u64::MAX, u64::MAX, u32::MAX), u64::MAX);
}

#[test]
fn conflicts_and_unknown_outcomes_are_contention() {
    assert!(is_contention(ErrorKind::Conflict));
    assert!(is_contention(ErrorKind::CommitOutcomeUnknown));
    assert!(!is_contention(ErrorKind::Storage));
    assert!(!is_contention(ErrorKind::CorruptData));
}

fn begin(worker: &mut Worker, jobs: Vec<SchemaJob>) -> rad::scheduler::schema_jobs::Round {
    match worker.discovered(Ok(jobs)) {
        Phase::Work { round } => round,
        other => panic!("no round: {other:?}"),
    }
}

#[test]
fn retryable_claim_conflict_is_backed_off_and_recovered() {
    let mut worker = Worker::new(fast_config(), 1);
    let job = SchemaJob::Transition(4);
    let mut round = begin(&mut worker, vec![job]);
    assert_eq!(worker.next_job(&mut round, false, 0), Some(job));
    assert_eq!(worker.step(job, round.item_budget), JobStep::Claim);
    let actions = worker.job_failed(job, conflict("transaction raced"), 0);
    assert_eq!(actions.record_error, None);
    assert_eq!(actions.fail_reclamation, None);
    assert_eq!(
        actions.event,
        SchemaJobEvent::RetryDeferred {
            job,
            failures: 0,
            delay: MILLISECOND,
            cause: "transaction raced".to_owned(),
        }
    );
    assert!(!worker.end_round(&round));
    assert_eq!(worker.rest(false, 0), MILLISECOND);
    assert_eq!(worker.last_error(), Some("transaction raced".to_owned()));

    // The job is passed over until its time has come.
    let mut round = begin(&mut worker, vec![job]);
    assert_eq!(worker.next_job(&mut round, false, 0), None);
    worker.end_round(&round);
    let mut round = begin(&mut worker, vec![job]);
    assert_eq!(worker.next_job(&mut round, false, MILLISECOND), Some(job));
    worker.claimed(job, 9);
    assert_eq!(
        worker.step(job, round.item_budget),
        JobStep::StepTransition {
            owner: 9,
            batch_size: 1
        }
    );
    let items = worker.replied(
        job,
        JobReply::Stepped {
            items: 0,
            finished: true,
        },
    );
    assert_eq!(items, Some(1));
    assert_eq!(
        worker.job_done(&mut round, job, 1),
        SchemaJobEvent::AfterJob { job, items: 1 }
    );
    assert!(worker.end_round(&round));
    assert!(worker.stats().retries >= 1);
    assert_eq!(worker.stats().quarantined, 0);
    assert_eq!(worker.stats().items, 1);
    assert_eq!(worker.last_error(), None);
    // The transition is finished and its owner is forgotten.
    assert_eq!(worker.step(job, 1), JobStep::Claim);
}

#[test]
fn corrupt_job_is_quarantined_without_starving_independent_reclamation() {
    let mut worker = Worker::new(
        SchemaJobConfig {
            max_failures: 1,
            ..fast_config()
        },
        1,
    );
    let bad = SchemaJob::Transition(1);
    let good = SchemaJob::Reclamation(2);
    worker.claimed(bad, 7);
    let mut round = begin(&mut worker, vec![bad, good]);
    assert_eq!(worker.next_job(&mut round, false, 0), Some(bad));
    let actions = worker.job_failed(bad, failure("corrupt delta"), 0);
    assert_eq!(actions.record_error, Some(7));
    assert_eq!(
        actions.event,
        SchemaJobEvent::Quarantined {
            job: bad,
            failures: 1,
            cause: "corrupt delta".to_owned()
        }
    );
    assert_eq!(worker.next_job(&mut round, false, 0), Some(good));
    worker.claimed(good, 8);
    assert_eq!(
        worker.step(good, round.item_budget),
        JobStep::StepReclamation {
            owner: 8,
            batch_size: 1
        }
    );
    worker.job_done(&mut round, good, 1);
    worker.end_round(&round);
    assert!(worker.stats().quarantined >= 1);

    // Only the good job is left to be worked on.
    let round = begin(&mut worker, vec![bad, good]);
    assert_eq!(round.jobs, vec![good]);
    worker.end_round(&round);

    // With nothing but the quarantined job the worker idles, and an idle wait
    // lets it try again.
    assert!(matches!(
        worker.discovered(Ok(vec![bad])),
        Phase::Idle { wait } if wait == 30 * SECOND
    ));
    assert!(worker.idle_ended(WaitOutcome::Elapsed));
    assert_eq!(begin(&mut worker, vec![bad]).jobs, vec![bad]);
}

#[test]
fn repeated_failures_reach_the_limit_and_contention_starts_over() {
    let mut worker = Worker::new(
        SchemaJobConfig {
            max_failures: 3,
            ..fast_config()
        },
        1,
    );
    let job = SchemaJob::Reclamation(5);
    worker.claimed(job, 2);
    for failures in 1..3 {
        let actions = worker.job_failed(job, failure("broken"), 0);
        assert!(matches!(
            actions.event,
            SchemaJobEvent::RetryDeferred { failures: counted, .. } if counted == failures
        ));
    }
    let actions = worker.job_failed(job, conflict("raced"), 0);
    assert!(matches!(
        actions.event,
        SchemaJobEvent::RetryDeferred { failures: 0, .. }
    ));
    worker.claimed(job, 3);
    worker.job_failed(job, failure("broken"), 0);
    worker.job_failed(job, failure("broken"), 0);
    let actions = worker.job_failed(job, failure("broken"), 0);
    assert_eq!(actions.fail_reclamation, Some(3));
    assert!(matches!(
        actions.event,
        SchemaJobEvent::Quarantined { failures: 3, .. }
    ));
    assert_eq!(worker.stats().quarantined, 1);
    assert_eq!(worker.stats().retries, 5);
}

#[test]
fn rounds_visit_the_jobs_in_turn_within_their_budgets() {
    let mut worker = Worker::new(fast_config(), 1);
    let jobs = vec![
        SchemaJob::TransitionCompaction(1),
        SchemaJob::TransitionCompaction(2),
        SchemaJob::CatalogHistory,
    ];
    let mut visited = Vec::new();
    for _ in 0..3 {
        let mut round = begin(&mut worker, jobs.clone());
        while let Some(job) = worker.next_job(&mut round, false, 0) {
            visited.push(job);
            worker.job_done(&mut round, job, 1);
        }
        worker.end_round(&round);
    }
    assert_eq!(
        visited,
        vec![jobs[0], jobs[1], jobs[2], jobs[0], jobs[1], jobs[2]]
    );

    // A job that takes all items ends the round.
    let mut round = begin(&mut worker, jobs.clone());
    let job = worker.next_job(&mut round, false, 0).unwrap();
    assert_eq!(
        worker.step(SchemaJob::CatalogHistory, round.item_budget),
        JobStep::CompactHistory {
            retain: 8,
            batch_size: 2
        }
    );
    worker.job_done(&mut round, job, 2);
    assert_eq!(worker.next_job(&mut round, false, 0), None);

    // A worker that stops takes no further job.
    let mut round = begin(&mut worker, jobs);
    assert_eq!(worker.next_job(&mut round, true, 0), None);
}

#[test]
fn a_waiting_activation_is_no_failure() {
    let mut worker = Worker::new(fast_config(), 1);
    let job = SchemaJob::Activation(3);
    assert_eq!(worker.step(job, 2), JobStep::Activate);
    assert_eq!(worker.replied(job, JobReply::Activated { waiting: true }), None);
    assert_eq!(
        worker.replied(job, JobReply::Activated { waiting: false }),
        Some(1)
    );
    let error = JobError::waiting("t-3");
    assert!(error.contention);
    assert_eq!(
        error.cause,
        "schema transition t-3 is waiting for prerequisites"
    );
    assert_eq!(worker.replied(job, JobReply::NotClaimed), Some(0));
    assert_eq!(
        worker.replied(job, JobReply::Compacted { compacted: true }),
        Some(1)
    );
    assert_eq!(worker.replied(job, JobReply::Deleted { items: 4 }), Some(4));
}

#[test]
fn direct_catalog_observer_remains_a_wake_hint() {
    let mut worker = Worker::new(fast_config(), 1);
    let job = SchemaJob::Transition(1);
    worker.job_failed(job, conflict("raced"), 0);
    worker.accept_wake(1);
    assert!(worker.retry_pending(job, 0));
    worker.accept_wake(2);
    assert!(!worker.retry_pending(job, 0));
    assert!(!worker.idle_ended(WaitOutcome::Stopping));
}

#[test]
fn a_failed_discovery_waits_for_the_longest_backoff() {
    let mut worker = Worker::new(fast_config(), 1);
    let phase = worker.discovered(Err("storage is away".to_owned()));
    assert_eq!(
        phase,
        Phase::Failed {
            event: SchemaJobEvent::DiscoveryFailed {
                cause: "storage is away".to_owned(),
                delay: 10 * MILLISECOND
            },
            wait: 10 * MILLISECOND,
        }
    );
    assert_eq!(worker.last_error(), Some("storage is away".to_owned()));
    // Nothing left to do and nothing in quarantine: the error is over.
    assert!(matches!(worker.discovered(Ok(Vec::new())), Phase::Idle { .. }));
    assert_eq!(worker.last_error(), None);
}
