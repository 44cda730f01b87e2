//! Scheduling policy for durable schema work.
//!
//! The worker decides what is done next; whoever runs it does the work and hands
//! back what came of it. Times are in nanoseconds.

use vstd::prelude::*;

use crate::scheduler::job_map;
use crate::scheduler::job_map::{JobMap, RetryState, SchemaJob};
use crate::service::error::ErrorKind;
use crate::text::join3;

verus! {

const DEFAULT_BATCH_SIZE: usize = 128;

const DEFAULT_BATCHES_PER_ROUND: usize = 16;

const DEFAULT_ITEM_BUDGET: usize = 2_048;

const DEFAULT_RETAIN_REVISIONS: u64 = 256;

const DEFAULT_HISTORY_BATCH_SIZE: usize = 128;

const DEFAULT_MAX_FAILURES: u32 = 8;

/// Process-local resource and retry policy for schema work.
#[derive(Clone, Copy, Debug, PartialEq, Eq, Structural)]
pub struct SchemaJobConfig {
    pub transition_batch_size: usize,
    pub reclamation_batch_size: usize,
    pub batches_per_round: usize,
    pub items_per_round: usize,
    pub yield_interval: u64,
    pub idle_poll_interval: u64,
    pub retry_backoff_min: u64,
    pub retry_backoff_max: u64,
    pub max_failures: u32,
    pub catalog_history_retain: u64,
    pub catalog_history_batch_size: usize,
}

impl Default for SchemaJobConfig {
    fn default() -> (config: SchemaJobConfig)
        ensures
            config == (SchemaJobConfig {
                transition_batch_size: 128,
                reclamation_batch_size: 128,
                batches_per_round: 16,
                items_per_round: 2_048,
                yield_interval: 1_000_000,
                idle_poll_interval: 1_000_000_000,
                retry_backoff_min: 5_000_000,
                retry_backoff_max: 1_000_000_000,
                max_failures: 8,
                catalog_history_retain: 256,
                catalog_history_batch_size: 128,
            }),
            config.zero_setting() is None,
            config.retry_backoff_min <= config.retry_backoff_max,
    {
        SchemaJobConfig {
            transition_batch_size: DEFAULT_BATCH_SIZE,
            reclamation_batch_size: DEFAULT_BATCH_SIZE,
            batches_per_round: DEFAULT_BATCHES_PER_ROUND,
            items_per_round: DEFAULT_ITEM_BUDGET,
            yield_interval: 1_000_000,
            idle_poll_interval: 1_000_000_000,
            retry_backoff_min: 5_000_000,
            retry_backoff_max: 1_000_000_000,
            max_failures: DEFAULT_MAX_FAILURES,
            catalog_history_retain: DEFAULT_RETAIN_REVISIONS,
            catalog_history_batch_size: DEFAULT_HISTORY_BATCH_SIZE,
        }
    }
}

/// What is wrong with a configuration.
#[derive(Clone, Copy, Debug)]
pub enum ConfigError {
    Zero(&'static str),
    BackoffOrder,
}

impl ConfigError {
    /// The message of the error.
    pub open spec fn spec_message(self) -> Seq<char> {
        match self {
            ConfigError::Zero(name) => "schema scheduler setting "@ + name@
                + " must be greater than zero"@,
            ConfigError::BackoffOrder =>
            "schema scheduler retry_backoff_max must not be less than retry_backoff_min"@,
        }
    }

    /// The message of the error.
    pub fn message(&self) -> (message: String)
        ensures
            message@ == self.spec_message(),
    {
        match self {
            ConfigError::Zero(name) => join3(
                "schema scheduler setting ",
                name,
                " must be greater than zero",
            ),
            ConfigError::BackoffOrder =>
            "schema scheduler retry_backoff_max must not be less than retry_backoff_min".to_owned(),
        }
    }
}

impl SchemaJobConfig {
    /// The first setting that is zero and may not be.
    pub open spec fn zero_setting(self) -> Option<Seq<char>> {
        if self.transition_batch_size == 0 {
            Some("transition_batch_size"@)
        } else if self.reclamation_batch_size == 0 {
            Some("reclamation_batch_size"@)
        } else if self.batches_per_round == 0 {
            Some("batches_per_round"@)
        } else if self.items_per_round == 0 {
            Some("items_per_round"@)
        } else if self.catalog_history_batch_size == 0 {
            Some("catalog_history_batch_size"@)
        } else if self.max_failures == 0 {
            Some("max_failures"@)
        } else if self.yield_interval == 0 {
            Some("yield_interval"@)
        } else if self.idle_poll_interval == 0 {
            Some("idle_poll_interval"@)
        } else if self.retry_backoff_min == 0 {
            Some("retry_backoff_min"@)
        } else if self.retry_backoff_max == 0 {
            Some("retry_backoff_max"@)
        } else {
            None
        }
    }

    /// Whether the settings make sense.
    pub open spec fn is_valid(self) -> bool {
        self.zero_setting() is None && self.retry_backoff_min <= self.retry_backoff_max
    }

    /// Holds the settings against each other.
    pub fn validate(&self) -> (result: Result<(), ConfigError>)
        ensures
            match result {
                Ok(_) => self.is_valid(),
                Err(ConfigError::Zero(name)) => self.zero_setting() == Some(name@),
                Err(ConfigError::BackoffOrder) => self.zero_setting() is None
                    && self.retry_backoff_max < self.retry_backoff_min,
            },
    {
        if self.transition_batch_size == 0 {
            return Err(ConfigError::Zero("transition_batch_size"));
        }
        if self.reclamation_batch_size == 0 {
            return Err(ConfigError::Zero("reclamation_batch_size"));
        }
        if self.batches_per_round == 0 {
            return Err(ConfigError::Zero("batches_per_round"));
        }
        if self.items_per_round == 0 {
            return Err(ConfigError::Zero("items_per_round"));
        }
        if self.catalog_history_batch_size == 0 {
            return Err(ConfigError::Zero("catalog_history_batch_size"));
        }
        if self.max_failures == 0 {
            return Err(ConfigError::Zero("max_failures"));
        }
        if self.yield_interval == 0 {
            return Err(ConfigError::Zero("yield_interval"));
        }
        if self.idle_poll_interval == 0 {
            return Err(ConfigError::Zero("idle_poll_interval"));
        }
        if self.retry_backoff_min == 0 {
            return Err(ConfigError::Zero("retry_backoff_min"));
        }
        if self.retry_backoff_max == 0 {
            return Err(ConfigError::Zero("retry_backoff_max"));
        }
        if self.retry_backoff_max < self.retry_backoff_min {
            return Err(ConfigError::BackoffOrder);
        }
        Ok(())
    }
}

/// A point that the worker reaches between bounded pieces of work.
#[derive(Debug, PartialEq)]
pub enum SchemaJobEvent {
    Started,
    Discovered { jobs: Vec<SchemaJob> },
    BeforeJob { job: SchemaJob },
    AfterJob { job: SchemaJob, items: usize },
    RetryDeferred { job: SchemaJob, failures: u32, delay: u64, cause: String },
    Quarantined { job: SchemaJob, failures: u32, cause: String },
    DiscoveryFailed { cause: String, delay: u64 },
    Idle,
    Stopping,
    Stopped,
}

/// What the worker did so far. The counts wrap around.
#[derive(Clone, Copy, Debug, PartialEq, Eq, Structural)]
pub struct SchemaJobStats {
    pub rounds: u64,
    pub batches: u64,
    pub items: u64,
    pub retries: u64,
    pub quarantined: u64,
}

impl Default for SchemaJobStats {
    fn default() -> (stats: SchemaJobStats)
        ensures
            stats == (SchemaJobStats {
                rounds: 0,
                batches: 0,
                items: 0,
                retries: 0,
                quarantined: 0,
            }),
    {
        SchemaJobStats { rounds: 0, batches: 0, items: 0, retries: 0, quarantined: 0 }
    }
}

/// Whether an error says that someone else was faster, or may have been.
pub open spec fn contends(kind: ErrorKind) -> bool {
    kind is Conflict || kind is CommitOutcomeUnknown
}

/// Whether an error says that someone else was faster, or may have been.
pub fn is_contention(kind: ErrorKind) -> (contention: bool)
    ensures
        contention == contends(kind),
{
    match kind {
        ErrorKind::Conflict => true,
        ErrorKind::CommitOutcomeUnknown => true,
        _ => false,
    }
}

/// Why a job could not be advanced.
#[derive(Debug, PartialEq)]
pub struct JobError {
    pub contention: bool,
    pub cause: String,
}

impl JobError {
    /// An error of the executor.
    pub fn of(kind: ErrorKind, cause: String) -> (error: JobError)
        ensures
            error == (JobError { contention: contends(kind), cause }),
    {
        JobError { contention: is_contention(kind), cause }
    }

    /// A transition that waits for others. Waiting is expected, so it counts as
    /// contention and not as a failure.
    pub fn waiting(id: &str) -> (error: JobError)
        ensures
            error.contention,
            error.cause@ == "schema transition "@ + id@ + " is waiting for prerequisites"@,
    {
        JobError {
            contention: true,
            cause: join3("schema transition ", id, " is waiting for prerequisites"),
        }
    }
}

// ---- backoff ----

/// A value doubled a number of times.
pub open spec fn doubled(value: nat, times: nat) -> nat
    decreases times,
{
    if times == 0 {
        value
    } else {
        2 * doubled(value, (times - 1) as nat)
    }
}

/// How often a wait is doubled.
pub open spec fn doublings(step: u32) -> nat {
    if step == 0 {
        0
    } else if step > 32 {
        31
    } else {
        (step - 1) as nat
    }
}

/// The wait after a number of tries: the shortest, doubled with each, up to the
/// longest.
pub open spec fn backoff(minimum: u64, maximum: u64, step: u32) -> u64 {
    let wait = doubled(minimum as nat, doublings(step));
    if wait > maximum {
        maximum
    } else {
        wait as u64
    }
}

/// The wait after a number of tries.
pub fn exponential_backoff(minimum: u64, maximum: u64, step: u32) -> (wait: u64)
    ensures
        wait == backoff(minimum, maximum, step),
{
    let times: u32 = if step == 0 {
        0
    } else if step > 32 {
        31
    } else {
        step - 1
    };
    let mut wait: u128 = minimum as u128;
    let mut bound: u128 = 0x1_0000_0000_0000_0000;
    let mut i: u32 = 0;
    while i < times
        invariant
            i <= times <= 31,
            wait == doubled(minimum as nat, i as nat),
            wait <= bound,
            bound == doubled(0x1_0000_0000_0000_0000, i as nat),
            bound <= 0x8000_0000_0000_0000_0000_0000_0000,
        decreases times - i,
    {
        proof {
            lemma_doubled_grows(0x1_0000_0000_0000_0000, i as nat + 1, 31);
            assert(doubled(0x1_0000_0000_0000_0000, 31) == 0x8000_0000_0000_0000_0000_0000) by {
                reveal_with_fuel(doubled, 32);
            }
        }
        wait = wait * 2;
        bound = bound * 2;
        i += 1;
    }
    if wait > maximum as u128 {
        maximum
    } else {
        wait as u64
    }
}

proof fn lemma_doubled_grows(value: nat, low: nat, high: nat)
    requires
        low <= high,
    ensures
        doubled(value, low) <= doubled(value, high),
    decreases high,
{
    if low < high {
        lemma_doubled_grows(value, low, (high - 1) as nat);
    }
}

// ---- the worker ----

/// Decides what schema work is done next, fairly and within bounds.
#[derive(Debug, PartialEq)]
pub struct Worker {
    pub config: SchemaJobConfig,
    pub next: usize,
    pub seen_wake_epoch: u64,
    pub owners: JobMap<u64>,
    pub retries: JobMap<RetryState>,
    pub quarantined: JobMap<()>,
    pub stats: SchemaJobStats,
    pub last_error: Option<String>,
}

/// The value of a [`Worker`].
#[verifier::ext_equal]
pub struct WorkerView {
    pub config: SchemaJobConfig,
    pub next: usize,
    pub seen_wake_epoch: u64,
    pub owners: Map<SchemaJob, u64>,
    pub retries: Map<SchemaJob, RetryState>,
    pub quarantined: Map<SchemaJob, ()>,
    pub stats: SchemaJobStats,
    pub last_error: Option<Seq<char>>,
}

impl View for Worker {
    type V = WorkerView;

    open spec fn view(&self) -> WorkerView {
        WorkerView {
            config: self.config,
            next: self.next,
            seen_wake_epoch: self.seen_wake_epoch,
            owners: self.owners@,
            retries: self.retries@,
            quarantined: self.quarantined@,
            stats: self.stats,
            last_error: match self.last_error {
                Some(error) => Some(error@),
                None => None,
            },
        }
    }
}

/// One pass over the jobs.
#[derive(Debug, PartialEq)]
pub struct Round {
    pub jobs: Vec<SchemaJob>,
    pub batch_budget: usize,
    pub item_budget: usize,
    pub visited: usize,
    pub progressed: bool,
}

/// The value of a [`Round`].
#[verifier::ext_equal]
pub struct RoundView {
    pub jobs: Seq<SchemaJob>,
    pub batch_budget: usize,
    pub item_budget: usize,
    pub visited: usize,
    pub progressed: bool,
}

impl View for Round {
    type V = RoundView;

    open spec fn view(&self) -> RoundView {
        RoundView {
            jobs: self.jobs@,
            batch_budget: self.batch_budget,
            item_budget: self.item_budget,
            visited: self.visited,
            progressed: self.progressed,
        }
    }
}

impl RoundView {
    /// Whether the round stays within its jobs.
    pub open spec fn wf(self) -> bool {
        0 < self.jobs.len() <= usize::MAX && self.visited <= self.batch_budget <= self.jobs.len()
    }

    /// After a job that went well.
    pub open spec fn advanced(self, items: usize) -> RoundView {
        if items > 0 {
            RoundView {
                progressed: true,
                item_budget: self.item_budget.saturating_sub(items),
                ..self
            }
        } else {
            self
        }
    }
}

/// The job at a distance from where a round begins.
pub open spec fn job_at(jobs: Seq<SchemaJob>, begin: usize, distance: nat) -> SchemaJob {
    jobs[(begin + distance) % jobs.len() as int]
}

/// The distance of the first job that is not to wait.
pub open spec fn ready_distance(
    retries: Map<SchemaJob, RetryState>,
    jobs: Seq<SchemaJob>,
    begin: usize,
    now: u64,
    from: nat,
    budget: nat,
) -> nat
    decreases budget - from,
{
    if from < budget && waits(retries, job_at(jobs, begin, from), now) {
        ready_distance(retries, jobs, begin, now, from + 1, budget)
    } else {
        from
    }
}

/// Whether a job is to wait.
pub open spec fn waits(retries: Map<SchemaJob, RetryState>, job: SchemaJob, now: u64) -> bool {
    retries.dom().contains(job) && retries[job].next > now
}

/// What is done for a job.
#[derive(Clone, Copy, Debug, PartialEq, Eq, Structural)]
pub enum JobStep {
    Activate,
    Claim,
    StepTransition { owner: u64, batch_size: usize },
    StepReclamation { owner: u64, batch_size: usize },
    CompactTransition,
    CompactHistory { retain: u64, batch_size: usize },
}

/// What came of a step.
#[derive(Clone, Copy, Debug, PartialEq, Eq, Structural)]
pub enum JobReply {
    /// An activation was tried; the transition may still wait.
    Activated { waiting: bool },
    /// There was nothing to claim.
    NotClaimed,
    /// A transition or a reclamation was stepped.
    Stepped { items: usize, finished: bool },
    /// A transition was compacted, or was compacted already.
    Compacted { compacted: bool },
    /// History was deleted.
    Deleted { items: usize },
}

/// What is done after a failure, and the point that is reached.
#[derive(Debug, PartialEq)]
pub struct FailureActions {
    /// The owner by which the error is recorded on the transition.
    pub record_error: Option<u64>,
    /// The owner by which the reclamation is marked as failed.
    pub fail_reclamation: Option<u64>,
    pub event: SchemaJobEvent,
}

/// What follows a discovery.
#[derive(Debug, PartialEq)]
pub enum Phase {
    Failed { event: SchemaJobEvent, wait: u64 },
    Idle { wait: u64 },
    Work { round: Round },
}

/// What ended a wait.
#[derive(Clone, Copy, Debug, PartialEq, Eq, Structural)]
pub enum WaitOutcome {
    Woken,
    Elapsed,
    Stopping,
}

/// How many items a step may take: the batch, within the budget and at least one.
pub open spec fn batch_of(batch_size: usize, item_budget: usize) -> usize {
    let batch = if batch_size <= item_budget {
        batch_size
    } else {
        item_budget
    };
    if batch == 0 {
        1
    } else {
        batch
    }
}

fn batch_within(batch_size: usize, item_budget: usize) -> (batch: usize)
    ensures
        batch == batch_of(batch_size, item_budget),
{
    let batch: usize = if batch_size <= item_budget {
        batch_size
    } else {
        item_budget
    };
    if batch == 0 {
        1
    } else {
        batch
    }
}

/// The jobs that are not in quarantine.
pub open spec fn runnable_of(jobs: Seq<SchemaJob>, quarantined: Map<SchemaJob, ()>) -> Seq<
    SchemaJob,
>
    decreases jobs.len(),
{
    if jobs.len() == 0 {
        Seq::empty()
    } else {
        let before = runnable_of(jobs.drop_last(), quarantined);
        if quarantined.dom().contains(jobs.last()) {
            before
        } else {
            before.push(jobs.last())
        }
    }
}

impl WorkerView {
    /// With nothing deferred.
    pub open spec fn reset(self) -> WorkerView {
        WorkerView { retries: Map::empty(), quarantined: Map::empty(), ..self }
    }

    /// After a look at the wakes.
    pub open spec fn wake_accepted(self, epoch: u64) -> WorkerView {
        if epoch != self.seen_wake_epoch {
            WorkerView { seen_wake_epoch: epoch, ..self }.reset()
        } else {
            self
        }
    }

    /// With the owner of a job forgotten; only transitions and reclamations have
    /// one.
    pub open spec fn forgotten(self, job: SchemaJob) -> WorkerView {
        if job is Transition || job is Reclamation {
            WorkerView { owners: self.owners.remove(job), ..self }
        } else {
            self
        }
    }

    /// How often a job was deferred, with this time.
    pub open spec fn next_step(self, job: SchemaJob) -> u32 {
        let step = match self.retries.get(job) {
            Some(retry) => retry.backoff_step.saturating_add(1),
            None => 1,
        };
        if step > self.config.max_failures {
            self.config.max_failures
        } else {
            step
        }
    }

    /// How long a job waits when it is deferred.
    pub open spec fn next_delay(self, job: SchemaJob) -> u64 {
        backoff(
            self.config.retry_backoff_min,
            self.config.retry_backoff_max,
            self.next_step(job),
        )
    }

    /// With a job deferred.
    pub open spec fn deferred(self, job: SchemaJob, failures: u32, now: u64) -> WorkerView {
        WorkerView {
            retries: self.retries.insert(
                job,
                RetryState {
                    backoff_step: self.next_step(job),
                    failures,
                    next: now.saturating_add(self.next_delay(job)),
                },
            ),
            stats: SchemaJobStats { retries: self.stats.retries.wrapping_add(1), ..self.stats },
            ..self
        }
    }

    /// How often a job failed, with this time.
    pub open spec fn failures(self, job: SchemaJob) -> u32 {
        match self.retries.get(job) {
            Some(retry) => retry.failures.saturating_add(1),
            None => 1,
        }
    }

    /// Whether a job that fails once more is given up.
    pub open spec fn gives_up(self, job: SchemaJob) -> bool {
        self.failures(job) >= self.config.max_failures
    }

    /// With a job in quarantine.
    pub open spec fn given_up(self, job: SchemaJob) -> WorkerView {
        let without = self.forgotten(job);
        WorkerView {
            retries: without.retries.remove(job),
            quarantined: without.quarantined.insert(job, ()),
            stats: SchemaJobStats {
                quarantined: self.stats.quarantined.wrapping_add(1),
                ..self.stats
            },
            ..without
        }
    }

    /// After a failure. Contention is tried again and never counts as a failure;
    /// anything else is tried again until it has failed too often.
    pub open spec fn failed(
        self,
        job: SchemaJob,
        contention: bool,
        cause: Seq<char>,
        now: u64,
    ) -> WorkerView {
        let noted = WorkerView { last_error: Some(cause), ..self };
        if contention {
            noted.forgotten(job).deferred(job, 0, now)
        } else if self.gives_up(job) {
            noted.given_up(job)
        } else {
            noted.deferred(job, self.failures(job), now)
        }
    }

    /// After a job that went well.
    pub open spec fn succeeded(self, job: SchemaJob, items: usize) -> WorkerView {
        WorkerView {
            retries: self.retries.remove(job),
            last_error: None,
            stats: if items > 0 {
                SchemaJobStats {
                    batches: self.stats.batches.wrapping_add(1),
                    items: self.stats.items.wrapping_add(items as u64),
                    ..self.stats
                }
            } else {
                self.stats
            },
            ..self
        }
    }

    /// What is done for a job. A job that needs an owner is claimed first.
    pub open spec fn step(self, job: SchemaJob, item_budget: usize) -> JobStep {
        match job {
            SchemaJob::Activation(_) => JobStep::Activate,
            SchemaJob::Transition(_) => match self.owners.get(job) {
                Some(owner) => JobStep::StepTransition {
                    owner,
                    batch_size: batch_of(self.config.transition_batch_size, item_budget),
                },
                None => JobStep::Claim,
            },
            SchemaJob::Reclamation(_) => match self.owners.get(job) {
                Some(owner) => JobStep::StepReclamation {
                    owner,
                    batch_size: batch_of(self.config.reclamation_batch_size, item_budget),
                },
                None => JobStep::Claim,
            },
            SchemaJob::TransitionCompaction(_) => JobStep::CompactTransition,
            SchemaJob::CatalogHistory => JobStep::CompactHistory {
                retain: self.config.catalog_history_retain,
                batch_size: batch_of(self.config.catalog_history_batch_size, item_budget),
            },
        }
    }

    /// After a round was begun on that many jobs.
    pub open spec fn round_begun(self, jobs: nat) -> WorkerView {
        WorkerView {
            stats: SchemaJobStats { rounds: self.stats.rounds.wrapping_add(1), ..self.stats },
            next: if self.next >= jobs {
                0
            } else {
                self.next
            },
            ..self
        }
    }

    /// The round over some jobs.
    pub open spec fn round_of(self, jobs: Seq<SchemaJob>) -> RoundView {
        RoundView {
            jobs,
            batch_budget: if self.config.batches_per_round <= jobs.len() {
                self.config.batches_per_round
            } else {
                jobs.len() as usize
            },
            item_budget: self.config.items_per_round,
            visited: 0,
            progressed: false,
        }
    }

    /// After a round: the next begins where this one stopped.
    pub open spec fn round_ended(self, round: RoundView) -> WorkerView {
        WorkerView {
            next: ((self.next + round.visited) % round.jobs.len() as int) as usize,
            ..self
        }
    }

    /// After a discovery. Errors stand until there is nothing left to do and
    /// nothing in quarantine.
    pub open spec fn discovered(self, found: Result<Seq<SchemaJob>, Seq<char>>) -> WorkerView {
        match found {
            Err(cause) => WorkerView { last_error: Some(cause), ..self },
            Ok(jobs) => {
                let runnable = runnable_of(jobs, self.quarantined);
                if runnable.len() > 0 {
                    self.round_begun(runnable.len())
                } else if self.quarantined == Map::<SchemaJob, ()>::empty() {
                    WorkerView { last_error: None, ..self }
                } else {
                    self
                }
            },
        }
    }

    /// Whether this is how long the worker rests after a round: shortly where
    /// there was progress, else until the first job may be tried again.
    pub open spec fn is_rest(self, progressed: bool, now: u64, rest: u64) -> bool {
        let fallback = self.config.yield_interval;
        if progressed || job_map::none_wait(self.retries, now) {
            rest == fallback
        } else {
            exists|wait: u64| #[trigger]
                job_map::is_first_wait(self.retries, now, wait) && rest == (if wait >= fallback {
                    wait
                } else {
                    fallback
                })
        }
    }
}

impl Worker {
    /// A worker with nothing done.
    pub fn new(config: SchemaJobConfig, wake_epoch: u64) -> (worker: Worker)
        ensures
            worker@ == (WorkerView {
                config,
                next: 0,
                seen_wake_epoch: wake_epoch,
                owners: Map::empty(),
                retries: Map::empty(),
                quarantined: Map::empty(),
                stats: SchemaJobStats {
                    rounds: 0,
                    batches: 0,
                    items: 0,
                    retries: 0,
                    quarantined: 0,
                },
                last_error: None,
            }),
    {
        Worker {
            config,
            next: 0,
            seen_wake_epoch: wake_epoch,
            owners: JobMap::new(),
            retries: JobMap::new(),
            quarantined: JobMap::new(),
            stats: SchemaJobStats::default(),
            last_error: None,
        }
    }

    /// What the worker did so far.
    pub fn stats(&self) -> (stats: SchemaJobStats)
        ensures
            stats == self@.stats,
    {
        self.stats
    }

    /// The error that stands.
    pub fn last_error(&self) -> (error: Option<String>)
        ensures
            match error {
                Some(error) => self@.last_error == Some(error@),
                None => self@.last_error is None,
            },
    {
        match &self.last_error {
            Some(error) => Some(error.as_str().to_owned()),
            None => None,
        }
    }

    /// Forgets what was deferred and what is in quarantine.
    pub fn reset_deferred_work(&mut self)
        ensures
            final(self)@ == old(self)@.reset(),
    {
        self.retries = JobMap::new();
        self.quarantined = JobMap::new();
    }

    /// Looks at the wakes; new ones have everything tried again.
    pub fn accept_wake(&mut self, epoch: u64)
        ensures
            final(self)@ == old(self)@.wake_accepted(epoch),
    {
        if epoch != self.seen_wake_epoch {
            self.seen_wake_epoch = epoch;
            self.reset_deferred_work();
        }
    }

    fn runnable(&self, jobs: &Vec<SchemaJob>) -> (runnable: Vec<SchemaJob>)
        ensures
            runnable@ == runnable_of(jobs@, self@.quarantined),
    {
        let mut runnable: Vec<SchemaJob> = Vec::new();
        let mut i: usize = 0;
        assert(jobs@.take(0) =~= Seq::empty());
        while i < jobs.len()
            invariant
                i <= jobs.len(),
                runnable@ == runnable_of(jobs@.take(i as int), self@.quarantined),
            decreases jobs.len() - i,
        {
            assert(jobs@.take(i + 1).drop_last() =~= jobs@.take(i as int));
            if self.quarantined.get(jobs[i]).is_none() {
                runnable.push(jobs[i]);
            }
            i += 1;
        }
        assert(jobs@.take(i as int) =~= jobs@);
        runnable
    }

    /// What follows a discovery: a rest after a failure, a wait where nothing is
    /// to be done, and a round otherwise.
    pub fn discovered(&mut self, found: Result<Vec<SchemaJob>, String>) -> (phase: Phase)
        ensures
            final(self)@ == old(self)@.discovered(
                match found {
                    Ok(jobs) => Ok(jobs@),
                    Err(cause) => Err(cause@),
                },
            ),
            match phase {
                Phase::Failed { event, wait } => {
                    &&& found is Err
                    &&& wait == old(self)@.config.retry_backoff_max
                    &&& event == (SchemaJobEvent::DiscoveryFailed { cause: found->Err_0, delay: wait })
                },
                Phase::Idle { wait } => {
                    &&& found matches Ok(jobs) && runnable_of(
                        jobs@,
                        old(self)@.quarantined,
                    ).len() == 0
                    &&& wait == old(self)@.config.idle_poll_interval
                },
                Phase::Work { round } => {
                    &&& found matches Ok(jobs) && runnable_of(
                        jobs@,
                        old(self)@.quarantined,
                    ).len() > 0 && round@ == old(self)@.round_of(
                        runnable_of(jobs@, old(self)@.quarantined),
                    )
                    &&& round@.wf()
                    &&& final(self)@.next < round@.jobs.len()
                },
            },
    {
        let jobs = match found {
            Err(cause) => {
                self.last_error = Some(cause.as_str().to_owned());
                let wait: u64 = self.config.retry_backoff_max;
                return Phase::Failed {
                    event: SchemaJobEvent::DiscoveryFailed { cause, delay: wait },
                    wait,
                };
            },
            Ok(jobs) => jobs,
        };
        let runnable = self.runnable(&jobs);
        let count: usize = runnable.len();
        if count == 0 {
            if self.quarantined.is_empty() {
                self.last_error = None;
            }
            return Phase::Idle { wait: self.config.idle_poll_interval };
        }
        self.stats.rounds = self.stats.rounds.wrapping_add(1);
        if self.next >= count {
            self.next = 0;
        }
        let batch_budget: usize = if self.config.batches_per_round <= count {
            self.config.batches_per_round
        } else {
            count
        };
        Phase::Work {
            round: Round {
                jobs: runnable,
                batch_budget,
                item_budget: self.config.items_per_round,
                visited: 0,
                progressed: false,
            },
        }
    }

    /// Whether a job is to wait.
    pub fn retry_pending(&self, job: SchemaJob, now: u64) -> (pending: bool)
        ensures
            pending == waits(self@.retries, job, now),
    {
        match self.retries.get(job) {
            Some(retry) => retry.next > now,
            None => false,
        }
    }

    /// The next job of a round: the jobs stand in turn, those that are to wait
    /// are passed over, and the round ends with its budgets or when the worker
    /// stops.
    pub fn next_job(&self, round: &mut Round, stopping: bool, now: u64) -> (job: Option<SchemaJob>)
        requires
            old(round)@.wf(),
            self@.next < old(round)@.jobs.len(),
        ensures
            final(round)@.wf(),
            if old(round)@.item_budget == 0 || stopping {
                job is None && final(round)@ == old(round)@
            } else {
                let distance = ready_distance(
                    self@.retries,
                    old(round)@.jobs,
                    self@.next,
                    now,
                    old(round)@.visited as nat,
                    old(round)@.batch_budget as nat,
                );
                if distance < old(round)@.batch_budget {
                    job == Some(job_at(old(round)@.jobs, self@.next, distance)) && final(round)@
                        == (RoundView { visited: (distance + 1) as usize, ..old(round)@ })
                } else {
                    job is None && final(round)@ == (RoundView {
                        visited: old(round)@.batch_budget,
                        ..old(round)@
                    })
                }
            },
    {
        if round.item_budget == 0 || stopping {
            return None;
        }
        let count: usize = round.jobs.len();
        let ghost start = round@;
        while round.visited < round.batch_budget
            invariant
                start == old(round)@,
                start.item_budget != 0 && !stopping,
                start.wf(),
                round@ == (RoundView { visited: round.visited, ..start }),
                start.visited <= round.visited <= start.batch_budget,
                count == start.jobs.len(),
                self@.next < count,
                ready_distance(
                    self@.retries,
                    start.jobs,
                    self@.next,
                    now,
                    start.visited as nat,
                    start.batch_budget as nat,
                ) == ready_distance(
                    self@.retries,
                    start.jobs,
                    self@.next,
                    now,
                    round.visited as nat,
                    start.batch_budget as nat,
                ),
            decreases round.batch_budget - round.visited,
        {
            let distance: usize = round.visited;
            let rest: usize = count - self.next;
            let position: usize = if distance < rest {
                self.next + distance
            } else {
                distance - rest
            };
            proof {
                lemma_turn(self.next as int, distance as int, count as int);
            }
            let job = round.jobs[position];
            round.visited = round.visited + 1;
            if !self.retry_pending(job, now) {
                return Some(job);
            }
        }
        None
    }

    /// What is done for a job.
    pub fn step(&self, job: SchemaJob, item_budget: usize) -> (step: JobStep)
        ensures
            step == self@.step(job, item_budget),
    {
        match job {
            SchemaJob::Activation(_) => JobStep::Activate,
            SchemaJob::Transition(_) => match self.owners.get(job) {
                Some(owner) => JobStep::StepTransition {
                    owner,
                    batch_size: batch_within(self.config.transition_batch_size, item_budget),
                },
                None => JobStep::Claim,
            },
            SchemaJob::Reclamation(_) => match self.owners.get(job) {
                Some(owner) => JobStep::StepReclamation {
                    owner,
                    batch_size: batch_within(self.config.reclamation_batch_size, item_budget),
                },
                None => JobStep::Claim,
            },
            SchemaJob::TransitionCompaction(_) => JobStep::CompactTransition,
            SchemaJob::CatalogHistory => JobStep::CompactHistory {
                retain: self.config.catalog_history_retain,
                batch_size: batch_within(self.config.catalog_history_batch_size, item_budget),
            },
        }
    }

    /// Keeps the owner by which a job was claimed.
    pub fn claimed(&mut self, job: SchemaJob, owner: u64)
        ensures
            final(self)@ == (WorkerView {
                owners: old(self)@.owners.insert(job, owner),
                ..old(self)@
            }),
    {
        self.owners.set(job, owner);
    }

    /// How many items a step came to; nothing where the job waits for others. A
    /// step counts as one item at least, and a job that is finished needs no owner.
    pub fn replied(&mut self, job: SchemaJob, reply: JobReply) -> (items: Option<usize>)
        ensures
            match reply {
                JobReply::Activated { waiting } => {
                    &&& items == (if waiting {
                        None
                    } else {
                        Some(1usize)
                    })
                    &&& final(self)@ == old(self)@
                },
                JobReply::NotClaimed => items == Some(0usize) && final(self)@ == old(self)@,
                JobReply::Stepped { items: taken, finished } => {
                    &&& items == Some(
                        if taken == 0 {
                            1usize
                        } else {
                            taken
                        },
                    )
                    &&& final(self)@ == (if finished {
                        old(self)@.forgotten(job)
                    } else {
                        old(self)@
                    })
                },
                JobReply::Compacted { compacted } => {
                    &&& items == Some(
                        if compacted {
                            1usize
                        } else {
                            0usize
                        },
                    )
                    &&& final(self)@ == old(self)@
                },
                JobReply::Deleted { items: deleted } => items == Some(deleted) && final(self)@
                    == old(self)@,
            },
    {
        match reply {
            JobReply::Activated { waiting } => if waiting {
                None
            } else {
                Some(1)
            },
            JobReply::NotClaimed => Some(0),
            JobReply::Stepped { items, finished } => {
                if finished {
                    self.forget_owner(job);
                }
                if items == 0 {
                    Some(1)
                } else {
                    Some(items)
                }
            },
            JobReply::Compacted { compacted } => if compacted {
                Some(1)
            } else {
                Some(0)
            },
            JobReply::Deleted { items } => Some(items),
        }
    }

    /// Takes in a job that went well.
    pub fn job_done(&mut self, round: &mut Round, job: SchemaJob, items: usize) -> (event:
        SchemaJobEvent)
        ensures
            final(self)@ == old(self)@.succeeded(job, items),
            final(round)@ == old(round)@.advanced(items),
            event == (SchemaJobEvent::AfterJob { job, items }),
    {
        self.retries.remove(job);
        self.last_error = None;
        if items > 0 {
            round.progressed = true;
            round.item_budget = round.item_budget.saturating_sub(items);
            self.stats.batches = self.stats.batches.wrapping_add(1);
            self.stats.items = self.stats.items.wrapping_add(items as u64);
        }
        SchemaJobEvent::AfterJob { job, items }
    }

    /// Forgets the owner of a job.
    pub fn forget_owner(&mut self, job: SchemaJob)
        ensures
            final(self)@ == old(self)@.forgotten(job),
    {
        match job {
            SchemaJob::Transition(_) => {
                self.owners.remove(job);
            },
            SchemaJob::Reclamation(_) => {
                self.owners.remove(job);
            },
            _ => {},
        }
    }

    fn defer(&mut self, job: SchemaJob, failures: u32, cause: String, now: u64) -> (event:
        SchemaJobEvent)
        ensures
            final(self)@ == old(self)@.deferred(job, failures, now),
            event == (SchemaJobEvent::RetryDeferred {
                job,
                failures,
                delay: old(self)@.next_delay(job),
                cause,
            }),
    {
        let step: u32 = match self.retries.get(job) {
            Some(retry) => retry.backoff_step.saturating_add(1),
            None => 1,
        };
        let backoff_step: u32 = if step > self.config.max_failures {
            self.config.max_failures
        } else {
            step
        };
        let delay: u64 = exponential_backoff(
            self.config.retry_backoff_min,
            self.config.retry_backoff_max,
            backoff_step,
        );
        self.retries.set(
            job,
            RetryState { backoff_step, failures, next: now.saturating_add(delay) },
        );
        self.stats.retries = self.stats.retries.wrapping_add(1);
        SchemaJobEvent::RetryDeferred { job, failures, delay, cause }
    }

    /// Takes in a job that failed.
    pub fn job_failed(&mut self, job: SchemaJob, error: JobError, now: u64) -> (actions:
        FailureActions)
        ensures
            final(self)@ == old(self)@.failed(job, error.contention, error.cause@, now),
            actions.record_error == (if job is Transition && !error.contention {
                old(self)@.owners.get(job)
            } else {
                None
            }),
            actions.fail_reclamation == (if job is Reclamation && !error.contention && old(
                self,
            )@.gives_up(job) {
                old(self)@.owners.get(job)
            } else {
                None
            }),
            if !error.contention && old(self)@.gives_up(job) {
                actions.event == (SchemaJobEvent::Quarantined {
                    job,
                    failures: old(self)@.failures(job),
                    cause: error.cause,
                })
            } else {
                actions.event == (SchemaJobEvent::RetryDeferred {
                    job,
                    failures: if error.contention {
                        0
                    } else {
                        old(self)@.failures(job)
                    },
                    delay: old(self)@.next_delay(job),
                    cause: error.cause,
                })
            },
    {
        self.last_error = Some(error.cause.as_str().to_owned());
        let owner = self.owners.get(job);
        if error.contention {
            self.forget_owner(job);
            let event = self.defer(job, 0, error.cause, now);
            return FailureActions { record_error: None, fail_reclamation: None, event };
        }
        let is_transition = match job {
            SchemaJob::Transition(_) => true,
            _ => false,
        };
        let record_error = if is_transition {
            owner
        } else {
            None
        };
        let failures: u32 = match self.retries.get(job) {
            Some(retry) => retry.failures.saturating_add(1),
            None => 1,
        };
        if failures >= self.config.max_failures {
            let is_reclamation = match job {
                SchemaJob::Reclamation(_) => true,
                _ => false,
            };
            let fail_reclamation = if is_reclamation {
                owner
            } else {
                None
            };
            self.forget_owner(job);
            self.retries.remove(job);
            self.quarantined.set(job, ());
            self.stats.quarantined = self.stats.quarantined.wrapping_add(1);
            let event = SchemaJobEvent::Quarantined { job, failures, cause: error.cause };
            return FailureActions { record_error, fail_reclamation, event };
        }
        let event = self.defer(job, failures, error.cause, now);
        FailureActions { record_error, fail_reclamation: None, event }
    }

    /// Ends a round, and says whether there was progress.
    pub fn end_round(&mut self, round: &Round) -> (progressed: bool)
        requires
            round@.wf(),
            old(self)@.next < round@.jobs.len(),
        ensures
            final(self)@ == old(self)@.round_ended(round@),
            final(self)@.next < round@.jobs.len(),
            progressed == round@.progressed,
    {
        let count: usize = round.jobs.len();
        let rest: usize = count - self.next;
        proof {
            lemma_turn(self.next as int, round.visited as int, count as int);
        }
        self.next = if round.visited < rest {
            self.next + round.visited
        } else {
            round.visited - rest
        };
        round.progressed
    }

    /// How long the worker rests when there was no progress: until the first job
    /// may be tried again, and at least as long as the fallback.
    pub fn retry_delay(&self, fallback: u64, now: u64) -> (delay: u64)
        ensures
            job_map::none_wait(self@.retries, now) ==> delay == fallback,
            !job_map::none_wait(self@.retries, now) ==> exists|wait: u64| #[trigger]
                job_map::is_first_wait(self@.retries, now, wait) && delay == (if wait >= fallback {
                    wait
                } else {
                    fallback
                }),
    {
        match self.retries.first_wait(now) {
            Some(wait) => if wait >= fallback {
                wait
            } else {
                fallback
            },
            None => fallback,
        }
    }

    /// How long the worker rests after a round.
    pub fn rest(&self, progressed: bool, now: u64) -> (rest: u64)
        ensures
            self@.is_rest(progressed, now, rest),
    {
        if progressed {
            self.config.yield_interval
        } else {
            self.retry_delay(self.config.yield_interval, now)
        }
    }

    /// What follows a wait without work: everything is tried again, unless the
    /// worker stops. Says whether it goes on.
    pub fn idle_ended(&mut self, outcome: WaitOutcome) -> (continues: bool)
        ensures
            continues == !(outcome is Stopping),
            final(self)@ == (if outcome is Stopping {
                old(self)@
            } else {
                old(self)@.reset()
            }),
    {
        match outcome {
            WaitOutcome::Stopping => false,
            _ => {
                self.reset_deferred_work();
                true
            },
        }
    }
}

proof fn lemma_turn(begin: int, distance: int, count: int)
    requires
        0 <= begin < count,
        0 <= distance <= count,
    ensures
        (begin + distance) % count == (if distance < count - begin {
            begin + distance
        } else {
            distance - (count - begin)
        }),
{
    if distance < count - begin {
        vstd::arithmetic::div_mod::lemma_small_mod((begin + distance) as nat, count as nat);
    } else {
        let rest = distance - (count - begin);
        vstd::arithmetic::div_mod::lemma_mod_add_multiples_vanish(rest, count);
        vstd::arithmetic::div_mod::lemma_small_mod(rest as nat, count as nat);
    }
}

// ---- what the worker promises ----

/// A wait is never longer than the longest, and never shorter than the shortest.
pub proof fn waits_stay_within_bounds(minimum: u64, maximum: u64, step: u32)
    ensures
        backoff(minimum, maximum, step) <= maximum,
        minimum <= maximum ==> minimum <= backoff(minimum, maximum, step),
{
    lemma_doubled_grows(minimum as nat, 0, doublings(step));
}

/// A job that is tried more often never waits less.
pub proof fn waits_never_shrink(minimum: u64, maximum: u64, step: u32, later: u32)
    requires
        step <= later,
    ensures
        backoff(minimum, maximum, step) <= backoff(minimum, maximum, later),
{
    lemma_doubled_grows(minimum as nat, doublings(step), doublings(later));
}

/// Contention never puts a job into quarantine, however often it comes, and it
/// wipes out what was counted of failures.
pub proof fn contention_is_no_failure(
    worker: WorkerView,
    job: SchemaJob,
    cause: Seq<char>,
    now: u64,
)
    ensures
        worker.failed(job, true, cause, now).quarantined == worker.quarantined,
        worker.failed(job, true, cause, now).retries[job].failures == 0,
        worker.failed(job, true, cause, now).failures(job) == 1,
{
}

/// A job is given up with the failure that reaches the limit, and not before.
pub proof fn jobs_are_given_up_at_the_limit(
    worker: WorkerView,
    job: SchemaJob,
    cause: Seq<char>,
    now: u64,
)
    requires
        !worker.quarantined.dom().contains(job),
    ensures
        worker.failed(job, false, cause, now).quarantined.dom().contains(job)
            == worker.gives_up(job),
        !worker.gives_up(job) ==> worker.failed(job, false, cause, now).failures(job)
            == worker.failures(job).saturating_add(1),
        !worker.gives_up(job) ==> worker.failures(job) < worker.config.max_failures,
{
}

/// What happens to one job leaves all others as they are.
pub proof fn jobs_fail_apart(
    worker: WorkerView,
    job: SchemaJob,
    other: SchemaJob,
    contention: bool,
    cause: Seq<char>,
    now: u64,
)
    requires
        job != other,
    ensures
        worker.failed(job, contention, cause, now).retries.get(other) == worker.retries.get(other),
        worker.failed(job, contention, cause, now).quarantined.get(other)
            == worker.quarantined.get(other),
        worker.failed(job, contention, cause, now).owners.get(other) == worker.owners.get(other),
{
}

/// A success forgets every failure before it.
pub proof fn success_forgets_failures(worker: WorkerView, job: SchemaJob, items: usize)
    ensures
        worker.succeeded(job, items).failures(job) == 1,
        worker.succeeded(job, items).last_error is None,
{
}

/// A deferred job waits at least the shortest wait, and less than forever: it is
/// tried again once its time has come.
pub proof fn deferred_jobs_come_back(
    worker: WorkerView,
    job: SchemaJob,
    failures: u32,
    now: u64,
)
    requires
        worker.config.is_valid(),
        now + worker.config.retry_backoff_max <= u64::MAX,
    ensures
        waits(worker.deferred(job, failures, now).retries, job, now),
        !waits(
            worker.deferred(job, failures, now).retries,
            job,
            (now + worker.config.retry_backoff_max) as u64,
        ),
{
    waits_stay_within_bounds(
        worker.config.retry_backoff_min,
        worker.config.retry_backoff_max,
        worker.next_step(job),
    );
}

/// No job is starved: a round begins with the job after the last that the round
/// before it visited, so that rounds over the same jobs visit them in turn.
pub proof fn rounds_follow_each_other(
    worker: WorkerView,
    round: RoundView,
    distance: nat,
)
    requires
        round.wf(),
        worker.next < round.jobs.len(),
    ensures
        job_at(round.jobs, worker.round_ended(round).next, distance) == job_at(
            round.jobs,
            worker.next,
            (round.visited + distance) as nat,
        ),
{
    let count = round.jobs.len() as int;
    let turned = (worker.next + round.visited) % count;
    assert(0 <= turned < count) by (nonlinear_arith)
        requires
            turned == (worker.next + round.visited) % count,
            count > 0,
    ;
    vstd::arithmetic::div_mod::lemma_add_mod_noop(
        worker.next + round.visited,
        distance as int,
        count,
    );
    vstd::arithmetic::div_mod::lemma_add_mod_noop(turned, distance as int, count);
    vstd::arithmetic::div_mod::lemma_mod_twice(worker.next + round.visited, count);
}

/// A step never takes more than what is left of the round's items.
pub proof fn steps_stay_within_the_budget(batch_size: usize, item_budget: usize)
    requires
        item_budget > 0,
    ensures
        1 <= batch_of(batch_size, item_budget) <= item_budget,
        batch_size > 0 ==> batch_of(batch_size, item_budget) <= batch_size,
{
}

/// What is in quarantine is not worked on until a wake or an idle wait lets it
/// out.
pub proof fn quarantine_holds_until_reset(jobs: Seq<SchemaJob>, worker: WorkerView, job: SchemaJob)
    requires
        worker.quarantined.dom().contains(job),
    ensures
        !runnable_of(jobs, worker.quarantined).contains(job),
        jobs.contains(job) ==> runnable_of(jobs, worker.reset().quarantined).contains(job),
    decreases jobs.len(),
{
    if jobs.len() > 0 {
        quarantine_holds_until_reset(jobs.drop_last(), worker, job);
        let before = runnable_of(jobs.drop_last(), worker.quarantined);
        assert forall|i: int| 0 <= i < runnable_of(jobs, worker.quarantined).len() implies
            runnable_of(jobs, worker.quarantined)[i] != job by {
            if i < before.len() {
                assert(before.contains(before[i]));
            }
        }
        let free = worker.reset().quarantined;
        if jobs.contains(job) {
            let all = runnable_of(jobs, free);
            let early = runnable_of(jobs.drop_last(), free);
            assert(all == early.push(jobs.last()));
            if jobs.last() == job {
                assert(all[all.len() - 1] == job);
            } else {
                let place = choose|i: int| 0 <= i < jobs.len() && jobs[i] == job;
                assert(jobs.drop_last()[place] == job);
                let found = choose|i: int| 0 <= i < early.len() && early[i] == job;
                assert(all[found] == job);
            }
        }
    }
}

} // verus!
