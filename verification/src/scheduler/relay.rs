//! Relay of observations: an instance that cannot publish hands its evidence
//! to one that can.
//!
//! A batch is sent at least once and taken once: it carries its sender, the
//! process of the sender and a sequence number, and a receiver takes each
//! number once while it remembers the sender. Evidence that is lost on the way
//! is counted.

use vstd::prelude::*;

use crate::scheduler::batch;
use crate::scheduler::batch::{BatchView, StatisticsBatch};
use crate::scheduler::collector::CORPUS_MAX_PROGRAM_BYTES;
use crate::scheduler::model;
use crate::scheduler::model::{ModelView, QueryModel};
use crate::scheduler::records;
use crate::scheduler::records::{
    copy_appearances, copy_programs, ProgramRecord, ProgramView,
};
use crate::scheduler::sketches::Fingerprint;
use crate::text::same_text;

verus! {

/// The format of batches on the wire. Another one is refused, never read.
pub const RELAY_FORMAT: u32 = 3;

/// How often a batch is sent again before it is given up.
pub const RETRY_BUDGET: u32 = 3;

/// How many publish intervals are gathered at most before a batch is sent.
pub const RELAY_FLUSH_EVERY: u32 = 5;

/// How many senders a receiver remembers.
pub const MAX_SOURCES: usize = 64;

/// What one instance gathered, as it is sent.
#[derive(Debug, PartialEq)]
pub struct ObservationBatch {
    pub format: u32,
    pub instance: String,
    pub boot: String,
    pub sequence: u64,
    pub sent_at_micros: u64,
    pub families: Vec<QueryModel>,
    pub frequency: Vec<(Fingerprint, u32)>,
    /// Captured programs; they hold values of users.
    pub corpus: Vec<ProgramRecord>,
}

/// The value of an [`ObservationBatch`].
#[verifier::ext_equal]
pub struct WireView {
    pub format: u32,
    pub instance: Seq<char>,
    pub boot: Seq<char>,
    pub sequence: u64,
    pub sent_at_micros: u64,
    pub families: Seq<ModelView>,
    pub frequency: Seq<(Fingerprint, u32)>,
    pub corpus: Seq<ProgramView>,
}

impl View for ObservationBatch {
    type V = WireView;

    open spec fn view(&self) -> WireView {
        WireView {
            format: self.format,
            instance: self.instance@,
            boot: self.boot@,
            sequence: self.sequence,
            sent_at_micros: self.sent_at_micros,
            families: model::model_views(self.families@),
            frequency: self.frequency@,
            corpus: records::program_views(self.corpus@),
        }
    }
}

impl ObservationBatch {
    /// How long before the batch was sent a family was last observed.
    pub fn age_of(&self, model: &QueryModel) -> (age: u64)
        ensures
            age == self@.sent_at_micros.saturating_sub(model@.last_seen),
    {
        self.sent_at_micros.saturating_sub(model.last_seen)
    }
}

/// Why a batch did not arrive.
#[derive(Clone, Copy, Debug, PartialEq, Eq, Structural)]
pub enum TransportError {
    /// The receiver did not answer.
    Unavailable,
    /// The receiver asks for less.
    Backpressured,
    /// The receiver refuses the batch; sending it again cannot help.
    Rejected,
}

impl TransportError {
    /// Whether sending again can help.
    pub open spec fn spec_retryable(self) -> bool {
        !(self is Rejected)
    }

    /// Whether sending again can help.
    pub fn retryable(self) -> (retryable: bool)
        ensures
            retryable == self.spec_retryable(),
    {
        !matches!(self, TransportError::Rejected)
    }
}

/// How sending has gone so far.
#[derive(Clone, Copy, Debug, PartialEq, Eq, Structural)]
pub struct RelayCounters {
    pub sent: u64,
    pub abandoned: u64,
    pub rejected: u64,
    pub attempts_pending: u32,
    pub holding: bool,
    pub corpus_sent: u64,
    pub corpus_withheld: u64,
}

impl Default for RelayCounters {
    fn default() -> (counters: RelayCounters)
        ensures
            counters == (RelayCounters {
                sent: 0,
                abandoned: 0,
                rejected: 0,
                attempts_pending: 0,
                holding: false,
                corpus_sent: 0,
                corpus_withheld: 0,
            }),
    {
        RelayCounters {
            sent: 0,
            abandoned: 0,
            rejected: 0,
            attempts_pending: 0,
            holding: false,
            corpus_sent: 0,
            corpus_withheld: 0,
        }
    }
}

/// What a relaying instance is doing, in one word.
#[derive(Clone, Copy, Debug, PartialEq, Eq, Structural)]
pub enum RelayHealth {
    /// The last attempt was accepted.
    Connected,
    /// A batch is held to be sent again.
    Retrying,
    /// A batch was given up: evidence is lost.
    Losing,
    /// Nothing was tried yet.
    Idle,
}

impl RelayHealth {
    /// The word for a health.
    pub open spec fn spec_str(self) -> Seq<char> {
        match self {
            RelayHealth::Connected => "connected"@,
            RelayHealth::Retrying => "retrying"@,
            RelayHealth::Losing => "losing"@,
            RelayHealth::Idle => "idle"@,
        }
    }

    /// The word for a health.
    pub fn as_str(self) -> (word: &'static str)
        ensures
            word@ == self.spec_str(),
    {
        match self {
            RelayHealth::Connected => "connected",
            RelayHealth::Retrying => "retrying",
            RelayHealth::Losing => "losing",
            RelayHealth::Idle => "idle",
        }
    }
}

impl RelayCounters {
    /// What the counters say. A batch in hand outranks one that was lost, and
    /// a lost one outranks every batch that was sent.
    pub fn health(self) -> (health: RelayHealth)
        ensures
            health == (if self.holding {
                RelayHealth::Retrying
            } else if self.abandoned > 0 || self.rejected > 0 {
                RelayHealth::Losing
            } else if self.sent > 0 {
                RelayHealth::Connected
            } else {
                RelayHealth::Idle
            }),
    {
        if self.holding {
            RelayHealth::Retrying
        } else if self.abandoned > 0 || self.rejected > 0 {
            RelayHealth::Losing
        } else if self.sent > 0 {
            RelayHealth::Connected
        } else {
            RelayHealth::Idle
        }
    }
}

// ---- sending ----

/// The sending end. It holds one batch at most that was not taken yet, and
/// sends it again unchanged before anything else. Counts stop at their maximum.
#[derive(Debug, PartialEq)]
pub struct RelaySink {
    pub instance: String,
    pub boot: String,
    pub sequence: u64,
    pub unacknowledged: Option<ObservationBatch>,
    pub attempts: u32,
    pub counted: RelayCounters,
}

/// The value of a [`RelaySink`].
#[verifier::ext_equal]
pub struct SinkView {
    pub instance: Seq<char>,
    pub boot: Seq<char>,
    pub sequence: u64,
    pub unacknowledged: Option<WireView>,
    pub attempts: u32,
    pub counted: RelayCounters,
}

pub open spec fn wire_option(batch: Option<ObservationBatch>) -> Option<WireView> {
    match batch {
        Some(batch) => Some(batch@),
        None => None,
    }
}

impl View for RelaySink {
    type V = SinkView;

    open spec fn view(&self) -> SinkView {
        SinkView {
            instance: self.instance@,
            boot: self.boot@,
            sequence: self.sequence,
            unacknowledged: wire_option(self.unacknowledged),
            attempts: self.attempts,
            counted: self.counted,
        }
    }
}

/// The deltas of a batch without their families.
pub open spec fn deltas(models: Seq<(Fingerprint, ModelView)>) -> Seq<ModelView> {
    Seq::new(models.len(), |i: int| models[i].1)
}

impl SinkView {
    /// Whether the sink keeps to its budget: a held batch was tried at least
    /// once and no more often than the budget allows.
    pub open spec fn wf(self) -> bool {
        &&& self.attempts <= RETRY_BUDGET
        &&& self.unacknowledged is Some <==> self.attempts > 0
    }

    /// What the counters say.
    pub open spec fn counters(self) -> RelayCounters {
        RelayCounters {
            attempts_pending: self.attempts,
            holding: self.unacknowledged is Some,
            ..self.counted
        }
    }

    /// After a batch was taken.
    pub open spec fn taken(self, wire: WireView) -> SinkView {
        SinkView {
            unacknowledged: None,
            attempts: 0,
            counted: RelayCounters {
                sent: self.counted.sent.saturating_add(1),
                corpus_sent: self.counted.corpus_sent.saturating_add(wire.corpus.len() as u64),
                ..self.counted
            },
            ..self
        }
    }

    /// After a batch was refused.
    pub open spec fn refused(self) -> SinkView {
        SinkView {
            unacknowledged: None,
            attempts: 0,
            counted: RelayCounters {
                rejected: self.counted.rejected.saturating_add(1),
                ..self.counted
            },
            ..self
        }
    }

    /// After the held batch was sent again. It stays where it may be sent once
    /// more, and is given up where the budget is spent.
    pub open spec fn held_settled(self, outcome: Result<(), TransportError>) -> SinkView {
        match (self.unacknowledged, outcome) {
            (None, _) => self,
            (Some(held), Ok(_)) => self.taken(held),
            (Some(held), Err(error)) => if !error.spec_retryable() {
                self.refused()
            } else if self.attempts + 1 > RETRY_BUDGET {
                SinkView {
                    unacknowledged: None,
                    attempts: 0,
                    counted: RelayCounters {
                        abandoned: self.counted.abandoned.saturating_add(1),
                        ..self.counted
                    },
                    ..self
                }
            } else {
                SinkView { attempts: (self.attempts + 1) as u32, ..self }
            },
        }
    }

    /// After a batch was made ready to be sent.
    pub open spec fn numbered(self, batch: BatchView, confidential: bool) -> SinkView {
        SinkView {
            sequence: self.sequence.saturating_add(1),
            counted: RelayCounters {
                corpus_withheld: if confidential {
                    self.counted.corpus_withheld
                } else {
                    self.counted.corpus_withheld.saturating_add(batch.programs.len() as u64)
                },
                ..self.counted
            },
            ..self
        }
    }

    /// A batch as it is sent. Captured programs only go over a confidential
    /// transport.
    pub open spec fn wire(self, batch: BatchView, confidential: bool, now: u64) -> WireView {
        WireView {
            format: RELAY_FORMAT,
            instance: self.instance,
            boot: self.boot,
            sequence: self.sequence.saturating_add(1),
            sent_at_micros: now,
            families: deltas(batch.models),
            frequency: batch.frequency,
            corpus: if confidential {
                batch.programs
            } else {
                Seq::empty()
            },
        }
    }

    /// After a new batch was sent.
    pub open spec fn sent_settled(
        self,
        wire: WireView,
        outcome: Result<(), TransportError>,
    ) -> SinkView {
        match outcome {
            Ok(_) => SinkView {
                unacknowledged: self.unacknowledged,
                attempts: self.attempts,
                ..self.taken(wire)
            },
            Err(error) => if error.spec_retryable() {
                SinkView { unacknowledged: Some(wire), attempts: 1, ..self }
            } else {
                SinkView {
                    unacknowledged: self.unacknowledged,
                    attempts: self.attempts,
                    ..self.refused()
                }
            },
        }
    }
}

/// What becomes of a batch that is to be published.
#[derive(Debug, PartialEq)]
pub enum Publication {
    /// An earlier batch is still held; this one goes back.
    Stuck(StatisticsBatch),
    /// There is nothing to send.
    Done,
    /// This is to be sent now.
    Submit(ObservationBatch),
}

impl RelaySink {
    /// A sink of an instance and a process.
    pub fn new(instance: String, boot: String) -> (sink: RelaySink)
        ensures
            sink@.wf(),
            sink@ == (SinkView {
                instance: instance@,
                boot: boot@,
                sequence: 0,
                unacknowledged: None,
                attempts: 0,
                counted: RelayCounters {
                    sent: 0,
                    abandoned: 0,
                    rejected: 0,
                    attempts_pending: 0,
                    holding: false,
                    corpus_sent: 0,
                    corpus_withheld: 0,
                },
            }),
    {
        RelaySink {
            instance,
            boot,
            sequence: 0,
            unacknowledged: None,
            attempts: 0,
            counted: RelayCounters::default(),
        }
    }

    /// How sending has gone so far.
    pub fn counters(&self) -> (counters: RelayCounters)
        ensures
            counters == self@.counters(),
    {
        let mut counters = self.counted;
        counters.attempts_pending = self.attempts;
        counters.holding = self.unacknowledged.is_some();
        counters
    }

    /// The batch to be sent again first.
    pub fn held(&self) -> (held: Option<&ObservationBatch>)
        ensures
            self@.unacknowledged == (match held {
                Some(held) => Some(held@),
                None => None,
            }),
    {
        match &self.unacknowledged {
            Some(held) => Some(held),
            None => None,
        }
    }

    /// Whether a batch is held.
    pub fn has_pending_publication(&self) -> (pending: bool)
        ensures
            pending == (self@.unacknowledged is Some),
    {
        self.unacknowledged.is_some()
    }

    /// How many publish intervals are gathered before a batch is sent.
    pub fn flush_every(&self, configured: u32) -> (intervals: u32)
        ensures
            intervals == (if configured <= RELAY_FLUSH_EVERY {
                configured
            } else {
                RELAY_FLUSH_EVERY
            }),
    {
        if configured <= RELAY_FLUSH_EVERY {
            configured
        } else {
            RELAY_FLUSH_EVERY
        }
    }

    /// Notes what came of sending the held batch again. Says whether something
    /// new can be sent.
    pub fn settle_held(&mut self, outcome: Result<(), TransportError>) -> (free: bool)
        requires
            old(self)@.wf(),
        ensures
            final(self)@.wf(),
            final(self)@ == old(self)@.held_settled(outcome),
            free == (final(self)@.unacknowledged is None),
    {
        let held = match self.unacknowledged.take() {
            Some(held) => held,
            None => {
                return true;
            },
        };
        match outcome {
            Ok(_) => {
                self.counted.sent = self.counted.sent.saturating_add(1);
                self.counted.corpus_sent = self.counted.corpus_sent.saturating_add(
                    held.corpus.len() as u64,
                );
                self.attempts = 0;
                true
            },
            Err(error) => if error.retryable() {
                self.attempts = self.attempts + 1;
                if self.attempts > RETRY_BUDGET {
                    self.counted.abandoned = self.counted.abandoned.saturating_add(1);
                    self.attempts = 0;
                    true
                } else {
                    self.unacknowledged = Some(held);
                    false
                }
            } else {
                self.counted.rejected = self.counted.rejected.saturating_add(1);
                self.attempts = 0;
                true
            },
        }
    }

    fn encode(&mut self, batch: &StatisticsBatch, confidential: bool, now: u64) -> (wire:
        ObservationBatch)
        ensures
            final(self)@ == old(self)@.numbered(batch@, confidential),
            wire@ == old(self)@.wire(batch@, confidential, now),
    {
        self.sequence = self.sequence.saturating_add(1);
        let corpus = if confidential {
            copy_programs(&batch.programs)
        } else {
            self.counted.corpus_withheld = self.counted.corpus_withheld.saturating_add(
                batch.programs.len() as u64,
            );
            Vec::new()
        };
        let ghost all = batch@.models;
        let mut families: Vec<QueryModel> = Vec::new();
        let mut i: usize = 0;
        while i < batch.models.len()
            invariant
                i <= batch.models.len(),
                all == batch::delta_views(batch.models@),
                families.len() == i,
                forall|k: int| 0 <= k < i ==> (#[trigger] families@[k])@ == all[k].1,
            decreases batch.models.len() - i,
        {
            families.push(batch.models[i].1.copy());
            i += 1;
        }
        let wire = ObservationBatch {
            format: RELAY_FORMAT,
            instance: self.instance.clone(),
            boot: self.boot.clone(),
            sequence: self.sequence,
            sent_at_micros: now,
            families,
            frequency: copy_appearances(&batch.frequency),
            corpus,
        };
        proof {
            assert(wire@.families =~= deltas(all));
            assert(wire@.corpus =~= old(self)@.wire(batch@, confidential, now).corpus);
        }
        wire
    }

    /// Publishes a batch, once the held one was sent again with an outcome.
    pub fn publish(
        &mut self,
        batch: StatisticsBatch,
        held_outcome: Result<(), TransportError>,
        confidential: bool,
        now: u64,
    ) -> (publication: Publication)
        requires
            old(self)@.wf(),
        ensures
            final(self)@.wf(),
            ({
                let settled = old(self)@.held_settled(held_outcome);
                match publication {
                    Publication::Stuck(returned) => returned == batch && settled.unacknowledged
                        is Some && final(self)@ == settled,
                    Publication::Done => settled.unacknowledged is None
                        && batch@.carries_no_evidence() && final(self)@ == settled,
                    Publication::Submit(wire) => settled.unacknowledged is None
                        && !batch@.carries_no_evidence() && wire@ == settled.wire(
                        batch@,
                        confidential,
                        now,
                    ) && final(self)@ == settled.numbered(batch@, confidential),
                }
            }),
    {
        if !self.settle_held(held_outcome) {
            return Publication::Stuck(batch);
        }
        if batch.carries_no_evidence() {
            return Publication::Done;
        }
        Publication::Submit(self.encode(&batch, confidential, now))
    }

    /// Notes what came of sending a new batch.
    pub fn settle_sent(&mut self, wire: ObservationBatch, outcome: Result<(), TransportError>)
        requires
            old(self)@.wf(),
            old(self)@.unacknowledged is None,
        ensures
            final(self)@.wf(),
            final(self)@ == old(self)@.sent_settled(wire@, outcome),
    {
        match outcome {
            Ok(_) => {
                self.counted.sent = self.counted.sent.saturating_add(1);
                self.counted.corpus_sent = self.counted.corpus_sent.saturating_add(
                    wire.corpus.len() as u64,
                );
            },
            Err(error) => if error.retryable() {
                self.unacknowledged = Some(wire);
                self.attempts = 1;
            } else {
                self.counted.rejected = self.counted.rejected.saturating_add(1);
            },
        }
    }
}

// ---- receiving ----

/// What a receiver did with a batch.
#[derive(Clone, Copy, Debug, PartialEq, Eq, Structural)]
pub enum IngestOutcome {
    /// It waits to be folded into the models.
    Accepted,
    /// It was taken before.
    AlreadyAdmitted,
    /// It is of another format.
    FormatMismatch,
    /// It carries programs, and this receiver takes none.
    CorpusDisabled,
    /// It carries a program that is too large.
    CorpusOversize,
    /// No room is left; it may be sent again later.
    Saturated,
}

/// How receiving has gone so far.
#[derive(Clone, Copy, Debug, PartialEq, Eq, Structural)]
pub struct IngestCounters {
    pub accepted: u64,
    pub already_admitted: u64,
    pub format_mismatch: u64,
    pub saturated: u64,
    pub corpus_oversize: u64,
    pub sources: usize,
}

impl Default for IngestCounters {
    fn default() -> (counters: IngestCounters)
        ensures
            counters == (IngestCounters {
                accepted: 0,
                already_admitted: 0,
                format_mismatch: 0,
                saturated: 0,
                corpus_oversize: 0,
                sources: 0,
            }),
    {
        IngestCounters {
            accepted: 0,
            already_admitted: 0,
            format_mismatch: 0,
            saturated: 0,
            corpus_oversize: 0,
            sources: 0,
        }
    }
}

/// A sender, with the last number that was taken from it and when it was.
#[derive(Debug, PartialEq)]
pub struct AdmittedSource {
    pub instance: String,
    pub boot: String,
    pub sequence: u64,
    pub ordinal: u64,
}

/// The value of an [`AdmittedSource`].
pub struct SourceView {
    pub instance: Seq<char>,
    pub boot: Seq<char>,
    pub sequence: u64,
    pub ordinal: u64,
}

impl View for AdmittedSource {
    type V = SourceView;

    open spec fn view(&self) -> SourceView {
        SourceView {
            instance: self.instance@,
            boot: self.boot@,
            sequence: self.sequence,
            ordinal: self.ordinal,
        }
    }
}

pub open spec fn source_views(sources: Seq<AdmittedSource>) -> Seq<SourceView> {
    Seq::new(sources.len(), |i: int| sources[i]@)
}

/// The receiving end: a bounded queue of batches, and the senders it
/// remembers. Counts stop at their maximum.
#[derive(Debug, PartialEq)]
pub struct RelayIngest {
    pub queue: Vec<ObservationBatch>,
    pub capacity: usize,
    pub accept_corpus: bool,
    pub admitted: Vec<AdmittedSource>,
    pub ordinal: u64,
    pub counted: IngestCounters,
}

/// The value of a [`RelayIngest`].
#[verifier::ext_equal]
pub struct IngestView {
    pub queue: Seq<WireView>,
    pub capacity: usize,
    pub accept_corpus: bool,
    pub admitted: Seq<SourceView>,
    pub ordinal: u64,
    pub counted: IngestCounters,
}

pub open spec fn wire_views(batches: Seq<ObservationBatch>) -> Seq<WireView> {
    Seq::new(batches.len(), |i: int| batches[i]@)
}

impl View for RelayIngest {
    type V = IngestView;

    open spec fn view(&self) -> IngestView {
        IngestView {
            queue: wire_views(self.queue@),
            capacity: self.capacity,
            accept_corpus: self.accept_corpus,
            admitted: source_views(self.admitted@),
            ordinal: self.ordinal,
            counted: self.counted,
        }
    }
}

/// Where a sender stands, from a place on; the end where it is not known.
pub open spec fn source_place(
    sources: Seq<SourceView>,
    instance: Seq<char>,
    boot: Seq<char>,
    from: nat,
) -> nat
    decreases sources.len() - from,
{
    if from < sources.len() && !(sources[from as int].instance == instance
        && sources[from as int].boot == boot) {
        source_place(sources, instance, boot, from + 1)
    } else {
        from
    }
}

/// The sender of the first that was heard least recently.
pub open spec fn stalest(sources: Seq<SourceView>, length: nat) -> nat
    decreases length,
{
    if length <= 1 {
        0
    } else {
        let known = stalest(sources, (length - 1) as nat);
        if sources[length - 1].ordinal < sources[known as int].ordinal {
            (length - 1) as nat
        } else {
            known
        }
    }
}

/// Whether a run of programs holds one that is too large.
pub open spec fn has_oversize(programs: Seq<ProgramView>) -> bool {
    exists|i: int|
        0 <= i < programs.len() && (#[trigger] programs[i]).canonical.len()
            > CORPUS_MAX_PROGRAM_BYTES
}

impl IngestView {
    /// What becomes of a batch.
    pub open spec fn outcome(self, batch: WireView) -> IngestOutcome {
        let place = source_place(self.admitted, batch.instance, batch.boot, 0) as int;
        if batch.format != RELAY_FORMAT {
            IngestOutcome::FormatMismatch
        } else if !self.accept_corpus && batch.corpus.len() > 0 {
            IngestOutcome::CorpusDisabled
        } else if has_oversize(batch.corpus) {
            IngestOutcome::CorpusOversize
        } else if place < self.admitted.len() && batch.sequence <= self.admitted[place].sequence {
            IngestOutcome::AlreadyAdmitted
        } else if self.queue.len() >= self.capacity {
            IngestOutcome::Saturated
        } else {
            IngestOutcome::Accepted
        }
    }

    /// The senders after a batch was taken. Where no room is left, the one that
    /// was heard least recently is forgotten.
    pub open spec fn remembered(self, batch: WireView) -> Seq<SourceView> {
        let place = source_place(self.admitted, batch.instance, batch.boot, 0) as int;
        let source = SourceView {
            instance: batch.instance,
            boot: batch.boot,
            sequence: batch.sequence,
            ordinal: self.ordinal,
        };
        if place < self.admitted.len() {
            self.admitted.update(place, source)
        } else if self.admitted.len() >= MAX_SOURCES {
            self.admitted.remove(stalest(self.admitted, self.admitted.len()) as int).push(source)
        } else {
            self.admitted.push(source)
        }
    }

    /// After a batch came in. Only a batch that is queued is remembered.
    pub open spec fn submitted(self, batch: WireView) -> IngestView {
        let counted = self.counted;
        match self.outcome(batch) {
            IngestOutcome::FormatMismatch => IngestView {
                counted: IngestCounters {
                    format_mismatch: counted.format_mismatch.saturating_add(1),
                    ..counted
                },
                ..self
            },
            IngestOutcome::CorpusDisabled => self,
            IngestOutcome::CorpusOversize => IngestView {
                counted: IngestCounters {
                    corpus_oversize: counted.corpus_oversize.saturating_add(1),
                    ..counted
                },
                ..self
            },
            IngestOutcome::AlreadyAdmitted => IngestView {
                counted: IngestCounters {
                    already_admitted: counted.already_admitted.saturating_add(1),
                    ..counted
                },
                ..self
            },
            IngestOutcome::Saturated => IngestView {
                counted: IngestCounters {
                    saturated: counted.saturated.saturating_add(1),
                    ..counted
                },
                ..self
            },
            IngestOutcome::Accepted => IngestView {
                queue: self.queue.push(batch),
                admitted: self.remembered(batch),
                ordinal: self.ordinal.saturating_add(1),
                counted: IngestCounters {
                    accepted: counted.accepted.saturating_add(1),
                    ..counted
                },
                ..self
            },
        }
    }
}

fn any_oversize(programs: &Vec<ProgramRecord>) -> (found: bool)
    ensures
        found == has_oversize(records::program_views(programs@)),
{
    let ghost all = records::program_views(programs@);
    let mut i: usize = 0;
    while i < programs.len()
        invariant
            i <= programs.len(),
            all == records::program_views(programs@),
            forall|k: int|
                0 <= k < i ==> (#[trigger] all[k]).canonical.len() <= CORPUS_MAX_PROGRAM_BYTES,
        decreases programs.len() - i,
    {
        assert(all[i as int] == programs@[i as int]@);
        if programs[i].canonical.len() > CORPUS_MAX_PROGRAM_BYTES {
            return true;
        }
        i += 1;
    }
    false
}

impl RelayIngest {
    /// A receiver that takes no programs.
    pub fn channel(capacity: usize) -> (ingest: RelayIngest)
        requires
            capacity > 0,
        ensures
            ingest@ == (IngestView {
                queue: Seq::empty(),
                capacity,
                accept_corpus: false,
                admitted: Seq::empty(),
                ordinal: 0,
                counted: IngestCounters {
                    accepted: 0,
                    already_admitted: 0,
                    format_mismatch: 0,
                    saturated: 0,
                    corpus_oversize: 0,
                    sources: 0,
                },
            }),
    {
        RelayIngest::channel_with_corpus(capacity, false)
    }

    /// A receiver.
    pub fn channel_with_corpus(capacity: usize, accept_corpus: bool) -> (ingest: RelayIngest)
        requires
            capacity > 0,
        ensures
            ingest@ == (IngestView {
                queue: Seq::empty(),
                capacity,
                accept_corpus,
                admitted: Seq::empty(),
                ordinal: 0,
                counted: IngestCounters {
                    accepted: 0,
                    already_admitted: 0,
                    format_mismatch: 0,
                    saturated: 0,
                    corpus_oversize: 0,
                    sources: 0,
                },
            }),
    {
        let ingest = RelayIngest {
            queue: Vec::new(),
            capacity,
            accept_corpus,
            admitted: Vec::new(),
            ordinal: 0,
            counted: IngestCounters::default(),
        };
        assert(ingest@.queue =~= Seq::empty());
        assert(ingest@.admitted =~= Seq::empty());
        ingest
    }

    fn find_source(&self, instance: &str, boot: &str) -> (place: usize)
        ensures
            place == source_place(self@.admitted, instance@, boot@, 0),
            place <= self.admitted.len(),
    {
        let ghost all = self@.admitted;
        let mut i: usize = 0;
        while i < self.admitted.len() && !(same_text(self.admitted[i].instance.as_str(), instance)
            && same_text(self.admitted[i].boot.as_str(), boot))
            invariant
                i <= self.admitted.len(),
                all == source_views(self.admitted@),
                source_place(all, instance@, boot@, 0) == source_place(
                    all,
                    instance@,
                    boot@,
                    i as nat,
                ),
            decreases self.admitted.len() - i,
        {
            assert(all[i as int] == self.admitted@[i as int]@);
            i += 1;
        }
        if i < self.admitted.len() {
            assert(all[i as int] == self.admitted@[i as int]@);
        }
        i
    }

    fn find_stalest(&self) -> (place: usize)
        requires
            self.admitted.len() > 0,
        ensures
            place == stalest(self@.admitted, self@.admitted.len()),
            place < self.admitted.len(),
    {
        let ghost all = self@.admitted;
        let mut place: usize = 0;
        let mut i: usize = 1;
        while i < self.admitted.len()
            invariant
                1 <= i <= self.admitted.len(),
                all == source_views(self.admitted@),
                place < i,
                place == stalest(all, i as nat),
            decreases self.admitted.len() - i,
        {
            assert(all[i as int] == self.admitted@[i as int]@);
            assert(all[place as int] == self.admitted@[place as int]@);
            if self.admitted[i].ordinal < self.admitted[place].ordinal {
                place = i;
            }
            i += 1;
        }
        place
    }

    /// Takes a batch, or says why not.
    pub fn submit(&mut self, batch: ObservationBatch) -> (outcome: IngestOutcome)
        ensures
            outcome == old(self)@.outcome(batch@),
            final(self)@ == old(self)@.submitted(batch@),
    {
        if batch.format != RELAY_FORMAT {
            self.counted.format_mismatch = self.counted.format_mismatch.saturating_add(1);
            return IngestOutcome::FormatMismatch;
        }
        if !self.accept_corpus && batch.corpus.len() > 0 {
            return IngestOutcome::CorpusDisabled;
        }
        if any_oversize(&batch.corpus) {
            self.counted.corpus_oversize = self.counted.corpus_oversize.saturating_add(1);
            return IngestOutcome::CorpusOversize;
        }
        let ghost before = self@;
        let ghost shown = batch@;
        let place: usize = self.find_source(batch.instance.as_str(), batch.boot.as_str());
        if place < self.admitted.len() {
            assert(before.admitted[place as int] == self.admitted@[place as int]@);
            if batch.sequence <= self.admitted[place].sequence {
                self.counted.already_admitted = self.counted.already_admitted.saturating_add(1);
                return IngestOutcome::AlreadyAdmitted;
            }
        }
        if self.queue.len() >= self.capacity {
            self.counted.saturated = self.counted.saturated.saturating_add(1);
            return IngestOutcome::Saturated;
        }
        let source = AdmittedSource {
            instance: batch.instance.clone(),
            boot: batch.boot.clone(),
            sequence: batch.sequence,
            ordinal: self.ordinal,
        };
        let ghost known = source@;
        self.ordinal = self.ordinal.saturating_add(1);
        if place < self.admitted.len() {
            self.admitted.set(place, source);
        } else {
            if self.admitted.len() >= MAX_SOURCES {
                let stale: usize = self.find_stalest();
                self.admitted.remove(stale);
            }
            self.admitted.push(source);
        }
        assert(self@.admitted =~= before.remembered(shown));
        self.queue.push(batch);
        assert(self@.queue =~= before.queue.push(shown));
        self.counted.accepted = self.counted.accepted.saturating_add(1);
        IngestOutcome::Accepted
    }

    /// Hands out the oldest batch.
    pub fn receive(&mut self) -> (batch: Option<ObservationBatch>)
        ensures
            match batch {
                Some(batch) => old(self)@.queue.len() > 0 && batch@ == old(self)@.queue[0]
                    && final(self)@ == (IngestView {
                    queue: old(self)@.queue.remove(0),
                    ..old(self)@
                }),
                None => old(self)@.queue.len() == 0 && final(self)@ == old(self)@,
            },
    {
        if self.queue.len() == 0 {
            None
        } else {
            let ghost before = self@.queue;
            let batch = self.queue.remove(0);
            assert(before[0] == batch@);
            assert(self@.queue =~= before.remove(0));
            Some(batch)
        }
    }

    /// How receiving has gone so far.
    pub fn counters(&self) -> (counters: IngestCounters)
        ensures
            counters == (IngestCounters {
                sources: self@.admitted.len() as usize,
                ..self@.counted
            }),
    {
        let mut counters = self.counted;
        counters.sources = self.admitted.len();
        counters
    }
}

// ---- what the relay promises ----

proof fn lemma_source_place(
    sources: Seq<SourceView>,
    instance: Seq<char>,
    boot: Seq<char>,
    from: nat,
)
    requires
        from <= sources.len(),
    ensures
        from <= source_place(sources, instance, boot, from) <= sources.len(),
        source_place(sources, instance, boot, from) < sources.len() ==> sources[source_place(
            sources,
            instance,
            boot,
            from,
        ) as int].instance == instance && sources[source_place(
            sources,
            instance,
            boot,
            from,
        ) as int].boot == boot,
        forall|i: int|
            from <= i < source_place(sources, instance, boot, from) ==> !((
            #[trigger] sources[i]).instance == instance && sources[i].boot == boot),
    decreases sources.len() - from,
{
    if from < sources.len() && !(sources[from as int].instance == instance
        && sources[from as int].boot == boot) {
        lemma_source_place(sources, instance, boot, from + 1);
    }
}

proof fn lemma_stalest(sources: Seq<SourceView>, length: nat)
    requires
        0 < length <= sources.len(),
    ensures
        stalest(sources, length) < length,
    decreases length,
{
    if length > 1 {
        lemma_stalest(sources, (length - 1) as nat);
    }
}

proof fn lemma_found_first(sources: Seq<SourceView>, instance: Seq<char>, boot: Seq<char>, at: int)
    requires
        0 <= at < sources.len(),
        sources[at].instance == instance,
        sources[at].boot == boot,
    ensures
        source_place(sources, instance, boot, 0) <= at,
{
    lemma_source_place(sources, instance, boot, 0);
}

/// A sender that was just heard is known under its last number.
proof fn lemma_remembered(ingest: IngestView, batch: WireView)
    ensures
        ({
            let sources = ingest.remembered(batch);
            let place = source_place(sources, batch.instance, batch.boot, 0) as int;
            place < sources.len() && sources[place].sequence == batch.sequence
        }),
{
    let sources = ingest.remembered(batch);
    let known = source_place(ingest.admitted, batch.instance, batch.boot, 0) as int;
    lemma_source_place(ingest.admitted, batch.instance, batch.boot, 0);
    lemma_source_place(sources, batch.instance, batch.boot, 0);
    let place = source_place(sources, batch.instance, batch.boot, 0) as int;
    if known < ingest.admitted.len() {
        lemma_found_first(sources, batch.instance, batch.boot, known);
        if place < known {
            assert(sources[place] == ingest.admitted[place]);
        }
    } else {
        let last = sources.len() - 1;
        lemma_found_first(sources, batch.instance, batch.boot, last);
        if place < last {
            if ingest.admitted.len() >= MAX_SOURCES {
                lemma_stalest(ingest.admitted, ingest.admitted.len());
                let gone = stalest(ingest.admitted, ingest.admitted.len()) as int;
                let origin = if place < gone {
                    place
                } else {
                    place + 1
                };
                assert(sources[place] == ingest.admitted[origin]);
            } else {
                assert(sources[place] == ingest.admitted[place]);
            }
        }
    }
}

/// Whether no sender is remembered twice.
pub open spec fn senders_distinct(sources: Seq<SourceView>) -> bool {
    forall|i: int, k: int|
        0 <= i < k < sources.len() ==> !((#[trigger] sources[i]).instance == (
        #[trigger] sources[k]).instance && sources[i].boot == sources[k].boot)
}

/// What can be done with a receiver: a batch comes in, or one is handed out.
pub enum IngestStep {
    Submitted(WireView),
    Received,
}

impl IngestView {
    /// Whether a sender is remembered.
    pub open spec fn knows(self, instance: Seq<char>, boot: Seq<char>) -> bool {
        source_place(self.admitted, instance, boot, 0) < self.admitted.len()
    }

    /// The last number that was taken from a remembered sender.
    pub open spec fn last_number(self, instance: Seq<char>, boot: Seq<char>) -> u64 {
        self.admitted[source_place(self.admitted, instance, boot, 0) as int].sequence
    }

    /// After a step.
    pub open spec fn stepped(self, step: IngestStep) -> IngestView {
        match step {
            IngestStep::Submitted(batch) => self.submitted(batch),
            IngestStep::Received => if self.queue.len() > 0 {
                IngestView { queue: self.queue.remove(0), ..self }
            } else {
                self
            },
        }
    }

    /// After steps.
    pub open spec fn all_stepped(self, steps: Seq<IngestStep>) -> IngestView
        decreases steps.len(),
    {
        if steps.len() == 0 {
            self
        } else {
            self.all_stepped(steps.drop_last()).stepped(steps.last())
        }
    }

    /// Whether a sender is remembered at first and after each of some steps.
    pub open spec fn keeps_knowing(
        self,
        steps: Seq<IngestStep>,
        instance: Seq<char>,
        boot: Seq<char>,
    ) -> bool
        decreases steps.len(),
    {
        self.all_stepped(steps).knows(instance, boot) && (steps.len() > 0 ==> self.keeps_knowing(
            steps.drop_last(),
            instance,
            boot,
        ))
    }
}

proof fn lemma_known_at(ingest: IngestView, instance: Seq<char>, boot: Seq<char>, at: int)
    requires
        senders_distinct(ingest.admitted),
        0 <= at < ingest.admitted.len(),
        ingest.admitted[at].instance == instance,
        ingest.admitted[at].boot == boot,
    ensures
        source_place(ingest.admitted, instance, boot, 0) == at,
{
    lemma_source_place(ingest.admitted, instance, boot, 0);
    lemma_found_first(ingest.admitted, instance, boot, at);
}

/// No sender is ever remembered twice.
pub proof fn senders_are_remembered_once(ingest: IngestView, batch: WireView)
    requires
        senders_distinct(ingest.admitted),
    ensures
        senders_distinct(ingest.submitted(batch).admitted),
{
    lemma_source_place(ingest.admitted, batch.instance, batch.boot, 0);
    if ingest.admitted.len() > 0 {
        lemma_stalest(ingest.admitted, ingest.admitted.len());
    }
    let before = ingest.admitted;
    let after = ingest.remembered(batch);
    let place = source_place(before, batch.instance, batch.boot, 0) as int;
    let gone = stalest(before, before.len()) as int;
    assert forall|i: int, k: int| 0 <= i < k < after.len() implies !((
    #[trigger] after[i]).instance == (#[trigger] after[k]).instance && after[i].boot
        == after[k].boot) by {
        if place < before.len() {
            if i != place && k != place {
                assert(after[i] == before[i] && after[k] == before[k]);
            } else {
                assert(before[i].instance == after[i].instance && before[i].boot == after[i].boot);
                assert(before[k].instance == after[k].instance && before[k].boot == after[k].boot);
            }
        } else {
            let from = |at: int|
                if before.len() >= MAX_SOURCES && at >= gone {
                    at + 1
                } else {
                    at
                };
            assert(after[i] == before[from(i)]);
            if k < after.len() - 1 {
                assert(after[k] == before[from(k)]);
            }
        }
    }
}

/// The number of a remembered sender never falls.
pub proof fn numbers_never_fall(
    ingest: IngestView,
    step: IngestStep,
    instance: Seq<char>,
    boot: Seq<char>,
)
    requires
        senders_distinct(ingest.admitted),
        ingest.knows(instance, boot),
        ingest.stepped(step).knows(instance, boot),
    ensures
        senders_distinct(ingest.stepped(step).admitted),
        ingest.last_number(instance, boot) <= ingest.stepped(step).last_number(instance, boot),
{
    if let IngestStep::Submitted(batch) = step {
        senders_are_remembered_once(ingest, batch);
        let before = ingest.admitted;
        let after = ingest.submitted(batch);
        lemma_source_place(before, instance, boot, 0);
        lemma_source_place(before, batch.instance, batch.boot, 0);
        lemma_source_place(after.admitted, instance, boot, 0);
        let place = source_place(before, instance, boot, 0) as int;
        if ingest.outcome(batch) == IngestOutcome::Accepted {
            if batch.instance == instance && batch.boot == boot {
                lemma_remembered(ingest, batch);
            } else if ingest.knows(batch.instance, batch.boot) {
                assert(after.admitted[place] == before[place]);
                lemma_known_at(after, instance, boot, place);
            } else if before.len() >= MAX_SOURCES {
                lemma_stalest(before, before.len());
                let gone = stalest(before, before.len()) as int;
                if place < gone {
                    assert(after.admitted[place] == before[place]);
                    lemma_known_at(after, instance, boot, place);
                } else if place > gone {
                    assert(after.admitted[place - 1] == before[place]);
                    lemma_known_at(after, instance, boot, place - 1);
                } else {
                    let found = source_place(after.admitted, instance, boot, 0) as int;
                    let origin = if found < gone {
                        found
                    } else {
                        found + 1
                    };
                    assert(found < after.admitted.len() - 1);
                    assert(after.admitted[found] == before[origin]);
                    assert(false);
                }
            } else {
                assert(after.admitted[place] == before[place]);
                lemma_known_at(after, instance, boot, place);
            }
        }
    }
}

proof fn lemma_numbers_hold(
    ingest: IngestView,
    steps: Seq<IngestStep>,
    instance: Seq<char>,
    boot: Seq<char>,
)
    requires
        senders_distinct(ingest.admitted),
        ingest.keeps_knowing(steps, instance, boot),
    ensures
        senders_distinct(ingest.all_stepped(steps).admitted),
        ingest.knows(instance, boot),
        ingest.last_number(instance, boot) <= ingest.all_stepped(steps).last_number(instance, boot),
    decreases steps.len(),
{
    if steps.len() > 0 {
        lemma_numbers_hold(ingest, steps.drop_last(), instance, boot);
        numbers_never_fall(ingest.all_stepped(steps.drop_last()), steps.last(), instance, boot);
    }
}

/// Sending again is free: once a batch was taken, no batch of its sender with a
/// number that is no larger is taken, now or later, while the sender is
/// remembered. Nothing but a count changes, and a batch that is in order otherwise
/// is recognised as one that was taken.
pub proof fn batches_are_taken_once(
    ingest: IngestView,
    batch: WireView,
    steps: Seq<IngestStep>,
    again: WireView,
)
    requires
        senders_distinct(ingest.admitted),
        ingest.outcome(batch) == IngestOutcome::Accepted,
        again.instance == batch.instance,
        again.boot == batch.boot,
        again.sequence <= batch.sequence,
        ingest.submitted(batch).keeps_knowing(steps, batch.instance, batch.boot),
    ensures
        ({
            let later = ingest.submitted(batch).all_stepped(steps);
            &&& later.outcome(again) != IngestOutcome::Accepted
            &&& later.submitted(again).queue == later.queue
            &&& later.submitted(again).admitted == later.admitted
            &&& later.submitted(again).ordinal == later.ordinal
            &&& again.format == RELAY_FORMAT && (later.accept_corpus || again.corpus.len() == 0)
                && !has_oversize(again.corpus) ==> later.outcome(again)
                == IngestOutcome::AlreadyAdmitted
        }),
{
    lemma_remembered(ingest, batch);
    senders_are_remembered_once(ingest, batch);
    lemma_numbers_hold(ingest.submitted(batch), steps, batch.instance, batch.boot);
}

proof fn lemma_stalest_first(sources: Seq<SourceView>, length: nat)
    requires
        0 < length <= sources.len(),
    ensures
        stalest(sources, length) < length,
        forall|i: int|
            0 <= i < length ==> sources[stalest(sources, length) as int].ordinal <= (
            #[trigger] sources[i]).ordinal,
    decreases length,
{
    if length > 1 {
        lemma_stalest_first(sources, (length - 1) as nat);
    }
}

/// A sender that is heard was heard more recently than every other, as far as times
/// can be counted.
pub proof fn heard_senders_are_the_newest(ingest: IngestView, batch: WireView)
    requires
        forall|i: int|
            0 <= i < ingest.admitted.len() ==> (#[trigger] ingest.admitted[i]).ordinal
                < ingest.ordinal,
        ingest.ordinal < u64::MAX,
    ensures
        forall|i: int|
            0 <= i < ingest.submitted(batch).admitted.len() ==> (
            #[trigger] ingest.submitted(batch).admitted[i]).ordinal < ingest.submitted(
                batch,
            ).ordinal,
        ingest.outcome(batch) == IngestOutcome::Accepted ==> ({
            let heard = ingest.submitted(batch);
            let place = source_place(heard.admitted, batch.instance, batch.boot, 0) as int;
            &&& place < heard.admitted.len()
            &&& forall|i: int|
                0 <= i < heard.admitted.len() ==> (#[trigger] heard.admitted[i]).ordinal
                    <= heard.admitted[place].ordinal
        }),
{
    let before = ingest.admitted;
    let after = ingest.remembered(batch);
    let known = source_place(before, batch.instance, batch.boot, 0) as int;
    lemma_source_place(before, batch.instance, batch.boot, 0);
    lemma_source_place(after, batch.instance, batch.boot, 0);
    if before.len() > 0 {
        lemma_stalest(before, before.len());
    }
    let gone = stalest(before, before.len()) as int;
    let full = before.len() >= MAX_SOURCES;
    let newest = if known < before.len() {
        known
    } else {
        after.len() - 1
    };
    assert forall|i: int| 0 <= i < after.len() && i != newest implies (
    #[trigger] after[i]).ordinal < ingest.ordinal by {
        if known < before.len() || !full || i < gone {
            assert(after[i] == before[i]);
        } else {
            assert(after[i] == before[i + 1]);
        }
    }
    lemma_found_first(after, batch.instance, batch.boot, newest);
    let place = source_place(after, batch.instance, batch.boot, 0) as int;
    if place < newest {
        if known < before.len() || !full || place < gone {
            assert(after[place] == before[place]);
        } else {
            assert(after[place] == before[place + 1]);
        }
        assert(false);
    }
}

/// Where no room is left for a new sender, the one that was heard least recently is
/// forgotten, and no other.
pub proof fn the_stalest_sender_is_forgotten(ingest: IngestView, batch: WireView)
    requires
        ingest.outcome(batch) == IngestOutcome::Accepted,
        !ingest.knows(batch.instance, batch.boot),
        ingest.admitted.len() == MAX_SOURCES,
    ensures
        ({
            let gone = stalest(ingest.admitted, ingest.admitted.len()) as int;
            &&& gone < ingest.admitted.len()
            &&& forall|i: int|
                0 <= i < ingest.admitted.len() ==> ingest.admitted[gone].ordinal <= (
                #[trigger] ingest.admitted[i]).ordinal
            &&& ingest.submitted(batch).admitted.drop_last() == ingest.admitted.remove(gone)
            &&& ingest.submitted(batch).admitted.last().instance == batch.instance
            &&& ingest.submitted(batch).admitted.last().boot == batch.boot
        }),
{
    lemma_source_place(ingest.admitted, batch.instance, batch.boot, 0);
    lemma_stalest_first(ingest.admitted, ingest.admitted.len());
    let gone = stalest(ingest.admitted, ingest.admitted.len()) as int;
    assert(ingest.submitted(batch).admitted.drop_last() =~= ingest.admitted.remove(gone));
}

/// A batch for which no room is left leaves no trace: it is as welcome
/// afterwards as before.
pub proof fn refusals_leave_no_trace(ingest: IngestView, batch: WireView)
    requires
        ingest.outcome(batch) != IngestOutcome::Accepted,
    ensures
        ingest.submitted(batch).queue == ingest.queue,
        ingest.submitted(batch).admitted == ingest.admitted,
        ingest.submitted(batch).ordinal == ingest.ordinal,
        ingest.outcome(batch) == IngestOutcome::Saturated && ingest.capacity > 0
            ==> (IngestView { queue: Seq::empty(), ..ingest.submitted(batch) }).outcome(batch)
            == IngestOutcome::Accepted,
{
}

/// A receiver remembers a bounded number of senders.
pub proof fn sources_stay_bounded(ingest: IngestView, batch: WireView)
    requires
        ingest.admitted.len() <= MAX_SOURCES,
    ensures
        ingest.submitted(batch).admitted.len() <= MAX_SOURCES,
{
    if ingest.admitted.len() > 0 {
        lemma_stalest(ingest.admitted, ingest.admitted.len());
    }
    lemma_source_place(ingest.admitted, batch.instance, batch.boot, 0);
}

/// Values of users never go over a transport that is not confidential, and
/// every program that is held back is counted. The rest of the evidence goes.
pub proof fn plain_transports_carry_no_programs(sink: SinkView, batch: BatchView, now: u64)
    ensures
        sink.wire(batch, false, now).corpus.len() == 0,
        sink.wire(batch, false, now).families == deltas(batch.models),
        sink.wire(batch, false, now).frequency == batch.frequency,
        sink.numbered(batch, false).counted.corpus_withheld
            == sink.counted.corpus_withheld.saturating_add(batch.programs.len() as u64),
{
}

/// A held batch is sent again unchanged: while it is held, it keeps its number
/// and its contents.
pub proof fn held_batches_stay_unchanged(sink: SinkView, outcome: Result<(), TransportError>)
    requires
        sink.wf(),
    ensures
        sink.held_settled(outcome).wf(),
        sink.held_settled(outcome).unacknowledged is Some
            ==> sink.held_settled(outcome).unacknowledged == sink.unacknowledged,
        sink.held_settled(outcome).sequence == sink.sequence,
{
}

/// Every batch that is no longer held is accounted for: it was taken, refused
/// or given up, and counted as one of these.
pub proof fn held_batches_are_accounted_for(sink: SinkView, outcome: Result<(), TransportError>)
    requires
        sink.wf(),
        sink.unacknowledged is Some,
        sink.counted.sent < u64::MAX,
        sink.counted.rejected < u64::MAX,
        sink.counted.abandoned < u64::MAX,
    ensures
        ({
            let after = sink.held_settled(outcome);
            let settled = if after.unacknowledged is None {
                1int
            } else {
                0int
            };
            after.counted.sent + after.counted.rejected + after.counted.abandoned
                == sink.counted.sent + sink.counted.rejected + sink.counted.abandoned + settled
        }),
{
}

/// After a number of failures a sink is free again.
pub open spec fn failed(sink: SinkView, times: nat) -> SinkView
    decreases times,
{
    if times == 0 {
        sink
    } else {
        failed(sink, (times - 1) as nat).held_settled(Err(TransportError::Unavailable))
    }
}

/// No batch is sent again for ever: a receiver that is never reached costs a
/// bounded number of attempts, after which the batch is given up.
pub proof fn retries_are_bounded(sink: SinkView)
    requires
        sink.wf(),
    ensures
        failed(sink, RETRY_BUDGET as nat).unacknowledged is None,
{
    reveal_with_fuel(failed, 4);
}

/// New batches have new numbers, so no batch is mistaken for an earlier one.
pub proof fn numbers_are_fresh(sink: SinkView, batch: BatchView, confidential: bool, now: u64)
    requires
        sink.sequence < u64::MAX,
    ensures
        sink.wire(batch, confidential, now).sequence > sink.sequence,
        sink.numbered(batch, confidential).sequence == sink.wire(batch, confidential, now).sequence,
{
}

} // verus!
