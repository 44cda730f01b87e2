//! Publication: what leaves the registry in one batch, and how a batch that
//! could not be published comes back.

use vstd::prelude::*;

use crate::scheduler::model;
use crate::scheduler::model::{ModelId, ModelView, QueryModel};
use crate::scheduler::records;
use crate::scheduler::records::{
    add_counts, copy_counts, copy_synopses, decay_frequency, enter_synopsis, find_count,
    find_synopsis, get_count, ProgramRecord, ProgramView, SynopsisModel, SynopsisView,
};
use crate::scheduler::registry;
use crate::scheduler::registry::{find_model, HotRegistry, RegistryView, MAX_PENDING_PROGRAMS};
use crate::scheduler::sketches::Fingerprint;

verus! {

broadcast use records::group_counts_distinct;

/// How statistics are gathered. Times are in microseconds, intervals in
/// publish intervals.
#[derive(Clone, Copy, Debug, PartialEq, Eq, Structural)]
pub struct StatisticsConfig {
    pub channel_capacity: usize,
    pub registry_capacity: usize,
    pub publish_interval: u64,
    pub decay_every: u32,
    pub flush_every: u32,
    pub survey_every: u32,
    pub survey_change_threshold: u64,
    pub survey_max_age: u64,
    pub survey_row_budget: u64,
    pub survey_byte_budget: u64,
    pub survey_time_budget: u64,
    pub refresh_every: u32,
    pub capture_programs: bool,
}

pub const DEFAULT_CHANNEL_CAPACITY: usize = 4096;

pub const DEFAULT_REGISTRY_CAPACITY: usize = 4096;

impl Default for StatisticsConfig {
    fn default() -> (config: StatisticsConfig)
        ensures
            config == (StatisticsConfig {
                channel_capacity: DEFAULT_CHANNEL_CAPACITY,
                registry_capacity: DEFAULT_REGISTRY_CAPACITY,
                publish_interval: 1_000_000,
                decay_every: 600,
                flush_every: 60,
                survey_every: 30,
                survey_change_threshold: 10_000,
                survey_max_age: 86_400_000_000,
                survey_row_budget: 50_000,
                survey_byte_budget: 67_108_864,
                survey_time_budget: 30_000_000,
                refresh_every: 60,
                capture_programs: false,
            }),
    {
        StatisticsConfig {
            channel_capacity: DEFAULT_CHANNEL_CAPACITY,
            registry_capacity: DEFAULT_REGISTRY_CAPACITY,
            publish_interval: 1_000_000,
            decay_every: 600,
            flush_every: 60,
            survey_every: 30,
            survey_change_threshold: 10_000,
            survey_max_age: 86_400_000_000,
            survey_row_budget: 50_000,
            survey_byte_budget: 67_108_864,
            survey_time_budget: 30_000_000,
            refresh_every: 60,
            capture_programs: false,
        }
    }
}

/// One publication worth of statistics.
#[derive(Debug, PartialEq)]
pub struct StatisticsBatch {
    pub table_changes: Vec<(u64, u64)>,
    pub models: Vec<(Fingerprint, QueryModel)>,
    pub frequency: Vec<(Fingerprint, u32)>,
    /// The epoch that the appearances were counted in.
    pub frequency_epoch: u64,
    /// How many epochs the stored appearances have to age.
    pub frequency_decays: u64,
    pub synopses: Vec<SynopsisModel>,
    pub programs: Vec<ProgramRecord>,
}

/// The value of a [`StatisticsBatch`].
#[verifier::ext_equal]
pub struct BatchView {
    pub table_changes: Seq<(u64, u64)>,
    pub models: Seq<(Fingerprint, ModelView)>,
    pub frequency: Seq<(Fingerprint, u32)>,
    pub frequency_epoch: u64,
    pub frequency_decays: u64,
    pub synopses: Seq<SynopsisView>,
    pub programs: Seq<ProgramView>,
}

pub open spec fn delta_views(models: Seq<(Fingerprint, QueryModel)>) -> Seq<
    (Fingerprint, ModelView),
> {
    Seq::new(models.len(), |i: int| (models[i].0, models[i].1@))
}

impl View for StatisticsBatch {
    type V = BatchView;

    open spec fn view(&self) -> BatchView {
        BatchView {
            table_changes: self.table_changes@,
            models: delta_views(self.models@),
            frequency: self.frequency@,
            frequency_epoch: self.frequency_epoch,
            frequency_decays: self.frequency_decays,
            synopses: records::synopsis_views(self.synopses@),
            programs: records::program_views(self.programs@),
        }
    }
}

impl BatchView {
    /// A batch of nothing.
    pub open spec fn empty() -> BatchView {
        BatchView {
            table_changes: Seq::empty(),
            models: Seq::empty(),
            frequency: Seq::empty(),
            frequency_epoch: 0,
            frequency_decays: 0,
            synopses: Seq::empty(),
            programs: Seq::empty(),
        }
    }

    /// Whether each delta stands under its own family.
    pub open spec fn wf(self) -> bool {
        forall|i: int|
            0 <= i < self.models.len() ==> (#[trigger] self.models[i]).0 == self.models[i].1.family
    }

    /// Whether there is nothing to store.
    pub open spec fn is_empty(self) -> bool {
        &&& self.table_changes.len() == 0
        &&& self.models.len() == 0
        &&& self.frequency.len() == 0
        &&& self.frequency_decays == 0
        &&& self.synopses.len() == 0
        &&& self.programs.len() == 0
    }

    /// Whether there is nothing to send to another instance.
    pub open spec fn carries_no_evidence(self) -> bool {
        self.models.len() == 0 && self.frequency.len() == 0 && self.programs.len() == 0
    }
}

impl Default for StatisticsBatch {
    fn default() -> (batch: StatisticsBatch)
        ensures
            batch@ == BatchView::empty(),
    {
        let batch = StatisticsBatch {
            table_changes: Vec::new(),
            models: Vec::new(),
            frequency: Vec::new(),
            frequency_epoch: 0,
            frequency_decays: 0,
            synopses: Vec::new(),
            programs: Vec::new(),
        };
        assert(batch@ =~= BatchView::empty());
        batch
    }
}

impl StatisticsBatch {
    /// Whether there is nothing to store.
    pub fn is_empty(&self) -> (empty: bool)
        ensures
            empty == self@.is_empty(),
    {
        self.table_changes.len() == 0 && self.models.len() == 0 && self.frequency.len() == 0
            && self.frequency_decays == 0 && self.synopses.len() == 0 && self.programs.len() == 0
    }

    /// Whether there is nothing to send to another instance. What is stored is
    /// more than what is sent.
    pub fn carries_no_evidence(&self) -> (empty: bool)
        ensures
            empty == self@.carries_no_evidence(),
    {
        self.models.len() == 0 && self.frequency.len() == 0 && self.programs.len() == 0
    }
}

/// What is asked of a survey.
#[derive(Debug, PartialEq)]
pub struct SurveyRequest {
    pub changed: Vec<(u64, u64)>,
    pub known: Vec<(u64, u64)>,
    pub change_threshold: u64,
    pub max_age_micros: u64,
    pub now_micros: u64,
    pub row_budget: u64,
    pub byte_budget: u64,
}

/// The value of a [`SurveyRequest`].
#[verifier::ext_equal]
pub struct SurveyView {
    pub changed: Seq<(u64, u64)>,
    pub known: Seq<(u64, u64)>,
    pub change_threshold: u64,
    pub max_age_micros: u64,
    pub now_micros: u64,
    pub row_budget: u64,
    pub byte_budget: u64,
}

impl View for SurveyRequest {
    type V = SurveyView;

    open spec fn view(&self) -> SurveyView {
        SurveyView {
            changed: self.changed@,
            known: self.known@,
            change_threshold: self.change_threshold,
            max_age_micros: self.max_age_micros,
            now_micros: self.now_micros,
            row_budget: self.row_budget,
            byte_budget: self.byte_budget,
        }
    }
}

/// When each table was surveyed last.
pub open spec fn surveyed(synopses: Seq<SynopsisView>) -> Seq<(u64, u64)> {
    Seq::new(
        synopses.len(),
        |i: int| (synopses[i].table, synopses[i].collected_at_unix_micros),
    )
}

/// A synopsis with the changes that were seen before it was loaded.
pub open spec fn caught_up(synopsis: SynopsisView, changes: Seq<(u64, u64)>) -> SynopsisView {
    SynopsisView {
        changes_since_collection: synopsis.changes_since_collection.saturating_add(
            match records::count_of(changes, synopsis.table) {
                Some(count) => count,
                None => 0,
            },
        ),
        ..synopsis
    }
}

/// Synopses with the changes that were seen before they were loaded.
pub open spec fn all_caught_up(synopses: Seq<SynopsisView>, changes: Seq<(u64, u64)>) -> Seq<
    SynopsisView,
> {
    Seq::new(synopses.len(), |i: int| caught_up(synopses[i], changes))
}

/// A delta as it is published: with the moving mean of the whole model.
pub open spec fn published_delta(models: Seq<ModelView>, delta: ModelView) -> ModelView {
    let place = registry::model_place(models, delta.id(), 0) as int;
    if place < models.len() {
        ModelView { duration_ewma_bits: models[place].duration_ewma_bits, ..delta }
    } else {
        delta
    }
}

impl RegistryView {
    /// What is published of a registry.
    pub open spec fn batch(self) -> BatchView {
        BatchView {
            table_changes: self.table_change_deltas,
            models: Seq::new(
                self.pending.len(),
                |i: int| (self.pending[i].family, published_delta(self.models, self.pending[i])),
            ),
            frequency: self.pending_frequency,
            frequency_epoch: self.frequency_epoch,
            frequency_decays: self.pending_frequency_decays,
            synopses: if self.synopses_dirty {
                self.synopses
            } else {
                Seq::empty()
            },
            programs: self.pending_programs,
        }
    }

    /// A registry of which everything that waited was published.
    pub open spec fn drained(self) -> RegistryView {
        RegistryView {
            table_change_deltas: Seq::empty(),
            pending: Seq::empty(),
            pending_frequency: Seq::empty(),
            pending_frequency_decays: 0,
            pending_programs: Seq::empty(),
            ..self
        }
    }

    /// Whether every synopsis of a batch is still the current one.
    pub open spec fn still_current(self, synopses: Seq<SynopsisView>) -> bool {
        forall|i: int|
            0 <= i < synopses.len() ==> {
                let place = records::synopsis_place(
                    self.synopses,
                    (#[trigger] synopses[i]).table,
                    0,
                ) as int;
                place < self.synopses.len() && self.synopses[place] == synopses[i]
            }
    }

    /// After a batch was published.
    pub open spec fn published(self, batch: BatchView) -> RegistryView {
        if batch.synopses.len() > 0 && self.still_current(batch.synopses) {
            RegistryView { synopses_dirty: false, ..self }
        } else {
            self
        }
    }

    /// After appearances came back, aged by the epochs since.
    pub open spec fn frequency_returned(
        self,
        counts: Seq<(Fingerprint, u32)>,
        age: u64,
    ) -> RegistryView
        decreases counts.len(),
    {
        if counts.len() == 0 {
            self
        } else {
            let before = self.frequency_returned(counts.drop_last(), age);
            let count = records::halved_count(counts.last().1 as nat, age as nat);
            if count == 0 {
                before
            } else {
                before.frequency_added(counts.last().0, count as u32)
            }
        }
    }

    /// After a delta came back. It is the earlier of the two where the family
    /// was observed since.
    pub open spec fn delta_returned(self, family: Fingerprint, delta: ModelView) -> RegistryView {
        let id = ModelId { kind: delta.kind, family };
        let place = registry::model_place(self.pending, id, 0) as int;
        if place < self.pending.len() {
            RegistryView {
                pending: self.pending.update(place, delta.merged(self.pending[place])),
                ..self
            }
        } else if self.pending.len() < self.capacity {
            RegistryView { pending: self.pending.push(delta), ..self }
        } else {
            RegistryView { shed: self.shed.saturating_add(1), ..self }
        }
    }

    /// After deltas came back.
    pub open spec fn deltas_returned(self, deltas: Seq<(Fingerprint, ModelView)>) -> RegistryView
        decreases deltas.len(),
    {
        if deltas.len() == 0 {
            self
        } else {
            self.deltas_returned(deltas.drop_last()).delta_returned(
                deltas.last().0,
                deltas.last().1,
            )
        }
    }

    /// After programs came back, in front of those captured since. Where no
    /// room is left, the oldest is dropped.
    pub open spec fn programs_returned(self, programs: Seq<ProgramView>) -> RegistryView
        decreases programs.len(),
    {
        if programs.len() == 0 {
            self
        } else {
            let next = if self.pending_programs.len() >= MAX_PENDING_PROGRAMS {
                RegistryView { corpus_shed: self.corpus_shed.saturating_add(1), ..self }
            } else {
                RegistryView {
                    pending_programs: seq![programs.last()] + self.pending_programs,
                    ..self
                }
            };
            next.programs_returned(programs.drop_last())
        }
    }

    /// After a batch that could not be published came back.
    pub open spec fn returned(self, batch: BatchView) -> RegistryView {
        let changed = RegistryView {
            table_change_deltas: records::all_counted(
                self.table_change_deltas,
                batch.table_changes,
            ),
            ..self
        };
        let aged = changed.frequency_returned(
            batch.frequency,
            self.frequency_epoch.saturating_sub(batch.frequency_epoch),
        );
        let decayed = RegistryView {
            pending_frequency_decays: aged.pending_frequency_decays.saturating_add(
                batch.frequency_decays,
            ),
            ..aged
        };
        let all = decayed.deltas_returned(batch.models).programs_returned(batch.programs);
        if batch.synopses.len() > 0 {
            RegistryView { synopses_dirty: true, ..all }
        } else {
            all
        }
    }

    /// After a survey of a table that covers a number of changes.
    pub open spec fn synopsis_set(self, synopsis: SynopsisView, covered: u64) -> RegistryView {
        match records::count_of(self.survey_changes, synopsis.table) {
            Some(changes) => {
                let left = changes.saturating_sub(covered);
                RegistryView {
                    survey_changes: if left == 0 {
                        records::uncounted(self.survey_changes, synopsis.table)
                    } else {
                        records::count_set(self.survey_changes, synopsis.table, left)
                    },
                    synopses: records::synopsis_entered(
                        self.synopses,
                        SynopsisView { changes_since_collection: left, ..synopsis },
                    ),
                    synopses_dirty: true,
                    ..self
                }
            },
            None => RegistryView {
                synopses: records::synopsis_entered(self.synopses, synopsis),
                synopses_dirty: true,
                ..self
            },
        }
    }

    /// What is asked of the next survey.
    pub open spec fn survey(self, config: StatisticsConfig, now: u64) -> SurveyView {
        SurveyView {
            changed: self.survey_changes,
            known: surveyed(self.synopses),
            change_threshold: config.survey_change_threshold,
            max_age_micros: config.survey_max_age,
            now_micros: now,
            row_budget: config.survey_row_budget,
            byte_budget: config.survey_byte_budget,
        }
    }
}

impl HotRegistry {
    /// Replaces all synopses.
    pub fn set_synopses(&mut self, models: Vec<SynopsisModel>)
        requires
            old(self)@.wf(),
        ensures
            final(self)@.wf(),
            final(self)@ == (RegistryView {
                synopses: records::synopses_by_table(records::synopsis_views(models@)),
                synopses_dirty: true,
                ..old(self)@
            }),
    {
        self.synopses = records::by_table(models);
        self.synopses_dirty = true;
    }

    /// Adopts stored synopses, with the changes that were seen before.
    pub fn hydrate_synopses(&mut self, models: Vec<SynopsisModel>)
        requires
            old(self)@.wf(),
        ensures
            final(self)@.wf(),
            final(self)@ == (RegistryView {
                synopses: records::synopses_by_table(
                    all_caught_up(
                        records::synopsis_views(models@),
                        old(self)@.survey_changes,
                    ),
                ),
                synopses_dirty: old(self)@.survey_changes.len() > 0,
                ..old(self)@
            }),
    {
        let ghost given = records::synopsis_views(models@);
        let mut loaded: Vec<SynopsisModel> = Vec::new();
        let mut i: usize = 0;
        while i < models.len()
            invariant
                i <= models.len(),
                given == records::synopsis_views(models@),
                self@ == old(self)@,
                loaded.len() == i,
                forall|k: int|
                    0 <= k < i ==> (#[trigger] loaded@[k])@ == caught_up(
                        given[k],
                        self@.survey_changes,
                    ),
            decreases models.len() - i,
        {
            let mut synopsis = models[i].copy();
            assert(given[i as int] == models@[i as int]@);
            let seen: u64 = match get_count(&self.survey_changes, synopsis.table) {
                Some(count) => count,
                None => 0,
            };
            synopsis.changes_since_collection = synopsis.changes_since_collection.saturating_add(
                seen,
            );
            loaded.push(synopsis);
            i += 1;
        }
        assert(records::synopsis_views(loaded@) =~= all_caught_up(given, self@.survey_changes));
        self.synopses = records::by_table(loaded);
        self.synopses_dirty = self.survey_changes.len() > 0;
    }

    /// Enters the synopsis of a table; the survey covers a number of changes.
    pub fn set_synopsis(&mut self, model: SynopsisModel, covered_changes: u64)
        requires
            old(self)@.wf(),
        ensures
            final(self)@.wf(),
            final(self)@ == old(self)@.synopsis_set(model@, covered_changes),
    {
        let mut synopsis = model;
        let place: usize = find_count(&self.survey_changes, synopsis.table);
        if place < self.survey_changes.len() {
            let left: u64 = self.survey_changes[place].1.saturating_sub(covered_changes);
            synopsis.changes_since_collection = left;
            if left == 0 {
                self.survey_changes.remove(place);
            } else {
                self.survey_changes.set(place, (synopsis.table, left));
            }
        }
        enter_synopsis(&mut self.synopses, synopsis);
        self.synopses_dirty = true;
    }

    /// What is asked of the next survey.
    pub fn survey_request(&self, config: &StatisticsConfig, now: u64) -> (request: SurveyRequest)
        ensures
            request@ == self@.survey(*config, now),
    {
        let ghost all = self@.synopses;
        let mut known: Vec<(u64, u64)> = Vec::new();
        let mut i: usize = 0;
        while i < self.synopses.len()
            invariant
                i <= self.synopses.len(),
                all == records::synopsis_views(self.synopses@),
                known.len() == i,
                forall|k: int|
                    0 <= k < i ==> #[trigger] known@[k] == (
                        all[k].table,
                        all[k].collected_at_unix_micros,
                    ),
            decreases self.synopses.len() - i,
        {
            assert(all[i as int] == self.synopses@[i as int]@);
            known.push((self.synopses[i].table, self.synopses[i].collected_at_unix_micros));
            i += 1;
        }
        assert(known@ =~= surveyed(all));
        SurveyRequest {
            changed: copy_counts(&self.survey_changes),
            known,
            change_threshold: config.survey_change_threshold,
            max_age_micros: config.survey_max_age,
            now_micros: now,
            row_budget: config.survey_row_budget,
            byte_budget: config.survey_byte_budget,
        }
    }

    /// Takes everything that waits for publication. The models stay.
    pub fn take_batch(&mut self) -> (batch: StatisticsBatch)
        requires
            old(self)@.wf(),
        ensures
            final(self)@.wf(),
            batch@ == old(self)@.batch(),
            batch@.wf(),
            final(self)@ == old(self)@.drained(),
    {
        let ghost before = self@;
        let mut pending: Vec<QueryModel> = Vec::new();
        std::mem::swap(&mut self.pending, &mut pending);
        let ghost deltas = model::model_views(pending@);
        assert(deltas == before.pending);
        let mut models: Vec<(Fingerprint, QueryModel)> = Vec::new();
        let mut i: usize = 0;
        while i < pending.len()
            invariant
                i <= pending.len(),
                deltas == model::model_views(pending@),
                before.models == model::model_views(self.models@),
                models.len() == i,
                forall|k: int|
                    0 <= k < i ==> (#[trigger] models@[k]).0 == deltas[k].family && models@[k].1@
                        == published_delta(before.models, deltas[k]),
            decreases pending.len() - i,
        {
            let mut delta = pending[i].copy();
            assert(deltas[i as int] == delta@);
            let place: usize = find_model(&self.models, ModelId::of(&delta));
            if place < self.models.len() {
                assert(before.models[place as int] == self.models@[place as int]@);
                delta.duration_ewma_bits = self.models[place].duration_ewma_bits;
            }
            models.push((delta.family, delta));
            i += 1;
        }
        let mut table_changes: Vec<(u64, u64)> = Vec::new();
        std::mem::swap(&mut self.table_change_deltas, &mut table_changes);
        let mut frequency: Vec<(Fingerprint, u32)> = Vec::new();
        std::mem::swap(&mut self.pending_frequency, &mut frequency);
        let mut programs: Vec<ProgramRecord> = Vec::new();
        std::mem::swap(&mut self.pending_programs, &mut programs);
        let frequency_decays: u64 = self.pending_frequency_decays;
        self.pending_frequency_decays = 0;
        let synopses = if self.synopses_dirty {
            copy_synopses(&self.synopses)
        } else {
            Vec::new()
        };
        let batch = StatisticsBatch {
            table_changes,
            models,
            frequency,
            frequency_epoch: self.frequency_epoch,
            frequency_decays,
            synopses,
            programs,
        };
        proof {
            assert(batch@.models =~= before.batch().models);
            assert(batch@.synopses =~= before.batch().synopses);
            assert(self@ =~= before.drained());
        }
        batch
    }

    /// Notes what a publication covered.
    pub fn batch_published(&mut self, batch: &StatisticsBatch)
        requires
            old(self)@.wf(),
        ensures
            final(self)@.wf(),
            final(self)@ == old(self)@.published(batch@),
    {
        if batch.synopses.len() == 0 {
            return;
        }
        let ghost sent = batch@.synopses;
        let mut i: usize = 0;
        while i < batch.synopses.len()
            invariant
                i <= batch.synopses.len(),
                sent == records::synopsis_views(batch.synopses@),
                sent.len() > 0,
                batch@.synopses == sent,
                self@ == old(self)@,
                self@.wf(),
                forall|k: int|
                    0 <= k < i ==> {
                        let place = records::synopsis_place(
                            self@.synopses,
                            (#[trigger] sent[k]).table,
                            0,
                        ) as int;
                        place < self@.synopses.len() && self@.synopses[place] == sent[k]
                    },
            decreases batch.synopses.len() - i,
        {
            let published = &batch.synopses[i];
            assert(sent[i as int] == published@);
            let place: usize = find_synopsis(&self.synopses, published.table);
            if place == self.synopses.len() {
                assert(!self@.still_current(sent));
                return;
            }
            assert(self@.synopses[place as int] == self.synopses@[place as int]@);
            if !self.synopses[place].same(published) {
                assert(!self@.still_current(sent));
                return;
            }
            i += 1;
        }
        self.synopses_dirty = false;
    }

    fn return_frequency(&mut self, counts: &Vec<(Fingerprint, u32)>, age: u64)
        requires
            old(self)@.wf(),
        ensures
            final(self)@.wf(),
            final(self)@ == old(self)@.frequency_returned(counts@, age),
    {
        let ghost before = self@;
        let mut i: usize = 0;
        assert(counts@.take(0) =~= Seq::empty());
        while i < counts.len()
            invariant
                i <= counts.len(),
                self@.wf(),
                self@ == before.frequency_returned(counts@.take(i as int), age),
            decreases counts.len() - i,
        {
            proof {
                assert(counts@.take(i + 1).drop_last() =~= counts@.take(i as int));
            }
            let count: u32 = decay_frequency(counts[i].1, age);
            if count != 0 {
                self.add_pending_frequency(counts[i].0, count);
            }
            i += 1;
        }
        assert(counts@.take(i as int) =~= counts@);
    }

    fn return_delta(&mut self, family: Fingerprint, delta: QueryModel)
        requires
            old(self)@.wf(),
            delta.family == family,
        ensures
            final(self)@.wf(),
            final(self)@ == old(self)@.delta_returned(family, delta@),
    {
        let ghost before = self@.pending;
        let ghost shown = delta@;
        let id = ModelId::new(delta.kind, family);
        let place: usize = find_model(&self.pending, id);
        if place < self.pending.len() {
            assert(before[place as int] == self.pending@[place as int]@);
            let mut merged = delta;
            merged.merge(&self.pending[place]);
            let ghost next = merged@;
            proof {
                registry::lemma_updated_distinct(before, place as int, next);
            }
            self.pending.set(place, merged);
            assert(self@.pending =~= before.update(place as int, next));
        } else if self.pending.len() < self.capacity {
            proof {
                registry::lemma_pushed_distinct(before, shown);
            }
            self.pending.push(delta);
            assert(self@.pending =~= before.push(shown));
        } else {
            self.shed = self.shed.saturating_add(1);
        }
    }

    fn return_programs(&mut self, programs: &Vec<ProgramRecord>)
        requires
            old(self)@.wf(),
        ensures
            final(self)@.wf(),
            final(self)@ == old(self)@.programs_returned(records::program_views(programs@)),
    {
        let ghost all = records::program_views(programs@);
        let mut left: usize = programs.len();
        assert(all.take(left as int) =~= all);
        while left > 0
            invariant
                left <= programs.len(),
                all == records::program_views(programs@),
                self@.wf(),
                old(self)@.programs_returned(all) == self@.programs_returned(
                    all.take(left as int),
                ),
            decreases left,
        {
            let ghost before = self@;
            let ghost some = all.take(left as int);
            proof {
                assert(some.drop_last() =~= all.take(left - 1));
                assert(some.last() == programs@[left - 1]@);
            }
            left -= 1;
            if self.pending_programs.len() >= MAX_PENDING_PROGRAMS {
                self.corpus_shed = self.corpus_shed.saturating_add(1);
            } else {
                self.pending_programs.insert(0, programs[left].copy());
                assert(self@.pending_programs =~= seq![some.last()] + before.pending_programs);
            }
        }
        assert(all.take(0) =~= Seq::empty());
    }

    /// Takes back a batch that could not be published, so that the next one
    /// carries it.
    pub fn batch_returned(&mut self, batch: StatisticsBatch)
        requires
            old(self)@.wf(),
            batch@.wf(),
        ensures
            final(self)@.wf(),
            final(self)@ == old(self)@.returned(batch@),
    {
        let ghost given = batch@;
        add_counts(&mut self.table_change_deltas, &batch.table_changes);
        let age: u64 = self.frequency_epoch.saturating_sub(batch.frequency_epoch);
        self.return_frequency(&batch.frequency, age);
        self.pending_frequency_decays = self.pending_frequency_decays.saturating_add(
            batch.frequency_decays,
        );
        let ghost decayed = self@;
        let ghost deltas = given.models;
        let mut i: usize = 0;
        assert(deltas.take(0) =~= Seq::empty());
        while i < batch.models.len()
            invariant
                i <= batch.models.len(),
                deltas == delta_views(batch.models@),
                given.models == deltas,
                given.wf(),
                self@.wf(),
                self@ == decayed.deltas_returned(deltas.take(i as int)),
            decreases batch.models.len() - i,
        {
            proof {
                assert(deltas.take(i + 1).drop_last() =~= deltas.take(i as int));
                assert(deltas.take(i + 1).last() == deltas[i as int]);
                assert(given.models[i as int].0 == given.models[i as int].1.family);
            }
            self.return_delta(batch.models[i].0, batch.models[i].1.copy());
            i += 1;
        }
        assert(deltas.take(i as int) =~= deltas);
        self.return_programs(&batch.programs);
        if batch.synopses.len() > 0 {
            self.synopses_dirty = true;
        }
    }
}

// ---- what publication promises ----

/// Draining twice does not report the same evidence twice.
pub proof fn draining_reports_once(registry: RegistryView)
    ensures
        registry.drained().batch().models.len() == 0,
        registry.drained().batch().frequency.len() == 0,
        registry.drained().batch().table_changes.len() == 0,
        registry.drained().batch().programs.len() == 0,
        registry.drained().batch().frequency_decays == 0,
{
}

/// Publication leaves the models: what plans are made from stays.
pub proof fn draining_keeps_the_models(registry: RegistryView)
    ensures
        registry.drained().models == registry.models,
        registry.drained().sketch == registry.sketch,
        registry.drained().synopses == registry.synopses,
{
}

proof fn lemma_programs_come_back(registry: RegistryView, programs: Seq<ProgramView>)
    requires
        registry.pending_programs.len() + programs.len() <= MAX_PENDING_PROGRAMS,
    ensures
        registry.programs_returned(programs) == (RegistryView {
            pending_programs: programs + registry.pending_programs,
            ..registry
        }),
    decreases programs.len(),
{
    if programs.len() == 0 {
        assert(programs + registry.pending_programs =~= registry.pending_programs);
    } else {
        let next = RegistryView {
            pending_programs: seq![programs.last()] + registry.pending_programs,
            ..registry
        };
        lemma_programs_come_back(next, programs.drop_last());
        assert(programs.drop_last() + (seq![programs.last()] + registry.pending_programs)
            =~= programs + registry.pending_programs);
    }
}

proof fn lemma_deltas_keep_programs(registry: RegistryView, deltas: Seq<(Fingerprint, ModelView)>)
    ensures
        registry.deltas_returned(deltas).pending_programs == registry.pending_programs,
        registry.deltas_returned(deltas).corpus_shed == registry.corpus_shed,
    decreases deltas.len(),
{
    if deltas.len() > 0 {
        lemma_deltas_keep_programs(registry, deltas.drop_last());
    }
}

proof fn lemma_frequency_keeps_programs(
    registry: RegistryView,
    counts: Seq<(Fingerprint, u32)>,
    age: u64,
)
    ensures
        registry.frequency_returned(counts, age).pending_programs == registry.pending_programs,
        registry.frequency_returned(counts, age).corpus_shed == registry.corpus_shed,
        registry.frequency_returned(counts, age).pending == registry.pending,
        registry.frequency_returned(counts, age).capacity == registry.capacity,
        registry.frequency_returned(counts, age).shed == registry.shed,
    decreases counts.len(),
{
    if counts.len() > 0 {
        lemma_frequency_keeps_programs(registry, counts.drop_last(), age);
    }
}

/// Programs that come back are not lost and keep their order: they stand
/// before those captured since, while there is room.
pub proof fn returned_programs_are_not_lost(registry: RegistryView, batch: BatchView)
    requires
        registry.pending_programs.len() + batch.programs.len() <= MAX_PENDING_PROGRAMS,
    ensures
        registry.returned(batch).pending_programs == batch.programs + registry.pending_programs,
        registry.returned(batch).corpus_shed == registry.corpus_shed,
{
    let changed = RegistryView {
        table_change_deltas: records::all_counted(
            registry.table_change_deltas,
            batch.table_changes,
        ),
        ..registry
    };
    let age = registry.frequency_epoch.saturating_sub(batch.frequency_epoch);
    lemma_frequency_keeps_programs(changed, batch.frequency, age);
    let aged = changed.frequency_returned(batch.frequency, age);
    let decayed = RegistryView {
        pending_frequency_decays: aged.pending_frequency_decays.saturating_add(
            batch.frequency_decays,
        ),
        ..aged
    };
    lemma_deltas_keep_programs(decayed, batch.models);
    lemma_programs_come_back(decayed.deltas_returned(batch.models), batch.programs);
}

/// A delta that comes back is not lost: where its family was observed since,
/// the next delta counts the executions of both.
pub proof fn returned_deltas_merge_forward(
    registry: RegistryView,
    family: Fingerprint,
    delta: ModelView,
)
    requires
        registry.wf(),
        delta.family == family,
        registry::has_model(registry.pending, ModelId { kind: delta.kind, family }),
        delta.stamp.semantic == registry.pending_of(
            ModelId { kind: delta.kind, family },
        ).stamp.semantic,
    ensures
        registry.delta_returned(family, delta).pending[registry::model_place(
            registry.pending,
            ModelId { kind: delta.kind, family },
            0,
        ) as int].executions == delta.executions.saturating_add(
            registry.pending_of(ModelId { kind: delta.kind, family }).executions,
        ),
        registry.delta_returned(family, delta).shed == registry.shed,
{
    registry::lemma_model_place(registry.pending, ModelId { kind: delta.kind, family }, 0);
}

/// Appearances after a number of halvings, without those of which none is left.
pub open spec fn aged(counts: Seq<(Fingerprint, u32)>, age: nat) -> Seq<(Fingerprint, u32)>
    decreases counts.len(),
{
    if counts.len() == 0 {
        Seq::empty()
    } else {
        let before = aged(counts.drop_last(), age);
        let count = records::halved_count(counts.last().1 as nat, age);
        if count == 0 {
            before
        } else {
            before.push((counts.last().0, count as u32))
        }
    }
}

/// A registry after a number of decays.
pub open spec fn decayed_often(registry: RegistryView, times: nat) -> RegistryView
    decreases times,
{
    if times == 0 {
        registry
    } else {
        decayed_often(registry, (times - 1) as nat).decayed()
    }
}

proof fn lemma_count_place(counts: Seq<(u64, u64)>, table: u64, from: nat)
    requires
        from <= counts.len(),
        forall|i: int| from <= i < counts.len() ==> (#[trigger] counts[i]).0 != table,
    ensures
        records::count_place(counts, table, from) == counts.len(),
    decreases counts.len() - from,
{
    if from < counts.len() {
        lemma_count_place(counts, table, from + 1);
    }
}

proof fn lemma_changes_come_back(changes: Seq<(u64, u64)>)
    requires
        records::tables_distinct(changes),
    ensures
        records::all_counted(Seq::empty(), changes) == changes,
    decreases changes.len(),
{
    if changes.len() > 0 {
        let before = changes.drop_last();
        lemma_changes_come_back(before);
        lemma_count_place(before, changes.last().0, 0);
        assert(before.push(changes.last()) =~= changes);
    } else {
        assert(changes =~= Seq::empty());
    }
}

proof fn lemma_family_place(counts: Seq<(Fingerprint, u32)>, family: Fingerprint, from: nat)
    requires
        from <= counts.len(),
        forall|i: int| from <= i < counts.len() ==> (#[trigger] counts[i]).0 != family,
    ensures
        records::family_place(counts, family, from) == counts.len(),
    decreases counts.len() - from,
{
    if from < counts.len() {
        lemma_family_place(counts, family, from + 1);
    }
}

proof fn lemma_aged_families(counts: Seq<(Fingerprint, u32)>, age: nat)
    ensures
        aged(counts, age).len() <= counts.len(),
        forall|i: int|
            0 <= i < aged(counts, age).len() ==> exists|k: int|
                0 <= k < counts.len() && counts[k].0 == (#[trigger] aged(counts, age)[i]).0,
    decreases counts.len(),
{
    if counts.len() > 0 {
        let before = counts.drop_last();
        lemma_aged_families(before, age);
        assert forall|i: int| 0 <= i < aged(counts, age).len() implies exists|k: int|
            0 <= k < counts.len() && counts[k].0 == (#[trigger] aged(counts, age)[i]).0 by {
            if i < aged(before, age).len() {
                assert(aged(counts, age)[i] == aged(before, age)[i]);
                let k = choose|k: int|
                    0 <= k < before.len() && before[k].0 == aged(before, age)[i].0;
                assert(counts[k] == before[k]);
            } else {
                assert(counts[counts.len() - 1].0 == aged(counts, age)[i].0);
            }
        }
    }
}

proof fn lemma_frequency_comes_back(
    registry: RegistryView,
    counts: Seq<(Fingerprint, u32)>,
    age: u64,
)
    requires
        registry.pending_frequency.len() == 0,
        records::families_distinct(counts),
        counts.len() <= registry::family_limit(registry.capacity),
    ensures
        registry.frequency_returned(counts, age) == (RegistryView {
            pending_frequency: aged(counts, age as nat),
            ..registry
        }),
    decreases counts.len(),
{
    if counts.len() > 0 {
        let before = counts.drop_last();
        lemma_frequency_comes_back(registry, before, age);
        lemma_aged_families(before, age as nat);
        let known = aged(before, age as nat);
        assert forall|i: int| 0 <= i < known.len() implies (#[trigger] known[i]).0
            != counts.last().0 by {
            let k = choose|k: int| 0 <= k < before.len() && before[k].0 == known[i].0;
            assert(counts[k] == before[k]);
            assert(counts[counts.len() - 1] == counts.last());
        }
        lemma_family_place(known, counts.last().0, 0);
    } else {
        assert(registry.pending_frequency =~= Seq::empty());
    }
}

proof fn lemma_absent_model(models: Seq<ModelView>, id: ModelId, from: nat)
    requires
        from <= models.len(),
        forall|i: int| from <= i < models.len() ==> (#[trigger] models[i]).id() != id,
    ensures
        registry::model_place(models, id, from) == models.len(),
    decreases models.len() - from,
{
    if from < models.len() {
        lemma_absent_model(models, id, from + 1);
    }
}

/// The deltas of a run, without the families that they stand under.
pub open spec fn deltas_of(deltas: Seq<(Fingerprint, ModelView)>) -> Seq<ModelView> {
    Seq::new(deltas.len(), |i: int| deltas[i].1)
}

proof fn lemma_deltas_come_back(registry: RegistryView, deltas: Seq<(Fingerprint, ModelView)>)
    requires
        registry.pending.len() == 0,
        deltas.len() <= registry.capacity,
        forall|i: int| 0 <= i < deltas.len() ==> (#[trigger] deltas[i]).0 == deltas[i].1.family,
        registry::distinct(deltas_of(deltas)),
    ensures
        registry.deltas_returned(deltas) == (RegistryView {
            pending: deltas_of(deltas),
            ..registry
        }),
    decreases deltas.len(),
{
    if deltas.len() > 0 {
        let before = deltas.drop_last();
        let known = deltas_of(before);
        let all = deltas_of(deltas);
        assert(known =~= all.drop_last());
        assert forall|i: int, k: int| 0 <= i < k < known.len() implies (#[trigger] known[i]).id()
            != (#[trigger] known[k]).id() by {
            assert(all[i] == known[i]);
            assert(all[k] == known[k]);
        }
        lemma_deltas_come_back(registry, before);
        let id = ModelId { kind: deltas.last().1.kind, family: deltas.last().0 };
        assert(deltas[deltas.len() - 1] == deltas.last());
        assert(all[deltas.len() - 1] == deltas.last().1);
        assert(id == deltas.last().1.id());
        assert forall|i: int| 0 <= i < known.len() implies (#[trigger] known[i]).id() != id by {
            assert(all[i] == known[i]);
        }
        lemma_absent_model(known, id, 0);
        assert(known.push(deltas.last().1) =~= all);
    } else {
        assert(registry.pending =~= deltas_of(deltas));
    }
}

proof fn lemma_decayed_often(registry: RegistryView, times: nat)
    requires
        registry.pending_frequency.len() == 0,
        registry.pending_frequency_decays == 0,
        registry.frequency_epoch + times <= u64::MAX,
    ensures
        decayed_often(registry, times) == (RegistryView {
            sketch: decayed_often(registry, times).sketch,
            frequency_epoch: (registry.frequency_epoch + times) as u64,
            pending_frequency_decays: times as u64,
            ..registry
        }),
    decreases times,
{
    if times > 0 {
        lemma_decayed_often(registry, (times - 1) as nat);
        assert(records::halved(registry.pending_frequency) =~= registry.pending_frequency);
    }
}

proof fn lemma_unaged(counts: Seq<(Fingerprint, u32)>)
    requires
        forall|i: int| 0 <= i < counts.len() ==> (#[trigger] counts[i]).1 > 0,
    ensures
        aged(counts, 0) == counts,
    decreases counts.len(),
{
    if counts.len() > 0 {
        assert(counts[counts.len() - 1] == counts.last());
        lemma_unaged(counts.drop_last());
        assert(counts.drop_last().push(counts.last()) =~= counts);
    } else {
        assert(counts =~= Seq::empty());
    }
}

/// A batch that comes back is the next batch: the same deltas, changes, synopses
/// and programs in the same order, and nothing is shed. Each decay in between
/// halves the appearances once and adds to the decays that are due.
pub proof fn returned_batches_are_drained_again(registry: RegistryView, decays: nat)
    requires
        registry.wf(),
        registry.frequency_epoch + decays <= u64::MAX,
        registry.pending_frequency_decays + decays <= u64::MAX,
    ensures
        ({
            let again = decayed_often(registry.drained(), decays).returned(registry.batch());
            &&& again.batch() == (BatchView {
                frequency: aged(registry.pending_frequency, decays),
                frequency_epoch: (registry.frequency_epoch + decays) as u64,
                frequency_decays: (registry.pending_frequency_decays + decays) as u64,
                ..registry.batch()
            })
            &&& again.shed == registry.shed
            &&& again.corpus_shed == registry.corpus_shed
        }),
{
    let batch = registry.batch();
    let start = decayed_often(registry.drained(), decays);
    lemma_decayed_often(registry.drained(), decays);
    lemma_changes_come_back(batch.table_changes);
    let changed = RegistryView {
        table_change_deltas: records::all_counted(start.table_change_deltas, batch.table_changes),
        ..start
    };
    assert(changed.table_change_deltas == registry.table_change_deltas);
    let age = start.frequency_epoch.saturating_sub(batch.frequency_epoch);
    assert(age == decays);
    lemma_frequency_comes_back(changed, batch.frequency, age);
    let counted = changed.frequency_returned(batch.frequency, age);
    let due = RegistryView {
        pending_frequency_decays: counted.pending_frequency_decays.saturating_add(
            batch.frequency_decays,
        ),
        ..counted
    };
    let deltas = deltas_of(batch.models);
    assert forall|i: int| 0 <= i < deltas.len() implies (#[trigger] deltas[i]).id()
        == registry.pending[i].id() by {
        assert(batch.models[i].1 == published_delta(registry.models, registry.pending[i]));
    }
    assert forall|i: int, k: int| 0 <= i < k < deltas.len() implies (#[trigger] deltas[i]).id() != (
    #[trigger] deltas[k]).id() by {
        assert(registry.pending[i].id() != registry.pending[k].id());
    }
    lemma_deltas_come_back(due, batch.models);
    let filled = due.deltas_returned(batch.models);
    lemma_programs_come_back(filled, batch.programs);
    assert(batch.programs + filled.pending_programs =~= batch.programs);
    let again = start.returned(batch);
    assert(again.pending == deltas);
    assert(again.models == registry.models);
    assert forall|i: int| 0 <= i < deltas.len() implies #[trigger] again.batch().models[i]
        == batch.models[i] by {
        assert(deltas[i] == published_delta(registry.models, registry.pending[i]));
    }
    assert(again.batch().models =~= batch.models);
    assert(again.batch().synopses =~= batch.synopses);
}

/// A batch that comes back at once is the next batch, where it counts no family
/// as seen not at all.
pub proof fn returned_batches_are_not_lost(registry: RegistryView)
    requires
        registry.wf(),
        forall|i: int|
            0 <= i < registry.pending_frequency.len() ==> (#[trigger] registry.pending_frequency[i]).1
                > 0,
    ensures
        registry.drained().returned(registry.batch()).batch() == registry.batch(),
        registry.drained().returned(registry.batch()).shed == registry.shed,
        registry.drained().returned(registry.batch()).corpus_shed == registry.corpus_shed,
{
    returned_batches_are_drained_again(registry, 0);
    lemma_unaged(registry.pending_frequency);
    assert(decayed_often(registry.drained(), 0) == registry.drained());
}

} // verus!
