//! The statistics runner: what it does on each event and on each tick.

use vstd::prelude::*;

use crate::scheduler::batch::{BatchView, StatisticsBatch, StatisticsConfig, SurveyRequest};
use crate::scheduler::collector::StatisticsEvent;
use crate::scheduler::evidence::DependencyStamp;
use crate::scheduler::identity;
use crate::scheduler::model::{
    ModelView, ObservationView, RelationFingerprints, RelationObservation,
};
use crate::scheduler::physical;
use crate::scheduler::physical::{
    CostView, PhysicalCostRegistry, PhysicalTelemetrySnapshot, SnapshotView,
};
use crate::scheduler::planner;
use crate::scheduler::planner::{
    runner_snapshots, CanonicalStats, CollectorReport, CorpusMaintenanceStats,
    PersistedStatisticsSnapshot, PersistedView, PlannerStats, StatsView,
};
use crate::scheduler::records;
use crate::scheduler::records::{copy_synopses, ProgramView, SynopsisModel, SynopsisView};
use crate::scheduler::registry;
use crate::scheduler::registry::{HotRegistry, RegistryView};
use crate::scheduler::relay::{
    IngestCounters, ObservationBatch, RelayCounters, RelayIngest, RelaySink, WireView,
};
use crate::scheduler::sketches::Fingerprint;

verus! {

/// What the relay does, as far as an instance sees it.
#[derive(Clone, Copy, Debug, PartialEq, Eq, Structural)]
pub struct RelayReport {
    /// None where the instance does not send.
    pub sending: Option<RelayCounters>,
    pub receiving: IngestCounters,
}

impl Default for RelayReport {
    fn default() -> (report: RelayReport)
        ensures
            report.sending is None,
            report.receiving == (IngestCounters {
                accepted: 0,
                already_admitted: 0,
                format_mismatch: 0,
                saturated: 0,
                corpus_oversize: 0,
                sources: 0,
            }),
    {
        RelayReport { sending: None, receiving: IngestCounters::default() }
    }
}

/// What the relay does, as far as an instance sees it.
pub fn relay_report(sink: Option<&RelaySink>, ingest: &RelayIngest) -> (report: RelayReport)
    ensures
        report.sending == (match sink {
            Some(sink) => Some(sink@.counters()),
            None => None,
        }),
        report.receiving == (IngestCounters {
            sources: ingest@.admitted.len() as usize,
            ..ingest@.counted
        }),
{
    RelayReport {
        sending: match sink {
            Some(sink) => Some(sink.counters()),
            None => None,
        },
        receiving: ingest.counters(),
    }
}

/// Drains events into the registry, and says on each tick what is to be done:
/// whether to survey, to publish a batch, to load what is stored, and which
/// snapshots to plan from.
#[derive(Debug, PartialEq)]
pub struct StatisticsRunner {
    pub config: StatisticsConfig,
    pub has_source: bool,
    pub has_sink: bool,
    /// Whether what is published is what is loaded, so that the stored models
    /// are continued here.
    pub owns_stored_models: bool,
    pub registry: HotRegistry,
    pub physical_cost: PhysicalCostRegistry,
    pub persisted: PersistedStatisticsSnapshot,
    pub stored_models_loaded: bool,
    pub ticks_since_decay: u32,
    pub ticks_since_flush: u32,
    pub ticks_since_survey: u32,
    pub ticks_since_refresh: u32,
    pub published_absorbed: u64,
    pub published_collector: CollectorReport,
    pub published_corpus_maintenance: Option<CorpusMaintenanceStats>,
    pub force_publish: bool,
    pub surveying: bool,
    pub flushing: bool,
    pub refreshing: bool,
    /// The synopses of the batch that is being published.
    pub covered: Vec<SynopsisModel>,
    pub planning: PlannerStats,
    pub diagnostic: PlannerStats,
}

/// The value of a [`StatisticsRunner`].
#[verifier::ext_equal]
pub struct RunnerView {
    pub config: StatisticsConfig,
    pub has_source: bool,
    pub has_sink: bool,
    pub owns_stored_models: bool,
    pub registry: RegistryView,
    pub physical_cost: CostView,
    pub persisted: PersistedView,
    pub stored_models_loaded: bool,
    pub ticks_since_decay: u32,
    pub ticks_since_flush: u32,
    pub ticks_since_survey: u32,
    pub ticks_since_refresh: u32,
    pub published_absorbed: u64,
    pub published_collector: CollectorReport,
    pub published_corpus_maintenance: Option<CorpusMaintenanceStats>,
    pub force_publish: bool,
    pub surveying: bool,
    pub flushing: bool,
    pub refreshing: bool,
    pub covered: Seq<SynopsisView>,
    pub planning: StatsView,
    pub diagnostic: StatsView,
}

impl View for StatisticsRunner {
    type V = RunnerView;

    open spec fn view(&self) -> RunnerView {
        RunnerView {
            config: self.config,
            has_source: self.has_source,
            has_sink: self.has_sink,
            owns_stored_models: self.owns_stored_models,
            registry: self.registry@,
            physical_cost: self.physical_cost@,
            persisted: self.persisted@,
            stored_models_loaded: self.stored_models_loaded,
            ticks_since_decay: self.ticks_since_decay,
            ticks_since_flush: self.ticks_since_flush,
            ticks_since_survey: self.ticks_since_survey,
            ticks_since_refresh: self.ticks_since_refresh,
            published_absorbed: self.published_absorbed,
            published_collector: self.published_collector,
            published_corpus_maintenance: self.published_corpus_maintenance,
            force_publish: self.force_publish,
            surveying: self.surveying,
            flushing: self.flushing,
            refreshing: self.refreshing,
            covered: records::synopsis_views(self.covered@),
            planning: self.planning@,
            diagnostic: self.diagnostic@,
        }
    }
}

/// What is known of the world on a tick.
#[derive(Debug, PartialEq)]
pub struct TickInput {
    /// What the backend reports, where it does.
    pub telemetry: Option<PhysicalTelemetrySnapshot>,
    /// Whether an engine is attached that may write.
    pub can_survey: bool,
    /// How many intervals the sink gathers.
    pub flush_every: u32,
    /// Whether the sink holds a batch.
    pub sink_is_pending: bool,
    pub collector: CollectorReport,
    pub corpus_maintenance: Option<CorpusMaintenanceStats>,
    pub now: u64,
}

/// What is to be done after a tick.
#[derive(Debug, PartialEq)]
pub struct TickActions {
    pub survey: Option<SurveyRequest>,
    pub flush: Option<StatisticsBatch>,
    pub refresh: bool,
    pub published: bool,
}

/// A batch whose families were folded in, with their ages.
pub open spec fn families_merged(
    registry: RegistryView,
    families: Seq<ModelView>,
    sent_at: u64,
    now: u64,
) -> RegistryView
    decreases families.len(),
{
    if families.len() == 0 {
        registry
    } else {
        let family = families.last();
        families_merged(registry, families.drop_last(), sent_at, now).relayed_merged(
            family.family,
            family,
            sent_at.saturating_sub(family.last_seen),
            now,
        )
    }
}

/// A registry with appearances folded in.
pub open spec fn appearances_merged(
    registry: RegistryView,
    counts: Seq<(Fingerprint, u32)>,
) -> RegistryView
    decreases counts.len(),
{
    if counts.len() == 0 {
        registry
    } else {
        appearances_merged(registry, counts.drop_last()).appeared(
            counts.last().0,
            counts.last().1,
        )
    }
}

/// A registry with captured programs adopted.
pub open spec fn programs_adopted(
    registry: RegistryView,
    programs: Seq<ProgramView>,
) -> RegistryView
    decreases programs.len(),
{
    if programs.len() == 0 {
        registry
    } else {
        let before = programs_adopted(registry, programs.drop_last());
        RegistryView {
            relayed_corpus: before.relayed_corpus.saturating_add(1),
            ..before
        }.program_absorbed(programs.last())
    }
}

/// A registry with a relayed batch folded in.
pub open spec fn batch_merged(registry: RegistryView, batch: WireView, now: u64) -> RegistryView {
    programs_adopted(
        appearances_merged(
            families_merged(registry, batch.families, batch.sent_at_micros, now),
            batch.frequency,
        ),
        batch.corpus,
    )
}

impl RunnerView {
    /// Whether the registry is in order.
    pub open spec fn wf(self) -> bool {
        self.registry.wf()
    }

    /// After a relayed batch.
    pub open spec fn relayed(self, batch: WireView, now: u64) -> RunnerView {
        RunnerView {
            registry: batch_merged(self.registry, batch, now),
            force_publish: true,
            ..self
        }
    }

    /// After a survey.
    pub open spec fn surveyed(self, result: Option<(SynopsisView, u64)>) -> RunnerView {
        match result {
            Some((synopsis, covered)) => RunnerView {
                registry: self.registry.synopsis_set(synopsis, covered),
                surveying: false,
                force_publish: true,
                ..self
            },
            None => RunnerView { surveying: false, ..self },
        }
    }

    /// After a publication. A batch that could not be published comes back.
    pub open spec fn flushed(self, returned: Option<BatchView>) -> RunnerView {
        RunnerView {
            flushing: false,
            registry: match returned {
                None => self.registry.published(
                    BatchView { synopses: self.covered, ..BatchView::empty() },
                ),
                Some(batch) => self.registry.returned(batch),
            },
            ..self
        }
    }

    /// After what is stored was loaded. An owner continues it; anyone else
    /// keeps it apart from what is gathered here.
    pub open spec fn refreshed(self, snapshot: PersistedView) -> RunnerView {
        let loaded = if self.owns_stored_models {
            RunnerView {
                registry: self.registry.hydrated(snapshot.models).frequency_hydrated(
                    snapshot.frequencies,
                ),
                stored_models_loaded: true,
                ..self
            }
        } else {
            RunnerView { persisted: snapshot, ..self }
        };
        RunnerView {
            registry: if snapshot.synopses.len() > 0 {
                RegistryView {
                    synopses: records::synopses_by_table(
                        crate::scheduler::batch::all_caught_up(
                            snapshot.synopses,
                            loaded.registry.survey_changes,
                        ),
                    ),
                    synopses_dirty: loaded.registry.survey_changes.len() > 0,
                    ..loaded.registry
                }
            } else {
                loaded.registry
            },
            refreshing: false,
            force_publish: true,
            ..loaded
        }
    }

    /// After a report of the backend.
    pub open spec fn reported(self, telemetry: Option<SnapshotView>) -> RunnerView {
        match telemetry {
            Some(snapshot) => {
                let (cost, changed) = physical::observed(self.physical_cost, snapshot);
                RunnerView {
                    physical_cost: cost,
                    force_publish: self.force_publish || changed,
                    ..self
                }
            },
            None => self,
        }
    }

    /// After the tick of decay.
    pub open spec fn decay_ticked(self) -> RunnerView {
        let ticks = self.ticks_since_decay.saturating_add(1);
        if ticks >= self.config.decay_every {
            RunnerView { registry: self.registry.decayed(), ticks_since_decay: 0, ..self }
        } else {
            RunnerView { ticks_since_decay: ticks, ..self }
        }
    }

    /// Whether a survey is due.
    pub open spec fn survey_is_due(self) -> bool {
        self.ticks_since_survey.saturating_add(1) >= self.config.survey_every && !self.surveying
    }

    /// After the tick of surveys. Only an instance that may write surveys.
    pub open spec fn survey_ticked(self, can_survey: bool) -> RunnerView {
        if self.survey_is_due() {
            RunnerView { ticks_since_survey: 0, surveying: can_survey, ..self }
        } else {
            RunnerView {
                ticks_since_survey: self.ticks_since_survey.saturating_add(1),
                ..self
            }
        }
    }

    /// Whether publications are counted: there is a sink, and an owner has
    /// loaded what it continues.
    pub open spec fn may_flush(self) -> bool {
        self.has_sink && (!self.owns_stored_models || self.stored_models_loaded)
    }

    /// Whether a publication is due.
    pub open spec fn flush_is_due(self, flush_every: u32) -> bool {
        self.may_flush() && self.ticks_since_flush.saturating_add(1) >= flush_every
            && !self.flushing
    }

    /// Whether there is something to publish.
    pub open spec fn flush_is_needed(self, sink_is_pending: bool) -> bool {
        !self.registry.batch().is_empty() || sink_is_pending
    }

    /// After the tick of publications.
    pub open spec fn flush_ticked(self, flush_every: u32, sink_is_pending: bool) -> RunnerView {
        if self.flush_is_due(flush_every) {
            RunnerView {
                ticks_since_flush: 0,
                registry: self.registry.drained(),
                flushing: self.flush_is_needed(sink_is_pending),
                covered: if self.flush_is_needed(sink_is_pending) {
                    self.registry.batch().synopses
                } else {
                    self.covered
                },
                ..self
            }
        } else if self.may_flush() {
            RunnerView { ticks_since_flush: self.ticks_since_flush.saturating_add(1), ..self }
        } else {
            self
        }
    }

    /// Whether what is stored is to be loaded.
    pub open spec fn refresh_is_due(self) -> bool {
        self.has_source && !self.owns_stored_models && self.ticks_since_refresh.saturating_add(1)
            >= self.config.refresh_every && !self.refreshing
    }

    /// After the tick of loading.
    pub open spec fn refresh_ticked(self) -> RunnerView {
        if self.refresh_is_due() {
            RunnerView { ticks_since_refresh: 0, refreshing: true, ..self }
        } else if self.has_source && !self.owns_stored_models {
            RunnerView {
                ticks_since_refresh: self.ticks_since_refresh.saturating_add(1),
                ..self
            }
        } else {
            self
        }
    }

    /// Whether there is something new to plan from.
    pub open spec fn publish_is_due(
        self,
        collector: CollectorReport,
        maintenance: Option<CorpusMaintenanceStats>,
    ) -> bool {
        ||| self.registry.absorbed != self.published_absorbed
        ||| collector != self.published_collector
        ||| maintenance != self.published_corpus_maintenance
        ||| self.force_publish
    }

    /// After new snapshots.
    pub open spec fn snapshots_taken(
        self,
        collector: CollectorReport,
        maintenance: Option<CorpusMaintenanceStats>,
        now: u64,
    ) -> RunnerView {
        let (planning, diagnostic) = planner::snapshots(
            self.registry,
            self.persisted,
            self.owns_stored_models,
            physical::cost_model(self.physical_cost),
            collector,
            maintenance,
            now,
        );
        RunnerView {
            published_absorbed: self.registry.absorbed,
            published_collector: collector,
            published_corpus_maintenance: maintenance,
            force_publish: false,
            planning,
            diagnostic,
            ..self
        }
    }

    /// After the tick of snapshots.
    pub open spec fn publish_ticked(
        self,
        collector: CollectorReport,
        maintenance: Option<CorpusMaintenanceStats>,
        now: u64,
    ) -> RunnerView {
        if self.publish_is_due(collector, maintenance) {
            self.snapshots_taken(collector, maintenance, now)
        } else {
            self
        }
    }

    /// With its live snapshots named by the encodings of their canonical parts.
    /// An owner plans from the live snapshot; what anyone else plans from goes by
    /// the name of what is stored.
    pub open spec fn identified(
        self,
        models: Seq<Seq<u8>>,
        synopses: Seq<Seq<u8>>,
        workload_frequency: Seq<u8>,
    ) -> RunnerView {
        RunnerView {
            planning: if self.owns_stored_models {
                self.planning.identified(models, synopses, workload_frequency)
            } else {
                self.planning
            },
            diagnostic: self.diagnostic.identified(models, synopses, workload_frequency),
            ..self
        }
    }

    /// Before the tick of surveys.
    pub open spec fn before_survey(self, telemetry: Option<SnapshotView>) -> RunnerView {
        self.reported(telemetry).decay_ticked()
    }

    /// Before the tick of publications.
    pub open spec fn before_flush(
        self,
        telemetry: Option<SnapshotView>,
        can_survey: bool,
    ) -> RunnerView {
        self.before_survey(telemetry).survey_ticked(can_survey)
    }

    /// Before the tick of loading.
    pub open spec fn before_refresh(self, input: TickView) -> RunnerView {
        self.before_flush(input.telemetry, input.can_survey).flush_ticked(
            input.flush_every,
            input.sink_is_pending,
        )
    }

    /// Before the tick of snapshots.
    pub open spec fn before_publish(self, input: TickView) -> RunnerView {
        self.before_refresh(input).refresh_ticked()
    }

    /// After a tick.
    pub open spec fn ticked(self, input: TickView) -> RunnerView {
        self.before_publish(input).publish_ticked(
            input.collector,
            input.corpus_maintenance,
            input.now,
        )
    }
}

/// The value of a [`TickInput`].
pub struct TickView {
    pub telemetry: Option<SnapshotView>,
    pub can_survey: bool,
    pub flush_every: u32,
    pub sink_is_pending: bool,
    pub collector: CollectorReport,
    pub corpus_maintenance: Option<CorpusMaintenanceStats>,
    pub now: u64,
}

impl View for TickInput {
    type V = TickView;

    open spec fn view(&self) -> TickView {
        TickView {
            telemetry: match self.telemetry {
                Some(telemetry) => Some(telemetry@),
                None => None,
            },
            can_survey: self.can_survey,
            flush_every: self.flush_every,
            sink_is_pending: self.sink_is_pending,
            collector: self.collector,
            corpus_maintenance: self.corpus_maintenance,
            now: self.now,
        }
    }
}

impl StatisticsRunner {
    /// A runner that starts. What is stored is loaded first, where there is a
    /// source.
    pub fn start(
        config: StatisticsConfig,
        has_source: bool,
        has_sink: bool,
        extends_the_source: bool,
    ) -> (runner: StatisticsRunner)
        ensures
            runner@.wf(),
            runner@ == (RunnerView {
                config,
                has_source,
                has_sink,
                owns_stored_models: has_sink && extends_the_source,
                registry: RegistryView::empty(config.registry_capacity),
                physical_cost: CostView {
                    identity: None,
                    capabilities: physical::PhysicalTelemetryCapabilities {
                        request_latency: false,
                        request_bytes: false,
                        cache_tiers: false,
                    },
                    previous: None,
                    requests: Seq::empty(),
                    caches: Seq::empty(),
                },
                persisted: PersistedView::nothing(),
                stored_models_loaded: !has_source,
                ticks_since_decay: 0,
                ticks_since_flush: 0,
                ticks_since_survey: 0,
                ticks_since_refresh: 0,
                published_absorbed: u64::MAX,
                published_collector: CollectorReport {
                    corpus_enabled: false,
                    dropped: 0,
                    corpus_captured: 0,
                    corpus_skipped_oversize: 0,
                    corpus_dropped_queue: 0,
                },
                published_corpus_maintenance: None,
                force_publish: false,
                surveying: false,
                flushing: false,
                refreshing: has_source,
                covered: Seq::empty(),
                planning: StatsView::empty(),
                diagnostic: StatsView::empty(),
            }),
    {
        let runner = StatisticsRunner {
            config,
            has_source,
            has_sink,
            owns_stored_models: has_sink && extends_the_source,
            registry: HotRegistry::new(config.registry_capacity),
            physical_cost: PhysicalCostRegistry::default(),
            persisted: PersistedStatisticsSnapshot::default(),
            stored_models_loaded: !has_source,
            ticks_since_decay: 0,
            ticks_since_flush: 0,
            ticks_since_survey: 0,
            ticks_since_refresh: 0,
            published_absorbed: u64::MAX,
            published_collector: CollectorReport::default(),
            published_corpus_maintenance: None,
            force_publish: false,
            surveying: false,
            flushing: false,
            refreshing: has_source,
            covered: Vec::new(),
            planning: PlannerStats::empty(),
            diagnostic: PlannerStats::empty(),
        };
        assert(runner@.covered =~= Seq::empty());
        runner
    }

    /// Takes in an execution. The function computes the next moving mean of
    /// durations.
    pub fn observe<F: Fn(Option<u64>, u64) -> u64>(
        &mut self,
        event: StatisticsEvent,
        now: u64,
        mean: F,
    )
        requires
            old(self)@.wf(),
            forall|last: Option<u64>, micros: u64| #[trigger] mean.requires((last, micros)),
        ensures
            final(self)@.wf(),
            match event {
                StatisticsEvent::Program(record) => final(self)@ == (RunnerView {
                    registry: old(self)@.registry.program_absorbed(record@),
                    ..old(self)@
                }),
                StatisticsEvent::Statement(observation) => exists|first: u64, second: u64|
                    {
                        let ready = old(self)@.registry.parts_absorbed(observation@, now);
                        let id = registry::statement_id(observation.family);
                        &&& mean.ensures(
                            (
                                ready.model_of(id).mean_before(observation.stamp),
                                observation.execute_micros,
                            ),
                            first,
                        )
                        &&& mean.ensures(
                            (
                                ready.pending_of(id).mean_before(observation.stamp),
                                observation.execute_micros,
                            ),
                            second,
                        )
                        &&& final(self)@ == (RunnerView {
                            registry: #[trigger] old(self)@.registry.absorbed_with(
                                observation@,
                                now,
                                first,
                                second,
                            ),
                            ..old(self)@
                        })
                    },
            },
    {
        match event {
            StatisticsEvent::Statement(observation) => {
                self.registry.absorb(&observation, now, mean);
            },
            StatisticsEvent::Program(record) => {
                self.registry.absorb_program(record);
            },
        }
    }

    /// Folds in a relayed batch.
    pub fn relayed(&mut self, batch: ObservationBatch, now: u64)
        requires
            old(self)@.wf(),
        ensures
            final(self)@.wf(),
            final(self)@ == old(self)@.relayed(batch@, now),
    {
        merge_families(&mut self.registry, &batch, now);
        merge_appearances(&mut self.registry, &batch);
        adopt_programs(&mut self.registry, &batch);
        self.force_publish = true;
    }

    /// Takes in what a survey found, and how many changes it covers.
    pub fn surveyed(&mut self, result: Option<(SynopsisModel, u64)>)
        requires
            old(self)@.wf(),
        ensures
            final(self)@.wf(),
            final(self)@ == old(self)@.surveyed(
                match result {
                    Some((synopsis, covered)) => Some((synopsis@, covered)),
                    None => None,
                },
            ),
    {
        self.surveying = false;
        if let Some((synopsis, covered)) = result {
            self.registry.set_synopsis(synopsis, covered);
            self.force_publish = true;
        }
    }

    /// Takes in what came of a publication; a batch that could not be published
    /// comes back.
    pub fn flushed(&mut self, result: Result<(), StatisticsBatch>)
        requires
            old(self)@.wf(),
            result matches Err(batch) ==> batch@.wf(),
        ensures
            final(self)@.wf(),
            final(self)@ == old(self)@.flushed(
                match result {
                    Ok(_) => None,
                    Err(batch) => Some(batch@),
                },
            ),
    {
        self.flushing = false;
        match result {
            Ok(_) => {
                let mut covered = StatisticsBatch::default();
                covered.synopses = copy_synopses(&self.covered);
                assert(covered@ =~= BatchView {
                    synopses: self@.covered,
                    ..BatchView::empty()
                });
                self.registry.batch_published(&covered);
            },
            Err(batch) => {
                self.registry.batch_returned(batch);
            },
        }
    }

    /// Takes in what is stored.
    pub fn refreshed(&mut self, snapshot: PersistedStatisticsSnapshot)
        requires
            old(self)@.wf(),
        ensures
            final(self)@.wf(),
            final(self)@ == old(self)@.refreshed(snapshot@),
    {
        self.refreshing = false;
        let synopses = copy_synopses(&snapshot.synopses);
        if self.owns_stored_models {
            self.registry.hydrate(&snapshot.models);
            self.registry.hydrate_frequency(&snapshot.frequencies);
            self.stored_models_loaded = true;
        } else {
            self.persisted = snapshot;
        }
        assert(records::synopsis_views(synopses@).len() == synopses.len());
        if synopses.len() > 0 {
            self.registry.hydrate_synopses(synopses);
        }
        self.force_publish = true;
    }

    /// Notes that the stored workload was brought within bounds.
    pub fn corpus_maintained(&mut self)
        ensures
            final(self)@ == (RunnerView { force_publish: true, ..old(self)@ }),
    {
        self.force_publish = true;
    }

    fn tick_survey(&mut self, can_survey: bool, now: u64) -> (request: Option<SurveyRequest>)
        ensures
            final(self)@ == old(self)@.survey_ticked(can_survey),
            match request {
                Some(request) => old(self)@.survey_is_due() && can_survey && request@
                    == old(self)@.registry.survey(old(self)@.config, now),
                None => !(old(self)@.survey_is_due() && can_survey),
            },
    {
        let ticks: u32 = self.ticks_since_survey.saturating_add(1);
        if ticks >= self.config.survey_every && !self.surveying {
            self.ticks_since_survey = 0;
            self.surveying = can_survey;
            if can_survey {
                return Some(self.registry.survey_request(&self.config, now));
            }
        } else {
            self.ticks_since_survey = ticks;
        }
        None
    }

    fn tick_flush(&mut self, flush_every: u32, sink_is_pending: bool) -> (batch: Option<
        StatisticsBatch,
    >)
        requires
            old(self)@.wf(),
        ensures
            final(self)@.wf(),
            final(self)@ == old(self)@.flush_ticked(flush_every, sink_is_pending),
            match batch {
                Some(batch) => old(self)@.flush_is_due(flush_every) && old(self)@.flush_is_needed(
                    sink_is_pending,
                ) && batch@ == old(self)@.registry.batch() && batch@.wf(),
                None => !(old(self)@.flush_is_due(flush_every) && old(self)@.flush_is_needed(
                    sink_is_pending,
                )),
            },
    {
        if !(self.has_sink && (!self.owns_stored_models || self.stored_models_loaded)) {
            return None;
        }
        let ticks: u32 = self.ticks_since_flush.saturating_add(1);
        if !(ticks >= flush_every && !self.flushing) {
            self.ticks_since_flush = ticks;
            return None;
        }
        self.ticks_since_flush = 0;
        let batch = self.registry.take_batch();
        if !batch.is_empty() || sink_is_pending {
            self.covered = copy_synopses(&batch.synopses);
            self.flushing = true;
            Some(batch)
        } else {
            None
        }
    }

    fn tick_refresh(&mut self) -> (refresh: bool)
        ensures
            final(self)@ == old(self)@.refresh_ticked(),
            refresh == old(self)@.refresh_is_due(),
    {
        if !self.has_source || self.owns_stored_models {
            return false;
        }
        let ticks: u32 = self.ticks_since_refresh.saturating_add(1);
        if ticks >= self.config.refresh_every && !self.refreshing {
            self.ticks_since_refresh = 0;
            self.refreshing = true;
            true
        } else {
            self.ticks_since_refresh = ticks;
            false
        }
    }

    /// Takes the snapshots to plan from and to look at.
    pub fn take_snapshots(
        &mut self,
        collector: CollectorReport,
        corpus_maintenance: Option<CorpusMaintenanceStats>,
        now: u64,
    )
        requires
            old(self)@.wf(),
        ensures
            final(self)@.wf(),
            final(self)@ == old(self)@.snapshots_taken(collector, corpus_maintenance, now),
    {
        let (planning, diagnostic) = runner_snapshots(
            &self.registry,
            &self.persisted,
            self.owns_stored_models,
            self.physical_cost.model(),
            collector,
            corpus_maintenance,
            now,
        );
        self.published_absorbed = self.registry.absorbed();
        self.published_collector = collector;
        self.published_corpus_maintenance = corpus_maintenance;
        self.force_publish = false;
        self.planning = planning;
        self.diagnostic = diagnostic;
    }

    fn tick_report(&mut self, telemetry: Option<PhysicalTelemetrySnapshot>)
        ensures
            final(self)@ == old(self)@.reported(
                match telemetry {
                    Some(telemetry) => Some(telemetry@),
                    None => None,
                },
            ),
    {
        if let Some(telemetry) = telemetry {
            if self.physical_cost.observe(telemetry) {
                self.force_publish = true;
            }
        }
    }

    fn tick_decay(&mut self)
        requires
            old(self)@.wf(),
        ensures
            final(self)@.wf(),
            final(self)@ == old(self)@.decay_ticked(),
    {
        let ticks: u32 = self.ticks_since_decay.saturating_add(1);
        self.ticks_since_decay = ticks;
        if ticks >= self.config.decay_every {
            self.registry.decay();
            self.ticks_since_decay = 0;
        }
    }

    fn tick_publish(
        &mut self,
        collector: CollectorReport,
        corpus_maintenance: Option<CorpusMaintenanceStats>,
        now: u64,
    ) -> (published: bool)
        requires
            old(self)@.wf(),
        ensures
            final(self)@.wf(),
            final(self)@ == old(self)@.publish_ticked(collector, corpus_maintenance, now),
            published == old(self)@.publish_is_due(collector, corpus_maintenance),
    {
        let published = self.registry.absorbed() != self.published_absorbed || !same_report(
            collector,
            self.published_collector,
        ) || !same_maintenance(corpus_maintenance, self.published_corpus_maintenance)
            || self.force_publish;
        if published {
            self.take_snapshots(collector, corpus_maintenance, now);
        }
        published
    }

    /// What is done on a tick.
    pub fn tick(&mut self, input: TickInput) -> (actions: TickActions)
        requires
            old(self)@.wf(),
        ensures
            final(self)@.wf(),
            final(self)@ == old(self)@.ticked(input@),
            ({
                let survey = old(self)@.before_survey(input@.telemetry);
                let flush = old(self)@.before_flush(input@.telemetry, input@.can_survey);
                let refresh = old(self)@.before_refresh(input@);
                let publish = old(self)@.before_publish(input@);
                &&& match actions.survey {
                    Some(request) => survey.survey_is_due() && input.can_survey && request@
                        == survey.registry.survey(survey.config, input.now),
                    None => !(survey.survey_is_due() && input.can_survey),
                }
                &&& match actions.flush {
                    Some(batch) => flush.flush_is_due(input.flush_every) && flush.flush_is_needed(
                        input.sink_is_pending,
                    ) && batch@ == flush.registry.batch() && batch@.wf(),
                    None => !(flush.flush_is_due(input.flush_every) && flush.flush_is_needed(
                        input.sink_is_pending,
                    )),
                }
                &&& actions.refresh == refresh.refresh_is_due()
                &&& actions.published == publish.publish_is_due(
                    input.collector,
                    input.corpus_maintenance,
                )
            }),
    {
        self.tick_report(input.telemetry);
        self.tick_decay();
        let survey = self.tick_survey(input.can_survey, input.now);
        let flush = self.tick_flush(input.flush_every, input.sink_is_pending);
        let refresh = self.tick_refresh();
        let published = self.tick_publish(input.collector, input.corpus_maintenance, input.now);
        TickActions { survey, flush, refresh, published }
    }

    /// What the live snapshots are named by, in canonical order.
    pub fn snapshot_records(&self) -> (canonical: CanonicalStats)
        ensures
            canonical@ == self@.diagnostic.canonical(),
    {
        self.diagnostic.canonical()
    }

    /// Names the live snapshots by the encodings of their canonical parts.
    pub fn identify(
        &mut self,
        models: &Vec<Vec<u8>>,
        synopses: &Vec<Vec<u8>>,
        workload_frequency: &Vec<u8>,
    )
        ensures
            final(self)@ == old(self)@.identified(
                identity::byte_views(models@),
                identity::byte_views(synopses@),
                workload_frequency@,
            ),
    {
        self.diagnostic.identify(models, synopses, workload_frequency);
        if self.owns_stored_models {
            self.planning.identify(models, synopses, workload_frequency);
        }
    }

    /// The snapshot to look at.
    pub fn stats(&self) -> (stats: &PlannerStats)
        ensures
            stats@ == self@.diagnostic,
    {
        &self.diagnostic
    }

    /// The snapshot to plan from.
    pub fn planning_stats(&self) -> (stats: &PlannerStats)
        ensures
            stats@ == self@.planning,
    {
        &self.planning
    }

    /// Takes what is left to be published when the runner stops.
    pub fn finish(&mut self) -> (batch: StatisticsBatch)
        requires
            old(self)@.wf(),
        ensures
            final(self)@.wf(),
            batch@ == old(self)@.registry.batch(),
            batch@.wf(),
            final(self)@ == (RunnerView {
                registry: old(self)@.registry.drained(),
                ..old(self)@
            }),
    {
        self.registry.take_batch()
    }
}

fn same_report(left: CollectorReport, right: CollectorReport) -> (same: bool)
    ensures
        same == (left == right),
{
    left.corpus_enabled == right.corpus_enabled && left.dropped == right.dropped
        && left.corpus_captured == right.corpus_captured && left.corpus_skipped_oversize
        == right.corpus_skipped_oversize && left.corpus_dropped_queue == right.corpus_dropped_queue
}

fn same_maintenance(
    left: Option<CorpusMaintenanceStats>,
    right: Option<CorpusMaintenanceStats>,
) -> (same: bool)
    ensures
        same == (left == right),
{
    match (left, right) {
        (Some(left), Some(right)) => left == right,
        (None, None) => true,
        _ => false,
    }
}

fn merge_families(registry: &mut HotRegistry, batch: &ObservationBatch, now: u64)
    requires
        old(registry)@.wf(),
    ensures
        final(registry)@.wf(),
        final(registry)@ == families_merged(
            old(registry)@,
            batch@.families,
            batch@.sent_at_micros,
            now,
        ),
{
    let ghost start = registry@;
    let ghost all = batch@.families;
    let mut i: usize = 0;
    assert(all.take(0) =~= Seq::empty());
    while i < batch.families.len()
        invariant
            i <= batch.families.len(),
            all == crate::scheduler::model::model_views(batch.families@),
            registry@.wf(),
            registry@ == families_merged(start, all.take(i as int), batch@.sent_at_micros, now),
        decreases batch.families.len() - i,
    {
        proof {
            assert(all.take(i + 1).drop_last() =~= all.take(i as int));
            assert(all.take(i + 1).last() == batch.families@[i as int]@);
        }
        let family = &batch.families[i];
        registry.merge_relayed(family.family, family, batch.age_of(family), now);
        i += 1;
    }
    assert(all.take(i as int) =~= all);
}

fn merge_appearances(registry: &mut HotRegistry, batch: &ObservationBatch)
    requires
        old(registry)@.wf(),
    ensures
        final(registry)@.wf(),
        final(registry)@ == appearances_merged(old(registry)@, batch@.frequency),
{
    let ghost start = registry@;
    let mut i: usize = 0;
    assert(batch.frequency@.take(0) =~= Seq::empty());
    while i < batch.frequency.len()
        invariant
            i <= batch.frequency.len(),
            registry@.wf(),
            registry@ == appearances_merged(start, batch.frequency@.take(i as int)),
        decreases batch.frequency.len() - i,
    {
        proof {
            assert(batch.frequency@.take(i + 1).drop_last() =~= batch.frequency@.take(i as int));
        }
        registry.merge_relayed_frequency(batch.frequency[i].0, batch.frequency[i].1);
        i += 1;
    }
    assert(batch.frequency@.take(i as int) =~= batch.frequency@);
}

fn adopt_programs(registry: &mut HotRegistry, batch: &ObservationBatch)
    requires
        old(registry)@.wf(),
    ensures
        final(registry)@.wf(),
        final(registry)@ == programs_adopted(old(registry)@, batch@.corpus),
{
    let ghost start = registry@;
    let ghost all = batch@.corpus;
    let mut i: usize = 0;
    assert(all.take(0) =~= Seq::empty());
    while i < batch.corpus.len()
        invariant
            i <= batch.corpus.len(),
            all == records::program_views(batch.corpus@),
            registry@.wf(),
            registry@ == programs_adopted(start, all.take(i as int)),
        decreases batch.corpus.len() - i,
    {
        proof {
            assert(all.take(i + 1).drop_last() =~= all.take(i as int));
            assert(all.take(i + 1).last() == batch.corpus@[i as int]@);
        }
        registry.absorb_relayed_program(batch.corpus[i].copy());
        i += 1;
    }
    assert(all.take(i as int) =~= all);
}

/// Whether publication goes on when the runner stops: while something is left,
/// here or in the sink.
pub fn publication_continues(batch: &StatisticsBatch, sink_is_pending: bool) -> (continues: bool)
    ensures
        continues == (!batch@.is_empty() || sink_is_pending),
{
    !batch.is_empty() || sink_is_pending
}

/// What is published next when the runner stops: nothing new after a success, a
/// batch that came back while the sink holds another, and no more otherwise.
pub fn next_publication(result: Result<(), StatisticsBatch>, sink_is_pending: bool) -> (next: Option<
    StatisticsBatch,
>)
    ensures
        match result {
            Ok(_) => next is Some && next->0@ == BatchView::empty(),
            Err(batch) => if sink_is_pending {
                next == Some(batch)
            } else {
                next is None
            },
        },
{
    match result {
        Ok(_) => Some(StatisticsBatch::default()),
        Err(batch) => if sink_is_pending {
            Some(batch)
        } else {
            None
        },
    }
}

// ---- what the runner promises ----

/// An owner publishes nothing before it has loaded what it continues, so no
/// restart replaces what was stored.
pub proof fn owners_load_before_they_publish(
    runner: RunnerView,
    flush_every: u32,
    sink_is_pending: bool,
)
    requires
        runner.owns_stored_models,
        !runner.stored_models_loaded,
    ensures
        runner.flush_ticked(flush_every, sink_is_pending) == runner,
{
}

/// One publication runs at a time, and while it runs nothing leaves the
/// registry.
pub proof fn publications_do_not_overlap(
    runner: RunnerView,
    flush_every: u32,
    sink_is_pending: bool,
)
    requires
        runner.flushing,
    ensures
        runner.flush_ticked(flush_every, sink_is_pending).registry == runner.registry,
        runner.flush_ticked(flush_every, sink_is_pending).flushing,
{
}

/// Loading what is stored never enters what an instance that does not own it
/// has gathered: its models stay as they are.
pub proof fn readers_keep_stored_models_apart(runner: RunnerView, snapshot: PersistedView)
    requires
        !runner.owns_stored_models,
    ensures
        runner.refreshed(snapshot).registry.models == runner.registry.models,
        runner.refreshed(snapshot).registry.pending == runner.registry.pending,
        runner.refreshed(snapshot).persisted == snapshot,
{
}

/// Loading what is stored puts nothing of it into the next publication: what
/// reached the store is not sent there again.
pub proof fn hydration_publishes_nothing(registry: RegistryView, stored: Seq<ModelView>)
    ensures
        registry.hydrated(stored).pending == registry.pending,
        registry.hydrated(stored).pending_frequency == registry.pending_frequency,
    decreases stored.len(),
{
    if !(stored.len() == 0 || !registry::has_model(registry.models, stored.first().id())
        && registry.models.len() >= registry.capacity) {
        hydration_publishes_nothing(registry.hydrated_one(stored.first()), stored.skip(1));
    }
}

/// What an owner plans from after a publication has the parts that it is named
/// by.
pub proof fn owners_plan_from_what_is_named(
    runner: RunnerView,
    collector: CollectorReport,
    maintenance: Option<CorpusMaintenanceStats>,
    now: u64,
    models: Seq<Seq<u8>>,
    synopses: Seq<Seq<u8>>,
    workload_frequency: Seq<u8>,
)
    requires
        runner.owns_stored_models,
    ensures
        ({
            let taken = runner.snapshots_taken(collector, maintenance, now);
            let named = taken.identified(models, synopses, workload_frequency);
            &&& named.planning == named.diagnostic
            &&& named.planning.canonical() == taken.diagnostic.canonical()
            &&& named.planning.snapshot_identity == identity::snapshot_identity(
                "rad-planner-statistics-v1"@,
                planner::planner_records(models, synopses, workload_frequency),
            )
        }),
{
}

// ---- what holds over all that happens to a runner ----

/// What can happen to a runner.
pub enum RunnerStep {
    /// An execution, with the moving means after it.
    Observed { observation: ObservationView, now: u64, mean: u64, pending_mean: u64 },
    Captured(ProgramView),
    Relayed { batch: WireView, now: u64 },
    Surveyed(Option<(SynopsisView, u64)>),
    Flushed(Option<BatchView>),
    Refreshed(PersistedView),
    CorpusMaintained,
    Ticked(TickView),
}

impl RunnerView {
    /// After a step.
    pub open spec fn stepped(self, step: RunnerStep) -> RunnerView {
        match step {
            RunnerStep::Observed { observation, now, mean, pending_mean } => RunnerView {
                registry: self.registry.absorbed_with(observation, now, mean, pending_mean),
                ..self
            },
            RunnerStep::Captured(record) => RunnerView {
                registry: self.registry.program_absorbed(record),
                ..self
            },
            RunnerStep::Relayed { batch, now } => self.relayed(batch, now),
            RunnerStep::Surveyed(result) => self.surveyed(result),
            RunnerStep::Flushed(returned) => self.flushed(returned),
            RunnerStep::Refreshed(snapshot) => self.refreshed(snapshot),
            RunnerStep::CorpusMaintained => RunnerView { force_publish: true, ..self },
            RunnerStep::Ticked(input) => self.ticked(input),
        }
    }

    /// Whether a step can come now: a survey ends that was asked for, and what is
    /// stored comes from a source.
    pub open spec fn may_step(self, step: RunnerStep) -> bool {
        match step {
            RunnerStep::Surveyed(_) => self.surveying,
            RunnerStep::Refreshed(_) => self.has_source,
            _ => true,
        }
    }

    /// After steps.
    pub open spec fn all_stepped(self, steps: Seq<RunnerStep>) -> RunnerView
        decreases steps.len(),
    {
        if steps.len() == 0 {
            self
        } else {
            self.all_stepped(steps.drop_last()).stepped(steps.last())
        }
    }

    /// Whether each of the steps can come in its turn.
    pub open spec fn may_take(self, steps: Seq<RunnerStep>) -> bool
        decreases steps.len(),
    {
        steps.len() > 0 ==> self.may_take(steps.drop_last()) && self.all_stepped(
            steps.drop_last(),
        ).may_step(steps.last())
    }

    /// Whether nothing was surveyed and no survey runs.
    pub open spec fn is_unsurveyed(self) -> bool {
        &&& !self.surveying
        &&& self.registry.synopses.len() == 0
        &&& self.persisted.synopses.len() == 0
        &&& self.planning.synopsis_models.len() == 0
        &&& self.diagnostic.synopsis_models.len() == 0
    }
}

/// Whether a tick finds an engine that may not write, or none.
pub open spec fn finds_no_writer(step: RunnerStep) -> bool {
    step matches RunnerStep::Ticked(input) ==> !input.can_survey
}

proof fn lemma_subtrees_keep_synopses(
    registry: RegistryView,
    subtrees: Seq<RelationFingerprints>,
)
    ensures
        registry.subtrees_appeared(subtrees).synopses == registry.synopses,
    decreases subtrees.len(),
{
    if subtrees.len() > 0 {
        lemma_subtrees_keep_synopses(registry, subtrees.drop_last());
    }
}

proof fn lemma_relations_keep_synopses(
    registry: RegistryView,
    relations: Seq<RelationObservation>,
    stamp: DependencyStamp,
    at: u64,
)
    ensures
        registry.relations_absorbed(relations, stamp, at).synopses == registry.synopses,
    decreases relations.len(),
{
    if relations.len() > 0 {
        lemma_relations_keep_synopses(registry, relations.drop_last(), stamp, at);
    }
}

proof fn lemma_families_keep_synopses(
    registry: RegistryView,
    families: Seq<ModelView>,
    sent_at: u64,
    now: u64,
)
    ensures
        families_merged(registry, families, sent_at, now).synopses == registry.synopses,
    decreases families.len(),
{
    if families.len() > 0 {
        lemma_families_keep_synopses(registry, families.drop_last(), sent_at, now);
    }
}

proof fn lemma_appearances_keep_synopses(
    registry: RegistryView,
    counts: Seq<(Fingerprint, u32)>,
)
    ensures
        appearances_merged(registry, counts).synopses == registry.synopses,
    decreases counts.len(),
{
    if counts.len() > 0 {
        lemma_appearances_keep_synopses(registry, counts.drop_last());
    }
}

proof fn lemma_programs_keep_synopses(registry: RegistryView, programs: Seq<ProgramView>)
    ensures
        programs_adopted(registry, programs).synopses == registry.synopses,
    decreases programs.len(),
{
    if programs.len() > 0 {
        lemma_programs_keep_synopses(registry, programs.drop_last());
    }
}

proof fn lemma_frequency_keeps_synopses(
    registry: RegistryView,
    counts: Seq<(Fingerprint, u32)>,
    age: u64,
)
    ensures
        registry.frequency_returned(counts, age).synopses == registry.synopses,
    decreases counts.len(),
{
    if counts.len() > 0 {
        lemma_frequency_keeps_synopses(registry, counts.drop_last(), age);
    }
}

proof fn lemma_deltas_keep_synopses(
    registry: RegistryView,
    deltas: Seq<(Fingerprint, ModelView)>,
)
    ensures
        registry.deltas_returned(deltas).synopses == registry.synopses,
    decreases deltas.len(),
{
    if deltas.len() > 0 {
        lemma_deltas_keep_synopses(registry, deltas.drop_last());
    }
}

proof fn lemma_returned_programs_keep_synopses(
    registry: RegistryView,
    programs: Seq<ProgramView>,
)
    ensures
        registry.programs_returned(programs).synopses == registry.synopses,
    decreases programs.len(),
{
    if programs.len() > 0 {
        let next = if registry.pending_programs.len() >= registry::MAX_PENDING_PROGRAMS {
            RegistryView { corpus_shed: registry.corpus_shed.saturating_add(1), ..registry }
        } else {
            RegistryView {
                pending_programs: seq![programs.last()] + registry.pending_programs,
                ..registry
            }
        };
        lemma_returned_programs_keep_synopses(next, programs.drop_last());
    }
}

proof fn lemma_returned_keeps_synopses(registry: RegistryView, batch: BatchView)
    ensures
        registry.returned(batch).synopses == registry.synopses,
{
    let changed = RegistryView {
        table_change_deltas: records::all_counted(
            registry.table_change_deltas,
            batch.table_changes,
        ),
        ..registry
    };
    let age = registry.frequency_epoch.saturating_sub(batch.frequency_epoch);
    lemma_frequency_keeps_synopses(changed, batch.frequency, age);
    let counted = changed.frequency_returned(batch.frequency, age);
    let due = RegistryView {
        pending_frequency_decays: counted.pending_frequency_decays.saturating_add(
            batch.frequency_decays,
        ),
        ..counted
    };
    lemma_deltas_keep_synopses(due, batch.models);
    lemma_returned_programs_keep_synopses(due.deltas_returned(batch.models), batch.programs);
}

proof fn lemma_observed_keeps_synopses(
    registry: RegistryView,
    observation: ObservationView,
    now: u64,
    mean: u64,
    pending_mean: u64,
)
    ensures
        registry.absorbed_with(observation, now, mean, pending_mean).synopses.len()
            == registry.synopses.len(),
{
    let counted = RegistryView { absorbed: registry.absorbed.saturating_add(1), ..registry };
    let changed = match observation.mutated {
        Some(table) => if observation.affected > 0 {
            counted.table_changed(table, observation.affected)
        } else {
            counted
        },
        None => counted,
    };
    lemma_subtrees_keep_synopses(changed, observation.subtrees);
    let seen = changed.subtrees_appeared(observation.subtrees);
    let all_seen = if registry::names_family(observation.subtrees, observation.family) {
        seen
    } else {
        seen.appeared(observation.family, 1)
    };
    lemma_relations_keep_synopses(all_seen, observation.relations, observation.stamp, now);
}

proof fn lemma_stored_keep_synopses(stats: StatsView, models: Seq<ModelView>)
    ensures
        stats.with_all_stored(models).synopsis_models == stats.synopsis_models,
    decreases models.len(),
{
    if models.len() > 0 {
        lemma_stored_keep_synopses(stats, models.drop_last());
    }
}

proof fn lemma_snapshots_hold_the_synopses(
    runner: RunnerView,
    collector: CollectorReport,
    maintenance: Option<CorpusMaintenanceStats>,
    now: u64,
)
    ensures
        ({
            let taken = runner.snapshots_taken(collector, maintenance, now);
            &&& taken.diagnostic.synopsis_models == runner.registry.synopses
            &&& taken.planning.synopsis_models == (if runner.owns_stored_models {
                runner.registry.synopses
            } else {
                records::synopses_by_table(runner.persisted.synopses)
            })
        }),
{
    let known = planner::distilled(runner.registry, collector, now);
    lemma_stored_keep_synopses(
        StatsView {
            physical_cost: physical::cost_model(runner.physical_cost),
            corpus: planner::CorpusCaptureStats { maintenance, ..known.corpus },
            ..known
        },
        runner.persisted.models,
    );
    lemma_stored_keep_synopses(
        StatsView {
            snapshot_identity: runner.persisted.identity,
            scope: planner::StatisticsScope::Persisted,
            published_at: now,
            synopsis_models: records::synopses_by_table(runner.persisted.synopses),
            ..StatsView::empty()
        },
        runner.persisted.models,
    );
}

proof fn lemma_ticks_survey_nothing(runner: RunnerView, input: TickView)
    requires
        runner.is_unsurveyed(),
        !input.can_survey,
    ensures
        runner.ticked(input).is_unsurveyed(),
        runner.ticked(input).has_source == runner.has_source,
{
    let ready = runner.before_publish(input);
    assert(ready.is_unsurveyed());
    lemma_snapshots_hold_the_synopses(
        ready,
        input.collector,
        input.corpus_maintenance,
        input.now,
    );
    assert(records::synopses_by_table(ready.persisted.synopses).len() == 0);
}

/// An instance without a source whose engine may not write never surveys, and has
/// no synopses, whatever it observes, adopts and publishes.
pub proof fn readers_never_survey(runner: RunnerView, steps: Seq<RunnerStep>)
    requires
        !runner.has_source,
        runner.is_unsurveyed(),
        runner.may_take(steps),
        forall|i: int| 0 <= i < steps.len() ==> finds_no_writer(#[trigger] steps[i]),
    ensures
        runner.all_stepped(steps).is_unsurveyed(),
        !runner.all_stepped(steps).has_source,
    decreases steps.len(),
{
    if steps.len() > 0 {
        let before = runner.all_stepped(steps.drop_last());
        assert forall|i: int| 0 <= i < steps.drop_last().len() implies finds_no_writer(
            #[trigger] steps.drop_last()[i],
        ) by {
            assert(steps.drop_last()[i] == steps[i]);
        }
        readers_never_survey(runner, steps.drop_last());
        assert(finds_no_writer(steps[steps.len() - 1]));
        match steps.last() {
            RunnerStep::Observed { observation, now, mean, pending_mean } => {
                lemma_observed_keeps_synopses(
                    before.registry,
                    observation,
                    now,
                    mean,
                    pending_mean,
                );
            },
            RunnerStep::Relayed { batch, now } => {
                let families = families_merged(
                    before.registry,
                    batch.families,
                    batch.sent_at_micros,
                    now,
                );
                lemma_families_keep_synopses(
                    before.registry,
                    batch.families,
                    batch.sent_at_micros,
                    now,
                );
                lemma_appearances_keep_synopses(families, batch.frequency);
                lemma_programs_keep_synopses(
                    appearances_merged(families, batch.frequency),
                    batch.corpus,
                );
            },
            RunnerStep::Flushed(Some(batch)) => {
                lemma_returned_keeps_synopses(before.registry, batch);
            },
            RunnerStep::Ticked(input) => {
                lemma_ticks_survey_nothing(before, input);
            },
            _ => {},
        }
    }
}

/// A survey is asked for within as many ticks as the configuration says, where
/// each finds an engine that may write and none runs.
pub proof fn writers_survey_in_time(runner: RunnerView, ticks: Seq<TickView>)
    requires
        !runner.surveying,
        ticks.len() > 0,
        ticks.len() + runner.ticks_since_survey >= runner.config.survey_every,
        ticks.len() <= u32::MAX,
        forall|i: int| 0 <= i < ticks.len() ==> (#[trigger] ticks[i]).can_survey,
    ensures
        exists|i: int|
            0 <= i < ticks.len() && #[trigger] after_ticks(runner, ticks.take(i)).before_survey(
                ticks[i].telemetry,
            ).survey_is_due(),
    decreases ticks.len(),
{
    let first = ticks[0];
    assert(ticks.take(0) =~= Seq::empty());
    assert(after_ticks(runner, ticks.take(0)) == runner);
    if runner.before_survey(first.telemetry).survey_is_due() {
    } else {
        let next = runner.ticked(first);
        let rest = ticks.skip(1);
        assert(!next.surveying);
        assert(next.config == runner.config);
        assert forall|i: int| 0 <= i < rest.len() implies (#[trigger] rest[i]).can_survey by {
            assert(rest[i] == ticks[i + 1]);
        }
        writers_survey_in_time(next, rest);
        let i = choose|i: int|
            0 <= i < rest.len() && #[trigger] after_ticks(next, rest.take(i)).before_survey(
                rest[i].telemetry,
            ).survey_is_due();
        lemma_first_tick(runner, ticks.take(i + 1));
        assert(ticks.take(i + 1).skip(1) =~= rest.take(i));
        assert(ticks.take(i + 1)[0] == first);
        assert(rest[i] == ticks[i + 1]);
        assert(after_ticks(runner, ticks.take(i + 1)).before_survey(
            ticks[i + 1].telemetry,
        ).survey_is_due());
    }
}

/// A runner after ticks.
pub open spec fn after_ticks(runner: RunnerView, ticks: Seq<TickView>) -> RunnerView
    decreases ticks.len(),
{
    if ticks.len() == 0 {
        runner
    } else {
        after_ticks(runner, ticks.drop_last()).ticked(ticks.last())
    }
}

proof fn lemma_first_tick(runner: RunnerView, ticks: Seq<TickView>)
    requires
        ticks.len() > 0,
    ensures
        after_ticks(runner, ticks) == after_ticks(runner.ticked(ticks[0]), ticks.skip(1)),
    decreases ticks.len(),
{
    if ticks.len() == 1 {
        assert(ticks.drop_last() =~= Seq::empty());
        assert(ticks.skip(1) =~= Seq::empty());
        assert(after_ticks(runner, ticks.drop_last()) == runner);
    } else {
        lemma_first_tick(runner, ticks.drop_last());
        assert(ticks.drop_last().skip(1) =~= ticks.skip(1).drop_last());
        assert(ticks.skip(1).last() == ticks.last());
    }
}

/// What a survey found is in the snapshots of the next tick.
pub proof fn surveys_are_published(
    runner: RunnerView,
    synopsis: SynopsisView,
    covered: u64,
    input: TickView,
)
    ensures
        ({
            let next = runner.surveyed(Some((synopsis, covered))).ticked(input);
            let place = records::synopsis_place(
                next.diagnostic.synopsis_models,
                synopsis.table,
                0,
            ) as int;
            &&& place < next.diagnostic.synopsis_models.len()
            &&& next.diagnostic.synopsis_models[place].table == synopsis.table
            &&& next.diagnostic.synopsis_models[place].distributions == synopsis.distributions
        }),
{
    let surveyed = runner.surveyed(Some((synopsis, covered)));
    let ready = surveyed.before_publish(input);
    assert(ready.registry.synopses == surveyed.registry.synopses);
    assert(ready.force_publish);
    lemma_snapshots_hold_the_synopses(
        ready,
        input.collector,
        input.corpus_maintenance,
        input.now,
    );
    let entered = match records::count_of(runner.registry.survey_changes, synopsis.table) {
        Some(changes) => SynopsisView {
            changes_since_collection: changes.saturating_sub(covered),
            ..synopsis
        },
        None => synopsis,
    };
    records::lemma_synopsis_entered(runner.registry.synopses, entered);
}

} // verus!
