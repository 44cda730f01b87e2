//! Snapshots that plans are made from: what is known of each family, distilled.

use vstd::prelude::*;

use crate::scheduler::evidence;
use crate::scheduler::evidence::{
    DependencyStamp, KvResourceDistribution, PlanProfile, ProfileView, ResourcesView,
};
use crate::scheduler::identity;
use crate::scheduler::model;
use crate::scheduler::model::{
    copy_plans, copy_profiles, ModelView, ObservationModelKind, QueryModel,
};
use crate::scheduler::physical::{CostModelView, PhysicalCostModel};
use crate::scheduler::records;
use crate::scheduler::records::{copy_synopses, SynopsisModel, SynopsisView};
use crate::scheduler::registry::{HotRegistry, RegistryView};
use crate::scheduler::sketches::{Fingerprint, FrequencySketch, SketchView};
use crate::scheduler::sorting;
use crate::scheduler::sorting::{sorted_order, Key};

verus! {

/// What is known of a family when a plan is made.
#[derive(Debug, PartialEq)]
pub struct FeedbackModel {
    pub family: Fingerprint,
    pub retained_executions: u64,
    pub exact_variants: u64,
    pub last_seen: u64,
    pub rows_p50_upper_bound: u64,
    pub rows_p95_upper_bound: u64,
    pub rows_max: u64,
    pub execute_micros_p50_upper_bound: u64,
    pub execute_micros_p95_upper_bound: u64,
    pub duration_ewma_bits: u64,
    pub plans: Vec<(Fingerprint, u64)>,
    pub plan_profiles: Vec<PlanProfile>,
    pub resources: KvResourceDistribution,
    pub stamp: DependencyStamp,
    pub executions_with_estimate: u64,
    pub q_error_p50_upper_bound_x100: u64,
    pub q_error_p95_upper_bound_x100: u64,
    pub q_error_max_x100: u64,
}

/// The value of a [`FeedbackModel`].
#[verifier::ext_equal]
pub struct FeedbackView {
    pub family: Fingerprint,
    pub retained_executions: u64,
    pub exact_variants: u64,
    pub last_seen: u64,
    pub rows_p50_upper_bound: u64,
    pub rows_p95_upper_bound: u64,
    pub rows_max: u64,
    pub execute_micros_p50_upper_bound: u64,
    pub execute_micros_p95_upper_bound: u64,
    pub duration_ewma_bits: u64,
    pub plans: Seq<(Fingerprint, u64)>,
    pub plan_profiles: Seq<ProfileView>,
    pub resources: ResourcesView,
    pub stamp: DependencyStamp,
    pub executions_with_estimate: u64,
    pub q_error_p50_upper_bound_x100: u64,
    pub q_error_p95_upper_bound_x100: u64,
    pub q_error_max_x100: u64,
}

impl View for FeedbackModel {
    type V = FeedbackView;

    open spec fn view(&self) -> FeedbackView {
        FeedbackView {
            family: self.family,
            retained_executions: self.retained_executions,
            exact_variants: self.exact_variants,
            last_seen: self.last_seen,
            rows_p50_upper_bound: self.rows_p50_upper_bound,
            rows_p95_upper_bound: self.rows_p95_upper_bound,
            rows_max: self.rows_max,
            execute_micros_p50_upper_bound: self.execute_micros_p50_upper_bound,
            execute_micros_p95_upper_bound: self.execute_micros_p95_upper_bound,
            duration_ewma_bits: self.duration_ewma_bits,
            plans: self.plans@,
            plan_profiles: evidence::profile_views(self.plan_profiles@),
            resources: self.resources@,
            stamp: self.stamp,
            executions_with_estimate: self.executions_with_estimate,
            q_error_p50_upper_bound_x100: self.q_error_p50_upper_bound_x100,
            q_error_p95_upper_bound_x100: self.q_error_p95_upper_bound_x100,
            q_error_max_x100: self.q_error_max_x100,
        }
    }
}

pub open spec fn feedback_views(models: Seq<FeedbackModel>) -> Seq<FeedbackView> {
    Seq::new(models.len(), |i: int| models[i]@)
}

/// What a model says when a plan is made.
pub open spec fn feedback_of(model: ModelView) -> FeedbackView {
    FeedbackView {
        family: model.family,
        retained_executions: model.executions,
        exact_variants: model.exact_variants.len() as u64,
        last_seen: model.last_seen,
        rows_p50_upper_bound: model.rows.quantile(50),
        rows_p95_upper_bound: model.rows.quantile(95),
        rows_max: model.rows.maximum,
        execute_micros_p50_upper_bound: model.execute_micros.quantile(50),
        execute_micros_p95_upper_bound: model.execute_micros.quantile(95),
        duration_ewma_bits: model.duration_ewma_bits,
        plans: model.plans,
        plan_profiles: model.plan_profiles,
        resources: model.resources,
        stamp: model.stamp,
        executions_with_estimate: model.estimated_executions,
        q_error_p50_upper_bound_x100: model.q_errors.quantile(50),
        q_error_p95_upper_bound_x100: model.q_errors.quantile(95),
        q_error_max_x100: model.q_error_max_x100,
    }
}

/// What a model says when a plan is made.
pub fn feedback_from_model(model: &QueryModel) -> (feedback: FeedbackModel)
    ensures
        feedback@ == feedback_of(model@),
{
    FeedbackModel {
        family: model.family,
        retained_executions: model.executions,
        exact_variants: model.exact_variants.estimate(),
        last_seen: model.last_seen,
        rows_p50_upper_bound: model.rows.quantile_upper_bound(50),
        rows_p95_upper_bound: model.rows.quantile_upper_bound(95),
        rows_max: model.rows.maximum(),
        execute_micros_p50_upper_bound: model.execute_micros.quantile_upper_bound(50),
        execute_micros_p95_upper_bound: model.execute_micros.quantile_upper_bound(95),
        duration_ewma_bits: model.duration_ewma_bits,
        plans: copy_plans(&model.plans),
        plan_profiles: copy_profiles(&model.plan_profiles),
        resources: model.resources,
        stamp: model.stamp,
        executions_with_estimate: model.estimated_executions,
        q_error_p50_upper_bound_x100: model.q_errors.quantile_upper_bound(50),
        q_error_p95_upper_bound_x100: model.q_errors.quantile_upper_bound(95),
        q_error_max_x100: model.q_error_max_x100,
    }
}

impl FeedbackModel {
    /// A copy of what is known.
    pub fn copy(&self) -> (feedback: FeedbackModel)
        ensures
            feedback@ == self@,
    {
        FeedbackModel {
            family: self.family,
            retained_executions: self.retained_executions,
            exact_variants: self.exact_variants,
            last_seen: self.last_seen,
            rows_p50_upper_bound: self.rows_p50_upper_bound,
            rows_p95_upper_bound: self.rows_p95_upper_bound,
            rows_max: self.rows_max,
            execute_micros_p50_upper_bound: self.execute_micros_p50_upper_bound,
            execute_micros_p95_upper_bound: self.execute_micros_p95_upper_bound,
            duration_ewma_bits: self.duration_ewma_bits,
            plans: copy_plans(&self.plans),
            plan_profiles: copy_profiles(&self.plan_profiles),
            resources: self.resources,
            stamp: self.stamp,
            executions_with_estimate: self.executions_with_estimate,
            q_error_p50_upper_bound_x100: self.q_error_p50_upper_bound_x100,
            q_error_p95_upper_bound_x100: self.q_error_p95_upper_bound_x100,
            q_error_max_x100: self.q_error_max_x100,
        }
    }
}

/// What became of the stored workload.
#[derive(Clone, Copy, Debug, PartialEq, Eq, Structural)]
pub struct CorpusMaintenanceStats {
    pub expired_executions: u64,
    pub pruned_executions: u64,
    pub invalid_executions: u64,
    pub pruned_programs: u64,
    pub invalid_programs: u64,
    pub retained_executions: u64,
    pub retained_programs: u64,
    pub retained_program_bytes: u64,
    pub erased_executions: u64,
    pub erased_programs: u64,
}

impl Default for CorpusMaintenanceStats {
    fn default() -> (stats: CorpusMaintenanceStats)
        ensures
            stats == (CorpusMaintenanceStats {
                expired_executions: 0,
                pruned_executions: 0,
                invalid_executions: 0,
                pruned_programs: 0,
                invalid_programs: 0,
                retained_executions: 0,
                retained_programs: 0,
                retained_program_bytes: 0,
                erased_executions: 0,
                erased_programs: 0,
            }),
    {
        CorpusMaintenanceStats {
            expired_executions: 0,
            pruned_executions: 0,
            invalid_executions: 0,
            pruned_programs: 0,
            invalid_programs: 0,
            retained_executions: 0,
            retained_programs: 0,
            retained_program_bytes: 0,
            erased_executions: 0,
            erased_programs: 0,
        }
    }
}

/// What became of captured programs.
#[derive(Clone, Copy, Debug, PartialEq, Eq, Structural)]
pub struct CorpusCaptureStats {
    pub enabled: bool,
    pub captured: u64,
    pub skipped_oversize: u64,
    pub dropped_queue: u64,
    pub shed_pending: u64,
    pub maintenance: Option<CorpusMaintenanceStats>,
}

/// What a collector did.
#[derive(Clone, Copy, Debug, PartialEq, Eq, Structural)]
pub struct CollectorReport {
    pub corpus_enabled: bool,
    pub dropped: u64,
    pub corpus_captured: u64,
    pub corpus_skipped_oversize: u64,
    pub corpus_dropped_queue: u64,
}

impl Default for CollectorReport {
    fn default() -> (report: CollectorReport)
        ensures
            report == (CollectorReport {
                corpus_enabled: false,
                dropped: 0,
                corpus_captured: 0,
                corpus_skipped_oversize: 0,
                corpus_dropped_queue: 0,
            }),
    {
        CollectorReport {
            corpus_enabled: false,
            dropped: 0,
            corpus_captured: 0,
            corpus_skipped_oversize: 0,
            corpus_dropped_queue: 0,
        }
    }
}

/// Whose evidence a snapshot holds.
#[derive(Clone, Copy, Debug, PartialEq, Eq, Structural)]
pub enum StatisticsScope {
    Empty,
    WriterLive,
    ReaderDiagnostic,
    Persisted,
}

/// A snapshot that plans are made from.
#[derive(Debug, PartialEq)]
pub struct PlannerStats {
    pub snapshot_identity: String,
    pub scope: StatisticsScope,
    pub feedback_models: Vec<FeedbackModel>,
    pub statement_models: Vec<FeedbackModel>,
    pub synopsis_models: Vec<SynopsisModel>,
    pub workload_frequency: FrequencySketch,
    pub corpus: CorpusCaptureStats,
    pub physical_cost: Option<PhysicalCostModel>,
    pub absorbed: u64,
    pub dropped: u64,
    pub shed: u64,
    pub evicted: u64,
    pub relayed: u64,
    pub relayed_corpus: u64,
    pub relayed_stale: u64,
    pub published_at: u64,
}

/// The value of a [`PlannerStats`].
#[verifier::ext_equal]
pub struct StatsView {
    pub snapshot_identity: Seq<char>,
    pub scope: StatisticsScope,
    pub feedback_models: Seq<FeedbackView>,
    pub statement_models: Seq<FeedbackView>,
    pub synopsis_models: Seq<SynopsisView>,
    pub workload_frequency: SketchView,
    pub corpus: CorpusCaptureStats,
    pub physical_cost: Option<CostModelView>,
    pub absorbed: u64,
    pub dropped: u64,
    pub shed: u64,
    pub evicted: u64,
    pub relayed: u64,
    pub relayed_corpus: u64,
    pub relayed_stale: u64,
    pub published_at: u64,
}

pub open spec fn cost_view(cost: Option<PhysicalCostModel>) -> Option<CostModelView> {
    match cost {
        Some(cost) => Some(cost@),
        None => None,
    }
}

impl View for PlannerStats {
    type V = StatsView;

    open spec fn view(&self) -> StatsView {
        StatsView {
            snapshot_identity: self.snapshot_identity@,
            scope: self.scope,
            feedback_models: feedback_views(self.feedback_models@),
            statement_models: feedback_views(self.statement_models@),
            synopsis_models: records::synopsis_views(self.synopsis_models@),
            workload_frequency: self.workload_frequency@,
            corpus: self.corpus,
            physical_cost: cost_view(self.physical_cost),
            absorbed: self.absorbed,
            dropped: self.dropped,
            shed: self.shed,
            evicted: self.evicted,
            relayed: self.relayed,
            relayed_corpus: self.relayed_corpus,
            relayed_stale: self.relayed_stale,
            published_at: self.published_at,
        }
    }
}

/// Where what is known of a family stands, from a place on; the end where
/// nothing is.
pub open spec fn feedback_place(models: Seq<FeedbackView>, family: Fingerprint, from: nat) -> nat
    decreases models.len() - from,
{
    if from < models.len() && models[from as int].family != family {
        feedback_place(models, family, from + 1)
    } else {
        from
    }
}

/// What is known with one family entered; it replaces what was known of it.
pub open spec fn feedback_entered(models: Seq<FeedbackView>, feedback: FeedbackView) -> Seq<
    FeedbackView,
> {
    let place = feedback_place(models, feedback.family, 0) as int;
    if place < models.len() {
        models.update(place, feedback)
    } else {
        models.push(feedback)
    }
}

/// What the models of one kind say.
pub open spec fn feedback_of_kind(models: Seq<ModelView>, kind: ObservationModelKind) -> Seq<
    FeedbackView,
>
    decreases models.len(),
{
    if models.len() == 0 {
        Seq::empty()
    } else {
        let before = feedback_of_kind(models.drop_last(), kind);
        if models.last().kind == kind {
            before.push(feedback_of(models.last()))
        } else {
            before
        }
    }
}

/// A sketch in which a run of families was seen at least as often as given.
pub open spec fn all_raised(sketch: SketchView, counts: Seq<(Fingerprint, u32)>) -> SketchView
    decreases counts.len(),
{
    if counts.len() == 0 {
        sketch
    } else {
        all_raised(sketch, counts.drop_last()).raised(counts.last().0, counts.last().1)
    }
}

/// What is known of captured programs.
pub open spec fn capture_of(registry: RegistryView, collector: CollectorReport) -> CorpusCaptureStats {
    CorpusCaptureStats {
        enabled: collector.corpus_enabled,
        captured: collector.corpus_captured,
        skipped_oversize: collector.corpus_skipped_oversize,
        dropped_queue: collector.corpus_dropped_queue,
        shed_pending: registry.corpus_shed,
        maintenance: None,
    }
}

impl StatsView {
    /// A snapshot of nothing.
    pub open spec fn empty() -> StatsView {
        StatsView {
            snapshot_identity: Seq::empty(),
            scope: StatisticsScope::Empty,
            feedback_models: Seq::empty(),
            statement_models: Seq::empty(),
            synopsis_models: Seq::empty(),
            workload_frequency: SketchView::empty(16),
            corpus: CorpusCaptureStats {
                enabled: false,
                captured: 0,
                skipped_oversize: 0,
                dropped_queue: 0,
                shed_pending: 0,
                maintenance: None,
            },
            physical_cost: None,
            absorbed: 0,
            dropped: 0,
            shed: 0,
            evicted: 0,
            relayed: 0,
            relayed_corpus: 0,
            relayed_stale: 0,
            published_at: 0,
        }
    }

    /// With a stored model; it replaces what was known of its family.
    pub open spec fn with_stored(self, model: ModelView) -> StatsView {
        match model.kind {
            ObservationModelKind::Relation => StatsView {
                feedback_models: feedback_entered(self.feedback_models, feedback_of(model)),
                ..self
            },
            ObservationModelKind::Statement => StatsView {
                statement_models: feedback_entered(self.statement_models, feedback_of(model)),
                ..self
            },
        }
    }

    /// With stored models.
    pub open spec fn with_all_stored(self, models: Seq<ModelView>) -> StatsView
        decreases models.len(),
    {
        if models.len() == 0 {
            self
        } else {
            self.with_all_stored(models.drop_last()).with_stored(models.last())
        }
    }

    /// With stored appearances.
    pub open spec fn with_frequencies(self, counts: Seq<(Fingerprint, u32)>) -> StatsView {
        StatsView { workload_frequency: all_raised(self.workload_frequency, counts), ..self }
    }
}

/// What a registry says when plans are made.
pub open spec fn distilled(
    registry: RegistryView,
    collector: CollectorReport,
    published_at: u64,
) -> StatsView {
    StatsView {
        snapshot_identity: Seq::empty(),
        scope: StatisticsScope::WriterLive,
        feedback_models: feedback_of_kind(registry.models, ObservationModelKind::Relation),
        statement_models: feedback_of_kind(registry.models, ObservationModelKind::Statement),
        synopsis_models: registry.synopses,
        workload_frequency: registry.sketch,
        corpus: capture_of(registry, collector),
        physical_cost: None,
        absorbed: registry.absorbed,
        dropped: collector.dropped,
        shed: registry.shed,
        evicted: registry.evicted,
        relayed: registry.relayed,
        relayed_corpus: registry.relayed_corpus,
        relayed_stale: registry.relayed_stale,
        published_at,
    }
}

/// What a registry says together with what is stored. Stored models replace
/// what was gathered here.
pub open spec fn distilled_with(
    registry: RegistryView,
    persisted: PersistedView,
    physical_cost: Option<CostModelView>,
    collector: CollectorReport,
    maintenance: Option<CorpusMaintenanceStats>,
    published_at: u64,
) -> StatsView {
    let stats = distilled(registry, collector, published_at);
    StatsView {
        physical_cost,
        corpus: CorpusCaptureStats { maintenance, ..stats.corpus },
        ..stats
    }.with_all_stored(persisted.models).with_frequencies(persisted.frequencies)
}

/// What is stored, alone.
pub open spec fn distilled_persisted(persisted: PersistedView, published_at: u64) -> StatsView {
    StatsView {
        snapshot_identity: persisted.identity,
        scope: StatisticsScope::Persisted,
        published_at,
        synopsis_models: records::synopses_by_table(persisted.synopses),
        ..StatsView::empty()
    }.with_all_stored(persisted.models).with_frequencies(persisted.frequencies)
}

/// The snapshot to plan from and the one to look at. An instance that owns the
/// stored models plans from what it gathers; any other plans from what is
/// stored alone.
pub open spec fn snapshots(
    registry: RegistryView,
    persisted: PersistedView,
    owns_stored_models: bool,
    physical_cost: Option<CostModelView>,
    collector: CollectorReport,
    maintenance: Option<CorpusMaintenanceStats>,
    published_at: u64,
) -> (StatsView, StatsView) {
    let known = distilled_with(
        registry,
        persisted,
        physical_cost,
        collector,
        maintenance,
        published_at,
    );
    if owns_stored_models {
        let diagnostic = StatsView { scope: StatisticsScope::WriterLive, ..known };
        (diagnostic, diagnostic)
    } else {
        (
            distilled_persisted(persisted, published_at),
            StatsView { scope: StatisticsScope::ReaderDiagnostic, ..known },
        )
    }
}

/// What is stored, in canonical order.
#[derive(Debug, PartialEq)]
pub struct PersistedStatisticsSnapshot {
    pub models: Vec<QueryModel>,
    pub synopses: Vec<SynopsisModel>,
    pub frequencies: Vec<(Fingerprint, u32)>,
    pub identity: String,
}

/// The value of a [`PersistedStatisticsSnapshot`].
#[verifier::ext_equal]
pub struct PersistedView {
    pub models: Seq<ModelView>,
    pub synopses: Seq<SynopsisView>,
    pub frequencies: Seq<(Fingerprint, u32)>,
    pub identity: Seq<char>,
}

impl View for PersistedStatisticsSnapshot {
    type V = PersistedView;

    open spec fn view(&self) -> PersistedView {
        PersistedView {
            models: model::model_views(self.models@),
            synopses: records::synopsis_views(self.synopses@),
            frequencies: self.frequencies@,
            identity: self.identity@,
        }
    }
}

fn enter_feedback(models: &mut Vec<FeedbackModel>, feedback: FeedbackModel)
    ensures
        feedback_views(final(models)@) == feedback_entered(
            feedback_views(old(models)@),
            feedback@,
        ),
{
    let ghost all = feedback_views(models@);
    let ghost shown = feedback@;
    let mut i: usize = 0;
    while i < models.len() && models[i].family != feedback.family
        invariant
            i <= models.len(),
            all == feedback_views(models@),
            shown == feedback@,
            feedback_place(all, shown.family, 0) == feedback_place(all, shown.family, i as nat),
        decreases models.len() - i,
    {
        assert(all[i as int] == models@[i as int]@);
        i += 1;
    }
    if i < models.len() {
        assert(all[i as int] == models@[i as int]@);
        models.set(i, feedback);
    } else {
        models.push(feedback);
    }
    assert(feedback_views(models@) =~= feedback_entered(all, shown));
}

fn feedback_for(models: &Vec<QueryModel>, kind: ObservationModelKind) -> (feedback: Vec<
    FeedbackModel,
>)
    ensures
        feedback_views(feedback@) == feedback_of_kind(model::model_views(models@), kind),
{
    let ghost all = model::model_views(models@);
    let mut feedback: Vec<FeedbackModel> = Vec::new();
    let mut i: usize = 0;
    assert(all.take(0) =~= Seq::empty());
    assert(feedback_views(feedback@) =~= Seq::empty());
    while i < models.len()
        invariant
            i <= models.len(),
            all == model::model_views(models@),
            feedback_views(feedback@) == feedback_of_kind(all.take(i as int), kind),
        decreases models.len() - i,
    {
        proof {
            assert(all.take(i + 1).drop_last() =~= all.take(i as int));
            assert(all.take(i + 1).last() == models@[i as int]@);
        }
        if models[i].kind == kind {
            let ghost before = feedback_views(feedback@);
            feedback.push(feedback_from_model(&models[i]));
            assert(feedback_views(feedback@) =~= before.push(feedback_of(models@[i as int]@)));
        }
        i += 1;
    }
    assert(all.take(i as int) =~= all);
    feedback
}

impl PlannerStats {
    /// A snapshot of nothing.
    pub fn empty() -> (stats: PlannerStats)
        ensures
            stats@ == StatsView::empty(),
            stats@.workload_frequency.wf(),
    {
        let stats = PlannerStats {
            snapshot_identity: String::new(),
            scope: StatisticsScope::Empty,
            feedback_models: Vec::new(),
            statement_models: Vec::new(),
            synopsis_models: Vec::new(),
            workload_frequency: FrequencySketch::new(16),
            corpus: CorpusCaptureStats {
                enabled: false,
                captured: 0,
                skipped_oversize: 0,
                dropped_queue: 0,
                shed_pending: 0,
                maintenance: None,
            },
            physical_cost: None,
            absorbed: 0,
            dropped: 0,
            shed: 0,
            evicted: 0,
            relayed: 0,
            relayed_corpus: 0,
            relayed_stale: 0,
            published_at: 0,
        };
        assert(stats@ =~= StatsView::empty());
        stats
    }

    /// How often a family was seen, at most.
    pub fn frequency(&self, family: &Fingerprint) -> (count: u32)
        requires
            self@.workload_frequency.wf(),
        ensures
            count == self@.workload_frequency.estimate(*family),
    {
        self.workload_frequency.estimate(family)
    }

    fn enter_stored(&mut self, models: &Vec<QueryModel>)
        ensures
            final(self)@ == old(self)@.with_all_stored(model::model_views(models@)),
    {
        let ghost before = self@;
        let ghost all = model::model_views(models@);
        let mut i: usize = 0;
        assert(all.take(0) =~= Seq::empty());
        while i < models.len()
            invariant
                i <= models.len(),
                all == model::model_views(models@),
                self@ == before.with_all_stored(all.take(i as int)),
            decreases models.len() - i,
        {
            proof {
                assert(all.take(i + 1).drop_last() =~= all.take(i as int));
                assert(all.take(i + 1).last() == models@[i as int]@);
            }
            let feedback = feedback_from_model(&models[i]);
            match models[i].kind {
                ObservationModelKind::Relation => {
                    enter_feedback(&mut self.feedback_models, feedback);
                },
                ObservationModelKind::Statement => {
                    enter_feedback(&mut self.statement_models, feedback);
                },
            }
            i += 1;
        }
        assert(all.take(i as int) =~= all);
    }

    fn enter_frequencies(&mut self, counts: &Vec<(Fingerprint, u32)>)
        requires
            old(self)@.workload_frequency.wf(),
        ensures
            final(self)@ == old(self)@.with_frequencies(counts@),
            final(self)@.workload_frequency.wf(),
    {
        let ghost before = self@;
        let mut i: usize = 0;
        assert(counts@.take(0) =~= Seq::empty());
        while i < counts.len()
            invariant
                i <= counts.len(),
                self@.workload_frequency.wf(),
                self@ == before.with_frequencies(counts@.take(i as int)),
            decreases counts.len() - i,
        {
            proof {
                assert(counts@.take(i + 1).drop_last() =~= counts@.take(i as int));
            }
            self.workload_frequency.record_at_least(&counts[i].0, counts[i].1);
            i += 1;
        }
        assert(counts@.take(i as int) =~= counts@);
    }
}

impl HotRegistry {
    /// What the registry says when plans are made.
    pub fn distill(&self, collector: CollectorReport, published_at: u64) -> (stats: PlannerStats)
        ensures
            stats@ == distilled(self@, collector, published_at),
    {
        PlannerStats {
            snapshot_identity: String::new(),
            scope: StatisticsScope::WriterLive,
            feedback_models: feedback_for(&self.models, ObservationModelKind::Relation),
            statement_models: feedback_for(&self.models, ObservationModelKind::Statement),
            synopsis_models: copy_synopses(&self.synopses),
            workload_frequency: self.sketch.copy(),
            corpus: CorpusCaptureStats {
                enabled: collector.corpus_enabled,
                captured: collector.corpus_captured,
                skipped_oversize: collector.corpus_skipped_oversize,
                dropped_queue: collector.corpus_dropped_queue,
                shed_pending: self.corpus_shed,
                maintenance: None,
            },
            physical_cost: None,
            absorbed: self.absorbed,
            dropped: collector.dropped,
            shed: self.shed,
            evicted: self.evicted,
            relayed: self.relayed,
            relayed_corpus: self.relayed_corpus,
            relayed_stale: self.relayed_stale,
            published_at,
        }
    }
}

/// What the registry says together with what is stored.
pub fn distill_with_persisted(
    registry: &HotRegistry,
    persisted: &PersistedStatisticsSnapshot,
    physical_cost: Option<PhysicalCostModel>,
    collector: CollectorReport,
    corpus_maintenance: Option<CorpusMaintenanceStats>,
    published_at: u64,
) -> (stats: PlannerStats)
    requires
        registry@.wf(),
    ensures
        stats@ == distilled_with(
            registry@,
            persisted@,
            cost_view(physical_cost),
            collector,
            corpus_maintenance,
            published_at,
        ),
{
    let mut stats = registry.distill(collector, published_at);
    stats.physical_cost = physical_cost;
    stats.corpus.maintenance = corpus_maintenance;
    stats.enter_stored(&persisted.models);
    proof {
        lemma_stored_keep_frequency(
            StatsView {
                physical_cost: cost_view(physical_cost),
                corpus: CorpusCaptureStats {
                    maintenance: corpus_maintenance,
                    ..distilled(registry@, collector, published_at).corpus
                },
                ..distilled(registry@, collector, published_at)
            },
            persisted@.models,
        );
    }
    stats.enter_frequencies(&persisted.frequencies);
    stats
}

proof fn lemma_stored_keep_frequency(stats: StatsView, models: Seq<ModelView>)
    ensures
        stats.with_all_stored(models).workload_frequency == stats.workload_frequency,
    decreases models.len(),
{
    if models.len() > 0 {
        lemma_stored_keep_frequency(stats, models.drop_last());
    }
}

/// What is stored, alone.
pub fn distill_persisted_only(
    persisted: &PersistedStatisticsSnapshot,
    published_at: u64,
) -> (stats: PlannerStats)
    ensures
        stats@ == distilled_persisted(persisted@, published_at),
{
    let mut stats = PlannerStats::empty();
    stats.snapshot_identity = persisted.identity.clone();
    stats.scope = StatisticsScope::Persisted;
    stats.published_at = published_at;
    stats.synopsis_models = records::by_table(copy_synopses(&persisted.synopses));
    let ghost start = stats@;
    stats.enter_stored(&persisted.models);
    proof {
        lemma_stored_keep_frequency(start, persisted@.models);
    }
    stats.enter_frequencies(&persisted.frequencies);
    stats
}

/// The snapshot to plan from and the one to look at.
pub fn runner_snapshots(
    registry: &HotRegistry,
    persisted: &PersistedStatisticsSnapshot,
    owns_stored_models: bool,
    physical_cost: Option<PhysicalCostModel>,
    collector: CollectorReport,
    corpus_maintenance: Option<CorpusMaintenanceStats>,
    published_at: u64,
) -> (both: (PlannerStats, PlannerStats))
    requires
        registry@.wf(),
    ensures
        (both.0@, both.1@) == snapshots(
            registry@,
            persisted@,
            owns_stored_models,
            cost_view(physical_cost),
            collector,
            corpus_maintenance,
            published_at,
        ),
{
    let mut diagnostic = distill_with_persisted(
        registry,
        persisted,
        physical_cost,
        collector,
        corpus_maintenance,
        published_at,
    );
    if owns_stored_models {
        diagnostic.scope = StatisticsScope::WriterLive;
        let planning = diagnostic.copy();
        (planning, diagnostic)
    } else {
        diagnostic.scope = StatisticsScope::ReaderDiagnostic;
        (distill_persisted_only(persisted, published_at), diagnostic)
    }
}

fn copy_feedback(models: &Vec<FeedbackModel>) -> (copy: Vec<FeedbackModel>)
    ensures
        feedback_views(copy@) == feedback_views(models@),
{
    let mut copy: Vec<FeedbackModel> = Vec::new();
    let mut i: usize = 0;
    while i < models.len()
        invariant
            i <= models.len(),
            copy.len() == i,
            forall|k: int| 0 <= k < i ==> (#[trigger] copy@[k])@ == models@[k]@,
        decreases models.len() - i,
    {
        copy.push(models[i].copy());
        i += 1;
    }
    assert(feedback_views(copy@) =~= feedback_views(models@));
    copy
}

impl PlannerStats {
    /// A copy of a snapshot.
    pub fn copy(&self) -> (stats: PlannerStats)
        ensures
            stats@ == self@,
    {
        PlannerStats {
            snapshot_identity: self.snapshot_identity.clone(),
            scope: self.scope,
            feedback_models: copy_feedback(&self.feedback_models),
            statement_models: copy_feedback(&self.statement_models),
            synopsis_models: copy_synopses(&self.synopsis_models),
            workload_frequency: self.workload_frequency.copy(),
            corpus: self.corpus,
            physical_cost: match &self.physical_cost {
                Some(cost) => Some(cost.copy()),
                None => None,
            },
            absorbed: self.absorbed,
            dropped: self.dropped,
            shed: self.shed,
            evicted: self.evicted,
            relayed: self.relayed,
            relayed_corpus: self.relayed_corpus,
            relayed_stale: self.relayed_stale,
            published_at: self.published_at,
        }
    }
}

// ---- canonical order ----

/// The number of a kind in order.
pub open spec fn kind_number(kind: ObservationModelKind) -> u64 {
    match kind {
        ObservationModelKind::Relation => 0,
        ObservationModelKind::Statement => 1,
    }
}

fn kind_place(kind: ObservationModelKind) -> (number: u64)
    ensures
        number == kind_number(kind),
{
    match kind {
        ObservationModelKind::Relation => 0,
        ObservationModelKind::Statement => 1,
    }
}

/// What models are ordered by.
pub open spec fn model_keys(models: Seq<ModelView>) -> Seq<Key> {
    Seq::new(
        models.len(),
        |i: int| Key::spec_of(kind_number(models[i].kind), models[i].family, 0),
    )
}

/// Synopses, each in canonical order.
pub open spec fn canonical_synopses(synopses: Seq<SynopsisView>) -> Seq<SynopsisView> {
    Seq::new(synopses.len(), |i: int| synopses[i].canonical())
}

pub open spec fn synopsis_keys(synopses: Seq<SynopsisView>) -> Seq<Key> {
    Seq::new(synopses.len(), |i: int| Key::spec_number(synopses[i].table))
}

pub open spec fn family_keys(counts: Seq<(Fingerprint, u32)>) -> Seq<Key> {
    Seq::new(counts.len(), |i: int| Key::spec_of(0, counts[i].0, 0))
}

pub open spec fn plan_keys(plans: Seq<(Fingerprint, u64)>) -> Seq<Key> {
    Seq::new(plans.len(), |i: int| Key::spec_of(0, plans[i].0, 0))
}

pub open spec fn profile_keys(profiles: Seq<ProfileView>) -> Seq<Key> {
    Seq::new(profiles.len(), |i: int| Key::spec_of(0, profiles[i].plan, profiles[i].access_stamp))
}

/// Things in the order of their keys.
pub open spec fn sorted<A>(items: Seq<A>, keys: Seq<Key>) -> Seq<A> {
    sorting::arranged(items, sorting::order(keys, keys.len()))
}

/// A model with its plans in canonical order.
pub open spec fn canonical_model(model: ModelView) -> ModelView {
    ModelView {
        plans: sorted(model.plans, plan_keys(model.plans)),
        plan_profiles: sorted(model.plan_profiles, profile_keys(model.plan_profiles)),
        ..model
    }
}

pub open spec fn canonical_models(models: Seq<ModelView>) -> Seq<ModelView> {
    Seq::new(models.len(), |i: int| canonical_model(models[i]))
}

/// What is stored, in canonical order.
pub open spec fn canonical(
    models: Seq<ModelView>,
    synopses: Seq<SynopsisView>,
    frequencies: Seq<(Fingerprint, u32)>,
) -> PersistedView {
    PersistedView {
        models: sorted(canonical_models(models), model_keys(models)),
        synopses: sorted(canonical_synopses(synopses), synopsis_keys(synopses)),
        frequencies: sorted(frequencies, family_keys(frequencies)),
        identity: Seq::empty(),
    }
}

fn sort_plans(plans: &Vec<(Fingerprint, u64)>) -> (ordered: Vec<(Fingerprint, u64)>)
    ensures
        ordered@ == sorted(plans@, plan_keys(plans@)),
{
    let mut keys: Vec<Key> = Vec::new();
    let mut i: usize = 0;
    while i < plans.len()
        invariant
            i <= plans.len(),
            keys.len() == i,
            forall|k: int| 0 <= k < i ==> #[trigger] keys@[k] == plan_keys(plans@)[k],
        decreases plans.len() - i,
    {
        keys.push(Key::of(0, plans[i].0, 0));
        i += 1;
    }
    assert(keys@ =~= plan_keys(plans@));
    let order = sorted_order(&keys);
    let ghost places = sorting::index_views(order@);
    let mut ordered: Vec<(Fingerprint, u64)> = Vec::new();
    let mut k: usize = 0;
    while k < order.len()
        invariant
            k <= order.len(),
            places == sorting::index_views(order@),
            sorting::is_permutation(places, plans@.len()),
            ordered@ =~= sorting::arranged(plans@, places).take(k as int),
        decreases order.len() - k,
    {
        assert(places[k as int] == order@[k as int]);
        ordered.push(plans[order[k]]);
        k += 1;
    }
    assert(ordered@ =~= sorted(plans@, plan_keys(plans@)));
    ordered
}

fn sort_profiles(profiles: &Vec<PlanProfile>) -> (ordered: Vec<PlanProfile>)
    ensures
        evidence::profile_views(ordered@) == sorted(
            evidence::profile_views(profiles@),
            profile_keys(evidence::profile_views(profiles@)),
        ),
{
    let ghost all = evidence::profile_views(profiles@);
    let mut keys: Vec<Key> = Vec::new();
    let mut i: usize = 0;
    while i < profiles.len()
        invariant
            i <= profiles.len(),
            all == evidence::profile_views(profiles@),
            keys.len() == i,
            forall|k: int| 0 <= k < i ==> #[trigger] keys@[k] == profile_keys(all)[k],
        decreases profiles.len() - i,
    {
        assert(all[i as int] == profiles@[i as int]@);
        keys.push(Key::of(0, profiles[i].plan, profiles[i].access_stamp));
        i += 1;
    }
    assert(keys@ =~= profile_keys(all));
    let order = sorted_order(&keys);
    let ghost places = sorting::index_views(order@);
    let mut ordered: Vec<PlanProfile> = Vec::new();
    let mut k: usize = 0;
    while k < order.len()
        invariant
            k <= order.len(),
            places == sorting::index_views(order@),
            all == evidence::profile_views(profiles@),
            sorting::is_permutation(places, all.len()),
            ordered.len() == k,
            forall|j: int| 0 <= j < k ==> (#[trigger] ordered@[j])@ == all[places[j]],
        decreases order.len() - k,
    {
        assert(places[k as int] == order@[k as int]);
        ordered.push(profiles[order[k]]);
        k += 1;
    }
    assert(evidence::profile_views(ordered@) =~= sorted(all, profile_keys(all)));
    ordered
}

fn canonicalize_query_model(model: &QueryModel) -> (ordered: QueryModel)
    ensures
        ordered@ == canonical_model(model@),
{
    let mut ordered = model.copy();
    ordered.plans = sort_plans(&model.plans);
    ordered.plan_profiles = sort_profiles(&model.plan_profiles);
    ordered
}

fn sort_models(models: &Vec<QueryModel>) -> (ordered: Vec<QueryModel>)
    ensures
        model::model_views(ordered@) == sorted(
            canonical_models(model::model_views(models@)),
            model_keys(model::model_views(models@)),
        ),
{
    let ghost all = model::model_views(models@);
    let mut keys: Vec<Key> = Vec::new();
    let mut i: usize = 0;
    while i < models.len()
        invariant
            i <= models.len(),
            all == model::model_views(models@),
            keys.len() == i,
            forall|k: int| 0 <= k < i ==> #[trigger] keys@[k] == model_keys(all)[k],
        decreases models.len() - i,
    {
        assert(all[i as int] == models@[i as int]@);
        keys.push(Key::of(kind_place(models[i].kind), models[i].family, 0));
        i += 1;
    }
    assert(keys@ =~= model_keys(all));
    let order = sorted_order(&keys);
    let ghost places = sorting::index_views(order@);
    let mut ordered: Vec<QueryModel> = Vec::new();
    let mut k: usize = 0;
    while k < order.len()
        invariant
            k <= order.len(),
            places == sorting::index_views(order@),
            all == model::model_views(models@),
            sorting::is_permutation(places, all.len()),
            ordered.len() == k,
            forall|j: int|
                0 <= j < k ==> (#[trigger] ordered@[j])@ == canonical_model(all[places[j]]),
        decreases order.len() - k,
    {
        assert(places[k as int] == order@[k as int]);
        assert(all[places[k as int]] == models@[order@[k as int] as int]@);
        ordered.push(canonicalize_query_model(&models[order[k]]));
        k += 1;
    }
    assert(model::model_views(ordered@) =~= sorted(canonical_models(all), model_keys(all)));
    ordered
}

fn sort_synopses(synopses: &Vec<SynopsisModel>) -> (ordered: Vec<SynopsisModel>)
    ensures
        records::synopsis_views(ordered@) == sorted(
            canonical_synopses(records::synopsis_views(synopses@)),
            synopsis_keys(records::synopsis_views(synopses@)),
        ),
{
    let ghost all = records::synopsis_views(synopses@);
    let mut keys: Vec<Key> = Vec::new();
    let mut i: usize = 0;
    while i < synopses.len()
        invariant
            i <= synopses.len(),
            all == records::synopsis_views(synopses@),
            keys.len() == i,
            forall|k: int| 0 <= k < i ==> #[trigger] keys@[k] == synopsis_keys(all)[k],
        decreases synopses.len() - i,
    {
        assert(all[i as int] == synopses@[i as int]@);
        keys.push(Key::number(synopses[i].table));
        i += 1;
    }
    assert(keys@ =~= synopsis_keys(all));
    let order = sorted_order(&keys);
    let ghost places = sorting::index_views(order@);
    let mut ordered: Vec<SynopsisModel> = Vec::new();
    let mut k: usize = 0;
    while k < order.len()
        invariant
            k <= order.len(),
            places == sorting::index_views(order@),
            all == records::synopsis_views(synopses@),
            sorting::is_permutation(places, all.len()),
            ordered.len() == k,
            forall|j: int| 0 <= j < k ==> (#[trigger] ordered@[j])@ == canonical_synopses(
                    all,
                )[places[j]],
        decreases order.len() - k,
    {
        assert(places[k as int] == order@[k as int]);
        assert(all[places[k as int]] == synopses@[order@[k as int] as int]@);
        ordered.push(synopses[order[k]].canonical());
        k += 1;
    }
    assert(records::synopsis_views(ordered@) =~= sorted(
        canonical_synopses(all),
        synopsis_keys(all),
    ));
    ordered
}

fn sort_frequencies(counts: &Vec<(Fingerprint, u32)>) -> (ordered: Vec<(Fingerprint, u32)>)
    ensures
        ordered@ == sorted(counts@, family_keys(counts@)),
{
    let mut keys: Vec<Key> = Vec::new();
    let mut i: usize = 0;
    while i < counts.len()
        invariant
            i <= counts.len(),
            keys.len() == i,
            forall|k: int| 0 <= k < i ==> #[trigger] keys@[k] == family_keys(counts@)[k],
        decreases counts.len() - i,
    {
        keys.push(Key::of(0, counts[i].0, 0));
        i += 1;
    }
    assert(keys@ =~= family_keys(counts@));
    let order = sorted_order(&keys);
    let ghost places = sorting::index_views(order@);
    let mut ordered: Vec<(Fingerprint, u32)> = Vec::new();
    let mut k: usize = 0;
    while k < order.len()
        invariant
            k <= order.len(),
            places == sorting::index_views(order@),
            sorting::is_permutation(places, counts@.len()),
            ordered@ =~= sorting::arranged(counts@, places).take(k as int),
        decreases order.len() - k,
    {
        assert(places[k as int] == order@[k as int]);
        ordered.push(counts[order[k]]);
        k += 1;
    }
    assert(ordered@ =~= sorted(counts@, family_keys(counts@)));
    ordered
}

// ---- the canonical form of a live snapshot ----

/// What a model says, with its plans in canonical order.
pub open spec fn canonical_feedback(feedback: FeedbackView) -> FeedbackView {
    FeedbackView {
        plans: sorted(feedback.plans, plan_keys(feedback.plans)),
        plan_profiles: sorted(feedback.plan_profiles, profile_keys(feedback.plan_profiles)),
        ..feedback
    }
}

/// What models of a kind say, each with its kind.
pub open spec fn of_kind(
    kind: ObservationModelKind,
    models: Seq<FeedbackView>,
) -> Seq<(ObservationModelKind, FeedbackView)> {
    Seq::new(models.len(), |i: int| (kind, models[i]))
}

/// What is known of families, each with its plans in canonical order.
pub open spec fn all_canonical(models: Seq<(ObservationModelKind, FeedbackView)>) -> Seq<
    (ObservationModelKind, FeedbackView),
> {
    Seq::new(models.len(), |i: int| (models[i].0, canonical_feedback(models[i].1)))
}

/// What is known of families is ordered by kind and family.
pub open spec fn feedback_keys(models: Seq<(ObservationModelKind, FeedbackView)>) -> Seq<Key> {
    Seq::new(
        models.len(),
        |i: int| Key::spec_of(kind_number(models[i].0), models[i].1.family, 0),
    )
}

/// The parts of a live snapshot that it is named by, in canonical order: what is
/// known of families by kind and family, the synopses by table, and how often
/// families were seen.
#[derive(Debug, PartialEq)]
pub struct CanonicalStats {
    pub models: Vec<(ObservationModelKind, FeedbackModel)>,
    pub synopses: Vec<SynopsisModel>,
    pub workload_frequency: FrequencySketch,
}

/// The value of [`CanonicalStats`].
#[verifier::ext_equal]
pub struct CanonicalView {
    pub models: Seq<(ObservationModelKind, FeedbackView)>,
    pub synopses: Seq<SynopsisView>,
    pub workload_frequency: SketchView,
}

pub open spec fn kinded_views(models: Seq<(ObservationModelKind, FeedbackModel)>) -> Seq<
    (ObservationModelKind, FeedbackView),
> {
    Seq::new(models.len(), |i: int| (models[i].0, models[i].1@))
}

impl View for CanonicalStats {
    type V = CanonicalView;

    open spec fn view(&self) -> CanonicalView {
        CanonicalView {
            models: kinded_views(self.models@),
            synopses: records::synopsis_views(self.synopses@),
            workload_frequency: self.workload_frequency@,
        }
    }
}

/// What is digested of a live snapshot: what it knows of families, its synopses,
/// and how often families were seen.
pub open spec fn planner_records(
    models: Seq<Seq<u8>>,
    synopses: Seq<Seq<u8>>,
    workload_frequency: Seq<u8>,
) -> Seq<Seq<u8>> {
    models + synopses + seq![workload_frequency]
}

impl StatsView {
    /// Everything that is known of families, with their kinds.
    pub open spec fn kinded(self) -> Seq<(ObservationModelKind, FeedbackView)> {
        of_kind(ObservationModelKind::Relation, self.feedback_models) + of_kind(
            ObservationModelKind::Statement,
            self.statement_models,
        )
    }

    /// What the snapshot is named by, in canonical order.
    pub open spec fn canonical(self) -> CanonicalView {
        CanonicalView {
            models: sorted(all_canonical(self.kinded()), feedback_keys(self.kinded())),
            synopses: sorted(
                canonical_synopses(self.synopsis_models),
                synopsis_keys(self.synopsis_models),
            ),
            workload_frequency: self.workload_frequency,
        }
    }

    /// The snapshot, named by the encodings of its canonical parts.
    pub open spec fn identified(
        self,
        models: Seq<Seq<u8>>,
        synopses: Seq<Seq<u8>>,
        workload_frequency: Seq<u8>,
    ) -> StatsView {
        StatsView {
            snapshot_identity: identity::snapshot_identity(
                "rad-planner-statistics-v1"@,
                planner_records(models, synopses, workload_frequency),
            ),
            ..self
        }
    }
}

fn canonicalize_feedback_model(feedback: &FeedbackModel) -> (ordered: FeedbackModel)
    ensures
        ordered@ == canonical_feedback(feedback@),
{
    let mut ordered = feedback.copy();
    ordered.plans = sort_plans(&feedback.plans);
    ordered.plan_profiles = sort_profiles(&feedback.plan_profiles);
    ordered
}

fn canonical_kinded(stats: &PlannerStats) -> (models: Vec<(ObservationModelKind, FeedbackModel)>)
    ensures
        kinded_views(models@) == all_canonical(stats@.kinded()),
{
    let ghost all = stats@.kinded();
    let mut models: Vec<(ObservationModelKind, FeedbackModel)> = Vec::new();
    let mut i: usize = 0;
    while i < stats.feedback_models.len()
        invariant
            i <= stats.feedback_models.len(),
            all == stats@.kinded(),
            models.len() == i,
            forall|k: int|
                0 <= k < i ==> ((#[trigger] models@[k]).0, models@[k].1@) == all_canonical(all)[k],
        decreases stats.feedback_models.len() - i,
    {
        assert(all[i as int] == (
            ObservationModelKind::Relation,
            stats.feedback_models@[i as int]@,
        ));
        models.push(
            (
                ObservationModelKind::Relation,
                canonicalize_feedback_model(&stats.feedback_models[i]),
            ),
        );
        i += 1;
    }
    let mut s: usize = 0;
    while s < stats.statement_models.len()
        invariant
            s <= stats.statement_models.len(),
            all == stats@.kinded(),
            models.len() == stats.feedback_models.len() + s,
            forall|k: int|
                0 <= k < models.len() ==> ((#[trigger] models@[k]).0, models@[k].1@)
                    == all_canonical(all)[k],
        decreases stats.statement_models.len() - s,
    {
        assert(all[stats.feedback_models.len() + s] == (
            ObservationModelKind::Statement,
            stats.statement_models@[s as int]@,
        ));
        models.push(
            (
                ObservationModelKind::Statement,
                canonicalize_feedback_model(&stats.statement_models[s]),
            ),
        );
        s += 1;
    }
    assert(kinded_views(models@) =~= all_canonical(all));
    models
}

fn sort_kinded(models: &Vec<(ObservationModelKind, FeedbackModel)>) -> (ordered: Vec<
    (ObservationModelKind, FeedbackModel),
>)
    ensures
        kinded_views(ordered@) == sorted(
            kinded_views(models@),
            feedback_keys(kinded_views(models@)),
        ),
{
    let ghost all = kinded_views(models@);
    let mut keys: Vec<Key> = Vec::new();
    let mut i: usize = 0;
    while i < models.len()
        invariant
            i <= models.len(),
            all == kinded_views(models@),
            keys.len() == i,
            forall|k: int| 0 <= k < i ==> #[trigger] keys@[k] == feedback_keys(all)[k],
        decreases models.len() - i,
    {
        assert(all[i as int] == (models@[i as int].0, models@[i as int].1@));
        keys.push(Key::of(kind_place(models[i].0), models[i].1.family, 0));
        i += 1;
    }
    assert(keys@ =~= feedback_keys(all));
    let order = sorted_order(&keys);
    let ghost places = sorting::index_views(order@);
    let mut ordered: Vec<(ObservationModelKind, FeedbackModel)> = Vec::new();
    let mut k: usize = 0;
    while k < order.len()
        invariant
            k <= order.len(),
            places == sorting::index_views(order@),
            all == kinded_views(models@),
            sorting::is_permutation(places, all.len()),
            ordered.len() == k,
            forall|j: int|
                0 <= j < k ==> ((#[trigger] ordered@[j]).0, ordered@[j].1@) == all[places[j]],
        decreases order.len() - k,
    {
        assert(places[k as int] == order@[k as int]);
        assert(all[places[k as int]] == (
            models@[order@[k as int] as int].0,
            models@[order@[k as int] as int].1@,
        ));
        ordered.push((models[order[k]].0, models[order[k]].1.copy()));
        k += 1;
    }
    assert(kinded_views(ordered@) =~= sorted(all, feedback_keys(all)));
    ordered
}

impl PlannerStats {
    /// What the snapshot is named by, in canonical order.
    pub fn canonical(&self) -> (canonical: CanonicalStats)
        ensures
            canonical@ == self@.canonical(),
    {
        let models = canonical_kinded(self);
        assert(feedback_keys(all_canonical(self@.kinded())) =~= feedback_keys(self@.kinded()));
        CanonicalStats {
            models: sort_kinded(&models),
            synopses: sort_synopses(&self.synopsis_models),
            workload_frequency: self.workload_frequency.copy(),
        }
    }

    /// Names the snapshot by its canonical parts, as each is encoded in its order.
    pub fn identify(
        &mut self,
        models: &Vec<Vec<u8>>,
        synopses: &Vec<Vec<u8>>,
        workload_frequency: &Vec<u8>,
    )
        ensures
            final(self)@ == old(self)@.identified(
                identity::byte_views(models@),
                identity::byte_views(synopses@),
                workload_frequency@,
            ),
    {
        let ghost expected = planner_records(
            identity::byte_views(models@),
            identity::byte_views(synopses@),
            workload_frequency@,
        );
        let mut all: Vec<Vec<u8>> = Vec::new();
        append_records(&mut all, models);
        append_records(&mut all, synopses);
        all.push(records::copy_bytes(workload_frequency));
        assert(identity::byte_views(all@) =~= expected);
        self.snapshot_identity = identity::statistics_identity("rad-planner-statistics-v1", &all);
    }
}

fn append_records(all: &mut Vec<Vec<u8>>, records: &Vec<Vec<u8>>)
    ensures
        identity::byte_views(final(all)@) == identity::byte_views(old(all)@)
            + identity::byte_views(records@),
{
    let ghost before = identity::byte_views(all@);
    let ghost added = identity::byte_views(records@);
    let mut i: usize = 0;
    while i < records.len()
        invariant
            i <= records.len(),
            added == identity::byte_views(records@),
            identity::byte_views(all@) =~= before + added.take(i as int),
        decreases records.len() - i,
    {
        let ghost known = identity::byte_views(all@);
        all.push(records::copy_bytes(&records[i]));
        assert(identity::byte_views(all@) =~= known.push(added[i as int]));
        i += 1;
    }
    assert(added.take(i as int) =~= added);
}

/// A stored count of appearances as it is digested.
pub open spec fn frequency_record(count: (Fingerprint, u32)) -> Seq<u8> {
    identity::big_endian(count.0.canonicalization_version as nat, 4) + identity::big_endian(
        count.0.hash_algorithm as nat,
        4,
    ) + identity::big_endian(count.0.digest as nat, 16) + identity::big_endian(count.1 as nat, 4)
}

/// What is digested of a stored snapshot: its models, its synopses and its
/// appearances.
pub open spec fn persisted_records(
    models: Seq<Seq<u8>>,
    synopses: Seq<Seq<u8>>,
    frequencies: Seq<(Fingerprint, u32)>,
) -> Seq<Seq<u8>> {
    models + synopses + Seq::new(frequencies.len(), |i: int| frequency_record(frequencies[i]))
}

fn encode_frequency(count: (Fingerprint, u32)) -> (record: Vec<u8>)
    ensures
        record@ == frequency_record(count),
{
    let mut record: Vec<u8> = Vec::new();
    identity::push_big_endian(&mut record, count.0.canonicalization_version as u128, 4);
    identity::push_big_endian(&mut record, count.0.hash_algorithm as u128, 4);
    identity::push_big_endian(&mut record, count.0.digest, 16);
    identity::push_big_endian(&mut record, count.1 as u128, 4);
    assert(record@ =~= frequency_record(count));
    record
}

impl PersistedView {
    /// A snapshot of an empty store, under the digest of nothing.
    pub open spec fn nothing() -> PersistedView {
        PersistedView {
            models: Seq::empty(),
            synopses: Seq::empty(),
            frequencies: Seq::empty(),
            identity: identity::snapshot_identity("rad-statistics-snapshot-v1"@, Seq::empty()),
        }
    }
}

impl Default for PersistedStatisticsSnapshot {
    fn default() -> (snapshot: PersistedStatisticsSnapshot)
        ensures
            snapshot@ == PersistedView::nothing(),
    {
        let nothing: Vec<Vec<u8>> = Vec::new();
        assert(identity::byte_views(nothing@) =~= Seq::empty());
        let snapshot = PersistedStatisticsSnapshot {
            models: Vec::new(),
            synopses: Vec::new(),
            frequencies: Vec::new(),
            identity: identity::statistics_identity("rad-statistics-snapshot-v1", &nothing),
        };
        assert(snapshot@ =~= PersistedView::nothing());
        snapshot
    }
}

impl PersistedStatisticsSnapshot {
    /// What is stored, in canonical order and without a name yet.
    pub fn new(
        models: &Vec<QueryModel>,
        synopses: &Vec<SynopsisModel>,
        frequencies: &Vec<(Fingerprint, u32)>,
    ) -> (snapshot: PersistedStatisticsSnapshot)
        ensures
            snapshot@ == canonical(
                model::model_views(models@),
                records::synopsis_views(synopses@),
                frequencies@,
            ),
    {
        PersistedStatisticsSnapshot {
            models: sort_models(models),
            synopses: sort_synopses(synopses),
            frequencies: sort_frequencies(frequencies),
            identity: String::new(),
        }
    }

    /// Names the snapshot by its models and synopses, as they are encoded in
    /// its order, and its appearances.
    pub fn identify(&mut self, models: &Vec<Vec<u8>>, synopses: &Vec<Vec<u8>>)
        ensures
            final(self)@ == (PersistedView {
                identity: identity::snapshot_identity(
                    "rad-statistics-snapshot-v1"@,
                    persisted_records(
                        identity::byte_views(models@),
                        identity::byte_views(synopses@),
                        old(self)@.frequencies,
                    ),
                ),
                ..old(self)@
            }),
    {
        let ghost expected = persisted_records(
            identity::byte_views(models@),
            identity::byte_views(synopses@),
            self@.frequencies,
        );
        let mut all: Vec<Vec<u8>> = Vec::new();
        append_records(&mut all, models);
        append_records(&mut all, synopses);
        let ghost fixed = identity::byte_views(all@);
        let mut f: usize = 0;
        while f < self.frequencies.len()
            invariant
                f <= self.frequencies.len(),
                self@ == old(self)@,
                identity::byte_views(all@) =~= fixed + Seq::new(
                    f as nat,
                    |k: int| frequency_record(self.frequencies@[k]),
                ),
            decreases self.frequencies.len() - f,
        {
            let ghost known = identity::byte_views(all@);
            all.push(encode_frequency(self.frequencies[f]));
            assert(identity::byte_views(all@) =~= known.push(
                frequency_record(self.frequencies@[f as int]),
            ));
            f += 1;
        }
        assert(identity::byte_views(all@) =~= expected);
        self.identity = identity::statistics_identity("rad-statistics-snapshot-v1", &all);
    }
}

// ---- what snapshots promise ----

/// An instance that does not own the stored models plans from them alone: no
/// plan depends on what it gathered itself.
pub proof fn readers_plan_from_what_is_stored(
    registry: RegistryView,
    other: RegistryView,
    persisted: PersistedView,
    physical_cost: Option<CostModelView>,
    collector: CollectorReport,
    maintenance: Option<CorpusMaintenanceStats>,
    published_at: u64,
)
    ensures
        snapshots(
            registry,
            persisted,
            false,
            physical_cost,
            collector,
            maintenance,
            published_at,
        ).0 == snapshots(
            other,
            persisted,
            false,
            physical_cost,
            collector,
            maintenance,
            published_at,
        ).0,
{
}

/// The order in which stored appearances are given does not matter.
pub proof fn stored_appearances_are_canonical(
    left: Seq<(Fingerprint, u32)>,
    right: Seq<(Fingerprint, u32)>,
)
    requires
        sorting::keys_differ(family_keys(left)),
        sorting::keys_differ(family_keys(right)),
        forall|count: (Fingerprint, u32)| left.contains(count) <==> right.contains(count),
    ensures
        sorted(left, family_keys(left)) == sorted(right, family_keys(right)),
{
    let (a, b) = (family_keys(left), family_keys(right));
    assert forall|key: Key| a.contains(key) <==> b.contains(key) by {
        if a.contains(key) {
            let i = choose|i: int| 0 <= i < a.len() && a[i] == key;
            assert(left.contains(left[i]));
            assert(right.contains(left[i]));
            let k = choose|k: int| 0 <= k < right.len() && right[k] == left[i];
            assert(b[k] == key);
        }
        if b.contains(key) {
            let i = choose|i: int| 0 <= i < b.len() && b[i] == key;
            assert(right.contains(right[i]));
            assert(left.contains(right[i]));
            let k = choose|k: int| 0 <= k < left.len() && left[k] == right[i];
            assert(a[k] == key);
        }
    }
    sorting::orders_are_canonical(a, b);
    sorting::orders_are_sorted_permutations(a, a.len());
    sorting::orders_are_sorted_permutations(b, b.len());
    let (p, q) = (sorting::order(a, a.len()), sorting::order(b, b.len()));
    let (x, y) = (sorted(left, a), sorted(right, b));
    assert(sorting::arranged(a, p).len() == sorting::arranged(b, q).len());
    assert forall|i: int| 0 <= i < x.len() implies x[i] == y[i] by {
        assert(sorting::arranged(a, p)[i] == sorting::arranged(b, q)[i]);
        assert(a[p[i]] == b[q[i]]);
        assert(left[p[i]].0 == right[q[i]].0);
        assert(right.contains(right[q[i]]));
        assert(left.contains(right[q[i]]));
        let k = choose|k: int| 0 <= k < left.len() && left[k] == right[q[i]];
        assert(a[k] == a[p[i]]);
        if k < p[i] {
            assert(a[k] != a[p[i]]);
        } else if p[i] < k {
            assert(a[p[i]] != a[k]);
        }
    }
    assert(x =~= y);
}

} // verus!
