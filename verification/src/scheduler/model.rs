//! Models of query families: what was observed of each, as it is gathered,
//! merged and stored.

use vstd::prelude::*;

use crate::scheduler::evidence;
use crate::scheduler::evidence::{
    q_error_x100, DependencyStamp, KvResourceDistribution, KvResourceSample, PlanProfile,
    ProfileView, ResourcesView,
};
use crate::scheduler::histogram;
use crate::scheduler::histogram::{max_of, HistogramView, Log2Histogram};
use crate::scheduler::sketches;
use crate::scheduler::sketches::{Fingerprint, FingerprintCardinalitySketch};

verus! {

/// What a model is of, in order.
#[derive(Clone, Copy, Debug, PartialEq, Eq, Structural)]
pub enum ObservationModelKind {
    Relation,
    Statement,
}

/// Which model one is.
#[derive(Clone, Copy, Debug, PartialEq, Eq, Structural)]
pub struct ModelId {
    pub kind: ObservationModelKind,
    pub family: Fingerprint,
}

impl ModelId {
    /// The identity of a model.
    pub fn new(kind: ObservationModelKind, family: Fingerprint) -> (id: ModelId)
        ensures
            id == (ModelId { kind, family }),
    {
        ModelId { kind, family }
    }

    /// The identity of a model.
    pub fn of(model: &QueryModel) -> (id: ModelId)
        ensures
            id == model@.id(),
    {
        ModelId { kind: model.kind, family: model.family }
    }

    /// Whether one model is ordered before another: relations first, then by
    /// family.
    pub open spec fn spec_before(self, other: ModelId) -> bool {
        ||| self.kind is Relation && other.kind is Statement
        ||| self.kind == other.kind && self.family.spec_before(other.family)
    }

    /// Whether one model is ordered before another.
    pub fn before(self, other: ModelId) -> (before: bool)
        ensures
            before == self.spec_before(other),
    {
        match (self.kind, other.kind) {
            (ObservationModelKind::Relation, ObservationModelKind::Statement) => true,
            (ObservationModelKind::Statement, ObservationModelKind::Relation) => false,
            _ => self.family.before(other.family),
        }
    }
}

/// The fingerprints of a part of a query.
#[derive(Clone, Copy, Debug, PartialEq, Eq, Structural)]
pub struct RelationFingerprints {
    pub exact: Fingerprint,
    pub family: Fingerprint,
}

/// What was observed of a part of a query.
#[derive(Clone, Copy, Debug, PartialEq, Eq, Structural)]
pub struct RelationObservation {
    pub family: Fingerprint,
    pub rows: u64,
    pub estimate: Option<u64>,
}

/// What was observed of one execution of a statement.
#[derive(Debug, PartialEq)]
pub struct StatementObservation {
    pub exact: Fingerprint,
    pub family: Fingerprint,
    pub subtrees: Vec<RelationFingerprints>,
    pub plan: Option<Fingerprint>,
    pub bind_micros: u64,
    pub execute_micros: u64,
    pub rows: u64,
    pub estimate: Option<u64>,
    pub stamp: DependencyStamp,
    pub relations: Vec<RelationObservation>,
    pub affected: u64,
    pub mutated: Option<u64>,
    pub kv: KvResourceSample,
}

/// The value of a [`StatementObservation`].
#[verifier::ext_equal]
pub struct ObservationView {
    pub exact: Fingerprint,
    pub family: Fingerprint,
    pub subtrees: Seq<RelationFingerprints>,
    pub plan: Option<Fingerprint>,
    pub bind_micros: u64,
    pub execute_micros: u64,
    pub rows: u64,
    pub estimate: Option<u64>,
    pub stamp: DependencyStamp,
    pub relations: Seq<RelationObservation>,
    pub affected: u64,
    pub mutated: Option<u64>,
    pub kv: KvResourceSample,
}

impl View for StatementObservation {
    type V = ObservationView;

    open spec fn view(&self) -> ObservationView {
        ObservationView {
            exact: self.exact,
            family: self.family,
            subtrees: self.subtrees@,
            plan: self.plan,
            bind_micros: self.bind_micros,
            execute_micros: self.execute_micros,
            rows: self.rows,
            estimate: self.estimate,
            stamp: self.stamp,
            relations: self.relations@,
            affected: self.affected,
            mutated: self.mutated,
            kv: self.kv,
        }
    }
}

/// How many plans a model tells apart.
pub const MAX_PLANS_PER_MODEL: usize = 8;

/// What was gathered of one family. Counts stop at their maximum. Times are in
/// microseconds since the epoch. The moving mean of durations is given by the
/// bits of a float that is not negative, so means are ordered as their bits.
#[derive(Debug, PartialEq)]
pub struct QueryModel {
    pub family: Fingerprint,
    pub kind: ObservationModelKind,
    pub executions: u64,
    pub last_seen: u64,
    pub rows: Log2Histogram,
    pub execute_micros: Log2Histogram,
    pub bind_micros: Log2Histogram,
    pub resources: KvResourceDistribution,
    pub duration_ewma_bits: u64,
    pub plans: Vec<(Fingerprint, u64)>,
    pub plan_profiles: Vec<PlanProfile>,
    pub exact_variants: FingerprintCardinalitySketch,
    pub estimated_executions: u64,
    pub q_errors: Log2Histogram,
    pub q_error_max_x100: u64,
    pub stamp: DependencyStamp,
}

/// The value of a [`QueryModel`].
#[verifier::ext_equal]
pub struct ModelView {
    pub family: Fingerprint,
    pub kind: ObservationModelKind,
    pub executions: u64,
    pub last_seen: u64,
    pub rows: HistogramView,
    pub execute_micros: HistogramView,
    pub bind_micros: HistogramView,
    pub resources: ResourcesView,
    pub duration_ewma_bits: u64,
    pub plans: Seq<(Fingerprint, u64)>,
    pub plan_profiles: Seq<ProfileView>,
    pub exact_variants: Seq<Fingerprint>,
    pub estimated_executions: u64,
    pub q_errors: HistogramView,
    pub q_error_max_x100: u64,
    pub stamp: DependencyStamp,
}

impl View for QueryModel {
    type V = ModelView;

    open spec fn view(&self) -> ModelView {
        ModelView {
            family: self.family,
            kind: self.kind,
            executions: self.executions,
            last_seen: self.last_seen,
            rows: self.rows@,
            execute_micros: self.execute_micros@,
            bind_micros: self.bind_micros@,
            resources: self.resources@,
            duration_ewma_bits: self.duration_ewma_bits,
            plans: self.plans@,
            plan_profiles: evidence::profile_views(self.plan_profiles@),
            exact_variants: self.exact_variants.seen@,
            estimated_executions: self.estimated_executions,
            q_errors: self.q_errors@,
            q_error_max_x100: self.q_error_max_x100,
            stamp: self.stamp,
        }
    }
}

/// The views of a run of models.
pub open spec fn model_views(models: Seq<QueryModel>) -> Seq<ModelView> {
    Seq::new(models.len(), |i: int| models[i]@)
}

/// Where a plan is counted, from a place on; the end where it is not.
pub open spec fn plan_place(plans: Seq<(Fingerprint, u64)>, plan: Fingerprint, from: nat) -> nat
    decreases plans.len() - from,
{
    if from < plans.len() && plans[from as int].0 != plan {
        plan_place(plans, plan, from + 1)
    } else {
        from
    }
}

/// Plan counts after more executions of a plan. A new plan is only counted
/// while there is room.
pub open spec fn plan_counted(
    plans: Seq<(Fingerprint, u64)>,
    plan: Fingerprint,
    count: u64,
) -> Seq<(Fingerprint, u64)> {
    let place = plan_place(plans, plan, 0) as int;
    if place < plans.len() {
        plans.update(place, (plans[place].0, plans[place].1.saturating_add(count)))
    } else if plans.len() < MAX_PLANS_PER_MODEL {
        plans.push((plan, count))
    } else {
        plans
    }
}

/// Plan counts after those of another model.
pub open spec fn plans_merged(
    plans: Seq<(Fingerprint, u64)>,
    incoming: Seq<(Fingerprint, u64)>,
) -> Seq<(Fingerprint, u64)>
    decreases incoming.len(),
{
    if incoming.len() == 0 {
        plans
    } else {
        plan_counted(
            plans_merged(plans, incoming.drop_last()),
            incoming.last().0,
            incoming.last().1,
        )
    }
}

/// Where a profile stands, from a place on; the end where there is none.
pub open spec fn profile_place(
    profiles: Seq<ProfileView>,
    plan: Fingerprint,
    access_stamp: u64,
    from: nat,
) -> nat
    decreases profiles.len() - from,
{
    if from < profiles.len() && !profiles[from as int].is_of(plan, access_stamp) {
        profile_place(profiles, plan, access_stamp, from + 1)
    } else {
        from
    }
}

/// Profiles after one more execution of a plan. A new one is only kept while
/// there is room.
pub open spec fn profile_recorded(
    profiles: Seq<ProfileView>,
    plan: Fingerprint,
    access_stamp: u64,
    rows: u64,
    execute_micros: u64,
    sample: KvResourceSample,
) -> Seq<ProfileView> {
    let place = profile_place(profiles, plan, access_stamp, 0) as int;
    if place < profiles.len() {
        profiles.update(place, profiles[place].recorded_with(rows, execute_micros, sample))
    } else if profiles.len() < MAX_PLANS_PER_MODEL {
        profiles.push(
            ProfileView::empty(plan, access_stamp).recorded_with(rows, execute_micros, sample),
        )
    } else {
        profiles
    }
}

/// Profiles after one of another model.
pub open spec fn profile_merged(profiles: Seq<ProfileView>, incoming: ProfileView) -> Seq<
    ProfileView,
> {
    let place = profile_place(profiles, incoming.plan, incoming.access_stamp, 0) as int;
    if place < profiles.len() {
        profiles.update(place, profiles[place].merged(incoming))
    } else if profiles.len() < MAX_PLANS_PER_MODEL {
        profiles.push(incoming)
    } else {
        profiles
    }
}

/// Profiles after those of another model.
pub open spec fn profiles_merged(
    profiles: Seq<ProfileView>,
    incoming: Seq<ProfileView>,
) -> Seq<ProfileView>
    decreases incoming.len(),
{
    if incoming.len() == 0 {
        profiles
    } else {
        profile_merged(profiles_merged(profiles, incoming.drop_last()), incoming.last())
    }
}

impl ModelView {
    /// The identity of a model.
    pub open spec fn id(self) -> ModelId {
        ModelId { kind: self.kind, family: self.family }
    }

    /// Whether every histogram has its buckets.
    pub open spec fn wf(self) -> bool {
        &&& self.rows.buckets.len() == 65
        &&& self.execute_micros.buckets.len() == 65
        &&& self.bind_micros.buckets.len() == 65
        &&& self.q_errors.buckets.len() == 65
        &&& self.resources.wf()
    }

    /// A model of which nothing was observed.
    pub open spec fn empty(family: Fingerprint, kind: ObservationModelKind) -> ModelView {
        ModelView {
            family,
            kind,
            executions: 0,
            last_seen: 0,
            rows: HistogramView::empty(),
            execute_micros: HistogramView::empty(),
            bind_micros: HistogramView::empty(),
            resources: ResourcesView::empty(),
            duration_ewma_bits: 0,
            plans: Seq::empty(),
            plan_profiles: Seq::empty(),
            exact_variants: Seq::empty(),
            estimated_executions: 0,
            q_errors: HistogramView::empty(),
            q_error_max_x100: 0,
            stamp: DependencyStamp { semantic: 0, access: 0 },
        }
    }

    /// A model under a stamp: it starts over where the stamp says that the
    /// family means something else now.
    pub open spec fn restarted(self, stamp: DependencyStamp) -> ModelView {
        if self.executions > 0 && self.stamp.semantic != stamp.semantic {
            ModelView { stamp, ..ModelView::empty(self.family, self.kind) }
        } else {
            ModelView { stamp, ..self }
        }
    }

    /// A model after an estimate was held against what came.
    pub open spec fn estimate_recorded(self, estimate: Option<u64>, actual: u64) -> ModelView {
        match estimate {
            Some(estimate) => {
                let error = evidence::q_error(estimate, actual);
                ModelView {
                    estimated_executions: self.estimated_executions.saturating_add(1),
                    q_errors: self.q_errors.recorded(error, 1),
                    q_error_max_x100: histogram::larger(self.q_error_max_x100, error),
                    ..self
                }
            },
            None => self,
        }
    }

    /// A model after a plan was executed.
    pub open spec fn plan_recorded(
        self,
        plan: Option<Fingerprint>,
        access_stamp: u64,
        rows: u64,
        execute_micros: u64,
        sample: KvResourceSample,
    ) -> ModelView {
        match plan {
            Some(plan) => ModelView {
                plans: plan_counted(self.plans, plan, 1),
                plan_profiles: profile_recorded(
                    self.plan_profiles,
                    plan,
                    access_stamp,
                    rows,
                    execute_micros,
                    sample,
                ),
                ..self
            },
            None => self,
        }
    }

    /// The mean that the next mean is computed from; none where the next
    /// execution is the first.
    pub open spec fn mean_before(self, stamp: DependencyStamp) -> Option<u64> {
        let model = self.restarted(stamp);
        if model.executions == 0 {
            None
        } else {
            Some(model.duration_ewma_bits)
        }
    }

    /// A model after one execution of its statement, with the moving mean after
    /// it.
    pub open spec fn statement_recorded(
        self,
        observation: ObservationView,
        at: u64,
        mean: u64,
    ) -> ModelView {
        let model = self.restarted(observation.stamp);
        let counted = ModelView {
            executions: model.executions.saturating_add(1),
            last_seen: at,
            rows: model.rows.recorded(observation.rows, 1),
            execute_micros: model.execute_micros.recorded(observation.execute_micros, 1),
            bind_micros: model.bind_micros.recorded(observation.bind_micros, 1),
            resources: model.resources.recorded(observation.kv),
            duration_ewma_bits: mean,
            ..model
        };
        let planned = counted.plan_recorded(
            observation.plan,
            observation.stamp.access,
            observation.rows,
            observation.execute_micros,
            observation.kv,
        );
        let estimated = planned.estimate_recorded(observation.estimate, observation.rows);
        ModelView {
            exact_variants: sketches::noticed(estimated.exact_variants, observation.exact),
            ..estimated
        }
    }

    /// A model after one reading of its relation.
    pub open spec fn relation_recorded(
        self,
        relation: RelationObservation,
        stamp: DependencyStamp,
        at: u64,
    ) -> ModelView {
        let model = self.restarted(stamp);
        ModelView {
            executions: model.executions.saturating_add(1),
            last_seen: at,
            rows: model.rows.recorded(relation.rows, 1),
            ..model
        }.estimate_recorded(relation.estimate, relation.rows)
    }

    /// A model with later evidence of the same kind folded in. Where the later
    /// evidence is of another meaning, it replaces what came before.
    pub open spec fn merged(self, incoming: ModelView) -> ModelView {
        if self.kind != incoming.kind {
            self
        } else if self.executions > 0 && self.stamp.semantic != incoming.stamp.semantic {
            ModelView { family: self.family, ..incoming }
        } else {
            let newer = incoming.last_seen > self.last_seen || (incoming.last_seen
                == self.last_seen && incoming.duration_ewma_bits > self.duration_ewma_bits);
            ModelView {
                family: self.family,
                kind: self.kind,
                executions: self.executions.saturating_add(incoming.executions),
                last_seen: histogram::larger(self.last_seen, incoming.last_seen),
                rows: self.rows.merged(incoming.rows),
                execute_micros: self.execute_micros.merged(incoming.execute_micros),
                bind_micros: self.bind_micros.merged(incoming.bind_micros),
                resources: self.resources.merged(incoming.resources),
                duration_ewma_bits: if incoming.duration_ewma_bits > 0 && newer {
                    incoming.duration_ewma_bits
                } else {
                    self.duration_ewma_bits
                },
                plans: plans_merged(self.plans, incoming.plans),
                plan_profiles: profiles_merged(self.plan_profiles, incoming.plan_profiles),
                exact_variants: sketches::noticed_all(self.exact_variants, incoming.exact_variants),
                estimated_executions: self.estimated_executions.saturating_add(
                    incoming.estimated_executions,
                ),
                q_errors: self.q_errors.merged(incoming.q_errors),
                q_error_max_x100: histogram::larger(
                    self.q_error_max_x100,
                    incoming.q_error_max_x100,
                ),
                stamp: incoming.stamp,
            }
        }
    }
}

/// A copy of plan counts.
pub fn copy_plans(plans: &Vec<(Fingerprint, u64)>) -> (copy: Vec<(Fingerprint, u64)>)
    ensures
        copy@ == plans@,
{
    let mut copy: Vec<(Fingerprint, u64)> = Vec::new();
    let mut i: usize = 0;
    while i < plans.len()
        invariant
            i <= plans.len(),
            copy@ =~= plans@.take(i as int),
        decreases plans.len() - i,
    {
        copy.push(plans[i]);
        i += 1;
    }
    assert(copy@ =~= plans@);
    copy
}

/// A copy of profiles.
pub fn copy_profiles(profiles: &Vec<PlanProfile>) -> (copy: Vec<PlanProfile>)
    ensures
        copy@ == profiles@,
{
    let mut copy: Vec<PlanProfile> = Vec::new();
    let mut i: usize = 0;
    while i < profiles.len()
        invariant
            i <= profiles.len(),
            copy@ =~= profiles@.take(i as int),
        decreases profiles.len() - i,
    {
        copy.push(profiles[i]);
        i += 1;
    }
    assert(copy@ =~= profiles@);
    copy
}

fn count_plan(plans: &mut Vec<(Fingerprint, u64)>, plan: Fingerprint, count: u64)
    ensures
        final(plans)@ == plan_counted(old(plans)@, plan, count),
{
    let mut i: usize = 0;
    while i < plans.len() && plans[i].0 != plan
        invariant
            i <= plans.len(),
            plans@ == old(plans)@,
            plan_place(plans@, plan, 0) == plan_place(plans@, plan, i as nat),
        decreases plans.len() - i,
    {
        i += 1;
    }
    if i < plans.len() {
        let known: u64 = plans[i].1.saturating_add(count);
        let next = (plans[i].0, known);
        plans.set(i, next);
    } else if plans.len() < MAX_PLANS_PER_MODEL {
        plans.push((plan, count));
    }
}

fn find_profile(profiles: &Vec<PlanProfile>, plan: Fingerprint, access_stamp: u64) -> (place: usize)
    ensures
        place == profile_place(evidence::profile_views(profiles@), plan, access_stamp, 0),
        place <= profiles.len(),
{
    let ghost all = evidence::profile_views(profiles@);
    let mut i: usize = 0;
    while i < profiles.len() && !(profiles[i].plan == plan && profiles[i].access_stamp
        == access_stamp)
        invariant
            i <= profiles.len(),
            all == evidence::profile_views(profiles@),
            profile_place(all, plan, access_stamp, 0) == profile_place(
                all,
                plan,
                access_stamp,
                i as nat,
            ),
        decreases profiles.len() - i,
    {
        assert(all[i as int] == profiles@[i as int]@);
        i += 1;
    }
    if i < profiles.len() {
        assert(all[i as int] == profiles@[i as int]@);
    }
    i
}

fn merge_profile(profiles: &mut Vec<PlanProfile>, incoming: &PlanProfile)
    ensures
        evidence::profile_views(final(profiles)@) == profile_merged(
            evidence::profile_views(old(profiles)@),
            incoming@,
        ),
{
    let ghost all = evidence::profile_views(profiles@);
    let place: usize = find_profile(profiles, incoming.plan, incoming.access_stamp);
    if place < profiles.len() {
        let mut profile: PlanProfile = profiles[place];
        assert(all[place as int] == profile@);
        profile.merge(incoming);
        profiles.set(place, profile);
    } else if profiles.len() < MAX_PLANS_PER_MODEL {
        profiles.push(*incoming);
    }
    assert(evidence::profile_views(profiles@) =~= profile_merged(all, incoming@));
}

impl QueryModel {
    /// A model of which nothing was observed.
    pub fn new(family: Fingerprint, kind: ObservationModelKind) -> (model: QueryModel)
        ensures
            model@ == ModelView::empty(family, kind),
    {
        let model = QueryModel {
            family,
            kind,
            executions: 0,
            last_seen: 0,
            rows: Log2Histogram::default(),
            execute_micros: Log2Histogram::default(),
            bind_micros: Log2Histogram::default(),
            resources: KvResourceDistribution::default(),
            duration_ewma_bits: 0,
            plans: Vec::new(),
            plan_profiles: Vec::new(),
            exact_variants: FingerprintCardinalitySketch::default(),
            estimated_executions: 0,
            q_errors: Log2Histogram::default(),
            q_error_max_x100: 0,
            stamp: DependencyStamp::default(),
        };
        assert(model@ =~= ModelView::empty(family, kind));
        model
    }

    /// A copy of a model.
    pub fn copy(&self) -> (model: QueryModel)
        ensures
            model@ == self@,
    {
        QueryModel {
            family: self.family,
            kind: self.kind,
            executions: self.executions,
            last_seen: self.last_seen,
            rows: self.rows,
            execute_micros: self.execute_micros,
            bind_micros: self.bind_micros,
            resources: self.resources,
            duration_ewma_bits: self.duration_ewma_bits,
            plans: copy_plans(&self.plans),
            plan_profiles: copy_profiles(&self.plan_profiles),
            exact_variants: self.exact_variants.copy(),
            estimated_executions: self.estimated_executions,
            q_errors: self.q_errors,
            q_error_max_x100: self.q_error_max_x100,
            stamp: self.stamp,
        }
    }

    fn restart_if_redefined(&mut self, stamp: DependencyStamp)
        ensures
            final(self)@ == old(self)@.restarted(stamp),
    {
        if self.executions > 0 && self.stamp.semantic != stamp.semantic {
            *self = QueryModel::new(self.family, self.kind);
        }
        self.stamp = stamp;
    }

    /// The mean that the next mean is computed from; none where the next
    /// execution is the first.
    pub fn mean_before(&self, stamp: DependencyStamp) -> (mean: Option<u64>)
        ensures
            mean == self@.mean_before(stamp),
    {
        if self.executions == 0 || self.stamp.semantic != stamp.semantic {
            None
        } else {
            Some(self.duration_ewma_bits)
        }
    }

    /// Records one execution of the statement. The mean is the moving mean of
    /// durations after it.
    pub fn record_statement(&mut self, observation: &StatementObservation, at: u64, mean: u64)
        ensures
            final(self)@ == old(self)@.statement_recorded(observation@, at, mean),
    {
        self.restart_if_redefined(observation.stamp);
        self.executions = self.executions.saturating_add(1);
        self.last_seen = at;
        self.rows.record(observation.rows);
        self.execute_micros.record(observation.execute_micros);
        self.bind_micros.record(observation.bind_micros);
        self.resources.record(observation.kv);
        self.duration_ewma_bits = mean;
        if let Some(plan) = observation.plan {
            self.record_plan(
                plan,
                observation.stamp.access,
                observation.rows,
                observation.execute_micros,
                observation.kv,
            );
        }
        if let Some(estimate) = observation.estimate {
            self.record_estimate(estimate, observation.rows);
        }
        self.exact_variants.record(&observation.exact);
    }

    /// Records one reading of the relation.
    pub fn record_relation(
        &mut self,
        relation: &RelationObservation,
        stamp: DependencyStamp,
        at: u64,
    )
        ensures
            final(self)@ == old(self)@.relation_recorded(*relation, stamp, at),
    {
        self.restart_if_redefined(stamp);
        self.executions = self.executions.saturating_add(1);
        self.last_seen = at;
        self.rows.record(relation.rows);
        if let Some(estimate) = relation.estimate {
            self.record_estimate(estimate, relation.rows);
        }
    }

    fn record_plan(
        &mut self,
        plan: Fingerprint,
        access_stamp: u64,
        rows: u64,
        execute_micros: u64,
        resources: KvResourceSample,
    )
        ensures
            final(self)@ == old(self)@.plan_recorded(
                Some(plan),
                access_stamp,
                rows,
                execute_micros,
                resources,
            ),
    {
        count_plan(&mut self.plans, plan, 1);
        let ghost all = evidence::profile_views(self.plan_profiles@);
        let place: usize = find_profile(&self.plan_profiles, plan, access_stamp);
        if place < self.plan_profiles.len() {
            let mut profile: PlanProfile = self.plan_profiles[place];
            assert(all[place as int] == profile@);
            profile.record_with_resources(rows, execute_micros, resources);
            self.plan_profiles.set(place, profile);
        } else if self.plan_profiles.len() < MAX_PLANS_PER_MODEL {
            let mut profile = PlanProfile::new(plan, access_stamp);
            profile.record_with_resources(rows, execute_micros, resources);
            self.plan_profiles.push(profile);
        }
        assert(evidence::profile_views(self.plan_profiles@) =~= profile_recorded(
            all,
            plan,
            access_stamp,
            rows,
            execute_micros,
            resources,
        ));
    }

    fn record_estimate(&mut self, estimated: u64, actual: u64)
        ensures
            final(self)@ == old(self)@.estimate_recorded(Some(estimated), actual),
    {
        let error: u64 = q_error_x100(estimated, actual);
        self.estimated_executions = self.estimated_executions.saturating_add(1);
        self.q_errors.record(error);
        self.q_error_max_x100 = max_of(self.q_error_max_x100, error);
    }

    /// Folds in later evidence of the same family.
    pub fn merge(&mut self, incoming: &QueryModel)
        ensures
            final(self)@ == old(self)@.merged(incoming@),
    {
        if self.kind != incoming.kind {
            return;
        }
        if self.executions > 0 && self.stamp.semantic != incoming.stamp.semantic {
            let family = self.family;
            *self = incoming.copy();
            self.family = family;
            return;
        }
        let newer = incoming.last_seen > self.last_seen || (incoming.last_seen == self.last_seen
            && incoming.duration_ewma_bits > self.duration_ewma_bits);
        self.stamp = incoming.stamp;
        self.executions = self.executions.saturating_add(incoming.executions);
        self.last_seen = max_of(self.last_seen, incoming.last_seen);
        self.rows.merge(&incoming.rows);
        self.execute_micros.merge(&incoming.execute_micros);
        self.bind_micros.merge(&incoming.bind_micros);
        self.resources.merge(&incoming.resources);
        self.q_errors.merge(&incoming.q_errors);
        self.q_error_max_x100 = max_of(self.q_error_max_x100, incoming.q_error_max_x100);
        self.estimated_executions = self.estimated_executions.saturating_add(
            incoming.estimated_executions,
        );
        self.exact_variants.merge(&incoming.exact_variants);
        if incoming.duration_ewma_bits > 0 && newer {
            self.duration_ewma_bits = incoming.duration_ewma_bits;
        }
        self.merge_plans(incoming);
        self.merge_profiles(incoming);
    }

    fn merge_plans(&mut self, incoming: &QueryModel)
        ensures
            final(self)@ == (ModelView {
                plans: plans_merged(old(self)@.plans, incoming@.plans),
                ..old(self)@
            }),
    {
        let ghost before = self@;
        let mut i: usize = 0;
        assert(incoming.plans@.take(0) =~= Seq::empty());
        while i < incoming.plans.len()
            invariant
                i <= incoming.plans.len(),
                self@ == (ModelView {
                    plans: plans_merged(before.plans, incoming.plans@.take(i as int)),
                    ..before
                }),
            decreases incoming.plans.len() - i,
        {
            proof {
                assert(incoming.plans@.take(i + 1).drop_last() =~= incoming.plans@.take(i as int));
            }
            count_plan(&mut self.plans, incoming.plans[i].0, incoming.plans[i].1);
            i += 1;
        }
        assert(incoming.plans@.take(i as int) =~= incoming.plans@);
    }

    fn merge_profiles(&mut self, incoming: &QueryModel)
        ensures
            final(self)@ == (ModelView {
                plan_profiles: profiles_merged(old(self)@.plan_profiles, incoming@.plan_profiles),
                ..old(self)@
            }),
    {
        let ghost before = self@;
        let ghost all = incoming@.plan_profiles;
        let mut i: usize = 0;
        assert(all.take(0) =~= Seq::empty());
        while i < incoming.plan_profiles.len()
            invariant
                i <= incoming.plan_profiles.len(),
                all == evidence::profile_views(incoming.plan_profiles@),
                self@ == (ModelView {
                    plan_profiles: profiles_merged(before.plan_profiles, all.take(i as int)),
                    ..before
                }),
            decreases incoming.plan_profiles.len() - i,
        {
            proof {
                assert(all.take(i + 1).drop_last() =~= all.take(i as int));
                assert(all.take(i + 1).last() == incoming.plan_profiles@[i as int]@);
            }
            merge_profile(&mut self.plan_profiles, &incoming.plan_profiles[i]);
            i += 1;
        }
        assert(all.take(i as int) =~= all);
    }
}

// ---- what merging promises ----

/// What can be added up of a model: everything but the moving mean, the plans
/// and the variants, of which only a bounded part is kept.
pub open spec fn evidence_of(model: ModelView) -> ModelView {
    ModelView {
        duration_ewma_bits: 0,
        plans: Seq::empty(),
        plan_profiles: Seq::empty(),
        exact_variants: Seq::empty(),
        ..model
    }
}

/// A model after a run of observations, each with its time.
pub open spec fn gathered(model: ModelView, observed: Seq<(ObservationView, u64)>) -> ModelView
    decreases observed.len(),
{
    if observed.len() == 0 {
        model
    } else {
        gathered(model, observed.drop_last()).statement_recorded(
            observed.last().0,
            observed.last().1,
            0,
        )
    }
}

proof fn lemma_gathered_keeps(model: ModelView, observed: Seq<(ObservationView, u64)>, semantic: u64)
    requires
        model.wf(),
        model.executions > 0 ==> model.stamp.semantic == semantic,
        forall|i: int| 0 <= i < observed.len() ==> (#[trigger] observed[i]).0.stamp.semantic
            == semantic,
    ensures
        gathered(model, observed).wf(),
        gathered(model, observed).kind == model.kind,
        gathered(model, observed).family == model.family,
        observed.len() > 0 ==> gathered(model, observed).executions > 0,
        gathered(model, observed).executions > 0 ==> gathered(model, observed).stamp.semantic
            == semantic,
    decreases observed.len(),
{
    broadcast use histogram::recording_keeps_buckets;

    if observed.len() > 0 {
        let shorter = observed.drop_last();
        assert forall|i: int| 0 <= i < shorter.len() implies (#[trigger] shorter[i]).0.stamp.semantic
            == semantic by {
            assert(observed[i] == shorter[i]);
        }
        lemma_gathered_keeps(model, shorter, semantic);
        assert(observed[observed.len() - 1] == observed.last());
    }
}

proof fn lemma_same_evidence(left: ModelView, right: ModelView, observation: ObservationView, at: u64)
    requires
        evidence_of(left) == evidence_of(right),
    ensures
        evidence_of(left.statement_recorded(observation, at, 0)) == evidence_of(
            right.statement_recorded(observation, at, 0),
        ),
{
    let model = evidence_of(left);
    assert(left.rows == model.rows && right.rows == model.rows);
    assert(left.execute_micros == model.execute_micros && right.execute_micros
        == model.execute_micros);
    assert(left.bind_micros == model.bind_micros && right.bind_micros == model.bind_micros);
    assert(left.resources == model.resources && right.resources == model.resources);
    assert(left.q_errors == model.q_errors && right.q_errors == model.q_errors);
    assert(left.executions == model.executions && right.executions == model.executions);
    assert(left.last_seen == model.last_seen && right.last_seen == model.last_seen);
    assert(left.stamp == model.stamp && right.stamp == model.stamp);
    assert(left.family == model.family && right.family == model.family);
    assert(left.kind == model.kind && right.kind == model.kind);
    assert(left.estimated_executions == model.estimated_executions && right.estimated_executions
        == model.estimated_executions);
    assert(left.q_error_max_x100 == model.q_error_max_x100 && right.q_error_max_x100
        == model.q_error_max_x100);
}

proof fn lemma_merge_of_recorded(
    base: ModelView,
    delta: ModelView,
    observation: ObservationView,
    at: u64,
)
    requires
        base.wf(),
        delta.wf(),
        base.kind == delta.kind,
        delta.executions > 0 ==> delta.stamp.semantic == observation.stamp.semantic,
        base.executions > 0 ==> base.stamp.semantic == observation.stamp.semantic,
        base.executions > 0 ==> base.stamp.semantic == delta.stamp.semantic,
        delta.last_seen <= at,
        base.last_seen <= at,
    ensures
        evidence_of(base.merged(delta.statement_recorded(observation, at, 0))) == evidence_of(
            base.merged(delta).statement_recorded(observation, at, 0),
        ),
{
    histogram::merging_is_recording(base.rows, delta.rows, observation.rows, 1);
    histogram::merging_is_recording(
        base.execute_micros,
        delta.execute_micros,
        observation.execute_micros,
        1,
    );
    histogram::merging_is_recording(
        base.bind_micros,
        delta.bind_micros,
        observation.bind_micros,
        1,
    );
    evidence::merging_resources_is_recording(base.resources, delta.resources, observation.kv);
    if let Some(estimate) = observation.estimate {
        histogram::merging_is_recording(
            base.q_errors,
            delta.q_errors,
            evidence::q_error(estimate, observation.rows),
            1,
        );
    }
}

proof fn lemma_first_observation(
    base: ModelView,
    observation: ObservationView,
    at: u64,
    semantic: u64,
)
    requires
        base.wf(),
        base.executions > 0 ==> base.stamp.semantic == semantic,
        observation.stamp.semantic == semantic,
        base.last_seen <= at,
    ensures
        evidence_of(
            base.merged(
                ModelView::empty(base.family, base.kind).statement_recorded(observation, at, 0),
            ),
        ) == evidence_of(base.statement_recorded(observation, at, 0)),
{
    let empty = ModelView::empty(base.family, base.kind);
    let first = ModelView { stamp: observation.stamp, ..empty };
    assert(empty.statement_recorded(observation, at, 0) == first.statement_recorded(
        observation,
        at,
        0,
    ));
    lemma_merge_of_recorded(base, first, observation, at);
    histogram::merging_nothing_changes_nothing(base.rows);
    histogram::merging_nothing_changes_nothing(base.execute_micros);
    histogram::merging_nothing_changes_nothing(base.bind_micros);
    histogram::merging_nothing_changes_nothing(base.q_errors);
    evidence::merging_no_resources_changes_nothing(base.resources);
    let stamped = ModelView { stamp: observation.stamp, ..base };
    assert(evidence_of(base.merged(first)) == evidence_of(stamped));
    lemma_same_evidence(base.merged(first), stamped, observation, at);
    assert(stamped.statement_recorded(observation, at, 0) == base.statement_recorded(
        observation,
        at,
        0,
    ));
}

/// Evidence that is gathered in pieces and merged is the evidence that would
/// have been gathered in one place: a model into which a delta is merged is,
/// but for what cannot be added up, the model that saw the observations of the
/// delta itself.
pub proof fn merged_deltas_equal_gathered_evidence(
    base: ModelView,
    observed: Seq<(ObservationView, u64)>,
    semantic: u64,
)
    requires
        base.wf(),
        base.executions > 0 ==> base.stamp.semantic == semantic,
        observed.len() > 0,
        forall|i: int| 0 <= i < observed.len() ==> (#[trigger] observed[i]).0.stamp.semantic
            == semantic,
        forall|i: int| 0 <= i < observed.len() ==> base.last_seen <= (#[trigger] observed[i]).1,
        forall|i: int, k: int|
            0 <= i <= k < observed.len() ==> (#[trigger] observed[i]).1 <= (
            #[trigger] observed[k]).1,
    ensures
        evidence_of(base.merged(gathered(ModelView::empty(base.family, base.kind), observed)))
            == evidence_of(gathered(base, observed)),
    decreases observed.len(),
{
    let empty = ModelView::empty(base.family, base.kind);
    let shorter = observed.drop_last();
    let last = observed.last();
    assert(observed[observed.len() - 1] == last);
    assert forall|i: int| 0 <= i < shorter.len() implies (#[trigger] shorter[i]).0.stamp.semantic
        == semantic by {
        assert(observed[i] == shorter[i]);
    }
    lemma_gathered_keeps(empty, shorter, semantic);
    lemma_gathered_keeps(base, shorter, semantic);
    lemma_last_time(empty, shorter, last.1);
    let delta = gathered(empty, shorter);
    if shorter.len() == 0 {
        assert(delta == empty);
        lemma_first_observation(base, last.0, last.1, semantic);
        assert(gathered(base, shorter) == base);
    } else {
        assert forall|i: int| 0 <= i < shorter.len() implies base.last_seen <= (
        #[trigger] shorter[i]).1 by {
            assert(observed[i] == shorter[i]);
        }
        assert forall|i: int, k: int| 0 <= i <= k < shorter.len() implies (
        #[trigger] shorter[i]).1 <= (#[trigger] shorter[k]).1 by {
            assert(observed[i] == shorter[i]);
            assert(observed[k] == shorter[k]);
        }
        merged_deltas_equal_gathered_evidence(base, shorter, semantic);
        assert forall|i: int| 0 <= i < shorter.len() implies (#[trigger] shorter[i]).1
            <= last.1 by {
            assert(observed[i] == shorter[i]);
        }
        lemma_merge_of_recorded(base, delta, last.0, last.1);
        lemma_same_evidence(base.merged(delta), gathered(base, shorter), last.0, last.1);
    }
}

proof fn lemma_last_time(
    model: ModelView,
    observed: Seq<(ObservationView, u64)>,
    at: u64,
)
    requires
        model.last_seen <= at,
        forall|i: int| 0 <= i < observed.len() ==> (#[trigger] observed[i]).1 <= at,
    ensures
        gathered(model, observed).last_seen <= at,
    decreases observed.len(),
{
    if observed.len() > 0 {
        let shorter = observed.drop_last();
        assert forall|i: int| 0 <= i < shorter.len() implies (#[trigger] shorter[i]).1 <= at by {
            assert(observed[i] == shorter[i]);
        }
        lemma_last_time(model, shorter, at);
        assert(observed[observed.len() - 1] == observed.last());
    }
}

/// A family that means something else starts over: nothing that was gathered
/// before is kept.
pub proof fn a_moved_meaning_starts_over(
    model: ModelView,
    observation: ObservationView,
    at: u64,
    mean: u64,
)
    requires
        model.executions > 0,
        model.stamp.semantic != observation.stamp.semantic,
    ensures
        model.statement_recorded(observation, at, mean) == ModelView::empty(
            model.family,
            model.kind,
        ).statement_recorded(observation, at, mean),
        model.statement_recorded(observation, at, mean).executions == 1,
{
}

/// The latest time wins in any order of merging.
pub proof fn merging_keeps_the_latest_time(left: ModelView, right: ModelView)
    requires
        left.kind == right.kind,
        left.stamp.semantic == right.stamp.semantic,
    ensures
        left.merged(right).last_seen == right.merged(left).last_seen,
        left.merged(right).last_seen == histogram::larger(left.last_seen, right.last_seen),
        left.duration_ewma_bits > 0 && right.duration_ewma_bits > 0 ==> left.merged(
            right,
        ).duration_ewma_bits == right.merged(left).duration_ewma_bits,
{
}

} // verus!
