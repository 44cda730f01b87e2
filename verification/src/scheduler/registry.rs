//! The hot registry: models of the families that are seen most, with what is
//! still to be published of them.

use vstd::prelude::*;

use crate::scheduler::evidence::DependencyStamp;
use crate::scheduler::model;
use crate::scheduler::model::{
    ModelId, ModelView, ObservationModelKind, ObservationView, QueryModel, RelationFingerprints,
    RelationObservation, StatementObservation,
};
use crate::scheduler::records;
use crate::scheduler::records::{
    add_appearances, add_count, find_family, find_synopsis, halve, ProgramRecord, ProgramView,
    SynopsisModel, SynopsisView,
};
use crate::scheduler::sketches;
use crate::scheduler::sketches::{Fingerprint, FrequencySketch, SketchView};

verus! {

broadcast use records::group_counts_distinct;

/// How many captured programs wait for publication at most.
pub const MAX_PENDING_PROGRAMS: usize = 1024;

/// Models of the families that are seen most. Counts stop at their maximum.
#[derive(Debug, PartialEq)]
pub struct HotRegistry {
    pub sketch: FrequencySketch,
    pub models: Vec<QueryModel>,
    pub capacity: usize,
    pub absorbed: u64,
    pub evicted: u64,
    /// Changes of tables that were not published yet.
    pub table_change_deltas: Vec<(u64, u64)>,
    /// Changes of tables that no survey covered yet.
    pub survey_changes: Vec<(u64, u64)>,
    /// Captured programs that were not published yet, oldest first.
    pub pending_programs: Vec<ProgramRecord>,
    pub synopses: Vec<SynopsisModel>,
    pub synopses_dirty: bool,
    /// What was gathered since the last publication, by family.
    pub pending: Vec<QueryModel>,
    /// Appearances since the last publication.
    pub pending_frequency: Vec<(Fingerprint, u32)>,
    pub frequency_epoch: u64,
    pub pending_frequency_decays: u64,
    pub shed: u64,
    pub corpus_shed: u64,
    pub relayed: u64,
    pub relayed_corpus: u64,
    pub relayed_stale: u64,
    /// What families meant when they were last seen. It outlives their models.
    pub semantic_stamps: Vec<(Fingerprint, u64)>,
}

/// The value of a [`HotRegistry`].
#[verifier::ext_equal]
pub struct RegistryView {
    pub sketch: SketchView,
    pub models: Seq<ModelView>,
    pub capacity: usize,
    pub absorbed: u64,
    pub evicted: u64,
    pub table_change_deltas: Seq<(u64, u64)>,
    pub survey_changes: Seq<(u64, u64)>,
    pub pending_programs: Seq<ProgramView>,
    pub synopses: Seq<SynopsisView>,
    pub synopses_dirty: bool,
    pub pending: Seq<ModelView>,
    pub pending_frequency: Seq<(Fingerprint, u32)>,
    pub frequency_epoch: u64,
    pub pending_frequency_decays: u64,
    pub shed: u64,
    pub corpus_shed: u64,
    pub relayed: u64,
    pub relayed_corpus: u64,
    pub relayed_stale: u64,
    pub semantic_stamps: Seq<(Fingerprint, u64)>,
}

impl View for HotRegistry {
    type V = RegistryView;

    open spec fn view(&self) -> RegistryView {
        RegistryView {
            sketch: self.sketch@,
            models: model::model_views(self.models@),
            capacity: self.capacity,
            absorbed: self.absorbed,
            evicted: self.evicted,
            table_change_deltas: self.table_change_deltas@,
            survey_changes: self.survey_changes@,
            pending_programs: records::program_views(self.pending_programs@),
            synopses: records::synopsis_views(self.synopses@),
            synopses_dirty: self.synopses_dirty,
            pending: model::model_views(self.pending@),
            pending_frequency: self.pending_frequency@,
            frequency_epoch: self.frequency_epoch,
            pending_frequency_decays: self.pending_frequency_decays,
            shed: self.shed,
            corpus_shed: self.corpus_shed,
            relayed: self.relayed,
            relayed_corpus: self.relayed_corpus,
            relayed_stale: self.relayed_stale,
            semantic_stamps: self.semantic_stamps@,
        }
    }
}

/// Four times a capacity, up to the maximum.
pub open spec fn family_limit(capacity: usize) -> usize {
    if capacity * 4 > usize::MAX {
        usize::MAX
    } else {
        (capacity * 4) as usize
    }
}

fn limit_of(capacity: usize) -> (limit: usize)
    ensures
        limit == family_limit(capacity),
{
    if capacity > usize::MAX / 4 {
        usize::MAX
    } else {
        capacity * 4
    }
}

// ---- models by identity ----

/// Where a model stands, from a place on; the end where there is none.
pub open spec fn model_place(models: Seq<ModelView>, id: ModelId, from: nat) -> nat
    decreases models.len() - from,
{
    if from < models.len() && models[from as int].id() != id {
        model_place(models, id, from + 1)
    } else {
        from
    }
}

/// Whether there is a model.
pub open spec fn has_model(models: Seq<ModelView>, id: ModelId) -> bool {
    model_place(models, id, 0) < models.len()
}

/// Whether no two models are of the same family and kind.
pub open spec fn distinct(models: Seq<ModelView>) -> bool {
    forall|i: int, k: int|
        0 <= i < k < models.len() ==> (#[trigger] models[i]).id() != (#[trigger] models[k]).id()
}

/// Where a model stands; the end where there is none.
pub fn find_model(models: &Vec<QueryModel>, id: ModelId) -> (place: usize)
    ensures
        place == model_place(model::model_views(models@), id, 0),
        place <= models.len(),
        place < models.len() ==> models@[place as int]@.id() == id,
{
    let ghost all = model::model_views(models@);
    let mut i: usize = 0;
    while i < models.len() && ModelId::of(&models[i]) != id
        invariant
            i <= models.len(),
            all == model::model_views(models@),
            model_place(all, id, 0) == model_place(all, id, i as nat),
        decreases models.len() - i,
    {
        assert(all[i as int] == models@[i as int]@);
        i += 1;
    }
    if i < models.len() {
        assert(all[i as int] == models@[i as int]@);
    }
    i
}

/// Whether one model is colder than another: seen less often, then with fewer
/// executions, then first in order.
pub open spec fn colder(sketch: SketchView, left: ModelView, right: ModelView) -> bool {
    let a = sketch.estimate(left.family);
    let b = sketch.estimate(right.family);
    ||| a < b
    ||| a == b && left.executions < right.executions
    ||| a == b && left.executions == right.executions && left.id().spec_before(right.id())
}

/// The coldest of the first models.
pub open spec fn coldest(sketch: SketchView, models: Seq<ModelView>, length: nat) -> nat
    decreases length,
{
    if length <= 1 {
        0
    } else {
        let known = coldest(sketch, models, (length - 1) as nat);
        if colder(sketch, models[length - 1], models[known as int]) {
            (length - 1) as nat
        } else {
            known
        }
    }
}

fn find_coldest(sketch: &FrequencySketch, models: &Vec<QueryModel>) -> (place: usize)
    requires
        sketch@.wf(),
        models.len() > 0,
    ensures
        place == coldest(sketch@, model::model_views(models@), models@.len()),
        place < models.len(),
{
    let ghost all = model::model_views(models@);
    let mut place: usize = 0;
    let mut i: usize = 1;
    while i < models.len()
        invariant
            1 <= i <= models.len(),
            sketch@.wf(),
            all == model::model_views(models@),
            place == coldest(sketch@, all, i as nat),
            place < i,
        decreases models.len() - i,
    {
        let one = &models[i];
        let other = &models[place];
        assert(all[i as int] == one@);
        assert(all[place as int] == other@);
        let a: u32 = sketch.estimate(&one.family);
        let b: u32 = sketch.estimate(&other.family);
        let is_colder = a < b || a == b && (one.executions < other.executions || one.executions
            == other.executions && ModelId::of(one).before(ModelId::of(other)));
        if is_colder {
            place = i;
        }
        i += 1;
    }
    place
}

/// The family that was seen least of the first, the first in order of equals.
pub open spec fn coldest_stamp(
    sketch: SketchView,
    stamps: Seq<(Fingerprint, u64)>,
    length: nat,
) -> nat
    decreases length,
{
    if length <= 1 {
        0
    } else {
        let known = coldest_stamp(sketch, stamps, (length - 1) as nat);
        let a = sketch.estimate(stamps[length - 1].0);
        let b = sketch.estimate(stamps[known as int].0);
        if a < b || a == b && stamps[length - 1].0.spec_before(stamps[known as int].0) {
            (length - 1) as nat
        } else {
            known
        }
    }
}

// ---- what happens to a registry ----

impl RegistryView {
    /// Whether a registry is in order: its sketch is whole, no family stands
    /// twice, and nothing exceeds its bound.
    pub open spec fn wf(self) -> bool {
        &&& self.sketch.wf()
        &&& self.capacity >= 16
        &&& distinct(self.models)
        &&& distinct(self.pending)
        &&& self.models.len() <= self.capacity
        &&& self.pending.len() <= self.capacity
        &&& self.pending_programs.len() <= MAX_PENDING_PROGRAMS
        &&& records::tables_distinct(self.table_change_deltas)
        &&& records::families_distinct(self.pending_frequency)
        &&& self.pending_frequency.len() <= family_limit(self.capacity)
    }

    /// A registry with room for a number of models.
    pub open spec fn empty(capacity: usize) -> RegistryView {
        RegistryView {
            sketch: SketchView::empty(sketches::width_for(family_limit(capacity) as nat)),
            models: Seq::empty(),
            capacity: if capacity < 16 {
                16
            } else {
                capacity
            },
            absorbed: 0,
            evicted: 0,
            table_change_deltas: Seq::empty(),
            survey_changes: Seq::empty(),
            pending_programs: Seq::empty(),
            synopses: Seq::empty(),
            synopses_dirty: false,
            pending: Seq::empty(),
            pending_frequency: Seq::empty(),
            frequency_epoch: 0,
            pending_frequency_decays: 0,
            shed: 0,
            corpus_shed: 0,
            relayed: 0,
            relayed_corpus: 0,
            relayed_stale: 0,
            semantic_stamps: Seq::empty(),
        }
    }

    /// After appearances of a family were added to what waits for publication.
    pub open spec fn frequency_added(self, family: Fingerprint, count: u32) -> RegistryView {
        RegistryView {
            pending_frequency: records::appeared(
                self.pending_frequency,
                family,
                count,
                family_limit(self.capacity) as nat,
            ),
            ..self
        }
    }

    /// After a family appeared a number of times.
    pub open spec fn appeared(self, family: Fingerprint, count: u32) -> RegistryView {
        RegistryView {
            sketch: self.sketch.recorded(family, count),
            ..self
        }.frequency_added(family, count)
    }

    /// After the families of a run of subtrees appeared.
    pub open spec fn subtrees_appeared(self, subtrees: Seq<RelationFingerprints>) -> RegistryView
        decreases subtrees.len(),
    {
        if subtrees.len() == 0 {
            self
        } else {
            self.subtrees_appeared(subtrees.drop_last()).appeared(subtrees.last().family, 1)
        }
    }

    /// After a family was seen to mean something.
    pub open spec fn stamped(self, family: Fingerprint, semantic: u64) -> RegistryView {
        let known = records::family_place(self.semantic_stamps, family, 0) as int;
        let stamps = self.semantic_stamps;
        RegistryView {
            semantic_stamps: if known < stamps.len() {
                stamps.update(known, (family, semantic))
            } else if stamps.len() >= family_limit(self.capacity) && stamps.len() > 0 {
                stamps.remove(
                    coldest_stamp(self.sketch, stamps, stamps.len()) as int,
                ).push((family, semantic))
            } else {
                stamps.push((family, semantic))
            },
            ..self
        }
    }

    /// With room for a model: the coldest leaves where there is none.
    pub open spec fn roomy(self, id: ModelId) -> RegistryView {
        if !has_model(self.models, id) && self.models.len() >= self.capacity {
            RegistryView {
                models: self.models.remove(
                    coldest(self.sketch, self.models, self.models.len()) as int,
                ),
                evicted: self.evicted.saturating_add(1),
                ..self
            }
        } else {
            self
        }
    }

    /// With room for a delta: the coldest is dropped where there is none.
    pub open spec fn pending_roomy(self, id: ModelId) -> RegistryView {
        if !has_model(self.pending, id) && self.pending.len() >= self.capacity {
            RegistryView {
                pending: self.pending.remove(
                    coldest(self.sketch, self.pending, self.pending.len()) as int,
                ),
                shed: self.shed.saturating_add(1),
                ..self
            }
        } else {
            self
        }
    }

    /// With a model of a family.
    pub open spec fn with_model(self, id: ModelId) -> RegistryView {
        let roomy = self.roomy(id);
        RegistryView {
            models: if has_model(roomy.models, id) {
                roomy.models
            } else {
                roomy.models.push(ModelView::empty(id.family, id.kind))
            },
            ..roomy
        }
    }

    /// With a delta of a family.
    pub open spec fn with_pending(self, id: ModelId) -> RegistryView {
        let roomy = self.pending_roomy(id);
        RegistryView {
            pending: if has_model(roomy.pending, id) {
                roomy.pending
            } else {
                roomy.pending.push(ModelView::empty(id.family, id.kind))
            },
            ..roomy
        }
    }

    /// With a model and a delta of a family.
    pub open spec fn admitted(self, id: ModelId) -> RegistryView {
        self.with_model(id).with_pending(id)
    }

    /// The model of a family.
    pub open spec fn model_of(self, id: ModelId) -> ModelView {
        self.models[model_place(self.models, id, 0) as int]
    }

    /// The delta of a family.
    pub open spec fn pending_of(self, id: ModelId) -> ModelView {
        self.pending[model_place(self.pending, id, 0) as int]
    }

    /// With the model and the delta of a family replaced.
    pub open spec fn replaced(self, id: ModelId, model: ModelView, delta: ModelView) -> RegistryView {
        RegistryView {
            models: self.models.update(model_place(self.models, id, 0) as int, model),
            pending: self.pending.update(model_place(self.pending, id, 0) as int, delta),
            ..self
        }
    }

    /// After a part of a query was observed.
    pub open spec fn relation_absorbed(
        self,
        relation: RelationObservation,
        stamp: DependencyStamp,
        at: u64,
    ) -> RegistryView {
        let id = ModelId { kind: ObservationModelKind::Relation, family: relation.family };
        let ready = self.stamped(relation.family, stamp.semantic).admitted(id);
        ready.replaced(
            id,
            ready.model_of(id).relation_recorded(relation, stamp, at),
            ready.pending_of(id).relation_recorded(relation, stamp, at),
        )
    }

    /// After a run of parts of a query was observed.
    pub open spec fn relations_absorbed(
        self,
        relations: Seq<RelationObservation>,
        stamp: DependencyStamp,
        at: u64,
    ) -> RegistryView
        decreases relations.len(),
    {
        if relations.len() == 0 {
            self
        } else {
            self.relations_absorbed(relations.drop_last(), stamp, at).relation_absorbed(
                relations.last(),
                stamp,
                at,
            )
        }
    }

    /// After a table was changed.
    pub open spec fn table_changed(self, table: u64, affected: u64) -> RegistryView {
        let place = records::synopsis_place(self.synopses, table, 0) as int;
        let counted = RegistryView {
            table_change_deltas: records::counted(self.table_change_deltas, table, affected),
            survey_changes: records::counted(self.survey_changes, table, affected),
            ..self
        };
        if place < self.synopses.len() {
            RegistryView {
                synopses: self.synopses.update(
                    place,
                    SynopsisView {
                        changes_since_collection: self.synopses[place]
                            .changes_since_collection.saturating_add(affected),
                        ..self.synopses[place]
                    },
                ),
                synopses_dirty: true,
                ..counted
            }
        } else {
            counted
        }
    }

    /// After everything of an execution but the model of its own family.
    pub open spec fn parts_absorbed(self, observation: ObservationView, at: u64) -> RegistryView {
        let counted = RegistryView { absorbed: self.absorbed.saturating_add(1), ..self };
        let changed = match observation.mutated {
            Some(table) => if observation.affected > 0 {
                counted.table_changed(table, observation.affected)
            } else {
                counted
            },
            None => counted,
        };
        let seen = changed.subtrees_appeared(observation.subtrees);
        let all_seen = if names_family(observation.subtrees, observation.family) {
            seen
        } else {
            seen.appeared(observation.family, 1)
        };
        all_seen.relations_absorbed(observation.relations, observation.stamp, at).stamped(
            observation.family,
            observation.stamp.semantic,
        ).admitted(statement_id(observation.family))
    }

    /// After an execution, with the moving means of its family after it.
    pub open spec fn absorbed_with(
        self,
        observation: ObservationView,
        at: u64,
        mean: u64,
        pending_mean: u64,
    ) -> RegistryView {
        let id = statement_id(observation.family);
        let ready = self.parts_absorbed(observation, at);
        ready.replaced(
            id,
            ready.model_of(id).statement_recorded(observation, at, mean),
            ready.pending_of(id).statement_recorded(observation, at, pending_mean),
        )
    }

    /// After evidence of another instance was folded in. Evidence of another
    /// meaning than the one seen here is dropped.
    pub open spec fn relayed_merged(
        self,
        family: Fingerprint,
        incoming: ModelView,
        age: u64,
        now: u64,
    ) -> RegistryView {
        let known = records::family_value(self.semantic_stamps, family);
        if known is Some && known->0 != incoming.stamp.semantic {
            RegistryView { relayed_stale: self.relayed_stale.saturating_add(1), ..self }
        } else {
            let id = ModelId { kind: incoming.kind, family };
            let rebased = ModelView { last_seen: now.saturating_sub(age), ..incoming };
            let ready = RegistryView {
                relayed: self.relayed.saturating_add(incoming.executions),
                ..self
            }.stamped(family, incoming.stamp.semantic).admitted(id);
            ready.replaced(
                id,
                ready.model_of(id).merged(rebased),
                ready.pending_of(id).merged(rebased),
            )
        }
    }

    /// After one stored model was adopted. What was gathered here counts as
    /// later.
    pub open spec fn hydrated_one(self, stored: ModelView) -> RegistryView {
        let stamped = self.stamped(stored.family, stored.stamp.semantic);
        let place = model_place(self.models, stored.id(), 0) as int;
        RegistryView {
            models: if place < self.models.len() {
                self.models.update(place, stored.merged(self.models[place]))
            } else {
                self.models.push(stored)
            },
            ..stamped
        }
    }

    /// After stored models were adopted, as far as there is room.
    pub open spec fn hydrated(self, stored: Seq<ModelView>) -> RegistryView
        decreases stored.len(),
    {
        if stored.len() == 0 || !has_model(self.models, stored.first().id()) && self.models.len()
            >= self.capacity {
            self
        } else {
            self.hydrated_one(stored.first()).hydrated(stored.skip(1))
        }
    }

    /// After stored appearances were adopted.
    pub open spec fn frequency_hydrated(self, counts: Seq<(Fingerprint, u32)>) -> RegistryView
        decreases counts.len(),
    {
        if counts.len() == 0 {
            self
        } else {
            let before = self.frequency_hydrated(counts.drop_last());
            RegistryView {
                sketch: before.sketch.recorded(counts.last().0, counts.last().1),
                ..before
            }
        }
    }

    /// After a program was captured. Where no room is left, the oldest leaves.
    pub open spec fn program_absorbed(self, record: ProgramView) -> RegistryView {
        if self.pending_programs.len() >= MAX_PENDING_PROGRAMS {
            RegistryView {
                pending_programs: self.pending_programs.remove(0).push(record),
                corpus_shed: self.corpus_shed.saturating_add(1),
                ..self
            }
        } else {
            RegistryView { pending_programs: self.pending_programs.push(record), ..self }
        }
    }

    /// After everything was seen half as often.
    pub open spec fn decayed(self) -> RegistryView {
        RegistryView {
            sketch: self.sketch.decayed(),
            pending_frequency: records::halved(self.pending_frequency),
            frequency_epoch: self.frequency_epoch.saturating_add(1),
            pending_frequency_decays: self.pending_frequency_decays.saturating_add(1),
            ..self
        }
    }
}

/// The identity of the model of a statement.
pub open spec fn statement_id(family: Fingerprint) -> ModelId {
    ModelId { kind: ObservationModelKind::Statement, family }
}

/// Whether a run of subtrees names a family.
pub open spec fn names_family(subtrees: Seq<RelationFingerprints>, family: Fingerprint) -> bool {
    exists|i: int| 0 <= i < subtrees.len() && (#[trigger] subtrees[i]).family == family
}

// ---- order is kept ----

pub proof fn lemma_model_place(models: Seq<ModelView>, id: ModelId, from: nat)
    requires
        from <= models.len(),
    ensures
        from <= model_place(models, id, from) <= models.len(),
        model_place(models, id, from) < models.len() ==> models[model_place(
            models,
            id,
            from,
        ) as int].id() == id,
        forall|i: int|
            from <= i < model_place(models, id, from) ==> (#[trigger] models[i]).id() != id,
    decreases models.len() - from,
{
    if from < models.len() && models[from as int].id() != id {
        lemma_model_place(models, id, from + 1);
    }
}

proof fn lemma_coldest(sketch: SketchView, models: Seq<ModelView>, length: nat)
    requires
        0 < length <= models.len(),
    ensures
        coldest(sketch, models, length) < length,
    decreases length,
{
    if length > 1 {
        lemma_coldest(sketch, models, (length - 1) as nat);
    }
}

proof fn lemma_removed_distinct(models: Seq<ModelView>, place: int, id: ModelId)
    requires
        distinct(models),
        0 <= place < models.len(),
        !has_model(models, id),
    ensures
        distinct(models.remove(place)),
        !has_model(models.remove(place), id),
{
    let rest = models.remove(place);
    assert forall|i: int, k: int| 0 <= i < k < rest.len() implies (#[trigger] rest[i]).id() != (
    #[trigger] rest[k]).id() by {
        let a = if i < place {
            i
        } else {
            i + 1
        };
        let b = if k < place {
            k
        } else {
            k + 1
        };
        assert(rest[i] == models[a]);
        assert(rest[k] == models[b]);
    }
    lemma_model_place(models, id, 0);
    lemma_model_place(rest, id, 0);
    if has_model(rest, id) {
        let i = model_place(rest, id, 0) as int;
        let a = if i < place {
            i
        } else {
            i + 1
        };
        assert(rest[i] == models[a]);
    }
}

pub proof fn lemma_pushed_distinct(models: Seq<ModelView>, added: ModelView)
    requires
        distinct(models),
        !has_model(models, added.id()),
    ensures
        distinct(models.push(added)),
        model_place(models.push(added), added.id(), 0) == models.len(),
{
    lemma_model_place(models, added.id(), 0);
    let longer = models.push(added);
    assert forall|i: int, k: int| 0 <= i < k < longer.len() implies (#[trigger] longer[i]).id()
        != (#[trigger] longer[k]).id() by {
        assert(longer[i] == models[i]);
        if k < models.len() {
            assert(longer[k] == models[k]);
        }
    }
    lemma_model_place(longer, added.id(), 0);
    let place = model_place(longer, added.id(), 0);
    assert(longer[models.len() as int] == added);
    if place < models.len() {
        assert(longer[place as int] == models[place as int]);
    }
}

pub proof fn lemma_updated_distinct(models: Seq<ModelView>, place: int, changed: ModelView)
    requires
        distinct(models),
        0 <= place < models.len(),
        changed.id() == models[place].id(),
    ensures
        distinct(models.update(place, changed)),
{
    let updated = models.update(place, changed);
    assert forall|i: int, k: int| 0 <= i < k < updated.len() implies (#[trigger] updated[i]).id()
        != (#[trigger] updated[k]).id() by {
        assert(updated[i].id() == models[i].id());
        assert(updated[k].id() == models[k].id());
    }
}

proof fn lemma_with_model(registry: RegistryView, id: ModelId)
    requires
        registry.wf(),
    ensures
        registry.with_model(id).wf(),
        has_model(registry.with_model(id).models, id),
        registry.with_model(id).model_of(id).id() == id,
{
    let roomy = registry.roomy(id);
    if !has_model(registry.models, id) && registry.models.len() >= registry.capacity {
        lemma_coldest(registry.sketch, registry.models, registry.models.len());
        lemma_removed_distinct(
            registry.models,
            coldest(registry.sketch, registry.models, registry.models.len()) as int,
            id,
        );
    }
    if !has_model(roomy.models, id) {
        lemma_pushed_distinct(roomy.models, ModelView::empty(id.family, id.kind));
    } else {
        lemma_model_place(roomy.models, id, 0);
    }
}

proof fn lemma_with_pending(registry: RegistryView, id: ModelId)
    requires
        registry.wf(),
    ensures
        registry.with_pending(id).wf(),
        has_model(registry.with_pending(id).pending, id),
        registry.with_pending(id).pending_of(id).id() == id,
{
    let roomy = registry.pending_roomy(id);
    if !has_model(registry.pending, id) && registry.pending.len() >= registry.capacity {
        lemma_coldest(registry.sketch, registry.pending, registry.pending.len());
        lemma_removed_distinct(
            registry.pending,
            coldest(registry.sketch, registry.pending, registry.pending.len()) as int,
            id,
        );
    }
    if !has_model(roomy.pending, id) {
        lemma_pushed_distinct(roomy.pending, ModelView::empty(id.family, id.kind));
    } else {
        lemma_model_place(roomy.pending, id, 0);
    }
}

/// Admission keeps a registry in order: it never holds more than its capacity
/// and no family twice, and the model and the delta are there after it.
pub proof fn admission_keeps_order(registry: RegistryView, id: ModelId)
    requires
        registry.wf(),
    ensures
        registry.admitted(id).wf(),
        has_model(registry.admitted(id).models, id),
        has_model(registry.admitted(id).pending, id),
{
    lemma_with_model(registry, id);
    lemma_with_pending(registry.with_model(id), id);
}

proof fn lemma_replaced(registry: RegistryView, id: ModelId, changed: ModelView, delta: ModelView)
    requires
        registry.wf(),
        has_model(registry.models, id),
        has_model(registry.pending, id),
        changed.id() == id,
        delta.id() == id,
    ensures
        registry.replaced(id, changed, delta).wf(),
{
    lemma_model_place(registry.models, id, 0);
    lemma_model_place(registry.pending, id, 0);
    lemma_updated_distinct(registry.models, model_place(registry.models, id, 0) as int, changed);
    lemma_updated_distinct(registry.pending, model_place(registry.pending, id, 0) as int, delta);
}

// ---- the registry ----

impl HotRegistry {
    /// A registry with room for a number of models.
    pub fn new(capacity: usize) -> (registry: HotRegistry)
        ensures
            registry@.wf(),
            registry@ == RegistryView::empty(capacity),
    {
        let registry = HotRegistry {
            sketch: FrequencySketch::new(limit_of(capacity)),
            models: Vec::new(),
            capacity: if capacity < 16 {
                16
            } else {
                capacity
            },
            absorbed: 0,
            evicted: 0,
            table_change_deltas: Vec::new(),
            survey_changes: Vec::new(),
            pending_programs: Vec::new(),
            synopses: Vec::new(),
            synopses_dirty: false,
            pending: Vec::new(),
            pending_frequency: Vec::new(),
            frequency_epoch: 0,
            pending_frequency_decays: 0,
            shed: 0,
            corpus_shed: 0,
            relayed: 0,
            relayed_corpus: 0,
            relayed_stale: 0,
            semantic_stamps: Vec::new(),
        };
        assert(registry@ =~= RegistryView::empty(capacity));
        registry
    }

    pub(crate) fn add_pending_frequency(&mut self, family: Fingerprint, count: u32)
        requires
            old(self)@.wf(),
        ensures
            final(self)@.wf(),
            final(self)@ == old(self)@.frequency_added(family, count),
    {
        add_appearances(&mut self.pending_frequency, family, count, limit_of(self.capacity));
    }

    fn count_appearance(&mut self, family: &Fingerprint)
        requires
            old(self)@.wf(),
        ensures
            final(self)@.wf(),
            final(self)@ == old(self)@.appeared(*family, 1),
    {
        self.merge_relayed_frequency(*family, 1);
    }

    /// Folds in appearances that were counted elsewhere.
    pub fn merge_relayed_frequency(&mut self, family: Fingerprint, count: u32)
        requires
            old(self)@.wf(),
        ensures
            final(self)@.wf(),
            final(self)@ == old(self)@.appeared(family, count),
    {
        self.sketch.record_many(&family, count);
        self.add_pending_frequency(family, count);
    }

    fn record_semantic_stamp(&mut self, family: Fingerprint, semantic: u64)
        requires
            old(self)@.wf(),
        ensures
            final(self)@.wf(),
            final(self)@ == old(self)@.stamped(family, semantic),
    {
        let place: usize = find_family(&self.semantic_stamps, family);
        if place < self.semantic_stamps.len() {
            self.semantic_stamps.set(place, (family, semantic));
            return;
        }
        if self.semantic_stamps.len() >= limit_of(self.capacity) && self.semantic_stamps.len() > 0 {
            let mut coldest: usize = 0;
            let mut i: usize = 1;
            while i < self.semantic_stamps.len()
                invariant
                    1 <= i <= self.semantic_stamps.len(),
                    self@ == old(self)@,
                    self@.wf(),
                    coldest < i,
                    coldest == coldest_stamp(self.sketch@, self.semantic_stamps@, i as nat),
                decreases self.semantic_stamps.len() - i,
            {
                let a: u32 = self.sketch.estimate(&self.semantic_stamps[i].0);
                let b: u32 = self.sketch.estimate(&self.semantic_stamps[coldest].0);
                if a < b || a == b && self.semantic_stamps[i].0.before(
                    self.semantic_stamps[coldest].0,
                ) {
                    coldest = i;
                }
                i += 1;
            }
            self.semantic_stamps.remove(coldest);
        }
        self.semantic_stamps.push((family, semantic));
    }

    fn evict_coldest(&mut self)
        requires
            old(self)@.sketch.wf(),
            old(self).models.len() > 0,
        ensures
            final(self)@ == (RegistryView {
                models: old(self)@.models.remove(
                    coldest(
                        old(self)@.sketch,
                        old(self)@.models,
                        old(self)@.models.len(),
                    ) as int,
                ),
                evicted: old(self)@.evicted.saturating_add(1),
                ..old(self)@
            }),
    {
        let place: usize = find_coldest(&self.sketch, &self.models);
        self.models.remove(place);
        self.evicted = self.evicted.saturating_add(1);
        assert(self@.models =~= old(self)@.models.remove(place as int));
    }

    fn shed_coldest_pending(&mut self)
        requires
            old(self)@.sketch.wf(),
            old(self).pending.len() > 0,
        ensures
            final(self)@ == (RegistryView {
                pending: old(self)@.pending.remove(
                    coldest(
                        old(self)@.sketch,
                        old(self)@.pending,
                        old(self)@.pending.len(),
                    ) as int,
                ),
                shed: old(self)@.shed.saturating_add(1),
                ..old(self)@
            }),
    {
        let place: usize = find_coldest(&self.sketch, &self.pending);
        self.pending.remove(place);
        self.shed = self.shed.saturating_add(1);
        assert(self@.pending =~= old(self)@.pending.remove(place as int));
    }

    fn find_or_add_model(&mut self, id: ModelId) -> (place: usize)
        requires
            old(self)@.wf(),
        ensures
            final(self)@.wf(),
            final(self)@ == old(self)@.with_model(id),
            place == model_place(final(self)@.models, id, 0),
            place < final(self).models.len(),
            final(self).models@[place as int]@.id() == id,
    {
        proof {
            lemma_with_model(self@, id);
        }
        if find_model(&self.models, id) == self.models.len() && self.models.len() >= self.capacity {
            self.evict_coldest();
        }
        let ghost roomy = self@;
        if find_model(&self.models, id) == self.models.len() {
            self.models.push(QueryModel::new(id.family, id.kind));
            assert(self@.models =~= roomy.models.push(ModelView::empty(id.family, id.kind)));
        }
        find_model(&self.models, id)
    }

    fn find_or_add_pending(&mut self, id: ModelId) -> (place: usize)
        requires
            old(self)@.wf(),
        ensures
            final(self)@.wf(),
            final(self)@ == old(self)@.with_pending(id),
            place == model_place(final(self)@.pending, id, 0),
            place < final(self).pending.len(),
            final(self).pending@[place as int]@.id() == id,
    {
        proof {
            lemma_with_pending(self@, id);
        }
        if find_model(&self.pending, id) == self.pending.len() && self.pending.len()
            >= self.capacity {
            self.shed_coldest_pending();
        }
        let ghost roomy = self@;
        if find_model(&self.pending, id) == self.pending.len() {
            self.pending.push(QueryModel::new(id.family, id.kind));
            assert(self@.pending =~= roomy.pending.push(ModelView::empty(id.family, id.kind)));
        }
        find_model(&self.pending, id)
    }

    fn make_room(&mut self, id: ModelId) -> (places: (usize, usize))
        requires
            old(self)@.wf(),
        ensures
            final(self)@.wf(),
            final(self)@ == old(self)@.admitted(id),
            places.0 == model_place(final(self)@.models, id, 0),
            places.1 == model_place(final(self)@.pending, id, 0),
            places.0 < final(self).models.len(),
            places.1 < final(self).pending.len(),
            final(self).models@[places.0 as int]@.id() == id,
            final(self).pending@[places.1 as int]@.id() == id,
    {
        let place: usize = self.find_or_add_model(id);
        let ghost known = self@.models;
        assert(known[place as int].id() == id);
        let pending_place: usize = self.find_or_add_pending(id);
        assert(self@.models == known);
        assert(self@.models[place as int] == self.models@[place as int]@);
        (place, pending_place)
    }

    fn merge_both(&mut self, id: ModelId, rebased: &QueryModel)
        requires
            old(self)@.wf(),
        ensures
            final(self)@.wf(),
            final(self)@ == ({
                let ready = old(self)@.admitted(id);
                ready.replaced(
                    id,
                    ready.model_of(id).merged(rebased@),
                    ready.pending_of(id).merged(rebased@),
                )
            }),
    {
        let (place, pending_place) = self.make_room(id);
        let ghost ready = self@;
        let model = &mut self.models[place];
        model.merge(rebased);
        let delta = &mut self.pending[pending_place];
        delta.merge(rebased);
        proof {
            let changed = ready.model_of(id).merged(rebased@);
            let added = ready.pending_of(id).merged(rebased@);
            assert(ready.models[place as int] == ready.model_of(id));
            assert(ready.pending[pending_place as int] == ready.pending_of(id));
            assert(self@.models =~= ready.models.update(place as int, changed));
            assert(self@.pending =~= ready.pending.update(pending_place as int, added));
            assert(changed.id() == id);
            assert(added.id() == id);
            lemma_replaced(ready, id, changed, added);
        }
    }

    fn absorb_relation(&mut self, relation: &RelationObservation, stamp: DependencyStamp, at: u64)
        requires
            old(self)@.wf(),
        ensures
            final(self)@.wf(),
            final(self)@ == old(self)@.relation_absorbed(*relation, stamp, at),
    {
        self.record_semantic_stamp(relation.family, stamp.semantic);
        let id = ModelId::new(ObservationModelKind::Relation, relation.family);
        let (place, pending_place) = self.make_room(id);
        let ghost ready = self@;
        let model = &mut self.models[place];
        model.record_relation(relation, stamp, at);
        let delta = &mut self.pending[pending_place];
        delta.record_relation(relation, stamp, at);
        proof {
            let changed = ready.model_of(id).relation_recorded(*relation, stamp, at);
            let added = ready.pending_of(id).relation_recorded(*relation, stamp, at);
            assert(ready.models[place as int] == ready.model_of(id));
            assert(ready.pending[pending_place as int] == ready.pending_of(id));
            assert(self@.models =~= ready.models.update(place as int, changed));
            assert(self@.pending =~= ready.pending.update(pending_place as int, added));
            lemma_replaced(ready, id, changed, added);
        }
    }

    fn note_changes(&mut self, table: u64, affected: u64)
        requires
            old(self)@.wf(),
        ensures
            final(self)@.wf(),
            final(self)@ == old(self)@.table_changed(table, affected),
    {
        add_count(&mut self.table_change_deltas, table, affected);
        add_count(&mut self.survey_changes, table, affected);
        let place: usize = find_synopsis(&self.synopses, table);
        if place < self.synopses.len() {
            let ghost before = self@.synopses;
            let next: u64 = self.synopses[place].changes_since_collection.saturating_add(affected);
            assert(before[place as int] == self.synopses@[place as int]@);
            let synopsis = &mut self.synopses[place];
            synopsis.changes_since_collection = next;
            self.synopses_dirty = true;
            assert(self@ =~= old(self)@.table_changed(table, affected));
        }
    }

    fn absorb_parts(&mut self, observation: &StatementObservation, at: u64) -> (places: (
        usize,
        usize,
    ))
        requires
            old(self)@.wf(),
        ensures
            final(self)@.wf(),
            final(self)@ == old(self)@.parts_absorbed(observation@, at),
            places.0 == model_place(final(self)@.models, statement_id(observation.family), 0),
            places.1 == model_place(final(self)@.pending, statement_id(observation.family), 0),
            places.0 < final(self).models.len(),
            places.1 < final(self).pending.len(),
            final(self).models@[places.0 as int]@.id() == statement_id(observation.family),
            final(self).pending@[places.1 as int]@.id() == statement_id(observation.family),
    {
        self.absorbed = self.absorbed.saturating_add(1);
        if let Some(table) = observation.mutated {
            if observation.affected > 0 {
                self.note_changes(table, observation.affected);
            }
        }
        let ghost changed = self@;
        let ghost subtrees = observation.subtrees@;
        let mut named = false;
        let mut i: usize = 0;
        assert(subtrees.take(0) =~= Seq::empty());
        while i < observation.subtrees.len()
            invariant
                i <= observation.subtrees.len(),
                subtrees == observation.subtrees@,
                self@.wf(),
                self@ == changed.subtrees_appeared(subtrees.take(i as int)),
                named == (exists|k: int|
                    0 <= k < i && (#[trigger] subtrees[k]).family == observation.family),
            decreases observation.subtrees.len() - i,
        {
            proof {
                assert(subtrees.take(i + 1).drop_last() =~= subtrees.take(i as int));
            }
            let ghost known = named;
            if observation.subtrees[i].family == observation.family {
                named = true;
            }
            assert(named == (known || subtrees[i as int].family == observation.family));
            self.count_appearance(&observation.subtrees[i].family);
            i += 1;
        }
        assert(subtrees.take(i as int) =~= subtrees);
        assert(named == names_family(subtrees, observation.family));
        if !named {
            self.count_appearance(&observation.family);
        }
        let ghost seen = self@;
        let ghost relations = observation.relations@;
        let mut r: usize = 0;
        assert(relations.take(0) =~= Seq::empty());
        while r < observation.relations.len()
            invariant
                r <= observation.relations.len(),
                relations == observation.relations@,
                self@.wf(),
                self@ == seen.relations_absorbed(relations.take(r as int), observation.stamp, at),
            decreases observation.relations.len() - r,
        {
            proof {
                assert(relations.take(r + 1).drop_last() =~= relations.take(r as int));
            }
            self.absorb_relation(&observation.relations[r], observation.stamp, at);
            r += 1;
        }
        assert(relations.take(r as int) =~= relations);
        self.record_semantic_stamp(observation.family, observation.stamp.semantic);
        self.make_room(ModelId::new(ObservationModelKind::Statement, observation.family))
    }

    /// Takes in one execution. The function computes the next moving mean of
    /// durations from the last, where there is one, and a duration.
    pub fn absorb<F: Fn(Option<u64>, u64) -> u64>(
        &mut self,
        observation: &StatementObservation,
        at: u64,
        mean: F,
    )
        requires
            old(self)@.wf(),
            forall|last: Option<u64>, micros: u64| #[trigger] mean.requires((last, micros)),
        ensures
            final(self)@.wf(),
            exists|first: u64, second: u64|
                {
                    let ready = old(self)@.parts_absorbed(observation@, at);
                    let id = statement_id(observation.family);
                    &&& mean.ensures(
                        (
                            ready.model_of(id).mean_before(observation.stamp),
                            observation.execute_micros,
                        ),
                        first,
                    )
                    &&& mean.ensures(
                        (
                            ready.pending_of(id).mean_before(observation.stamp),
                            observation.execute_micros,
                        ),
                        second,
                    )
                    &&& final(self)@ == #[trigger] old(self)@.absorbed_with(
                        observation@,
                        at,
                        first,
                        second,
                    )
                },
    {
        let (place, pending_place) = self.absorb_parts(observation, at);
        let ghost ready = self@;
        let ghost id = statement_id(observation.family);
        assert(ready.models[place as int] == ready.model_of(id));
        assert(ready.pending[pending_place as int] == ready.pending_of(id));
        let first: u64 = mean(
            self.models[place].mean_before(observation.stamp),
            observation.execute_micros,
        );
        let second: u64 = mean(
            self.pending[pending_place].mean_before(observation.stamp),
            observation.execute_micros,
        );
        let model = &mut self.models[place];
        model.record_statement(observation, at, first);
        let delta = &mut self.pending[pending_place];
        delta.record_statement(observation, at, second);
        proof {
            let changed = ready.model_of(id).statement_recorded(observation@, at, first);
            let added = ready.pending_of(id).statement_recorded(observation@, at, second);
            assert(self@.models =~= ready.models.update(place as int, changed));
            assert(self@.pending =~= ready.pending.update(pending_place as int, added));
            lemma_replaced(ready, id, changed, added);
            assert(self@ == old(self)@.absorbed_with(observation@, at, first, second));
        }
    }

    /// Folds in what another instance gathered of a family, which was last
    /// observed a while before it was sent.
    pub fn merge_relayed(&mut self, family: Fingerprint, incoming: &QueryModel, age: u64, now: u64)
        requires
            old(self)@.wf(),
        ensures
            final(self)@.wf(),
            final(self)@ == old(self)@.relayed_merged(family, incoming@, age, now),
    {
        let known: usize = find_family(&self.semantic_stamps, family);
        if known < self.semantic_stamps.len() && self.semantic_stamps[known].1
            != incoming.stamp.semantic {
            self.relayed_stale = self.relayed_stale.saturating_add(1);
            return;
        }
        let mut rebased = incoming.copy();
        rebased.last_seen = now.saturating_sub(age);
        self.relayed = self.relayed.saturating_add(incoming.executions);
        self.record_semantic_stamp(family, incoming.stamp.semantic);
        let id = ModelId::new(incoming.kind, family);
        self.merge_both(id, &rebased);
    }

    /// Adopts stored models as what is extended here. Nothing of them waits for
    /// publication.
    pub fn hydrate(&mut self, stored: &Vec<QueryModel>)
        requires
            old(self)@.wf(),
        ensures
            final(self)@.wf(),
            final(self)@ == old(self)@.hydrated(model::model_views(stored@)),
    {
        let ghost all = model::model_views(stored@);
        let mut i: usize = 0;
        assert(all.skip(0) =~= all);
        while i < stored.len()
            invariant
                i <= stored.len(),
                all == model::model_views(stored@),
                self@.wf(),
                old(self)@.hydrated(all) == self@.hydrated(all.skip(i as int)),
            decreases stored.len() - i,
        {
            let model = &stored[i];
            let id = ModelId::of(model);
            let ghost rest = all.skip(i as int);
            let ghost before = self@;
            proof {
                assert(rest.first() == model@);
                assert(rest.skip(1) =~= all.skip(i + 1));
                lemma_model_place(before.models, id, 0);
            }
            let place: usize = find_model(&self.models, id);
            if place == self.models.len() && self.models.len() >= self.capacity {
                return;
            }
            self.record_semantic_stamp(model.family, model.stamp.semantic);
            if place < self.models.len() {
                let mut merged = model.copy();
                merged.merge(&self.models[place]);
                assert(before.models[place as int] == self.models@[place as int]@);
                proof {
                    lemma_updated_distinct(before.models, place as int, merged@);
                }
                let ghost shown = merged@;
                self.models.set(place, merged);
                assert(self@.models =~= before.models.update(place as int, shown));
            } else {
                proof {
                    lemma_pushed_distinct(before.models, model@);
                }
                self.models.push(model.copy());
                assert(self@.models =~= before.models.push(model@));
            }
            assert(self@ == before.hydrated_one(model@));
            i += 1;
        }
        assert(all.skip(i as int) =~= Seq::empty());
    }

    /// Adopts stored appearances.
    pub fn hydrate_frequency(&mut self, counts: &Vec<(Fingerprint, u32)>)
        requires
            old(self)@.wf(),
        ensures
            final(self)@.wf(),
            final(self)@ == old(self)@.frequency_hydrated(counts@),
    {
        let ghost before = self@;
        let mut i: usize = 0;
        assert(counts@.take(0) =~= Seq::empty());
        while i < counts.len()
            invariant
                i <= counts.len(),
                self@.wf(),
                self@ == before.frequency_hydrated(counts@.take(i as int)),
            decreases counts.len() - i,
        {
            proof {
                assert(counts@.take(i + 1).drop_last() =~= counts@.take(i as int));
            }
            self.sketch.record_many(&counts[i].0, counts[i].1);
            i += 1;
        }
        assert(counts@.take(i as int) =~= counts@);
    }

    /// Adopts a program that another instance captured.
    pub fn absorb_relayed_program(&mut self, record: ProgramRecord)
        requires
            old(self)@.wf(),
        ensures
            final(self)@.wf(),
            final(self)@ == (RegistryView {
                relayed_corpus: old(self)@.relayed_corpus.saturating_add(1),
                ..old(self)@
            }).program_absorbed(record@),
    {
        self.relayed_corpus = self.relayed_corpus.saturating_add(1);
        self.absorb_program(record);
    }

    /// Takes in a captured program.
    pub fn absorb_program(&mut self, record: ProgramRecord)
        requires
            old(self)@.wf(),
        ensures
            final(self)@.wf(),
            final(self)@ == old(self)@.program_absorbed(record@),
    {
        let ghost before = self@.pending_programs;
        let ghost shown = record@;
        if self.pending_programs.len() >= MAX_PENDING_PROGRAMS {
            self.pending_programs.remove(0);
            self.corpus_shed = self.corpus_shed.saturating_add(1);
            self.pending_programs.push(record);
            assert(self@.pending_programs =~= before.remove(0).push(shown));
        } else {
            self.pending_programs.push(record);
            assert(self@.pending_programs =~= before.push(shown));
        }
    }

    /// How often a family was seen, at most.
    pub fn frequency(&self, fingerprint: &Fingerprint) -> (count: u32)
        requires
            self@.wf(),
        ensures
            count == self@.sketch.estimate(*fingerprint),
    {
        self.sketch.estimate(fingerprint)
    }

    /// The model of a family.
    pub fn model(&self, kind: ObservationModelKind, family: &Fingerprint) -> (found: Option<
        &QueryModel,
    >)
        ensures
            found is Some == has_model(self@.models, ModelId { kind, family: *family }),
            found matches Some(found) ==> found@ == self@.model_of(
                ModelId { kind, family: *family },
            ),
    {
        let place: usize = find_model(&self.models, ModelId::new(kind, *family));
        if place < self.models.len() {
            assert(self@.models[place as int] == self.models@[place as int]@);
            Some(&self.models[place])
        } else {
            None
        }
    }

    /// How many models there are.
    pub fn len(&self) -> (count: usize)
        ensures
            count == self@.models.len(),
    {
        self.models.len()
    }

    /// Whether there is no model.
    pub fn is_empty(&self) -> (empty: bool)
        ensures
            empty == (self@.models.len() == 0),
    {
        self.models.len() == 0
    }

    /// How many executions were taken in.
    pub fn absorbed(&self) -> (count: u64)
        ensures
            count == self@.absorbed,
    {
        self.absorbed
    }

    /// How many models left.
    pub fn evicted(&self) -> (count: u64)
        ensures
            count == self@.evicted,
    {
        self.evicted
    }

    /// Halves what was seen.
    pub fn decay(&mut self)
        requires
            old(self)@.wf(),
        ensures
            final(self)@.wf(),
            final(self)@ == old(self)@.decayed(),
    {
        self.sketch.decay();
        self.pending_frequency = halve(&self.pending_frequency);
        self.frequency_epoch = self.frequency_epoch.saturating_add(1);
        self.pending_frequency_decays = self.pending_frequency_decays.saturating_add(1);
    }

    /// Takes the changes of tables that wait for publication.
    pub fn take_table_change_deltas(&mut self) -> (deltas: Vec<(u64, u64)>)
        requires
            old(self)@.wf(),
        ensures
            deltas@ == old(self)@.table_change_deltas,
            final(self)@ == (RegistryView { table_change_deltas: Seq::empty(), ..old(self)@ }),
            final(self)@.wf(),
    {
        let mut deltas: Vec<(u64, u64)> = Vec::new();
        std::mem::swap(&mut self.table_change_deltas, &mut deltas);
        deltas
    }
}

// ---- what registries promise ----

/// A registry that is full lets its coldest model go, so that the hot ones stay.
pub proof fn the_hot_set_stays(sketch: SketchView, models: Seq<ModelView>, length: nat, place: int)
    requires
        0 < length <= models.len(),
        0 <= place < length,
    ensures
        coldest(sketch, models, length) < length,
        !colder(sketch, models[place], models[coldest(sketch, models, length) as int]),
    decreases length,
{
    if length > 1 {
        lemma_coldest(sketch, models, (length - 1) as nat);
        if place < length - 1 {
            the_hot_set_stays(sketch, models, (length - 1) as nat, place);
        }
    }
}

/// Evidence of another catalog is dropped and counted: an instance that lags
/// behind never restarts or mixes what was gathered here, even where the model
/// itself was let go.
pub proof fn lagging_evidence_is_dropped(
    registry: RegistryView,
    family: Fingerprint,
    incoming: ModelView,
    age: u64,
    now: u64,
)
    requires
        records::family_value(registry.semantic_stamps, family) matches Some(semantic)
            && semantic != incoming.stamp.semantic,
    ensures
        registry.relayed_merged(family, incoming, age, now) == (RegistryView {
            relayed_stale: registry.relayed_stale.saturating_add(1),
            ..registry
        }),
{
}

/// A registry that sheds captured programs sheds the oldest, and counts it.
pub proof fn the_newest_programs_stay(registry: RegistryView, record: ProgramView)
    requires
        registry.wf(),
    ensures
        registry.program_absorbed(record).pending_programs.last() == record,
        registry.program_absorbed(record).pending_programs.len() <= MAX_PENDING_PROGRAMS,
        registry.program_absorbed(record).pending_programs.len() == registry.pending_programs.len()
            ==> registry.program_absorbed(record).corpus_shed
            == registry.corpus_shed.saturating_add(1),
{
}

} // verus!
