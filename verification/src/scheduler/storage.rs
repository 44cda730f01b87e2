//! Stored statistics: what the records hold, how a batch is written to them,
//! and what is read back.

use vstd::prelude::*;

use crate::scheduler::batch;
use crate::scheduler::batch::{BatchView, StatisticsBatch};
use crate::scheduler::corpus;
use crate::scheduler::corpus::{
    record_corpus_erasure, record_corpus_retention, retain_corpus, CorpusErasure, CorpusPolicy,
    ExecutionEntry, ExecutionView, LoggedView, ProgramEntry, ProgramEntryView,
    StoredCorpusExecution, CANONICAL_FORMAT_VERSION,
};
use crate::scheduler::histogram;
use crate::scheduler::histogram::max_of;
use crate::scheduler::identity;
use crate::scheduler::identity::{decode_hash, hash_text};
use crate::scheduler::model::{ModelId, ModelView, ObservationModelKind, QueryModel};
use crate::scheduler::planner;
use crate::scheduler::planner::{
    CorpusMaintenanceStats, PersistedStatisticsSnapshot, PersistedView,
};
use crate::scheduler::records;
use crate::scheduler::records::{
    add_counts, copy_bytes, copy_outcomes, copy_synopses, decay_frequency, enter_synopsis,
    find_family, ProgramRecord, ProgramStatementOutcome, ProgramView, SynopsisModel, SynopsisView,
};
use crate::scheduler::registry;
use crate::scheduler::registry::find_model;
use crate::scheduler::retention;
use crate::scheduler::sketches::Fingerprint;
use crate::scheduler::sorting;
use crate::scheduler::sorting::{sorted_order, Key};

verus! {

/// How long it takes until executions count half, in microseconds: a week.
pub const RETENTION_EPOCH_MICROS: u64 = 604_800_000_000;

/// What the catalog of stored models says of one.
#[derive(Clone, Copy, Debug, PartialEq, Eq, Structural)]
pub struct ModelCatalogEntry {
    pub family: Fingerprint,
    pub kind: ObservationModelKind,
    pub executions: u64,
    pub last_seen_unix_micros: u64,
}

impl ModelCatalogEntry {
    /// Which model an entry is of.
    pub open spec fn spec_id(self) -> ModelId {
        ModelId { kind: self.kind, family: self.family }
    }

    /// Which model an entry is of.
    pub fn id(&self) -> (id: ModelId)
        ensures
            id == self.spec_id(),
    {
        ModelId { kind: self.kind, family: self.family }
    }

    /// The entry of a model.
    pub fn of(model: &QueryModel) -> (entry: ModelCatalogEntry)
        ensures
            entry == entry_of(model@),
    {
        ModelCatalogEntry {
            family: model.family,
            kind: model.kind,
            executions: model.executions,
            last_seen_unix_micros: model.last_seen,
        }
    }
}

/// The entry of a model.
pub open spec fn entry_of(model: ModelView) -> ModelCatalogEntry {
    ModelCatalogEntry {
        family: model.family,
        kind: model.kind,
        executions: model.executions,
        last_seen_unix_micros: model.last_seen,
    }
}

/// A model under its key. What cannot be read, or is not the model of its key,
/// is none.
#[derive(Debug, PartialEq)]
pub struct ModelRecord {
    pub id: ModelId,
    pub stored: Option<QueryModel>,
}

/// The value of a [`ModelRecord`].
#[verifier::ext_equal]
pub struct RecordView {
    pub id: ModelId,
    pub stored: Option<ModelView>,
}

impl View for ModelRecord {
    type V = RecordView;

    open spec fn view(&self) -> RecordView {
        RecordView {
            id: self.id,
            stored: match self.stored {
                Some(stored) => Some(stored@),
                None => None,
            },
        }
    }
}

pub open spec fn record_views(models: Seq<ModelRecord>) -> Seq<RecordView> {
    Seq::new(models.len(), |i: int| models[i]@)
}

/// Appearances of a family, counted in an epoch.
#[derive(Clone, Copy, Debug, PartialEq, Eq, Structural)]
pub struct StoredFrequency {
    pub count: u32,
    pub epoch: u64,
}

/// Everything that is stored.
#[derive(Debug, PartialEq)]
pub struct StatisticsRecords {
    pub table_changes: Vec<(u64, u64)>,
    /// The catalog of models; none where it is missing or cannot be read.
    pub catalog: Option<Vec<ModelCatalogEntry>>,
    pub models: Vec<ModelRecord>,
    pub frequency_epoch: u64,
    pub frequencies: Vec<(Fingerprint, Option<StoredFrequency>)>,
    pub synopses: Vec<SynopsisModel>,
    pub programs: Vec<ProgramEntry>,
    /// The log of executions, in order of time.
    pub executions: Vec<ExecutionEntry>,
}

/// The value of [`StatisticsRecords`].
#[verifier::ext_equal]
pub struct RecordsView {
    pub table_changes: Seq<(u64, u64)>,
    pub catalog: Option<Seq<ModelCatalogEntry>>,
    pub models: Seq<RecordView>,
    pub frequency_epoch: u64,
    pub frequencies: Seq<(Fingerprint, Option<StoredFrequency>)>,
    pub synopses: Seq<SynopsisView>,
    pub programs: Seq<ProgramEntryView>,
    pub executions: Seq<ExecutionView>,
}

pub open spec fn catalog_view(catalog: Option<Vec<ModelCatalogEntry>>) -> Option<
    Seq<ModelCatalogEntry>,
> {
    match catalog {
        Some(catalog) => Some(catalog@),
        None => None,
    }
}

impl View for StatisticsRecords {
    type V = RecordsView;

    open spec fn view(&self) -> RecordsView {
        RecordsView {
            table_changes: self.table_changes@,
            catalog: catalog_view(self.catalog),
            models: record_views(self.models@),
            frequency_epoch: self.frequency_epoch,
            frequencies: self.frequencies@,
            synopses: records::synopsis_views(self.synopses@),
            programs: corpus::entry_views(self.programs@),
            executions: corpus::execution_views(self.executions@),
        }
    }
}

// ---- ranks ----

/// How many epochs before the newest a model was last seen, at most as many as
/// count.
pub open spec fn age_epochs(entry: ModelCatalogEntry, newest: u64) -> nat {
    let epochs = newest.saturating_sub(entry.last_seen_unix_micros) / RETENTION_EPOCH_MICROS;
    if epochs > 63 {
        63
    } else {
        epochs as nat
    }
}

/// What a model is worth: its executions, halved for each epoch.
pub open spec fn score(entry: ModelCatalogEntry, newest: u64) -> nat {
    records::halved_count(entry.executions as nat, age_epochs(entry, newest))
}

/// Relations come before statements.
pub open spec fn priority(entry: ModelCatalogEntry) -> int {
    if entry.kind is Relation {
        1
    } else {
        0
    }
}

/// Whether one model is worth less than another: by its score, when it was last
/// seen, its kind, its executions, and its place in order.
pub open spec fn ranks_below(
    left: ModelCatalogEntry,
    right: ModelCatalogEntry,
    newest: u64,
) -> bool {
    let (a, b) = (score(left, newest), score(right, newest));
    let (c, d) = (left.last_seen_unix_micros, right.last_seen_unix_micros);
    let (e, f) = (priority(left), priority(right));
    a < b || a == b && (c < d || c == d && (e < f || e == f && (left.executions < right.executions
        || left.executions == right.executions && left.spec_id().spec_before(right.spec_id()))))
}

fn halve_often(count: u64, times: u64) -> (halved: u64)
    ensures
        halved == records::halved_count(count as nat, times as nat),
{
    let mut rest: u64 = count;
    let mut left: u64 = times;
    while left > 0
        invariant
            records::halved_count(count as nat, times as nat) == records::halved_count(
                rest as nat,
                left as nat,
            ),
        decreases left,
    {
        rest = rest / 2;
        left -= 1;
    }
    rest
}

fn worth(entry: &ModelCatalogEntry, newest: u64) -> (worth: u64)
    ensures
        worth == score(*entry, newest),
{
    let epochs: u64 = newest.saturating_sub(entry.last_seen_unix_micros) / RETENTION_EPOCH_MICROS;
    halve_often(
        entry.executions,
        if epochs > 63 {
            63
        } else {
            epochs
        },
    )
}

fn is_below(left: &ModelCatalogEntry, right: &ModelCatalogEntry, newest: u64) -> (below: bool)
    ensures
        below == ranks_below(*left, *right, newest),
{
    let a: u64 = worth(left, newest);
    let b: u64 = worth(right, newest);
    if a != b {
        return a < b;
    }
    if left.last_seen_unix_micros != right.last_seen_unix_micros {
        return left.last_seen_unix_micros < right.last_seen_unix_micros;
    }
    match (left.kind, right.kind) {
        (ObservationModelKind::Statement, ObservationModelKind::Relation) => {
            return true;
        },
        (ObservationModelKind::Relation, ObservationModelKind::Statement) => {
            return false;
        },
        _ => {},
    }
    if left.executions != right.executions {
        return left.executions < right.executions;
    }
    left.id().before(right.id())
}

/// Where an entry goes among ranked ones, from a place on.
pub open spec fn rank_place(
    ranked: Seq<ModelCatalogEntry>,
    entry: ModelCatalogEntry,
    newest: u64,
    from: nat,
) -> nat
    decreases ranked.len() - from,
{
    if from < ranked.len() && !ranks_below(ranked[from as int], entry, newest) {
        rank_place(ranked, entry, newest, from + 1)
    } else {
        from
    }
}

/// Entries by rank, the one that is worth most first.
pub open spec fn ranked(entries: Seq<ModelCatalogEntry>, newest: u64) -> Seq<ModelCatalogEntry>
    decreases entries.len(),
{
    if entries.len() == 0 {
        Seq::empty()
    } else {
        let before = ranked(entries.drop_last(), newest);
        before.insert(rank_place(before, entries.last(), newest, 0) as int, entries.last())
    }
}

/// When the newest of entries was last seen.
pub open spec fn newest_of(entries: Seq<ModelCatalogEntry>) -> u64
    decreases entries.len(),
{
    if entries.len() == 0 {
        0
    } else {
        histogram::larger(newest_of(entries.drop_last()), entries.last().last_seen_unix_micros)
    }
}

pub proof fn lemma_rank_place(
    sorted: Seq<ModelCatalogEntry>,
    entry: ModelCatalogEntry,
    newest: u64,
    from: nat,
)
    requires
        from <= sorted.len(),
    ensures
        from <= rank_place(sorted, entry, newest, from) <= sorted.len(),
        forall|i: int|
            from <= i < rank_place(sorted, entry, newest, from) ==> !ranks_below(
                #[trigger] sorted[i],
                entry,
                newest,
            ),
        rank_place(sorted, entry, newest, from) < sorted.len() ==> ranks_below(
            sorted[rank_place(sorted, entry, newest, from) as int],
            entry,
            newest,
        ),
    decreases sorted.len() - from,
{
    if from < sorted.len() && !ranks_below(sorted[from as int], entry, newest) {
        lemma_rank_place(sorted, entry, newest, from + 1);
    }
}

pub proof fn lemma_ranked_length(entries: Seq<ModelCatalogEntry>, newest: u64)
    ensures
        ranked(entries, newest).len() == entries.len(),
    decreases entries.len(),
{
    if entries.len() > 0 {
        lemma_ranked_length(entries.drop_last(), newest);
        lemma_rank_place(ranked(entries.drop_last(), newest), entries.last(), newest, 0);
    }
}

fn rank(entries: &Vec<ModelCatalogEntry>, newest: u64) -> (result: Vec<ModelCatalogEntry>)
    ensures
        result@ == ranked(entries@, newest),
        result.len() == entries.len(),
{
    let mut result: Vec<ModelCatalogEntry> = Vec::new();
    let mut i: usize = 0;
    assert(entries@.take(0) =~= Seq::empty());
    while i < entries.len()
        invariant
            i <= entries.len(),
            result@ == ranked(entries@.take(i as int), newest),
        decreases entries.len() - i,
    {
        proof {
            assert(entries@.take(i + 1).drop_last() =~= entries@.take(i as int));
        }
        let ghost before = result@;
        let mut at: usize = 0;
        while at < result.len() && !is_below(&result[at], &entries[i], newest)
            invariant
                i < entries.len(),
                at <= result.len(),
                before == result@,
                rank_place(before, entries@[i as int], newest, 0) == rank_place(
                    before,
                    entries@[i as int],
                    newest,
                    at as nat,
                ),
            decreases result.len() - at,
        {
            at += 1;
        }
        result.insert(at, entries[i]);
        i += 1;
    }
    proof {
        assert(entries@.take(i as int) =~= entries@);
        lemma_ranked_length(entries@, newest);
    }
    result
}

fn find_newest(entries: &Vec<ModelCatalogEntry>) -> (newest: u64)
    ensures
        newest == newest_of(entries@),
{
    let mut newest: u64 = 0;
    let mut i: usize = 0;
    assert(entries@.take(0) =~= Seq::empty());
    while i < entries.len()
        invariant
            i <= entries.len(),
            newest == newest_of(entries@.take(i as int)),
        decreases entries.len() - i,
    {
        proof {
            assert(entries@.take(i + 1).drop_last() =~= entries@.take(i as int));
        }
        newest = max_of(newest, entries[i].last_seen_unix_micros);
        i += 1;
    }
    assert(entries@.take(i as int) =~= entries@);
    newest
}

// ---- stored models ----

/// Where a record stands, from a place on; the end where there is none.
pub open spec fn record_place(models: Seq<RecordView>, id: ModelId, from: nat) -> nat
    decreases models.len() - from,
{
    if from < models.len() && models[from as int].id != id {
        record_place(models, id, from + 1)
    } else {
        from
    }
}

/// The model that is stored under an identity.
pub open spec fn stored_model(models: Seq<RecordView>, id: ModelId) -> Option<ModelView> {
    let place = record_place(models, id, 0) as int;
    if place < models.len() {
        models[place].stored
    } else {
        None
    }
}

fn find_record(models: &Vec<ModelRecord>, id: ModelId) -> (place: usize)
    ensures
        place == record_place(record_views(models@), id, 0),
        place <= models.len(),
{
    let ghost all = record_views(models@);
    let mut i: usize = 0;
    while i < models.len() && models[i].id != id
        invariant
            i <= models.len(),
            all == record_views(models@),
            record_place(all, id, 0) == record_place(all, id, i as nat),
        decreases models.len() - i,
    {
        assert(all[i as int] == models@[i as int]@);
        i += 1;
    }
    if i < models.len() {
        assert(all[i as int] == models@[i as int]@);
    }
    i
}

/// Whether one model has fewer executions than another, or is first in order.
pub open spec fn observed_less(left: ModelView, right: ModelView) -> bool {
    left.executions < right.executions || left.executions == right.executions
        && left.id().spec_before(right.id())
}

/// Where a model goes among scanned ones, from a place on.
pub open spec fn scan_place(scanned: Seq<ModelView>, model: ModelView, from: nat) -> nat
    decreases scanned.len() - from,
{
    if from < scanned.len() && !observed_less(scanned[from as int], model) {
        scan_place(scanned, model, from + 1)
    } else {
        from
    }
}

/// The stored models, the one with the most executions first.
pub open spec fn scanned(models: Seq<RecordView>) -> Seq<ModelView>
    decreases models.len(),
{
    if models.len() == 0 {
        Seq::empty()
    } else {
        let before = scanned(models.drop_last());
        match models.last().stored {
            Some(stored) => before.insert(scan_place(before, stored, 0) as int, stored),
            None => before,
        }
    }
}

/// The first of a run, up to a number.
pub open spec fn first_of<A>(items: Seq<A>, limit: nat) -> Seq<A> {
    if items.len() <= limit {
        items
    } else {
        items.take(limit as int)
    }
}

/// The stored models that were executed most.
pub open spec fn most_observed(models: Seq<RecordView>, limit: nat) -> Seq<ModelView> {
    first_of(scanned(models), limit)
}

fn scan_retained_persisted_models(models: &Vec<ModelRecord>, limit: usize) -> (result: Vec<
    QueryModel,
>)
    ensures
        crate::scheduler::model::model_views(result@) == most_observed(
            record_views(models@),
            limit as nat,
        ),
{
    let ghost all = record_views(models@);
    let mut result: Vec<QueryModel> = Vec::new();
    let mut i: usize = 0;
    assert(all.take(0) =~= Seq::empty());
    assert(crate::scheduler::model::model_views(result@) =~= Seq::empty());
    while i < models.len()
        invariant
            i <= models.len(),
            all == record_views(models@),
            crate::scheduler::model::model_views(result@) == scanned(all.take(i as int)),
        decreases models.len() - i,
    {
        let ghost before = crate::scheduler::model::model_views(result@);
        proof {
            assert(all.take(i + 1).drop_last() =~= all.take(i as int));
            assert(all.take(i + 1).last() == models@[i as int]@);
        }
        if let Some(stored) = &models[i].stored {
            let mut at: usize = 0;
            while at < result.len() && !(result[at].executions < stored.executions
                || result[at].executions == stored.executions && ModelId::of(&result[at]).before(
                ModelId::of(stored),
            ))
                invariant
                    at <= result.len(),
                    before == crate::scheduler::model::model_views(result@),
                    scan_place(before, stored@, 0) == scan_place(before, stored@, at as nat),
                decreases result.len() - at,
            {
                assert(before[at as int] == result@[at as int]@);
                at += 1;
            }
            if at < result.len() {
                assert(before[at as int] == result@[at as int]@);
            }
            result.insert(at, stored.copy());
            assert(crate::scheduler::model::model_views(result@) =~= before.insert(
                at as int,
                stored@,
            ));
        }
        i += 1;
    }
    assert(all.take(i as int) =~= all);
    if result.len() > limit {
        let ghost full = crate::scheduler::model::model_views(result@);
        result.truncate(limit);
        assert(crate::scheduler::model::model_views(result@) =~= full.take(limit as int));
    }
    result
}

/// Entries with one entered; it replaces the one of its model.
pub open spec fn entry_entered(
    entries: Seq<ModelCatalogEntry>,
    entry: ModelCatalogEntry,
) -> Seq<ModelCatalogEntry> {
    let place = entry_place(entries, entry.spec_id(), 0) as int;
    if place < entries.len() {
        entries.update(place, entry)
    } else {
        entries.push(entry)
    }
}

/// Where the entry of a model stands, from a place on; the end where there is
/// none.
pub open spec fn entry_place(entries: Seq<ModelCatalogEntry>, id: ModelId, from: nat) -> nat
    decreases entries.len() - from,
{
    if from < entries.len() && entries[from as int].spec_id() != id {
        entry_place(entries, id, from + 1)
    } else {
        from
    }
}

/// Whether a model has an entry.
pub open spec fn has_entry(entries: Seq<ModelCatalogEntry>, id: ModelId) -> bool {
    entry_place(entries, id, 0) < entries.len()
}

/// Entries by model; a later one replaces an earlier one.
pub open spec fn entries_by_id(
    start: Seq<ModelCatalogEntry>,
    entries: Seq<ModelCatalogEntry>,
) -> Seq<ModelCatalogEntry>
    decreases entries.len(),
{
    if entries.len() == 0 {
        start
    } else {
        entry_entered(entries_by_id(start, entries.drop_last()), entries.last())
    }
}

/// The entries of models.
pub open spec fn entries_of(models: Seq<ModelView>) -> Seq<ModelCatalogEntry> {
    Seq::new(models.len(), |i: int| entry_of(models[i]))
}

fn find_entry(entries: &Vec<ModelCatalogEntry>, id: ModelId) -> (place: usize)
    ensures
        place == entry_place(entries@, id, 0),
        place <= entries.len(),
{
    let mut i: usize = 0;
    while i < entries.len() && entries[i].id() != id
        invariant
            i <= entries.len(),
            entry_place(entries@, id, 0) == entry_place(entries@, id, i as nat),
        decreases entries.len() - i,
    {
        i += 1;
    }
    i
}

fn enter_entries(entries: &mut Vec<ModelCatalogEntry>, added: &Vec<ModelCatalogEntry>)
    ensures
        final(entries)@ == entries_by_id(old(entries)@, added@),
{
    let ghost before = entries@;
    let mut i: usize = 0;
    assert(added@.take(0) =~= Seq::empty());
    while i < added.len()
        invariant
            i <= added.len(),
            entries@ == entries_by_id(before, added@.take(i as int)),
        decreases added.len() - i,
    {
        proof {
            assert(added@.take(i + 1).drop_last() =~= added@.take(i as int));
        }
        let place: usize = find_entry(entries, added[i].id());
        if place < entries.len() {
            entries.set(place, added[i]);
        } else {
            entries.push(added[i]);
        }
        i += 1;
    }
    assert(added@.take(i as int) =~= added@);
}

fn list_entries(models: &Vec<QueryModel>) -> (entries: Vec<ModelCatalogEntry>)
    ensures
        entries@ == entries_of(crate::scheduler::model::model_views(models@)),
{
    let ghost all = crate::scheduler::model::model_views(models@);
    let mut entries: Vec<ModelCatalogEntry> = Vec::new();
    let mut i: usize = 0;
    while i < models.len()
        invariant
            i <= models.len(),
            all == crate::scheduler::model::model_views(models@),
            entries.len() == i,
            forall|k: int| 0 <= k < i ==> #[trigger] entries@[k] == entry_of(all[k]),
        decreases models.len() - i,
    {
        assert(all[i as int] == models@[i as int]@);
        entries.push(ModelCatalogEntry::of(&models[i]));
        i += 1;
    }
    assert(entries@ =~= entries_of(all));
    entries
}

/// Whether a family has an entry.
pub open spec fn names_family(entries: Seq<ModelCatalogEntry>, family: Fingerprint) -> bool {
    exists|i: int| 0 <= i < entries.len() && (#[trigger] entries[i]).family == family
}

fn has_family(entries: &Vec<ModelCatalogEntry>, family: Fingerprint) -> (found: bool)
    ensures
        found == names_family(entries@, family),
{
    let mut i: usize = 0;
    while i < entries.len()
        invariant
            i <= entries.len(),
            forall|k: int| 0 <= k < i ==> (#[trigger] entries@[k]).family != family,
        decreases entries.len() - i,
    {
        if entries[i].family == family {
            return true;
        }
        i += 1;
    }
    false
}

// ---- writing models ----

/// Models to be written after one more delta. Each extends what is stored of
/// it.
pub open spec fn update_applied(
    updates: Seq<ModelView>,
    stored: Seq<RecordView>,
    delta: ModelView,
) -> Seq<ModelView> {
    let id = delta.id();
    let place = registry::model_place(updates, id, 0) as int;
    if place < updates.len() {
        updates.update(place, updates[place].merged(delta))
    } else {
        let base = match stored_model(stored, id) {
            Some(model) => model,
            None => ModelView::empty(id.family, id.kind),
        };
        updates.push(base.merged(delta))
    }
}

/// Models to be written after deltas.
pub open spec fn updates_of(
    stored: Seq<RecordView>,
    deltas: Seq<(Fingerprint, ModelView)>,
) -> Seq<ModelView>
    decreases deltas.len(),
{
    if deltas.len() == 0 {
        Seq::empty()
    } else {
        update_applied(updates_of(stored, deltas.drop_last()), stored, deltas.last().1)
    }
}

/// The records that stay: those of retained models, and where the catalog could
/// be read also those that it does not know.
pub open spec fn kept_records(
    models: Seq<RecordView>,
    known: Seq<ModelCatalogEntry>,
    retained: Seq<ModelCatalogEntry>,
    repair: bool,
) -> Seq<RecordView>
    decreases models.len(),
{
    if models.len() == 0 {
        Seq::empty()
    } else {
        let before = kept_records(models.drop_last(), known, retained, repair);
        let id = models.last().id;
        if has_entry(retained, id) || !repair && !has_entry(known, id) {
            before.push(models.last())
        } else {
            before
        }
    }
}

/// Records with one written.
pub open spec fn record_written(models: Seq<RecordView>, model: ModelView) -> Seq<RecordView> {
    let place = record_place(models, model.id(), 0) as int;
    let record = RecordView { id: model.id(), stored: Some(model) };
    if place < models.len() {
        models.update(place, record)
    } else {
        models.push(record)
    }
}

/// Records with the retained updates written.
pub open spec fn records_written(
    models: Seq<RecordView>,
    updates: Seq<ModelView>,
    retained: Seq<ModelCatalogEntry>,
) -> Seq<RecordView>
    decreases updates.len(),
{
    if updates.len() == 0 {
        models
    } else {
        let before = records_written(models, updates.drop_last(), retained);
        if has_entry(retained, updates.last().id()) {
            record_written(before, updates.last())
        } else {
            before
        }
    }
}

/// The appearances that stay: those of retained families, and where the catalog
/// could be read also those of families that it did not know.
pub open spec fn kept_frequencies(
    frequencies: Seq<(Fingerprint, Option<StoredFrequency>)>,
    previous: Seq<ModelCatalogEntry>,
    retained: Seq<ModelCatalogEntry>,
    repair: bool,
) -> Seq<(Fingerprint, Option<StoredFrequency>)>
    decreases frequencies.len(),
{
    if frequencies.len() == 0 {
        Seq::empty()
    } else {
        let before = kept_frequencies(frequencies.drop_last(), previous, retained, repair);
        let family = frequencies.last().0;
        if names_family(retained, family) || !repair && !names_family(previous, family) {
            before.push(frequencies.last())
        } else {
            before
        }
    }
}

/// What entries are ordered by.
pub open spec fn entry_keys(entries: Seq<ModelCatalogEntry>) -> Seq<Key> {
    Seq::new(
        entries.len(),
        |i: int| Key::spec_of(planner::kind_number(entries[i].kind), entries[i].family, 0),
    )
}

impl RecordsView {
    /// The entries before a batch: those of the catalog, or of what is stored
    /// where there is none.
    pub open spec fn entries(self, capacity: nat) -> Seq<ModelCatalogEntry> {
        match self.catalog {
            Some(catalog) => entries_by_id(Seq::empty(), catalog),
            None => entries_by_id(
                Seq::empty(),
                entries_of(most_observed(self.models, capacity)),
            ),
        }
    }

    /// The entries that stay after a batch.
    pub open spec fn retained(
        self,
        deltas: Seq<(Fingerprint, ModelView)>,
        capacity: nat,
    ) -> Seq<ModelCatalogEntry> {
        let known = self.known(deltas, capacity);
        first_of(ranked(known, newest_of(known)), capacity)
    }

    /// The entries with those of a batch.
    pub open spec fn known(
        self,
        deltas: Seq<(Fingerprint, ModelView)>,
        capacity: nat,
    ) -> Seq<ModelCatalogEntry> {
        entries_by_id(self.entries(capacity), entries_of(updates_of(self.models, deltas)))
    }

    /// After the deltas of a batch were written. Only the models that are worth
    /// most stay.
    pub open spec fn models_written(
        self,
        deltas: Seq<(Fingerprint, ModelView)>,
        capacity: nat,
    ) -> RecordsView {
        if deltas.len() == 0 {
            self
        } else {
            let repair = self.catalog is None;
            let known = self.known(deltas, capacity);
            let retained = self.retained(deltas, capacity);
            RecordsView {
                models: records_written(
                    kept_records(self.models, known, retained, repair),
                    updates_of(self.models, deltas),
                    retained,
                ),
                frequencies: kept_frequencies(
                    self.frequencies,
                    self.entries(capacity),
                    retained,
                    repair,
                ),
                catalog: Some(planner::sorted(retained, entry_keys(retained))),
                ..self
            }
        }
    }
}

fn apply_update(updates: &mut Vec<QueryModel>, stored: &Vec<ModelRecord>, delta: &QueryModel)
    ensures
        crate::scheduler::model::model_views(final(updates)@) == update_applied(
            crate::scheduler::model::model_views(old(updates)@),
            record_views(stored@),
            delta@,
        ),
{
    let ghost before = crate::scheduler::model::model_views(updates@);
    let id = ModelId::of(delta);
    let place: usize = find_model(updates, id);
    if place < updates.len() {
        assert(before[place as int] == updates@[place as int]@);
        let model = &mut updates[place];
        model.merge(delta);
        assert(crate::scheduler::model::model_views(updates@) =~= before.update(
            place as int,
            before[place as int].merged(delta@),
        ));
    } else {
        let at: usize = find_record(stored, id);
        let mut base = QueryModel::new(id.family, id.kind);
        if at < stored.len() {
            assert(record_views(stored@)[at as int] == stored@[at as int]@);
            if let Some(known) = &stored[at].stored {
                base = known.copy();
            }
        }
        base.merge(delta);
        let ghost shown = base@;
        updates.push(base);
        assert(crate::scheduler::model::model_views(updates@) =~= before.push(shown));
    }
}

fn gather_updates(stored: &Vec<ModelRecord>, deltas: &Vec<(Fingerprint, QueryModel)>) -> (updates:
    Vec<QueryModel>)
    ensures
        crate::scheduler::model::model_views(updates@) == updates_of(
            record_views(stored@),
            batch::delta_views(deltas@),
        ),
{
    let ghost all = batch::delta_views(deltas@);
    let mut updates: Vec<QueryModel> = Vec::new();
    let mut i: usize = 0;
    assert(all.take(0) =~= Seq::empty());
    assert(crate::scheduler::model::model_views(updates@) =~= Seq::empty());
    while i < deltas.len()
        invariant
            i <= deltas.len(),
            all == batch::delta_views(deltas@),
            crate::scheduler::model::model_views(updates@) == updates_of(
                record_views(stored@),
                all.take(i as int),
            ),
        decreases deltas.len() - i,
    {
        proof {
            assert(all.take(i + 1).drop_last() =~= all.take(i as int));
            assert(all.take(i + 1).last() == all[i as int]);
        }
        apply_update(&mut updates, stored, &deltas[i].1);
        i += 1;
    }
    assert(all.take(i as int) =~= all);
    updates
}

impl ModelRecord {
    fn copy(&self) -> (record: ModelRecord)
        ensures
            record@ == self@,
    {
        ModelRecord {
            id: self.id,
            stored: match &self.stored {
                Some(stored) => Some(stored.copy()),
                None => None,
            },
        }
    }
}

fn keep_records(
    models: &Vec<ModelRecord>,
    known: &Vec<ModelCatalogEntry>,
    retained: &Vec<ModelCatalogEntry>,
    repair: bool,
) -> (kept: Vec<ModelRecord>)
    ensures
        record_views(kept@) == kept_records(record_views(models@), known@, retained@, repair),
{
    let ghost all = record_views(models@);
    let mut kept: Vec<ModelRecord> = Vec::new();
    let mut i: usize = 0;
    assert(all.take(0) =~= Seq::empty());
    assert(record_views(kept@) =~= Seq::empty());
    while i < models.len()
        invariant
            i <= models.len(),
            all == record_views(models@),
            record_views(kept@) == kept_records(all.take(i as int), known@, retained@, repair),
        decreases models.len() - i,
    {
        proof {
            assert(all.take(i + 1).drop_last() =~= all.take(i as int));
            assert(all.take(i + 1).last() == models@[i as int]@);
        }
        let id = models[i].id;
        if find_entry(retained, id) < retained.len() || !repair && find_entry(known, id)
            == known.len() {
            let ghost before = record_views(kept@);
            kept.push(models[i].copy());
            assert(record_views(kept@) =~= before.push(models@[i as int]@));
        }
        i += 1;
    }
    assert(all.take(i as int) =~= all);
    kept
}

fn write_records(
    models: &mut Vec<ModelRecord>,
    updates: &Vec<QueryModel>,
    retained: &Vec<ModelCatalogEntry>,
)
    ensures
        record_views(final(models)@) == records_written(
            record_views(old(models)@),
            crate::scheduler::model::model_views(updates@),
            retained@,
        ),
{
    let ghost start = record_views(models@);
    let ghost all = crate::scheduler::model::model_views(updates@);
    let mut i: usize = 0;
    assert(all.take(0) =~= Seq::empty());
    while i < updates.len()
        invariant
            i <= updates.len(),
            all == crate::scheduler::model::model_views(updates@),
            record_views(models@) == records_written(start, all.take(i as int), retained@),
        decreases updates.len() - i,
    {
        proof {
            assert(all.take(i + 1).drop_last() =~= all.take(i as int));
            assert(all.take(i + 1).last() == updates@[i as int]@);
        }
        let id = ModelId::of(&updates[i]);
        if find_entry(retained, id) < retained.len() {
            let ghost before = record_views(models@);
            let place: usize = find_record(models, id);
            let record = ModelRecord { id, stored: Some(updates[i].copy()) };
            let ghost shown = record@;
            if place < models.len() {
                models.set(place, record);
            } else {
                models.push(record);
            }
            assert(record_views(models@) =~= record_written(before, updates@[i as int]@));
        }
        i += 1;
    }
    assert(all.take(i as int) =~= all);
}

fn keep_frequencies(
    frequencies: &Vec<(Fingerprint, Option<StoredFrequency>)>,
    previous: &Vec<ModelCatalogEntry>,
    retained: &Vec<ModelCatalogEntry>,
    repair: bool,
) -> (kept: Vec<(Fingerprint, Option<StoredFrequency>)>)
    ensures
        kept@ == kept_frequencies(frequencies@, previous@, retained@, repair),
{
    let mut kept: Vec<(Fingerprint, Option<StoredFrequency>)> = Vec::new();
    let mut i: usize = 0;
    assert(frequencies@.take(0) =~= Seq::empty());
    while i < frequencies.len()
        invariant
            i <= frequencies.len(),
            kept@ == kept_frequencies(
                frequencies@.take(i as int),
                previous@,
                retained@,
                repair,
            ),
        decreases frequencies.len() - i,
    {
        proof {
            assert(frequencies@.take(i + 1).drop_last() =~= frequencies@.take(i as int));
        }
        let family = frequencies[i].0;
        if has_family(retained, family) || !repair && !has_family(previous, family) {
            kept.push(frequencies[i]);
        }
        i += 1;
    }
    assert(frequencies@.take(i as int) =~= frequencies@);
    kept
}

fn kind_place(kind: ObservationModelKind) -> (number: u64)
    ensures
        number == planner::kind_number(kind),
{
    match kind {
        ObservationModelKind::Relation => 0,
        ObservationModelKind::Statement => 1,
    }
}

fn sort_entries(entries: &Vec<ModelCatalogEntry>) -> (ordered: Vec<ModelCatalogEntry>)
    ensures
        ordered@ == planner::sorted(entries@, entry_keys(entries@)),
{
    let mut keys: Vec<Key> = Vec::new();
    let mut i: usize = 0;
    while i < entries.len()
        invariant
            i <= entries.len(),
            keys.len() == i,
            forall|k: int| 0 <= k < i ==> #[trigger] keys@[k] == entry_keys(entries@)[k],
        decreases entries.len() - i,
    {
        keys.push(Key::of(kind_place(entries[i].kind), entries[i].family, 0));
        i += 1;
    }
    assert(keys@ =~= entry_keys(entries@));
    let order = sorted_order(&keys);
    let ghost places = sorting::index_views(order@);
    let mut ordered: Vec<ModelCatalogEntry> = Vec::new();
    let mut k: usize = 0;
    while k < order.len()
        invariant
            k <= order.len(),
            places == sorting::index_views(order@),
            sorting::is_permutation(places, entries@.len()),
            ordered@ =~= sorting::arranged(entries@, places).take(k as int),
        decreases order.len() - k,
    {
        assert(places[k as int] == order@[k as int]);
        ordered.push(entries[order[k]]);
        k += 1;
    }
    assert(ordered@ =~= planner::sorted(entries@, entry_keys(entries@)));
    ordered
}

impl StatisticsRecords {
    fn write_models(&mut self, deltas: &Vec<(Fingerprint, QueryModel)>, capacity: usize)
        ensures
            final(self)@ == old(self)@.models_written(
                batch::delta_views(deltas@),
                capacity as nat,
            ),
    {
        if deltas.len() == 0 {
            return;
        }
        let repair = self.catalog.is_none();
        let mut previous: Vec<ModelCatalogEntry> = Vec::new();
        match &self.catalog {
            Some(catalog) => {
                enter_entries(&mut previous, catalog);
            },
            None => {
                let found = scan_retained_persisted_models(&self.models, capacity);
                let listed = list_entries(&found);
                enter_entries(&mut previous, &listed);
            },
        }
        assert(previous@ == self@.entries(capacity as nat));
        let updates = gather_updates(&self.models, deltas);
        let listed = list_entries(&updates);
        let mut known: Vec<ModelCatalogEntry> = Vec::new();
        let mut i: usize = 0;
        while i < previous.len()
            invariant
                i <= previous.len(),
                known@ =~= previous@.take(i as int),
            decreases previous.len() - i,
        {
            known.push(previous[i]);
            i += 1;
        }
        assert(known@ =~= previous@);
        enter_entries(&mut known, &listed);
        let newest: u64 = find_newest(&known);
        let mut retained = rank(&known, newest);
        if retained.len() > capacity {
            retained.truncate(capacity);
        }
        assert(retained@ =~= self@.retained(batch::delta_views(deltas@), capacity as nat));
        let mut models = keep_records(&self.models, &known, &retained, repair);
        write_records(&mut models, &updates, &retained);
        self.frequencies = keep_frequencies(&self.frequencies, &previous, &retained, repair);
        self.models = models;
        self.catalog = Some(sort_entries(&retained));
    }
}

// ---- writing appearances ----

/// Appearances as they count in an epoch; none where they cannot be read or
/// are of a later epoch.
pub open spec fn counted_in(stored: Option<StoredFrequency>, epoch: u64) -> Option<u32> {
    match stored {
        Some(stored) => if stored.epoch <= epoch {
            Some(records::halved_count(stored.count as nat, (epoch - stored.epoch) as nat) as u32)
        } else {
            None
        },
        None => None,
    }
}

fn decode_stored_frequency(stored: Option<StoredFrequency>, epoch: u64) -> (count: Option<u32>)
    ensures
        count == counted_in(stored, epoch),
{
    match stored {
        Some(stored) => if stored.epoch <= epoch {
            Some(decay_frequency(stored.count, epoch - stored.epoch))
        } else {
            None
        },
        None => None,
    }
}

/// Stored appearances after more of a family.
pub open spec fn frequency_written(
    frequencies: Seq<(Fingerprint, Option<StoredFrequency>)>,
    family: Fingerprint,
    delta: u32,
    epoch: u64,
) -> Seq<(Fingerprint, Option<StoredFrequency>)> {
    let place = records::family_place(frequencies, family, 0) as int;
    let current = if place < frequencies.len() {
        match counted_in(frequencies[place].1, epoch) {
            Some(count) => count,
            None => 0,
        }
    } else {
        0
    };
    let record = (family, Some(StoredFrequency { count: current.saturating_add(delta), epoch }));
    if place < frequencies.len() {
        frequencies.update(place, record)
    } else {
        frequencies.push(record)
    }
}

/// Stored appearances after those of a batch. Only families with a model count.
pub open spec fn frequencies_written(
    frequencies: Seq<(Fingerprint, Option<StoredFrequency>)>,
    counts: Seq<(Fingerprint, u32)>,
    retained: Seq<ModelCatalogEntry>,
    epoch: u64,
) -> Seq<(Fingerprint, Option<StoredFrequency>)>
    decreases counts.len(),
{
    if counts.len() == 0 {
        frequencies
    } else {
        let before = frequencies_written(frequencies, counts.drop_last(), retained, epoch);
        if counts.last().1 == 0 || !names_family(retained, counts.last().0) {
            before
        } else {
            frequency_written(before, counts.last().0, counts.last().1, epoch)
        }
    }
}

impl RecordsView {
    /// After the appearances of a batch were written.
    pub open spec fn frequency_written(
        self,
        counts: Seq<(Fingerprint, u32)>,
        decays: u64,
    ) -> RecordsView {
        if counts.len() == 0 && decays == 0 {
            self
        } else {
            let epoch = self.frequency_epoch.saturating_add(decays);
            RecordsView {
                frequency_epoch: epoch,
                frequencies: frequencies_written(
                    self.frequencies,
                    counts,
                    match self.catalog {
                        Some(catalog) => catalog,
                        None => Seq::empty(),
                    },
                    epoch,
                ),
                ..self
            }
        }
    }
}

impl StatisticsRecords {
    fn write_frequency(&mut self, counts: &Vec<(Fingerprint, u32)>, decays: u64)
        ensures
            final(self)@ == old(self)@.frequency_written(counts@, decays),
    {
        if counts.len() == 0 && decays == 0 {
            return;
        }
        let epoch: u64 = self.frequency_epoch.saturating_add(decays);
        self.frequency_epoch = epoch;
        let ghost start = self.frequencies@;
        let none: Vec<ModelCatalogEntry> = Vec::new();
        let retained = match &self.catalog {
            Some(catalog) => catalog,
            None => &none,
        };
        let mut frequencies: Vec<(Fingerprint, Option<StoredFrequency>)> = Vec::new();
        let mut c: usize = 0;
        while c < self.frequencies.len()
            invariant
                c <= self.frequencies.len(),
                start == self.frequencies@,
                frequencies@ =~= start.take(c as int),
            decreases self.frequencies.len() - c,
        {
            frequencies.push(self.frequencies[c]);
            c += 1;
        }
        assert(frequencies@ =~= start);
        let mut i: usize = 0;
        assert(counts@.take(0) =~= Seq::empty());
        while i < counts.len()
            invariant
                i <= counts.len(),
                frequencies@ == frequencies_written(
                    start,
                    counts@.take(i as int),
                    retained@,
                    epoch,
                ),
            decreases counts.len() - i,
        {
            proof {
                assert(counts@.take(i + 1).drop_last() =~= counts@.take(i as int));
            }
            let (family, delta) = counts[i];
            if delta != 0 && has_family(retained, family) {
                let place: usize = find_family(&frequencies, family);
                let current: u32 = if place < frequencies.len() {
                    match decode_stored_frequency(frequencies[place].1, epoch) {
                        Some(count) => count,
                        None => 0,
                    }
                } else {
                    0
                };
                let record = (
                    family,
                    Some(StoredFrequency { count: current.saturating_add(delta), epoch }),
                );
                if place < frequencies.len() {
                    frequencies.set(place, record);
                } else {
                    frequencies.push(record);
                }
            }
            i += 1;
        }
        assert(counts@.take(i as int) =~= counts@);
        self.frequencies = frequencies;
    }
}

// ---- writing synopses ----

/// Synopses with those of a batch entered.
pub open spec fn synopses_written(
    synopses: Seq<SynopsisView>,
    added: Seq<SynopsisView>,
) -> Seq<SynopsisView>
    decreases added.len(),
{
    if added.len() == 0 {
        synopses
    } else {
        records::synopsis_entered(synopses_written(synopses, added.drop_last()), added.last())
    }
}

impl StatisticsRecords {
    fn write_synopses(&mut self, added: &Vec<SynopsisModel>)
        ensures
            final(self)@ == (RecordsView {
                synopses: synopses_written(
                    old(self)@.synopses,
                    records::synopsis_views(added@),
                ),
                ..old(self)@
            }),
    {
        let ghost start = self@;
        let ghost all = records::synopsis_views(added@);
        let mut i: usize = 0;
        assert(all.take(0) =~= Seq::empty());
        while i < added.len()
            invariant
                i <= added.len(),
                all == records::synopsis_views(added@),
                self@ == (RecordsView {
                    synopses: synopses_written(start.synopses, all.take(i as int)),
                    ..start
                }),
            decreases added.len() - i,
        {
            proof {
                assert(all.take(i + 1).drop_last() =~= all.take(i as int));
                assert(all.take(i + 1).last() == added@[i as int]@);
            }
            enter_synopsis(&mut self.synopses, added[i].copy());
            i += 1;
        }
        assert(all.take(i as int) =~= all);
    }
}

// ---- writing programs ----

/// Whether a log entry comes before a time and a number. Entries whose key
/// cannot be read come first.
pub open spec fn logged_before(execution: ExecutionView, at: u64, sequence: u64) -> bool {
    match execution.at {
        Some(time) => time < at || time == at && execution.sequence < sequence,
        None => true,
    }
}

/// Where a log entry goes, from a place on.
pub open spec fn log_place(
    executions: Seq<ExecutionView>,
    at: u64,
    sequence: u64,
    from: nat,
) -> nat
    decreases executions.len() - from,
{
    if from < executions.len() && logged_before(executions[from as int], at, sequence) {
        log_place(executions, at, sequence, from + 1)
    } else {
        from
    }
}

/// The log with an entry written, in order of time.
pub open spec fn log_written(
    executions: Seq<ExecutionView>,
    at: u64,
    sequence: u64,
    stored: LoggedView,
) -> Seq<ExecutionView> {
    let place = log_place(executions, at, sequence, 0) as int;
    let entry = ExecutionView { at: Some(at), sequence, stored: Some(stored) };
    if place < executions.len() && executions[place].at == Some(at) && executions[place].sequence
        == sequence {
        executions.update(place, entry)
    } else {
        executions.insert(place, entry)
    }
}

/// Programs with one written.
pub open spec fn program_written(
    programs: Seq<ProgramEntryView>,
    hash: u128,
    bytes: Seq<u8>,
) -> Seq<ProgramEntryView> {
    let identity = (CANONICAL_FORMAT_VERSION, identity::big_endian(hash as nat, 16));
    let place = corpus::program_place(programs, identity, 0) as int;
    let entry = ProgramEntryView { identity: Some(identity), bytes };
    if place < programs.len() {
        programs.update(place, entry)
    } else {
        programs.push(entry)
    }
}

/// What is logged of a captured program.
pub open spec fn logged_of(record: ProgramView) -> LoggedView {
    LoggedView {
        program: identity::hex(identity::big_endian(record.content_hash as nat, 16)),
        canonical_version: CANONICAL_FORMAT_VERSION,
        statements: record.statements,
        outcomes: record.outcomes,
    }
}

/// What is known while programs are written: the records, the hashes of stored
/// programs, and the next number.
#[verifier::ext_equal]
pub struct CaptureView {
    pub programs: Seq<ProgramEntryView>,
    pub executions: Seq<ExecutionView>,
    pub stored: Seq<u128>,
    pub sequence: u64,
}

impl CaptureView {
    /// After a captured program was written. Its bytes are only written where
    /// they are not stored yet, its execution always.
    pub open spec fn written(self, record: ProgramView) -> CaptureView {
        let unseen = !self.stored.contains(record.content_hash);
        CaptureView {
            programs: if unseen {
                program_written(self.programs, record.content_hash, record.canonical)
            } else {
                self.programs
            },
            executions: log_written(
                self.executions,
                record.at_unix_micros,
                self.sequence,
                logged_of(record),
            ),
            stored: if unseen {
                self.stored.push(record.content_hash)
            } else {
                self.stored
            },
            sequence: self.sequence.saturating_add(1),
        }
    }

    /// After captured programs were written.
    pub open spec fn all_written(self, records: Seq<ProgramView>) -> CaptureView
        decreases records.len(),
    {
        if records.len() == 0 {
            self
        } else {
            self.all_written(records.drop_last()).written(records.last())
        }
    }
}

fn holds_hash(hashes: &Vec<u128>, hash: u128) -> (found: bool)
    ensures
        found == hashes@.contains(hash),
{
    let mut i: usize = 0;
    while i < hashes.len()
        invariant
            i <= hashes.len(),
            forall|k: int| 0 <= k < i ==> hashes@[k] != hash,
        decreases hashes.len() - i,
    {
        if hashes[i] == hash {
            assert(hashes@[i as int] == hash);
            return true;
        }
        i += 1;
    }
    false
}

// ---- the statistics of a database ----

/// The statistics that a database stores of itself.
#[derive(Debug, PartialEq)]
pub struct SlateStatistics {
    pub records: StatisticsRecords,
    pub model_capacity: usize,
    pub corpus_policy: CorpusPolicy,
    pub sequence: u64,
    pub stored_programs: Vec<u128>,
    pub corpus_maintenance: Option<CorpusMaintenanceStats>,
}

/// The value of [`SlateStatistics`].
#[verifier::ext_equal]
pub struct SlateView {
    pub records: RecordsView,
    pub model_capacity: usize,
    pub corpus_policy: CorpusPolicy,
    pub sequence: u64,
    pub stored_programs: Seq<u128>,
    pub corpus_maintenance: Option<CorpusMaintenanceStats>,
}

impl View for SlateStatistics {
    type V = SlateView;

    open spec fn view(&self) -> SlateView {
        SlateView {
            records: self.records@,
            model_capacity: self.model_capacity,
            corpus_policy: self.corpus_policy,
            sequence: self.sequence,
            stored_programs: self.stored_programs@,
            corpus_maintenance: self.corpus_maintenance,
        }
    }
}

impl SlateView {
    /// What is known before programs are written.
    pub open spec fn capture(self) -> CaptureView {
        CaptureView {
            programs: self.records.programs,
            executions: self.records.executions,
            stored: self.stored_programs,
            sequence: self.sequence,
        }
    }

    /// After captured programs were written.
    pub open spec fn programs_written(self, programs: Seq<ProgramView>) -> SlateView {
        let after = self.capture().all_written(programs);
        SlateView {
            records: RecordsView {
                programs: after.programs,
                executions: after.executions,
                ..self.records
            },
            sequence: after.sequence,
            stored_programs: after.stored,
            ..self
        }
    }

    /// After the workload was brought within bounds.
    pub open spec fn maintained(self, now: u64) -> SlateView {
        let kept = corpus::retained(
            self.records.programs,
            self.records.executions,
            now,
            self.corpus_policy,
        );
        SlateView {
            records: RecordsView {
                programs: kept.programs,
                executions: kept.executions,
                ..self.records
            },
            stored_programs: kept.hashes,
            corpus_maintenance: Some(
                corpus::retention_reported(self.corpus_maintenance, kept.report),
            ),
            ..self
        }
    }

    /// After a batch was written.
    pub open spec fn written(self, batch: BatchView, now: u64) -> SlateView {
        if batch.is_empty() {
            self
        } else {
            let changed = RecordsView {
                table_changes: records::all_counted(
                    self.records.table_changes,
                    batch.table_changes,
                ),
                ..self.records
            };
            let modelled = changed.models_written(batch.models, self.model_capacity as nat);
            let counted = modelled.frequency_written(batch.frequency, batch.frequency_decays);
            let surveyed = RecordsView {
                synopses: synopses_written(counted.synopses, batch.synopses),
                ..counted
            };
            SlateView { records: surveyed, ..self }.programs_written(batch.programs).maintained(now)
        }
    }

    /// After the workload was erased.
    pub open spec fn erased(self) -> SlateView {
        SlateView {
            records: RecordsView {
                programs: Seq::empty(),
                executions: Seq::empty(),
                ..self.records
            },
            stored_programs: Seq::empty(),
            corpus_maintenance: Some(
                corpus::erasure_reported(
                    self.corpus_maintenance,
                    CorpusErasure {
                        executions: self.records.executions.len() as u64,
                        programs: self.records.programs.len() as u64,
                    },
                ),
            ),
            ..self
        }
    }
}

impl SlateStatistics {
    /// The statistics of records.
    pub fn new(records: StatisticsRecords) -> (statistics: SlateStatistics)
        ensures
            statistics@ == (SlateView {
                records: records@,
                model_capacity: 4096,
                corpus_policy: CorpusPolicy {
                    max_executions: 10_000,
                    max_bytes: 67_108_864,
                    max_age: 604_800_000_000,
                },
                sequence: 0,
                stored_programs: Seq::empty(),
                corpus_maintenance: None,
            }),
    {
        SlateStatistics::with_options(
            records,
            batch::DEFAULT_REGISTRY_CAPACITY,
            CorpusPolicy::default(),
        )
    }

    /// The statistics of records, with a capacity of models.
    pub fn with_model_capacity(records: StatisticsRecords, model_capacity: usize) -> (statistics:
        SlateStatistics)
        ensures
            statistics@ == (SlateView {
                records: records@,
                model_capacity: if model_capacity < 16 {
                    16
                } else {
                    model_capacity
                },
                corpus_policy: CorpusPolicy {
                    max_executions: 10_000,
                    max_bytes: 67_108_864,
                    max_age: 604_800_000_000,
                },
                sequence: 0,
                stored_programs: Seq::empty(),
                corpus_maintenance: None,
            }),
    {
        SlateStatistics::with_options(records, model_capacity, CorpusPolicy::default())
    }

    /// The statistics of records, with a capacity and a policy.
    pub fn with_options(
        records: StatisticsRecords,
        model_capacity: usize,
        corpus_policy: CorpusPolicy,
    ) -> (statistics: SlateStatistics)
        ensures
            statistics@ == (SlateView {
                records: records@,
                model_capacity: if model_capacity < 16 {
                    16
                } else {
                    model_capacity
                },
                corpus_policy,
                sequence: 0,
                stored_programs: Seq::empty(),
                corpus_maintenance: None,
            }),
    {
        let statistics = SlateStatistics {
            records,
            model_capacity: if model_capacity < 16 {
                16
            } else {
                model_capacity
            },
            corpus_policy,
            sequence: 0,
            stored_programs: Vec::new(),
            corpus_maintenance: None,
        };
        assert(statistics@.stored_programs =~= Seq::empty());
        statistics
    }

    fn write_program(&mut self, record: &ProgramRecord)
        ensures
            final(self)@ == old(self)@.programs_written(seq![record@]),
    {
        let ghost before = self@;
        let ghost shown = record@;
        proof {
            let one = seq![shown];
            assert(one.drop_last() =~= Seq::empty());
            assert(before.capture().all_written(one.drop_last()) == before.capture());
            assert(one.last() == shown);
        }
        let hash: u128 = record.content_hash;
        if !holds_hash(&self.stored_programs, hash) {
            let mut key: Vec<u8> = Vec::new();
            identity::push_big_endian(&mut key, hash, 16);
            assert(key@ =~= identity::big_endian(hash as nat, 16));
            let ghost programs = self@.records.programs;
            let place: usize = corpus::find_program(
                &self.records.programs,
                CANONICAL_FORMAT_VERSION,
                &key,
            );
            let entry = ProgramEntry {
                identity: Some((CANONICAL_FORMAT_VERSION, key)),
                bytes: copy_bytes(&record.canonical),
            };
            if place < self.records.programs.len() {
                self.records.programs.set(place, entry);
            } else {
                self.records.programs.push(entry);
            }
            assert(self@.records.programs =~= program_written(programs, hash, shown.canonical));
            self.stored_programs.push(hash);
        }
        let sequence: u64 = self.sequence;
        self.sequence = self.sequence.saturating_add(1);
        let ghost executions = self@.records.executions;
        let at: u64 = record.at_unix_micros;
        let mut place: usize = 0;
        while place < self.records.executions.len() && comes_before(
            &self.records.executions[place],
            at,
            sequence,
        )
            invariant
                place <= self.records.executions.len(),
                executions == corpus::execution_views(self.records.executions@),
                log_place(executions, at, sequence, 0) == log_place(
                    executions,
                    at,
                    sequence,
                    place as nat,
                ),
            decreases self.records.executions.len() - place,
        {
            assert(executions[place as int] == self.records.executions@[place as int]@);
            place += 1;
        }
        if place < self.records.executions.len() {
            assert(executions[place as int] == self.records.executions@[place as int]@);
        }
        let entry = ExecutionEntry {
            at: Some(at),
            sequence,
            stored: Some(
                StoredCorpusExecution {
                    program: hash_text(hash),
                    canonical_version: CANONICAL_FORMAT_VERSION,
                    statements: record.statements,
                    outcomes: copy_outcomes(&record.outcomes),
                },
            ),
        };
        assert(entry@.stored == Some(logged_of(shown)));
        if place < self.records.executions.len() && self.records.executions[place].at == Some(at)
            && self.records.executions[place].sequence == sequence {
            self.records.executions.set(place, entry);
        } else {
            self.records.executions.insert(place, entry);
        }
        assert(self@.records.executions =~= log_written(
            executions,
            at,
            sequence,
            logged_of(shown),
        ));
        assert(self@ =~= before.programs_written(seq![shown]));
    }

    fn write_programs(&mut self, programs: &Vec<ProgramRecord>)
        ensures
            final(self)@ == old(self)@.programs_written(records::program_views(programs@)),
    {
        let ghost start = self@;
        let ghost all = records::program_views(programs@);
        let mut i: usize = 0;
        assert(all.take(0) =~= Seq::empty());
        assert(self@ =~= start.programs_written(all.take(0)));
        while i < programs.len()
            invariant
                i <= programs.len(),
                all == records::program_views(programs@),
                self@ == start.programs_written(all.take(i as int)),
            decreases programs.len() - i,
        {
            let ghost before = self@;
            proof {
                assert(all.take(i + 1).drop_last() =~= all.take(i as int));
                assert(all.take(i + 1).last() == programs@[i as int]@);
                let one = seq![programs@[i as int]@];
                assert(one.drop_last() =~= Seq::empty());
                assert(before.capture().all_written(one.drop_last()) == before.capture());
                assert(before.capture() =~= start.capture().all_written(all.take(i as int)));
            }
            self.write_program(&programs[i]);
            assert(self@ =~= start.programs_written(all.take(i + 1)));
            i += 1;
        }
        assert(all.take(i as int) =~= all);
    }

    /// Brings the workload within bounds.
    pub fn initialize_corpus_maintenance(&mut self, now: u64)
        ensures
            final(self)@ == old(self)@.maintained(now),
    {
        let (programs, executions, hashes, report) = retain_corpus(
            &self.records.programs,
            &self.records.executions,
            now,
            self.corpus_policy,
        );
        self.records.programs = programs;
        self.records.executions = executions;
        self.stored_programs = hashes;
        self.corpus_maintenance = Some(record_corpus_retention(self.corpus_maintenance, report));
    }

    /// Writes a batch.
    pub fn write(&mut self, batch: &StatisticsBatch, now: u64)
        ensures
            final(self)@ == old(self)@.written(batch@, now),
    {
        if batch.is_empty() {
            return;
        }
        add_counts(&mut self.records.table_changes, &batch.table_changes);
        self.records.write_models(&batch.models, self.model_capacity);
        self.records.write_frequency(&batch.frequency, batch.frequency_decays);
        self.records.write_synopses(&batch.synopses);
        self.write_programs(&batch.programs);
        self.initialize_corpus_maintenance(now);
    }

    /// Erases the workload. Says how much was erased.
    pub fn erase_corpus(&mut self) -> (erased: u64)
        ensures
            final(self)@ == old(self)@.erased(),
            erased == (old(self)@.records.executions.len() as u64).saturating_add(
                old(self)@.records.programs.len() as u64,
            ),
    {
        let erasure = CorpusErasure {
            executions: self.records.executions.len() as u64,
            programs: self.records.programs.len() as u64,
        };
        self.records.executions = Vec::new();
        self.records.programs = Vec::new();
        self.stored_programs = Vec::new();
        self.corpus_maintenance = Some(record_corpus_erasure(self.corpus_maintenance, erasure));
        assert(self@.records.programs =~= Seq::empty());
        assert(self@.records.executions =~= Seq::empty());
        erasure.total()
    }
}

fn comes_before(execution: &ExecutionEntry, at: u64, sequence: u64) -> (before: bool)
    ensures
        before == logged_before(execution@, at, sequence),
{
    match execution.at {
        Some(time) => time < at || time == at && execution.sequence < sequence,
        None => true,
    }
}

// ---- reading ----

impl Default for StatisticsRecords {
    fn default() -> (records: StatisticsRecords)
        ensures
            records@ == (RecordsView {
                table_changes: Seq::empty(),
                catalog: None,
                models: Seq::empty(),
                frequency_epoch: 0,
                frequencies: Seq::empty(),
                synopses: Seq::empty(),
                programs: Seq::empty(),
                executions: Seq::empty(),
            }),
    {
        let records = StatisticsRecords {
            table_changes: Vec::new(),
            catalog: None,
            models: Vec::new(),
            frequency_epoch: 0,
            frequencies: Vec::new(),
            synopses: Vec::new(),
            programs: Vec::new(),
            executions: Vec::new(),
        };
        assert(records@.models =~= Seq::empty());
        assert(records@.synopses =~= Seq::empty());
        assert(records@.programs =~= Seq::empty());
        assert(records@.executions =~= Seq::empty());
        records
    }
}

/// The models of ranked entries, each once and as far as they are stored.
pub open spec fn models_of(models: Seq<RecordView>, entries: Seq<ModelCatalogEntry>) -> Seq<
    ModelView,
>
    decreases entries.len(),
{
    if entries.len() == 0 {
        Seq::empty()
    } else {
        let earlier = entries.drop_last();
        let before = models_of(models, earlier);
        let id = entries.last().spec_id();
        match stored_model(models, id) {
            Some(stored) => if has_entry(earlier, id) {
                before
            } else {
                before.push(stored)
            },
            None => before,
        }
    }
}

/// The families of ranked entries, each once.
pub open spec fn families_of(entries: Seq<ModelCatalogEntry>) -> Seq<Fingerprint>
    decreases entries.len(),
{
    if entries.len() == 0 {
        Seq::empty()
    } else {
        let before = families_of(entries.drop_last());
        if before.contains(entries.last().family) {
            before
        } else {
            before.push(entries.last().family)
        }
    }
}

/// The appearances of families that were seen at all.
pub open spec fn frequencies_of(
    frequencies: Seq<(Fingerprint, Option<StoredFrequency>)>,
    families: Seq<Fingerprint>,
    epoch: u64,
) -> Seq<(Fingerprint, u32)>
    decreases families.len(),
{
    if families.len() == 0 {
        Seq::empty()
    } else {
        let before = frequencies_of(frequencies, families.drop_last(), epoch);
        let family = families.last();
        match records::family_value(frequencies, family) {
            Some(stored) => match counted_in(stored, epoch) {
                Some(count) => if count > 0 {
                    before.push((family, count))
                } else {
                    before
                },
                None => before,
            },
            None => before,
        }
    }
}

impl RecordsView {
    /// The stored models that are worth most.
    pub open spec fn loaded_models(self, limit: nat) -> Seq<ModelView> {
        match self.catalog {
            Some(catalog) => models_of(
                self.models,
                first_of(ranked(catalog, newest_of(catalog)), limit),
            ),
            None => most_observed(self.models, limit),
        }
    }

    /// The stored appearances of the families that are worth most.
    pub open spec fn loaded_frequencies(self, limit: nat) -> Seq<(Fingerprint, u32)> {
        let entries = match self.catalog {
            Some(catalog) => ranked(catalog, newest_of(catalog)),
            None => entries_of(most_observed(self.models, limit)),
        };
        frequencies_of(
            self.frequencies,
            first_of(families_of(entries), limit),
            self.frequency_epoch,
        )
    }

    /// Everything that is stored, in canonical order.
    pub open spec fn snapshot(self, limit: nat) -> PersistedView {
        planner::canonical(
            self.loaded_models(limit),
            self.synopses,
            self.loaded_frequencies(limit),
        )
    }
}

fn collect_families(entries: &Vec<ModelCatalogEntry>) -> (families: Vec<Fingerprint>)
    ensures
        families@ == families_of(entries@),
{
    let mut families: Vec<Fingerprint> = Vec::new();
    let mut i: usize = 0;
    assert(entries@.take(0) =~= Seq::empty());
    while i < entries.len()
        invariant
            i <= entries.len(),
            families@ == families_of(entries@.take(i as int)),
        decreases entries.len() - i,
    {
        proof {
            assert(entries@.take(i + 1).drop_last() =~= entries@.take(i as int));
        }
        let family = entries[i].family;
        let mut seen = false;
        let mut k: usize = 0;
        while k < families.len()
            invariant
                k <= families.len(),
                seen == (exists|j: int| 0 <= j < k && families@[j] == family),
            decreases families.len() - k,
        {
            if families[k] == family {
                seen = true;
                assert(families@[k as int] == family);
            }
            k += 1;
        }
        assert(seen == families@.contains(family));
        if !seen {
            families.push(family);
        }
        i += 1;
    }
    assert(entries@.take(i as int) =~= entries@);
    families
}

impl StatisticsRecords {
    /// The stored models that are worth most.
    pub fn load_models(&self, limit: usize) -> (models: Vec<QueryModel>)
        ensures
            crate::scheduler::model::model_views(models@) == self@.loaded_models(limit as nat),
    {
        let catalog = match &self.catalog {
            Some(catalog) => catalog,
            None => {
                return scan_retained_persisted_models(&self.models, limit);
            },
        };
        let mut entries = rank(catalog, find_newest(catalog));
        if entries.len() > limit {
            entries.truncate(limit);
        }
        let ghost all = record_views(self.models@);
        let mut models: Vec<QueryModel> = Vec::new();
        let mut i: usize = 0;
        assert(entries@.take(0) =~= Seq::empty());
        assert(crate::scheduler::model::model_views(models@) =~= Seq::empty());
        while i < entries.len()
            invariant
                i <= entries.len(),
                all == record_views(self.models@),
                crate::scheduler::model::model_views(models@) == models_of(
                    all,
                    entries@.take(i as int),
                ),
            decreases entries.len() - i,
        {
            let ghost before = crate::scheduler::model::model_views(models@);
            proof {
                assert(entries@.take(i + 1).drop_last() =~= entries@.take(i as int));
            }
            let id = entries[i].id();
            let place: usize = find_record(&self.models, id);
            if place < self.models.len() {
                assert(all[place as int] == self.models@[place as int]@);
                if let Some(stored) = &self.models[place].stored {
                    if !seen_before(&entries, i, id) {
                        models.push(stored.copy());
                        assert(crate::scheduler::model::model_views(models@) =~= before.push(
                            stored@,
                        ));
                    }
                }
            }
            i += 1;
        }
        assert(entries@.take(i as int) =~= entries@);
        models
    }

    /// The stored synopses.
    pub fn load_synopses(&self) -> (synopses: Vec<SynopsisModel>)
        ensures
            records::synopsis_views(synopses@) == self@.synopses,
    {
        copy_synopses(&self.synopses)
    }

    /// The stored appearances of the families that are worth most.
    pub fn load_frequencies(&self, limit: usize) -> (frequencies: Vec<(Fingerprint, u32)>)
        ensures
            frequencies@ == self@.loaded_frequencies(limit as nat),
    {
        let entries = match &self.catalog {
            Some(catalog) => rank(catalog, find_newest(catalog)),
            None => {
                let found = scan_retained_persisted_models(&self.models, limit);
                list_entries(&found)
            },
        };
        let mut families = collect_families(&entries);
        if families.len() > limit {
            families.truncate(limit);
        }
        let mut frequencies: Vec<(Fingerprint, u32)> = Vec::new();
        let mut i: usize = 0;
        assert(families@.take(0) =~= Seq::empty());
        while i < families.len()
            invariant
                i <= families.len(),
                frequencies@ == frequencies_of(
                    self.frequencies@,
                    families@.take(i as int),
                    self.frequency_epoch,
                ),
            decreases families.len() - i,
        {
            proof {
                assert(families@.take(i + 1).drop_last() =~= families@.take(i as int));
            }
            let place: usize = find_family(&self.frequencies, families[i]);
            if place < self.frequencies.len() {
                if let Some(count) = decode_stored_frequency(
                    self.frequencies[place].1,
                    self.frequency_epoch,
                ) {
                    if count > 0 {
                        frequencies.push((families[i], count));
                    }
                }
            }
            i += 1;
        }
        assert(families@.take(i as int) =~= families@);
        frequencies
    }

    /// Everything that is stored, in canonical order.
    pub fn load_snapshot(&self, limit: usize) -> (snapshot: PersistedStatisticsSnapshot)
        ensures
            snapshot@ == self@.snapshot(limit as nat),
    {
        PersistedStatisticsSnapshot::new(
            &self.load_models(limit),
            &self.load_synopses(),
            &self.load_frequencies(limit),
        )
    }
}

fn seen_before(entries: &Vec<ModelCatalogEntry>, length: usize, id: ModelId) -> (seen: bool)
    requires
        length <= entries.len(),
    ensures
        seen == has_entry(entries@.take(length as int), id),
{
    let ghost some = entries@.take(length as int);
    let mut i: usize = 0;
    while i < length && entries[i].id() != id
        invariant
            i <= length <= entries.len(),
            some == entries@.take(length as int),
            entry_place(some, id, 0) == entry_place(some, id, i as nat),
        decreases length - i,
    {
        assert(some[i as int] == entries@[i as int]);
        i += 1;
    }
    if i < length {
        assert(some[i as int] == entries@[i as int]);
    }
    i < length
}

// ---- reading the workload ----

/// An execution with its program.
#[derive(Debug, PartialEq)]
pub struct CorpusExecution {
    pub canonical: Vec<u8>,
    pub content_hash: u128,
    pub at_unix_micros: u64,
    pub statements: u32,
    pub outcomes: Vec<ProgramStatementOutcome>,
}

impl View for CorpusExecution {
    type V = ProgramView;

    open spec fn view(&self) -> ProgramView {
        ProgramView {
            canonical: self.canonical@,
            content_hash: self.content_hash,
            at_unix_micros: self.at_unix_micros,
            statements: self.statements,
            outcomes: records::outcome_views(self.outcomes@),
        }
    }
}

pub open spec fn corpus_views(executions: Seq<CorpusExecution>) -> Seq<ProgramView> {
    Seq::new(executions.len(), |i: int| executions[i]@)
}

/// Whether a log entry can be read.
pub open spec fn is_readable(execution: ExecutionView) -> bool {
    execution.at is Some && execution.stored is Some
}

/// The log entries that can be read.
pub open spec fn readable(executions: Seq<ExecutionView>) -> Seq<ExecutionView>
    decreases executions.len(),
{
    if executions.len() == 0 {
        Seq::empty()
    } else {
        let before = readable(executions.drop_last());
        if is_readable(executions.last()) {
            before.push(executions.last())
        } else {
            before
        }
    }
}

/// The last of a run, up to a number.
pub open spec fn last_of<A>(items: Seq<A>, limit: nat) -> Seq<A> {
    if items.len() <= limit {
        items
    } else {
        items.skip(items.len() - limit)
    }
}

/// An execution with its program, where the program is stored.
pub open spec fn replayable(
    programs: Seq<ProgramEntryView>,
    execution: ExecutionView,
) -> Option<ProgramView> {
    let stored = execution.stored->0;
    match identity::unhex(stored.program) {
        Some(hash) => {
            let key = (stored.canonical_version, hash);
            if stored.canonical_version == CANONICAL_FORMAT_VERSION && hash.len() == 16
                && corpus::has_program(programs, key) {
                Some(
                    ProgramView {
                        canonical: programs[corpus::program_place(programs, key, 0) as int].bytes,
                        content_hash: identity::number(hash) as u128,
                        at_unix_micros: execution.at->0,
                        statements: stored.statements,
                        outcomes: stored.outcomes,
                    },
                )
            } else {
                None
            }
        },
        None => None,
    }
}

/// The executions of a run whose programs are stored.
pub open spec fn all_replayable(
    programs: Seq<ProgramEntryView>,
    executions: Seq<ExecutionView>,
) -> Seq<ProgramView>
    decreases executions.len(),
{
    if executions.len() == 0 {
        Seq::empty()
    } else {
        let before = all_replayable(programs, executions.drop_last());
        match replayable(programs, executions.last()) {
            Some(execution) => before.push(execution),
            None => before,
        }
    }
}

impl RecordsView {
    /// The last executions that can be replayed.
    pub open spec fn loaded_corpus(self, limit: nat) -> Seq<ProgramView> {
        all_replayable(self.programs, last_of(readable(self.executions), limit))
    }
}

fn find_readable(executions: &Vec<ExecutionEntry>) -> (places: Vec<usize>)
    ensures
        forall|i: int| 0 <= i < places.len() ==> (#[trigger] places@[i]) < executions.len(),
        corpus::chosen(corpus::execution_views(executions@), corpus::indices(places@)) == readable(
            corpus::execution_views(executions@),
        ),
        forall|i: int|
            0 <= i < places.len() ==> is_readable(
                corpus::execution_views(executions@)[(#[trigger] places@[i]) as int],
            ),
{
    let ghost all = corpus::execution_views(executions@);
    let mut places: Vec<usize> = Vec::new();
    let mut i: usize = 0;
    assert(all.take(0) =~= Seq::empty());
    assert(corpus::chosen(all, corpus::indices(places@)) =~= Seq::empty());
    while i < executions.len()
        invariant
            i <= executions.len(),
            all == corpus::execution_views(executions@),
            forall|k: int| 0 <= k < places.len() ==> (#[trigger] places@[k]) < i,
            forall|k: int|
                0 <= k < places.len() ==> is_readable(all[(#[trigger] places@[k]) as int]),
            corpus::chosen(all, corpus::indices(places@)) == readable(all.take(i as int)),
        decreases executions.len() - i,
    {
        let ghost before = corpus::chosen(all, corpus::indices(places@));
        proof {
            assert(all.take(i + 1).drop_last() =~= all.take(i as int));
            assert(all.take(i + 1).last() == executions@[i as int]@);
        }
        if executions[i].at.is_some() && executions[i].stored.is_some() {
            places.push(i);
            assert(corpus::chosen(all, corpus::indices(places@)) =~= before.push(
                executions@[i as int]@,
            ));
        }
        i += 1;
    }
    assert(all.take(i as int) =~= all);
    places
}

fn load_execution(programs: &Vec<ProgramEntry>, execution: &ExecutionEntry) -> (loaded: Option<
    CorpusExecution,
>)
    requires
        is_readable(execution@),
    ensures
        replayable(corpus::entry_views(programs@), execution@) == (match loaded {
            Some(loaded) => Some(loaded@),
            None => None,
        }),
{
    if let (Some(at), Some(stored)) = (execution.at, &execution.stored) {
        if let Some(hash) = decode_hash(stored.program.as_str()) {
            if stored.canonical_version == CANONICAL_FORMAT_VERSION && hash.len() == 16 {
                let place: usize = corpus::find_program(
                    programs,
                    stored.canonical_version,
                    &hash,
                );
                if place < programs.len() {
                    assert(corpus::entry_views(programs@)[place as int]
                        == programs@[place as int]@);
                    return Some(
                        CorpusExecution {
                            canonical: copy_bytes(&programs[place].bytes),
                            content_hash: corpus::hash_number(&hash),
                            at_unix_micros: at,
                            statements: stored.statements,
                            outcomes: copy_outcomes(&stored.outcomes),
                        },
                    );
                }
            }
        }
    }
    None
}

impl StatisticsRecords {
    /// The last executions that can be replayed.
    pub fn load_corpus(&self, limit: usize) -> (executions: Vec<CorpusExecution>)
        ensures
            corpus_views(executions@) == self@.loaded_corpus(limit as nat),
    {
        let ghost logged = self@.executions;
        let places = find_readable(&self.executions);
        let ghost found = readable(logged);
        let start: usize = places.len().saturating_sub(limit);
        let ghost wanted = last_of(found, limit as nat);
        assert(found.len() == places.len());
        assert(wanted =~= found.skip(start as int));
        let mut executions: Vec<CorpusExecution> = Vec::new();
        let mut i: usize = start;
        assert(wanted.take(0) =~= Seq::empty());
        assert(corpus_views(executions@) =~= Seq::empty());
        while i < places.len()
            invariant
                start <= i <= places.len(),
                logged == corpus::execution_views(self.executions@),
                found == readable(logged),
                found == corpus::chosen(logged, corpus::indices(places@)),
                wanted == found.skip(start as int),
                forall|k: int|
                    0 <= k < places.len() ==> (#[trigger] places@[k]) < self.executions.len(),
                forall|k: int|
                    0 <= k < places.len() ==> is_readable(logged[(#[trigger] places@[k]) as int]),
                corpus_views(executions@) == all_replayable(
                    corpus::entry_views(self.programs@),
                    wanted.take(i - start),
                ),
            decreases places.len() - i,
        {
            let ghost before = corpus_views(executions@);
            proof {
                assert(wanted.take(i - start + 1).drop_last() =~= wanted.take(i - start));
                assert(wanted.take(i - start + 1).last() == found[i as int]);
                assert(found[i as int] == logged[places@[i as int] as int]);
                assert(logged[places@[i as int] as int]
                    == self.executions@[places@[i as int] as int]@);
            }
            if let Some(execution) = load_execution(&self.programs, &self.executions[places[i]]) {
                let ghost shown = execution@;
                executions.push(execution);
                assert(corpus_views(executions@) =~= before.push(shown));
            }
            i += 1;
        }
        assert(wanted.take(i - start) =~= wanted);
        executions
    }
}

/// Why the workload cannot be erased.
#[derive(Debug, PartialEq)]
pub enum CorpusEraseError {
    Unavailable,
    Storage(String),
}

impl CorpusEraseError {
    /// The message of an error.
    pub fn message(&self) -> (message: String)
        ensures
            message@ == (match *self {
                CorpusEraseError::Unavailable => "this process does not own the workload corpus"@,
                CorpusEraseError::Storage(error) => "cannot erase the workload corpus: "@ + error@,
            }),
    {
        match self {
            CorpusEraseError::Unavailable => {
                "this process does not own the workload corpus".to_owned()
            },
            CorpusEraseError::Storage(error) => {
                crate::text::join("cannot erase the workload corpus: ", error.as_str())
            },
        }
    }
}

/// Why the workload cannot be replayed.
#[derive(Debug, PartialEq)]
pub enum CorpusReplayError {
    Unavailable,
    EngineUnavailable,
    Engine(String),
    Storage(String),
}

impl CorpusReplayError {
    /// The message of an error.
    pub fn message(&self) -> (message: String)
        ensures
            message@ == (match *self {
                CorpusReplayError::Unavailable => "the workload corpus is unavailable"@,
                CorpusReplayError::EngineUnavailable => {
                    "the statistics runner has no attached engine"@
                },
                CorpusReplayError::Engine(error) => "cannot prepare corpus replay: "@ + error@,
                CorpusReplayError::Storage(error) => "cannot read the workload corpus: "@ + error@,
            }),
    {
        match self {
            CorpusReplayError::Unavailable => "the workload corpus is unavailable".to_owned(),
            CorpusReplayError::EngineUnavailable => {
                "the statistics runner has no attached engine".to_owned()
            },
            CorpusReplayError::Engine(error) => {
                crate::text::join("cannot prepare corpus replay: ", error.as_str())
            },
            CorpusReplayError::Storage(error) => {
                crate::text::join("cannot read the workload corpus: ", error.as_str())
            },
        }
    }
}

// ---- what storage promises ----

/// Whether a model has a record.
pub open spec fn has_record(models: Seq<RecordView>, id: ModelId) -> bool {
    exists|i: int| 0 <= i < models.len() && (#[trigger] models[i]).id == id
}

/// Whether a family has a stored model.
pub open spec fn has_stored_model(models: Seq<RecordView>, family: Fingerprint) -> bool {
    exists|i: int| 0 <= i < models.len() && (#[trigger] models[i]).id.family == family
}

/// Statistics after writes, each at its time.
pub open spec fn all_written(statistics: SlateView, writes: Seq<(BatchView, u64)>) -> SlateView
    decreases writes.len(),
{
    if writes.len() == 0 {
        statistics
    } else {
        all_written(statistics, writes.drop_last()).written(writes.last().0, writes.last().1)
    }
}

/// A store that was empty at first never holds more models than there is room for,
/// whatever is written, and counts no family without a stored model. After a
/// batch with models, those with a record are exactly those that are retained, and
/// what was not retained ranks no higher than anything that was.
pub proof fn stored_models_stay_bounded(statistics: SlateView, writes: Seq<(BatchView, u64)>)
    requires
        statistics.records.catalog is None,
        statistics.records.models.len() == 0,
        statistics.records.frequencies.len() == 0,
    ensures
        all_written(statistics, writes).records.models.len() <= statistics.model_capacity,
        forall|i: int|
            0 <= i < all_written(statistics, writes).records.frequencies.len() ==> has_stored_model(
                all_written(statistics, writes).records.models,
                (#[trigger] all_written(statistics, writes).records.frequencies[i]).0,
            ),
        writes.len() > 0 && writes.last().0.models.len() > 0 ==> ({
            let before = all_written(statistics, writes.drop_last()).records;
            let capacity = statistics.model_capacity as nat;
            let known = before.known(writes.last().0.models, capacity);
            let retained = before.retained(writes.last().0.models, capacity);
            &&& forall|id: ModelId|
                #[trigger] has_record(all_written(statistics, writes).records.models, id)
                    == has_entry(retained, id)
            &&& forall|kept: ModelCatalogEntry, dropped: ModelCatalogEntry|
                #![trigger retained.contains(kept), known.contains(dropped)]
                retained.contains(kept) && known.contains(dropped) && !retained.contains(dropped)
                    ==> !ranks_below(kept, dropped, newest_of(known))
        }),
{
    let capacity = statistics.model_capacity as nat;
    retention::lemma_writes_in_bounds(statistics, writes);
    retention::lemma_bounded(all_written(statistics, writes).records, capacity);
    if writes.len() > 0 {
        let before = all_written(statistics, writes.drop_last()).records;
        let deltas = writes.last().0.models;
        let known = before.known(deltas, capacity);
        let retained = before.retained(deltas, capacity);
        assert forall|kept: ModelCatalogEntry, dropped: ModelCatalogEntry|
            #![trigger retained.contains(kept), known.contains(dropped)]
            retained.contains(kept) && known.contains(dropped) && !retained.contains(
                dropped,
            ) implies !ranks_below(kept, dropped, newest_of(known)) by {
            retention::the_worthiest_entries_are_retained(before, deltas, capacity, kept, dropped);
        }
    }
}

/// The catalog of stored models stays bounded.
pub proof fn lemma_catalog_bounded(
    records: RecordsView,
    deltas: Seq<(Fingerprint, ModelView)>,
    capacity: nat,
)
    requires
        deltas.len() > 0,
    ensures
        records.models_written(deltas, capacity).catalog is Some,
        records.models_written(deltas, capacity).catalog->0.len() <= capacity,
{
    let retained = records.retained(deltas, capacity);
    sorting::orders_are_sorted_permutations(entry_keys(retained), entry_keys(retained).len());
}

pub proof fn lemma_record_place(models: Seq<RecordView>, id: ModelId, from: nat)
    requires
        from <= models.len(),
    ensures
        from <= record_place(models, id, from) <= models.len(),
        record_place(models, id, from) < models.len() ==> models[record_place(
            models,
            id,
            from,
        ) as int].id == id,
        forall|i: int|
            from <= i < record_place(models, id, from) ==> (#[trigger] models[i]).id != id,
    decreases models.len() - from,
{
    if from < models.len() && models[from as int].id != id {
        lemma_record_place(models, id, from + 1);
    }
}

proof fn lemma_written_reads_back(models: Seq<RecordView>, model: ModelView)
    ensures
        stored_model(record_written(models, model), model.id()) == Some(model),
{
    let id = model.id();
    let place = record_place(models, id, 0) as int;
    lemma_record_place(models, id, 0);
    let after = record_written(models, model);
    lemma_record_place(after, id, 0);
    let found = record_place(after, id, 0) as int;
    if place < models.len() {
        assert(after[place].id == id);
        if found < place {
            assert(after[found] == models[found]);
        }
    } else {
        assert(after[models.len() as int].id == id);
        if found < models.len() {
            assert(after[found] == models[found]);
        }
    }
}

/// What is read back of a family is what was stored of it, extended by what was
/// written: a delta never replaces the history of a family that stays.
pub proof fn written_deltas_extend_what_is_stored(
    records: RecordsView,
    family: Fingerprint,
    delta: ModelView,
    capacity: nat,
)
    requires
        has_entry(records.retained(seq![(family, delta)], capacity), delta.id()),
        stored_model(records.models, delta.id()) matches Some(stored) ==> stored.id()
            == delta.id(),
    ensures
        stored_model(
            records.models_written(seq![(family, delta)], capacity).models,
            delta.id(),
        ) == Some(
            match stored_model(records.models, delta.id()) {
                Some(stored) => stored.merged(delta),
                None => ModelView::empty(delta.family, delta.kind).merged(delta),
            },
        ),
{
    let deltas = seq![(family, delta)];
    let id = delta.id();
    let base = match stored_model(records.models, id) {
        Some(stored) => stored,
        None => ModelView::empty(id.family, id.kind),
    };
    assert(deltas.drop_last() =~= Seq::empty());
    assert(updates_of(records.models, deltas.drop_last()) =~= Seq::empty());
    let updates = updates_of(records.models, deltas);
    assert(updates =~= seq![base.merged(delta)]);
    assert(base.merged(delta).id() == id);
    assert(updates.drop_last() =~= Seq::empty());
    let retained = records.retained(deltas, capacity);
    let known = records.known(deltas, capacity);
    let kept = kept_records(records.models, known, retained, records.catalog is None);
    assert(records_written(kept, updates.drop_last(), retained) == kept);
    assert(records_written(kept, updates, retained) == record_written(kept, base.merged(delta)));
    lemma_written_reads_back(kept, base.merged(delta));
}

/// Erasing leaves nothing of the workload.
pub proof fn erasing_leaves_nothing(statistics: SlateView, limit: nat)
    ensures
        statistics.erased().records.loaded_corpus(limit).len() == 0,
        statistics.erased().stored_programs.len() == 0,
        statistics.erased().records.models == statistics.records.models,
{
    let records = statistics.erased().records;
    assert(readable(records.executions) =~= Seq::empty());
}

/// Stored appearances age lazily: what is stored once counts half after each
/// epoch, though it is not written again.
pub proof fn stored_appearances_age(stored: StoredFrequency, epoch: u64, later: u64)
    requires
        stored.epoch <= epoch,
        epoch <= later,
    ensures
        counted_in(Some(stored), later) is Some,
        records::halved_count(
            records::halved_count(stored.count as nat, (epoch - stored.epoch) as nat),
            (later - epoch) as nat,
        ) == records::halved_count(stored.count as nat, (later - stored.epoch) as nat),
{
    records::decay_adds_up(
        stored.count as nat,
        (epoch - stored.epoch) as nat,
        (later - epoch) as nat,
    );
}

/// Whether no program is stored twice.
pub open spec fn stored_once(programs: Seq<ProgramEntryView>) -> bool {
    forall|i: int, k: int|
        0 <= i < k < programs.len() && (#[trigger] programs[i]).identity is Some ==> programs[i].identity
            != (#[trigger] programs[k]).identity
}

proof fn lemma_program_position(
    programs: Seq<ProgramEntryView>,
    identity: (u64, Seq<u8>),
    from: nat,
)
    requires
        from <= programs.len(),
    ensures
        from <= corpus::program_place(programs, identity, from) <= programs.len(),
        corpus::program_place(programs, identity, from) < programs.len()
            ==> programs[corpus::program_place(programs, identity, from) as int].identity == Some(
            identity,
        ),
        forall|i: int|
            from <= i < corpus::program_place(programs, identity, from) ==> (
            #[trigger] programs[i]).identity != Some(identity),
    decreases programs.len() - from,
{
    if from < programs.len() && programs[from as int].identity != Some(identity) {
        lemma_program_position(programs, identity, from + 1);
    }
}

/// Programs are stored by their content: each once, however often it runs, and a
/// duplicate changes nothing.
pub proof fn programs_are_stored_once(
    programs: Seq<ProgramEntryView>,
    hash: u128,
    bytes: Seq<u8>,
)
    requires
        stored_once(programs),
    ensures
        stored_once(program_written(programs, hash, bytes)),
        program_written(program_written(programs, hash, bytes), hash, bytes) == program_written(
            programs,
            hash,
            bytes,
        ),
{
    let identity = (CANONICAL_FORMAT_VERSION, identity::big_endian(hash as nat, 16));
    let place = corpus::program_place(programs, identity, 0) as int;
    lemma_program_position(programs, identity, 0);
    let after = program_written(programs, hash, bytes);
    lemma_program_position(after, identity, 0);
    let again = corpus::program_place(after, identity, 0) as int;
    assert(after[place].identity == Some(identity));
    assert forall|i: int, k: int|
        0 <= i < k < after.len() && (#[trigger] after[i]).identity is Some implies after[i].identity
        != (#[trigger] after[k]).identity by {
        if i != place {
            assert(after[i] == programs[i]);
        }
        if k != place {
            assert(after[k] == programs[k]);
        }
        if place < programs.len() {
            assert(programs[i].identity == after[i].identity);
            assert(programs[k].identity == after[k].identity);
        }
    }
    assert(again == place) by {
        if again < place {
            assert(after[again] == programs[again]);
        }
    }
    assert(program_written(after, hash, bytes) =~= after);
}

} // verus!
