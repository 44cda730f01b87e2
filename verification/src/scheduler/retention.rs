//! Why stored statistics stay bounded over all that is written, and which models
//! stay.

use vstd::prelude::*;

use crate::scheduler::batch::BatchView;
use crate::scheduler::model::{ModelId, ModelView};
use crate::scheduler::planner;
use crate::scheduler::records;
use crate::scheduler::sketches::Fingerprint;
use crate::scheduler::sorting;
use crate::scheduler::storage::{
    all_written, entries_by_id, entries_of, entry_entered, entry_keys, entry_of, entry_place,
    frequencies_written, frequency_written, has_entry, has_stored_model, has_record, kept_frequencies,
    kept_records, lemma_catalog_bounded, lemma_rank_place, lemma_record_place, names_family,
    newest_of, rank_place, ranked, ranks_below, record_place, record_written, records_written,
    scanned, updates_of, ModelCatalogEntry, RecordView, RecordsView, SlateView, StoredFrequency,
};

verus! {

/// Whether no model has two records.
pub open spec fn records_distinct(models: Seq<RecordView>) -> bool {
    forall|i: int, k: int|
        0 <= i < k < models.len() ==> (#[trigger] models[i]).id != (#[trigger] models[k]).id
}

/// Whether each record holds the model that it is of.
pub open spec fn records_agree(models: Seq<RecordView>) -> bool {
    forall|i: int|
        0 <= i < models.len() ==> ((#[trigger] models[i]).stored matches Some(stored)
            ==> stored.id() == models[i].id)
}

/// Whether every stored count of appearances is of a family with an entry.
pub open spec fn frequencies_named(
    frequencies: Seq<(Fingerprint, Option<StoredFrequency>)>,
    catalog: Seq<ModelCatalogEntry>,
) -> bool {
    forall|i: int|
        0 <= i < frequencies.len() ==> names_family(catalog, (#[trigger] frequencies[i]).0)
}

/// Whether what is stored is in bounds: the catalog has at most as many entries as
/// there is room for, the models with a record are those with an entry, and only
/// their families are counted.
pub open spec fn in_bounds(stored: RecordsView, capacity: nat) -> bool {
    match stored.catalog {
        None => stored.models.len() == 0 && stored.frequencies.len() == 0,
        Some(catalog) => {
            &&& catalog.len() <= capacity
            &&& records_distinct(stored.models)
            &&& records_agree(stored.models)
            &&& forall|id: ModelId|
                #[trigger] has_record(stored.models, id) == has_entry(catalog, id)
            &&& frequencies_named(stored.frequencies, catalog)
        },
    }
}

// ---- entries ----

proof fn lemma_entry_place(entries: Seq<ModelCatalogEntry>, id: ModelId, from: nat)
    requires
        from <= entries.len(),
    ensures
        from <= entry_place(entries, id, from) <= entries.len(),
        entry_place(entries, id, from) < entries.len() ==> entries[entry_place(
            entries,
            id,
            from,
        ) as int].spec_id() == id,
        forall|i: int|
            from <= i < entry_place(entries, id, from) ==> (#[trigger] entries[i]).spec_id() != id,
    decreases entries.len() - from,
{
    if from < entries.len() && entries[from as int].spec_id() != id {
        lemma_entry_place(entries, id, from + 1);
    }
}

proof fn lemma_has_entry(entries: Seq<ModelCatalogEntry>, id: ModelId)
    ensures
        has_entry(entries, id) == exists|i: int|
            0 <= i < entries.len() && (#[trigger] entries[i]).spec_id() == id,
{
    lemma_entry_place(entries, id, 0);
    if exists|i: int| 0 <= i < entries.len() && (#[trigger] entries[i]).spec_id() == id {
        let i = choose|i: int| 0 <= i < entries.len() && (#[trigger] entries[i]).spec_id() == id;
        assert(entry_place(entries, id, 0) <= i);
    }
}

proof fn lemma_entered(entries: Seq<ModelCatalogEntry>, entry: ModelCatalogEntry, id: ModelId)
    ensures
        has_entry(entry_entered(entries, entry), id) == (has_entry(entries, id) || id
            == entry.spec_id()),
{
    let after = entry_entered(entries, entry);
    let place = entry_place(entries, entry.spec_id(), 0) as int;
    lemma_entry_place(entries, entry.spec_id(), 0);
    lemma_has_entry(entries, id);
    lemma_has_entry(after, id);
    assert(after[place] == entry);
    if has_entry(entries, id) {
        let i = choose|i: int| 0 <= i < entries.len() && (#[trigger] entries[i]).spec_id() == id;
        assert(after[i].spec_id() == id);
    }
    if has_entry(after, id) {
        let i = choose|i: int| 0 <= i < after.len() && (#[trigger] after[i]).spec_id() == id;
        if i != place {
            assert(entries[i].spec_id() == id);
        }
    }
}

proof fn lemma_by_id(
    start: Seq<ModelCatalogEntry>,
    entries: Seq<ModelCatalogEntry>,
    id: ModelId,
)
    ensures
        has_entry(entries_by_id(start, entries), id) == (has_entry(start, id) || has_entry(
            entries,
            id,
        )),
    decreases entries.len(),
{
    lemma_has_entry(entries, id);
    if entries.len() > 0 {
        let before = entries.drop_last();
        lemma_by_id(start, before, id);
        lemma_entered(entries_by_id(start, before), entries.last(), id);
        lemma_has_entry(before, id);
        if has_entry(before, id) {
            let i = choose|i: int| 0 <= i < before.len() && (#[trigger] before[i]).spec_id() == id;
            assert(entries[i].spec_id() == id);
        }
        if has_entry(entries, id) {
            let i = choose|i: int|
                0 <= i < entries.len() && (#[trigger] entries[i]).spec_id() == id;
            if i < before.len() {
                assert(before[i].spec_id() == id);
            } else {
                assert(entries[i] == entries.last());
            }
        }
        assert(entries[entries.len() - 1] == entries.last());
    }
}

proof fn lemma_ranked_member(entries: Seq<ModelCatalogEntry>, newest: u64, k: int)
    requires
        0 <= k < ranked(entries, newest).len(),
    ensures
        entries.contains(ranked(entries, newest)[k]),
    decreases entries.len(),
{
    if entries.len() > 0 {
        let before = ranked(entries.drop_last(), newest);
        let place = rank_place(before, entries.last(), newest, 0) as int;
        lemma_rank_place(before, entries.last(), newest, 0);
        let after = ranked(entries, newest);
        assert(after == before.insert(place, entries.last()));
        if k == place {
            assert(entries[entries.len() - 1] == after[k]);
        } else {
            let from = if k < place {
                k
            } else {
                k - 1
            };
            assert(after[k] == before[from]);
            lemma_ranked_member(entries.drop_last(), newest, from);
            let i = choose|i: int|
                0 <= i < entries.drop_last().len() && entries.drop_last()[i] == before[from];
            assert(entries[i] == after[k]);
        }
    }
}

proof fn lemma_ranked_holds(
    entries: Seq<ModelCatalogEntry>,
    newest: u64,
    entry: ModelCatalogEntry,
)
    requires
        entries.contains(entry),
    ensures
        ranked(entries, newest).contains(entry),
    decreases entries.len(),
{
    let before = ranked(entries.drop_last(), newest);
    let place = rank_place(before, entries.last(), newest, 0) as int;
    lemma_rank_place(before, entries.last(), newest, 0);
    let after = ranked(entries, newest);
    assert(after == before.insert(place, entries.last()));
    if entry == entries.last() {
        assert(after[place] == entry);
    } else {
        let i = choose|i: int| 0 <= i < entries.len() && entries[i] == entry;
        assert(entries.drop_last()[i] == entry);
        lemma_ranked_holds(entries.drop_last(), newest, entry);
        let k = choose|k: int| 0 <= k < before.len() && before[k] == entry;
        if k < place {
            assert(after[k] == entry);
        } else {
            assert(after[k + 1] == entry);
        }
    }
}

proof fn lemma_below(
    first: ModelCatalogEntry,
    second: ModelCatalogEntry,
    third: ModelCatalogEntry,
    newest: u64,
)
    requires
        ranks_below(first, second, newest),
        ranks_below(second, third, newest),
    ensures
        ranks_below(first, third, newest),
{
}

/// Ranked entries come by worth: none is worth less than one that comes later.
pub proof fn ranked_entries_come_by_worth(entries: Seq<ModelCatalogEntry>, newest: u64)
    ensures
        forall|i: int, k: int|
            0 <= i < k < ranked(entries, newest).len() ==> !ranks_below(
                #[trigger] ranked(entries, newest)[i],
                #[trigger] ranked(entries, newest)[k],
                newest,
            ),
    decreases entries.len(),
{
    if entries.len() > 0 {
        let before = ranked(entries.drop_last(), newest);
        let entry = entries.last();
        let place = rank_place(before, entry, newest, 0) as int;
        lemma_rank_place(before, entry, newest, 0);
        ranked_entries_come_by_worth(entries.drop_last(), newest);
        let after = ranked(entries, newest);
        assert(after == before.insert(place, entry));
        assert forall|i: int, k: int| 0 <= i < k < after.len() implies !ranks_below(
            #[trigger] after[i],
            #[trigger] after[k],
            newest,
        ) by {
            if k < place {
                assert(after[i] == before[i] && after[k] == before[k]);
            } else if k == place {
                assert(after[i] == before[i]);
            } else {
                assert(after[k] == before[k - 1]);
                if i < place {
                    assert(after[i] == before[i]);
                } else if i > place {
                    assert(after[i] == before[i - 1]);
                } else if ranks_below(entry, before[k - 1], newest) {
                    lemma_below(before[place], entry, before[k - 1], newest);
                    assert(ranks_below(before[place], before[k - 1], newest));
                    if place < k - 1 {
                        assert(!ranks_below(before[place], before[k - 1], newest));
                    }
                }
            }
        }
    }
}

/// An entry that is not retained is worth no more than any that is.
pub proof fn the_worthiest_entries_are_retained(
    stored: RecordsView,
    deltas: Seq<(Fingerprint, ModelView)>,
    capacity: nat,
    kept: ModelCatalogEntry,
    dropped: ModelCatalogEntry,
)
    requires
        stored.retained(deltas, capacity).contains(kept),
        stored.known(deltas, capacity).contains(dropped),
        !stored.retained(deltas, capacity).contains(dropped),
    ensures
        !ranks_below(kept, dropped, newest_of(stored.known(deltas, capacity))),
{
    let known = stored.known(deltas, capacity);
    let newest = newest_of(known);
    let all = ranked(known, newest);
    let retained = stored.retained(deltas, capacity);
    lemma_ranked_holds(known, newest, dropped);
    ranked_entries_come_by_worth(known, newest);
    let i = choose|i: int| 0 <= i < retained.len() && retained[i] == kept;
    let k = choose|k: int| 0 <= k < all.len() && all[k] == dropped;
    assert(retained[i] == all[i]);
    if k < retained.len() {
        assert(retained[k] == dropped);
    }
}

/// What is retained was known.
proof fn lemma_retained_is_known(
    stored: RecordsView,
    deltas: Seq<(Fingerprint, ModelView)>,
    capacity: nat,
    id: ModelId,
)
    requires
        has_entry(stored.retained(deltas, capacity), id),
    ensures
        has_entry(stored.known(deltas, capacity), id),
{
    let known = stored.known(deltas, capacity);
    let all = ranked(known, newest_of(known));
    let retained = stored.retained(deltas, capacity);
    lemma_has_entry(retained, id);
    lemma_has_entry(known, id);
    let i = choose|i: int| 0 <= i < retained.len() && (#[trigger] retained[i]).spec_id() == id;
    assert(retained[i] == all[i]);
    lemma_ranked_member(known, newest_of(known), i);
    let k = choose|k: int| 0 <= k < known.len() && known[k] == all[i];
    assert(known[k].spec_id() == id);
}

/// Sorting keeps the entries.
proof fn lemma_sorted_entries(entries: Seq<ModelCatalogEntry>)
    ensures
        ({
            let after = planner::sorted(entries, entry_keys(entries));
            &&& after.len() == entries.len()
            &&& forall|id: ModelId|
                #[trigger] has_entry(after, id) == has_entry(entries, id)
            &&& forall|family: Fingerprint|
                #[trigger] names_family(after, family) == names_family(entries, family)
        }),
{
    let keys = entry_keys(entries);
    let order = sorting::order(keys, keys.len());
    sorting::orders_are_sorted_permutations(keys, keys.len());
    let after = planner::sorted(entries, keys);
    assert forall|i: int| 0 <= i < entries.len() implies exists|k: int|
        0 <= k < after.len() && after[k] == #[trigger] entries[i] by {
        assert(order.contains(i));
        let k = choose|k: int| 0 <= k < order.len() && order[k] == i;
        assert(after[k] == entries[i]);
    }
    assert forall|id: ModelId| #[trigger] has_entry(after, id) == has_entry(entries, id) by {
        lemma_has_entry(after, id);
        lemma_has_entry(entries, id);
        if has_entry(after, id) {
            let k = choose|k: int| 0 <= k < after.len() && (#[trigger] after[k]).spec_id() == id;
            assert(after[k] == entries[order[k]]);
        }
        if has_entry(entries, id) {
            let i = choose|i: int|
                0 <= i < entries.len() && (#[trigger] entries[i]).spec_id() == id;
            let k = choose|k: int| 0 <= k < after.len() && after[k] == entries[i];
            assert(after[k].spec_id() == id);
        }
    }
    assert forall|family: Fingerprint| #[trigger]
        names_family(after, family) == names_family(entries, family) by {
        if names_family(after, family) {
            let k = choose|k: int| 0 <= k < after.len() && (#[trigger] after[k]).family == family;
            assert(after[k] == entries[order[k]]);
        }
        if names_family(entries, family) {
            let i = choose|i: int|
                0 <= i < entries.len() && (#[trigger] entries[i]).family == family;
            let k = choose|k: int| 0 <= k < after.len() && after[k] == entries[i];
            assert(after[k].family == family);
        }
    }
}

// ---- records ----

/// The records that stay are in order, and are those that are retained.
proof fn lemma_kept(
    models: Seq<RecordView>,
    known: Seq<ModelCatalogEntry>,
    retained: Seq<ModelCatalogEntry>,
)
    requires
        records_distinct(models),
        records_agree(models),
        forall|i: int| 0 <= i < models.len() ==> has_entry(known, (#[trigger] models[i]).id),
    ensures
        ({
            let kept = kept_records(models, known, retained, false);
            &&& records_distinct(kept)
            &&& records_agree(kept)
            &&& forall|id: ModelId|
                #[trigger] has_record(kept, id) == (has_record(models, id) && has_entry(
                    retained,
                    id,
                ))
        }),
    decreases models.len(),
{
    let kept = kept_records(models, known, retained, false);
    if models.len() > 0 {
        let before = models.drop_last();
        let last = models.last();
        assert(models[models.len() - 1] == last);
        assert forall|i: int, k: int| 0 <= i < k < before.len() implies (#[trigger] before[i]).id
            != (#[trigger] before[k]).id by {
            assert(models[i] == before[i]);
            assert(models[k] == before[k]);
        }
        assert forall|i: int| 0 <= i < before.len() implies has_entry(
            known,
            (#[trigger] before[i]).id,
        ) by {
            assert(models[i] == before[i]);
        }
        assert forall|i: int| 0 <= i < before.len() implies ((#[trigger] before[i]).stored matches Some(
            stored,
        ) ==> stored.id() == before[i].id) by {
            assert(models[i] == before[i]);
        }
        lemma_kept(before, known, retained);
        let earlier = kept_records(before, known, retained, false);
        assert(!has_record(before, last.id)) by {
            if has_record(before, last.id) {
                let i = choose|i: int|
                    0 <= i < before.len() && (#[trigger] before[i]).id == last.id;
                assert(models[i] == before[i]);
            }
        }
        assert(!has_record(earlier, last.id));
        assert forall|i: int, k: int| 0 <= i < k < kept.len() implies (#[trigger] kept[i]).id != (
        #[trigger] kept[k]).id by {
            assert(kept[i] == earlier[i]);
            if k < earlier.len() {
                assert(kept[k] == earlier[k]);
            } else {
                assert(has_record(earlier, earlier[i].id));
            }
        }
        assert forall|i: int| 0 <= i < kept.len() implies ((#[trigger] kept[i]).stored matches Some(
            stored,
        ) ==> stored.id() == kept[i].id) by {
            if i < earlier.len() {
                assert(kept[i] == earlier[i]);
            }
        }
        assert forall|id: ModelId| #[trigger]
            has_record(kept, id) == (has_record(models, id) && has_entry(retained, id)) by {
            lemma_last_record(models, id);
            assert(has_record(earlier, id) == (has_record(before, id) && has_entry(retained, id)));
            if has_entry(retained, last.id) {
                assert(kept.drop_last() =~= earlier);
                lemma_last_record(kept, id);
            } else {
                assert(kept == earlier);
            }
        }
    }
}

proof fn lemma_last_record(models: Seq<RecordView>, id: ModelId)
    requires
        models.len() > 0,
    ensures
        has_record(models, id) == (has_record(models.drop_last(), id) || models.last().id == id),
{
    let before = models.drop_last();
    assert(models[models.len() - 1] == models.last());
    if has_record(before, id) {
        let i = choose|i: int| 0 <= i < before.len() && (#[trigger] before[i]).id == id;
        assert(models[i] == before[i]);
    }
    if has_record(models, id) {
        let i = choose|i: int| 0 <= i < models.len() && (#[trigger] models[i]).id == id;
        if i < before.len() {
            assert(before[i] == models[i]);
        }
    }
}

proof fn lemma_written(models: Seq<RecordView>, model: ModelView)
    requires
        records_distinct(models),
        records_agree(models),
    ensures
        records_distinct(record_written(models, model)),
        records_agree(record_written(models, model)),
        forall|id: ModelId|
            #[trigger] has_record(record_written(models, model), id) == (has_record(models, id)
                || id == model.id()),
{
    let after = record_written(models, model);
    let place = record_place(models, model.id(), 0) as int;
    lemma_record_place(models, model.id(), 0);
    assert(after[place].id == model.id());
    assert forall|i: int, k: int| 0 <= i < k < after.len() implies (#[trigger] after[i]).id != (
    #[trigger] after[k]).id by {
        if i < models.len() && k < models.len() {
            assert(after[i].id == models[i].id);
            assert(after[k].id == models[k].id);
        } else {
            assert(after[i].id == models[i].id);
        }
    }
    assert forall|id: ModelId| #[trigger]
        has_record(after, id) == (has_record(models, id) || id == model.id()) by {
        if has_record(models, id) {
            let i = choose|i: int| 0 <= i < models.len() && (#[trigger] models[i]).id == id;
            assert(after[i].id == id);
        }
        if has_record(after, id) {
            let i = choose|i: int| 0 <= i < after.len() && (#[trigger] after[i]).id == id;
            if i != place {
                assert(models[i].id == id);
            }
        }
    }
}

/// Whether a model is among some.
pub open spec fn has_model(models: Seq<ModelView>, id: ModelId) -> bool {
    exists|i: int| 0 <= i < models.len() && (#[trigger] models[i]).id() == id
}

proof fn lemma_all_written(
    models: Seq<RecordView>,
    updates: Seq<ModelView>,
    retained: Seq<ModelCatalogEntry>,
)
    requires
        records_distinct(models),
        records_agree(models),
    ensures
        ({
            let after = records_written(models, updates, retained);
            &&& records_distinct(after)
            &&& records_agree(after)
            &&& forall|id: ModelId|
                #[trigger] has_record(after, id) == (has_record(models, id) || has_model(
                    updates,
                    id,
                ) && has_entry(retained, id))
        }),
    decreases updates.len(),
{
    let after = records_written(models, updates, retained);
    if updates.len() > 0 {
        let before = updates.drop_last();
        lemma_all_written(models, before, retained);
        let earlier = records_written(models, before, retained);
        lemma_written(earlier, updates.last());
        assert forall|id: ModelId| #[trigger]
            has_record(after, id) == (has_record(models, id) || has_model(updates, id)
            && has_entry(retained, id)) by {
            assert(has_record(earlier, id) == (has_record(models, id) || has_model(before, id)
                && has_entry(retained, id)));
            assert(updates[updates.len() - 1] == updates.last());
            if has_model(before, id) {
                let i = choose|i: int| 0 <= i < before.len() && (#[trigger] before[i]).id() == id;
                assert(updates[i] == before[i]);
            }
            if has_model(updates, id) {
                let i = choose|i: int| 0 <= i < updates.len() && (#[trigger] updates[i]).id() == id;
                if i < before.len() {
                    assert(before[i] == updates[i]);
                }
            }
        }
    } else {
        assert forall|id: ModelId| !has_model(updates, id) by {}
    }
}

proof fn lemma_entries_of(models: Seq<ModelView>, id: ModelId)
    ensures
        has_entry(entries_of(models), id) == has_model(models, id),
{
    let entries = entries_of(models);
    lemma_has_entry(entries, id);
    if has_model(models, id) {
        let i = choose|i: int| 0 <= i < models.len() && (#[trigger] models[i]).id() == id;
        assert(entries[i] == entry_of(models[i]));
        assert(entries[i].spec_id() == id);
    }
    if has_entry(entries, id) {
        let i = choose|i: int| 0 <= i < entries.len() && (#[trigger] entries[i]).spec_id() == id;
        assert(entries[i] == entry_of(models[i]));
        assert(models[i].id() == id);
    }
}

/// No more records are distinct than there are entries for them.
proof fn lemma_records_fit(models: Seq<RecordView>, catalog: Seq<ModelCatalogEntry>)
    requires
        records_distinct(models),
        forall|i: int| 0 <= i < models.len() ==> has_entry(catalog, (#[trigger] models[i]).id),
    ensures
        models.len() <= catalog.len(),
    decreases models.len(),
{
    if models.len() > 0 {
        let before = models.drop_last();
        let last = models.last();
        assert(models[models.len() - 1] == last);
        let place = entry_place(catalog, last.id, 0) as int;
        lemma_entry_place(catalog, last.id, 0);
        let rest = catalog.remove(place);
        assert forall|i: int, k: int| 0 <= i < k < before.len() implies (#[trigger] before[i]).id
            != (#[trigger] before[k]).id by {
            assert(models[i] == before[i]);
            assert(models[k] == before[k]);
        }
        assert forall|i: int| 0 <= i < before.len() implies has_entry(
            rest,
            (#[trigger] before[i]).id,
        ) by {
            assert(models[i] == before[i]);
            let id = models[i].id;
            lemma_has_entry(catalog, id);
            lemma_has_entry(rest, id);
            let k = choose|k: int|
                0 <= k < catalog.len() && (#[trigger] catalog[k]).spec_id() == id;
            assert(k != place);
            let at = if k < place {
                k
            } else {
                k - 1
            };
            assert(rest[at] == catalog[k]);
        }
        lemma_records_fit(before, rest);
    }
}

// ---- appearances ----

proof fn lemma_kept_frequencies(
    frequencies: Seq<(Fingerprint, Option<StoredFrequency>)>,
    previous: Seq<ModelCatalogEntry>,
    retained: Seq<ModelCatalogEntry>,
    repair: bool,
)
    requires
        frequencies_named(frequencies, previous),
    ensures
        frequencies_named(
            kept_frequencies(frequencies, previous, retained, repair),
            retained,
        ),
    decreases frequencies.len(),
{
    if frequencies.len() > 0 {
        let before = frequencies.drop_last();
        assert forall|i: int| 0 <= i < before.len() implies names_family(
            previous,
            (#[trigger] before[i]).0,
        ) by {
            assert(frequencies[i] == before[i]);
        }
        assert(frequencies[frequencies.len() - 1] == frequencies.last());
        lemma_kept_frequencies(before, previous, retained, repair);
    }
}

proof fn lemma_frequencies_written(
    frequencies: Seq<(Fingerprint, Option<StoredFrequency>)>,
    counts: Seq<(Fingerprint, u32)>,
    catalog: Seq<ModelCatalogEntry>,
    epoch: u64,
)
    requires
        frequencies_named(frequencies, catalog),
    ensures
        frequencies_named(frequencies_written(frequencies, counts, catalog, epoch), catalog),
    decreases counts.len(),
{
    if counts.len() > 0 {
        lemma_frequencies_written(frequencies, counts.drop_last(), catalog, epoch);
        let before = frequencies_written(frequencies, counts.drop_last(), catalog, epoch);
        if counts.last().1 != 0 && names_family(catalog, counts.last().0) {
            let after = frequency_written(before, counts.last().0, counts.last().1, epoch);
            let place = records::family_place(before, counts.last().0, 0) as int;
            assert forall|i: int| 0 <= i < after.len() implies names_family(
                catalog,
                (#[trigger] after[i]).0,
            ) by {
                if i != place && i < before.len() {
                    assert(after[i] == before[i]);
                }
            }
        }
    }
}

// ---- what is written stays in bounds ----

proof fn lemma_entries_before(stored: RecordsView, capacity: nat, id: ModelId)
    requires
        in_bounds(stored, capacity),
    ensures
        has_entry(stored.entries(capacity), id) == has_record(stored.models, id),
{
    let none: Seq<ModelCatalogEntry> = Seq::empty();
    lemma_has_entry(none, id);
    match stored.catalog {
        Some(catalog) => {
            lemma_by_id(none, catalog, id);
            assert(has_record(stored.models, id) == has_entry(catalog, id));
        },
        None => {
            assert(scanned(stored.models) =~= Seq::empty());
            let found = crate::scheduler::storage::most_observed(stored.models, capacity);
            assert(found =~= Seq::empty());
            lemma_by_id(none, entries_of(found), id);
            lemma_entries_of(found, id);
        },
    }
}

/// After a batch with models, the models with a record are exactly those that rank
/// highest, as many as there is room for.
pub proof fn the_highest_ranked_models_stay(
    stored: RecordsView,
    deltas: Seq<(Fingerprint, ModelView)>,
    capacity: nat,
)
    requires
        in_bounds(stored, capacity),
        deltas.len() > 0,
    ensures
        in_bounds(stored.models_written(deltas, capacity), capacity),
        forall|id: ModelId|
            #[trigger] has_record(stored.models_written(deltas, capacity).models, id) == has_entry(
                stored.retained(deltas, capacity),
                id,
            ),
{
    let after = stored.models_written(deltas, capacity);
    let known = stored.known(deltas, capacity);
    let retained = stored.retained(deltas, capacity);
    let updates = updates_of(stored.models, deltas);
    let repair = stored.catalog is None;
    let kept = kept_records(stored.models, known, retained, repair);
    assert forall|id: ModelId|
        #[trigger] has_entry(known, id) == (has_record(stored.models, id) || has_model(
            updates,
            id,
        )) by {
        lemma_by_id(stored.entries(capacity), entries_of(updates), id);
        lemma_entries_before(stored, capacity, id);
        lemma_entries_of(updates, id);
    }
    if repair {
        assert(kept =~= Seq::empty());
        assert(stored.models =~= Seq::empty());
    } else {
        assert forall|i: int| 0 <= i < stored.models.len() implies has_entry(
            known,
            (#[trigger] stored.models[i]).id,
        ) by {
            assert(has_record(stored.models, stored.models[i].id));
        }
        lemma_kept(stored.models, known, retained);
    }
    lemma_all_written(kept, updates, retained);
    assert forall|id: ModelId| #[trigger] has_record(after.models, id) == has_entry(retained, id) by {
        assert(has_record(kept, id) == (has_record(stored.models, id) && has_entry(retained, id)));
        if has_entry(retained, id) {
            lemma_retained_is_known(stored, deltas, capacity, id);
            assert(has_entry(known, id));
        }
    }
    lemma_sorted_entries(retained);
    lemma_catalog_bounded(stored, deltas, capacity);
    let catalog = after.catalog->0;
    assert forall|id: ModelId| #[trigger] has_record(after.models, id) == has_entry(catalog, id) by {
        assert(has_entry(catalog, id) == has_entry(retained, id));
    }
    let previous = stored.entries(capacity);
    assert forall|i: int| 0 <= i < stored.frequencies.len() implies names_family(
        previous,
        (#[trigger] stored.frequencies[i]).0,
    ) by {
        let known_before = stored.catalog->0;
        let family = stored.frequencies[i].0;
        assert(names_family(known_before, family));
        let k = choose|k: int|
            0 <= k < known_before.len() && (#[trigger] known_before[k]).family == family;
        let id = known_before[k].spec_id();
        lemma_has_entry(known_before, id);
        assert(has_record(stored.models, id));
        lemma_entries_before(stored, capacity, id);
        lemma_has_entry(previous, id);
        let at = choose|at: int| 0 <= at < previous.len() && (#[trigger] previous[at]).spec_id() == id;
        assert(previous[at].family == family);
    }
    lemma_kept_frequencies(stored.frequencies, previous, retained, repair);
    assert forall|i: int| 0 <= i < after.frequencies.len() implies names_family(
        catalog,
        (#[trigger] after.frequencies[i]).0,
    ) by {
        assert(names_family(retained, after.frequencies[i].0));
    }
}

proof fn lemma_write_in_bounds(statistics: SlateView, batch: BatchView, now: u64)
    requires
        in_bounds(statistics.records, statistics.model_capacity as nat),
    ensures
        in_bounds(statistics.written(batch, now).records, statistics.model_capacity as nat),
        statistics.written(batch, now).model_capacity == statistics.model_capacity,
        batch.models.len() > 0 ==> forall|id: ModelId|
            #[trigger] has_record(statistics.written(batch, now).records.models, id) == has_entry(
                statistics.records.retained(batch.models, statistics.model_capacity as nat),
                id,
            ),
{
    if !batch.is_empty() {
        let capacity = statistics.model_capacity as nat;
        let changed = RecordsView {
            table_changes: records::all_counted(
                statistics.records.table_changes,
                batch.table_changes,
            ),
            ..statistics.records
        };
        assert(in_bounds(changed, capacity));
        if batch.models.len() > 0 {
            the_highest_ranked_models_stay(changed, batch.models, capacity);
            assert(changed.retained(batch.models, capacity) == statistics.records.retained(
                batch.models,
                capacity,
            ));
        }
        let modelled = changed.models_written(batch.models, capacity);
        assert(in_bounds(modelled, capacity));
        let catalog = match modelled.catalog {
            Some(catalog) => catalog,
            None => Seq::empty(),
        };
        let epoch = modelled.frequency_epoch.saturating_add(batch.frequency_decays);
        lemma_frequencies_written(modelled.frequencies, batch.frequency, catalog, epoch);
        let counted = modelled.frequency_written(batch.frequency, batch.frequency_decays);
        if modelled.catalog is None {
            let after = counted.frequencies;
            if after.len() > 0 {
                assert(names_family(catalog, after[0].0));
            }
        }
        assert(in_bounds(counted, capacity));
        let after = statistics.written(batch, now).records;
        assert(after.catalog == counted.catalog);
        assert(after.models == counted.models);
        assert(after.frequencies == counted.frequencies);
    }
}

pub proof fn lemma_writes_in_bounds(statistics: SlateView, writes: Seq<(BatchView, u64)>)
    requires
        in_bounds(statistics.records, statistics.model_capacity as nat),
    ensures
        in_bounds(all_written(statistics, writes).records, statistics.model_capacity as nat),
        all_written(statistics, writes).model_capacity == statistics.model_capacity,
        writes.len() > 0 && writes.last().0.models.len() > 0 ==> forall|id: ModelId|
            #[trigger] has_record(all_written(statistics, writes).records.models, id) == has_entry(
                all_written(statistics, writes.drop_last()).records.retained(
                    writes.last().0.models,
                    statistics.model_capacity as nat,
                ),
                id,
            ),
    decreases writes.len(),
{
    if writes.len() > 0 {
        lemma_writes_in_bounds(statistics, writes.drop_last());
        lemma_write_in_bounds(
            all_written(statistics, writes.drop_last()),
            writes.last().0,
            writes.last().1,
        );
    }
}

pub proof fn lemma_bounded(stored: RecordsView, capacity: nat)
    requires
        in_bounds(stored, capacity),
    ensures
        stored.models.len() <= capacity,
        forall|i: int|
            0 <= i < stored.frequencies.len() ==> has_stored_model(
                stored.models,
                (#[trigger] stored.frequencies[i]).0,
            ),
{
    if let Some(catalog) = stored.catalog {
        assert forall|i: int| 0 <= i < stored.models.len() implies has_entry(
            catalog,
            (#[trigger] stored.models[i]).id,
        ) by {
            assert(has_record(stored.models, stored.models[i].id));
        }
        lemma_records_fit(stored.models, catalog);
        assert forall|i: int| 0 <= i < stored.frequencies.len() implies has_stored_model(
            stored.models,
            (#[trigger] stored.frequencies[i]).0,
        ) by {
            let family = stored.frequencies[i].0;
            assert(names_family(catalog, family));
            let e = choose|e: int|
                0 <= e < catalog.len() && (#[trigger] catalog[e]).family == family;
            let id = catalog[e].spec_id();
            lemma_has_entry(catalog, id);
            assert(has_record(stored.models, id));
            let k = choose|k: int|
                0 <= k < stored.models.len() && (#[trigger] stored.models[k]).id == id;
            assert(stored.models[k].id.family == family);
        }
    }
}

} // verus!
