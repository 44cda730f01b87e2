//! Records that statistics are gathered into: counts by key, captured programs
//! and table synopses.

use vstd::prelude::*;

use crate::scheduler::sketches::Fingerprint;
use crate::scheduler::synopsis::{Distributions, DistributionsView};

verus! {

// ---- counts by table ----

/// Where a table is counted, from a place on; the end where it is not.
pub open spec fn count_place(counts: Seq<(u64, u64)>, table: u64, from: nat) -> nat
    decreases counts.len() - from,
{
    if from < counts.len() && counts[from as int].0 != table {
        count_place(counts, table, from + 1)
    } else {
        from
    }
}

/// The count of a table.
pub open spec fn count_of(counts: Seq<(u64, u64)>, table: u64) -> Option<u64> {
    let place = count_place(counts, table, 0) as int;
    if place < counts.len() {
        Some(counts[place].1)
    } else {
        None
    }
}

/// Counts after more of a table, up to the maximum.
pub open spec fn counted(counts: Seq<(u64, u64)>, table: u64, delta: u64) -> Seq<(u64, u64)> {
    let place = count_place(counts, table, 0) as int;
    if place < counts.len() {
        counts.update(place, (table, counts[place].1.saturating_add(delta)))
    } else {
        counts.push((table, delta))
    }
}

/// Counts with one replaced.
pub open spec fn count_set(counts: Seq<(u64, u64)>, table: u64, count: u64) -> Seq<(u64, u64)> {
    let place = count_place(counts, table, 0) as int;
    if place < counts.len() {
        counts.update(place, (table, count))
    } else {
        counts
    }
}

/// Counts without a table.
pub open spec fn uncounted(counts: Seq<(u64, u64)>, table: u64) -> Seq<(u64, u64)> {
    let place = count_place(counts, table, 0) as int;
    if place < counts.len() {
        counts.remove(place)
    } else {
        counts
    }
}

/// Counts after those of another run.
pub open spec fn all_counted(counts: Seq<(u64, u64)>, others: Seq<(u64, u64)>) -> Seq<(u64, u64)>
    decreases others.len(),
{
    if others.len() == 0 {
        counts
    } else {
        counted(all_counted(counts, others.drop_last()), others.last().0, others.last().1)
    }
}

/// Where a table is counted; the end where it is not.
pub fn find_count(counts: &Vec<(u64, u64)>, table: u64) -> (place: usize)
    ensures
        place == count_place(counts@, table, 0),
        place <= counts.len(),
        place < counts.len() ==> counts@[place as int].0 == table,
{
    let mut i: usize = 0;
    while i < counts.len() && counts[i].0 != table
        invariant
            i <= counts.len(),
            count_place(counts@, table, 0) == count_place(counts@, table, i as nat),
        decreases counts.len() - i,
    {
        i += 1;
    }
    i
}

/// The count of a table.
pub fn get_count(counts: &Vec<(u64, u64)>, table: u64) -> (count: Option<u64>)
    ensures
        count == count_of(counts@, table),
{
    let place: usize = find_count(counts, table);
    if place < counts.len() {
        Some(counts[place].1)
    } else {
        None
    }
}

/// Counts more of a table.
pub fn add_count(counts: &mut Vec<(u64, u64)>, table: u64, delta: u64)
    ensures
        final(counts)@ == counted(old(counts)@, table, delta),
{
    let place: usize = find_count(counts, table);
    if place < counts.len() {
        let next: u64 = counts[place].1.saturating_add(delta);
        counts.set(place, (table, next));
    } else {
        counts.push((table, delta));
    }
}

/// Counts what another run counted.
pub fn add_counts(counts: &mut Vec<(u64, u64)>, others: &Vec<(u64, u64)>)
    ensures
        final(counts)@ == all_counted(old(counts)@, others@),
{
    let ghost before = counts@;
    let mut i: usize = 0;
    assert(others@.take(0) =~= Seq::empty());
    while i < others.len()
        invariant
            i <= others.len(),
            counts@ == all_counted(before, others@.take(i as int)),
        decreases others.len() - i,
    {
        proof {
            assert(others@.take(i + 1).drop_last() =~= others@.take(i as int));
        }
        add_count(counts, others[i].0, others[i].1);
        i += 1;
    }
    assert(others@.take(i as int) =~= others@);
}

/// A copy of counts.
pub fn copy_counts(counts: &Vec<(u64, u64)>) -> (copy: Vec<(u64, u64)>)
    ensures
        copy@ == counts@,
{
    let mut copy: Vec<(u64, u64)> = Vec::new();
    let mut i: usize = 0;
    while i < counts.len()
        invariant
            i <= counts.len(),
            copy@ =~= counts@.take(i as int),
        decreases counts.len() - i,
    {
        copy.push(counts[i]);
        i += 1;
    }
    assert(copy@ =~= counts@);
    copy
}

// ---- appearances by family ----

/// Where a family is counted, from a place on; the end where it is not.
pub open spec fn family_place<A>(
    counts: Seq<(Fingerprint, A)>,
    family: Fingerprint,
    from: nat,
) -> nat
    decreases counts.len() - from,
{
    if from < counts.len() && counts[from as int].0 != family {
        family_place(counts, family, from + 1)
    } else {
        from
    }
}

/// What is known of a family.
pub open spec fn family_value<A>(counts: Seq<(Fingerprint, A)>, family: Fingerprint) -> Option<A> {
    let place = family_place(counts, family, 0) as int;
    if place < counts.len() {
        Some(counts[place].1)
    } else {
        None
    }
}

/// Appearances after more of a family. A new family is only counted below the
/// limit.
pub open spec fn appeared(
    counts: Seq<(Fingerprint, u32)>,
    family: Fingerprint,
    count: u32,
    limit: nat,
) -> Seq<(Fingerprint, u32)> {
    let place = family_place(counts, family, 0) as int;
    if place < counts.len() {
        counts.update(place, (family, counts[place].1.saturating_add(count)))
    } else if counts.len() < limit {
        counts.push((family, count))
    } else {
        counts
    }
}

/// Appearances half as often, without those of which none is left.
pub open spec fn halved(counts: Seq<(Fingerprint, u32)>) -> Seq<(Fingerprint, u32)>
    decreases counts.len(),
{
    if counts.len() == 0 {
        Seq::empty()
    } else {
        let before = halved(counts.drop_last());
        let half = (counts.last().1 / 2) as u32;
        if half > 0 {
            before.push((counts.last().0, half))
        } else {
            before
        }
    }
}

/// Where a family is counted; the end where it is not.
pub fn find_family<A>(counts: &Vec<(Fingerprint, A)>, family: Fingerprint) -> (place: usize)
    ensures
        place == family_place(counts@, family, 0),
        place <= counts.len(),
        place < counts.len() ==> counts@[place as int].0 == family,
{
    let mut i: usize = 0;
    while i < counts.len() && counts[i].0 != family
        invariant
            i <= counts.len(),
            family_place(counts@, family, 0) == family_place(counts@, family, i as nat),
        decreases counts.len() - i,
    {
        i += 1;
    }
    i
}

/// Counts more appearances of a family.
pub fn add_appearances(
    counts: &mut Vec<(Fingerprint, u32)>,
    family: Fingerprint,
    count: u32,
    limit: usize,
)
    ensures
        final(counts)@ == appeared(old(counts)@, family, count, limit as nat),
{
    let place: usize = find_family(counts, family);
    if place < counts.len() {
        let next: u32 = counts[place].1.saturating_add(count);
        counts.set(place, (family, next));
    } else if counts.len() < limit {
        counts.push((family, count));
    }
}

/// Halves appearances and drops those of which none is left.
pub fn halve(counts: &Vec<(Fingerprint, u32)>) -> (halves: Vec<(Fingerprint, u32)>)
    ensures
        halves@ == halved(counts@),
{
    let mut halves: Vec<(Fingerprint, u32)> = Vec::new();
    let mut i: usize = 0;
    assert(counts@.take(0) =~= Seq::empty());
    while i < counts.len()
        invariant
            i <= counts.len(),
            halves@ == halved(counts@.take(i as int)),
        decreases counts.len() - i,
    {
        proof {
            assert(counts@.take(i + 1).drop_last() =~= counts@.take(i as int));
        }
        let half: u32 = counts[i].1 / 2;
        if half > 0 {
            halves.push((counts[i].0, half));
        }
        i += 1;
    }
    assert(counts@.take(i as int) =~= counts@);
    halves
}

/// A copy of appearances.
pub fn copy_appearances(counts: &Vec<(Fingerprint, u32)>) -> (copy: Vec<(Fingerprint, u32)>)
    ensures
        copy@ == counts@,
{
    let mut copy: Vec<(Fingerprint, u32)> = Vec::new();
    let mut i: usize = 0;
    while i < counts.len()
        invariant
            i <= counts.len(),
            copy@ =~= counts@.take(i as int),
        decreases counts.len() - i,
    {
        copy.push(counts[i]);
        i += 1;
    }
    assert(copy@ =~= counts@);
    copy
}

// ---- nothing is counted twice ----

/// Whether no table is counted twice.
pub open spec fn tables_distinct(counts: Seq<(u64, u64)>) -> bool {
    forall|i: int, k: int|
        0 <= i < k < counts.len() ==> (#[trigger] counts[i]).0 != (#[trigger] counts[k]).0
}

/// Whether no family is counted twice.
pub open spec fn families_distinct(counts: Seq<(Fingerprint, u32)>) -> bool {
    forall|i: int, k: int|
        0 <= i < k < counts.len() ==> (#[trigger] counts[i]).0 != (#[trigger] counts[k]).0
}

proof fn lemma_count_place(counts: Seq<(u64, u64)>, table: u64, from: nat)
    requires
        from <= counts.len(),
    ensures
        from <= count_place(counts, table, from) <= counts.len(),
        count_place(counts, table, from) < counts.len() ==> counts[count_place(
            counts,
            table,
            from,
        ) as int].0 == table,
        forall|i: int|
            from <= i < count_place(counts, table, from) ==> (#[trigger] counts[i]).0 != table,
    decreases counts.len() - from,
{
    if from < counts.len() && counts[from as int].0 != table {
        lemma_count_place(counts, table, from + 1);
    }
}

proof fn lemma_family_place(counts: Seq<(Fingerprint, u32)>, family: Fingerprint, from: nat)
    requires
        from <= counts.len(),
    ensures
        from <= family_place(counts, family, from) <= counts.len(),
        family_place(counts, family, from) < counts.len() ==> counts[family_place(
            counts,
            family,
            from,
        ) as int].0 == family,
        forall|i: int|
            from <= i < family_place(counts, family, from) ==> (#[trigger] counts[i]).0 != family,
    decreases counts.len() - from,
{
    if from < counts.len() && counts[from as int].0 != family {
        lemma_family_place(counts, family, from + 1);
    }
}

pub broadcast proof fn lemma_counted_distinct(counts: Seq<(u64, u64)>, table: u64, delta: u64)
    requires
        tables_distinct(counts),
    ensures
        tables_distinct(#[trigger] counted(counts, table, delta)),
{
    lemma_count_place(counts, table, 0);
}

pub broadcast proof fn lemma_all_counted_distinct(
    counts: Seq<(u64, u64)>,
    others: Seq<(u64, u64)>,
)
    requires
        tables_distinct(counts),
    ensures
        tables_distinct(#[trigger] all_counted(counts, others)),
    decreases others.len(),
{
    if others.len() > 0 {
        lemma_all_counted_distinct(counts, others.drop_last());
        lemma_counted_distinct(
            all_counted(counts, others.drop_last()),
            others.last().0,
            others.last().1,
        );
    }
}

pub broadcast proof fn lemma_appeared_distinct(
    counts: Seq<(Fingerprint, u32)>,
    family: Fingerprint,
    count: u32,
    limit: nat,
)
    requires
        families_distinct(counts),
        counts.len() <= limit,
    ensures
        families_distinct(#[trigger] appeared(counts, family, count, limit)),
        appeared(counts, family, count, limit).len() <= limit,
{
    lemma_family_place(counts, family, 0);
}

proof fn lemma_halved_families(counts: Seq<(Fingerprint, u32)>)
    ensures
        halved(counts).len() <= counts.len(),
        forall|i: int|
            0 <= i < halved(counts).len() ==> exists|k: int|
                0 <= k < counts.len() && counts[k].0 == (#[trigger] halved(counts)[i]).0,
    decreases counts.len(),
{
    if counts.len() > 0 {
        let before = counts.drop_last();
        lemma_halved_families(before);
        assert forall|i: int| 0 <= i < halved(counts).len() implies exists|k: int|
            0 <= k < counts.len() && counts[k].0 == (#[trigger] halved(counts)[i]).0 by {
            if i < halved(before).len() {
                assert(halved(counts)[i] == halved(before)[i]);
                let k = choose|k: int| 0 <= k < before.len() && before[k].0 == halved(before)[i].0;
                assert(counts[k] == before[k]);
            } else {
                assert(counts[counts.len() - 1].0 == halved(counts)[i].0);
            }
        }
    }
}

pub broadcast proof fn lemma_halved_distinct(counts: Seq<(Fingerprint, u32)>)
    requires
        families_distinct(counts),
    ensures
        families_distinct(#[trigger] halved(counts)),
        halved(counts).len() <= counts.len(),
    decreases counts.len(),
{
    lemma_halved_families(counts);
    if counts.len() > 0 {
        let before = counts.drop_last();
        assert forall|i: int, k: int| 0 <= i < k < before.len() implies (#[trigger] before[i]).0
            != (#[trigger] before[k]).0 by {
            assert(counts[i] == before[i]);
            assert(counts[k] == before[k]);
        }
        lemma_halved_distinct(before);
        lemma_halved_families(before);
        let known = halved(before);
        assert forall|i: int| 0 <= i < known.len() implies (#[trigger] known[i]).0
            != counts.last().0 by {
            let k = choose|k: int| 0 <= k < before.len() && before[k].0 == known[i].0;
            assert(counts[k] == before[k]);
            assert(counts[counts.len() - 1] == counts.last());
        }
    }
}

pub broadcast group group_counts_distinct {
    lemma_counted_distinct,
    lemma_all_counted_distinct,
    lemma_appeared_distinct,
    lemma_halved_distinct,
}

// ---- decay ----

/// A count after a number of halvings.
pub open spec fn halved_count(count: nat, epochs: nat) -> nat
    decreases epochs,
{
    if epochs == 0 {
        count
    } else {
        halved_count(count / 2, (epochs - 1) as nat)
    }
}

proof fn lemma_halved_zero(epochs: nat)
    ensures
        halved_count(0, epochs) == 0,
    decreases epochs,
{
    if epochs > 0 {
        lemma_halved_zero((epochs - 1) as nat);
    }
}

/// A count after a number of decay epochs: it halves in each.
pub fn decay_frequency(count: u32, epochs: u64) -> (decayed: u32)
    ensures
        decayed == halved_count(count as nat, epochs as nat),
{
    let mut rest: u32 = count;
    let mut left: u64 = epochs;
    while left > 0 && rest > 0
        invariant
            halved_count(count as nat, epochs as nat) == halved_count(rest as nat, left as nat),
        decreases left,
    {
        rest = rest / 2;
        left -= 1;
    }
    proof {
        if rest == 0 {
            lemma_halved_zero(left as nat);
        }
    }
    rest
}

/// Decay in two steps is decay in one.
pub proof fn decay_adds_up(count: nat, first: nat, second: nat)
    ensures
        halved_count(halved_count(count, first), second) == halved_count(count, first + second),
    decreases first,
{
    if first > 0 {
        decay_adds_up(count / 2, (first - 1) as nat, second);
        assert((first + second - 1) as nat == (first - 1) as nat + second);
    }
}

// ---- bytes ----

/// A copy of bytes.
pub fn copy_bytes(bytes: &Vec<u8>) -> (copy: Vec<u8>)
    ensures
        copy@ == bytes@,
{
    let mut copy: Vec<u8> = Vec::new();
    let mut i: usize = 0;
    while i < bytes.len()
        invariant
            i <= bytes.len(),
            copy@ =~= bytes@.take(i as int),
        decreases bytes.len() - i,
    {
        copy.push(bytes[i]);
        i += 1;
    }
    assert(copy@ =~= bytes@);
    copy
}

/// Whether two runs of bytes are the same.
pub fn same_bytes(left: &Vec<u8>, right: &Vec<u8>) -> (same: bool)
    ensures
        same == (left@ == right@),
{
    if left.len() != right.len() {
        return false;
    }
    let mut i: usize = 0;
    while i < left.len()
        invariant
            i <= left.len(),
            left.len() == right.len(),
            forall|k: int| 0 <= k < i ==> left@[k] == right@[k],
        decreases left.len() - i,
    {
        if left[i] != right[i] {
            assert(left@[i as int] != right@[i as int]);
            return false;
        }
        i += 1;
    }
    assert(left@ =~= right@);
    true
}

// ---- captured programs ----

/// How many rows a statement of a program returned.
#[derive(Debug, PartialEq)]
pub struct ProgramStatementOutcome {
    pub name: String,
    pub rows: u64,
}

/// The value of a [`ProgramStatementOutcome`].
pub struct OutcomeView {
    pub name: Seq<char>,
    pub rows: u64,
}

impl View for ProgramStatementOutcome {
    type V = OutcomeView;

    open spec fn view(&self) -> OutcomeView {
        OutcomeView { name: self.name@, rows: self.rows }
    }
}

pub open spec fn outcome_views(outcomes: Seq<ProgramStatementOutcome>) -> Seq<OutcomeView> {
    Seq::new(outcomes.len(), |i: int| outcomes[i]@)
}

/// A program that was executed, in canonical form.
#[derive(Debug, PartialEq)]
pub struct ProgramRecord {
    pub canonical: Vec<u8>,
    pub content_hash: u128,
    pub at_unix_micros: u64,
    pub statements: u32,
    pub outcomes: Vec<ProgramStatementOutcome>,
}

/// The value of a [`ProgramRecord`].
#[verifier::ext_equal]
pub struct ProgramView {
    pub canonical: Seq<u8>,
    pub content_hash: u128,
    pub at_unix_micros: u64,
    pub statements: u32,
    pub outcomes: Seq<OutcomeView>,
}

impl View for ProgramRecord {
    type V = ProgramView;

    open spec fn view(&self) -> ProgramView {
        ProgramView {
            canonical: self.canonical@,
            content_hash: self.content_hash,
            at_unix_micros: self.at_unix_micros,
            statements: self.statements,
            outcomes: outcome_views(self.outcomes@),
        }
    }
}

pub open spec fn program_views(programs: Seq<ProgramRecord>) -> Seq<ProgramView> {
    Seq::new(programs.len(), |i: int| programs[i]@)
}

/// A copy of outcomes.
pub fn copy_outcomes(outcomes: &Vec<ProgramStatementOutcome>) -> (copy: Vec<
    ProgramStatementOutcome,
>)
    ensures
        outcome_views(copy@) == outcome_views(outcomes@),
{
    let mut copy: Vec<ProgramStatementOutcome> = Vec::new();
    let mut i: usize = 0;
    while i < outcomes.len()
        invariant
            i <= outcomes.len(),
            copy.len() == i,
            forall|k: int| 0 <= k < i ==> (#[trigger] copy@[k])@ == outcomes@[k]@,
        decreases outcomes.len() - i,
    {
        copy.push(
            ProgramStatementOutcome { name: outcomes[i].name.clone(), rows: outcomes[i].rows },
        );
        i += 1;
    }
    assert(outcome_views(copy@) =~= outcome_views(outcomes@));
    copy
}

impl ProgramRecord {
    /// A copy of a record.
    pub fn copy(&self) -> (record: ProgramRecord)
        ensures
            record@ == self@,
    {
        ProgramRecord {
            canonical: copy_bytes(&self.canonical),
            content_hash: self.content_hash,
            at_unix_micros: self.at_unix_micros,
            statements: self.statements,
            outcomes: copy_outcomes(&self.outcomes),
        }
    }
}

/// A copy of records.
pub fn copy_programs(programs: &Vec<ProgramRecord>) -> (copy: Vec<ProgramRecord>)
    ensures
        program_views(copy@) == program_views(programs@),
        copy.len() == programs.len(),
{
    let mut copy: Vec<ProgramRecord> = Vec::new();
    let mut i: usize = 0;
    while i < programs.len()
        invariant
            i <= programs.len(),
            copy.len() == i,
            forall|k: int| 0 <= k < i ==> (#[trigger] copy@[k])@ == programs@[k]@,
        decreases programs.len() - i,
    {
        copy.push(programs[i].copy());
        i += 1;
    }
    assert(program_views(copy@) =~= program_views(programs@));
    copy
}

// ---- synopses ----

/// What was surveyed of a table.
#[derive(Debug, PartialEq)]
pub struct SynopsisModel {
    pub table: u64,
    pub observed_rows: u64,
    pub sample_size: u64,
    pub changes_since_collection: u64,
    pub table_existence_generation: u64,
    pub collected_at_unix_micros: u64,
    pub catalog_version: u64,
    pub distributions: Distributions,
}

/// The value of a [`SynopsisModel`].
#[verifier::ext_equal]
pub struct SynopsisView {
    pub table: u64,
    pub observed_rows: u64,
    pub sample_size: u64,
    pub changes_since_collection: u64,
    pub table_existence_generation: u64,
    pub collected_at_unix_micros: u64,
    pub catalog_version: u64,
    pub distributions: DistributionsView,
}

impl View for SynopsisModel {
    type V = SynopsisView;

    open spec fn view(&self) -> SynopsisView {
        SynopsisView {
            table: self.table,
            observed_rows: self.observed_rows,
            sample_size: self.sample_size,
            changes_since_collection: self.changes_since_collection,
            table_existence_generation: self.table_existence_generation,
            collected_at_unix_micros: self.collected_at_unix_micros,
            catalog_version: self.catalog_version,
            distributions: self.distributions@,
        }
    }
}

impl SynopsisView {
    /// The same synopsis in canonical order.
    pub open spec fn canonical(self) -> SynopsisView {
        SynopsisView { distributions: self.distributions.canonical(), ..self }
    }
}

pub open spec fn synopsis_views(synopses: Seq<SynopsisModel>) -> Seq<SynopsisView> {
    Seq::new(synopses.len(), |i: int| synopses[i]@)
}

impl SynopsisModel {
    /// A copy of a synopsis.
    pub fn copy(&self) -> (synopsis: SynopsisModel)
        ensures
            synopsis@ == self@,
    {
        SynopsisModel {
            table: self.table,
            observed_rows: self.observed_rows,
            sample_size: self.sample_size,
            changes_since_collection: self.changes_since_collection,
            table_existence_generation: self.table_existence_generation,
            collected_at_unix_micros: self.collected_at_unix_micros,
            catalog_version: self.catalog_version,
            distributions: self.distributions.copy(),
        }
    }

    /// The same synopsis in canonical order.
    pub fn canonical(&self) -> (synopsis: SynopsisModel)
        ensures
            synopsis@ == self@.canonical(),
    {
        SynopsisModel {
            table: self.table,
            observed_rows: self.observed_rows,
            sample_size: self.sample_size,
            changes_since_collection: self.changes_since_collection,
            table_existence_generation: self.table_existence_generation,
            collected_at_unix_micros: self.collected_at_unix_micros,
            catalog_version: self.catalog_version,
            distributions: self.distributions.canonical(),
        }
    }

    /// Whether two synopses are the same.
    pub fn same(&self, other: &SynopsisModel) -> (same: bool)
        ensures
            same == (self@ == other@),
    {
        self.table == other.table && self.observed_rows == other.observed_rows && self.sample_size
            == other.sample_size && self.changes_since_collection == other.changes_since_collection
            && self.table_existence_generation == other.table_existence_generation
            && self.collected_at_unix_micros == other.collected_at_unix_micros
            && self.catalog_version == other.catalog_version && self.distributions.same(
            &other.distributions,
        )
    }
}

/// A copy of synopses.
pub fn copy_synopses(synopses: &Vec<SynopsisModel>) -> (copy: Vec<SynopsisModel>)
    ensures
        synopsis_views(copy@) == synopsis_views(synopses@),
{
    let mut copy: Vec<SynopsisModel> = Vec::new();
    let mut i: usize = 0;
    while i < synopses.len()
        invariant
            i <= synopses.len(),
            copy.len() == i,
            forall|k: int| 0 <= k < i ==> (#[trigger] copy@[k])@ == synopses@[k]@,
        decreases synopses.len() - i,
    {
        copy.push(synopses[i].copy());
        i += 1;
    }
    assert(synopsis_views(copy@) =~= synopsis_views(synopses@));
    copy
}

/// Where the synopsis of a table stands, from a place on; the end where there
/// is none.
pub open spec fn synopsis_place(synopses: Seq<SynopsisView>, table: u64, from: nat) -> nat
    decreases synopses.len() - from,
{
    if from < synopses.len() && synopses[from as int].table != table {
        synopsis_place(synopses, table, from + 1)
    } else {
        from
    }
}

/// Synopses with one entered; it replaces the one of its table.
pub open spec fn synopsis_entered(
    synopses: Seq<SynopsisView>,
    synopsis: SynopsisView,
) -> Seq<SynopsisView> {
    let place = synopsis_place(synopses, synopsis.table, 0) as int;
    if place < synopses.len() {
        synopses.update(place, synopsis)
    } else {
        synopses.push(synopsis)
    }
}

proof fn lemma_synopsis_place(synopses: Seq<SynopsisView>, table: u64, from: nat)
    requires
        from <= synopses.len(),
    ensures
        from <= synopsis_place(synopses, table, from) <= synopses.len(),
        synopsis_place(synopses, table, from) < synopses.len() ==> synopses[synopsis_place(
            synopses,
            table,
            from,
        ) as int].table == table,
        forall|i: int|
            from <= i < synopsis_place(synopses, table, from) ==> (#[trigger] synopses[i]).table
                != table,
    decreases synopses.len() - from,
{
    if from < synopses.len() && synopses[from as int].table != table {
        lemma_synopsis_place(synopses, table, from + 1);
    }
}

/// What was entered of a table is found under it.
pub proof fn lemma_synopsis_entered(synopses: Seq<SynopsisView>, synopsis: SynopsisView)
    ensures
        ({
            let after = synopsis_entered(synopses, synopsis);
            let place = synopsis_place(after, synopsis.table, 0) as int;
            place < after.len() && after[place] == synopsis
        }),
{
    let after = synopsis_entered(synopses, synopsis);
    let place = synopsis_place(synopses, synopsis.table, 0) as int;
    lemma_synopsis_place(synopses, synopsis.table, 0);
    lemma_synopsis_place(after, synopsis.table, 0);
    let found = synopsis_place(after, synopsis.table, 0) as int;
    assert(after[place] == synopsis);
    if found < place {
        assert(after[found] == synopses[found]);
    }
}

/// Synopses by table; a later one replaces an earlier one of its table.
pub open spec fn synopses_by_table(synopses: Seq<SynopsisView>) -> Seq<SynopsisView>
    decreases synopses.len(),
{
    if synopses.len() == 0 {
        Seq::empty()
    } else {
        synopsis_entered(synopses_by_table(synopses.drop_last()), synopses.last())
    }
}

/// Where the synopsis of a table stands; the end where there is none.
pub fn find_synopsis(synopses: &Vec<SynopsisModel>, table: u64) -> (place: usize)
    ensures
        place == synopsis_place(synopsis_views(synopses@), table, 0),
        place <= synopses.len(),
        place < synopses.len() ==> synopses@[place as int].table == table,
{
    let ghost all = synopsis_views(synopses@);
    let mut i: usize = 0;
    while i < synopses.len() && synopses[i].table != table
        invariant
            i <= synopses.len(),
            all == synopsis_views(synopses@),
            synopsis_place(all, table, 0) == synopsis_place(all, table, i as nat),
        decreases synopses.len() - i,
    {
        assert(all[i as int] == synopses@[i as int]@);
        i += 1;
    }
    if i < synopses.len() {
        assert(all[i as int] == synopses@[i as int]@);
    }
    i
}

/// Enters a synopsis.
pub fn enter_synopsis(synopses: &mut Vec<SynopsisModel>, synopsis: SynopsisModel)
    ensures
        synopsis_views(final(synopses)@) == synopsis_entered(
            synopsis_views(old(synopses)@),
            synopsis@,
        ),
{
    let ghost all = synopsis_views(synopses@);
    let ghost shown = synopsis@;
    let place: usize = find_synopsis(synopses, synopsis.table);
    if place < synopses.len() {
        synopses.set(place, synopsis);
    } else {
        synopses.push(synopsis);
    }
    assert(synopsis_views(synopses@) =~= synopsis_entered(all, shown));
}

/// Synopses by table.
pub fn by_table(synopses: Vec<SynopsisModel>) -> (entered: Vec<SynopsisModel>)
    ensures
        synopsis_views(entered@) == synopses_by_table(synopsis_views(synopses@)),
{
    let ghost all = synopsis_views(synopses@);
    let mut entered: Vec<SynopsisModel> = Vec::new();
    let mut i: usize = 0;
    assert(all.take(0) =~= Seq::empty());
    assert(synopsis_views(entered@) =~= Seq::empty());
    while i < synopses.len()
        invariant
            i <= synopses.len(),
            all == synopsis_views(synopses@),
            synopsis_views(entered@) == synopses_by_table(all.take(i as int)),
        decreases synopses.len() - i,
    {
        proof {
            assert(all.take(i + 1).drop_last() =~= all.take(i as int));
            assert(all.take(i + 1).last() == synopses@[i as int]@);
        }
        enter_synopsis(&mut entered, synopses[i].copy());
        i += 1;
    }
    assert(all.take(i as int) =~= all);
    entered
}

} // verus!
