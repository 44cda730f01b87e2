//! Schema jobs, and what is kept for each of them.

use vstd::prelude::*;

verus! {

/// A piece of durable schema work, by the number that stands for its identity.
#[derive(Clone, Copy, Debug, PartialEq, Eq, Structural)]
pub enum SchemaJob {
    Activation(u128),
    Transition(u128),
    Reclamation(u128),
    TransitionCompaction(u128),
    CatalogHistory,
}

/// The map that entries stand for; later entries count.
pub open spec fn map_of<V>(entries: Seq<(SchemaJob, V)>) -> Map<SchemaJob, V>
    decreases entries.len(),
{
    if entries.len() == 0 {
        Map::empty()
    } else {
        map_of(entries.drop_last()).insert(entries.last().0, entries.last().1)
    }
}

spec fn distinct<V>(entries: Seq<(SchemaJob, V)>) -> bool {
    forall|i: int, j: int|
        0 <= i < j < entries.len() ==> (#[trigger] entries[i]).0 != (#[trigger] entries[j]).0
}

proof fn lemma_entry<V>(entries: Seq<(SchemaJob, V)>, place: int)
    requires
        distinct(entries),
        0 <= place < entries.len(),
    ensures
        map_of(entries).dom().contains(entries[place].0),
        map_of(entries)[entries[place].0] == entries[place].1,
    decreases entries.len(),
{
    if place < entries.len() - 1 {
        assert(entries.drop_last()[place] == entries[place]);
        assert(entries[place].0 != entries[entries.len() - 1].0);
        lemma_entry(entries.drop_last(), place);
    }
}

proof fn lemma_key<V>(entries: Seq<(SchemaJob, V)>, job: SchemaJob) -> (place: int)
    requires
        map_of(entries).dom().contains(job),
    ensures
        0 <= place < entries.len(),
        entries[place].0 == job,
    decreases entries.len(),
{
    if entries.last().0 == job {
        entries.len() - 1
    } else {
        lemma_key(entries.drop_last(), job)
    }
}

/// What is kept for each of some jobs.
#[derive(Debug, PartialEq)]
pub struct JobMap<V> {
    entries: Vec<(SchemaJob, V)>,
}

impl<V> View for JobMap<V> {
    type V = Map<SchemaJob, V>;

    closed spec fn view(&self) -> Map<SchemaJob, V> {
        map_of(self.entries@)
    }
}

impl<V> JobMap<V> {
    #[verifier::type_invariant]
    spec fn inv(self) -> bool {
        distinct(self.entries@)
    }
}

impl<V: Copy> JobMap<V> {
    /// Nothing kept.
    pub fn new() -> (jobs: JobMap<V>)
        ensures
            jobs@ == Map::<SchemaJob, V>::empty(),
    {
        JobMap { entries: Vec::new() }
    }

    /// Whether nothing is kept.
    pub fn is_empty(&self) -> (empty: bool)
        ensures
            empty == (self@ == Map::<SchemaJob, V>::empty()),
    {
        proof {
            if self.entries.len() > 0 {
                use_type_invariant(self);
                lemma_entry(self.entries@, 0);
            }
        }
        self.entries.len() == 0
    }

    /// What is kept for a job.
    pub fn get(&self, job: SchemaJob) -> (value: Option<V>)
        ensures
            value == self@.get(job),
    {
        let mut found: Option<V> = None;
        let mut i: usize = 0;
        assert(self.entries@.take(0) =~= Seq::empty());
        while i < self.entries.len()
            invariant
                i <= self.entries.len(),
                found == map_of(self.entries@.take(i as int)).get(job),
            decreases self.entries.len() - i,
        {
            assert(self.entries@.take(i + 1).drop_last() =~= self.entries@.take(i as int));
            if self.entries[i].0 == job {
                found = Some(self.entries[i].1);
            }
            i += 1;
        }
        assert(self.entries@.take(i as int) =~= self.entries@);
        found
    }

    fn others(&self, job: SchemaJob) -> (entries: Vec<(SchemaJob, V)>)
        ensures
            map_of(entries@) == self@.remove(job),
            distinct(entries@),
            forall|k: int| 0 <= k < entries.len() ==> (#[trigger] entries@[k]).0 != job,
    {
        proof {
            use_type_invariant(self);
        }
        let mut entries: Vec<(SchemaJob, V)> = Vec::new();
        let mut i: usize = 0;
        assert(self.entries@.take(0) =~= Seq::empty());
        assert(map_of(entries@) =~= map_of(self.entries@.take(0)).remove(job));
        while i < self.entries.len()
            invariant
                i <= self.entries.len(),
                distinct(self.entries@),
                distinct(entries@),
                map_of(entries@) == map_of(self.entries@.take(i as int)).remove(job),
                forall|k: int| 0 <= k < entries.len() ==> (#[trigger] entries@[k]).0 != job,
                forall|k: int|
                    0 <= k < entries.len() ==> exists|m: int|
                        0 <= m < i && (#[trigger] self.entries@[m]).0 == (
                        #[trigger] entries@[k]).0,
            decreases self.entries.len() - i,
        {
            assert(self.entries@.take(i + 1).drop_last() =~= self.entries@.take(i as int));
            let entry = self.entries[i];
            let ghost before = entries@;
            if entry.0 != job {
                proof {
                    assert forall|k: int| 0 <= k < before.len() implies (#[trigger] before[k]).0
                        != entry.0 by {
                        let m = choose|m: int|
                            0 <= m < i && (#[trigger] self.entries@[m]).0 == before[k].0;
                        assert(self.entries@[m].0 != self.entries@[i as int].0);
                    }
                }
                entries.push(entry);
                proof {
                    assert(entries@.drop_last() =~= before);
                    assert forall|k: int| 0 <= k < entries.len() implies exists|m: int|
                        0 <= m < i + 1 && (#[trigger] self.entries@[m]).0 == (
                        #[trigger] entries@[k]).0 by {
                        if k < before.len() {
                            assert(entries@[k] == before[k]);
                            let m = choose|m: int|
                                0 <= m < i && (#[trigger] self.entries@[m]).0 == before[k].0;
                            assert(0 <= m < i + 1 && self.entries@[m].0 == entries@[k].0);
                        } else {
                            assert(self.entries@[i as int].0 == entries@[k].0);
                        }
                    }
                }
            }
            assert(map_of(entries@) =~= map_of(self.entries@.take(i + 1)).remove(job));
            i += 1;
        }
        assert(self.entries@.take(i as int) =~= self.entries@);
        entries
    }

    /// Keeps a value for a job.
    pub fn set(&mut self, job: SchemaJob, value: V)
        ensures
            final(self)@ == old(self)@.insert(job, value),
    {
        let mut entries = self.others(job);
        let ghost before = entries@;
        entries.push((job, value));
        proof {
            assert(entries@.drop_last() =~= before);
            assert(map_of(entries@) =~= self@.insert(job, value));
        }
        self.entries = entries;
    }

    /// Keeps nothing for a job.
    pub fn remove(&mut self, job: SchemaJob)
        ensures
            final(self)@ == old(self)@.remove(job),
    {
        let entries = self.others(job);
        self.entries = entries;
    }
}

/// When a job that failed is tried again.
#[derive(Clone, Copy, Debug, PartialEq, Eq, Structural)]
pub struct RetryState {
    pub backoff_step: u32,
    pub failures: u32,
    pub next: u64,
}

/// Whether this is how long the first of the jobs that wait still waits.
pub open spec fn is_first_wait(
    retries: Map<SchemaJob, RetryState>,
    now: u64,
    wait: u64,
) -> bool {
    &&& exists|job: SchemaJob| #[trigger]
        retries.dom().contains(job) && retries[job].next == now + wait
    &&& forall|job: SchemaJob| #[trigger]
        retries.dom().contains(job) && retries[job].next >= now ==> retries[job].next >= now + wait
}

/// Whether no job waits.
pub open spec fn none_wait(retries: Map<SchemaJob, RetryState>, now: u64) -> bool {
    forall|job: SchemaJob| #[trigger] retries.dom().contains(job) ==> retries[job].next < now
}

impl JobMap<RetryState> {
    /// How long the first of the jobs that wait still waits; nothing where none
    /// does.
    pub fn first_wait(&self, now: u64) -> (wait: Option<u64>)
        ensures
            match wait {
                Some(wait) => is_first_wait(self@, now, wait),
                None => none_wait(self@, now),
            },
    {
        proof {
            use_type_invariant(self);
        }
        let ghost all = self.entries@;
        let mut first: Option<u64> = None;
        let mut i: usize = 0;
        while i < self.entries.len()
            invariant
                i <= self.entries.len(),
                all == self.entries@,
                match first {
                    Some(wait) => (exists|k: int|
                        0 <= k < i && (#[trigger] all[k]).1.next == now + wait) && forall|k: int|
                        0 <= k < i && (#[trigger] all[k]).1.next >= now ==> all[k].1.next >= now
                            + wait,
                    None => forall|k: int| 0 <= k < i ==> (#[trigger] all[k]).1.next < now,
                },
            decreases self.entries.len() - i,
        {
            let next: u64 = self.entries[i].1.next;
            if next >= now {
                let wait: u64 = next - now;
                first = match first {
                    Some(found) => if found <= wait {
                        Some(found)
                    } else {
                        assert(all[i as int].1.next == now + wait);
                        Some(wait)
                    },
                    None => {
                        assert(all[i as int].1.next == now + wait);
                        Some(wait)
                    },
                };
            }
            i += 1;
        }
        proof {
            assert forall|job: SchemaJob| #[trigger] self@.dom().contains(job) implies exists|k: int|
                0 <= k < all.len() && (#[trigger] all[k]).0 == job && all[k].1 == self@[job] by {
                let k = lemma_key(all, job);
                lemma_entry(all, k);
                assert(all[k].0 == job && all[k].1 == self@[job]);
            }
            if let Some(wait) = first {
                let k = choose|k: int| 0 <= k < all.len() && (#[trigger] all[k]).1.next == now + wait;
                lemma_entry(all, k);
                assert(self@.dom().contains(all[k].0));
            }
        }
        first
    }
}

} // verus!
