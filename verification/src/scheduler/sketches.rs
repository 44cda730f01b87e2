//! Sketches over fingerprints: how often each was seen, and how many.

use vstd::prelude::*;

verus! {

/// The identity of a query, a family of queries, or a plan.
#[derive(Clone, Copy, Debug, PartialEq, Eq, Structural)]
pub struct Fingerprint {
    pub canonicalization_version: u32,
    pub hash_algorithm: u32,
    pub digest: u128,
}

impl Fingerprint {
    /// Whether one fingerprint is ordered before another: by version, by
    /// algorithm, then by digest.
    pub open spec fn spec_before(self, other: Fingerprint) -> bool {
        ||| self.canonicalization_version < other.canonicalization_version
        ||| self.canonicalization_version == other.canonicalization_version && self.hash_algorithm
            < other.hash_algorithm
        ||| self.canonicalization_version == other.canonicalization_version && self.hash_algorithm
            == other.hash_algorithm && self.digest < other.digest
    }

    /// Whether one fingerprint is ordered before another.
    pub fn before(self, other: Fingerprint) -> (before: bool)
        ensures
            before == self.spec_before(other),
    {
        if self.canonicalization_version != other.canonicalization_version {
            self.canonicalization_version < other.canonicalization_version
        } else if self.hash_algorithm != other.hash_algorithm {
            self.hash_algorithm < other.hash_algorithm
        } else {
            self.digest < other.digest
        }
    }
}

/// The largest number of columns of a sketch.
pub const MAX_SKETCH_WIDTH: usize = 1048576;

/// How often fingerprints were seen, in bounded space: four rows of counters,
/// each fingerprint in one column of each. Counters stop at their maximum.
#[derive(Debug, PartialEq)]
pub struct FrequencySketch {
    pub width: usize,
    pub counters: Vec<u32>,
}

/// The value of a [`FrequencySketch`].
#[verifier::ext_equal]
pub struct SketchView {
    pub width: nat,
    pub counters: Seq<u32>,
}

impl View for FrequencySketch {
    type V = SketchView;

    open spec fn view(&self) -> SketchView {
        SketchView { width: self.width as nat, counters: self.counters@ }
    }
}

/// The part of a digest that picks the column of a row.
pub open spec fn digest_word(digest: u128, row: nat) -> nat {
    let shifted = if row == 0 {
        digest
    } else if row == 1 {
        digest / 0x1_0000_0000
    } else if row == 2 {
        digest / 0x1_0000_0000_0000_0000
    } else {
        digest / 0x1_0000_0000_0000_0000_0000_0000
    };
    (shifted % 0x1_0000_0000) as nat
}

/// The counter of a fingerprint in a row.
pub open spec fn slot(width: nat, fingerprint: Fingerprint, row: nat) -> int {
    (row * width + digest_word(fingerprint.digest, row) % width) as int
}

impl SketchView {
    /// Whether a sketch has four rows of at least one column.
    pub open spec fn wf(self) -> bool {
        &&& 0 < self.width <= MAX_SKETCH_WIDTH
        &&& self.counters.len() == 4 * self.width
    }

    /// An empty sketch.
    pub open spec fn empty(width: nat) -> SketchView {
        SketchView { width, counters: Seq::new(4 * width, |i: int| 0u32) }
    }

    pub open spec fn counter(self, fingerprint: Fingerprint, row: nat) -> u32 {
        self.counters[slot(self.width, fingerprint, row)]
    }

    /// Whether a counter is one of a fingerprint.
    pub open spec fn holds(self, fingerprint: Fingerprint, i: int) -> bool {
        ||| i == slot(self.width, fingerprint, 0)
        ||| i == slot(self.width, fingerprint, 1)
        ||| i == slot(self.width, fingerprint, 2)
        ||| i == slot(self.width, fingerprint, 3)
    }

    /// How often a fingerprint was seen, at most: its smallest counter.
    pub open spec fn estimate(self, fingerprint: Fingerprint) -> u32 {
        let first = lesser(self.counter(fingerprint, 0), self.counter(fingerprint, 1));
        let second = lesser(self.counter(fingerprint, 2), self.counter(fingerprint, 3));
        lesser(first, second)
    }

    /// A sketch after a fingerprint was seen a number of times.
    pub open spec fn recorded(self, fingerprint: Fingerprint, times: u32) -> SketchView {
        SketchView {
            width: self.width,
            counters: Seq::new(
                self.counters.len(),
                |i: int|
                    if self.holds(fingerprint, i) {
                        self.counters[i].saturating_add(times)
                    } else {
                        self.counters[i]
                    },
            ),
        }
    }

    /// A sketch in which a fingerprint was seen at least a number of times.
    pub open spec fn raised(self, fingerprint: Fingerprint, times: u32) -> SketchView {
        SketchView {
            width: self.width,
            counters: Seq::new(
                self.counters.len(),
                |i: int|
                    if self.holds(fingerprint, i) && self.counters[i] < times {
                        times
                    } else {
                        self.counters[i]
                    },
            ),
        }
    }

    /// A sketch in which everything was seen half as often.
    pub open spec fn decayed(self) -> SketchView {
        SketchView {
            width: self.width,
            counters: Seq::new(self.counters.len(), |i: int| (self.counters[i] / 2) as u32),
        }
    }
}

/// The smaller of two counts.
pub open spec fn lesser(left: u32, right: u32) -> u32 {
    if left <= right {
        left
    } else {
        right
    }
}

fn lesser_of(left: u32, right: u32) -> (result: u32)
    ensures
        result == lesser(left, right),
{
    if left <= right {
        left
    } else {
        right
    }
}

/// The width of a sketch for a capacity.
pub open spec fn width_for(capacity: nat) -> nat {
    if capacity < 16 {
        16
    } else if capacity > MAX_SKETCH_WIDTH {
        MAX_SKETCH_WIDTH as nat
    } else {
        capacity
    }
}

pub proof fn lemma_slots(width: nat, fingerprint: Fingerprint)
    requires
        width > 0,
    ensures
        forall|row: nat|
            row < 4 ==> row * width <= #[trigger] slot(width, fingerprint, row) < (row + 1)
                * width,
        0 <= slot(width, fingerprint, 0) < width,
        width <= slot(width, fingerprint, 1) < 2 * width,
        2 * width <= slot(width, fingerprint, 2) < 3 * width,
        3 * width <= slot(width, fingerprint, 3) < 4 * width,
{
    assert forall|row: nat| row < 4 implies row * width <= #[trigger] slot(width, fingerprint, row)
        < (row + 1) * width by {
        let word = digest_word(fingerprint.digest, row);
        assert(0 <= word % width < width) by (nonlinear_arith)
            requires
                width > 0,
        ;
        assert((row + 1) * width == row * width + width) by (nonlinear_arith);
    }
    assert(slot(width, fingerprint, 0) < 1 * width);
    assert(1 * width <= slot(width, fingerprint, 1));
    assert(2 * width <= slot(width, fingerprint, 2));
    assert(3 * width <= slot(width, fingerprint, 3));
}

impl FrequencySketch {
    /// An empty sketch for a number of fingerprints.
    pub fn new(capacity: usize) -> (sketch: FrequencySketch)
        ensures
            sketch@.wf(),
            sketch@ == SketchView::empty(width_for(capacity as nat)),
    {
        let width: usize = if capacity < 16 {
            16
        } else if capacity > MAX_SKETCH_WIDTH {
            MAX_SKETCH_WIDTH
        } else {
            capacity
        };
        let mut counters: Vec<u32> = Vec::new();
        let mut i: usize = 0;
        while i < 4 * width
            invariant
                width <= MAX_SKETCH_WIDTH,
                i <= 4 * width,
                counters@.len() == i,
                forall|k: int| 0 <= k < i ==> counters@[k] == 0,
            decreases 4 * width - i,
        {
            counters.push(0);
            i += 1;
        }
        let sketch = FrequencySketch { width, counters };
        assert(sketch@ =~= SketchView::empty(width as nat));
        sketch
    }

    fn column(&self, fingerprint: &Fingerprint, row: usize) -> (place: usize)
        requires
            self@.wf(),
            row < 4,
        ensures
            place == slot(self@.width, *fingerprint, row as nat),
            place < self.counters.len(),
    {
        let digest: u128 = fingerprint.digest;
        let shifted: u128 = if row == 0 {
            digest
        } else if row == 1 {
            digest / 0x1_0000_0000
        } else if row == 2 {
            digest / 0x1_0000_0000_0000_0000
        } else {
            digest / 0x1_0000_0000_0000_0000_0000_0000
        };
        let word: u64 = (shifted % 0x1_0000_0000) as u64;
        let column: usize = (word % (self.width as u64)) as usize;
        proof {
            lemma_slots(self@.width, *fingerprint);
            assert(row * self.width <= 3 * self.width) by (nonlinear_arith)
                requires
                    row < 4,
            ;
            assert((row + 1) * self.width <= 4 * self.width) by (nonlinear_arith)
                requires
                    row < 4,
            ;
            assert(row as nat * self@.width <= slot(self@.width, *fingerprint, row as nat));
        }
        row * self.width + column
    }

    /// Records one appearance.
    pub fn record(&mut self, fingerprint: &Fingerprint)
        requires
            old(self)@.wf(),
        ensures
            final(self)@.wf(),
            final(self)@ == old(self)@.recorded(*fingerprint, 1),
    {
        self.record_many(fingerprint, 1);
    }

    /// Records a number of appearances.
    pub fn record_many(&mut self, fingerprint: &Fingerprint, times: u32)
        requires
            old(self)@.wf(),
        ensures
            final(self)@.wf(),
            final(self)@ == old(self)@.recorded(*fingerprint, times),
    {
        let first: usize = self.column(fingerprint, 0);
        let second: usize = self.column(fingerprint, 1);
        let third: usize = self.column(fingerprint, 2);
        let fourth: usize = self.column(fingerprint, 3);
        proof {
            lemma_slots(self@.width, *fingerprint);
        }
        let next: u32 = self.counters[first].saturating_add(times);
        self.counters.set(first, next);
        let next: u32 = self.counters[second].saturating_add(times);
        self.counters.set(second, next);
        let next: u32 = self.counters[third].saturating_add(times);
        self.counters.set(third, next);
        let next: u32 = self.counters[fourth].saturating_add(times);
        self.counters.set(fourth, next);
        assert(self@ =~= old(self)@.recorded(*fingerprint, times));
    }

    /// Raises the appearances of a fingerprint to at least a number.
    pub fn record_at_least(&mut self, fingerprint: &Fingerprint, times: u32)
        requires
            old(self)@.wf(),
        ensures
            final(self)@.wf(),
            final(self)@ == old(self)@.raised(*fingerprint, times),
    {
        let ghost before = self@;
        let mut row: usize = 0;
        proof {
            lemma_slots(before.width, *fingerprint);
        }
        while row < 4
            invariant
                row <= 4,
                before.wf(),
                self@.wf(),
                self@.width == before.width,
                forall|i: int|
                    0 <= i < before.counters.len() ==> #[trigger] self.counters@[i] == (if (
                    exists|r: nat|
                        r < row && i == #[trigger] slot(before.width, *fingerprint, r))
                        && before.counters[i] < times {
                        times
                    } else {
                        before.counters[i]
                    }),
            decreases 4 - row,
        {
            let place: usize = self.column(fingerprint, row);
            let ghost held = self.counters@;
            if self.counters[place] < times {
                self.counters.set(place, times);
            }
            proof {
                lemma_slots(before.width, *fingerprint);
                assert forall|i: int| 0 <= i < before.counters.len() implies #[trigger]
                self.counters@[i] == (if (exists|r: nat|
                    r < row + 1 && i == #[trigger] slot(before.width, *fingerprint, r))
                    && before.counters[i] < times {
                    times
                } else {
                    before.counters[i]
                }) by {
                    assert(held[i] == (if (exists|r: nat|
                        r < row && i == #[trigger] slot(before.width, *fingerprint, r))
                        && before.counters[i] < times {
                        times
                    } else {
                        before.counters[i]
                    }));
                    if i == place {
                        assert(i == slot(before.width, *fingerprint, row as nat));
                    } else if exists|r: nat|
                        r < row + 1 && i == #[trigger] slot(before.width, *fingerprint, r) {
                        let r = choose|r: nat|
                            r < row + 1 && i == #[trigger] slot(before.width, *fingerprint, r);
                        assert(r < row);
                    }
                }
            }
            row += 1;
        }
        proof {
            assert forall|i: int| 0 <= i < before.counters.len() implies #[trigger]
            self.counters@[i] == before.raised(*fingerprint, times).counters[i] by {
                if before.holds(*fingerprint, i) {
                    if i == slot(before.width, *fingerprint, 0nat) {
                    } else if i == slot(before.width, *fingerprint, 1nat) {
                    } else if i == slot(before.width, *fingerprint, 2nat) {
                    } else {
                        assert(i == slot(before.width, *fingerprint, 3nat));
                    }
                    assert(exists|r: nat|
                        r < 4 && i == #[trigger] slot(before.width, *fingerprint, r));
                } else if exists|r: nat|
                    r < 4 && i == #[trigger] slot(before.width, *fingerprint, r) {
                    let r = choose|r: nat|
                        r < 4 && i == #[trigger] slot(before.width, *fingerprint, r);
                    assert(r == 0 || r == 1 || r == 2 || r == 3);
                }
            }
            assert(self@ =~= before.raised(*fingerprint, times));
        }
    }

    /// How often a fingerprint was seen, at most.
    pub fn estimate(&self, fingerprint: &Fingerprint) -> (count: u32)
        requires
            self@.wf(),
        ensures
            count == self@.estimate(*fingerprint),
    {
        let first: u32 = lesser_of(
            self.counters[self.column(fingerprint, 0)],
            self.counters[self.column(fingerprint, 1)],
        );
        let second: u32 = lesser_of(
            self.counters[self.column(fingerprint, 2)],
            self.counters[self.column(fingerprint, 3)],
        );
        lesser_of(first, second)
    }

    /// Halves every count.
    pub fn decay(&mut self)
        requires
            old(self)@.wf(),
        ensures
            final(self)@.wf(),
            final(self)@ == old(self)@.decayed(),
    {
        let ghost before = self@;
        let mut i: usize = 0;
        while i < self.counters.len()
            invariant
                i <= self.counters.len(),
                self@.width == before.width,
                self.counters.len() == before.counters.len(),
                forall|k: int| 0 <= k < i ==> self.counters@[k] == before.counters[k] / 2,
                forall|k: int| i <= k < self.counters.len() ==> self.counters@[k]
                    == before.counters[k],
            decreases self.counters.len() - i,
        {
            let half: u32 = self.counters[i] / 2;
            self.counters.set(i, half);
            i += 1;
        }
        assert(self@ =~= before.decayed());
    }

    /// A copy of a sketch.
    pub fn copy(&self) -> (sketch: FrequencySketch)
        ensures
            sketch@ == self@,
    {
        let mut counters: Vec<u32> = Vec::new();
        let mut i: usize = 0;
        while i < self.counters.len()
            invariant
                i <= self.counters.len(),
                counters@ =~= self.counters@.take(i as int),
            decreases self.counters.len() - i,
        {
            counters.push(self.counters[i]);
            i += 1;
        }
        let sketch = FrequencySketch { width: self.width, counters };
        assert(sketch@ =~= self@);
        sketch
    }
}

// ---- what the sketch promises ----

/// Recording counts: a fingerprint's estimate grows by what was recorded of
/// it, up to the maximum, and no other estimate falls.
pub proof fn recording_counts(
    sketch: SketchView,
    fingerprint: Fingerprint,
    times: u32,
    other: Fingerprint,
)
    requires
        sketch.wf(),
    ensures
        sketch.recorded(fingerprint, times).wf(),
        sketch.recorded(fingerprint, times).estimate(fingerprint) == sketch.estimate(
            fingerprint,
        ).saturating_add(times),
        sketch.recorded(fingerprint, times).estimate(other) >= sketch.estimate(other),
{
    lemma_slots(sketch.width, fingerprint);
    lemma_slots(sketch.width, other);
}

/// How often a fingerprint occurs in a run of appearances.
pub open spec fn appearances(
    recorded: Seq<(Fingerprint, u32)>,
    fingerprint: Fingerprint,
) -> nat
    decreases recorded.len(),
{
    if recorded.len() == 0 {
        0
    } else {
        appearances(recorded.drop_last(), fingerprint) + (if recorded.last().0 == fingerprint {
            recorded.last().1 as nat
        } else {
            0nat
        })
    }
}

/// A sketch after a run of appearances.
pub open spec fn sketched(width: nat, recorded: Seq<(Fingerprint, u32)>) -> SketchView
    decreases recorded.len(),
{
    if recorded.len() == 0 {
        SketchView::empty(width)
    } else {
        sketched(width, recorded.drop_last()).recorded(recorded.last().0, recorded.last().1)
    }
}

/// A sketch never undercounts: its estimate is at least what was recorded, up
/// to the maximum.
pub proof fn sketches_never_undercount(
    width: nat,
    recorded: Seq<(Fingerprint, u32)>,
    fingerprint: Fingerprint,
)
    requires
        0 < width <= MAX_SKETCH_WIDTH,
    ensures
        sketched(width, recorded).wf(),
        sketched(width, recorded).estimate(fingerprint) >= appearances(recorded, fingerprint)
            || sketched(width, recorded).estimate(fingerprint) == u32::MAX,
    decreases recorded.len(),
{
    if recorded.len() == 0 {
        lemma_slots(width, fingerprint);
    } else {
        sketches_never_undercount(width, recorded.drop_last(), fingerprint);
        recording_counts(
            sketched(width, recorded.drop_last()),
            recorded.last().0,
            recorded.last().1,
            fingerprint,
        );
    }
}

/// Decay halves: every estimate is half of what it was.
pub proof fn decay_halves(sketch: SketchView, fingerprint: Fingerprint)
    requires
        sketch.wf(),
    ensures
        sketch.decayed().wf(),
        sketch.decayed().estimate(fingerprint) == sketch.estimate(fingerprint) / 2,
{
    lemma_slots(sketch.width, fingerprint);
}

/// Raising reaches: a fingerprint's estimate is what it was or the number it
/// was raised to, whichever is larger.
pub proof fn raising_reaches(sketch: SketchView, fingerprint: Fingerprint, times: u32)
    requires
        sketch.wf(),
    ensures
        sketch.raised(fingerprint, times).wf(),
        sketch.raised(fingerprint, times).estimate(fingerprint) == (if sketch.estimate(fingerprint)
            < times {
            times
        } else {
            sketch.estimate(fingerprint)
        }),
{
    lemma_slots(sketch.width, fingerprint);
}

// ---- how many fingerprints ----

/// Which distinct fingerprints were seen. The account is exact, so that its
/// estimate is the count.
#[derive(Debug, PartialEq)]
pub struct FingerprintCardinalitySketch {
    pub seen: Vec<Fingerprint>,
}

/// A run of distinct fingerprints after another was seen.
pub open spec fn noticed(seen: Seq<Fingerprint>, fingerprint: Fingerprint) -> Seq<Fingerprint> {
    if seen.contains(fingerprint) {
        seen
    } else {
        seen.push(fingerprint)
    }
}

/// A run of distinct fingerprints after others were seen.
pub open spec fn noticed_all(seen: Seq<Fingerprint>, others: Seq<Fingerprint>) -> Seq<Fingerprint>
    decreases others.len(),
{
    if others.len() == 0 {
        seen
    } else {
        noticed(noticed_all(seen, others.drop_last()), others.last())
    }
}

impl Default for FingerprintCardinalitySketch {
    fn default() -> (sketch: FingerprintCardinalitySketch)
        ensures
            sketch.seen@ == Seq::<Fingerprint>::empty(),
    {
        FingerprintCardinalitySketch { seen: Vec::new() }
    }
}

impl FingerprintCardinalitySketch {
    /// Notices a fingerprint.
    pub fn record(&mut self, fingerprint: &Fingerprint)
        ensures
            final(self).seen@ == noticed(old(self).seen@, *fingerprint),
    {
        let mut i: usize = 0;
        while i < self.seen.len()
            invariant
                i <= self.seen.len(),
                self.seen@ == old(self).seen@,
                forall|k: int| 0 <= k < i ==> self.seen@[k] != *fingerprint,
            decreases self.seen.len() - i,
        {
            if self.seen[i] == *fingerprint {
                assert(self.seen@[i as int] == *fingerprint);
                return;
            }
            i += 1;
        }
        assert(!self.seen@.contains(*fingerprint));
        self.seen.push(*fingerprint);
    }

    /// Notices what another sketch saw.
    pub fn merge(&mut self, other: &FingerprintCardinalitySketch)
        ensures
            final(self).seen@ == noticed_all(old(self).seen@, other.seen@),
    {
        let ghost before = self.seen@;
        let mut i: usize = 0;
        assert(other.seen@.take(0) =~= Seq::empty());
        while i < other.seen.len()
            invariant
                i <= other.seen.len(),
                self.seen@ == noticed_all(before, other.seen@.take(i as int)),
            decreases other.seen.len() - i,
        {
            proof {
                assert(other.seen@.take(i + 1).drop_last() =~= other.seen@.take(i as int));
            }
            self.record(&other.seen[i]);
            i += 1;
        }
        assert(other.seen@.take(i as int) =~= other.seen@);
    }

    /// How many distinct fingerprints were seen.
    pub fn estimate(&self) -> (count: u64)
        ensures
            count == self.seen@.len(),
    {
        self.seen.len() as u64
    }

    /// A copy of a sketch.
    pub fn copy(&self) -> (sketch: FingerprintCardinalitySketch)
        ensures
            sketch.seen@ == self.seen@,
    {
        let mut seen: Vec<Fingerprint> = Vec::new();
        let mut i: usize = 0;
        while i < self.seen.len()
            invariant
                i <= self.seen.len(),
                seen@ =~= self.seen@.take(i as int),
            decreases self.seen.len() - i,
        {
            seen.push(self.seen[i]);
            i += 1;
        }
        assert(seen@ =~= self.seen@);
        FingerprintCardinalitySketch { seen }
    }
}

} // verus!
