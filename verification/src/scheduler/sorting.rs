//! Stable order by key.

use vstd::prelude::*;

use crate::scheduler::sketches::Fingerprint;

verus! {

/// What things are ordered by: the parts count in turn.
#[derive(Clone, Copy, Debug, PartialEq, Eq, Structural)]
pub struct Key {
    pub first: u64,
    pub version: u32,
    pub algorithm: u32,
    pub digest: u128,
    pub last: u64,
}

impl Key {
    /// The key of a fingerprint, between two numbers.
    pub open spec fn spec_of(first: u64, fingerprint: Fingerprint, last: u64) -> Key {
        Key {
            first,
            version: fingerprint.canonicalization_version,
            algorithm: fingerprint.hash_algorithm,
            digest: fingerprint.digest,
            last,
        }
    }

    /// The key of a fingerprint, between two numbers.
    pub fn of(first: u64, fingerprint: Fingerprint, last: u64) -> (key: Key)
        ensures
            key == Key::spec_of(first, fingerprint, last),
    {
        Key {
            first,
            version: fingerprint.canonicalization_version,
            algorithm: fingerprint.hash_algorithm,
            digest: fingerprint.digest,
            last,
        }
    }

    /// The key of a number.
    pub open spec fn spec_number(number: u64) -> Key {
        Key { first: number, version: 0, algorithm: 0, digest: 0, last: 0 }
    }

    /// The key of a number.
    pub fn number(number: u64) -> (key: Key)
        ensures
            key == Key::spec_number(number),
    {
        Key { first: number, version: 0, algorithm: 0, digest: 0, last: 0 }
    }

    /// Whether one key comes before another.
    pub open spec fn spec_before(self, other: Key) -> bool {
        self.first < other.first || self.first == other.first && (self.version < other.version
            || self.version == other.version && (self.algorithm < other.algorithm
            || self.algorithm == other.algorithm && (self.digest < other.digest || self.digest
            == other.digest && self.last < other.last)))
    }

    /// Whether one key comes before another.
    pub fn before(self, other: Key) -> (before: bool)
        ensures
            before == self.spec_before(other),
    {
        if self.first != other.first {
            self.first < other.first
        } else if self.version != other.version {
            self.version < other.version
        } else if self.algorithm != other.algorithm {
            self.algorithm < other.algorithm
        } else if self.digest != other.digest {
            self.digest < other.digest
        } else {
            self.last < other.last
        }
    }
}

/// Where an item goes in an order, from a place on: behind all whose key is
/// not after its own.
pub open spec fn place(keys: Seq<Key>, order: Seq<int>, item: int, from: nat) -> nat
    decreases order.len() - from,
{
    if from < order.len() && !keys[item].spec_before(keys[order[from as int]]) {
        place(keys, order, item, from + 1)
    } else {
        from
    }
}

/// The order of the first items by key. Items with the same key stay in order.
pub open spec fn order(keys: Seq<Key>, length: nat) -> Seq<int>
    decreases length,
{
    if length == 0 {
        Seq::empty()
    } else {
        let before = order(keys, (length - 1) as nat);
        before.insert(place(keys, before, length - 1, 0) as int, length - 1)
    }
}

/// Items in an order.
pub open spec fn arranged<A>(items: Seq<A>, order: Seq<int>) -> Seq<A> {
    Seq::new(order.len(), |i: int| items[order[i]])
}

/// The indices of an order.
pub open spec fn index_views(order: Seq<usize>) -> Seq<int> {
    Seq::new(order.len(), |i: int| order[i] as int)
}

/// Whether keys come in order.
pub open spec fn in_order(keys: Seq<Key>, order: Seq<int>) -> bool {
    forall|i: int, k: int|
        0 <= i < k < order.len() ==> !keys[#[trigger] order[k]].spec_before(
            keys[#[trigger] order[i]],
        )
}

/// Whether an order holds each of the first indices once.
pub open spec fn is_permutation(order: Seq<int>, length: nat) -> bool {
    &&& order.len() == length
    &&& forall|i: int| 0 <= i < order.len() ==> 0 <= #[trigger] order[i] < length
    &&& forall|i: int, k: int|
        0 <= i < k < order.len() ==> #[trigger] order[i] != #[trigger] order[k]
    &&& forall|item: int| 0 <= item < length ==> order.contains(item)
}

proof fn lemma_place(keys: Seq<Key>, order: Seq<int>, item: int, from: nat)
    requires
        from <= order.len(),
    ensures
        from <= place(keys, order, item, from) <= order.len(),
        forall|i: int|
            from <= i < place(keys, order, item, from) ==> !keys[item].spec_before(
                keys[#[trigger] order[i]],
            ),
        place(keys, order, item, from) < order.len() ==> keys[item].spec_before(
            keys[order[place(keys, order, item, from) as int]],
        ),
    decreases order.len() - from,
{
    if from < order.len() && !keys[item].spec_before(keys[order[from as int]]) {
        lemma_place(keys, order, item, from + 1);
    }
}

/// An order by key holds each item once, and its keys come in order.
pub proof fn orders_are_sorted_permutations(keys: Seq<Key>, length: nat)
    requires
        length <= keys.len(),
    ensures
        is_permutation(order(keys, length), length),
        in_order(keys, order(keys, length)),
    decreases length,
{
    if length > 0 {
        let before = order(keys, (length - 1) as nat);
        orders_are_sorted_permutations(keys, (length - 1) as nat);
        let item = length - 1;
        let at = place(keys, before, item, 0) as int;
        lemma_place(keys, before, item, 0);
        let after = before.insert(at, item);
        assert forall|i: int, k: int| 0 <= i < k < after.len() implies !keys[#[trigger] after[k]].spec_before(
            keys[#[trigger] after[i]],
        ) by {
            let a = if i < at {
                i
            } else {
                i - 1
            };
            let b = if k < at {
                k
            } else {
                k - 1
            };
            if i != at {
                assert(after[i] == before[a]);
            }
            if k != at {
                assert(after[k] == before[b]);
            }
            if i == at && b > at {
                assert(!keys[before[b]].spec_before(keys[before[at]]));
            }
        }
        assert forall|i: int, k: int| 0 <= i < k < after.len() implies #[trigger] after[i]
            != #[trigger] after[k] by {
            let a = if i < at {
                i
            } else {
                i - 1
            };
            let b = if k < at {
                k
            } else {
                k - 1
            };
            if i != at {
                assert(after[i] == before[a]);
            }
            if k != at {
                assert(after[k] == before[b]);
            }
        }
        assert forall|i: int| 0 <= i < after.len() implies 0 <= #[trigger] after[i] < length by {
            let a = if i < at {
                i
            } else {
                i - 1
            };
            if i != at {
                assert(after[i] == before[a]);
            }
        }
        assert forall|wanted: int| 0 <= wanted < length implies after.contains(wanted) by {
            if wanted == item {
                assert(after[at] == item);
            } else {
                assert(before.contains(wanted));
                let i = choose|i: int| 0 <= i < before.len() && before[i] == wanted;
                if i < at {
                    assert(after[i] == wanted);
                } else {
                    assert(after[i + 1] == wanted);
                }
            }
        }
    }
}

/// The order of items by key.
pub fn sorted_order(keys: &Vec<Key>) -> (result: Vec<usize>)
    ensures
        index_views(result@) == order(keys@, keys@.len()),
        is_permutation(index_views(result@), keys@.len()),
        in_order(keys@, index_views(result@)),
{
    let mut result: Vec<usize> = Vec::new();
    let mut i: usize = 0;
    assert(index_views(result@) =~= order(keys@, 0));
    while i < keys.len()
        invariant
            i <= keys.len(),
            index_views(result@) == order(keys@, i as nat),
        decreases keys.len() - i,
    {
        let ghost before = order(keys@, i as nat);
        proof {
            orders_are_sorted_permutations(keys@, i as nat);
        }
        assert(before.len() == i);
        let mut at: usize = 0;
        while at < result.len() && !keys[i].before(keys[result[at]])
            invariant
                i < keys.len(),
                at <= result.len(),
                before == index_views(result@),
                before == order(keys@, i as nat),
                is_permutation(before, i as nat),
                place(keys@, before, i as int, 0) == place(keys@, before, i as int, at as nat),
            decreases result.len() - at,
        {
            assert(before[at as int] == result@[at as int]);
            at += 1;
            if at < result.len() {
                assert(before[at as int] == result@[at as int]);
                assert(0 <= before[at as int] < i);
            }
        }
        if at < result.len() {
            assert(before[at as int] == result@[at as int]);
        }
        result.insert(at, i);
        assert(index_views(result@) =~= order(keys@, (i + 1) as nat));
        i += 1;
    }
    proof {
        orders_are_sorted_permutations(keys@, keys@.len());
    }
    result
}

// ---- canonical order ----

/// Whether no key occurs twice.
pub open spec fn keys_differ(keys: Seq<Key>) -> bool {
    forall|i: int, k: int| 0 <= i < k < keys.len() ==> #[trigger] keys[i] != #[trigger] keys[k]
}

/// Whether each key comes before the next.
pub open spec fn increasing(keys: Seq<Key>) -> bool {
    forall|i: int, k: int|
        0 <= i < k < keys.len() ==> (#[trigger] keys[i]).spec_before(#[trigger] keys[k])
}

proof fn lemma_increasing_unique(left: Seq<Key>, right: Seq<Key>)
    requires
        increasing(left),
        increasing(right),
        forall|key: Key| left.contains(key) <==> right.contains(key),
    ensures
        left == right,
    decreases left.len(),
{
    if left.len() == 0 {
        if right.len() > 0 {
            assert(right.contains(right[0]));
        }
        assert(left =~= right);
    } else {
        assert(left.contains(left[0]));
        assert(right.len() > 0);
        assert(right.contains(right[0]));
        let i = choose|i: int| 0 <= i < right.len() && right[i] == left[0];
        let k = choose|k: int| 0 <= k < left.len() && left[k] == right[0];
        if i > 0 {
            assert(right[0].spec_before(right[i]));
            if k > 0 {
                assert(left[0].spec_before(left[k]));
            }
        }
        assert(left[0] == right[0]);
        let (a, b) = (left.skip(1), right.skip(1));
        assert(increasing(a)) by {
            assert forall|i: int, k: int| 0 <= i < k < a.len() implies (
            #[trigger] a[i]).spec_before(#[trigger] a[k]) by {
                assert(left[i + 1].spec_before(left[k + 1]));
            }
        }
        assert(increasing(b)) by {
            assert forall|i: int, k: int| 0 <= i < k < b.len() implies (
            #[trigger] b[i]).spec_before(#[trigger] b[k]) by {
                assert(right[i + 1].spec_before(right[k + 1]));
            }
        }
        assert forall|key: Key| a.contains(key) <==> b.contains(key) by {
            if a.contains(key) {
                let i = choose|i: int| 0 <= i < a.len() && a[i] == key;
                assert(left[i + 1] == key);
                assert(left[0].spec_before(left[i + 1]));
                assert(left.contains(key));
                let k = choose|k: int| 0 <= k < right.len() && right[k] == key;
                assert(k > 0);
                assert(b[k - 1] == key);
            }
            if b.contains(key) {
                let i = choose|i: int| 0 <= i < b.len() && b[i] == key;
                assert(right[i + 1] == key);
                assert(right[0].spec_before(right[i + 1]));
                assert(right.contains(key));
                let k = choose|k: int| 0 <= k < left.len() && left[k] == key;
                assert(k > 0);
                assert(a[k - 1] == key);
            }
        }
        lemma_increasing_unique(a, b);
        assert(left =~= seq![left[0]] + a);
        assert(right =~= seq![right[0]] + b);
    }
}

proof fn lemma_arranged_increasing(keys: Seq<Key>)
    requires
        keys_differ(keys),
    ensures
        increasing(arranged(keys, order(keys, keys.len()))),
        forall|key: Key|
            keys.contains(key) <==> arranged(keys, order(keys, keys.len())).contains(key),
{
    let order = order(keys, keys.len());
    orders_are_sorted_permutations(keys, keys.len());
    let sorted = arranged(keys, order);
    assert forall|i: int, k: int| 0 <= i < k < sorted.len() implies (
    #[trigger] sorted[i]).spec_before(#[trigger] sorted[k]) by {
        assert(!keys[order[k]].spec_before(keys[order[i]]));
        assert(order[i] != order[k]);
        if order[i] < order[k] {
            assert(keys[order[i]] != keys[order[k]]);
        } else {
            assert(keys[order[k]] != keys[order[i]]);
        }
    }
    assert forall|key: Key| keys.contains(key) <==> sorted.contains(key) by {
        if keys.contains(key) {
            let i = choose|i: int| 0 <= i < keys.len() && keys[i] == key;
            assert(order.contains(i));
            let k = choose|k: int| 0 <= k < order.len() && order[k] == i;
            assert(sorted[k] == key);
        }
        if sorted.contains(key) {
            let k = choose|k: int| 0 <= k < sorted.len() && sorted[k] == key;
            assert(keys[order[k]] == key);
        }
    }
}

/// The order by key is canonical: in whatever order things with different keys
/// are given, their keys come out in the same order.
pub proof fn orders_are_canonical(left: Seq<Key>, right: Seq<Key>)
    requires
        keys_differ(left),
        keys_differ(right),
        forall|key: Key| left.contains(key) <==> right.contains(key),
    ensures
        arranged(left, order(left, left.len())) == arranged(right, order(right, right.len())),
{
    lemma_arranged_increasing(left);
    lemma_arranged_increasing(right);
    let a = arranged(left, order(left, left.len()));
    let b = arranged(right, order(right, right.len()));
    assert forall|key: Key| a.contains(key) <==> b.contains(key) by {
        assert(left.contains(key) <==> a.contains(key));
        assert(right.contains(key) <==> b.contains(key));
        assert(left.contains(key) <==> right.contains(key));
    }
    lemma_increasing_unique(a, b);
}

} // verus!
