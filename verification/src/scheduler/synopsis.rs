//! What was surveyed of the values of a table, and its canonical form.

use vstd::prelude::*;

use crate::scheduler::records::{copy_bytes, same_bytes};

verus! {

// ---- order of lists ----

/// Whether one list comes before another, from a place up to which they agree.
pub open spec fn lex(left: Seq<int>, right: Seq<int>, from: nat) -> bool
    decreases right.len() - from,
{
    if from >= right.len() {
        false
    } else if from >= left.len() {
        true
    } else if left[from as int] != right[from as int] {
        left[from as int] < right[from as int]
    } else {
        lex(left, right, from + 1)
    }
}

/// Bytes as numbers.
pub open spec fn byte_numbers(bytes: Seq<u8>) -> Seq<int> {
    Seq::new(bytes.len(), |i: int| bytes[i] as int)
}

/// Machine numbers as numbers.
pub open spec fn numbers(values: Seq<u64>) -> Seq<int> {
    Seq::new(values.len(), |i: int| values[i] as int)
}

/// What things are ordered by: a list, and a number among the same lists.
pub struct ListKey {
    pub list: Seq<int>,
    pub last: int,
}

impl ListKey {
    /// Whether one key comes before another.
    pub open spec fn before(self, other: ListKey) -> bool {
        lex(self.list, other.list, 0) || !lex(other.list, self.list, 0) && self.last < other.last
    }
}

/// Where an item goes in an order, from a place on: behind all whose key is
/// not after its own.
pub open spec fn place(keys: Seq<ListKey>, order: Seq<int>, item: int, from: nat) -> nat
    decreases order.len() - from,
{
    if from < order.len() && !keys[item].before(keys[order[from as int]]) {
        place(keys, order, item, from + 1)
    } else {
        from
    }
}

/// The order of the first items by key. Items with the same key stay in order.
pub open spec fn list_order(keys: Seq<ListKey>, length: nat) -> Seq<int>
    decreases length,
{
    if length == 0 {
        Seq::empty()
    } else {
        let before = list_order(keys, (length - 1) as nat);
        before.insert(place(keys, before, length - 1, 0) as int, length - 1)
    }
}

/// Items in the order of their keys.
pub open spec fn by_key<A>(items: Seq<A>, keys: Seq<ListKey>) -> Seq<A> {
    let order = list_order(keys, keys.len());
    Seq::new(order.len(), |i: int| items[order[i]])
}

proof fn lemma_place(keys: Seq<ListKey>, order: Seq<int>, item: int, from: nat)
    requires
        from <= order.len(),
    ensures
        from <= place(keys, order, item, from) <= order.len(),
        forall|i: int|
            from <= i < place(keys, order, item, from) ==> !keys[item].before(
                keys[#[trigger] order[i]],
            ),
        place(keys, order, item, from) < order.len() ==> keys[item].before(
            keys[order[place(keys, order, item, from) as int]],
        ),
    decreases order.len() - from,
{
    if from < order.len() && !keys[item].before(keys[order[from as int]]) {
        lemma_place(keys, order, item, from + 1);
    }
}

proof fn lemma_order_ranges(keys: Seq<ListKey>, length: nat)
    ensures
        list_order(keys, length).len() == length,
        forall|i: int|
            0 <= i < length ==> 0 <= #[trigger] list_order(keys, length)[i] < length,
    decreases length,
{
    if length > 0 {
        lemma_order_ranges(keys, (length - 1) as nat);
        let before = list_order(keys, (length - 1) as nat);
        lemma_place(keys, before, length - 1, 0);
        let at = place(keys, before, length - 1, 0) as int;
        let after = list_order(keys, length);
        assert forall|i: int| 0 <= i < length implies 0 <= #[trigger] after[i] < length by {
            if i < at {
                assert(after[i] == before[i]);
            } else if i > at {
                assert(after[i] == before[i - 1]);
            }
        }
    }
}

/// A key that is given as it is compared.
pub struct SortKey {
    pub list: Vec<u64>,
    pub last: u64,
}

impl View for SortKey {
    type V = ListKey;

    open spec fn view(&self) -> ListKey {
        ListKey { list: numbers(self.list@), last: self.last as int }
    }
}

pub open spec fn key_views(keys: Seq<SortKey>) -> Seq<ListKey> {
    Seq::new(keys.len(), |i: int| keys[i]@)
}

fn list_before(left: &Vec<u64>, right: &Vec<u64>) -> (before: bool)
    ensures
        before == lex(numbers(left@), numbers(right@), 0),
{
    let mut i: usize = 0;
    while i < right.len()
        invariant
            i <= right.len(),
            lex(numbers(left@), numbers(right@), 0) == lex(
                numbers(left@),
                numbers(right@),
                i as nat,
            ),
        decreases right.len() - i,
    {
        if i >= left.len() {
            return true;
        }
        if left[i] != right[i] {
            return left[i] < right[i];
        }
        i += 1;
    }
    false
}

impl SortKey {
    fn before(&self, other: &SortKey) -> (before: bool)
        ensures
            before == self@.before(other@),
    {
        if list_before(&self.list, &other.list) {
            true
        } else {
            !list_before(&other.list, &self.list) && self.last < other.last
        }
    }
}

/// The indices of an order.
pub open spec fn places(order: Seq<usize>) -> Seq<int> {
    Seq::new(order.len(), |i: int| order[i] as int)
}

fn key_order(keys: &Vec<SortKey>) -> (result: Vec<usize>)
    ensures
        places(result@) == list_order(key_views(keys@), keys@.len()),
        result.len() == keys.len(),
        forall|i: int| 0 <= i < result.len() ==> (#[trigger] result@[i]) < keys.len(),
{
    let ghost all = key_views(keys@);
    let mut result: Vec<usize> = Vec::new();
    let mut i: usize = 0;
    assert(places(result@) =~= list_order(all, 0));
    while i < keys.len()
        invariant
            i <= keys.len(),
            all == key_views(keys@),
            places(result@) == list_order(all, i as nat),
        decreases keys.len() - i,
    {
        let ghost before = list_order(all, i as nat);
        proof {
            lemma_order_ranges(all, i as nat);
        }
        assert(before.len() == i);
        assert(all[i as int] == keys@[i as int]@);
        let mut at: usize = 0;
        while at < result.len()
            invariant_except_break
                place(all, before, i as int, 0) == place(all, before, i as int, at as nat),
            invariant
                i < keys.len(),
                at <= result.len(),
                all == key_views(keys@),
                before == places(result@),
                before == list_order(all, i as nat),
                before.len() == i,
                forall|k: int| 0 <= k < i ==> 0 <= #[trigger] before[k] < i,
            ensures
                place(all, before, i as int, 0) == at,
            decreases result.len() - at,
        {
            assert(before[at as int] == result@[at as int]);
            assert(all[before[at as int]] == keys@[result@[at as int] as int]@);
            assert(all[i as int] == keys@[i as int]@);
            if keys[i].before(&keys[result[at]]) {
                break;
            }
            at += 1;
        }
        result.insert(at, i);
        assert(places(result@) =~= list_order(all, (i + 1) as nat));
        i += 1;
    }
    proof {
        lemma_order_ranges(all, keys@.len());
        assert forall|k: int| 0 <= k < result.len() implies (#[trigger] result@[k])
            < keys.len() by {
            assert(places(result@)[k] == list_order(all, keys@.len())[k]);
        }
    }
    result
}

// ---- distributions ----

/// A run of ranks in a degree sequence.
#[derive(Clone, Copy, Debug, PartialEq, Eq, Structural)]
pub struct DegreeSequenceSegment {
    pub rank_start: u64,
    pub rank_end: u64,
    pub frequency_upper: u64,
}

/// What was surveyed of a list of columns. The values and everything else are
/// given as they are encoded.
#[derive(Debug, PartialEq)]
pub struct ColumnGroupSynopsis {
    pub columns: Vec<u64>,
    pub most_common_values: Vec<Vec<u8>>,
    pub segments: Option<Vec<DegreeSequenceSegment>>,
    pub other: Vec<u8>,
}

/// The value of a [`ColumnGroupSynopsis`].
#[verifier::ext_equal]
pub struct GroupView {
    pub columns: Seq<u64>,
    pub most_common_values: Seq<Seq<u8>>,
    pub segments: Option<Seq<DegreeSequenceSegment>>,
    pub other: Seq<u8>,
}

pub open spec fn bytes_views(items: Seq<Vec<u8>>) -> Seq<Seq<u8>> {
    Seq::new(items.len(), |i: int| items[i]@)
}

pub open spec fn segments_view(segments: Option<Vec<DegreeSequenceSegment>>) -> Option<
    Seq<DegreeSequenceSegment>,
> {
    match segments {
        Some(segments) => Some(segments@),
        None => None,
    }
}

impl View for ColumnGroupSynopsis {
    type V = GroupView;

    open spec fn view(&self) -> GroupView {
        GroupView {
            columns: self.columns@,
            most_common_values: bytes_views(self.most_common_values@),
            segments: segments_view(self.segments),
            other: self.other@,
        }
    }
}

pub open spec fn group_views(groups: Seq<ColumnGroupSynopsis>) -> Seq<GroupView> {
    Seq::new(groups.len(), |i: int| groups[i]@)
}

/// How degrees are spread where a column has one of some values.
#[derive(Debug, PartialEq)]
pub struct PredicateConditionedDegreeSynopsis {
    pub join_columns: Vec<u64>,
    pub predicate_column: u64,
    /// Each value as it is encoded, with what was surveyed where it holds.
    pub values: Vec<(Vec<u8>, Vec<u8>)>,
    pub other: Vec<u8>,
}

/// The value of a [`PredicateConditionedDegreeSynopsis`].
#[verifier::ext_equal]
pub struct ConditionedView {
    pub join_columns: Seq<u64>,
    pub predicate_column: u64,
    pub values: Seq<(Seq<u8>, Seq<u8>)>,
    pub other: Seq<u8>,
}

pub open spec fn pair_views(items: Seq<(Vec<u8>, Vec<u8>)>) -> Seq<(Seq<u8>, Seq<u8>)> {
    Seq::new(items.len(), |i: int| (items[i].0@, items[i].1@))
}

impl View for PredicateConditionedDegreeSynopsis {
    type V = ConditionedView;

    open spec fn view(&self) -> ConditionedView {
        ConditionedView {
            join_columns: self.join_columns@,
            predicate_column: self.predicate_column,
            values: pair_views(self.values@),
            other: self.other@,
        }
    }
}

pub open spec fn conditioned_views(
    conditioned: Seq<PredicateConditionedDegreeSynopsis>,
) -> Seq<ConditionedView> {
    Seq::new(conditioned.len(), |i: int| conditioned[i]@)
}

/// What was surveyed of the values of a table: of each column, of groups of
/// columns, and of some under a condition. A column stands as a group of one.
#[derive(Debug, PartialEq)]
pub struct Distributions {
    pub columns: Vec<ColumnGroupSynopsis>,
    pub column_groups: Vec<ColumnGroupSynopsis>,
    pub predicate_conditioned_degrees: Vec<PredicateConditionedDegreeSynopsis>,
    pub other: Vec<u8>,
}

/// The value of [`Distributions`].
#[verifier::ext_equal]
pub struct DistributionsView {
    pub columns: Seq<GroupView>,
    pub column_groups: Seq<GroupView>,
    pub predicate_conditioned_degrees: Seq<ConditionedView>,
    pub other: Seq<u8>,
}

impl View for Distributions {
    type V = DistributionsView;

    open spec fn view(&self) -> DistributionsView {
        DistributionsView {
            columns: group_views(self.columns@),
            column_groups: group_views(self.column_groups@),
            predicate_conditioned_degrees: conditioned_views(
                self.predicate_conditioned_degrees@,
            ),
            other: self.other@,
        }
    }
}

impl Default for Distributions {
    fn default() -> (distributions: Distributions)
        ensures
            distributions@ == (DistributionsView {
                columns: Seq::empty(),
                column_groups: Seq::empty(),
                predicate_conditioned_degrees: Seq::empty(),
                other: Seq::empty(),
            }),
    {
        let distributions = Distributions {
            columns: Vec::new(),
            column_groups: Vec::new(),
            predicate_conditioned_degrees: Vec::new(),
            other: Vec::new(),
        };
        assert(distributions@.columns =~= Seq::empty());
        assert(distributions@.column_groups =~= Seq::empty());
        assert(distributions@.predicate_conditioned_degrees =~= Seq::empty());
        distributions
    }
}

// ---- canonical form ----

pub open spec fn bytes_keys(items: Seq<Seq<u8>>) -> Seq<ListKey> {
    Seq::new(items.len(), |i: int| ListKey { list: byte_numbers(items[i]), last: 0 })
}

pub open spec fn segment_keys(segments: Seq<DegreeSequenceSegment>) -> Seq<ListKey> {
    Seq::new(
        segments.len(),
        |i: int|
            ListKey {
                list: seq![
                    segments[i].rank_start as int,
                    segments[i].rank_end as int,
                    segments[i].frequency_upper as int,
                ],
                last: 0,
            },
    )
}

pub open spec fn group_keys(groups: Seq<GroupView>) -> Seq<ListKey> {
    Seq::new(groups.len(), |i: int| ListKey { list: numbers(groups[i].columns), last: 0 })
}

pub open spec fn pair_keys(items: Seq<(Seq<u8>, Seq<u8>)>) -> Seq<ListKey> {
    Seq::new(items.len(), |i: int| ListKey { list: byte_numbers(items[i].0), last: 0 })
}

pub open spec fn conditioned_keys(items: Seq<ConditionedView>) -> Seq<ListKey> {
    Seq::new(
        items.len(),
        |i: int|
            ListKey {
                list: numbers(items[i].join_columns),
                last: items[i].predicate_column as int,
            },
    )
}

impl GroupView {
    /// With the values and the segments in order.
    pub open spec fn canonical(self) -> GroupView {
        GroupView {
            most_common_values: by_key(
                self.most_common_values,
                bytes_keys(self.most_common_values),
            ),
            segments: match self.segments {
                Some(segments) => Some(by_key(segments, segment_keys(segments))),
                None => None,
            },
            ..self
        }
    }
}

impl ConditionedView {
    /// With the values in order.
    pub open spec fn canonical(self) -> ConditionedView {
        ConditionedView { values: by_key(self.values, pair_keys(self.values)), ..self }
    }
}

pub open spec fn canonical_groups(groups: Seq<GroupView>) -> Seq<GroupView> {
    by_key(Seq::new(groups.len(), |i: int| groups[i].canonical()), group_keys(groups))
}

pub open spec fn canonical_conditioned(items: Seq<ConditionedView>) -> Seq<ConditionedView> {
    by_key(Seq::new(items.len(), |i: int| items[i].canonical()), conditioned_keys(items))
}

impl DistributionsView {
    /// The same distributions in canonical order.
    pub open spec fn canonical(self) -> DistributionsView {
        DistributionsView {
            columns: canonical_groups(self.columns),
            column_groups: canonical_groups(self.column_groups),
            predicate_conditioned_degrees: canonical_conditioned(
                self.predicate_conditioned_degrees,
            ),
            ..self
        }
    }
}

fn widened(bytes: &Vec<u8>) -> (list: Vec<u64>)
    ensures
        numbers(list@) == byte_numbers(bytes@),
{
    let mut list: Vec<u64> = Vec::new();
    let mut i: usize = 0;
    while i < bytes.len()
        invariant
            i <= bytes.len(),
            list.len() == i,
            forall|k: int| 0 <= k < i ==> #[trigger] list@[k] == bytes@[k],
        decreases bytes.len() - i,
    {
        list.push(bytes[i] as u64);
        i += 1;
    }
    assert(numbers(list@) =~= byte_numbers(bytes@));
    list
}

fn copy_list(list: &Vec<u64>) -> (copy: Vec<u64>)
    ensures
        copy@ == list@,
{
    let mut copy: Vec<u64> = Vec::new();
    let mut i: usize = 0;
    while i < list.len()
        invariant
            i <= list.len(),
            copy@ =~= list@.take(i as int),
        decreases list.len() - i,
    {
        copy.push(list[i]);
        i += 1;
    }
    assert(copy@ =~= list@);
    copy
}

fn same_list(left: &Vec<u64>, right: &Vec<u64>) -> (same: bool)
    ensures
        same == (left@ == right@),
{
    if left.len() != right.len() {
        return false;
    }
    let mut i: usize = 0;
    while i < left.len()
        invariant
            i <= left.len(),
            left.len() == right.len(),
            forall|k: int| 0 <= k < i ==> left@[k] == right@[k],
        decreases left.len() - i,
    {
        if left[i] != right[i] {
            assert(left@[i as int] != right@[i as int]);
            return false;
        }
        i += 1;
    }
    assert(left@ =~= right@);
    true
}

fn canonical_values(items: &Vec<Vec<u8>>) -> (ordered: Vec<Vec<u8>>)
    ensures
        bytes_views(ordered@) == by_key(bytes_views(items@), bytes_keys(bytes_views(items@))),
{
    let ghost all = bytes_views(items@);
    let mut keys: Vec<SortKey> = Vec::new();
    let mut i: usize = 0;
    while i < items.len()
        invariant
            i <= items.len(),
            all == bytes_views(items@),
            keys.len() == i,
            forall|k: int| 0 <= k < i ==> (#[trigger] keys@[k])@ == bytes_keys(all)[k],
        decreases items.len() - i,
    {
        keys.push(SortKey { list: widened(&items[i]), last: 0 });
        i += 1;
    }
    assert(key_views(keys@) =~= bytes_keys(all));
    let order = key_order(&keys);
    let mut ordered: Vec<Vec<u8>> = Vec::new();
    let mut k: usize = 0;
    while k < order.len()
        invariant
            k <= order.len(),
            all == bytes_views(items@),
            order.len() == items.len(),
            forall|j: int| 0 <= j < order.len() ==> (#[trigger] order@[j]) < items.len(),
            ordered.len() == k,
            forall|j: int|
                0 <= j < k ==> (#[trigger] ordered@[j])@ == all[order@[j] as int],
        decreases order.len() - k,
    {
        ordered.push(copy_bytes(&items[order[k]]));
        k += 1;
    }
    proof {
        assert forall|j: int| 0 <= j < order.len() implies (#[trigger] bytes_views(ordered@)[j])
            == by_key(all, bytes_keys(all))[j] by {
            assert(places(order@)[j] == order@[j]);
        }
    }
    assert(bytes_views(ordered@) =~= by_key(all, bytes_keys(all)));
    ordered
}

fn canonical_segments(items: &Vec<DegreeSequenceSegment>) -> (ordered: Vec<DegreeSequenceSegment>)
    ensures
        ordered@ == by_key(items@, segment_keys(items@)),
{
    let mut keys: Vec<SortKey> = Vec::new();
    let mut i: usize = 0;
    while i < items.len()
        invariant
            i <= items.len(),
            keys.len() == i,
            forall|k: int| 0 <= k < i ==> (#[trigger] keys@[k])@ == segment_keys(items@)[k],
        decreases items.len() - i,
    {
        let mut list: Vec<u64> = Vec::new();
        list.push(items[i].rank_start);
        list.push(items[i].rank_end);
        list.push(items[i].frequency_upper);
        assert(numbers(list@) =~= segment_keys(items@)[i as int].list);
        keys.push(SortKey { list, last: 0 });
        i += 1;
    }
    assert(key_views(keys@) =~= segment_keys(items@));
    let order = key_order(&keys);
    let mut ordered: Vec<DegreeSequenceSegment> = Vec::new();
    let mut k: usize = 0;
    while k < order.len()
        invariant
            k <= order.len(),
            order.len() == items.len(),
            forall|j: int| 0 <= j < order.len() ==> (#[trigger] order@[j]) < items.len(),
            ordered.len() == k,
            forall|j: int| 0 <= j < k ==> #[trigger] ordered@[j] == items@[order@[j] as int],
        decreases order.len() - k,
    {
        ordered.push(items[order[k]]);
        k += 1;
    }
    proof {
        assert forall|j: int| 0 <= j < order.len() implies (#[trigger] ordered@[j]) == by_key(
            items@,
            segment_keys(items@),
        )[j] by {
            assert(places(order@)[j] == order@[j]);
        }
    }
    assert(ordered@ =~= by_key(items@, segment_keys(items@)));
    ordered
}

fn canonical_pairs(items: &Vec<(Vec<u8>, Vec<u8>)>) -> (ordered: Vec<(Vec<u8>, Vec<u8>)>)
    ensures
        pair_views(ordered@) == by_key(pair_views(items@), pair_keys(pair_views(items@))),
{
    let ghost all = pair_views(items@);
    let mut keys: Vec<SortKey> = Vec::new();
    let mut i: usize = 0;
    while i < items.len()
        invariant
            i <= items.len(),
            all == pair_views(items@),
            keys.len() == i,
            forall|k: int| 0 <= k < i ==> (#[trigger] keys@[k])@ == pair_keys(all)[k],
        decreases items.len() - i,
    {
        keys.push(SortKey { list: widened(&items[i].0), last: 0 });
        i += 1;
    }
    assert(key_views(keys@) =~= pair_keys(all));
    let order = key_order(&keys);
    let mut ordered: Vec<(Vec<u8>, Vec<u8>)> = Vec::new();
    let mut k: usize = 0;
    while k < order.len()
        invariant
            k <= order.len(),
            all == pair_views(items@),
            order.len() == items.len(),
            forall|j: int| 0 <= j < order.len() ==> (#[trigger] order@[j]) < items.len(),
            ordered.len() == k,
            forall|j: int|
                0 <= j < k ==> ((#[trigger] ordered@[j]).0@, ordered@[j].1@)
                    == all[order@[j] as int],
        decreases order.len() - k,
    {
        let item = &items[order[k]];
        ordered.push((copy_bytes(&item.0), copy_bytes(&item.1)));
        k += 1;
    }
    proof {
        assert forall|j: int| 0 <= j < order.len() implies (#[trigger] pair_views(ordered@)[j])
            == by_key(all, pair_keys(all))[j] by {
            assert(places(order@)[j] == order@[j]);
        }
    }
    assert(pair_views(ordered@) =~= by_key(all, pair_keys(all)));
    ordered
}

fn copy_values(items: &Vec<Vec<u8>>) -> (copy: Vec<Vec<u8>>)
    ensures
        bytes_views(copy@) == bytes_views(items@),
{
    let mut copy: Vec<Vec<u8>> = Vec::new();
    let mut i: usize = 0;
    while i < items.len()
        invariant
            i <= items.len(),
            copy.len() == i,
            forall|k: int| 0 <= k < i ==> (#[trigger] copy@[k])@ == items@[k]@,
        decreases items.len() - i,
    {
        copy.push(copy_bytes(&items[i]));
        i += 1;
    }
    assert(bytes_views(copy@) =~= bytes_views(items@));
    copy
}

fn same_values(left: &Vec<Vec<u8>>, right: &Vec<Vec<u8>>) -> (same: bool)
    ensures
        same == (bytes_views(left@) == bytes_views(right@)),
{
    let ghost (a, b) = (bytes_views(left@), bytes_views(right@));
    if left.len() != right.len() {
        assert(a.len() != b.len());
        return false;
    }
    let mut i: usize = 0;
    while i < left.len()
        invariant
            i <= left.len(),
            left.len() == right.len(),
            a == bytes_views(left@),
            b == bytes_views(right@),
            forall|k: int| 0 <= k < i ==> a[k] == b[k],
        decreases left.len() - i,
    {
        assert(a[i as int] == left@[i as int]@);
        assert(b[i as int] == right@[i as int]@);
        if !same_bytes(&left[i], &right[i]) {
            return false;
        }
        i += 1;
    }
    assert(a =~= b);
    true
}

fn copy_segments(segments: &Option<Vec<DegreeSequenceSegment>>) -> (copy: Option<
    Vec<DegreeSequenceSegment>,
>)
    ensures
        segments_view(copy) == segments_view(*segments),
{
    match segments {
        Some(segments) => {
            let mut copy: Vec<DegreeSequenceSegment> = Vec::new();
            let mut i: usize = 0;
            while i < segments.len()
                invariant
                    i <= segments.len(),
                    copy@ =~= segments@.take(i as int),
                decreases segments.len() - i,
            {
                copy.push(segments[i]);
                i += 1;
            }
            assert(copy@ =~= segments@);
            Some(copy)
        },
        None => None,
    }
}

fn same_runs(left: &Vec<DegreeSequenceSegment>, right: &Vec<DegreeSequenceSegment>) -> (same: bool)
    ensures
        same == (left@ == right@),
{
    if left.len() != right.len() {
        return false;
    }
    let mut i: usize = 0;
    while i < left.len()
        invariant
            i <= left.len(),
            left.len() == right.len(),
            forall|k: int| 0 <= k < i ==> left@[k] == right@[k],
        decreases left.len() - i,
    {
        if !(left[i] == right[i]) {
            assert(left@[i as int] != right@[i as int]);
            return false;
        }
        i += 1;
    }
    assert(left@ =~= right@);
    true
}

fn same_segments(
    left: &Option<Vec<DegreeSequenceSegment>>,
    right: &Option<Vec<DegreeSequenceSegment>>,
) -> (same: bool)
    ensures
        same == (segments_view(*left) == segments_view(*right)),
{
    match (left, right) {
        (None, None) => true,
        (Some(left), Some(right)) => same_runs(left, right),
        _ => false,
    }
}

impl ColumnGroupSynopsis {
    fn copy(&self) -> (group: ColumnGroupSynopsis)
        ensures
            group@ == self@,
    {
        ColumnGroupSynopsis {
            columns: copy_list(&self.columns),
            most_common_values: copy_values(&self.most_common_values),
            segments: copy_segments(&self.segments),
            other: copy_bytes(&self.other),
        }
    }

    fn same(&self, other: &ColumnGroupSynopsis) -> (same: bool)
        ensures
            same == (self@ == other@),
    {
        same_list(&self.columns, &other.columns) && same_values(
            &self.most_common_values,
            &other.most_common_values,
        ) && same_segments(&self.segments, &other.segments) && same_bytes(&self.other, &other.other)
    }

    fn canonical(&self) -> (group: ColumnGroupSynopsis)
        ensures
            group@ == self@.canonical(),
    {
        ColumnGroupSynopsis {
            columns: copy_list(&self.columns),
            most_common_values: canonical_values(&self.most_common_values),
            segments: match &self.segments {
                Some(segments) => Some(canonical_segments(segments)),
                None => None,
            },
            other: copy_bytes(&self.other),
        }
    }
}

impl PredicateConditionedDegreeSynopsis {
    fn copy(&self) -> (conditioned: PredicateConditionedDegreeSynopsis)
        ensures
            conditioned@ == self@,
    {
        let mut values: Vec<(Vec<u8>, Vec<u8>)> = Vec::new();
        let mut i: usize = 0;
        while i < self.values.len()
            invariant
                i <= self.values.len(),
                values.len() == i,
                forall|k: int|
                    0 <= k < i ==> (#[trigger] values@[k]).0@ == self.values@[k].0@ && values@[k].1@
                        == self.values@[k].1@,
            decreases self.values.len() - i,
        {
            values.push((copy_bytes(&self.values[i].0), copy_bytes(&self.values[i].1)));
            i += 1;
        }
        assert(pair_views(values@) =~= pair_views(self.values@));
        PredicateConditionedDegreeSynopsis {
            join_columns: copy_list(&self.join_columns),
            predicate_column: self.predicate_column,
            values,
            other: copy_bytes(&self.other),
        }
    }

    fn same(&self, other: &PredicateConditionedDegreeSynopsis) -> (same: bool)
        ensures
            same == (self@ == other@),
    {
        let ghost (a, b) = (pair_views(self.values@), pair_views(other.values@));
        if self.values.len() != other.values.len() {
            assert(a.len() != b.len());
            return false;
        }
        let mut i: usize = 0;
        while i < self.values.len()
            invariant
                i <= self.values.len(),
                self.values.len() == other.values.len(),
                a == pair_views(self.values@),
                b == pair_views(other.values@),
                forall|k: int| 0 <= k < i ==> a[k] == b[k],
            decreases self.values.len() - i,
        {
            assert(a[i as int] == (self.values@[i as int].0@, self.values@[i as int].1@));
            assert(b[i as int] == (other.values@[i as int].0@, other.values@[i as int].1@));
            if !same_bytes(&self.values[i].0, &other.values[i].0) || !same_bytes(
                &self.values[i].1,
                &other.values[i].1,
            ) {
                assert(a[i as int] != b[i as int]);
                return false;
            }
            i += 1;
        }
        assert(a =~= b);
        same_list(&self.join_columns, &other.join_columns) && self.predicate_column
            == other.predicate_column && same_bytes(&self.other, &other.other)
    }

    fn canonical(&self) -> (conditioned: PredicateConditionedDegreeSynopsis)
        ensures
            conditioned@ == self@.canonical(),
    {
        PredicateConditionedDegreeSynopsis {
            join_columns: copy_list(&self.join_columns),
            predicate_column: self.predicate_column,
            values: canonical_pairs(&self.values),
            other: copy_bytes(&self.other),
        }
    }
}

fn copy_groups(groups: &Vec<ColumnGroupSynopsis>) -> (copy: Vec<ColumnGroupSynopsis>)
    ensures
        group_views(copy@) == group_views(groups@),
{
    let mut copy: Vec<ColumnGroupSynopsis> = Vec::new();
    let mut i: usize = 0;
    while i < groups.len()
        invariant
            i <= groups.len(),
            copy.len() == i,
            forall|k: int| 0 <= k < i ==> (#[trigger] copy@[k])@ == groups@[k]@,
        decreases groups.len() - i,
    {
        copy.push(groups[i].copy());
        i += 1;
    }
    assert(group_views(copy@) =~= group_views(groups@));
    copy
}

fn same_groups(left: &Vec<ColumnGroupSynopsis>, right: &Vec<ColumnGroupSynopsis>) -> (same: bool)
    ensures
        same == (group_views(left@) == group_views(right@)),
{
    let ghost (a, b) = (group_views(left@), group_views(right@));
    if left.len() != right.len() {
        assert(a.len() != b.len());
        return false;
    }
    let mut i: usize = 0;
    while i < left.len()
        invariant
            i <= left.len(),
            left.len() == right.len(),
            a == group_views(left@),
            b == group_views(right@),
            forall|k: int| 0 <= k < i ==> a[k] == b[k],
        decreases left.len() - i,
    {
        assert(a[i as int] == left@[i as int]@);
        assert(b[i as int] == right@[i as int]@);
        if !left[i].same(&right[i]) {
            return false;
        }
        i += 1;
    }
    assert(a =~= b);
    true
}

fn order_groups(groups: &Vec<ColumnGroupSynopsis>) -> (ordered: Vec<ColumnGroupSynopsis>)
    ensures
        group_views(ordered@) == canonical_groups(group_views(groups@)),
{
    let ghost all = group_views(groups@);
    let ghost forms = Seq::new(all.len(), |i: int| all[i].canonical());
    let mut keys: Vec<SortKey> = Vec::new();
    let mut i: usize = 0;
    while i < groups.len()
        invariant
            i <= groups.len(),
            all == group_views(groups@),
            keys.len() == i,
            forall|k: int| 0 <= k < i ==> (#[trigger] keys@[k])@ == group_keys(all)[k],
        decreases groups.len() - i,
    {
        keys.push(SortKey { list: copy_list(&groups[i].columns), last: 0 });
        i += 1;
    }
    assert(key_views(keys@) =~= group_keys(all));
    let order = key_order(&keys);
    let mut ordered: Vec<ColumnGroupSynopsis> = Vec::new();
    let mut k: usize = 0;
    while k < order.len()
        invariant
            k <= order.len(),
            all == group_views(groups@),
            forms == Seq::new(all.len(), |i: int| all[i].canonical()),
            order.len() == groups.len(),
            forall|j: int| 0 <= j < order.len() ==> (#[trigger] order@[j]) < groups.len(),
            ordered.len() == k,
            forall|j: int| 0 <= j < k ==> (#[trigger] ordered@[j])@ == forms[order@[j] as int],
        decreases order.len() - k,
    {
        assert(all[order@[k as int] as int] == groups@[order@[k as int] as int]@);
        ordered.push(groups[order[k]].canonical());
        k += 1;
    }
    proof {
        assert forall|j: int| 0 <= j < order.len() implies (#[trigger] group_views(ordered@)[j])
            == by_key(forms, group_keys(all))[j] by {
            assert(places(order@)[j] == order@[j]);
        }
    }
    assert(group_views(ordered@) =~= canonical_groups(all));
    ordered
}

fn copy_conditioned(items: &Vec<PredicateConditionedDegreeSynopsis>) -> (copy: Vec<
    PredicateConditionedDegreeSynopsis,
>)
    ensures
        conditioned_views(copy@) == conditioned_views(items@),
{
    let mut copy: Vec<PredicateConditionedDegreeSynopsis> = Vec::new();
    let mut i: usize = 0;
    while i < items.len()
        invariant
            i <= items.len(),
            copy.len() == i,
            forall|k: int| 0 <= k < i ==> (#[trigger] copy@[k])@ == items@[k]@,
        decreases items.len() - i,
    {
        copy.push(items[i].copy());
        i += 1;
    }
    assert(conditioned_views(copy@) =~= conditioned_views(items@));
    copy
}

fn same_conditioned(
    left: &Vec<PredicateConditionedDegreeSynopsis>,
    right: &Vec<PredicateConditionedDegreeSynopsis>,
) -> (same: bool)
    ensures
        same == (conditioned_views(left@) == conditioned_views(right@)),
{
    let ghost (a, b) = (conditioned_views(left@), conditioned_views(right@));
    if left.len() != right.len() {
        assert(a.len() != b.len());
        return false;
    }
    let mut i: usize = 0;
    while i < left.len()
        invariant
            i <= left.len(),
            left.len() == right.len(),
            a == conditioned_views(left@),
            b == conditioned_views(right@),
            forall|k: int| 0 <= k < i ==> a[k] == b[k],
        decreases left.len() - i,
    {
        assert(a[i as int] == left@[i as int]@);
        assert(b[i as int] == right@[i as int]@);
        if !left[i].same(&right[i]) {
            return false;
        }
        i += 1;
    }
    assert(a =~= b);
    true
}

fn order_conditioned(items: &Vec<PredicateConditionedDegreeSynopsis>) -> (ordered: Vec<
    PredicateConditionedDegreeSynopsis,
>)
    ensures
        conditioned_views(ordered@) == canonical_conditioned(conditioned_views(items@)),
{
    let ghost all = conditioned_views(items@);
    let ghost forms = Seq::new(all.len(), |i: int| all[i].canonical());
    let mut keys: Vec<SortKey> = Vec::new();
    let mut i: usize = 0;
    while i < items.len()
        invariant
            i <= items.len(),
            all == conditioned_views(items@),
            keys.len() == i,
            forall|k: int| 0 <= k < i ==> (#[trigger] keys@[k])@ == conditioned_keys(all)[k],
        decreases items.len() - i,
    {
        keys.push(
            SortKey {
                list: copy_list(&items[i].join_columns),
                last: items[i].predicate_column,
            },
        );
        i += 1;
    }
    assert(key_views(keys@) =~= conditioned_keys(all));
    let order = key_order(&keys);
    let mut ordered: Vec<PredicateConditionedDegreeSynopsis> = Vec::new();
    let mut k: usize = 0;
    while k < order.len()
        invariant
            k <= order.len(),
            all == conditioned_views(items@),
            forms == Seq::new(all.len(), |i: int| all[i].canonical()),
            order.len() == items.len(),
            forall|j: int| 0 <= j < order.len() ==> (#[trigger] order@[j]) < items.len(),
            ordered.len() == k,
            forall|j: int| 0 <= j < k ==> (#[trigger] ordered@[j])@ == forms[order@[j] as int],
        decreases order.len() - k,
    {
        assert(all[order@[k as int] as int] == items@[order@[k as int] as int]@);
        ordered.push(items[order[k]].canonical());
        k += 1;
    }
    proof {
        assert forall|j: int|
            0 <= j < order.len() implies (#[trigger] conditioned_views(ordered@)[j]) == by_key(
            forms,
            conditioned_keys(all),
        )[j] by {
            assert(places(order@)[j] == order@[j]);
        }
    }
    assert(conditioned_views(ordered@) =~= canonical_conditioned(all));
    ordered
}

impl Distributions {
    /// A copy of distributions.
    pub fn copy(&self) -> (distributions: Distributions)
        ensures
            distributions@ == self@,
    {
        Distributions {
            columns: copy_groups(&self.columns),
            column_groups: copy_groups(&self.column_groups),
            predicate_conditioned_degrees: copy_conditioned(&self.predicate_conditioned_degrees),
            other: copy_bytes(&self.other),
        }
    }

    /// Whether two distributions are the same.
    pub fn same(&self, other: &Distributions) -> (same: bool)
        ensures
            same == (self@ == other@),
    {
        same_groups(&self.columns, &other.columns) && same_groups(
            &self.column_groups,
            &other.column_groups,
        ) && same_conditioned(
            &self.predicate_conditioned_degrees,
            &other.predicate_conditioned_degrees,
        ) && same_bytes(&self.other, &other.other)
    }

    /// The same distributions in canonical order, so that what is the same reads
    /// the same.
    pub fn canonical(&self) -> (distributions: Distributions)
        ensures
            distributions@ == self@.canonical(),
    {
        Distributions {
            columns: order_groups(&self.columns),
            column_groups: order_groups(&self.column_groups),
            predicate_conditioned_degrees: order_conditioned(&self.predicate_conditioned_degrees),
            other: copy_bytes(&self.other),
        }
    }
}

// ---- what the order promises ----

proof fn lemma_lex_asymmetric(left: Seq<int>, right: Seq<int>, from: nat)
    ensures
        !(lex(left, right, from) && lex(right, left, from)),
    decreases right.len() - from,
{
    if from < right.len() && from < left.len() {
        lemma_lex_asymmetric(left, right, from + 1);
    }
}

proof fn lemma_not_after_chains(a: Seq<int>, b: Seq<int>, c: Seq<int>, from: nat)
    requires
        !lex(b, a, from),
        !lex(c, b, from),
    ensures
        !lex(c, a, from),
        lex(a, b, from) ==> lex(a, c, from),
        lex(b, c, from) ==> lex(a, c, from),
    decreases a.len() + b.len() + c.len() - 3 * from,
{
    if from < a.len() && from < b.len() && from < c.len() && a[from as int] == b[from as int]
        && b[from as int] == c[from as int] {
        lemma_not_after_chains(a, b, c, from + 1);
    }
}

/// An order by key is in order: no item comes before one whose key is smaller.
pub proof fn lists_come_in_order(keys: Seq<ListKey>, length: nat, early: int, late: int)
    requires
        length <= keys.len(),
        0 <= early < late < length,
    ensures
        !keys[list_order(keys, length)[late]].before(keys[list_order(keys, length)[early]]),
    decreases length,
{
    let before = list_order(keys, (length - 1) as nat);
    let after = list_order(keys, length);
    let item = length - 1;
    lemma_order_ranges(keys, (length - 1) as nat);
    lemma_order_ranges(keys, length);
    lemma_place(keys, before, item, 0);
    let at = place(keys, before, item, 0) as int;
    if late == at {
        assert(after[early] == before[early]);
        assert(!keys[item].before(keys[before[early]]));
    } else if early == at {
        assert(after[late] == before[late - 1]);
        let next = keys[before[at]];
        let far = keys[before[late - 1]];
        assert(keys[item].before(next));
        if late - 1 > at {
            lists_come_in_order(keys, (length - 1) as nat, at, late - 1);
            lemma_key_chain(keys[item], next, far);
        } else {
            lemma_key_asymmetric(keys[item], next);
        }
    } else {
        let a = if early < at {
            early
        } else {
            early - 1
        };
        let b = if late < at {
            late
        } else {
            late - 1
        };
        assert(after[early] == before[a]);
        assert(after[late] == before[b]);
        lists_come_in_order(keys, (length - 1) as nat, a, b);
    }
}

proof fn lemma_key_asymmetric(left: ListKey, right: ListKey)
    ensures
        !(left.before(right) && right.before(left)),
{
    lemma_lex_asymmetric(left.list, right.list, 0);
}

proof fn lemma_key_chain(first: ListKey, second: ListKey, third: ListKey)
    requires
        first.before(second),
        !third.before(second),
    ensures
        !third.before(first),
{
    lemma_key_asymmetric(first, second);
    lemma_lex_asymmetric(first.list, second.list, 0);
    lemma_lex_asymmetric(second.list, third.list, 0);
    lemma_lex_asymmetric(first.list, third.list, 0);
    lemma_not_after_chains(first.list, second.list, third.list, 0);
}

/// An order by key holds each item once.
pub proof fn lists_lose_nothing(keys: Seq<ListKey>, length: nat, item: int)
    requires
        0 <= item < length,
    ensures
        list_order(keys, length).contains(item),
        list_order(keys, length).len() == length,
    decreases length,
{
    lemma_order_ranges(keys, (length - 1) as nat);
    lemma_order_ranges(keys, length);
    let before = list_order(keys, (length - 1) as nat);
    let after = list_order(keys, length);
    lemma_place(keys, before, length - 1, 0);
    let at = place(keys, before, length - 1, 0) as int;
    if item == length - 1 {
        assert(after[at] == item);
    } else {
        lists_lose_nothing(keys, (length - 1) as nat, item);
        let i = choose|i: int| 0 <= i < before.len() && before[i] == item;
        if i < at {
            assert(after[i] == item);
        } else {
            assert(after[i + 1] == item);
        }
    }
}

} // verus!
