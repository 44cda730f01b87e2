//! What the backend costs: calibration from its cumulative telemetry.

use vstd::prelude::*;

use crate::scheduler::histogram;
use crate::scheduler::histogram::{HistogramView, Log2Histogram};
use crate::text::same_text;

verus! {

/// Which backend reports, and in which format.
#[derive(Debug, PartialEq)]
pub struct PhysicalTelemetryIdentity {
    pub backend: String,
    pub format: u32,
}

/// What a backend can report.
#[derive(Clone, Copy, Debug, PartialEq, Eq, Structural)]
pub struct PhysicalTelemetryCapabilities {
    pub request_latency: bool,
    pub request_bytes: bool,
    pub cache_tiers: bool,
}

/// Kinds of backend requests, in order.
#[derive(Clone, Copy, Debug, PartialEq, Eq, Structural)]
pub enum PhysicalRequestClass {
    Read,
    RangeRead,
    Write,
    Delete,
    List,
}

/// Under which conditions a request was made.
#[derive(Clone, Copy, Debug, PartialEq, Eq, Structural)]
pub struct PhysicalRequestCondition {
    pub size_upper_bound: Option<u64>,
    pub concurrency_upper_bound: Option<u64>,
    pub service_tier: Option<u64>,
}

/// Where a cache is held, in order.
#[derive(Clone, Copy, Debug, PartialEq, Eq, Structural)]
pub enum PhysicalCacheTier {
    Memory,
    Disk,
}

/// How often values up to each boundary were seen since the backend started.
#[derive(Debug, PartialEq)]
pub struct CumulativeHistogram {
    pub boundaries: Vec<u64>,
    pub bucket_counts: Vec<u64>,
    pub count: u64,
    pub maximum: u64,
}

/// What a backend reports of one kind of request.
#[derive(Debug, PartialEq)]
pub struct PhysicalRequestSnapshot {
    pub class: PhysicalRequestClass,
    pub condition: PhysicalRequestCondition,
    pub requests: u64,
    pub errors: u64,
    pub latency_micros: Option<CumulativeHistogram>,
    pub bytes: Option<CumulativeHistogram>,
}

/// What a backend reports of one cache.
#[derive(Clone, Copy, Debug, PartialEq, Eq, Structural)]
pub struct PhysicalCacheSnapshot {
    pub tier: PhysicalCacheTier,
    pub accesses: u64,
    pub hits: u64,
}

/// What a backend reports.
#[derive(Debug, PartialEq)]
pub struct PhysicalTelemetrySnapshot {
    pub identity: PhysicalTelemetryIdentity,
    pub capabilities: PhysicalTelemetryCapabilities,
    pub requests: Vec<PhysicalRequestSnapshot>,
    pub caches: Vec<PhysicalCacheSnapshot>,
}

// ---- values ----

/// The value of a [`PhysicalTelemetryIdentity`].
pub struct IdentityView {
    pub backend: Seq<char>,
    pub format: u32,
}

/// The value of a [`CumulativeHistogram`].
#[verifier::ext_equal]
pub struct CumulativeView {
    pub boundaries: Seq<u64>,
    pub bucket_counts: Seq<u64>,
    pub count: u64,
    pub maximum: u64,
}

/// The value of a [`PhysicalRequestSnapshot`].
#[verifier::ext_equal]
pub struct RequestView {
    pub class: PhysicalRequestClass,
    pub condition: PhysicalRequestCondition,
    pub requests: u64,
    pub errors: u64,
    pub latency_micros: Option<CumulativeView>,
    pub bytes: Option<CumulativeView>,
}

/// The value of a [`PhysicalTelemetrySnapshot`].
#[verifier::ext_equal]
pub struct SnapshotView {
    pub identity: IdentityView,
    pub capabilities: PhysicalTelemetryCapabilities,
    pub requests: Seq<RequestView>,
    pub caches: Seq<PhysicalCacheSnapshot>,
}

impl View for PhysicalTelemetryIdentity {
    type V = IdentityView;

    open spec fn view(&self) -> IdentityView {
        IdentityView { backend: self.backend@, format: self.format }
    }
}

impl View for CumulativeHistogram {
    type V = CumulativeView;

    open spec fn view(&self) -> CumulativeView {
        CumulativeView {
            boundaries: self.boundaries@,
            bucket_counts: self.bucket_counts@,
            count: self.count,
            maximum: self.maximum,
        }
    }
}

pub open spec fn cumulative_option(histogram: Option<CumulativeHistogram>) -> Option<
    CumulativeView,
> {
    match histogram {
        Some(histogram) => Some(histogram@),
        None => None,
    }
}

impl View for PhysicalRequestSnapshot {
    type V = RequestView;

    open spec fn view(&self) -> RequestView {
        RequestView {
            class: self.class,
            condition: self.condition,
            requests: self.requests,
            errors: self.errors,
            latency_micros: cumulative_option(self.latency_micros),
            bytes: cumulative_option(self.bytes),
        }
    }
}

pub open spec fn request_views(requests: Seq<PhysicalRequestSnapshot>) -> Seq<RequestView> {
    Seq::new(requests.len(), |i: int| requests[i]@)
}

impl View for PhysicalTelemetrySnapshot {
    type V = SnapshotView;

    open spec fn view(&self) -> SnapshotView {
        SnapshotView {
            identity: self.identity@,
            capabilities: self.capabilities,
            requests: request_views(self.requests@),
            caches: self.caches@,
        }
    }
}

fn copy_counts(counts: &Vec<u64>) -> (copy: Vec<u64>)
    ensures
        copy@ == counts@,
{
    let mut copy: Vec<u64> = Vec::new();
    let mut i: usize = 0;
    while i < counts.len()
        invariant
            i <= counts.len(),
            copy@ =~= counts@.take(i as int),
        decreases counts.len() - i,
    {
        copy.push(counts[i]);
        i += 1;
    }
    assert(copy@ =~= counts@);
    copy
}

fn same_counts(left: &Vec<u64>, right: &Vec<u64>) -> (same: bool)
    ensures
        same == (left@ == right@),
{
    if left.len() != right.len() {
        return false;
    }
    let mut i: usize = 0;
    while i < left.len()
        invariant
            i <= left.len(),
            left.len() == right.len(),
            forall|k: int| 0 <= k < i ==> left@[k] == right@[k],
        decreases left.len() - i,
    {
        if left[i] != right[i] {
            assert(left@[i as int] != right@[i as int]);
            return false;
        }
        i += 1;
    }
    assert(left@ =~= right@);
    true
}

fn copy_cumulative(histogram: &Option<CumulativeHistogram>) -> (copy: Option<CumulativeHistogram>)
    ensures
        cumulative_option(copy) == cumulative_option(*histogram),
{
    match histogram {
        Some(histogram) => Some(
            CumulativeHistogram {
                boundaries: copy_counts(&histogram.boundaries),
                bucket_counts: copy_counts(&histogram.bucket_counts),
                count: histogram.count,
                maximum: histogram.maximum,
            },
        ),
        None => None,
    }
}

fn copy_requests(requests: &Vec<PhysicalRequestSnapshot>) -> (copy: Vec<PhysicalRequestSnapshot>)
    ensures
        request_views(copy@) == request_views(requests@),
        copy.len() == requests.len(),
{
    let mut copy: Vec<PhysicalRequestSnapshot> = Vec::new();
    let mut i: usize = 0;
    while i < requests.len()
        invariant
            i <= requests.len(),
            copy.len() == i,
            forall|k: int| 0 <= k < i ==> (#[trigger] copy@[k])@ == requests@[k]@,
        decreases requests.len() - i,
    {
        let request = &requests[i];
        copy.push(
            PhysicalRequestSnapshot {
                class: request.class,
                condition: request.condition,
                requests: request.requests,
                errors: request.errors,
                latency_micros: copy_cumulative(&request.latency_micros),
                bytes: copy_cumulative(&request.bytes),
            },
        );
        i += 1;
    }
    assert(request_views(copy@) =~= request_views(requests@));
    copy
}

// ---- keys ----

pub open spec fn class_rank(class: PhysicalRequestClass) -> int {
    match class {
        PhysicalRequestClass::Read => 0,
        PhysicalRequestClass::RangeRead => 1,
        PhysicalRequestClass::Write => 2,
        PhysicalRequestClass::Delete => 3,
        PhysicalRequestClass::List => 4,
    }
}

/// The place of an optional bound in order: none comes first.
pub open spec fn bound_rank(bound: Option<u64>) -> int {
    match bound {
        Some(bound) => bound as int,
        None => -1,
    }
}

/// Whether one kind of request is ordered before another: by class, then by
/// the bounds of its condition.
pub open spec fn key_before(
    left: (PhysicalRequestClass, PhysicalRequestCondition),
    right: (PhysicalRequestClass, PhysicalRequestCondition),
) -> bool {
    let (a, b) = (class_rank(left.0), class_rank(right.0));
    let (c, d) = (bound_rank(left.1.size_upper_bound), bound_rank(right.1.size_upper_bound));
    let (e, f) = (
        bound_rank(left.1.concurrency_upper_bound),
        bound_rank(right.1.concurrency_upper_bound),
    );
    let (g, h) = (bound_rank(left.1.service_tier), bound_rank(right.1.service_tier));
    a < b || a == b && (c < d || c == d && (e < f || e == f && g < h))
}

fn class_place(class: PhysicalRequestClass) -> (place: u64)
    ensures
        place == class_rank(class),
{
    match class {
        PhysicalRequestClass::Read => 0,
        PhysicalRequestClass::RangeRead => 1,
        PhysicalRequestClass::Write => 2,
        PhysicalRequestClass::Delete => 3,
        PhysicalRequestClass::List => 4,
    }
}

fn bound_place(bound: Option<u64>) -> (place: i128)
    ensures
        place == bound_rank(bound),
{
    match bound {
        Some(bound) => bound as i128,
        None => -1,
    }
}

fn is_before(
    left: (PhysicalRequestClass, PhysicalRequestCondition),
    right: (PhysicalRequestClass, PhysicalRequestCondition),
) -> (before: bool)
    ensures
        before == key_before(left, right),
{
    let a: u64 = class_place(left.0);
    let b: u64 = class_place(right.0);
    if a != b {
        return a < b;
    }
    let c: i128 = bound_place(left.1.size_upper_bound);
    let d: i128 = bound_place(right.1.size_upper_bound);
    if c != d {
        return c < d;
    }
    let e: i128 = bound_place(left.1.concurrency_upper_bound);
    let f: i128 = bound_place(right.1.concurrency_upper_bound);
    if e != f {
        return e < f;
    }
    bound_place(left.1.service_tier) < bound_place(right.1.service_tier)
}

// ---- calibration ----

/// What was learned of one kind of request.
#[derive(Clone, Copy, Debug, PartialEq)]
pub struct PhysicalRequestCalibration {
    pub class: PhysicalRequestClass,
    pub condition: PhysicalRequestCondition,
    pub observed_requests: u64,
    pub errors: u64,
    pub latency_micros: Log2Histogram,
    pub bytes: Log2Histogram,
}

/// The value of a [`PhysicalRequestCalibration`].
#[verifier::ext_equal]
pub struct CalibrationView {
    pub class: PhysicalRequestClass,
    pub condition: PhysicalRequestCondition,
    pub observed_requests: u64,
    pub errors: u64,
    pub latency_micros: HistogramView,
    pub bytes: HistogramView,
}

impl View for PhysicalRequestCalibration {
    type V = CalibrationView;

    open spec fn view(&self) -> CalibrationView {
        CalibrationView {
            class: self.class,
            condition: self.condition,
            observed_requests: self.observed_requests,
            errors: self.errors,
            latency_micros: self.latency_micros@,
            bytes: self.bytes@,
        }
    }
}

pub open spec fn calibration_views(calibrations: Seq<PhysicalRequestCalibration>) -> Seq<
    CalibrationView,
> {
    Seq::new(calibrations.len(), |i: int| calibrations[i]@)
}

/// What was learned of one cache.
#[derive(Clone, Copy, Debug, PartialEq, Eq, Structural)]
pub struct PhysicalCacheCalibration {
    pub tier: PhysicalCacheTier,
    pub accesses: u64,
    pub hits: u64,
}

/// What was learned of a backend from the differences of its reports.
#[derive(Debug, PartialEq)]
pub struct PhysicalCostRegistry {
    pub identity: Option<PhysicalTelemetryIdentity>,
    pub capabilities: PhysicalTelemetryCapabilities,
    pub previous: Option<PhysicalTelemetrySnapshot>,
    pub requests: Vec<PhysicalRequestCalibration>,
    pub caches: Vec<PhysicalCacheCalibration>,
}

/// The value of a [`PhysicalCostRegistry`].
#[verifier::ext_equal]
pub struct CostView {
    pub identity: Option<IdentityView>,
    pub capabilities: PhysicalTelemetryCapabilities,
    pub previous: Option<SnapshotView>,
    pub requests: Seq<CalibrationView>,
    pub caches: Seq<PhysicalCacheCalibration>,
}

impl View for PhysicalCostRegistry {
    type V = CostView;

    open spec fn view(&self) -> CostView {
        CostView {
            identity: match self.identity {
                Some(identity) => Some(identity@),
                None => None,
            },
            capabilities: self.capabilities,
            previous: match self.previous {
                Some(previous) => Some(previous@),
                None => None,
            },
            requests: calibration_views(self.requests@),
            caches: self.caches@,
        }
    }
}

impl Default for PhysicalCostRegistry {
    fn default() -> (registry: PhysicalCostRegistry)
        ensures
            registry@ == (CostView {
                identity: None,
                capabilities: PhysicalTelemetryCapabilities {
                    request_latency: false,
                    request_bytes: false,
                    cache_tiers: false,
                },
                previous: None,
                requests: Seq::empty(),
                caches: Seq::empty(),
            }),
    {
        let registry = PhysicalCostRegistry {
            identity: None,
            capabilities: PhysicalTelemetryCapabilities {
                request_latency: false,
                request_bytes: false,
                cache_tiers: false,
            },
            previous: None,
            requests: Vec::new(),
            caches: Vec::new(),
        };
        assert(registry@.requests =~= Seq::empty());
        registry
    }
}

/// The sum of counts, up to the maximum.
pub open spec fn counted(counts: Seq<u64>) -> u64
    decreases counts.len(),
{
    if counts.len() == 0 {
        0
    } else {
        counted(counts.drop_last()).saturating_add(counts.last())
    }
}

/// Whether a histogram is whole: one bucket more than boundaries, and buckets
/// that add up to the count.
pub open spec fn is_valid(histogram: CumulativeView) -> bool {
    &&& histogram.bucket_counts.len() == (histogram.boundaries.len() as usize).saturating_add(1)
    &&& counted(histogram.bucket_counts) == histogram.count
}

fn histogram_is_valid(histogram: &CumulativeHistogram) -> (valid: bool)
    ensures
        valid == is_valid(histogram@),
{
    let mut sum: u64 = 0;
    let mut i: usize = 0;
    assert(histogram.bucket_counts@.take(0) =~= Seq::empty());
    while i < histogram.bucket_counts.len()
        invariant
            i <= histogram.bucket_counts.len(),
            sum == counted(histogram.bucket_counts@.take(i as int)),
        decreases histogram.bucket_counts.len() - i,
    {
        proof {
            assert(histogram.bucket_counts@.take(i + 1).drop_last()
                =~= histogram.bucket_counts@.take(i as int));
        }
        sum = sum.saturating_add(histogram.bucket_counts[i]);
        i += 1;
    }
    assert(histogram.bucket_counts@.take(i as int) =~= histogram.bucket_counts@);
    histogram.bucket_counts.len() == histogram.boundaries.len().saturating_add(1) && sum
        == histogram.count
}

/// A histogram after what was added to the first buckets of a cumulative one
/// since an earlier report.
pub open spec fn delta_recorded(
    output: HistogramView,
    current: CumulativeView,
    previous: Option<CumulativeView>,
    length: nat,
) -> HistogramView
    decreases length,
{
    if length == 0 {
        output
    } else {
        let before = delta_recorded(output, current, previous, (length - 1) as nat);
        let i = length - 1;
        let earlier = match previous {
            Some(previous) => previous.bucket_counts[i],
            None => 0,
        };
        let delta = current.bucket_counts[i].saturating_sub(earlier);
        if delta == 0 {
            before
        } else {
            before.recorded(
                if i < current.boundaries.len() {
                    current.boundaries[i]
                } else {
                    current.maximum
                },
                delta,
            )
        }
    }
}

fn record_histogram_delta(
    output: &mut Log2Histogram,
    current: &CumulativeHistogram,
    previous: Option<&CumulativeHistogram>,
)
    requires
        previous matches Some(previous) ==> previous.bucket_counts.len()
            == current.bucket_counts.len(),
    ensures
        final(output)@ == delta_recorded(
            old(output)@,
            current@,
            match previous {
                Some(previous) => Some(previous@),
                None => None,
            },
            current.bucket_counts@.len(),
        ),
{
    let ghost before = output@;
    let ghost earlier_view = match previous {
        Some(previous) => Some(previous@),
        None => None,
    };
    let mut i: usize = 0;
    while i < current.bucket_counts.len()
        invariant
            i <= current.bucket_counts.len(),
            previous matches Some(previous) ==> previous.bucket_counts.len()
                == current.bucket_counts.len(),
            earlier_view == (match previous {
                Some(previous) => Some(previous@),
                None => None,
            }),
            output@ == delta_recorded(before, current@, earlier_view, i as nat),
        decreases current.bucket_counts.len() - i,
    {
        let earlier: u64 = match previous {
            Some(previous) => previous.bucket_counts[i],
            None => 0,
        };
        let delta: u64 = current.bucket_counts[i].saturating_sub(earlier);
        if delta != 0 {
            let bound: u64 = if i < current.boundaries.len() {
                current.boundaries[i]
            } else {
                current.maximum
            };
            output.record_many(bound, delta);
        }
        i += 1;
    }
}

/// Whether a report of a histogram can be used.
pub open spec fn usable(histogram: Option<CumulativeView>) -> bool {
    histogram is Some && is_valid(histogram->0)
}

/// What a report adds to what was learned: what is new since an earlier report
/// of the same buckets, or all of it where the request itself is new.
pub open spec fn observed_histogram(
    output: HistogramView,
    current: Option<CumulativeView>,
    previous: Option<CumulativeView>,
    request_is_new: bool,
) -> HistogramView {
    if !usable(current) {
        output
    } else if usable(previous) {
        if previous->0.boundaries == current->0.boundaries && previous->0.bucket_counts.len()
            == current->0.bucket_counts.len() {
            delta_recorded(output, current->0, previous, current->0.bucket_counts.len())
        } else {
            output
        }
    } else if request_is_new {
        delta_recorded(output, current->0, None, current->0.bucket_counts.len())
    } else {
        output
    }
}

/// The report to compare the next one with: the last one that could be used.
pub open spec fn kept_histogram(
    next: Option<CumulativeView>,
    current: Option<CumulativeView>,
    previous: Option<CumulativeView>,
) -> Option<CumulativeView> {
    if usable(current) {
        next
    } else {
        previous
    }
}

fn observe_histogram(
    output: &mut Log2Histogram,
    next: &mut Option<CumulativeHistogram>,
    current: &Option<CumulativeHistogram>,
    previous: &Option<CumulativeHistogram>,
    request_is_new: bool,
)
    ensures
        final(output)@ == observed_histogram(
            old(output)@,
            cumulative_option(*current),
            cumulative_option(*previous),
            request_is_new,
        ),
        cumulative_option(*final(next)) == kept_histogram(
            cumulative_option(*old(next)),
            cumulative_option(*current),
            cumulative_option(*previous),
        ),
{
    let valid = match current {
        Some(current) => histogram_is_valid(current),
        None => false,
    };
    if !valid {
        *next = copy_cumulative(previous);
        return;
    }
    if let Some(current) = current {
        let mut compared = false;
        if let Some(previous) = previous {
            if histogram_is_valid(previous) {
                compared = true;
                if same_counts(&previous.boundaries, &current.boundaries)
                    && previous.bucket_counts.len() == current.bucket_counts.len() {
                    record_histogram_delta(output, current, Some(previous));
                }
            }
        }
        if !compared && request_is_new {
            record_histogram_delta(output, current, None);
        }
    }
}

/// The first report of a kind of request.
pub open spec fn request_index(
    requests: Seq<RequestView>,
    class: PhysicalRequestClass,
    condition: PhysicalRequestCondition,
) -> Option<int>
    decreases requests.len(),
{
    if requests.len() == 0 {
        None
    } else {
        match request_index(requests.drop_last(), class, condition) {
            Some(i) => Some(i),
            None => if requests.last().class == class && requests.last().condition == condition {
                Some(requests.len() - 1)
            } else {
                None
            },
        }
    }
}

fn find_request(
    requests: &Vec<PhysicalRequestSnapshot>,
    class: PhysicalRequestClass,
    condition: PhysicalRequestCondition,
) -> (index: Option<usize>)
    ensures
        request_index(request_views(requests@), class, condition) == (match index {
            Some(i) => Some(i as int),
            None => None,
        }),
        index matches Some(i) ==> i < requests.len(),
{
    let ghost all = request_views(requests@);
    let mut i: usize = 0;
    assert(all.take(0) =~= Seq::empty());
    while i < requests.len()
        invariant
            i <= requests.len(),
            all == request_views(requests@),
            request_index(all.take(i as int), class, condition) is None,
        decreases requests.len() - i,
    {
        proof {
            assert(all.take(i + 1).drop_last() =~= all.take(i as int));
            assert(all.take(i + 1).last() == all[i as int]);
        }
        if requests[i].class == class && requests[i].condition == condition {
            proof {
                lemma_request_index_prefix(all, class, condition, (i + 1) as int);
            }
            return Some(i);
        }
        i += 1;
    }
    assert(all.take(i as int) =~= all);
    None
}

proof fn lemma_request_index_prefix(
    requests: Seq<RequestView>,
    class: PhysicalRequestClass,
    condition: PhysicalRequestCondition,
    i: int,
)
    requires
        0 <= i <= requests.len(),
        request_index(requests.take(i), class, condition) is Some,
    ensures
        request_index(requests, class, condition) == request_index(
            requests.take(i),
            class,
            condition,
        ),
    decreases requests.len() - i,
{
    if i == requests.len() {
        assert(requests.take(i) =~= requests);
    } else {
        assert(requests.take(i + 1).drop_last() =~= requests.take(i));
        lemma_request_index_prefix(requests, class, condition, i + 1);
    }
}

/// How many calibrations are ordered before a kind of request.
pub open spec fn place_of(
    calibrations: Seq<CalibrationView>,
    class: PhysicalRequestClass,
    condition: PhysicalRequestCondition,
    from: nat,
) -> nat
    decreases calibrations.len() - from,
{
    if from < calibrations.len() && key_before(
        (calibrations[from as int].class, calibrations[from as int].condition),
        (class, condition),
    ) {
        place_of(calibrations, class, condition, from + 1)
    } else {
        from
    }
}

/// Calibrations with one for a kind of request, in order.
pub open spec fn entered(
    calibrations: Seq<CalibrationView>,
    class: PhysicalRequestClass,
    condition: PhysicalRequestCondition,
) -> Seq<CalibrationView> {
    let place = place_of(calibrations, class, condition, 0) as int;
    if place < calibrations.len() && calibrations[place].class == class
        && calibrations[place].condition == condition {
        calibrations
    } else {
        calibrations.insert(
            place,
            CalibrationView {
                class,
                condition,
                observed_requests: 0,
                errors: 0,
                latency_micros: HistogramView::empty(),
                bytes: HistogramView::empty(),
            },
        )
    }
}

proof fn lemma_place(
    calibrations: Seq<CalibrationView>,
    class: PhysicalRequestClass,
    condition: PhysicalRequestCondition,
    from: nat,
)
    requires
        from <= calibrations.len(),
    ensures
        from <= place_of(calibrations, class, condition, from) <= calibrations.len(),
    decreases calibrations.len() - from,
{
    if from < calibrations.len() && key_before(
        (calibrations[from as int].class, calibrations[from as int].condition),
        (class, condition),
    ) {
        lemma_place(calibrations, class, condition, from + 1);
    }
}

fn enter(
    calibrations: &mut Vec<PhysicalRequestCalibration>,
    class: PhysicalRequestClass,
    condition: PhysicalRequestCondition,
) -> (place: usize)
    ensures
        calibration_views(final(calibrations)@) == entered(
            calibration_views(old(calibrations)@),
            class,
            condition,
        ),
        place == place_of(calibration_views(old(calibrations)@), class, condition, 0),
        place < final(calibrations).len(),
{
    let ghost all = calibration_views(calibrations@);
    let mut place: usize = 0;
    while place < calibrations.len() && is_before(
        (calibrations[place].class, calibrations[place].condition),
        (class, condition),
    )
        invariant
            place <= calibrations.len(),
            all == calibration_views(calibrations@),
            place_of(all, class, condition, 0) == place_of(all, class, condition, place as nat),
        decreases calibrations.len() - place,
    {
        assert(all[place as int] == calibrations@[place as int]@);
        place += 1;
    }
    if place < calibrations.len() {
        assert(all[place as int] == calibrations@[place as int]@);
    }
    if !(place < calibrations.len() && calibrations[place].class == class
        && calibrations[place].condition == condition) {
        calibrations.insert(
            place,
            PhysicalRequestCalibration {
                class,
                condition,
                observed_requests: 0,
                errors: 0,
                latency_micros: Log2Histogram::default(),
                bytes: Log2Histogram::default(),
            },
        );
        assert(calibration_views(calibrations@) =~= entered(all, class, condition));
    }
    place
}

/// What is known in the middle of comparing two reports.
#[verifier::ext_equal]
pub struct Comparison {
    pub calibrations: Seq<CalibrationView>,
    pub kept: Seq<RequestView>,
    pub changed: bool,
}

/// One kind of request of a report compared with the report before.
pub open spec fn compared_request(
    state: Comparison,
    current: RequestView,
    previous: Seq<RequestView>,
) -> Comparison {
    let earlier = match request_index(previous, current.class, current.condition) {
        Some(i) => Some(previous[i]),
        None => None,
    };
    let requests = current.requests.saturating_sub(
        match earlier {
            Some(earlier) => earlier.requests,
            None => 0,
        },
    );
    let errors = current.errors.saturating_sub(
        match earlier {
            Some(earlier) => earlier.errors,
            None => 0,
        },
    );
    let earlier_latency = match earlier {
        Some(earlier) => earlier.latency_micros,
        None => None,
    };
    let earlier_bytes = match earlier {
        Some(earlier) => earlier.bytes,
        None => None,
    };
    let calibrations = entered(state.calibrations, current.class, current.condition);
    let place = place_of(state.calibrations, current.class, current.condition, 0) as int;
    let calibration = calibrations[place];
    let kept_at = request_index(state.kept, current.class, current.condition)->0;
    let kept = state.kept[kept_at];
    Comparison {
        calibrations: calibrations.update(
            place,
            CalibrationView {
                observed_requests: calibration.observed_requests.saturating_add(requests),
                errors: calibration.errors.saturating_add(errors),
                latency_micros: observed_histogram(
                    calibration.latency_micros,
                    current.latency_micros,
                    earlier_latency,
                    earlier is None,
                ),
                bytes: observed_histogram(
                    calibration.bytes,
                    current.bytes,
                    earlier_bytes,
                    earlier is None,
                ),
                ..calibration
            },
        ),
        kept: state.kept.update(
            kept_at,
            RequestView {
                latency_micros: kept_histogram(
                    kept.latency_micros,
                    current.latency_micros,
                    earlier_latency,
                ),
                bytes: kept_histogram(kept.bytes, current.bytes, earlier_bytes),
                ..kept
            },
        ),
        changed: state.changed || requests > 0 || errors > 0,
    }
}

/// The first kinds of requests of a report compared with the report before.
pub open spec fn compared_requests(
    state: Comparison,
    current: Seq<RequestView>,
    previous: Seq<RequestView>,
) -> Comparison
    decreases current.len(),
{
    if current.len() == 0 {
        state
    } else {
        compared_request(
            compared_requests(state, current.drop_last(), previous),
            current.last(),
            previous,
        )
    }
}

/// The first report of a cache.
pub open spec fn cache_report(
    caches: Seq<PhysicalCacheSnapshot>,
    tier: PhysicalCacheTier,
) -> PhysicalCacheSnapshot
    decreases caches.len(),
{
    if caches.len() == 0 {
        PhysicalCacheSnapshot { tier, accesses: 0, hits: 0 }
    } else if caches.first().tier == tier {
        caches.first()
    } else {
        cache_report(caches.skip(1), tier)
    }
}

pub open spec fn tier_rank(tier: PhysicalCacheTier) -> int {
    match tier {
        PhysicalCacheTier::Memory => 0,
        PhysicalCacheTier::Disk => 1,
    }
}

/// What was learned of caches after more accesses of one, in order.
pub open spec fn cached(
    caches: Seq<PhysicalCacheCalibration>,
    tier: PhysicalCacheTier,
    accesses: u64,
    hits: u64,
) -> Seq<PhysicalCacheCalibration>
    decreases caches.len(),
{
    if caches.len() == 0 || tier_rank(tier) < tier_rank(caches.first().tier) {
        seq![PhysicalCacheCalibration { tier, accesses, hits }] + caches
    } else if caches.first().tier == tier {
        caches.update(
            0,
            PhysicalCacheCalibration {
                tier,
                accesses: caches.first().accesses.saturating_add(accesses),
                hits: caches.first().hits.saturating_add(hits),
            },
        )
    } else {
        seq![caches.first()] + cached(caches.skip(1), tier, accesses, hits)
    }
}

/// The caches of a report compared with the report before.
pub open spec fn compared_caches(
    caches: Seq<PhysicalCacheCalibration>,
    current: Seq<PhysicalCacheSnapshot>,
    previous: Seq<PhysicalCacheSnapshot>,
) -> Seq<PhysicalCacheCalibration>
    decreases current.len(),
{
    if current.len() == 0 {
        caches
    } else {
        let report = current.last();
        let earlier = cache_report(previous, report.tier);
        cached(
            compared_caches(caches, current.drop_last(), previous),
            report.tier,
            report.accesses.saturating_sub(earlier.accesses),
            report.hits.saturating_sub(earlier.hits),
        )
    }
}

/// Whether a cache of a report was used since the report before.
pub open spec fn caches_changed(
    current: Seq<PhysicalCacheSnapshot>,
    previous: Seq<PhysicalCacheSnapshot>,
) -> bool {
    exists|i: int|
        0 <= i < current.len() && ((#[trigger] current[i]).accesses > cache_report(
            previous,
            current[i].tier,
        ).accesses || current[i].hits > cache_report(previous, current[i].tier).hits)
}

/// What is known after a report, and whether it brought anything. The first
/// report of a backend only sets where to count from.
pub open spec fn observed(registry: CostView, snapshot: SnapshotView) -> (CostView, bool) {
    if registry.identity != Some(snapshot.identity) {
        (
            CostView {
                identity: Some(snapshot.identity),
                capabilities: snapshot.capabilities,
                previous: Some(snapshot),
                requests: Seq::empty(),
                caches: Seq::empty(),
            },
            false,
        )
    } else if registry.previous is None {
        (CostView { previous: Some(snapshot), ..registry }, false)
    } else {
        let previous = registry.previous->0;
        let comparison = compared_requests(
            Comparison {
                calibrations: registry.requests,
                kept: snapshot.requests,
                changed: false,
            },
            snapshot.requests,
            previous.requests,
        );
        (
            CostView {
                identity: registry.identity,
                capabilities: snapshot.capabilities,
                previous: Some(SnapshotView { requests: comparison.kept, ..snapshot }),
                requests: comparison.calibrations,
                caches: compared_caches(registry.caches, snapshot.caches, previous.caches),
            },
            comparison.changed || caches_changed(snapshot.caches, previous.caches),
        )
    }
}

proof fn lemma_kept_keys(state: Comparison, current: Seq<RequestView>, previous: Seq<RequestView>)
    requires
        forall|i: int|
            0 <= i < current.len() ==> request_index(
                state.kept,
                (#[trigger] current[i]).class,
                current[i].condition,
            ) is Some,
    ensures
        compared_requests(state, current, previous).kept.len() == state.kept.len(),
        forall|i: int|
            0 <= i < state.kept.len() ==> (#[trigger] compared_requests(
                state,
                current,
                previous,
            ).kept[i]).class == state.kept[i].class && compared_requests(
                state,
                current,
                previous,
            ).kept[i].condition == state.kept[i].condition,
    decreases current.len(),
{
    if current.len() > 0 {
        let shorter = current.drop_last();
        assert forall|i: int| 0 <= i < shorter.len() implies request_index(
            state.kept,
            (#[trigger] shorter[i]).class,
            shorter[i].condition,
        ) is Some by {
            assert(current[i] == shorter[i]);
        }
        lemma_kept_keys(state, shorter, previous);
        let before = compared_requests(state, shorter, previous);
        let last = current.last();
        assert(current[current.len() - 1] == last);
        lemma_same_keys(before.kept, state.kept, last.class, last.condition);
        lemma_index_in_range(state.kept, last.class, last.condition);
    }
}

proof fn lemma_index_in_range(
    requests: Seq<RequestView>,
    class: PhysicalRequestClass,
    condition: PhysicalRequestCondition,
)
    ensures
        request_index(requests, class, condition) matches Some(i) ==> 0 <= i < requests.len()
            && requests[i].class == class && requests[i].condition == condition,
    decreases requests.len(),
{
    if requests.len() > 0 {
        lemma_index_in_range(requests.drop_last(), class, condition);
    }
}

proof fn lemma_same_keys(
    left: Seq<RequestView>,
    right: Seq<RequestView>,
    class: PhysicalRequestClass,
    condition: PhysicalRequestCondition,
)
    requires
        left.len() == right.len(),
        forall|i: int|
            0 <= i < left.len() ==> (#[trigger] left[i]).class == right[i].class
                && left[i].condition == right[i].condition,
    ensures
        request_index(left, class, condition) == request_index(right, class, condition),
    decreases left.len(),
{
    if left.len() > 0 {
        let shorter = left.drop_last();
        let other = right.drop_last();
        assert forall|i: int| 0 <= i < shorter.len() implies (#[trigger] shorter[i]).class
            == other[i].class && shorter[i].condition == other[i].condition by {
            assert(left[i] == shorter[i]);
        }
        lemma_same_keys(shorter, other, class, condition);
        assert(left[left.len() - 1].class == right[right.len() - 1].class);
    }
}

proof fn lemma_found(requests: Seq<RequestView>, i: int)
    requires
        0 <= i < requests.len(),
    ensures
        request_index(requests, requests[i].class, requests[i].condition) is Some,
    decreases requests.len(),
{
    if i < requests.len() - 1 {
        assert(requests.drop_last()[i] == requests[i]);
        lemma_found(requests.drop_last(), i);
    }
}

fn find_cache(caches: &Vec<PhysicalCacheSnapshot>, tier: PhysicalCacheTier) -> (report:
    PhysicalCacheSnapshot)
    ensures
        report == cache_report(caches@, tier),
{
    let mut i: usize = 0;
    assert(caches@.skip(0) =~= caches@);
    while i < caches.len()
        invariant
            i <= caches.len(),
            cache_report(caches@, tier) == cache_report(caches@.skip(i as int), tier),
        decreases caches.len() - i,
    {
        proof {
            assert(caches@.skip(i as int).first() == caches@[i as int]);
            assert(caches@.skip(i as int).skip(1) =~= caches@.skip(i + 1));
        }
        if caches[i].tier == tier {
            return caches[i];
        }
        i += 1;
    }
    PhysicalCacheSnapshot { tier, accesses: 0, hits: 0 }
}

fn tier_place(tier: PhysicalCacheTier) -> (place: u64)
    ensures
        place == tier_rank(tier),
{
    match tier {
        PhysicalCacheTier::Memory => 0,
        PhysicalCacheTier::Disk => 1,
    }
}

fn add_cache(
    caches: &mut Vec<PhysicalCacheCalibration>,
    tier: PhysicalCacheTier,
    accesses: u64,
    hits: u64,
)
    ensures
        final(caches)@ == cached(old(caches)@, tier, accesses, hits),
{
    let ghost all = caches@;
    let mut i: usize = 0;
    assert(all.skip(0) =~= all);
    assert(all.take(0) + cached(all, tier, accesses, hits) =~= cached(all, tier, accesses, hits));
    while i < caches.len() && tier_place(caches[i].tier) <= tier_place(tier) && caches[i].tier
        != tier
        invariant
            i <= caches.len(),
            caches@ == all,
            cached(all, tier, accesses, hits) == all.take(i as int) + cached(
                all.skip(i as int),
                tier,
                accesses,
                hits,
            ),
        decreases caches.len() - i,
    {
        proof {
            let rest = all.skip(i as int);
            assert(rest.first() == all[i as int]);
            assert(rest.skip(1) =~= all.skip(i + 1));
            assert(all.take(i as int) + (seq![rest.first()] + cached(
                rest.skip(1),
                tier,
                accesses,
                hits,
            )) =~= all.take(i + 1) + cached(all.skip(i + 1), tier, accesses, hits));
        }
        i += 1;
    }
    let ghost rest = all.skip(i as int);
    if i < caches.len() && caches[i].tier == tier {
        let known: PhysicalCacheCalibration = caches[i];
        caches.set(
            i,
            PhysicalCacheCalibration {
                tier,
                accesses: known.accesses.saturating_add(accesses),
                hits: known.hits.saturating_add(hits),
            },
        );
        assert(rest.first() == all[i as int]);
        assert(caches@ =~= all.take(i as int) + cached(rest, tier, accesses, hits));
    } else {
        if i < caches.len() {
            assert(rest.first() == all[i as int]);
        }
        caches.insert(i, PhysicalCacheCalibration { tier, accesses, hits });
        assert(caches@ =~= all.take(i as int) + cached(rest, tier, accesses, hits));
    }
}

fn same_identity(left: &PhysicalTelemetryIdentity, right: &PhysicalTelemetryIdentity) -> (same: bool)
    ensures
        same == (left@ == right@),
{
    left.format == right.format && same_text(left.backend.as_str(), right.backend.as_str())
}

impl PhysicalCostRegistry {
    /// Takes in a report. Says whether it brought anything.
    pub fn observe(&mut self, snapshot: PhysicalTelemetrySnapshot) -> (changed: bool)
        ensures
            (final(self)@, changed) == observed(old(self)@, snapshot@),
    {
        let known = match &self.identity {
            Some(identity) => same_identity(identity, &snapshot.identity),
            None => false,
        };
        if !known {
            self.identity = Some(
                PhysicalTelemetryIdentity {
                    backend: snapshot.identity.backend.clone(),
                    format: snapshot.identity.format,
                },
            );
            self.capabilities = snapshot.capabilities;
            self.previous = Some(snapshot);
            self.requests = Vec::new();
            self.caches = Vec::new();
            assert(self@.requests =~= Seq::empty());
            return false;
        }
        let previous = match self.previous.take() {
            Some(previous) => previous,
            None => {
                self.previous = Some(snapshot);
                return false;
            },
        };
        let ghost start = self@;
        let ghost reports = snapshot@.requests;
        let mut kept: Vec<PhysicalRequestSnapshot> = copy_requests(&snapshot.requests);
        self.capabilities = snapshot.capabilities;
        let mut changed = false;
        let ghost state = Comparison {
            calibrations: start.requests,
            kept: reports,
            changed: false,
        };
        let mut i: usize = 0;
        assert(reports.take(0) =~= Seq::empty());
        while i < snapshot.requests.len()
            invariant
                i <= snapshot.requests.len(),
                reports == snapshot@.requests,
                reports == request_views(snapshot.requests@),
                state == (Comparison {
                    calibrations: start.requests,
                    kept: reports,
                    changed: false,
                }),
                self@.identity == start.identity,
                self@.caches == start.caches,
                self.capabilities == snapshot.capabilities,
                self.previous is None,
                compared_requests(state, reports.take(i as int), previous@.requests)
                    == (Comparison {
                    calibrations: calibration_views(self.requests@),
                    kept: request_views(kept@),
                    changed,
                }),
                kept.len() == reports.len(),
            decreases snapshot.requests.len() - i,
        {
            let current = &snapshot.requests[i];
            let ghost before = compared_requests(
                state,
                reports.take(i as int),
                previous@.requests,
            );
            proof {
                assert(reports.take(i + 1).drop_last() =~= reports.take(i as int));
                assert(reports.take(i + 1).last() == reports[i as int]);
                assert(reports[i as int] == current@);
                assert forall|k: int| 0 <= k < i implies request_index(
                    state.kept,
                    (#[trigger] reports.take(i as int)[k]).class,
                    reports.take(i as int)[k].condition,
                ) is Some by {
                    lemma_found(reports, k);
                }
                lemma_kept_keys(state, reports.take(i as int), previous@.requests);
                lemma_found(reports, i as int);
                lemma_same_keys(before.kept, reports, current.class, current.condition);
                lemma_index_in_range(before.kept, current.class, current.condition);
                lemma_index_in_range(previous@.requests, current.class, current.condition);
                lemma_place(before.calibrations, current.class, current.condition, 0);
            }
            let earlier = find_request(&previous.requests, current.class, current.condition);
            let none = None;
            let (earlier_requests, earlier_errors, earlier_latency, earlier_bytes) = match earlier {
                Some(k) => (
                    previous.requests[k].requests,
                    previous.requests[k].errors,
                    &previous.requests[k].latency_micros,
                    &previous.requests[k].bytes,
                ),
                None => (0, 0, &none, &none),
            };
            let requests: u64 = current.requests.saturating_sub(earlier_requests);
            let errors: u64 = current.errors.saturating_sub(earlier_errors);
            let place: usize = enter(&mut self.requests, current.class, current.condition);
            let ghost grown = calibration_views(self.requests@);
            let mut calibration: PhysicalRequestCalibration = self.requests[place];
            assert(grown[place as int] == calibration@);
            calibration.observed_requests = calibration.observed_requests.saturating_add(requests);
            calibration.errors = calibration.errors.saturating_add(errors);
            if let Some(k) = find_request(&kept, current.class, current.condition) {
                let ghost held = request_views(kept@);
                assert(held[k as int] == kept@[k as int]@);
                let mut next_latency = copy_cumulative(&kept[k].latency_micros);
                let mut next_bytes = copy_cumulative(&kept[k].bytes);
                observe_histogram(
                    &mut calibration.latency_micros,
                    &mut next_latency,
                    &current.latency_micros,
                    earlier_latency,
                    earlier.is_none(),
                );
                observe_histogram(
                    &mut calibration.bytes,
                    &mut next_bytes,
                    &current.bytes,
                    earlier_bytes,
                    earlier.is_none(),
                );
                let next = PhysicalRequestSnapshot {
                    class: kept[k].class,
                    condition: kept[k].condition,
                    requests: kept[k].requests,
                    errors: kept[k].errors,
                    latency_micros: next_latency,
                    bytes: next_bytes,
                };
                kept.set(k, next);
                self.requests.set(place, calibration);
                changed = changed || requests > 0 || errors > 0;
                proof {
                    let after = compared_request(before, current@, previous@.requests);
                    assert(request_views(kept@) =~= after.kept);
                    assert(calibration_views(self.requests@) =~= after.calibrations);
                }
            }
            i += 1;
        }
        assert(reports.take(i as int) =~= reports);
        let ghost uses = snapshot.caches@;
        let ghost requests_changed = changed;
        let mut c: usize = 0;
        assert(uses.take(0) =~= Seq::empty());
        while c < snapshot.caches.len()
            invariant
                c <= snapshot.caches.len(),
                uses == snapshot.caches@,
                self@.identity == start.identity,
                self.capabilities == snapshot.capabilities,
                calibration_views(self.requests@) == compared_requests(
                    state,
                    reports,
                    previous@.requests,
                ).calibrations,
                self.caches@ == compared_caches(
                    start.caches,
                    uses.take(c as int),
                    previous.caches@,
                ),
                changed == (requests_changed || caches_changed(
                    uses.take(c as int),
                    previous.caches@,
                )),
            decreases snapshot.caches.len() - c,
        {
            let current: PhysicalCacheSnapshot = snapshot.caches[c];
            proof {
                assert(uses.take(c + 1).drop_last() =~= uses.take(c as int));
                assert(uses.take(c + 1).last() == current);
            }
            let earlier: PhysicalCacheSnapshot = find_cache(&previous.caches, current.tier);
            let accesses: u64 = current.accesses.saturating_sub(earlier.accesses);
            let hits: u64 = current.hits.saturating_sub(earlier.hits);
            add_cache(&mut self.caches, current.tier, accesses, hits);
            let ghost known = changed;
            changed = changed || accesses > 0 || hits > 0;
            proof {
                let shorter = uses.take(c as int);
                let longer = uses.take(c + 1);
                if caches_changed(shorter, previous.caches@) {
                    let k = choose|k: int|
                        0 <= k < shorter.len() && ((#[trigger] shorter[k]).accesses
                            > cache_report(previous.caches@, shorter[k].tier).accesses
                            || shorter[k].hits > cache_report(
                            previous.caches@,
                            shorter[k].tier,
                        ).hits);
                    assert(longer[k] == shorter[k]);
                    assert(caches_changed(longer, previous.caches@));
                }
                if accesses > 0 || hits > 0 {
                    assert(longer[c as int] == current);
                    assert(caches_changed(longer, previous.caches@));
                }
                if caches_changed(longer, previous.caches@) {
                    let k = choose|k: int|
                        0 <= k < longer.len() && ((#[trigger] longer[k]).accesses > cache_report(
                            previous.caches@,
                            longer[k].tier,
                        ).accesses || longer[k].hits > cache_report(
                            previous.caches@,
                            longer[k].tier,
                        ).hits);
                    if k < c {
                        assert(shorter[k] == longer[k]);
                        assert(caches_changed(shorter, previous.caches@));
                    }
                }
            }
            c += 1;
        }
        assert(uses.take(c as int) =~= uses);
        self.previous = Some(
            PhysicalTelemetrySnapshot {
                identity: snapshot.identity,
                capabilities: snapshot.capabilities,
                requests: kept,
                caches: snapshot.caches,
            },
        );
        changed
    }
}

// ---- the cost model ----

/// How large values are, at most.
#[derive(Clone, Copy, Debug, PartialEq, Eq, Structural)]
pub struct PhysicalCostMetric {
    pub p50_upper_bound: u64,
    pub p95_upper_bound: u64,
    pub maximum_upper_bound: u64,
}

/// What one kind of request costs.
#[derive(Clone, Copy, Debug, PartialEq, Eq, Structural)]
pub struct PhysicalRequestCost {
    pub class: PhysicalRequestClass,
    pub size_upper_bound: Option<u64>,
    pub concurrency_upper_bound: Option<u64>,
    pub service_tier: Option<u64>,
    pub observed_requests: u64,
    pub errors: u64,
    pub latency_micros: Option<PhysicalCostMetric>,
    pub bytes: Option<PhysicalCostMetric>,
}

/// What one cache saves.
#[derive(Clone, Copy, Debug, PartialEq, Eq, Structural)]
pub struct PhysicalCacheCost {
    pub tier: PhysicalCacheTier,
    pub accesses: u64,
    pub hits: u64,
    pub hit_rate_ppm: u64,
}

/// What a backend costs.
#[derive(Debug, PartialEq)]
pub struct PhysicalCostModel {
    pub basis: &'static str,
    pub backend: String,
    pub telemetry_format: u32,
    pub capabilities: PhysicalTelemetryCapabilities,
    pub requests: Vec<PhysicalRequestCost>,
    pub caches: Vec<PhysicalCacheCost>,
}

/// The value of a [`PhysicalCostModel`].
#[verifier::ext_equal]
pub struct CostModelView {
    pub basis: Seq<char>,
    pub backend: Seq<char>,
    pub telemetry_format: u32,
    pub capabilities: PhysicalTelemetryCapabilities,
    pub requests: Seq<PhysicalRequestCost>,
    pub caches: Seq<PhysicalCacheCost>,
}

impl View for PhysicalCostModel {
    type V = CostModelView;

    open spec fn view(&self) -> CostModelView {
        CostModelView {
            basis: self.basis@,
            backend: self.backend@,
            telemetry_format: self.telemetry_format,
            capabilities: self.capabilities,
            requests: self.requests@,
            caches: self.caches@,
        }
    }
}

impl PhysicalCostModel {
    /// A copy of a model.
    pub fn copy(&self) -> (model: PhysicalCostModel)
        ensures
            model@ == self@,
    {
        let mut requests: Vec<PhysicalRequestCost> = Vec::new();
        let mut i: usize = 0;
        while i < self.requests.len()
            invariant
                i <= self.requests.len(),
                requests@ =~= self.requests@.take(i as int),
            decreases self.requests.len() - i,
        {
            requests.push(self.requests[i]);
            i += 1;
        }
        let mut caches: Vec<PhysicalCacheCost> = Vec::new();
        let mut c: usize = 0;
        while c < self.caches.len()
            invariant
                c <= self.caches.len(),
                caches@ =~= self.caches@.take(c as int),
            decreases self.caches.len() - c,
        {
            caches.push(self.caches[c]);
            c += 1;
        }
        assert(requests@ =~= self.requests@);
        assert(caches@ =~= self.caches@);
        PhysicalCostModel {
            basis: self.basis,
            backend: self.backend.clone(),
            telemetry_format: self.telemetry_format,
            capabilities: self.capabilities,
            requests,
            caches,
        }
    }
}

/// The metric of a histogram; none where nothing was seen.
pub open spec fn cost_metric(histogram: HistogramView) -> Option<PhysicalCostMetric> {
    if histogram.count == 0 {
        None
    } else {
        Some(
            PhysicalCostMetric {
                p50_upper_bound: histogram.quantile(50),
                p95_upper_bound: histogram.quantile(95),
                maximum_upper_bound: histogram.maximum,
            },
        )
    }
}

impl PhysicalCostMetric {
    /// The metric of a histogram; none where nothing was seen.
    pub fn of(histogram: &Log2Histogram) -> (metric: Option<PhysicalCostMetric>)
        ensures
            metric == cost_metric(histogram@),
    {
        if histogram.count() == 0 {
            None
        } else {
            Some(
                PhysicalCostMetric {
                    p50_upper_bound: histogram.quantile_upper_bound(50),
                    p95_upper_bound: histogram.quantile_upper_bound(95),
                    maximum_upper_bound: histogram.maximum(),
                },
            )
        }
    }
}

/// The cost of one kind of request. No more errors are told than requests.
pub open spec fn request_cost(calibration: CalibrationView) -> PhysicalRequestCost {
    PhysicalRequestCost {
        class: calibration.class,
        size_upper_bound: calibration.condition.size_upper_bound,
        concurrency_upper_bound: calibration.condition.concurrency_upper_bound,
        service_tier: calibration.condition.service_tier,
        observed_requests: calibration.observed_requests,
        errors: histogram::smaller(calibration.errors, calibration.observed_requests),
        latency_micros: cost_metric(calibration.latency_micros),
        bytes: cost_metric(calibration.bytes),
    }
}

/// The costs of the kinds of requests that were made.
pub open spec fn request_costs(calibrations: Seq<CalibrationView>) -> Seq<PhysicalRequestCost>
    decreases calibrations.len(),
{
    if calibrations.len() == 0 {
        Seq::empty()
    } else {
        let before = request_costs(calibrations.drop_last());
        if calibrations.last().observed_requests > 0 {
            before.push(request_cost(calibrations.last()))
        } else {
            before
        }
    }
}

/// What a share is of a whole, in millionths. The product stops at the
/// maximum.
pub open spec fn share_ppm(part: u64, whole: u64) -> u64 {
    let product = part as int * 1000000;
    let capped = if product > u64::MAX {
        u64::MAX as int
    } else {
        product
    };
    (capped / (if whole == 0 {
        1int
    } else {
        whole as int
    })) as u64
}

/// What one cache saves. No more hits are told than accesses.
pub open spec fn cache_cost(calibration: PhysicalCacheCalibration) -> PhysicalCacheCost {
    let hits = histogram::smaller(calibration.hits, calibration.accesses);
    PhysicalCacheCost {
        tier: calibration.tier,
        accesses: calibration.accesses,
        hits,
        hit_rate_ppm: share_ppm(hits, calibration.accesses),
    }
}

/// What the caches save that were used.
pub open spec fn cache_costs(calibrations: Seq<PhysicalCacheCalibration>) -> Seq<PhysicalCacheCost>
    decreases calibrations.len(),
{
    if calibrations.len() == 0 {
        Seq::empty()
    } else {
        let before = cache_costs(calibrations.drop_last());
        if calibrations.last().accesses > 0 {
            before.push(cache_cost(calibrations.last()))
        } else {
            before
        }
    }
}

/// What a backend costs; none where nothing was learned of it.
pub open spec fn cost_model(registry: CostView) -> Option<CostModelView> {
    let requests = request_costs(registry.requests);
    let caches = cache_costs(registry.caches);
    match registry.identity {
        Some(identity) => if requests.len() == 0 && caches.len() == 0 {
            None
        } else {
            Some(
                CostModelView {
                    basis: "backend_physical_telemetry"@,
                    backend: identity.backend,
                    telemetry_format: identity.format,
                    capabilities: registry.capabilities,
                    requests,
                    caches,
                },
            )
        },
        None => None,
    }
}

fn share(part: u64, whole: u64) -> (ppm: u64)
    ensures
        ppm == share_ppm(part, whole),
{
    let product: u128 = part as u128 * 1000000;
    let capped: u64 = if product > 0xffff_ffff_ffff_ffff {
        u64::MAX
    } else {
        product as u64
    };
    capped / (if whole == 0 {
        1
    } else {
        whole
    })
}

impl PhysicalCostRegistry {
    /// What the backend costs; none where nothing was learned of it.
    pub fn model(&self) -> (model: Option<PhysicalCostModel>)
        ensures
            cost_model(self@) == (match model {
                Some(model) => Some(model@),
                None => None,
            }),
    {
        let identity = match &self.identity {
            Some(identity) => identity,
            None => {
                return None;
            },
        };
        let ghost all = calibration_views(self.requests@);
        let mut requests: Vec<PhysicalRequestCost> = Vec::new();
        let mut i: usize = 0;
        assert(all.take(0) =~= Seq::empty());
        while i < self.requests.len()
            invariant
                i <= self.requests.len(),
                all == calibration_views(self.requests@),
                requests@ == request_costs(all.take(i as int)),
            decreases self.requests.len() - i,
        {
            let calibration = &self.requests[i];
            proof {
                assert(all.take(i + 1).drop_last() =~= all.take(i as int));
                assert(all.take(i + 1).last() == calibration@);
            }
            if calibration.observed_requests > 0 {
                requests.push(
                    PhysicalRequestCost {
                        class: calibration.class,
                        size_upper_bound: calibration.condition.size_upper_bound,
                        concurrency_upper_bound: calibration.condition.concurrency_upper_bound,
                        service_tier: calibration.condition.service_tier,
                        observed_requests: calibration.observed_requests,
                        errors: histogram::min_of(
                            calibration.errors,
                            calibration.observed_requests,
                        ),
                        latency_micros: PhysicalCostMetric::of(&calibration.latency_micros),
                        bytes: PhysicalCostMetric::of(&calibration.bytes),
                    },
                );
            }
            i += 1;
        }
        assert(all.take(i as int) =~= all);
        let mut caches: Vec<PhysicalCacheCost> = Vec::new();
        let mut c: usize = 0;
        assert(self.caches@.take(0) =~= Seq::empty());
        while c < self.caches.len()
            invariant
                c <= self.caches.len(),
                caches@ == cache_costs(self.caches@.take(c as int)),
            decreases self.caches.len() - c,
        {
            let calibration: PhysicalCacheCalibration = self.caches[c];
            proof {
                assert(self.caches@.take(c + 1).drop_last() =~= self.caches@.take(c as int));
                assert(self.caches@.take(c + 1).last() == calibration);
            }
            if calibration.accesses > 0 {
                let hits: u64 = histogram::min_of(calibration.hits, calibration.accesses);
                caches.push(
                    PhysicalCacheCost {
                        tier: calibration.tier,
                        accesses: calibration.accesses,
                        hits,
                        hit_rate_ppm: share(hits, calibration.accesses),
                    },
                );
            }
            c += 1;
        }
        assert(self.caches@.take(c as int) =~= self.caches@);
        if requests.len() == 0 && caches.len() == 0 {
            return None;
        }
        Some(
            PhysicalCostModel {
                basis: "backend_physical_telemetry",
                backend: identity.backend.clone(),
                telemetry_format: identity.format,
                capabilities: self.capabilities,
                requests,
                caches,
            },
        )
    }
}

// ---- what calibration promises ----

/// A backend that reports for the first time starts over: nothing that was
/// learned of another one is kept, and the report itself teaches nothing.
pub proof fn a_new_backend_starts_over(registry: CostView, snapshot: SnapshotView)
    requires
        registry.identity != Some(snapshot.identity),
    ensures
        !observed(registry, snapshot).1,
        cost_model(observed(registry, snapshot).0) is None,
{
}

proof fn lemma_unchanged(state: Comparison, current: Seq<RequestView>, previous: Seq<RequestView>)
    requires
        forall|i: int|
            0 <= i < current.len() ==> (request_index(
                previous,
                (#[trigger] current[i]).class,
                current[i].condition,
            ) matches Some(k) && previous[k].requests >= current[i].requests && previous[k].errors
                >= current[i].errors),
    ensures
        compared_requests(state, current, previous).changed == state.changed,
    decreases current.len(),
{
    if current.len() > 0 {
        let shorter = current.drop_last();
        assert forall|i: int| 0 <= i < shorter.len() implies (request_index(
            previous,
            (#[trigger] shorter[i]).class,
            shorter[i].condition,
        ) matches Some(k) && previous[k].requests >= shorter[i].requests && previous[k].errors
            >= shorter[i].errors) by {
            assert(current[i] == shorter[i]);
        }
        lemma_unchanged(state, shorter, previous);
        assert(current[current.len() - 1] == current.last());
    }
}

/// Only what is new counts: a report of the same backend in which no counter
/// is above the report before brings nothing.
pub proof fn only_new_samples_count(registry: CostView, snapshot: SnapshotView)
    requires
        registry.identity == Some(snapshot.identity),
        registry.previous is Some,
        forall|i: int|
            0 <= i < snapshot.requests.len() ==> (request_index(
                registry.previous->0.requests,
                (#[trigger] snapshot.requests[i]).class,
                snapshot.requests[i].condition,
            ) matches Some(k) && registry.previous->0.requests[k].requests
                >= snapshot.requests[i].requests && registry.previous->0.requests[k].errors
                >= snapshot.requests[i].errors),
        forall|i: int|
            0 <= i < snapshot.caches.len() ==> (#[trigger] snapshot.caches[i]).accesses
                <= cache_report(
                registry.previous->0.caches,
                snapshot.caches[i].tier,
            ).accesses && snapshot.caches[i].hits <= cache_report(
                registry.previous->0.caches,
                snapshot.caches[i].tier,
            ).hits,
    ensures
        !observed(registry, snapshot).1,
{
    lemma_unchanged(
        Comparison { calibrations: registry.requests, kept: snapshot.requests, changed: false },
        snapshot.requests,
        registry.previous->0.requests,
    );
}

} // verus!
