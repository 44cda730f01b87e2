//! Evidence about executions: what they read and wrote, and how each plan
//! fared.

use vstd::prelude::*;

use crate::scheduler::histogram;
use crate::scheduler::histogram::{HistogramView, Log2Histogram};
use crate::scheduler::sketches::Fingerprint;

verus! {

/// What one execution did to the store.
#[derive(Clone, Copy, Debug, PartialEq, Eq, Structural)]
pub struct KvResourceSample {
    pub gets: u64,
    pub puts: u64,
    pub deletes: u64,
    pub scans: u64,
    pub iterated: u64,
    pub bytes_read: u64,
    pub bytes_written: u64,
}

impl Default for KvResourceSample {
    fn default() -> (sample: KvResourceSample)
        ensures
            sample == (KvResourceSample {
                gets: 0,
                puts: 0,
                deletes: 0,
                scans: 0,
                iterated: 0,
                bytes_read: 0,
                bytes_written: 0,
            }),
    {
        KvResourceSample {
            gets: 0,
            puts: 0,
            deletes: 0,
            scans: 0,
            iterated: 0,
            bytes_read: 0,
            bytes_written: 0,
        }
    }
}

/// What executions did to the store.
#[derive(Clone, Copy, Debug, PartialEq)]
pub struct KvResourceDistribution {
    pub gets: Log2Histogram,
    pub puts: Log2Histogram,
    pub deletes: Log2Histogram,
    pub scans: Log2Histogram,
    pub iterated: Log2Histogram,
    pub bytes_read: Log2Histogram,
    pub bytes_written: Log2Histogram,
}

/// The value of a [`KvResourceDistribution`].
#[verifier::ext_equal]
pub struct ResourcesView {
    pub gets: HistogramView,
    pub puts: HistogramView,
    pub deletes: HistogramView,
    pub scans: HistogramView,
    pub iterated: HistogramView,
    pub bytes_read: HistogramView,
    pub bytes_written: HistogramView,
}

impl View for KvResourceDistribution {
    type V = ResourcesView;

    open spec fn view(&self) -> ResourcesView {
        ResourcesView {
            gets: self.gets@,
            puts: self.puts@,
            deletes: self.deletes@,
            scans: self.scans@,
            iterated: self.iterated@,
            bytes_read: self.bytes_read@,
            bytes_written: self.bytes_written@,
        }
    }
}

/// How large values were, at most.
#[derive(Clone, Copy, Debug, PartialEq, Eq, Structural)]
pub struct ResourceMetric {
    pub p50_upper_bound: u64,
    pub p95_upper_bound: u64,
    pub maximum: u64,
}

/// What executions cost the store.
#[derive(Clone, Copy, Debug, PartialEq, Eq, Structural)]
pub struct KvResourceCost {
    pub observed_executions: u64,
    pub gets: ResourceMetric,
    pub puts: ResourceMetric,
    pub deletes: ResourceMetric,
    pub scans: ResourceMetric,
    pub iterated: ResourceMetric,
    pub bytes_read: ResourceMetric,
    pub bytes_written: ResourceMetric,
}

/// How large the values of a histogram are, at most.
pub open spec fn metric_of(histogram: HistogramView) -> ResourceMetric {
    ResourceMetric {
        p50_upper_bound: histogram.quantile(50),
        p95_upper_bound: histogram.quantile(95),
        maximum: histogram.maximum,
    }
}

fn metric(histogram: &Log2Histogram) -> (metric: ResourceMetric)
    ensures
        metric == metric_of(histogram@),
{
    ResourceMetric {
        p50_upper_bound: histogram.quantile_upper_bound(50),
        p95_upper_bound: histogram.quantile_upper_bound(95),
        maximum: histogram.maximum(),
    }
}

impl ResourcesView {
    /// What no executions did.
    pub open spec fn empty() -> ResourcesView {
        ResourcesView {
            gets: HistogramView::empty(),
            puts: HistogramView::empty(),
            deletes: HistogramView::empty(),
            scans: HistogramView::empty(),
            iterated: HistogramView::empty(),
            bytes_read: HistogramView::empty(),
            bytes_written: HistogramView::empty(),
        }
    }

    /// Whether every histogram has its buckets.
    pub open spec fn wf(self) -> bool {
        &&& self.gets.buckets.len() == 65
        &&& self.puts.buckets.len() == 65
        &&& self.deletes.buckets.len() == 65
        &&& self.scans.buckets.len() == 65
        &&& self.iterated.buckets.len() == 65
        &&& self.bytes_read.buckets.len() == 65
        &&& self.bytes_written.buckets.len() == 65
    }

    /// What executions did after one more.
    pub open spec fn recorded(self, sample: KvResourceSample) -> ResourcesView {
        ResourcesView {
            gets: self.gets.recorded(sample.gets, 1),
            puts: self.puts.recorded(sample.puts, 1),
            deletes: self.deletes.recorded(sample.deletes, 1),
            scans: self.scans.recorded(sample.scans, 1),
            iterated: self.iterated.recorded(sample.iterated, 1),
            bytes_read: self.bytes_read.recorded(sample.bytes_read, 1),
            bytes_written: self.bytes_written.recorded(sample.bytes_written, 1),
        }
    }

    /// What two groups of executions did.
    pub open spec fn merged(self, other: ResourcesView) -> ResourcesView {
        ResourcesView {
            gets: self.gets.merged(other.gets),
            puts: self.puts.merged(other.puts),
            deletes: self.deletes.merged(other.deletes),
            scans: self.scans.merged(other.scans),
            iterated: self.iterated.merged(other.iterated),
            bytes_read: self.bytes_read.merged(other.bytes_read),
            bytes_written: self.bytes_written.merged(other.bytes_written),
        }
    }

    /// What executions cost; nothing where none was measured.
    pub open spec fn cost(self) -> Option<KvResourceCost> {
        if self.gets.count == 0 {
            None
        } else {
            Some(
                KvResourceCost {
                    observed_executions: self.gets.count,
                    gets: metric_of(self.gets),
                    puts: metric_of(self.puts),
                    deletes: metric_of(self.deletes),
                    scans: metric_of(self.scans),
                    iterated: metric_of(self.iterated),
                    bytes_read: metric_of(self.bytes_read),
                    bytes_written: metric_of(self.bytes_written),
                },
            )
        }
    }
}

impl Default for KvResourceDistribution {
    fn default() -> (resources: KvResourceDistribution)
        ensures
            resources@ == ResourcesView::empty(),
    {
        KvResourceDistribution {
            gets: Log2Histogram::default(),
            puts: Log2Histogram::default(),
            deletes: Log2Histogram::default(),
            scans: Log2Histogram::default(),
            iterated: Log2Histogram::default(),
            bytes_read: Log2Histogram::default(),
            bytes_written: Log2Histogram::default(),
        }
    }
}

impl KvResourceDistribution {
    /// Records one execution.
    pub fn record(&mut self, sample: KvResourceSample)
        ensures
            final(self)@ == old(self)@.recorded(sample),
    {
        self.gets.record(sample.gets);
        self.puts.record(sample.puts);
        self.deletes.record(sample.deletes);
        self.scans.record(sample.scans);
        self.iterated.record(sample.iterated);
        self.bytes_read.record(sample.bytes_read);
        self.bytes_written.record(sample.bytes_written);
    }

    /// Adds what other executions did.
    pub fn merge(&mut self, other: &KvResourceDistribution)
        ensures
            final(self)@ == old(self)@.merged(other@),
    {
        self.gets.merge(&other.gets);
        self.puts.merge(&other.puts);
        self.deletes.merge(&other.deletes);
        self.scans.merge(&other.scans);
        self.iterated.merge(&other.iterated);
        self.bytes_read.merge(&other.bytes_read);
        self.bytes_written.merge(&other.bytes_written);
    }

    /// Whether no execution was measured.
    pub fn is_empty(&self) -> (empty: bool)
        ensures
            empty == (self@.gets.count == 0),
    {
        self.gets.count() == 0
    }

    /// What executions cost; nothing where none was measured.
    pub fn cost(&self) -> (cost: Option<KvResourceCost>)
        ensures
            cost == self@.cost(),
    {
        if self.gets.count() == 0 {
            None
        } else {
            Some(
                KvResourceCost {
                    observed_executions: self.gets.count(),
                    gets: metric(&self.gets),
                    puts: metric(&self.puts),
                    deletes: metric(&self.deletes),
                    scans: metric(&self.scans),
                    iterated: metric(&self.iterated),
                    bytes_read: metric(&self.bytes_read),
                    bytes_written: metric(&self.bytes_written),
                },
            )
        }
    }
}

/// Merging is recording, for each thing that executions do.
pub proof fn merging_resources_is_recording(
    left: ResourcesView,
    right: ResourcesView,
    sample: KvResourceSample,
)
    requires
        left.wf(),
        right.wf(),
    ensures
        left.merged(right.recorded(sample)) == left.merged(right).recorded(sample),
{
    histogram::merging_is_recording(left.gets, right.gets, sample.gets, 1);
    histogram::merging_is_recording(left.puts, right.puts, sample.puts, 1);
    histogram::merging_is_recording(left.deletes, right.deletes, sample.deletes, 1);
    histogram::merging_is_recording(left.scans, right.scans, sample.scans, 1);
    histogram::merging_is_recording(left.iterated, right.iterated, sample.iterated, 1);
    histogram::merging_is_recording(left.bytes_read, right.bytes_read, sample.bytes_read, 1);
    histogram::merging_is_recording(left.bytes_written, right.bytes_written, sample.bytes_written, 1);
}

/// Merging with nothing changes nothing.
pub proof fn merging_no_resources_changes_nothing(resources: ResourcesView)
    requires
        resources.wf(),
    ensures
        resources.merged(ResourcesView::empty()) == resources,
{
    histogram::merging_nothing_changes_nothing(resources.gets);
    histogram::merging_nothing_changes_nothing(resources.puts);
    histogram::merging_nothing_changes_nothing(resources.deletes);
    histogram::merging_nothing_changes_nothing(resources.scans);
    histogram::merging_nothing_changes_nothing(resources.iterated);
    histogram::merging_nothing_changes_nothing(resources.bytes_read);
    histogram::merging_nothing_changes_nothing(resources.bytes_written);
    assert(resources.merged(ResourcesView::empty()) =~= resources);
}

/// What a query depends on: what it means, and how its data is reached.
#[derive(Clone, Copy, Debug, PartialEq, Eq, Structural)]
pub struct DependencyStamp {
    pub semantic: u64,
    pub access: u64,
}

impl Default for DependencyStamp {
    fn default() -> (stamp: DependencyStamp)
        ensures
            stamp == (DependencyStamp { semantic: 0, access: 0 }),
    {
        DependencyStamp { semantic: 0, access: 0 }
    }
}

/// How one plan fared while its data was reached in one way.
#[derive(Clone, Copy, Debug, PartialEq)]
pub struct PlanProfile {
    pub plan: Fingerprint,
    pub access_stamp: u64,
    pub executions: u64,
    pub rows: Log2Histogram,
    pub execute_micros: Log2Histogram,
    pub resources: KvResourceDistribution,
}

/// The value of a [`PlanProfile`].
#[verifier::ext_equal]
pub struct ProfileView {
    pub plan: Fingerprint,
    pub access_stamp: u64,
    pub executions: u64,
    pub rows: HistogramView,
    pub execute_micros: HistogramView,
    pub resources: ResourcesView,
}

impl View for PlanProfile {
    type V = ProfileView;

    open spec fn view(&self) -> ProfileView {
        ProfileView {
            plan: self.plan,
            access_stamp: self.access_stamp,
            executions: self.executions,
            rows: self.rows@,
            execute_micros: self.execute_micros@,
            resources: self.resources@,
        }
    }
}

/// The views of a run of profiles.
pub open spec fn profile_views(profiles: Seq<PlanProfile>) -> Seq<ProfileView> {
    Seq::new(profiles.len(), |i: int| profiles[i]@)
}

impl ProfileView {
    /// A profile of no executions.
    pub open spec fn empty(plan: Fingerprint, access_stamp: u64) -> ProfileView {
        ProfileView {
            plan,
            access_stamp,
            executions: 0,
            rows: HistogramView::empty(),
            execute_micros: HistogramView::empty(),
            resources: ResourcesView::empty(),
        }
    }

    /// Whether a profile is of a plan whose data is reached in one way.
    pub open spec fn is_of(self, plan: Fingerprint, access_stamp: u64) -> bool {
        self.plan == plan && self.access_stamp == access_stamp
    }

    /// A profile after one more execution.
    pub open spec fn recorded(self, rows: u64, execute_micros: u64) -> ProfileView {
        ProfileView {
            executions: self.executions.saturating_add(1),
            rows: self.rows.recorded(rows, 1),
            execute_micros: self.execute_micros.recorded(execute_micros, 1),
            ..self
        }
    }

    /// A profile after one more execution with what it did to the store.
    pub open spec fn recorded_with(
        self,
        rows: u64,
        execute_micros: u64,
        sample: KvResourceSample,
    ) -> ProfileView {
        ProfileView {
            resources: self.resources.recorded(sample),
            ..self.recorded(rows, execute_micros)
        }
    }

    /// A profile of the executions of two.
    pub open spec fn merged(self, other: ProfileView) -> ProfileView {
        ProfileView {
            executions: self.executions.saturating_add(other.executions),
            rows: self.rows.merged(other.rows),
            execute_micros: self.execute_micros.merged(other.execute_micros),
            resources: self.resources.merged(other.resources),
            ..self
        }
    }
}

impl PlanProfile {
    /// A profile of no executions.
    pub fn new(plan: Fingerprint, access_stamp: u64) -> (profile: PlanProfile)
        ensures
            profile@ == ProfileView::empty(plan, access_stamp),
    {
        PlanProfile {
            plan,
            access_stamp,
            executions: 0,
            rows: Log2Histogram::default(),
            execute_micros: Log2Histogram::default(),
            resources: KvResourceDistribution::default(),
        }
    }

    /// Records one execution.
    pub fn record(&mut self, rows: u64, execute_micros: u64)
        ensures
            final(self)@ == old(self)@.recorded(rows, execute_micros),
    {
        self.executions = self.executions.saturating_add(1);
        self.rows.record(rows);
        self.execute_micros.record(execute_micros);
    }

    /// Records one execution with what it did to the store.
    pub fn record_with_resources(
        &mut self,
        rows: u64,
        execute_micros: u64,
        sample: KvResourceSample,
    )
        ensures
            final(self)@ == old(self)@.recorded_with(rows, execute_micros, sample),
    {
        self.record(rows, execute_micros);
        self.resources.record(sample);
    }

    /// Adds the executions of another profile.
    pub fn merge(&mut self, other: &PlanProfile)
        ensures
            final(self)@ == old(self)@.merged(other@),
    {
        self.executions = self.executions.saturating_add(other.executions);
        self.rows.merge(&other.rows);
        self.execute_micros.merge(&other.execute_micros);
        self.resources.merge(&other.resources);
    }

    /// How many rows half of the executions return, at most.
    pub fn rows_p50_upper_bound(&self) -> (bound: u64)
        ensures
            bound == self@.rows.quantile(50),
    {
        self.rows.quantile_upper_bound(50)
    }

    /// How long half of the executions take, at most.
    pub fn execute_micros_p50_upper_bound(&self) -> (bound: u64)
        ensures
            bound == self@.execute_micros.quantile(50),
    {
        self.execute_micros.quantile_upper_bound(50)
    }
}

/// How far an estimate is from what came, in hundredths: the larger over the
/// smaller, each at least one.
pub open spec fn q_error(estimated: u64, actual: u64) -> u64 {
    let estimate = histogram::larger(estimated, 1);
    let found = histogram::larger(actual, 1);
    let ratio = histogram::larger(estimate, found) as int * 100 / histogram::smaller(
        estimate,
        found,
    ) as int;
    if ratio > u64::MAX {
        u64::MAX
    } else {
        ratio as u64
    }
}

/// How far an estimate is from what came, in hundredths.
pub fn q_error_x100(estimated: u64, actual: u64) -> (error: u64)
    ensures
        error == q_error(estimated, actual),
{
    let estimate: u64 = histogram::max_of(estimated, 1);
    let found: u64 = histogram::max_of(actual, 1);
    let large: u128 = histogram::max_of(estimate, found) as u128;
    let small: u128 = histogram::min_of(estimate, found) as u128;
    let ratio: u128 = large * 100 / small;
    if ratio > 0xffff_ffff_ffff_ffff {
        u64::MAX
    } else {
        ratio as u64
    }
}

/// An estimate is never better than right, and right where it is what came.
pub proof fn right_estimates_have_no_error(estimated: u64, actual: u64)
    ensures
        q_error(estimated, actual) >= 100,
        estimated == actual ==> q_error(estimated, actual) == 100,
        q_error(estimated, actual) == q_error(actual, estimated),
{
    let estimate = histogram::larger(estimated, 1) as int;
    let found = histogram::larger(actual, 1) as int;
    let large = if estimate >= found {
        estimate
    } else {
        found
    };
    let small = if estimate <= found {
        estimate
    } else {
        found
    };
    assert(large * 100 / small >= 100) by (nonlinear_arith)
        requires
            large >= small,
            small >= 1,
    ;
    assert(small * 100 / small == 100) by (nonlinear_arith)
        requires
            small >= 1,
    ;
}

} // verus!
