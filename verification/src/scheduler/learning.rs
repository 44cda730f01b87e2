//! What a planner learns from what was observed: how the numbers of a snapshot
//! relate to the executions that it was gathered from.

use vstd::prelude::*;

use crate::scheduler::evidence;
use crate::scheduler::evidence::{KvResourceCost, ResourceMetric};
use crate::scheduler::histogram;
use crate::scheduler::histogram::{
    at_most, bucket_limit, bucket_of, falling, gathered, lemma_bucket_brackets, lemma_bucket_fits,
    lemma_gathered, lemma_last_limit, lemma_limits_grow, quantile_bucket, rank_of, running,
};
use crate::scheduler::model;
use crate::scheduler::model::{
    ModelView, ObservationModelKind, ObservationView, MAX_PLANS_PER_MODEL,
};
use crate::scheduler::physical;
use crate::scheduler::planner;
use crate::scheduler::planner::FeedbackView;
use crate::scheduler::sketches::Fingerprint;

verus! {

// ---- runs of values ----

/// Whether a bound covers its share of some values, in hundredths.
pub open spec fn covers(values: Seq<u64>, percent: nat, bound: nat) -> bool {
    at_most_bound(values, bound) > 0 && at_most_bound(values, bound) * 100 >= values.len()
        * percent
}

/// How many of some values are no larger than a bound.
pub open spec fn at_most_bound(values: Seq<u64>, bound: nat) -> nat
    decreases values.len(),
{
    if values.len() == 0 {
        0
    } else {
        at_most_bound(values.drop_last(), bound) + (if values.last() <= bound {
            1nat
        } else {
            0nat
        })
    }
}

/// Whether a number bounds a quantile of some values: it covers its share of them,
/// and is less than twice any number that does. Of no values it is zero.
pub open spec fn bounds_quantile(values: Seq<u64>, percent: nat, bound: u64) -> bool {
    if values.len() == 0 {
        bound == 0
    } else {
        &&& covers(values, percent, bound as nat)
        &&& forall|other: nat|
            #[trigger] covers(values, percent, other) ==> bound == 0 || bound < 2 * other
    }
}

/// Whether a number is the largest of some values; of no values it is zero.
pub open spec fn is_largest(values: Seq<u64>, largest: u64) -> bool {
    &&& values.len() == 0 ==> largest == 0
    &&& values.len() > 0 ==> values.contains(largest)
    &&& forall|i: int| 0 <= i < values.len() ==> #[trigger] values[i] <= largest
}

/// Whether a metric says how large some values are.
pub open spec fn measures(values: Seq<u64>, metric: ResourceMetric) -> bool {
    &&& bounds_quantile(values, 50, metric.p50_upper_bound)
    &&& bounds_quantile(values, 95, metric.p95_upper_bound)
    &&& is_largest(values, metric.maximum)
}

proof fn lemma_at_most(values: Seq<u64>, bound: u64)
    ensures
        at_most(values, bound) == at_most_bound(values, bound as nat),
    decreases values.len(),
{
    if values.len() > 0 {
        lemma_at_most(values.drop_last(), bound);
    }
}

proof fn lemma_counted_in_buckets(values: Seq<u64>, bound: nat)
    ensures
        at_most_bound(values, bound) <= falling(values, bucket_of(bound) + 1),
        at_most_bound(values, bound) <= values.len(),
    decreases values.len(),
{
    if values.len() > 0 {
        lemma_counted_in_buckets(values.drop_last(), bound);
        let value = values.last() as nat;
        if value <= bound {
            lemma_bucket_brackets(bound);
            lemma_bucket_fits(value, bucket_of(bound));
        }
    }
}

proof fn lemma_first_bucket(buckets: Seq<u64>, rank: nat, from: nat, reached: nat)
    requires
        from <= reached <= 64,
        running(buckets, reached + 1) >= rank,
    ensures
        quantile_bucket(buckets, rank, from) <= reached,
    decreases 64 - from,
{
    if from < 64 && running(buckets, from + 1) < rank {
        lemma_first_bucket(buckets, rank, from + 1, reached);
    }
}

proof fn lemma_limit_is_tight(bound: nat)
    requires
        bound > 0,
    ensures
        bucket_limit(bucket_of(bound)) < 2 * bound,
{
    lemma_bucket_brackets(bound);
}

proof fn lemma_largest(values: Seq<u64>)
    ensures
        is_largest(values, gathered(values).maximum),
    decreases values.len(),
{
    if values.len() > 0 {
        let shorter = values.drop_last();
        lemma_largest(shorter);
        let before = gathered(shorter).maximum;
        let after = gathered(values).maximum;
        assert(values[values.len() - 1] == values.last());
        if after == values.last() {
            assert(values.contains(after));
        } else {
            let i = choose|i: int| 0 <= i < shorter.len() && shorter[i] == before;
            assert(values[i] == after);
        }
        assert forall|i: int| 0 <= i < values.len() implies #[trigger] values[i] <= after by {
            if i < shorter.len() {
                assert(shorter[i] <= before);
            }
        }
    }
}

/// A histogram of values bounds each of their quantiles: the bound covers its share
/// of the values, and is less than twice the smallest number that does, whatever
/// the largest value is.
pub proof fn histograms_bound_quantiles(values: Seq<u64>, percent: u64)
    requires
        values.len() <= u64::MAX,
        percent <= 100,
    ensures
        gathered(values).count == values.len(),
        is_largest(values, gathered(values).maximum),
        bounds_quantile(values, percent as nat, gathered(values).quantile(percent)),
{
    lemma_gathered(values);
    lemma_largest(values);
    if values.len() > 0 {
        let told = gathered(values);
        let bound = told.quantile(percent);
        let rank = rank_of(values.len(), percent as nat);
        histogram::quantiles_cover_their_share(values, percent);
        lemma_at_most(values, bound);
        assert(covers(values, percent as nat, bound as nat));
        assert forall|other: nat| #[trigger] covers(
            values,
            percent as nat,
            other,
        ) implies bound == 0 || bound < 2 * other by {
            lemma_counted_in_buckets(values, other);
            assert(at_most_bound(values, other) >= rank);
            lemma_last_limit();
            if bucket_of(other) <= 64 {
                assert(running(told.buckets, bucket_of(other) + 1) == falling(
                    values,
                    bucket_of(other) + 1,
                ));
                lemma_first_bucket(told.buckets, rank, 0, bucket_of(other));
                let bucket = quantile_bucket(told.buckets, rank, 0);
                lemma_limits_grow(bucket, bucket_of(other));
                lemma_limits_grow(bucket, 64);
                if other > 0 {
                    lemma_limit_is_tight(other);
                }
            } else {
                lemma_bucket_brackets(other);
                lemma_limits_grow(64, (bucket_of(other) - 1) as nat);
            }
        }
    }
}

// ---- executions of a statement ----

/// One execution as it was observed: when, and with the moving mean after it.
pub struct Seen {
    pub observation: ObservationView,
    pub at: u64,
    pub mean: u64,
}

/// The model of a family after its executions.
pub open spec fn learned(family: Fingerprint, seen: Seq<Seen>) -> ModelView
    decreases seen.len(),
{
    if seen.len() == 0 {
        ModelView::empty(family, ObservationModelKind::Statement)
    } else {
        learned(family, seen.drop_last()).statement_recorded(
            seen.last().observation,
            seen.last().at,
            seen.last().mean,
        )
    }
}

/// A number of each of some executions.
pub open spec fn numbers(seen: Seq<Seen>, number: spec_fn(ObservationView) -> u64) -> Seq<u64> {
    Seq::new(seen.len(), |i: int| number(seen[i].observation))
}

/// How far the estimates of executions were off, where there were any.
pub open spec fn errors(seen: Seq<Seen>) -> Seq<u64>
    decreases seen.len(),
{
    if seen.len() == 0 {
        Seq::empty()
    } else {
        match seen.last().observation.estimate {
            Some(estimate) => errors(seen.drop_last()).push(
                evidence::q_error(estimate, seen.last().observation.rows),
            ),
            None => errors(seen.drop_last()),
        }
    }
}

/// How many executions ran a plan.
pub open spec fn runs_of(seen: Seq<Seen>, plan: Fingerprint) -> nat
    decreases seen.len(),
{
    if seen.len() == 0 {
        0
    } else {
        runs_of(seen.drop_last(), plan) + (if seen.last().observation.plan == Some(plan) {
            1nat
        } else {
            0nat
        })
    }
}

/// The statements that executions ran, as they were written.
pub open spec fn variants(seen: Seq<Seen>) -> Set<Fingerprint>
    decreases seen.len(),
{
    if seen.len() == 0 {
        Set::empty()
    } else {
        variants(seen.drop_last()).insert(seen.last().observation.exact)
    }
}

/// Whether executions are of one meaning of their family.
pub open spec fn one_meaning(seen: Seq<Seen>) -> bool {
    forall|i: int, k: int|
        0 <= i < seen.len() && 0 <= k < seen.len() ==> (
        #[trigger] seen[i]).observation.stamp.semantic == (
        #[trigger] seen[k]).observation.stamp.semantic
}

proof fn lemma_numbers_last(seen: Seq<Seen>, number: spec_fn(ObservationView) -> u64)
    requires
        seen.len() > 0,
    ensures
        numbers(seen, number).drop_last() == numbers(seen.drop_last(), number),
        numbers(seen, number).last() == number(seen.last().observation),
        gathered(numbers(seen, number)) == gathered(numbers(seen.drop_last(), number)).recorded(
            number(seen.last().observation),
            1,
        ),
{
    assert(numbers(seen, number).drop_last() =~= numbers(seen.drop_last(), number));
}

proof fn lemma_errors_fit(seen: Seq<Seen>)
    ensures
        errors(seen).len() <= seen.len(),
    decreases seen.len(),
{
    if seen.len() > 0 {
        lemma_errors_fit(seen.drop_last());
    }
}

proof fn lemma_plan_place(plans: Seq<(Fingerprint, u64)>, plan: Fingerprint, from: nat)
    requires
        from <= plans.len(),
    ensures
        from <= model::plan_place(plans, plan, from) <= plans.len(),
        model::plan_place(plans, plan, from) < plans.len() ==> plans[model::plan_place(
            plans,
            plan,
            from,
        ) as int].0 == plan,
        forall|i: int|
            from <= i < model::plan_place(plans, plan, from) ==> (#[trigger] plans[i]).0 != plan,
    decreases plans.len() - from,
{
    if from < plans.len() && plans[from as int].0 != plan {
        lemma_plan_place(plans, plan, from + 1);
    }
}

/// Whether the counts of plans are those of some executions: each plan that is
/// counted is counted once for each of its runs, and every plan that ran is
/// counted while there is room.
pub open spec fn plans_counted(plans: Seq<(Fingerprint, u64)>, seen: Seq<Seen>) -> bool {
    &&& plans.len() <= MAX_PLANS_PER_MODEL
    &&& forall|i: int, k: int|
        0 <= i < k < plans.len() ==> (#[trigger] plans[i]).0 != (#[trigger] plans[k]).0
    &&& forall|i: int|
        0 <= i < plans.len() ==> (#[trigger] plans[i]).1 == runs_of(seen, plans[i].0)
            && plans[i].1 > 0
    &&& forall|plan: Fingerprint|
        plans.len() < MAX_PLANS_PER_MODEL && #[trigger] runs_of(seen, plan) > 0 ==> exists|i: int|
            0 <= i < plans.len() && (#[trigger] plans[i]).0 == plan
}

proof fn lemma_runs_fit(seen: Seq<Seen>, plan: Fingerprint)
    ensures
        runs_of(seen, plan) <= seen.len(),
    decreases seen.len(),
{
    if seen.len() > 0 {
        lemma_runs_fit(seen.drop_last(), plan);
    }
}

proof fn lemma_plans_counted(family: Fingerprint, seen: Seq<Seen>)
    requires
        seen.len() <= u64::MAX,
        one_meaning(seen),
    ensures
        plans_counted(learned(family, seen).plans, seen),
        learned(family, seen).executions == seen.len(),
        seen.len() > 0 ==> learned(family, seen).stamp == seen.last().observation.stamp,
    decreases seen.len(),
{
    if seen.len() > 0 {
        let shorter = seen.drop_last();
        assert(one_meaning(shorter)) by {
            assert forall|i: int, k: int|
                0 <= i < shorter.len() && 0 <= k < shorter.len() implies (
            #[trigger] shorter[i]).observation.stamp.semantic == (
            #[trigger] shorter[k]).observation.stamp.semantic by {
                assert(seen[i] == shorter[i] && seen[k] == shorter[k]);
            }
        }
        lemma_plans_counted(family, shorter);
        let last = seen.last().observation;
        assert(seen[seen.len() - 1] == seen.last());
        if shorter.len() > 0 {
            assert(seen[shorter.len() - 1] == shorter.last());
        }
        let before = learned(family, shorter).plans;
        let after = learned(family, seen).plans;
        match last.plan {
            None => {
                assert(after == before);
                assert forall|plan: Fingerprint| runs_of(seen, plan) == runs_of(shorter, plan) by {}
            },
            Some(run) => {
                lemma_plan_place(before, run, 0);
                lemma_runs_fit(shorter, run);
                let place = model::plan_place(before, run, 0) as int;
                assert forall|i: int| 0 <= i < after.len() implies (#[trigger] after[i]).1
                    == runs_of(seen, after[i].0) && after[i].1 > 0 by {
                    if i < before.len() {
                        assert(before[i].0 == after[i].0);
                        assert(before[i].1 == runs_of(shorter, before[i].0));
                        if i != place {
                            assert(before[i].0 != run) by {
                                if before[i].0 == run {
                                    if place < before.len() {
                                        if i < place {
                                            assert(before[i].0 != before[place].0);
                                        } else {
                                            assert(before[place].0 != before[i].0);
                                        }
                                    }
                                }
                            }
                        }
                    } else {
                        assert(runs_of(shorter, run) == 0) by {
                            if runs_of(shorter, run) > 0 {
                                let k = choose|k: int|
                                    0 <= k < before.len() && (#[trigger] before[k]).0 == run;
                                assert(before[k].0 != run);
                            }
                        }
                    }
                }
                assert forall|i: int, k: int| 0 <= i < k < after.len() implies (
                #[trigger] after[i]).0 != (#[trigger] after[k]).0 by {
                    assert(before[i].0 == after[i].0);
                    if k < before.len() {
                        assert(before[k].0 == after[k].0);
                    }
                }
                assert forall|plan: Fingerprint|
                    after.len() < MAX_PLANS_PER_MODEL && #[trigger] runs_of(
                        seen,
                        plan,
                    ) > 0 implies exists|i: int|
                    0 <= i < after.len() && (#[trigger] after[i]).0 == plan by {
                    if plan == run {
                        if place < before.len() {
                            assert(after[place].0 == plan);
                        } else {
                            assert(after[before.len() as int].0 == plan);
                        }
                    } else {
                        assert(runs_of(shorter, plan) > 0);
                        let k = choose|k: int|
                            0 <= k < before.len() && (#[trigger] before[k]).0 == plan;
                        assert(after[k].0 == plan);
                    }
                }
            },
        }
    }
}

proof fn lemma_variants(family: Fingerprint, seen: Seq<Seen>)
    requires
        seen.len() <= u64::MAX,
        one_meaning(seen),
    ensures
        learned(family, seen).exact_variants.no_duplicates(),
        learned(family, seen).exact_variants.to_set() == variants(seen),
        learned(family, seen).exact_variants.len() == variants(seen).len(),
        learned(family, seen).exact_variants.len() <= seen.len(),
    decreases seen.len(),
{
    if seen.len() > 0 {
        let shorter = seen.drop_last();
        assert(one_meaning(shorter)) by {
            assert forall|i: int, k: int|
                0 <= i < shorter.len() && 0 <= k < shorter.len() implies (
            #[trigger] shorter[i]).observation.stamp.semantic == (
            #[trigger] shorter[k]).observation.stamp.semantic by {
                assert(seen[i] == shorter[i] && seen[k] == shorter[k]);
            }
        }
        lemma_variants(family, shorter);
        lemma_plans_counted(family, shorter);
        assert(seen[seen.len() - 1] == seen.last());
        if shorter.len() > 0 {
            assert(seen[shorter.len() - 1] == shorter.last());
        }
        let before = learned(family, shorter).exact_variants;
        let after = learned(family, seen).exact_variants;
        let exact = seen.last().observation.exact;
        assert(after.to_set() =~= before.to_set().insert(exact)) by {
            assert forall|x: Fingerprint| after.contains(x) == (before.contains(x) || x == exact) by {
                if before.contains(x) {
                    let i = choose|i: int| 0 <= i < before.len() && before[i] == x;
                    assert(after[i] == x);
                }
                if x == exact && !before.contains(exact) {
                    assert(after[before.len() as int] == x);
                }
            }
        }
    } else {
        assert(learned(family, seen).exact_variants.to_set() =~= Set::empty());
    }
    learned(family, seen).exact_variants.unique_seq_to_set();
}

/// Whether feedback says of a family what its executions were.
pub open spec fn tells(feedback: FeedbackView, family: Fingerprint, seen: Seq<Seen>) -> bool {
    let rows = numbers(seen, |o: ObservationView| o.rows);
    let micros = numbers(seen, |o: ObservationView| o.execute_micros);
    &&& feedback.family == family
    &&& feedback.retained_executions == seen.len()
    &&& feedback.exact_variants == variants(seen).len()
    &&& feedback.last_seen == seen.last().at
    &&& feedback.duration_ewma_bits == seen.last().mean
    &&& feedback.stamp == seen.last().observation.stamp
    &&& bounds_quantile(rows, 50, feedback.rows_p50_upper_bound)
    &&& bounds_quantile(rows, 95, feedback.rows_p95_upper_bound)
    &&& is_largest(rows, feedback.rows_max)
    &&& bounds_quantile(micros, 50, feedback.execute_micros_p50_upper_bound)
    &&& bounds_quantile(micros, 95, feedback.execute_micros_p95_upper_bound)
    &&& feedback.executions_with_estimate == errors(seen).len()
    &&& bounds_quantile(errors(seen), 50, feedback.q_error_p50_upper_bound_x100)
    &&& bounds_quantile(errors(seen), 95, feedback.q_error_p95_upper_bound_x100)
    &&& is_largest(errors(seen), feedback.q_error_max_x100)
    &&& plans_counted(feedback.plans, seen)
    &&& feedback.resources.cost() matches Some(cost) && costs(cost, seen)
}

/// Whether a cost says what executions did to the store.
pub open spec fn costs(cost: KvResourceCost, seen: Seq<Seen>) -> bool {
    &&& cost.observed_executions == seen.len()
    &&& measures(numbers(seen, |o: ObservationView| o.kv.gets), cost.gets)
    &&& measures(numbers(seen, |o: ObservationView| o.kv.puts), cost.puts)
    &&& measures(numbers(seen, |o: ObservationView| o.kv.deletes), cost.deletes)
    &&& measures(numbers(seen, |o: ObservationView| o.kv.scans), cost.scans)
    &&& measures(numbers(seen, |o: ObservationView| o.kv.iterated), cost.iterated)
    &&& measures(numbers(seen, |o: ObservationView| o.kv.bytes_read), cost.bytes_read)
    &&& measures(numbers(seen, |o: ObservationView| o.kv.bytes_written), cost.bytes_written)
}

proof fn lemma_histograms(family: Fingerprint, seen: Seq<Seen>)
    requires
        seen.len() <= u64::MAX,
        one_meaning(seen),
    ensures
        ({
            let known = learned(family, seen);
            &&& known.family == family
            &&& known.kind == ObservationModelKind::Statement
            &&& known.rows == gathered(numbers(seen, |o: ObservationView| o.rows))
            &&& known.execute_micros == gathered(
                numbers(seen, |o: ObservationView| o.execute_micros),
            )
            &&& known.q_errors == gathered(errors(seen))
            &&& known.estimated_executions == errors(seen).len()
            &&& is_largest(errors(seen), known.q_error_max_x100)
            &&& known.resources.gets == gathered(numbers(seen, |o: ObservationView| o.kv.gets))
            &&& known.resources.puts == gathered(numbers(seen, |o: ObservationView| o.kv.puts))
            &&& known.resources.deletes == gathered(
                numbers(seen, |o: ObservationView| o.kv.deletes),
            )
            &&& known.resources.scans == gathered(numbers(seen, |o: ObservationView| o.kv.scans))
            &&& known.resources.iterated == gathered(
                numbers(seen, |o: ObservationView| o.kv.iterated),
            )
            &&& known.resources.bytes_read == gathered(
                numbers(seen, |o: ObservationView| o.kv.bytes_read),
            )
            &&& known.resources.bytes_written == gathered(
                numbers(seen, |o: ObservationView| o.kv.bytes_written),
            )
        }),
    decreases seen.len(),
{
    if seen.len() == 0 {
        assert(numbers(seen, |o: ObservationView| o.rows) =~= Seq::empty());
        assert(numbers(seen, |o: ObservationView| o.execute_micros) =~= Seq::empty());
        assert(numbers(seen, |o: ObservationView| o.kv.gets) =~= Seq::empty());
        assert(numbers(seen, |o: ObservationView| o.kv.puts) =~= Seq::empty());
        assert(numbers(seen, |o: ObservationView| o.kv.deletes) =~= Seq::empty());
        assert(numbers(seen, |o: ObservationView| o.kv.scans) =~= Seq::empty());
        assert(numbers(seen, |o: ObservationView| o.kv.iterated) =~= Seq::empty());
        assert(numbers(seen, |o: ObservationView| o.kv.bytes_read) =~= Seq::empty());
        assert(numbers(seen, |o: ObservationView| o.kv.bytes_written) =~= Seq::empty());
    } else {
        let shorter = seen.drop_last();
        assert(one_meaning(shorter)) by {
            assert forall|i: int, k: int|
                0 <= i < shorter.len() && 0 <= k < shorter.len() implies (
            #[trigger] shorter[i]).observation.stamp.semantic == (
            #[trigger] shorter[k]).observation.stamp.semantic by {
                assert(seen[i] == shorter[i] && seen[k] == shorter[k]);
            }
        }
        lemma_histograms(family, shorter);
        lemma_plans_counted(family, shorter);
        assert(seen[seen.len() - 1] == seen.last());
        if shorter.len() > 0 {
            assert(seen[shorter.len() - 1] == shorter.last());
        }
        lemma_numbers_last(seen, |o: ObservationView| o.rows);
        lemma_numbers_last(seen, |o: ObservationView| o.execute_micros);
        lemma_numbers_last(seen, |o: ObservationView| o.kv.gets);
        lemma_numbers_last(seen, |o: ObservationView| o.kv.puts);
        lemma_numbers_last(seen, |o: ObservationView| o.kv.deletes);
        lemma_numbers_last(seen, |o: ObservationView| o.kv.scans);
        lemma_numbers_last(seen, |o: ObservationView| o.kv.iterated);
        lemma_numbers_last(seen, |o: ObservationView| o.kv.bytes_read);
        lemma_numbers_last(seen, |o: ObservationView| o.kv.bytes_written);
        lemma_errors_fit(shorter);
        if let Some(estimate) = seen.last().observation.estimate {
            let error = evidence::q_error(estimate, seen.last().observation.rows);
            let before = errors(shorter);
            let after = errors(seen);
            assert(after.drop_last() =~= before);
            assert(after.last() == error);
            let known = learned(family, shorter).q_error_max_x100;
            let largest = learned(family, seen).q_error_max_x100;
            assert(largest == histogram::larger(known, error));
            assert(after.contains(largest)) by {
                if largest == error {
                    assert(after[after.len() - 1] == error);
                } else {
                    let i = choose|i: int| 0 <= i < before.len() && before[i] == known;
                    assert(after[i] == known);
                }
            }
            assert forall|i: int| 0 <= i < after.len() implies #[trigger] after[i] <= largest by {
                if i < before.len() {
                    assert(before[i] <= known);
                }
            }
        }
    }
}

proof fn lemma_measured(values: Seq<u64>)
    requires
        values.len() <= u64::MAX,
    ensures
        measures(values, evidence::metric_of(gathered(values))),
        gathered(values).count == values.len(),
{
    histograms_bound_quantiles(values, 50);
    histograms_bound_quantiles(values, 95);
}

/// What a planner is told of a statement's family is what its executions were: how
/// many there were and of how many variants, bounds that half and nineteen in
/// twenty of the row counts, times and errors do not exceed and that are tight, the
/// largest of each, how often each plan ran and what the store had to do.
pub proof fn feedback_tells_what_was_seen(family: Fingerprint, seen: Seq<Seen>)
    requires
        0 < seen.len() <= u64::MAX,
        one_meaning(seen),
    ensures
        tells(planner::feedback_of(learned(family, seen)), family, seen),
{
    lemma_histograms(family, seen);
    lemma_plans_counted(family, seen);
    lemma_variants(family, seen);
    lemma_errors_fit(seen);
    lemma_measured(numbers(seen, |o: ObservationView| o.rows));
    lemma_measured(numbers(seen, |o: ObservationView| o.execute_micros));
    lemma_measured(errors(seen));
    lemma_measured(numbers(seen, |o: ObservationView| o.kv.gets));
    lemma_measured(numbers(seen, |o: ObservationView| o.kv.puts));
    lemma_measured(numbers(seen, |o: ObservationView| o.kv.deletes));
    lemma_measured(numbers(seen, |o: ObservationView| o.kv.scans));
    lemma_measured(numbers(seen, |o: ObservationView| o.kv.iterated));
    lemma_measured(numbers(seen, |o: ObservationView| o.kv.bytes_read));
    lemma_measured(numbers(seen, |o: ObservationView| o.kv.bytes_written));
    let last = seen.last();
    assert(learned(family, seen).last_seen == last.at);
    assert(learned(family, seen).duration_ewma_bits == last.mean);
}

/// The metric of a store's requests says how large the values that were seen are; it
/// is there only where some were.
pub proof fn physical_metrics_bound_quantiles(values: Seq<u64>)
    requires
        values.len() <= u64::MAX,
    ensures
        match physical::cost_metric(gathered(values)) {
            None => values.len() == 0,
            Some(metric) => {
                &&& values.len() > 0
                &&& bounds_quantile(values, 50, metric.p50_upper_bound)
                &&& bounds_quantile(values, 95, metric.p95_upper_bound)
                &&& is_largest(values, metric.maximum_upper_bound)
            },
        },
{
    histograms_bound_quantiles(values, 50);
    histograms_bound_quantiles(values, 95);
}

} // verus!
