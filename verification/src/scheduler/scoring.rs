//! Scores over recorded executions: exact quantiles, and what a plan costs over
//! the best one that was seen.

use vstd::prelude::*;
use vstd::relations::{sorted_by, total_ordering};

use crate::scheduler::evidence;
use crate::scheduler::evidence::{PlanProfile, ProfileView};
use crate::scheduler::histogram;
use crate::scheduler::histogram::max_of;
use crate::scheduler::sketches::Fingerprint;

verus! {

/// How often a plan must have run before it is compared.
pub const MIN_PLAN_PROFILE_EXECUTIONS: u64 = 3;

/// The values from the smallest to the largest.
pub open spec fn ascending(values: Seq<u64>) -> Seq<u64> {
    values.sort_by(|left: u64, right: u64| left <= right)
}

/// The values from the smallest to the largest.
pub fn sorted(values: &Vec<u64>) -> (result: Vec<u64>)
    ensures
        result@ == ascending(values@),
{
    let ghost leq = |left: u64, right: u64| left <= right;
    let mut result: Vec<u64> = Vec::new();
    let mut i: usize = 0;
    assert(values@.take(0) =~= Seq::empty());
    assert(result@ =~= Seq::empty());
    while i < values.len()
        invariant
            i <= values.len(),
            result.len() == i,
            leq == (|left: u64, right: u64| left <= right),
            sorted_by(result@, leq),
            result@.to_multiset() == values@.take(i as int).to_multiset(),
        decreases values.len() - i,
    {
        let value: u64 = values[i];
        let mut place: usize = 0;
        while place < result.len() && result[place] <= value
            invariant
                place <= result.len(),
                forall|k: int| 0 <= k < place ==> result@[k] <= value,
            decreases result.len() - place,
        {
            place += 1;
        }
        proof {
            assert(values@.take(i + 1) =~= values@.take(i as int).push(value));
            vstd::seq_lib::to_multiset_insert(result@, place as int, value);
            vstd::seq_lib::to_multiset_build(values@.take(i as int), value);
            let after = result@.insert(place as int, value);
            assert forall|a: int, b: int| 0 <= a < b < after.len() implies #[trigger] leq(
                after[a],
                after[b],
            ) by {
                if a < place && b > place {
                    assert(leq(result@[a], result@[b - 1]));
                } else if a < place && b < place {
                    assert(leq(result@[a], result@[b]));
                } else if a > place {
                    assert(leq(result@[a - 1], result@[b - 1]));
                } else if a == place && b - 1 > place {
                    assert(leq(result@[place as int], result@[b - 1]));
                }
            }
        }
        result.insert(place, value);
        i += 1;
    }
    proof {
        assert(values@.take(i as int) =~= values@);
        assert(total_ordering(leq));
        values@.lemma_sort_by_ensures(leq);
        vstd::seq_lib::lemma_sorted_unique(result@, ascending(values@), leq);
    }
    result
}

/// The place of a quantile among that many sorted values: the nearest rank.
pub open spec fn rank(length: nat, percentile: nat) -> int {
    let share = if percentile * length > usize::MAX {
        usize::MAX as int
    } else {
        (percentile * length) as int
    };
    let rank = (share + 99) / 100 - 1;
    if rank < 0 {
        0
    } else if rank > length - 1 {
        length - 1
    } else {
        rank
    }
}

/// A quantile of sorted values; zero where there are none.
pub open spec fn nearest(sorted: Seq<u64>, percentile: nat) -> u64 {
    if sorted.len() == 0 {
        0
    } else {
        sorted[rank(sorted.len(), percentile)]
    }
}

/// A quantile of sorted values; zero where there are none.
pub fn quantile(sorted: &Vec<u64>, percentile: usize) -> (value: u64)
    ensures
        value == nearest(sorted@, percentile as nat),
{
    let length: usize = sorted.len();
    if length == 0 {
        return 0;
    }
    assert(percentile * length <= usize::MAX * usize::MAX) by (nonlinear_arith)
        requires
            0 <= percentile <= usize::MAX,
            0 <= length <= usize::MAX,
    ;
    assert(usize::MAX * usize::MAX <= u128::MAX) by (nonlinear_arith)
        requires
            0 <= usize::MAX <= 0xffff_ffff_ffff_ffff,
    ;
    let product: u128 = percentile as u128 * length as u128;
    let share: u128 = if product > usize::MAX as u128 {
        usize::MAX as u128
    } else {
        product
    };
    let hundredths: u128 = (share + 99) / 100;
    let rank: u128 = if hundredths == 0 {
        0
    } else {
        hundredths - 1
    };
    let rank: usize = if rank > (length - 1) as u128 {
        length - 1
    } else {
        rank as usize
    };
    sorted[rank]
}

/// How an estimator did. The errors are in hundredths.
#[derive(Debug, PartialEq)]
pub struct EstimatorScore {
    pub estimator: String,
    pub observations: usize,
    pub q_error_p50_x100: u64,
    pub q_error_p95_x100: u64,
    pub q_error_max_x100: u64,
}

/// The value of an [`EstimatorScore`].
pub struct ScoreView {
    pub estimator: Seq<char>,
    pub observations: nat,
    pub q_error_p50_x100: u64,
    pub q_error_p95_x100: u64,
    pub q_error_max_x100: u64,
}

impl View for EstimatorScore {
    type V = ScoreView;

    open spec fn view(&self) -> ScoreView {
        ScoreView {
            estimator: self.estimator@,
            observations: self.observations as nat,
            q_error_p50_x100: self.q_error_p50_x100,
            q_error_p95_x100: self.q_error_p95_x100,
            q_error_max_x100: self.q_error_max_x100,
        }
    }
}

/// The last of some values; zero where there are none.
pub open spec fn last_of(values: Seq<u64>) -> u64 {
    if values.len() == 0 {
        0
    } else {
        values.last()
    }
}

fn last_value(values: &Vec<u64>) -> (value: u64)
    ensures
        value == last_of(values@),
{
    if values.len() == 0 {
        0
    } else {
        values[values.len() - 1]
    }
}

/// How an estimator with these errors did.
pub open spec fn score_of(estimator: Seq<char>, errors: Seq<u64>) -> ScoreView {
    ScoreView {
        estimator,
        observations: errors.len(),
        q_error_p50_x100: nearest(ascending(errors), 50),
        q_error_p95_x100: nearest(ascending(errors), 95),
        q_error_max_x100: last_of(ascending(errors)),
    }
}

/// How an estimator with these errors did.
pub fn score(estimator: &str, errors: &Vec<u64>) -> (score: EstimatorScore)
    ensures
        score@ == score_of(estimator@, errors@),
{
    let ordered = sorted(errors);
    EstimatorScore {
        estimator: estimator.to_owned(),
        observations: errors.len(),
        q_error_p50_x100: quantile(&ordered, 50),
        q_error_p95_x100: quantile(&ordered, 95),
        q_error_max_x100: last_value(&ordered),
    }
}

/// How much slower the chosen plans were than the best ones seen, in hundredths.
#[derive(Debug, PartialEq)]
pub struct ObservedPlanRegretScore {
    pub basis: String,
    pub minimum_plan_executions: u64,
    pub statements_compared: usize,
    pub statements_without_comparison: usize,
    pub families_compared: usize,
    pub slowdown_p50_x100: u64,
    pub slowdown_p95_x100: u64,
    pub slowdown_max_x100: u64,
}

/// The value of an [`ObservedPlanRegretScore`].
pub struct RegretView {
    pub basis: Seq<char>,
    pub minimum_plan_executions: u64,
    pub statements_compared: nat,
    pub statements_without_comparison: nat,
    pub families_compared: nat,
    pub slowdown_p50_x100: u64,
    pub slowdown_p95_x100: u64,
    pub slowdown_max_x100: u64,
}

impl View for ObservedPlanRegretScore {
    type V = RegretView;

    open spec fn view(&self) -> RegretView {
        RegretView {
            basis: self.basis@,
            minimum_plan_executions: self.minimum_plan_executions,
            statements_compared: self.statements_compared as nat,
            statements_without_comparison: self.statements_without_comparison as nat,
            families_compared: self.families_compared as nat,
            slowdown_p50_x100: self.slowdown_p50_x100,
            slowdown_p95_x100: self.slowdown_p95_x100,
            slowdown_max_x100: self.slowdown_max_x100,
        }
    }
}

/// What plans are compared by.
pub open spec fn regret_basis() -> Seq<char> {
    "historical_p50_execution_time_for_same_family_row_class_and_access_stamp"@
}

/// How much slower the chosen plans were.
pub open spec fn regret_score_of(
    regrets: Seq<u64>,
    statements_scored: nat,
    families_compared: nat,
) -> RegretView {
    RegretView {
        basis: regret_basis(),
        minimum_plan_executions: MIN_PLAN_PROFILE_EXECUTIONS,
        statements_compared: regrets.len(),
        statements_without_comparison: if statements_scored >= regrets.len() {
            (statements_scored - regrets.len()) as nat
        } else {
            0
        },
        families_compared,
        slowdown_p50_x100: nearest(ascending(regrets), 50),
        slowdown_p95_x100: nearest(ascending(regrets), 95),
        slowdown_max_x100: last_of(ascending(regrets)),
    }
}

/// How much slower the chosen plans were.
pub fn plan_regret_score(
    regrets: &Vec<u64>,
    statements_scored: usize,
    families_compared: usize,
) -> (score: ObservedPlanRegretScore)
    ensures
        score@ == regret_score_of(
            regrets@,
            statements_scored as nat,
            families_compared as nat,
        ),
{
    let ordered = sorted(regrets);
    ObservedPlanRegretScore {
        basis: "historical_p50_execution_time_for_same_family_row_class_and_access_stamp".to_owned(),
        minimum_plan_executions: MIN_PLAN_PROFILE_EXECUTIONS,
        statements_compared: regrets.len(),
        statements_without_comparison: statements_scored.saturating_sub(regrets.len()),
        families_compared,
        slowdown_p50_x100: quantile(&ordered, 50),
        slowdown_p95_x100: quantile(&ordered, 95),
        slowdown_max_x100: last_value(&ordered),
    }
}

/// A product that stops at the maximum.
pub open spec fn saturating_product(left: u64, right: u64) -> u64 {
    if left * right > u64::MAX {
        u64::MAX
    } else {
        (left * right) as u64
    }
}

/// A product that stops at the maximum.
pub fn product(left: u64, right: u64) -> (result: u64)
    ensures
        result == saturating_product(left, right),
{
    assert(left * right <= u64::MAX * u64::MAX) by (nonlinear_arith)
        requires
            0 <= left <= u64::MAX,
            0 <= right <= u64::MAX,
    ;
    let result: u128 = left as u128 * right as u128;
    if result > 0xffff_ffff_ffff_ffff {
        u64::MAX
    } else {
        result as u64
    }
}

impl ProfileView {
    /// Whether a plan ran often enough, on the same access paths.
    pub open spec fn is_comparable(self, access_stamp: u64) -> bool {
        self.access_stamp == access_stamp && self.executions >= MIN_PLAN_PROFILE_EXECUTIONS
    }

    /// Whether a plan did the same work, so that its time can be held against
    /// another's.
    pub open spec fn is_alternative(self, access_stamp: u64, row_class: u64) -> bool {
        self.is_comparable(access_stamp) && self.rows.quantile(50) == row_class
            && self.execute_micros.quantile(50) > 0
    }
}

/// Where a plan that ran often enough stands, from a place on; the end where it
/// does not.
pub open spec fn active_place(
    profiles: Seq<ProfileView>,
    plan: Fingerprint,
    access_stamp: u64,
    from: nat,
) -> nat
    decreases profiles.len() - from,
{
    if from < profiles.len() && !(profiles[from as int].plan == plan
        && profiles[from as int].is_comparable(access_stamp)) {
        active_place(profiles, plan, access_stamp, from + 1)
    } else {
        from
    }
}

/// The shortest time of the alternatives.
pub open spec fn best_cost(profiles: Seq<ProfileView>, access_stamp: u64, row_class: u64) -> Option<
    u64,
>
    decreases profiles.len(),
{
    if profiles.len() == 0 {
        None
    } else {
        let before = best_cost(profiles.drop_last(), access_stamp, row_class);
        let profile = profiles.last();
        if !profile.is_alternative(access_stamp, row_class) {
            before
        } else {
            match before {
                Some(best) => Some(histogram::smaller(best, profile.execute_micros.quantile(50))),
                None => Some(profile.execute_micros.quantile(50)),
            }
        }
    }
}

/// Whether another plan did the same work.
pub open spec fn has_alternative(
    profiles: Seq<ProfileView>,
    plan: Fingerprint,
    access_stamp: u64,
    row_class: u64,
) -> bool {
    exists|i: int|
        0 <= i < profiles.len() && #[trigger] profiles[i].is_alternative(access_stamp, row_class)
            && profiles[i].plan != plan
}

/// How much slower a plan is than the best that did the same work, in
/// hundredths and at least as slow. Nothing is said of a plan that ran too
/// seldom, that took no time, or that nothing can be held against.
pub open spec fn plan_regret(
    active_plan: Fingerprint,
    access_stamp: u64,
    profiles: Seq<ProfileView>,
) -> Option<u64> {
    let place = active_place(profiles, active_plan, access_stamp, 0) as int;
    if place >= profiles.len() {
        None
    } else {
        let active = profiles[place];
        let row_class = active.rows.quantile(50);
        let cost = active.execute_micros.quantile(50);
        if cost == 0 || !has_alternative(profiles, active_plan, access_stamp, row_class) {
            None
        } else {
            match best_cost(profiles, access_stamp, row_class) {
                Some(best) => {
                    let ratio = (saturating_product(cost, 100) + best - 1) / best as int;
                    Some(histogram::larger(ratio as u64, 100))
                },
                None => None,
            }
        }
    }
}

proof fn lemma_best_cost(profiles: Seq<ProfileView>, access_stamp: u64, row_class: u64)
    ensures
        best_cost(profiles, access_stamp, row_class) matches Some(best) ==> best > 0,
        best_cost(profiles, access_stamp, row_class) matches Some(best) ==> forall|i: int|
            0 <= i < profiles.len() && #[trigger] profiles[i].is_alternative(
                access_stamp,
                row_class,
            ) ==> best <= profiles[i].execute_micros.quantile(50),
        best_cost(profiles, access_stamp, row_class) is None ==> forall|i: int|
            0 <= i < profiles.len() ==> !#[trigger] profiles[i].is_alternative(
                access_stamp,
                row_class,
            ),
    decreases profiles.len(),
{
    if profiles.len() > 0 {
        let before = profiles.drop_last();
        lemma_best_cost(before, access_stamp, row_class);
        assert forall|i: int| 0 <= i < before.len() implies #[trigger] profiles[i].is_alternative(
            access_stamp,
            row_class,
        ) == before[i].is_alternative(access_stamp, row_class) by {
            assert(before[i] == profiles[i]);
        }
        assert forall|i: int| 0 <= i < before.len() implies before[i] == #[trigger] profiles[i] by {
        }
    }
}

fn rounded_up(value: u64, by: u64) -> (result: u64)
    requires
        by > 0,
    ensures
        result == ((value + by - 1) / by as int) as u64,
        0 <= (value + by - 1) / by as int <= u64::MAX,
{
    let sum: u128 = value as u128 + (by - 1) as u128;
    assert(sum / by as u128 <= 0xffff_ffff_ffff_ffff) by (nonlinear_arith)
        requires
            sum <= 0xffff_ffff_ffff_ffff + by - 1,
            by > 0,
    ;
    (sum / by as u128) as u64
}

/// How much slower a plan is than the best that did the same work, in
/// hundredths.
pub fn plan_profile_regret_x100(
    active_plan: Fingerprint,
    access_stamp: u64,
    profiles: &Vec<PlanProfile>,
) -> (regret: Option<u64>)
    ensures
        regret == plan_regret(active_plan, access_stamp, evidence::profile_views(profiles@)),
{
    let ghost all = evidence::profile_views(profiles@);
    let mut place: usize = 0;
    while place < profiles.len() && !(profiles[place].plan == active_plan
        && profiles[place].access_stamp == access_stamp && profiles[place].executions
        >= MIN_PLAN_PROFILE_EXECUTIONS)
        invariant
            place <= profiles.len(),
            all == evidence::profile_views(profiles@),
            active_place(all, active_plan, access_stamp, 0) == active_place(
                all,
                active_plan,
                access_stamp,
                place as nat,
            ),
        decreases profiles.len() - place,
    {
        assert(all[place as int] == profiles@[place as int]@);
        place += 1;
    }
    if place >= profiles.len() {
        return None;
    }
    assert(all[place as int] == profiles@[place as int]@);
    let row_class: u64 = profiles[place].rows_p50_upper_bound();
    let active_cost: u64 = profiles[place].execute_micros_p50_upper_bound();
    if active_cost == 0 {
        return None;
    }
    let mut best: Option<u64> = None;
    let mut differs: bool = false;
    let mut i: usize = 0;
    assert(all.take(0) =~= Seq::empty());
    while i < profiles.len()
        invariant
            i <= profiles.len(),
            all == evidence::profile_views(profiles@),
            best == best_cost(all.take(i as int), access_stamp, row_class),
            differs == exists|k: int|
                0 <= k < i && #[trigger] all[k].is_alternative(access_stamp, row_class)
                    && all[k].plan != active_plan,
        decreases profiles.len() - i,
    {
        assert(all[i as int] == profiles@[i as int]@);
        assert(all.take(i + 1).drop_last() =~= all.take(i as int));
        let cost: u64 = profiles[i].execute_micros_p50_upper_bound();
        if profiles[i].access_stamp == access_stamp && profiles[i].executions
            >= MIN_PLAN_PROFILE_EXECUTIONS && profiles[i].rows_p50_upper_bound() == row_class
            && cost > 0 {
            assert(all[i as int].is_alternative(access_stamp, row_class));
            best = match best {
                Some(found) => Some(histogram::min_of(found, cost)),
                None => Some(cost),
            };
            if !(profiles[i].plan == active_plan) {
                differs = true;
            }
        } else {
            assert(!all[i as int].is_alternative(access_stamp, row_class));
        }
        i += 1;
    }
    assert(all.take(i as int) =~= all);
    if !differs {
        return None;
    }
    proof {
        lemma_best_cost(all, access_stamp, row_class);
    }
    match best {
        Some(best) => Some(max_of(rounded_up(product(active_cost, 100), best), 100)),
        None => None,
    }
}

// ---- what scores promise ----

/// Sorting keeps every value and puts none before a smaller one.
pub proof fn ascending_orders_every_value(values: Seq<u64>)
    ensures
        ascending(values).to_multiset() == values.to_multiset(),
        ascending(values).len() == values.len(),
        forall|i: int, j: int|
            0 <= i < j < values.len() ==> #[trigger] ascending(values)[i]
                <= #[trigger] ascending(values)[j],
{
    let leq = |left: u64, right: u64| left <= right;
    values.lemma_sort_by_ensures(leq);
    vstd::seq_lib::to_multiset_len(values);
    vstd::seq_lib::to_multiset_len(ascending(values));
    assert forall|i: int, j: int| 0 <= i < j < values.len() implies #[trigger] ascending(values)[i]
        <= #[trigger] ascending(values)[j] by {
        assert(leq(ascending(values)[i], ascending(values)[j]));
    }
}

/// A quantile is a value that was seen, and at least its share of the values is
/// no larger.
pub proof fn exact_quantiles_cover_their_share(values: Seq<u64>, percentile: nat)
    requires
        values.len() > 0,
        percentile <= 100,
        percentile * values.len() <= usize::MAX,
    ensures
        exists|place: int|
            0 <= place < values.len() && #[trigger] ascending(values)[place] == nearest(
                ascending(values),
                percentile,
            ) && 100 * (place + 1) >= percentile * values.len() && forall|i: int|
                0 <= i <= place ==> #[trigger] ascending(values)[i] <= nearest(
                    ascending(values),
                    percentile,
                ),
{
    ascending_orders_every_value(values);
    let place = rank(values.len(), percentile);
    assert(percentile * values.len() <= 100 * values.len()) by (nonlinear_arith)
        requires
            percentile <= 100,
    ;
    assert(ascending(values)[place] == nearest(ascending(values), percentile));
}

/// No plan is better than the best: a regret is at least one.
pub proof fn regrets_are_at_least_one(
    active_plan: Fingerprint,
    access_stamp: u64,
    profiles: Seq<ProfileView>,
)
    ensures
        plan_regret(active_plan, access_stamp, profiles) matches Some(regret) ==> regret >= 100,
{
}

} // verus!
