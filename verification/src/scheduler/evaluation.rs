//! What a replay says of two estimators: how the numbers of a report relate to the
//! statements that were scored.

use vstd::multiset::Multiset;
use vstd::prelude::*;

use crate::scheduler::evidence;
use crate::scheduler::histogram;
use crate::scheduler::planner::StatsView;
use crate::scheduler::plans::{PreparedEntryView, PreparedProgramView, PreparedView};
use crate::scheduler::records::{OutcomeView, ProgramView};
use crate::scheduler::replay::{
    any_matched, executions_scored, is_matched, named, outcomes_scored, program_of,
    CandidateEstimator, CorpusReplayReport, TallyView,
};
use crate::scheduler::scoring;
use crate::scheduler::scoring::{ascending, nearest, rank};

verus! {

// ---- counting ----

/// How many of some items have a property.
pub open spec fn how_many<A>(items: Seq<A>, holds: spec_fn(A) -> bool) -> nat
    decreases items.len(),
{
    if items.len() == 0 {
        0
    } else {
        how_many(items.drop_last(), holds) + (if holds(items.last()) {
            1nat
        } else {
            0nat
        })
    }
}

proof fn lemma_how_many_fit<A>(items: Seq<A>, holds: spec_fn(A) -> bool)
    ensures
        how_many(items, holds) <= items.len(),
    decreases items.len(),
{
    if items.len() > 0 {
        lemma_how_many_fit(items.drop_last(), holds);
    }
}

proof fn lemma_pushed<A>(items: Seq<A>, item: A, holds: spec_fn(A) -> bool)
    ensures
        how_many(items.push(item), holds) == how_many(items, holds) + (if holds(item) {
            1nat
        } else {
            0nat
        }),
{
    assert(items.push(item).drop_last() =~= items);
}

proof fn lemma_counts_as_multiset<A>(items: Seq<A>, holds: spec_fn(A) -> bool)
    ensures
        how_many(items, holds) == items.to_multiset().filter(holds).len(),
    decreases items.len(),
{
    broadcast use vstd::multiset::group_multiset_axioms;

    if items.len() == 0 {
        vstd::seq_lib::to_multiset_len(items);
        assert(items.to_multiset() =~= Multiset::empty());
        assert(items.to_multiset().filter(holds) =~= Multiset::empty());
    } else {
        let shorter = items.drop_last();
        let last = items.last();
        lemma_counts_as_multiset(shorter, holds);
        assert(items =~= shorter.push(last));
        vstd::seq_lib::to_multiset_build(shorter, last);
        let before = shorter.to_multiset();
        assert(items.to_multiset() =~= before.insert(last));
        if holds(last) {
            assert(before.insert(last).filter(holds) =~= before.filter(holds).insert(last));
        } else {
            assert(before.insert(last).filter(holds) =~= before.filter(holds));
        }
    }
}

/// Whether a number is a percentile of some values: one of them, such that its
/// share of the values is no larger, and less than its share is smaller. Of no
/// values it is zero.
pub open spec fn is_percentile(values: Seq<u64>, percent: nat, value: u64) -> bool {
    if values.len() == 0 {
        value == 0
    } else {
        &&& values.contains(value)
        &&& how_many(values, |x: u64| x <= value) * 100 >= percent * values.len()
        &&& how_many(values, |x: u64| x < value) * 100 < percent * values.len()
    }
}

proof fn lemma_sorted_counts(sorted: Seq<u64>, place: int, value: u64)
    requires
        0 <= place < sorted.len(),
        sorted[place] == value,
        forall|i: int, j: int| 0 <= i < j < sorted.len() ==> #[trigger] sorted[i]
            <= #[trigger] sorted[j],
    ensures
        how_many(sorted, |x: u64| x <= value) >= place + 1,
        how_many(sorted, |x: u64| x < value) <= place,
    decreases sorted.len(),
{
    let shorter = sorted.drop_last();
    if place == sorted.len() - 1 {
        lemma_all_counted(sorted, |x: u64| x <= value);
        lemma_how_many_fit(shorter, |x: u64| x < value);
    } else {
        lemma_sorted_counts(shorter, place, value);
        assert(sorted[place] <= sorted[sorted.len() - 1]);
    }
}

proof fn lemma_all_counted<A>(items: Seq<A>, holds: spec_fn(A) -> bool)
    requires
        forall|i: int| 0 <= i < items.len() ==> holds(#[trigger] items[i]),
    ensures
        how_many(items, holds) == items.len(),
    decreases items.len(),
{
    if items.len() > 0 {
        let shorter = items.drop_last();
        assert forall|i: int| 0 <= i < shorter.len() implies holds(#[trigger] shorter[i]) by {
            assert(items[i] == shorter[i]);
        }
        lemma_all_counted(shorter, holds);
        assert(items[items.len() - 1] == items.last());
    }
}

proof fn lemma_same_members(left: Seq<u64>, right: Seq<u64>, value: u64)
    requires
        left.to_multiset() == right.to_multiset(),
        left.contains(value),
    ensures
        right.contains(value),
{
    vstd::seq_lib::to_multiset_contains(left, value);
    vstd::seq_lib::to_multiset_contains(right, value);
}

/// The nearest rank among sorted values is their percentile.
pub proof fn nearest_ranks_are_percentiles(values: Seq<u64>, percent: nat)
    requires
        0 < percent <= 100,
        percent * values.len() <= usize::MAX,
    ensures
        is_percentile(values, percent, nearest(ascending(values), percent)),
{
    scoring::ascending_orders_every_value(values);
    if values.len() > 0 {
        let sorted = ascending(values);
        let place = rank(values.len(), percent);
        let value = nearest(sorted, percent);
        let share = percent * values.len();
        assert(share <= 100 * values.len()) by (nonlinear_arith)
            requires
                percent <= 100,
                share == percent * values.len(),
        ;
        assert(share > 0) by (nonlinear_arith)
            requires
                percent > 0,
                values.len() > 0,
                share == percent * values.len(),
        ;
        lemma_sorted_counts(sorted, place, value);
        lemma_counts_as_multiset(sorted, |x: u64| x <= value);
        lemma_counts_as_multiset(values, |x: u64| x <= value);
        lemma_counts_as_multiset(sorted, |x: u64| x < value);
        lemma_counts_as_multiset(values, |x: u64| x < value);
        assert(sorted[place] == value);
        assert(sorted.contains(value));
        lemma_same_members(sorted, values, value);
    }
}

/// Whether a number is the largest of some values; of no values it is zero.
pub open spec fn is_largest(values: Seq<u64>, largest: u64) -> bool {
    if values.len() == 0 {
        largest == 0
    } else {
        values.contains(largest) && forall|i: int|
            0 <= i < values.len() ==> #[trigger] values[i] <= largest
    }
}

/// The last of sorted values is the largest.
pub proof fn the_last_is_the_largest(values: Seq<u64>)
    ensures
        is_largest(values, scoring::last_of(ascending(values))),
{
    scoring::ascending_orders_every_value(values);
    if values.len() > 0 {
        let sorted = ascending(values);
        let last = scoring::last_of(sorted);
        assert(sorted[sorted.len() - 1] == last);
        lemma_same_members(sorted, values, last);
        assert forall|i: int| 0 <= i < values.len() implies #[trigger] values[i] <= last by {
            assert(values.contains(values[i]));
            lemma_same_members(values, sorted, values[i]);
            let k = choose|k: int| 0 <= k < sorted.len() && sorted[k] == values[i];
            if k < sorted.len() - 1 {
                assert(sorted[k] <= sorted[sorted.len() - 1]);
            }
        }
    }
}

/// The error of an estimate is the ratio of the larger to the smaller of what was
/// expected and what came, each at least one, in hundredths and rounded down.
pub proof fn errors_are_ratios(estimated: u64, actual: u64)
    ensures
        ({
            let expected = if estimated == 0 {
                1int
            } else {
                estimated as int
            };
            let came = if actual == 0 {
                1int
            } else {
                actual as int
            };
            let error = evidence::q_error(estimated, actual);
            &&& expected >= came ==> error * came <= expected * 100
            &&& expected >= came && error < u64::MAX ==> expected * 100 < (error + 1) * came
            &&& came >= expected ==> error * expected <= came * 100
            &&& came >= expected && error < u64::MAX ==> came * 100 < (error + 1) * expected
        }),
{
    let estimate = histogram::larger(estimated, 1) as int;
    let found = histogram::larger(actual, 1) as int;
    let large = if estimate >= found {
        estimate
    } else {
        found
    };
    let small = if estimate <= found {
        estimate
    } else {
        found
    };
    let ratio = large * 100 / small;
    assert(ratio * small <= large * 100 < (ratio + 1) * small) by (nonlinear_arith)
        requires
            ratio == large * 100 / small,
            small > 0,
            large > 0,
    ;
    if ratio > u64::MAX {
        assert(u64::MAX * small <= ratio * small) by (nonlinear_arith)
            requires
                ratio > u64::MAX,
                small > 0,
        ;
    }
}

// ---- what is scored ----

/// A statement of an execution that was planned both ways: as it was planned, how
/// many rows it returned, and what the candidate expected.
pub struct Scored {
    pub statement: PreparedView,
    pub rows: u64,
    pub estimate: Option<u64>,
}

/// What an estimator without evidence of its own goes by.
pub open spec fn expected(scored: Scored) -> u64 {
    match scored.estimate {
        Some(estimate) => estimate,
        None => scored.statement.active,
    }
}

/// How far the active estimate was off.
pub open spec fn active_error(scored: Scored) -> u64 {
    evidence::q_error(scored.statement.active, scored.rows)
}

/// How far the candidate was off.
pub open spec fn candidate_error(scored: Scored) -> u64 {
    evidence::q_error(expected(scored), scored.rows)
}

/// The statements of some outcomes that are scored.
pub open spec fn scored_outcomes<C: CandidateEstimator>(
    statistics: StatsView,
    candidate: &C,
    program: PreparedProgramView,
    outcomes: Seq<OutcomeView>,
) -> Seq<Scored>
    decreases outcomes.len(),
{
    if outcomes.len() == 0 {
        Seq::empty()
    } else {
        let before = scored_outcomes(statistics, candidate, program, outcomes.drop_last());
        let outcome = outcomes.last();
        if is_matched(program, outcome.name) {
            let statement = named(program.structural, outcome.name)->0;
            before.push(
                Scored {
                    statement,
                    rows: outcome.rows,
                    estimate: candidate.spec_estimate(statistics, statement),
                },
            )
        } else {
            before
        }
    }
}

/// The statements of a workload that are scored, in order.
pub open spec fn scored<C: CandidateEstimator>(
    statistics: StatsView,
    prepared: Seq<PreparedEntryView>,
    candidate: &C,
    executions: Seq<ProgramView>,
) -> Seq<Scored>
    decreases executions.len(),
{
    if executions.len() == 0 {
        Seq::empty()
    } else {
        let before = scored(statistics, prepared, candidate, executions.drop_last());
        match program_of(prepared, executions.last().content_hash) {
            Some(program) => before + scored_outcomes(
                statistics,
                candidate,
                program,
                executions.last().outcomes,
            ),
            None => before,
        }
    }
}

/// How many outcomes of planned executions were not planned both ways.
pub open spec fn unmatched(prepared: Seq<PreparedEntryView>, executions: Seq<ProgramView>) -> nat
    decreases executions.len(),
{
    if executions.len() == 0 {
        0
    } else {
        unmatched(prepared, executions.drop_last()) + (match program_of(
            prepared,
            executions.last().content_hash,
        ) {
            Some(program) => how_many(
                executions.last().outcomes,
                |outcome: OutcomeView| !is_matched(program, outcome.name),
            ),
            None => 0,
        })
    }
}

/// Whether an execution can be scored: its program was planned, with one of its
/// statements both ways.
pub open spec fn can_be_scored(prepared: Seq<PreparedEntryView>, execution: ProgramView) -> bool {
    program_of(prepared, execution.content_hash) matches Some(program) && any_matched(
        program,
        execution.outcomes,
    )
}

/// Whether a tally counted what was scored.
pub open spec fn counts(tally: TallyView, all: Seq<Scored>) -> bool {
    &&& tally.baseline_errors == Seq::new(all.len(), |i: int| active_error(all[i]))
    &&& tally.candidate_errors == Seq::new(all.len(), |i: int| candidate_error(all[i]))
    &&& all.len() <= usize::MAX ==> {
        &&& tally.candidate_evidence == how_many(all, |s: Scored| s.estimate is Some)
        &&& tally.candidate_better == how_many(
            all,
            |s: Scored| candidate_error(s) < active_error(s),
        )
        &&& tally.candidate_equal == how_many(
            all,
            |s: Scored| candidate_error(s) == active_error(s),
        )
        &&& tally.candidate_worse == how_many(
            all,
            |s: Scored| candidate_error(s) > active_error(s),
        )
    }
}

proof fn lemma_one_counted(tally: TallyView, all: Seq<Scored>, next: Scored)
    requires
        counts(tally, all),
    ensures
        counts(tally.errors_scored(next.statement, next.estimate, next.rows), all.push(next)),
{
    let after = tally.errors_scored(next.statement, next.estimate, next.rows);
    let more = all.push(next);
    lemma_pushed(all, next, |s: Scored| s.estimate is Some);
    lemma_pushed(all, next, |s: Scored| candidate_error(s) < active_error(s));
    lemma_pushed(all, next, |s: Scored| candidate_error(s) == active_error(s));
    lemma_pushed(all, next, |s: Scored| candidate_error(s) > active_error(s));
    lemma_how_many_fit(all, |s: Scored| s.estimate is Some);
    lemma_how_many_fit(all, |s: Scored| candidate_error(s) < active_error(s));
    lemma_how_many_fit(all, |s: Scored| candidate_error(s) == active_error(s));
    lemma_how_many_fit(all, |s: Scored| candidate_error(s) > active_error(s));
    assert(after.baseline_errors =~= Seq::new(more.len(), |i: int| active_error(more[i])));
    assert(after.candidate_errors =~= Seq::new(more.len(), |i: int| candidate_error(more[i])));
}

proof fn lemma_outcomes_counted<C: CandidateEstimator>(
    tally: TallyView,
    all: Seq<Scored>,
    statistics: StatsView,
    candidate: &C,
    content_hash: u128,
    program: PreparedProgramView,
    outcomes: Seq<OutcomeView>,
)
    requires
        counts(tally, all),
    ensures
        ({
            let after = outcomes_scored(
                tally,
                statistics,
                candidate,
                content_hash,
                program,
                outcomes,
            );
            let missed = how_many(
                outcomes,
                |outcome: OutcomeView| !is_matched(program, outcome.name),
            );
            &&& counts(after, all + scored_outcomes(statistics, candidate, program, outcomes))
            &&& after.executions_scored == tally.executions_scored
            &&& after.executions_without_actuals == tally.executions_without_actuals
            &&& after.incompatible_executions == tally.incompatible_executions
            &&& tally.unmatched_statements + missed <= usize::MAX ==> after.unmatched_statements
                == tally.unmatched_statements + missed
        }),
    decreases outcomes.len(),
{
    if outcomes.len() == 0 {
        assert(all + scored_outcomes(statistics, candidate, program, outcomes) =~= all);
    } else {
        let shorter = outcomes.drop_last();
        lemma_outcomes_counted(
            tally,
            all,
            statistics,
            candidate,
            content_hash,
            program,
            shorter,
        );
        let before = outcomes_scored(tally, statistics, candidate, content_hash, program, shorter);
        let sofar = all + scored_outcomes(statistics, candidate, program, shorter);
        let outcome = outcomes.last();
        if is_matched(program, outcome.name) {
            let statement = named(program.structural, outcome.name)->0;
            let cost_statement = named(program.cost, outcome.name)->0;
            let next = Scored {
                statement,
                rows: outcome.rows,
                estimate: candidate.spec_estimate(statistics, statement),
            };
            let compared = before.plans_compared(
                statistics,
                content_hash,
                outcome.name,
                statement,
                cost_statement,
            );
            assert(counts(compared, sofar));
            lemma_one_counted(compared, sofar, next);
            assert(all + scored_outcomes(statistics, candidate, program, outcomes) =~= sofar.push(
                next,
            ));
            let scored_once = compared.errors_scored(statement, next.estimate, outcome.rows);
            let regretted = scored_once.regret_scored(statistics, statement);
            assert(counts(regretted, sofar.push(next)));
            assert(counts(regretted.resources_scored(statistics, statement), sofar.push(next)));
        }
    }
}

/// The numbers of a report are those of the statements that were scored: how often
/// the candidate was nearer to what came than the active estimate, as near, and
/// farther off, how often it had evidence of its own, and the percentiles of both
/// errors.
pub proof fn reports_compare_the_estimators<C: CandidateEstimator>(
    report: CorpusReplayReport,
    statistics: StatsView,
    prepared: Seq<PreparedEntryView>,
    candidate: &C,
    executions: Seq<ProgramView>,
)
    requires
        report.tells(
            executions_scored(statistics, prepared, candidate, executions),
            candidate.spec_name(),
        ),
        executions.len() <= usize::MAX,
        scored(statistics, prepared, candidate, executions).len() * 100 <= usize::MAX,
        unmatched(prepared, executions) <= usize::MAX,
    ensures
        ({
            let all = scored(statistics, prepared, candidate, executions);
            let active = Seq::new(all.len(), |i: int| active_error(all[i]));
            let other = Seq::new(all.len(), |i: int| candidate_error(all[i]));
            &&& report.statements_scored == all.len()
            &&& report.unmatched_statements == unmatched(prepared, executions)
            &&& report.candidate_evidence == how_many(all, |s: Scored| s.estimate is Some)
            &&& report.candidate_better == how_many(
                all,
                |s: Scored| candidate_error(s) < active_error(s),
            )
            &&& report.candidate_equal == how_many(
                all,
                |s: Scored| candidate_error(s) == active_error(s),
            )
            &&& report.candidate_worse == how_many(
                all,
                |s: Scored| candidate_error(s) > active_error(s),
            )
            &&& report.executions_scored == how_many(
                executions,
                |e: ProgramView| e.outcomes.len() > 0 && can_be_scored(prepared, e),
            )
            &&& report.executions_without_actuals == how_many(
                executions,
                |e: ProgramView| e.outcomes.len() == 0,
            )
            &&& report.incompatible_executions == how_many(
                executions,
                |e: ProgramView| e.outcomes.len() > 0 && !can_be_scored(prepared, e),
            )
            &&& report.baseline.estimator@ == "active"@
            &&& report.baseline.observations == all.len()
            &&& is_percentile(active, 50, report.baseline.q_error_p50_x100)
            &&& is_percentile(active, 95, report.baseline.q_error_p95_x100)
            &&& is_largest(active, report.baseline.q_error_max_x100)
            &&& report.candidate.estimator@ == candidate.spec_name()
            &&& report.candidate.observations == all.len()
            &&& is_percentile(other, 50, report.candidate.q_error_p50_x100)
            &&& is_percentile(other, 95, report.candidate.q_error_p95_x100)
            &&& is_largest(other, report.candidate.q_error_max_x100)
        }),
{
    lemma_workload_counted(statistics, prepared, candidate, executions);
    let tally = executions_scored(statistics, prepared, candidate, executions);
    nearest_ranks_are_percentiles(tally.baseline_errors, 50);
    nearest_ranks_are_percentiles(tally.baseline_errors, 95);
    the_last_is_the_largest(tally.baseline_errors);
    nearest_ranks_are_percentiles(tally.candidate_errors, 50);
    nearest_ranks_are_percentiles(tally.candidate_errors, 95);
    the_last_is_the_largest(tally.candidate_errors);
}

proof fn lemma_workload_counted<C: CandidateEstimator>(
    statistics: StatsView,
    prepared: Seq<PreparedEntryView>,
    candidate: &C,
    executions: Seq<ProgramView>,
)
    requires
        executions.len() <= usize::MAX,
        unmatched(prepared, executions) <= usize::MAX,
    ensures
        ({
            let tally = executions_scored(statistics, prepared, candidate, executions);
            &&& counts(tally, scored(statistics, prepared, candidate, executions))
            &&& tally.unmatched_statements == unmatched(prepared, executions)
            &&& tally.executions_scored == how_many(
                executions,
                |e: ProgramView| e.outcomes.len() > 0 && can_be_scored(prepared, e),
            )
            &&& tally.executions_without_actuals == how_many(
                executions,
                |e: ProgramView| e.outcomes.len() == 0,
            )
            &&& tally.incompatible_executions == how_many(
                executions,
                |e: ProgramView| e.outcomes.len() > 0 && !can_be_scored(prepared, e),
            )
        }),
    decreases executions.len(),
{
    if executions.len() == 0 {
        assert(TallyView::empty().baseline_errors =~= Seq::new(
            0,
            |i: int| active_error(Seq::<Scored>::empty()[i]),
        ));
        assert(TallyView::empty().candidate_errors =~= Seq::new(
            0,
            |i: int| candidate_error(Seq::<Scored>::empty()[i]),
        ));
    } else {
        let shorter = executions.drop_last();
        lemma_workload_counted(statistics, prepared, candidate, shorter);
        let before = executions_scored(statistics, prepared, candidate, shorter);
        let all = scored(statistics, prepared, candidate, shorter);
        let execution = executions.last();
        lemma_how_many_fit(
            shorter,
            |e: ProgramView| e.outcomes.len() > 0 && can_be_scored(prepared, e),
        );
        lemma_how_many_fit(shorter, |e: ProgramView| e.outcomes.len() == 0);
        lemma_how_many_fit(
            shorter,
            |e: ProgramView| e.outcomes.len() > 0 && !can_be_scored(prepared, e),
        );
        if let Some(program) = program_of(prepared, execution.content_hash) {
            lemma_outcomes_counted(
                before,
                all,
                statistics,
                candidate,
                execution.content_hash,
                program,
                execution.outcomes,
            );
            if execution.outcomes.len() == 0 {
                assert(all + scored_outcomes(
                    statistics,
                    candidate,
                    program,
                    execution.outcomes,
                ) =~= all);
            }
        }
    }
}

/// The slowdowns that are told are percentiles and the largest of those seen, and
/// every statement that was scored was compared or is told not to have been.
pub proof fn slowdowns_are_percentiles(regrets: Seq<u64>, scored: nat, families: nat)
    requires
        regrets.len() * 100 <= usize::MAX,
        regrets.len() <= scored,
    ensures
        ({
            let told = scoring::regret_score_of(regrets, scored, families);
            &&& told.statements_compared == regrets.len()
            &&& told.statements_compared + told.statements_without_comparison == scored
            &&& told.families_compared == families
            &&& is_percentile(regrets, 50, told.slowdown_p50_x100)
            &&& is_percentile(regrets, 95, told.slowdown_p95_x100)
            &&& is_largest(regrets, told.slowdown_max_x100)
        }),
{
    nearest_ranks_are_percentiles(regrets, 50);
    nearest_ranks_are_percentiles(regrets, 95);
    the_last_is_the_largest(regrets);
}

} // verus!
