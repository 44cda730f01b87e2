//! Estimator evaluation over recorded statement cardinalities.
//!
//! Programs are bound and planned, and never executed, so what they would change
//! stays as it is.

use vstd::prelude::*;
use vstd::utf8::encode_utf8;

use crate::scheduler::evidence;
use crate::scheduler::evidence::{
    q_error_x100, KvResourceCost, KvResourceDistribution, ProfileView, ResourcesView,
};
use crate::scheduler::histogram;
use crate::scheduler::histogram::max_of;
use crate::scheduler::identity;
use crate::scheduler::identity::{digest_text, push_big_endian, push_bytes};
use crate::scheduler::physical::PhysicalCostModel;
use crate::scheduler::planner;
use crate::scheduler::planner::{PlannerStats, StatsView};
use crate::scheduler::plans;
use crate::scheduler::plans::{
    decide, PlannerReplayScore, PlannerScoreView, PreparedEntry, PreparedEntryView,
    PreparedProgram, PreparedProgramView, PreparedStatementEstimate, PreparedView,
};
use crate::scheduler::records;
use crate::scheduler::records::{OutcomeView, ProgramStatementOutcome, ProgramView};
use crate::scheduler::scoring;
use crate::scheduler::scoring::{
    plan_profile_regret_x100, plan_regret_score, score, EstimatorScore, ObservedPlanRegretScore,
};
use crate::scheduler::sketches::Fingerprint;
use crate::scheduler::storage;
use crate::scheduler::storage::CorpusExecution;
use crate::text::same_text;

verus! {

pub const DEFAULT_REPLAY_LIMIT: usize = 1_000;

pub const MAX_REPLAY_LIMIT: usize = 10_000;

// ---- candidates ----

/// An estimator that is held against the active one.
pub trait CandidateEstimator {
    spec fn spec_name(&self) -> Seq<char>;

    spec fn spec_estimate(&self, statistics: StatsView, statement: PreparedView) -> Option<u64>;

    fn name(&self) -> (name: String)
        ensures
            name@ == self.spec_name(),
    ;

    /// Nothing where the candidate has no evidence that applies; the active
    /// estimate is scored in its place.
    fn estimate(
        &self,
        statistics: &PlannerStats,
        statement: &PreparedStatementEstimate,
    ) -> (estimate: Option<u64>)
        ensures
            estimate == self.spec_estimate(statistics@, statement@),
    ;
}

/// The candidate that goes by what a statement's family was seen to return.
#[derive(Clone, Copy, Debug, PartialEq, Eq, Structural)]
pub struct FamilyFeedbackCandidate;

impl CandidateEstimator for FamilyFeedbackCandidate {
    open spec fn spec_name(&self) -> Seq<char> {
        "family_feedback_with_active_fallback"@
    }

    open spec fn spec_estimate(&self, statistics: StatsView, statement: PreparedView) -> Option<
        u64,
    > {
        statement.family_feedback
    }

    fn name(&self) -> (name: String) {
        "family_feedback_with_active_fallback".to_owned()
    }

    fn estimate(
        &self,
        statistics: &PlannerStats,
        statement: &PreparedStatementEstimate,
    ) -> (estimate: Option<u64>) {
        statement.family_feedback
    }
}

// ---- which corpus was replayed ----

/// Outcomes as bytes: the length of each name, the name, and the rows.
pub open spec fn outcome_bytes(outcomes: Seq<OutcomeView>) -> Seq<u8>
    decreases outcomes.len(),
{
    if outcomes.len() == 0 {
        Seq::empty()
    } else {
        let name = encode_utf8(outcomes.last().name);
        outcome_bytes(outcomes.drop_last()) + identity::big_endian(name.len(), 8) + name
            + identity::big_endian(outcomes.last().rows as nat, 8)
    }
}

/// An execution as bytes.
pub open spec fn execution_bytes(execution: ProgramView) -> Seq<u8> {
    identity::big_endian(execution.content_hash as nat, 16) + identity::big_endian(
        execution.at_unix_micros as nat,
        8,
    ) + identity::big_endian(execution.statements as nat, 4) + identity::big_endian(
        execution.outcomes.len(),
        8,
    ) + outcome_bytes(execution.outcomes)
}

/// A corpus as bytes.
pub open spec fn corpus_bytes(executions: Seq<ProgramView>) -> Seq<u8>
    decreases executions.len(),
{
    if executions.len() == 0 {
        Seq::empty()
    } else {
        corpus_bytes(executions.drop_last()) + execution_bytes(executions.last())
    }
}

fn push_outcomes(target: &mut Vec<u8>, outcomes: &Vec<ProgramStatementOutcome>)
    ensures
        final(target)@ == old(target)@ + outcome_bytes(records::outcome_views(outcomes@)),
{
    let ghost before = target@;
    let ghost all = records::outcome_views(outcomes@);
    let mut i: usize = 0;
    assert(all.take(0) =~= Seq::empty());
    assert(target@ =~= before + outcome_bytes(all.take(0)));
    while i < outcomes.len()
        invariant
            i <= outcomes.len(),
            all == records::outcome_views(outcomes@),
            target@ == before + outcome_bytes(all.take(i as int)),
        decreases outcomes.len() - i,
    {
        proof {
            assert(all.take(i + 1).drop_last() =~= all.take(i as int));
            assert(all.take(i + 1).last() == outcomes@[i as int]@);
        }
        let name = outcomes[i].name.as_str().as_bytes();
        push_big_endian(target, name.len() as u128, 8);
        push_bytes(target, name);
        push_big_endian(target, outcomes[i].rows as u128, 8);
        assert(target@ =~= before + outcome_bytes(all.take(i + 1)));
        i += 1;
    }
    assert(all.take(i as int) =~= all);
}

/// The digest of a corpus, in hexadecimal.
pub fn corpus_digest(executions: &Vec<CorpusExecution>) -> (digest: String)
    ensures
        digest@ == identity::hex(
            identity::sha256(corpus_bytes(storage::corpus_views(executions@))),
        ),
{
    let ghost all = storage::corpus_views(executions@);
    let mut bytes: Vec<u8> = Vec::new();
    let mut i: usize = 0;
    assert(all.take(0) =~= Seq::empty());
    assert(bytes@ =~= Seq::empty());
    while i < executions.len()
        invariant
            i <= executions.len(),
            all == storage::corpus_views(executions@),
            bytes@ == corpus_bytes(all.take(i as int)),
        decreases executions.len() - i,
    {
        proof {
            assert(all.take(i + 1).drop_last() =~= all.take(i as int));
            assert(all.take(i + 1).last() == executions@[i as int]@);
        }
        let execution = &executions[i];
        push_big_endian(&mut bytes, execution.content_hash, 16);
        push_big_endian(&mut bytes, execution.at_unix_micros as u128, 8);
        push_big_endian(&mut bytes, execution.statements as u128, 4);
        push_big_endian(&mut bytes, execution.outcomes.len() as u128, 8);
        push_outcomes(&mut bytes, &execution.outcomes);
        assert(bytes@ =~= corpus_bytes(all.take(i as int)) + execution_bytes(execution@));
        i += 1;
    }
    assert(all.take(i as int) =~= all);
    digest_text(&bytes)
}

// ---- what is known of a plan ----

/// Where a plan stands among the profiles, from a place on; the end where it
/// does not.
pub open spec fn profile_place(
    profiles: Seq<ProfileView>,
    plan: Fingerprint,
    access_stamp: u64,
    from: nat,
) -> nat
    decreases profiles.len() - from,
{
    if from < profiles.len() && !profiles[from as int].is_of(plan, access_stamp) {
        profile_place(profiles, plan, access_stamp, from + 1)
    } else {
        from
    }
}

/// The profiles of a family; none where nothing is known of it.
pub open spec fn family_profiles(statistics: StatsView, family: Fingerprint) -> Option<
    Seq<ProfileView>,
> {
    let place = planner::feedback_place(statistics.statement_models, family, 0) as int;
    if place < statistics.statement_models.len() {
        Some(statistics.statement_models[place].plan_profiles)
    } else {
        None
    }
}

/// What a statement's plan was seen to use; nothing where it was not seen.
pub open spec fn active_resources(statistics: StatsView, statement: PreparedView) -> Option<
    ResourcesView,
> {
    match family_profiles(statistics, statement.family) {
        Some(profiles) => {
            let place = profile_place(
                profiles,
                statement.plan.fingerprint,
                statement.plan.stamp.access,
                0,
            ) as int;
            if place < profiles.len() {
                Some(profiles[place].resources)
            } else {
                None
            }
        },
        None => None,
    }
}

/// How much slower a statement's plan is than the best that was seen.
pub open spec fn observed_regret(statistics: StatsView, statement: PreparedView) -> Option<u64> {
    match family_profiles(statistics, statement.family) {
        Some(profiles) => scoring::plan_regret(
            statement.plan.fingerprint,
            statement.plan.stamp.access,
            profiles,
        ),
        None => None,
    }
}

fn family_index(statistics: &PlannerStats, family: Fingerprint) -> (place: usize)
    ensures
        place == planner::feedback_place(statistics@.statement_models, family, 0),
        place <= statistics.statement_models.len(),
{
    let ghost all = statistics@.statement_models;
    let mut place: usize = 0;
    while place < statistics.statement_models.len() && !(statistics.statement_models[place].family
        == family)
        invariant
            place <= statistics.statement_models.len(),
            all == planner::feedback_views(statistics.statement_models@),
            planner::feedback_place(all, family, 0) == planner::feedback_place(
                all,
                family,
                place as nat,
            ),
        decreases statistics.statement_models.len() - place,
    {
        assert(all[place as int] == statistics.statement_models@[place as int]@);
        place += 1;
    }
    if place < statistics.statement_models.len() {
        assert(all[place as int] == statistics.statement_models@[place as int]@);
    }
    place
}

/// What a statement's plan was seen to use; nothing where it was not seen.
pub fn active_plan_profile(
    statistics: &PlannerStats,
    statement: &PreparedStatementEstimate,
) -> (resources: Option<KvResourceDistribution>)
    ensures
        match resources {
            Some(resources) => active_resources(statistics@, statement@) == Some(resources@),
            None => active_resources(statistics@, statement@) is None,
        },
{
    let place: usize = family_index(statistics, statement.family);
    if place >= statistics.statement_models.len() {
        return None;
    }
    let model = &statistics.statement_models[place];
    assert(statistics@.statement_models[place as int] == model@);
    let profiles = &model.plan_profiles;
    let ghost all = evidence::profile_views(profiles@);
    let plan = statement.plan.fingerprint;
    let access_stamp: u64 = statement.plan.stamp.access;
    let mut i: usize = 0;
    while i < profiles.len() && !(profiles[i].plan == plan && profiles[i].access_stamp
        == access_stamp)
        invariant
            i <= profiles.len(),
            all == evidence::profile_views(profiles@),
            profile_place(all, plan, access_stamp, 0) == profile_place(
                all,
                plan,
                access_stamp,
                i as nat,
            ),
        decreases profiles.len() - i,
    {
        assert(all[i as int] == profiles@[i as int]@);
        i += 1;
    }
    if i < profiles.len() {
        assert(all[i as int] == profiles@[i as int]@);
        Some(profiles[i].resources)
    } else {
        None
    }
}

/// How much slower a statement's plan is than the best that was seen, in
/// hundredths.
pub fn observed_plan_regret_x100(
    statistics: &PlannerStats,
    statement: &PreparedStatementEstimate,
) -> (regret: Option<u64>)
    ensures
        regret == observed_regret(statistics@, statement@),
{
    let place: usize = family_index(statistics, statement.family);
    if place >= statistics.statement_models.len() {
        return None;
    }
    let model = &statistics.statement_models[place];
    assert(statistics@.statement_models[place as int] == model@);
    plan_profile_regret_x100(
        statement.plan.fingerprint,
        statement.plan.stamp.access,
        &model.plan_profiles,
    )
}

// ---- the tally of a replay ----

/// What a replay counted so far.
#[derive(Debug, PartialEq)]
pub struct ReplayTally {
    pub baseline_errors: Vec<u64>,
    pub candidate_errors: Vec<u64>,
    pub executions_scored: usize,
    pub executions_without_actuals: usize,
    pub incompatible_executions: usize,
    pub unmatched_statements: usize,
    pub candidate_evidence: usize,
    pub candidate_better: usize,
    pub candidate_equal: usize,
    pub candidate_worse: usize,
    pub plan_regrets: Vec<u64>,
    pub plan_families: Vec<Fingerprint>,
    pub profile_keys: Vec<(Fingerprint, Fingerprint, u64)>,
    pub resources: KvResourceDistribution,
    pub profiles_with_cost: usize,
    pub replayed: Vec<(u128, String)>,
    pub planner: PlannerReplayScore,
}

/// The value of a [`ReplayTally`].
#[verifier::ext_equal]
pub struct TallyView {
    pub baseline_errors: Seq<u64>,
    pub candidate_errors: Seq<u64>,
    pub executions_scored: usize,
    pub executions_without_actuals: usize,
    pub incompatible_executions: usize,
    pub unmatched_statements: usize,
    pub candidate_evidence: usize,
    pub candidate_better: usize,
    pub candidate_equal: usize,
    pub candidate_worse: usize,
    pub plan_regrets: Seq<u64>,
    pub plan_families: Seq<Fingerprint>,
    pub profile_keys: Seq<(Fingerprint, Fingerprint, u64)>,
    pub resources: ResourcesView,
    pub profiles_with_cost: usize,
    pub replayed: Seq<(u128, Seq<char>)>,
    pub planner: PlannerScoreView,
}

pub open spec fn replayed_views(replayed: Seq<(u128, String)>) -> Seq<(u128, Seq<char>)> {
    Seq::new(replayed.len(), |i: int| (replayed[i].0, replayed[i].1@))
}

impl View for ReplayTally {
    type V = TallyView;

    open spec fn view(&self) -> TallyView {
        TallyView {
            baseline_errors: self.baseline_errors@,
            candidate_errors: self.candidate_errors@,
            executions_scored: self.executions_scored,
            executions_without_actuals: self.executions_without_actuals,
            incompatible_executions: self.incompatible_executions,
            unmatched_statements: self.unmatched_statements,
            candidate_evidence: self.candidate_evidence,
            candidate_better: self.candidate_better,
            candidate_equal: self.candidate_equal,
            candidate_worse: self.candidate_worse,
            plan_regrets: self.plan_regrets@,
            plan_families: self.plan_families@,
            profile_keys: self.profile_keys@,
            resources: self.resources@,
            profiles_with_cost: self.profiles_with_cost,
            replayed: replayed_views(self.replayed@),
            planner: self.planner@,
        }
    }
}

/// An item among others, each of which stands there once.
pub open spec fn with_item<A>(items: Seq<A>, item: A) -> Seq<A> {
    if items.contains(item) {
        items
    } else {
        items.push(item)
    }
}

/// How often a family weighs: as often as it was seen, and at least once.
pub open spec fn family_weight(statistics: StatsView, family: Fingerprint) -> u64 {
    histogram::larger(statistics.workload_frequency.estimate(family) as u64, 1)
}

impl TallyView {
    /// Nothing counted.
    pub open spec fn empty() -> TallyView {
        TallyView {
            baseline_errors: Seq::empty(),
            candidate_errors: Seq::empty(),
            executions_scored: 0,
            executions_without_actuals: 0,
            incompatible_executions: 0,
            unmatched_statements: 0,
            candidate_evidence: 0,
            candidate_better: 0,
            candidate_equal: 0,
            candidate_worse: 0,
            plan_regrets: Seq::empty(),
            plan_families: Seq::empty(),
            profile_keys: Seq::empty(),
            resources: ResourcesView::empty(),
            profiles_with_cost: 0,
            replayed: Seq::empty(),
            planner: PlannerScoreView::empty(),
        }
    }

    /// With the plans of a statement compared; once for each statement of a
    /// program.
    pub open spec fn plans_compared(
        self,
        statistics: StatsView,
        content_hash: u128,
        name: Seq<char>,
        statement: PreparedView,
        cost_statement: PreparedView,
    ) -> TallyView {
        if self.replayed.contains((content_hash, name)) {
            self
        } else {
            TallyView {
                replayed: self.replayed.push((content_hash, name)),
                planner: self.planner.compared(
                    plans::decision_of(name, statement, cost_statement),
                    family_weight(statistics, statement.family),
                ),
                ..self
            }
        }
    }

    /// With the errors of an outcome; the active estimate stands in for a
    /// candidate that has none.
    pub open spec fn errors_scored(
        self,
        statement: PreparedView,
        estimate: Option<u64>,
        rows: u64,
    ) -> TallyView {
        let baseline = evidence::q_error(statement.active, rows);
        let candidate = evidence::q_error(
            match estimate {
                Some(estimate) => estimate,
                None => statement.active,
            },
            rows,
        );
        TallyView {
            baseline_errors: self.baseline_errors.push(baseline),
            candidate_errors: self.candidate_errors.push(candidate),
            candidate_evidence: self.candidate_evidence.saturating_add(
                plans::one_if(estimate is Some),
            ),
            candidate_better: self.candidate_better.saturating_add(
                plans::one_if(candidate < baseline),
            ),
            candidate_equal: self.candidate_equal.saturating_add(
                plans::one_if(candidate == baseline),
            ),
            candidate_worse: self.candidate_worse.saturating_add(
                plans::one_if(candidate > baseline),
            ),
            ..self
        }
    }

    /// With the regret of a plan, where there is one.
    pub open spec fn regret_scored(
        self,
        statistics: StatsView,
        statement: PreparedView,
    ) -> TallyView {
        match observed_regret(statistics, statement) {
            Some(regret) => TallyView {
                plan_families: with_item(self.plan_families, statement.family),
                plan_regrets: self.plan_regrets.push(regret),
                ..self
            },
            None => self,
        }
    }

    /// With what a plan was seen to use; once for each plan.
    pub open spec fn resources_scored(
        self,
        statistics: StatsView,
        statement: PreparedView,
    ) -> TallyView {
        let key = (statement.family, statement.plan.fingerprint, statement.plan.stamp.access);
        if self.profile_keys.contains(key) {
            self
        } else {
            let counted = TallyView { profile_keys: self.profile_keys.push(key), ..self };
            match active_resources(statistics, statement) {
                Some(resources) => if resources.cost() is Some {
                    TallyView {
                        resources: self.resources.merged(resources),
                        profiles_with_cost: self.profiles_with_cost.saturating_add(1),
                        ..counted
                    }
                } else {
                    counted
                },
                None => counted,
            }
        }
    }

    /// With the outcome of a statement that was planned both ways.
    pub open spec fn statement_scored(
        self,
        statistics: StatsView,
        content_hash: u128,
        outcome: OutcomeView,
        statement: PreparedView,
        cost_statement: PreparedView,
        estimate: Option<u64>,
    ) -> TallyView {
        self.plans_compared(
            statistics,
            content_hash,
            outcome.name,
            statement,
            cost_statement,
        ).errors_scored(statement, estimate, outcome.rows).regret_scored(
            statistics,
            statement,
        ).resources_scored(statistics, statement)
    }
}

impl ReplayTally {
    fn empty() -> (tally: ReplayTally)
        ensures
            tally@ == TallyView::empty(),
    {
        let tally = ReplayTally {
            baseline_errors: Vec::new(),
            candidate_errors: Vec::new(),
            executions_scored: 0,
            executions_without_actuals: 0,
            incompatible_executions: 0,
            unmatched_statements: 0,
            candidate_evidence: 0,
            candidate_better: 0,
            candidate_equal: 0,
            candidate_worse: 0,
            plan_regrets: Vec::new(),
            plan_families: Vec::new(),
            profile_keys: Vec::new(),
            resources: KvResourceDistribution::default(),
            profiles_with_cost: 0,
            replayed: Vec::new(),
            planner: PlannerReplayScore::empty(),
        };
        assert(tally@ =~= TallyView::empty());
        tally
    }

    fn was_replayed(&self, content_hash: u128, name: &String) -> (found: bool)
        ensures
            found == self@.replayed.contains((content_hash, name@)),
    {
        let ghost all = self@.replayed;
        let mut i: usize = 0;
        while i < self.replayed.len()
            invariant
                i <= self.replayed.len(),
                all == replayed_views(self.replayed@),
                forall|k: int| 0 <= k < i ==> all[k] != (content_hash, name@),
            decreases self.replayed.len() - i,
        {
            assert(all[i as int] == (self.replayed@[i as int].0, self.replayed@[i as int].1@));
            if self.replayed[i].0 == content_hash && same_text(
                self.replayed[i].1.as_str(),
                name.as_str(),
            ) {
                assert(all[i as int] == (content_hash, name@));
                return true;
            }
            i += 1;
        }
        false
    }

    fn compare_plans(
        &mut self,
        statistics: &PlannerStats,
        content_hash: u128,
        name: &String,
        statement: &PreparedStatementEstimate,
        cost_statement: &PreparedStatementEstimate,
    )
        requires
            statistics@.workload_frequency.wf(),
        ensures
            final(self)@ == old(self)@.plans_compared(
                statistics@,
                content_hash,
                name@,
                statement@,
                cost_statement@,
            ),
    {
        if !self.was_replayed(content_hash, name) {
            self.replayed.push((content_hash, name.as_str().to_owned()));
            assert(self@.replayed =~= old(self)@.replayed.push((content_hash, name@)));
            let weight: u64 = max_of(statistics.frequency(&statement.family) as u64, 1);
            self.planner.compare(decide(name, statement, cost_statement), weight);
        }
    }

    fn score_errors(
        &mut self,
        statement: &PreparedStatementEstimate,
        estimate: Option<u64>,
        rows: u64,
    )
        ensures
            final(self)@ == old(self)@.errors_scored(statement@, estimate, rows),
    {
        let baseline: u64 = q_error_x100(statement.active, rows);
        if estimate.is_some() {
            self.candidate_evidence = self.candidate_evidence.saturating_add(1);
        }
        let candidate: u64 = q_error_x100(
            match estimate {
                Some(estimate) => estimate,
                None => statement.active,
            },
            rows,
        );
        self.baseline_errors.push(baseline);
        self.candidate_errors.push(candidate);
        if candidate < baseline {
            self.candidate_better = self.candidate_better.saturating_add(1);
        } else if candidate == baseline {
            self.candidate_equal = self.candidate_equal.saturating_add(1);
        } else {
            self.candidate_worse = self.candidate_worse.saturating_add(1);
        }
        assert(self@ =~= old(self)@.errors_scored(statement@, estimate, rows));
    }

    fn score_regret(&mut self, statistics: &PlannerStats, statement: &PreparedStatementEstimate)
        ensures
            final(self)@ == old(self)@.regret_scored(statistics@, statement@),
    {
        if let Some(regret) = observed_plan_regret_x100(statistics, statement) {
            let family = statement.family;
            let mut i: usize = 0;
            while i < self.plan_families.len() && !(self.plan_families[i] == family)
                invariant
                    i <= self.plan_families.len(),
                    forall|k: int| 0 <= k < i ==> self.plan_families@[k] != family,
                decreases self.plan_families.len() - i,
            {
                i += 1;
            }
            if i == self.plan_families.len() {
                assert(!self.plan_families@.contains(family));
                self.plan_families.push(family);
            }
            self.plan_regrets.push(regret);
            assert(self@ =~= old(self)@.regret_scored(statistics@, statement@));
        }
    }

    fn score_resources(&mut self, statistics: &PlannerStats, statement: &PreparedStatementEstimate)
        ensures
            final(self)@ == old(self)@.resources_scored(statistics@, statement@),
    {
        let family = statement.family;
        let plan = statement.plan.fingerprint;
        let access: u64 = statement.plan.stamp.access;
        let ghost key = (family, plan, access);
        let mut i: usize = 0;
        while i < self.profile_keys.len() && !(self.profile_keys[i].0 == family
            && self.profile_keys[i].1 == plan && self.profile_keys[i].2 == access)
            invariant
                i <= self.profile_keys.len(),
                key == (family, plan, access),
                forall|k: int| 0 <= k < i ==> self.profile_keys@[k] != key,
            decreases self.profile_keys.len() - i,
        {
            i += 1;
        }
        if i < self.profile_keys.len() {
            assert(self.profile_keys@[i as int] == key);
            return;
        }
        assert(!self.profile_keys@.contains(key));
        self.profile_keys.push((family, plan, access));
        if let Some(resources) = active_plan_profile(statistics, statement) {
            if resources.cost().is_some() {
                self.resources.merge(&resources);
                self.profiles_with_cost = self.profiles_with_cost.saturating_add(1);
            }
        }
        assert(self@ =~= old(self)@.resources_scored(statistics@, statement@));
    }

    fn score_statement(
        &mut self,
        statistics: &PlannerStats,
        content_hash: u128,
        outcome: &ProgramStatementOutcome,
        statement: &PreparedStatementEstimate,
        cost_statement: &PreparedStatementEstimate,
        estimate: Option<u64>,
    )
        requires
            statistics@.workload_frequency.wf(),
        ensures
            final(self)@ == old(self)@.statement_scored(
                statistics@,
                content_hash,
                outcome@,
                statement@,
                cost_statement@,
                estimate,
            ),
    {
        self.compare_plans(statistics, content_hash, &outcome.name, statement, cost_statement);
        self.score_errors(statement, estimate, outcome.rows);
        self.score_regret(statistics, statement);
        self.score_resources(statistics, statement);
    }
}

/// The statement of a name; the last one where there are several.
pub open spec fn named(statements: Seq<PreparedView>, name: Seq<char>) -> Option<PreparedView>
    decreases statements.len(),
{
    if statements.len() == 0 {
        None
    } else if statements.last().name == name {
        Some(statements.last())
    } else {
        named(statements.drop_last(), name)
    }
}

fn find_named(statements: &Vec<PreparedStatementEstimate>, name: &String) -> (place: Option<usize>)
    ensures
        match place {
            Some(place) => place < statements.len() && named(
                plans::prepared_views(statements@),
                name@,
            ) == Some(statements@[place as int]@),
            None => named(plans::prepared_views(statements@), name@) is None,
        },
{
    let ghost all = plans::prepared_views(statements@);
    let mut found: Option<usize> = None;
    let mut i: usize = 0;
    assert(all.take(0) =~= Seq::empty());
    while i < statements.len()
        invariant
            i <= statements.len(),
            all == plans::prepared_views(statements@),
            match found {
                Some(place) => place < statements.len() && named(all.take(i as int), name@) == Some(
                    statements@[place as int]@,
                ),
                None => named(all.take(i as int), name@) is None,
            },
        decreases statements.len() - i,
    {
        proof {
            assert(all.take(i + 1).drop_last() =~= all.take(i as int));
            assert(all.take(i + 1).last() == statements@[i as int]@);
        }
        if same_text(statements[i].name.as_str(), name.as_str()) {
            found = Some(i);
        }
        i += 1;
    }
    assert(all.take(i as int) =~= all);
    found
}

/// Where a program stands, from a place on; the end where it does not.
pub open spec fn program_place(
    entries: Seq<PreparedEntryView>,
    content_hash: u128,
    from: nat,
) -> nat
    decreases entries.len() - from,
{
    if from < entries.len() && entries[from as int].content_hash != content_hash {
        program_place(entries, content_hash, from + 1)
    } else {
        from
    }
}

/// The program of a content; nothing where it could not be planned.
pub open spec fn program_of(entries: Seq<PreparedEntryView>, content_hash: u128) -> Option<
    PreparedProgramView,
> {
    let place = program_place(entries, content_hash, 0) as int;
    if place < entries.len() {
        entries[place].program
    } else {
        None
    }
}

fn find_program<'a>(entries: &'a Vec<PreparedEntry>, content_hash: u128) -> (program: Option<
    &'a PreparedProgram,
>)
    ensures
        match program {
            Some(program) => program_of(plans::entry_views(entries@), content_hash) == Some(
                program@,
            ),
            None => program_of(plans::entry_views(entries@), content_hash) is None,
        },
{
    let ghost all = plans::entry_views(entries@);
    let mut i: usize = 0;
    while i < entries.len() && entries[i].content_hash != content_hash
        invariant
            i <= entries.len(),
            all == plans::entry_views(entries@),
            program_place(all, content_hash, 0) == program_place(all, content_hash, i as nat),
        decreases entries.len() - i,
    {
        assert(all[i as int] == entries@[i as int]@);
        i += 1;
    }
    if i >= entries.len() {
        return None;
    }
    assert(all[i as int] == entries@[i as int]@);
    match &entries[i].program {
        Some(program) => Some(program),
        None => None,
    }
}

/// Whether a statement was planned both ways.
pub open spec fn is_matched(program: PreparedProgramView, name: Seq<char>) -> bool {
    named(program.structural, name) is Some && named(program.cost, name) is Some
}

/// Whether a statement of some outcomes was planned both ways.
pub open spec fn any_matched(program: PreparedProgramView, outcomes: Seq<OutcomeView>) -> bool {
    exists|i: int| 0 <= i < outcomes.len() && is_matched(program, (#[trigger] outcomes[i]).name)
}

/// A tally with outcomes scored.
pub open spec fn outcomes_scored<C: CandidateEstimator>(
    tally: TallyView,
    statistics: StatsView,
    candidate: &C,
    content_hash: u128,
    program: PreparedProgramView,
    outcomes: Seq<OutcomeView>,
) -> TallyView
    decreases outcomes.len(),
{
    if outcomes.len() == 0 {
        tally
    } else {
        let before = outcomes_scored(
            tally,
            statistics,
            candidate,
            content_hash,
            program,
            outcomes.drop_last(),
        );
        let outcome = outcomes.last();
        match (named(program.structural, outcome.name), named(program.cost, outcome.name)) {
            (Some(statement), Some(cost_statement)) => before.statement_scored(
                statistics,
                content_hash,
                outcome,
                statement,
                cost_statement,
                candidate.spec_estimate(statistics, statement),
            ),
            _ => TallyView {
                unmatched_statements: before.unmatched_statements.saturating_add(1),
                ..before
            },
        }
    }
}

/// A tally with an execution scored. One without outcomes has nothing to be held
/// against; one whose program cannot be planned, or that shares no statement with
/// it, is incompatible.
pub open spec fn execution_scored<C: CandidateEstimator>(
    tally: TallyView,
    statistics: StatsView,
    prepared: Seq<PreparedEntryView>,
    candidate: &C,
    execution: ProgramView,
) -> TallyView {
    if execution.outcomes.len() == 0 {
        TallyView {
            executions_without_actuals: tally.executions_without_actuals.saturating_add(1),
            ..tally
        }
    } else {
        match program_of(prepared, execution.content_hash) {
            None => TallyView {
                incompatible_executions: tally.incompatible_executions.saturating_add(1),
                ..tally
            },
            Some(program) => {
                let after = outcomes_scored(
                    tally,
                    statistics,
                    candidate,
                    execution.content_hash,
                    program,
                    execution.outcomes,
                );
                if any_matched(program, execution.outcomes) {
                    TallyView {
                        executions_scored: after.executions_scored.saturating_add(1),
                        ..after
                    }
                } else {
                    TallyView {
                        incompatible_executions: after.incompatible_executions.saturating_add(1),
                        ..after
                    }
                }
            },
        }
    }
}

/// The tally of a corpus.
pub open spec fn executions_scored<C: CandidateEstimator>(
    statistics: StatsView,
    prepared: Seq<PreparedEntryView>,
    candidate: &C,
    executions: Seq<ProgramView>,
) -> TallyView
    decreases executions.len(),
{
    if executions.len() == 0 {
        TallyView::empty()
    } else {
        execution_scored(
            executions_scored(statistics, prepared, candidate, executions.drop_last()),
            statistics,
            prepared,
            candidate,
            executions.last(),
        )
    }
}

impl ReplayTally {
    fn score_outcomes<C: CandidateEstimator>(
        &mut self,
        statistics: &PlannerStats,
        candidate: &C,
        content_hash: u128,
        program: &PreparedProgram,
        outcomes: &Vec<ProgramStatementOutcome>,
    ) -> (scored: bool)
        requires
            statistics@.workload_frequency.wf(),
        ensures
            final(self)@ == outcomes_scored(
                old(self)@,
                statistics@,
                candidate,
                content_hash,
                program@,
                records::outcome_views(outcomes@),
            ),
            scored == any_matched(program@, records::outcome_views(outcomes@)),
    {
        let ghost start = self@;
        let ghost all = records::outcome_views(outcomes@);
        let mut scored: bool = false;
        let mut i: usize = 0;
        assert(all.take(0) =~= Seq::empty());
        while i < outcomes.len()
            invariant
                i <= outcomes.len(),
                statistics@.workload_frequency.wf(),
                all == records::outcome_views(outcomes@),
                self@ == outcomes_scored(
                    start,
                    statistics@,
                    candidate,
                    content_hash,
                    program@,
                    all.take(i as int),
                ),
                scored == exists|k: int|
                    0 <= k < i && is_matched(program@, (#[trigger] all[k]).name),
            decreases outcomes.len() - i,
        {
            proof {
                assert(all.take(i + 1).drop_last() =~= all.take(i as int));
                assert(all.take(i + 1).last() == outcomes@[i as int]@);
                assert(all[i as int] == outcomes@[i as int]@);
            }
            let name = &outcomes[i].name;
            match (find_named(&program.structural, name), find_named(&program.cost, name)) {
                (Some(structural), Some(cost)) => {
                    let statement = &program.structural[structural];
                    let estimate = candidate.estimate(statistics, statement);
                    self.score_statement(
                        statistics,
                        content_hash,
                        &outcomes[i],
                        statement,
                        &program.cost[cost],
                        estimate,
                    );
                    assert(is_matched(program@, all[i as int].name));
                    scored = true;
                },
                _ => {
                    self.unmatched_statements = self.unmatched_statements.saturating_add(1);
                    assert(!is_matched(program@, all[i as int].name));
                },
            }
            i += 1;
        }
        assert(all.take(i as int) =~= all);
        scored
    }

    fn score_execution<C: CandidateEstimator>(
        &mut self,
        statistics: &PlannerStats,
        prepared: &Vec<PreparedEntry>,
        candidate: &C,
        execution: &CorpusExecution,
    )
        requires
            statistics@.workload_frequency.wf(),
        ensures
            final(self)@ == execution_scored(
                old(self)@,
                statistics@,
                plans::entry_views(prepared@),
                candidate,
                execution@,
            ),
    {
        if execution.outcomes.len() == 0 {
            self.executions_without_actuals = self.executions_without_actuals.saturating_add(1);
            return;
        }
        match find_program(prepared, execution.content_hash) {
            None => {
                self.incompatible_executions = self.incompatible_executions.saturating_add(1);
            },
            Some(program) => {
                let scored = self.score_outcomes(
                    statistics,
                    candidate,
                    execution.content_hash,
                    program,
                    &execution.outcomes,
                );
                if scored {
                    self.executions_scored = self.executions_scored.saturating_add(1);
                } else {
                    self.incompatible_executions = self.incompatible_executions.saturating_add(1);
                }
            },
        }
    }
}

// ---- the report ----

/// What the plans of the replayed statements were seen to use.
#[derive(Debug, PartialEq)]
pub struct ObservedResourceCostScore {
    pub basis: String,
    pub plan_profiles_considered: usize,
    pub plan_profiles_with_cost: usize,
    pub plan_profiles_without_cost: usize,
    pub cost: Option<KvResourceCost>,
}

/// How a candidate compares with the active estimator over a corpus.
#[derive(Debug, PartialEq)]
pub struct CorpusReplayReport {
    pub corpus_digest: String,
    pub catalog_version: u64,
    pub catalog_hash: String,
    pub statistics_published_at_micros: u64,
    pub statistics_snapshot_identity: String,
    pub executions_considered: usize,
    pub executions_scored: usize,
    pub executions_without_actuals: usize,
    pub incompatible_executions: usize,
    pub statements_scored: usize,
    pub unmatched_statements: usize,
    pub candidate_evidence: usize,
    pub candidate_better: usize,
    pub candidate_equal: usize,
    pub candidate_worse: usize,
    pub baseline: EstimatorScore,
    pub candidate: EstimatorScore,
    pub observed_plan_regret: ObservedPlanRegretScore,
    pub observed_resource_cost: ObservedResourceCostScore,
    pub physical_cost: Option<PhysicalCostModel>,
    pub planner: PlannerReplayScore,
}

/// What resources are gathered from.
pub open spec fn resource_basis() -> Seq<char> {
    "retained_active_plan_profiles_for_replayed_statement_families"@
}

impl CorpusReplayReport {
    /// Whether a report says what a tally counted.
    pub open spec fn tells(self, tally: TallyView, candidate_name: Seq<char>) -> bool {
        &&& self.executions_scored == tally.executions_scored
        &&& self.executions_without_actuals == tally.executions_without_actuals
        &&& self.incompatible_executions == tally.incompatible_executions
        &&& self.statements_scored == tally.baseline_errors.len()
        &&& self.unmatched_statements == tally.unmatched_statements
        &&& self.candidate_evidence == tally.candidate_evidence
        &&& self.candidate_better == tally.candidate_better
        &&& self.candidate_equal == tally.candidate_equal
        &&& self.candidate_worse == tally.candidate_worse
        &&& self.baseline@ == scoring::score_of("active"@, tally.baseline_errors)
        &&& self.candidate@ == scoring::score_of(candidate_name, tally.candidate_errors)
        &&& self.observed_plan_regret@ == scoring::regret_score_of(
            tally.plan_regrets,
            tally.baseline_errors.len(),
            tally.plan_families.len(),
        )
        &&& self.observed_resource_cost.basis@ == resource_basis()
        &&& self.observed_resource_cost.plan_profiles_considered == tally.profile_keys.len()
        &&& self.observed_resource_cost.plan_profiles_with_cost == tally.profiles_with_cost
        &&& self.observed_resource_cost.plan_profiles_without_cost
            == self.observed_resource_cost.plan_profiles_considered.saturating_sub(
            tally.profiles_with_cost,
        )
        &&& self.observed_resource_cost.cost == tally.resources.cost()
        &&& self.planner@ == tally.planner
    }
}

/// Replays a corpus: holds what was expected of each statement against what came
/// back, and the two ways of planning it against each other.
pub fn replay<C: CandidateEstimator>(
    statistics: &PlannerStats,
    executions: &Vec<CorpusExecution>,
    prepared: &Vec<PreparedEntry>,
    candidate: &C,
    catalog_version: u64,
    catalog_hash: String,
) -> (report: CorpusReplayReport)
    requires
        statistics@.workload_frequency.wf(),
    ensures
        report.corpus_digest@ == identity::hex(
            identity::sha256(corpus_bytes(storage::corpus_views(executions@))),
        ),
        report.catalog_version == catalog_version,
        report.catalog_hash == catalog_hash,
        report.statistics_published_at_micros == statistics@.published_at,
        report.statistics_snapshot_identity@ == statistics@.snapshot_identity,
        report.executions_considered == executions.len(),
        planner::cost_view(report.physical_cost) == statistics@.physical_cost,
        report.tells(
            executions_scored(
                statistics@,
                plans::entry_views(prepared@),
                candidate,
                storage::corpus_views(executions@),
            ),
            candidate.spec_name(),
        ),
{
    let ghost all = storage::corpus_views(executions@);
    let mut tally = ReplayTally::empty();
    let mut i: usize = 0;
    assert(all.take(0) =~= Seq::empty());
    while i < executions.len()
        invariant
            i <= executions.len(),
            statistics@.workload_frequency.wf(),
            all == storage::corpus_views(executions@),
            tally@ == executions_scored(
                statistics@,
                plans::entry_views(prepared@),
                candidate,
                all.take(i as int),
            ),
        decreases executions.len() - i,
    {
        proof {
            assert(all.take(i + 1).drop_last() =~= all.take(i as int));
            assert(all.take(i + 1).last() == executions@[i as int]@);
        }
        tally.score_execution(statistics, prepared, candidate, &executions[i]);
        i += 1;
    }
    assert(all.take(i as int) =~= all);
    let considered: usize = tally.profile_keys.len();
    let name = candidate.name();
    CorpusReplayReport {
        corpus_digest: corpus_digest(executions),
        catalog_version,
        catalog_hash,
        statistics_published_at_micros: statistics.published_at,
        statistics_snapshot_identity: statistics.snapshot_identity.as_str().to_owned(),
        executions_considered: executions.len(),
        executions_scored: tally.executions_scored,
        executions_without_actuals: tally.executions_without_actuals,
        incompatible_executions: tally.incompatible_executions,
        statements_scored: tally.baseline_errors.len(),
        unmatched_statements: tally.unmatched_statements,
        candidate_evidence: tally.candidate_evidence,
        candidate_better: tally.candidate_better,
        candidate_equal: tally.candidate_equal,
        candidate_worse: tally.candidate_worse,
        baseline: score("active", &tally.baseline_errors),
        candidate: score(name.as_str(), &tally.candidate_errors),
        observed_plan_regret: plan_regret_score(
            &tally.plan_regrets,
            tally.baseline_errors.len(),
            tally.plan_families.len(),
        ),
        observed_resource_cost: ObservedResourceCostScore {
            basis: "retained_active_plan_profiles_for_replayed_statement_families".to_owned(),
            plan_profiles_considered: considered,
            plan_profiles_with_cost: tally.profiles_with_cost,
            plan_profiles_without_cost: considered.saturating_sub(tally.profiles_with_cost),
            cost: tally.resources.cost(),
        },
        physical_cost: match &statistics.physical_cost {
            Some(cost) => Some(cost.copy()),
            None => None,
        },
        planner: tally.planner,
    }
}

/// How many executions are replayed: as many as are asked for, or a default, and
/// never more than a maximum.
pub fn replay_limit(asked: Option<usize>) -> (limit: usize)
    ensures
        limit == (match asked {
            Some(asked) => if asked < MAX_REPLAY_LIMIT {
                asked
            } else {
                MAX_REPLAY_LIMIT
            },
            None => DEFAULT_REPLAY_LIMIT,
        }),
{
    match asked {
        Some(asked) => if asked < MAX_REPLAY_LIMIT {
            asked
        } else {
            MAX_REPLAY_LIMIT
        },
        None => DEFAULT_REPLAY_LIMIT,
    }
}

/// Whether an execution is the first of its program that has outcomes, so that
/// its program is to be planned.
pub open spec fn is_to_prepare(executions: Seq<ProgramView>, place: int) -> bool {
    executions[place].outcomes.len() > 0 && forall|k: int|
        0 <= k < place && executions[k].content_hash == executions[place].content_hash
            ==> (#[trigger] executions[k]).outcomes.len() == 0
}

/// Whether the program of an execution is to be planned before a replay: once for
/// each content, and only where there are outcomes.
pub fn prepares_at(executions: &Vec<CorpusExecution>, place: usize) -> (prepares: bool)
    requires
        place < executions.len(),
    ensures
        prepares == is_to_prepare(storage::corpus_views(executions@), place as int),
{
    let ghost all = storage::corpus_views(executions@);
    assert(all[place as int] == executions@[place as int]@);
    if executions[place].outcomes.len() == 0 {
        return false;
    }
    let mut i: usize = 0;
    while i < place
        invariant
            i <= place < executions.len(),
            all == storage::corpus_views(executions@),
            forall|k: int|
                0 <= k < i && all[k].content_hash == all[place as int].content_hash ==> (
                #[trigger] all[k]).outcomes.len() == 0,
        decreases place - i,
    {
        assert(all[i as int] == executions@[i as int]@);
        assert(all[place as int] == executions@[place as int]@);
        if executions[i].content_hash == executions[place].content_hash
            && executions[i].outcomes.len() > 0 {
            assert(all[i as int].outcomes.len() > 0);
            return false;
        }
        i += 1;
    }
    true
}

// ---- what a replay promises ----

/// Every statement that is scored is scored for both estimators, and comes out
/// better, equal or worse; no count is lost while the counts fit.
pub proof fn every_score_is_compared<C: CandidateEstimator>(
    statistics: StatsView,
    prepared: Seq<PreparedEntryView>,
    candidate: &C,
    executions: Seq<ProgramView>,
)
    ensures
        ({
            let tally = executions_scored(statistics, prepared, candidate, executions);
            &&& tally.baseline_errors.len() == tally.candidate_errors.len()
            &&& tally.baseline_errors.len() <= usize::MAX ==> tally.candidate_better
                + tally.candidate_equal + tally.candidate_worse == tally.baseline_errors.len()
        }),
    decreases executions.len(),
{
    if executions.len() > 0 {
        every_score_is_compared(statistics, prepared, candidate, executions.drop_last());
        let before = executions_scored(statistics, prepared, candidate, executions.drop_last());
        let execution = executions.last();
        if let Some(program) = program_of(prepared, execution.content_hash) {
            lemma_outcomes_compared(
                before,
                statistics,
                candidate,
                execution.content_hash,
                program,
                execution.outcomes,
            );
        }
    }
}

spec fn is_balanced(tally: TallyView) -> bool {
    &&& tally.baseline_errors.len() == tally.candidate_errors.len()
    &&& tally.baseline_errors.len() <= usize::MAX ==> tally.candidate_better
        + tally.candidate_equal + tally.candidate_worse == tally.baseline_errors.len()
}

proof fn lemma_outcomes_compared<C: CandidateEstimator>(
    tally: TallyView,
    statistics: StatsView,
    candidate: &C,
    content_hash: u128,
    program: PreparedProgramView,
    outcomes: Seq<OutcomeView>,
)
    requires
        is_balanced(tally),
    ensures
        is_balanced(
            outcomes_scored(tally, statistics, candidate, content_hash, program, outcomes),
        ),
    decreases outcomes.len(),
{
    if outcomes.len() > 0 {
        lemma_outcomes_compared(
            tally,
            statistics,
            candidate,
            content_hash,
            program,
            outcomes.drop_last(),
        );
    }
}

proof fn lemma_outcomes_keep_counts<C: CandidateEstimator>(
    tally: TallyView,
    statistics: StatsView,
    candidate: &C,
    content_hash: u128,
    program: PreparedProgramView,
    outcomes: Seq<OutcomeView>,
)
    ensures
        ({
            let after = outcomes_scored(
                tally,
                statistics,
                candidate,
                content_hash,
                program,
                outcomes,
            );
            &&& after.executions_scored == tally.executions_scored
            &&& after.executions_without_actuals == tally.executions_without_actuals
            &&& after.incompatible_executions == tally.incompatible_executions
        }),
    decreases outcomes.len(),
{
    if outcomes.len() > 0 {
        lemma_outcomes_keep_counts(
            tally,
            statistics,
            candidate,
            content_hash,
            program,
            outcomes.drop_last(),
        );
    }
}

/// Every execution that is considered is counted once: as scored, as without
/// actual rows, or as incompatible.
pub proof fn every_execution_is_counted<C: CandidateEstimator>(
    statistics: StatsView,
    prepared: Seq<PreparedEntryView>,
    candidate: &C,
    executions: Seq<ProgramView>,
)
    requires
        executions.len() <= usize::MAX,
    ensures
        ({
            let tally = executions_scored(statistics, prepared, candidate, executions);
            tally.executions_scored + tally.executions_without_actuals
                + tally.incompatible_executions == executions.len()
        }),
    decreases executions.len(),
{
    if executions.len() > 0 {
        every_execution_is_counted(statistics, prepared, candidate, executions.drop_last());
        let before = executions_scored(statistics, prepared, candidate, executions.drop_last());
        let execution = executions.last();
        if let Some(program) = program_of(prepared, execution.content_hash) {
            lemma_outcomes_keep_counts(
                before,
                statistics,
                candidate,
                execution.content_hash,
                program,
                execution.outcomes,
            );
        }
    }
}

spec fn is_even(tally: TallyView) -> bool {
    &&& tally.candidate_errors == tally.baseline_errors
    &&& tally.candidate_better == 0
    &&& tally.candidate_worse == 0
    &&& tally.candidate_evidence == 0
}

/// Whether a candidate has no evidence for any statement of a program.
pub open spec fn is_without_evidence<C: CandidateEstimator>(
    statistics: StatsView,
    candidate: &C,
    program: PreparedProgramView,
) -> bool {
    forall|i: int|
        0 <= i < program.structural.len() ==> candidate.spec_estimate(
            statistics,
            #[trigger] program.structural[i],
        ) is None
}

proof fn lemma_named(statements: Seq<PreparedView>, name: Seq<char>)
    ensures
        named(statements, name) matches Some(statement) ==> exists|i: int|
            0 <= i < statements.len() && #[trigger] statements[i] == statement,
    decreases statements.len(),
{
    if statements.len() > 0 {
        if statements.last().name == name {
            assert(statements[statements.len() - 1] == statements.last());
        } else {
            lemma_named(statements.drop_last(), name);
            if let Some(statement) = named(statements, name) {
                let i = choose|i: int|
                    0 <= i < statements.drop_last().len() && #[trigger] statements.drop_last()[i]
                        == statement;
                assert(statements[i] == statement);
            }
        }
    }
}

proof fn lemma_program_place(entries: Seq<PreparedEntryView>, content_hash: u128, from: nat)
    requires
        from <= entries.len(),
    ensures
        from <= program_place(entries, content_hash, from) <= entries.len(),
    decreases entries.len() - from,
{
    if from < entries.len() && entries[from as int].content_hash != content_hash {
        lemma_program_place(entries, content_hash, from + 1);
    }
}

proof fn lemma_outcomes_even<C: CandidateEstimator>(
    tally: TallyView,
    statistics: StatsView,
    candidate: &C,
    content_hash: u128,
    program: PreparedProgramView,
    outcomes: Seq<OutcomeView>,
)
    requires
        is_even(tally),
        is_without_evidence(statistics, candidate, program),
    ensures
        is_even(outcomes_scored(tally, statistics, candidate, content_hash, program, outcomes)),
    decreases outcomes.len(),
{
    if outcomes.len() > 0 {
        lemma_outcomes_even(
            tally,
            statistics,
            candidate,
            content_hash,
            program,
            outcomes.drop_last(),
        );
        let name = outcomes.last().name;
        lemma_named(program.structural, name);
        if let Some(statement) = named(program.structural, name) {
            let i = choose|i: int|
                0 <= i < program.structural.len() && #[trigger] program.structural[i] == statement;
            assert(candidate.spec_estimate(statistics, program.structural[i]) is None);
        }
    }
}

/// A candidate without evidence for any statement that was planned scores over a
/// whole run as the active estimator does: with the same errors, and neither better
/// nor worse at any statement.
pub proof fn candidates_without_evidence_score_alike<C: CandidateEstimator>(
    statistics: StatsView,
    prepared: Seq<PreparedEntryView>,
    candidate: &C,
    executions: Seq<ProgramView>,
)
    requires
        forall|i: int|
            0 <= i < prepared.len() ==> ((#[trigger] prepared[i]).program matches Some(program)
                ==> is_without_evidence(statistics, candidate, program)),
    ensures
        ({
            let tally = executions_scored(statistics, prepared, candidate, executions);
            &&& tally.candidate_errors == tally.baseline_errors
            &&& tally.candidate_better == 0
            &&& tally.candidate_worse == 0
            &&& tally.candidate_evidence == 0
        }),
    decreases executions.len(),
{
    if executions.len() > 0 {
        candidates_without_evidence_score_alike(
            statistics,
            prepared,
            candidate,
            executions.drop_last(),
        );
        let before = executions_scored(statistics, prepared, candidate, executions.drop_last());
        let execution = executions.last();
        if let Some(program) = program_of(prepared, execution.content_hash) {
            lemma_program_place(prepared, execution.content_hash, 0);
            let place = program_place(prepared, execution.content_hash, 0) as int;
            assert(prepared[place].program == Some(program));
            lemma_outcomes_even(
                before,
                statistics,
                candidate,
                execution.content_hash,
                program,
                execution.outcomes,
            );
        }
    }
}

} // verus!
