//! Plans, as far as replay compares them: what they are expected to touch, what
//! was considered, and how the searches behind them went.

use vstd::prelude::*;

use crate::scheduler::evidence::DependencyStamp;
use crate::scheduler::histogram;
use crate::scheduler::histogram::min_of;
use crate::scheduler::scoring;
use crate::scheduler::scoring::product;
use crate::scheduler::sketches::Fingerprint;
use crate::text;
use crate::text::copy_text_option;

verus! {

// ---- plans, as far as they are compared ----

/// Why an access path was chosen.
#[derive(Clone, Copy, Debug, PartialEq, Eq, Structural)]
pub enum AccessDecisionBasis {
    Structure,
    CostDominance,
    Other,
}

/// Why a join was chosen.
#[derive(Clone, Copy, Debug, PartialEq, Eq, Structural)]
pub enum JoinDecisionBasis {
    Structure,
    BoundedBuild,
    CostDominance,
    Other,
}

/// An access path that was considered, with the rows it is expected to touch.
#[derive(Clone, Copy, Debug, PartialEq, Eq, Structural)]
pub struct AccessCandidate {
    pub chosen: bool,
    pub decision_basis: Option<AccessDecisionBasis>,
    pub row_operations: Option<u64>,
}

/// A join that was considered, with the rows it is expected to touch.
#[derive(Clone, Copy, Debug, PartialEq, Eq, Structural)]
pub struct JoinCandidate {
    pub chosen: bool,
    pub decision_basis: Option<JoinDecisionBasis>,
    pub row_operations: Option<u64>,
}

/// What was decided at one node of a plan.
#[derive(Debug, PartialEq)]
pub struct PlanNode {
    pub access: Option<Vec<AccessCandidate>>,
    pub join: Option<Vec<JoinCandidate>>,
}

/// The value of a [`PlanNode`].
pub struct NodeView {
    pub access: Option<Seq<AccessCandidate>>,
    pub join: Option<Seq<JoinCandidate>>,
}

impl View for PlanNode {
    type V = NodeView;

    open spec fn view(&self) -> NodeView {
        NodeView {
            access: match self.access {
                Some(candidates) => Some(candidates@),
                None => None,
            },
            join: match self.join {
                Some(candidates) => Some(candidates@),
                None => None,
            },
        }
    }
}

pub open spec fn node_views(nodes: Seq<PlanNode>) -> Seq<NodeView> {
    Seq::new(nodes.len(), |i: int| nodes[i]@)
}

/// What a search over rewrites used up.
#[derive(Clone, Copy, Debug, PartialEq, Eq, Structural)]
pub struct MemoUsage {
    pub groups: u32,
    pub alternatives: u32,
    pub rule_applications: u32,
    pub planning_effort: u32,
}

/// What became of one expression in a search over rewrites.
#[derive(Clone, Copy, Debug, PartialEq, Eq, Structural)]
pub struct MemoRoot {
    pub directed_alternatives: u32,
    pub saturated_alternatives: u32,
    pub structural_expression: Fingerprint,
    pub selected_expression: Fingerprint,
    pub selected_proof_edges: usize,
}

/// A search over rewrites.
#[derive(Debug, PartialEq)]
pub struct Memo {
    pub usage: MemoUsage,
    pub roots: Vec<MemoRoot>,
    pub stop_reason: Option<String>,
}

/// The value of a [`Memo`].
pub struct MemoView {
    pub usage: MemoUsage,
    pub roots: Seq<MemoRoot>,
    pub stop_reason: Option<Seq<char>>,
}

/// A plan, node by node.
#[derive(Debug, PartialEq)]
pub struct Plan {
    pub fingerprint: Fingerprint,
    pub stamp: DependencyStamp,
    pub nodes: Vec<PlanNode>,
    pub memo: Memo,
}

/// The value of a [`Plan`].
pub struct PlanView {
    pub fingerprint: Fingerprint,
    pub stamp: DependencyStamp,
    pub nodes: Seq<NodeView>,
    pub memo: MemoView,
}

impl View for Plan {
    type V = PlanView;

    open spec fn view(&self) -> PlanView {
        PlanView {
            fingerprint: self.fingerprint,
            stamp: self.stamp,
            nodes: node_views(self.nodes@),
            memo: MemoView {
                usage: self.memo.usage,
                roots: self.memo.roots@,
                stop_reason: text::text_option(self.memo.stop_reason),
            },
        }
    }
}

/// A statement that was planned: how many rows the planner expects, and how many
/// its family was seen to return.
#[derive(Debug, PartialEq)]
pub struct PreparedStatementEstimate {
    pub name: String,
    pub active: u64,
    pub family: Fingerprint,
    pub family_feedback: Option<u64>,
    pub plan: Plan,
}

/// The value of a [`PreparedStatementEstimate`].
pub struct PreparedView {
    pub name: Seq<char>,
    pub active: u64,
    pub family: Fingerprint,
    pub family_feedback: Option<u64>,
    pub plan: PlanView,
}

impl View for PreparedStatementEstimate {
    type V = PreparedView;

    open spec fn view(&self) -> PreparedView {
        PreparedView {
            name: self.name@,
            active: self.active,
            family: self.family,
            family_feedback: self.family_feedback,
            plan: self.plan@,
        }
    }
}

pub open spec fn prepared_views(statements: Seq<PreparedStatementEstimate>) -> Seq<PreparedView> {
    Seq::new(statements.len(), |i: int| statements[i]@)
}

/// A program that was planned twice: by structure, and by cost.
#[derive(Debug, PartialEq)]
pub struct PreparedProgram {
    pub structural: Vec<PreparedStatementEstimate>,
    pub cost: Vec<PreparedStatementEstimate>,
}

/// The value of a [`PreparedProgram`].
pub struct PreparedProgramView {
    pub structural: Seq<PreparedView>,
    pub cost: Seq<PreparedView>,
}

impl View for PreparedProgram {
    type V = PreparedProgramView;

    open spec fn view(&self) -> PreparedProgramView {
        PreparedProgramView {
            structural: prepared_views(self.structural@),
            cost: prepared_views(self.cost@),
        }
    }
}

/// A program by its content. There is none where it cannot be planned any more.
#[derive(Debug, PartialEq)]
pub struct PreparedEntry {
    pub content_hash: u128,
    pub program: Option<PreparedProgram>,
}

/// The value of a [`PreparedEntry`].
pub struct PreparedEntryView {
    pub content_hash: u128,
    pub program: Option<PreparedProgramView>,
}

impl View for PreparedEntry {
    type V = PreparedEntryView;

    open spec fn view(&self) -> PreparedEntryView {
        PreparedEntryView {
            content_hash: self.content_hash,
            program: match self.program {
                Some(program) => Some(program@),
                None => None,
            },
        }
    }
}

pub open spec fn entry_views(entries: Seq<PreparedEntry>) -> Seq<PreparedEntryView> {
    Seq::new(entries.len(), |i: int| entries[i]@)
}

// ---- what a plan comes to ----

/// What a search over rewrites came to.
#[derive(Debug, PartialEq)]
pub struct MemoReplaySummary {
    pub groups: u32,
    pub alternatives: u32,
    pub rule_applications: u32,
    pub planning_effort: u32,
    pub changed_expressions: usize,
    pub selected_proof_edges: usize,
    pub directed_alternatives: u64,
    pub saturated_alternatives: u64,
    pub additional_saturated_alternatives: u64,
    pub stop_reason: Option<String>,
}

/// The value of a [`MemoReplaySummary`].
pub struct MemoSummaryView {
    pub groups: u32,
    pub alternatives: u32,
    pub rule_applications: u32,
    pub planning_effort: u32,
    pub changed_expressions: usize,
    pub selected_proof_edges: usize,
    pub directed_alternatives: u64,
    pub saturated_alternatives: u64,
    pub additional_saturated_alternatives: u64,
    pub stop_reason: Option<Seq<char>>,
}

impl View for MemoReplaySummary {
    type V = MemoSummaryView;

    open spec fn view(&self) -> MemoSummaryView {
        MemoSummaryView {
            groups: self.groups,
            alternatives: self.alternatives,
            rule_applications: self.rule_applications,
            planning_effort: self.planning_effort,
            changed_expressions: self.changed_expressions,
            selected_proof_edges: self.selected_proof_edges,
            directed_alternatives: self.directed_alternatives,
            saturated_alternatives: self.saturated_alternatives,
            additional_saturated_alternatives: self.additional_saturated_alternatives,
            stop_reason: text::text_option(self.stop_reason),
        }
    }
}

/// The rewrites that were looked at on purpose.
pub open spec fn directed_sum(roots: Seq<MemoRoot>) -> u64
    decreases roots.len(),
{
    if roots.len() == 0 {
        0
    } else {
        directed_sum(roots.drop_last()).saturating_add(roots.last().directed_alternatives as u64)
    }
}

/// The rewrites that were found by saturation.
pub open spec fn saturated_sum(roots: Seq<MemoRoot>) -> u64
    decreases roots.len(),
{
    if roots.len() == 0 {
        0
    } else {
        saturated_sum(roots.drop_last()).saturating_add(roots.last().saturated_alternatives as u64)
    }
}

/// The expressions that were replaced.
pub open spec fn changed_count(roots: Seq<MemoRoot>) -> usize
    decreases roots.len(),
{
    if roots.len() == 0 {
        0
    } else {
        let before = changed_count(roots.drop_last());
        if roots.last().structural_expression != roots.last().selected_expression {
            before.saturating_add(1)
        } else {
            before
        }
    }
}

/// The steps of the proofs of what was selected.
pub open spec fn proof_edges(roots: Seq<MemoRoot>) -> usize
    decreases roots.len(),
{
    if roots.len() == 0 {
        0
    } else {
        proof_edges(roots.drop_last()).saturating_add(roots.last().selected_proof_edges)
    }
}

/// What a search over rewrites came to.
pub open spec fn memo_summary_of(memo: MemoView) -> MemoSummaryView {
    MemoSummaryView {
        groups: memo.usage.groups,
        alternatives: memo.usage.alternatives,
        rule_applications: memo.usage.rule_applications,
        planning_effort: memo.usage.planning_effort,
        changed_expressions: changed_count(memo.roots),
        selected_proof_edges: proof_edges(memo.roots),
        directed_alternatives: directed_sum(memo.roots),
        saturated_alternatives: saturated_sum(memo.roots),
        additional_saturated_alternatives: saturated_sum(memo.roots).saturating_sub(
            directed_sum(memo.roots),
        ),
        stop_reason: memo.stop_reason,
    }
}

/// What a plan's search over rewrites came to.
pub fn memo_summary(plan: &Plan) -> (summary: MemoReplaySummary)
    ensures
        summary@ == memo_summary_of(plan@.memo),
{
    let roots = &plan.memo.roots;
    let mut directed: u64 = 0;
    let mut saturated: u64 = 0;
    let mut changed: usize = 0;
    let mut edges: usize = 0;
    let mut i: usize = 0;
    assert(roots@.take(0) =~= Seq::empty());
    while i < roots.len()
        invariant
            i <= roots.len(),
            directed == directed_sum(roots@.take(i as int)),
            saturated == saturated_sum(roots@.take(i as int)),
            changed == changed_count(roots@.take(i as int)),
            edges == proof_edges(roots@.take(i as int)),
        decreases roots.len() - i,
    {
        assert(roots@.take(i + 1).drop_last() =~= roots@.take(i as int));
        let root = roots[i];
        directed = directed.saturating_add(root.directed_alternatives as u64);
        saturated = saturated.saturating_add(root.saturated_alternatives as u64);
        if !(root.structural_expression == root.selected_expression) {
            changed = changed.saturating_add(1);
        }
        edges = edges.saturating_add(root.selected_proof_edges);
        i += 1;
    }
    assert(roots@.take(i as int) =~= roots@);
    MemoReplaySummary {
        groups: plan.memo.usage.groups,
        alternatives: plan.memo.usage.alternatives,
        rule_applications: plan.memo.usage.rule_applications,
        planning_effort: plan.memo.usage.planning_effort,
        changed_expressions: changed,
        selected_proof_edges: edges,
        directed_alternatives: directed,
        saturated_alternatives: saturated,
        additional_saturated_alternatives: saturated.saturating_sub(directed),
        stop_reason: copy_text_option(&plan.memo.stop_reason),
    }
}

/// What a plan is expected to touch, with all that was considered.
pub struct PlanSummaryView {
    pub work: Option<u64>,
    pub access: Seq<AccessCandidate>,
    pub joins: Seq<JoinCandidate>,
}

/// The rows of the path that was chosen first; nothing where none was chosen or
/// nothing is known of it.
pub open spec fn access_work(candidates: Seq<AccessCandidate>, from: nat) -> Option<u64>
    decreases candidates.len() - from,
{
    if from >= candidates.len() {
        None
    } else if candidates[from as int].chosen {
        candidates[from as int].row_operations
    } else {
        access_work(candidates, from + 1)
    }
}

/// The rows of the join that was chosen first; nothing where none was chosen or
/// nothing is known of it.
pub open spec fn join_work(candidates: Seq<JoinCandidate>, from: nat) -> Option<u64>
    decreases candidates.len() - from,
{
    if from >= candidates.len() {
        None
    } else if candidates[from as int].chosen {
        candidates[from as int].row_operations
    } else {
        join_work(candidates, from + 1)
    }
}

/// Two amounts of work together, where both are known.
pub open spec fn work_added(total: Option<u64>, work: Option<u64>) -> Option<u64> {
    match (total, work) {
        (Some(total), Some(work)) => Some(total.saturating_add(work)),
        _ => None,
    }
}

impl PlanSummaryView {
    /// With an access path.
    pub open spec fn with_access(self, access: Option<Seq<AccessCandidate>>) -> PlanSummaryView {
        match access {
            Some(candidates) => PlanSummaryView {
                work: work_added(self.work, access_work(candidates, 0)),
                access: self.access + candidates,
                ..self
            },
            None => self,
        }
    }

    /// With a join.
    pub open spec fn with_join(self, join: Option<Seq<JoinCandidate>>) -> PlanSummaryView {
        match join {
            Some(candidates) => PlanSummaryView {
                work: work_added(self.work, join_work(candidates, 0)),
                joins: self.joins + candidates,
                ..self
            },
            None => self,
        }
    }
}

/// What a plan is expected to touch, with all that was considered.
pub open spec fn plan_summary(nodes: Seq<NodeView>) -> PlanSummaryView
    decreases nodes.len(),
{
    if nodes.len() == 0 {
        PlanSummaryView { work: Some(0), access: Seq::empty(), joins: Seq::empty() }
    } else {
        plan_summary(nodes.drop_last()).with_access(nodes.last().access).with_join(
            nodes.last().join,
        )
    }
}

/// What a plan is expected to touch; nothing to decide is nothing to do.
pub open spec fn row_work(nodes: Seq<NodeView>) -> Option<u64> {
    let summary = plan_summary(nodes);
    if summary.access.len() == 0 && summary.joins.len() == 0 {
        Some(0)
    } else {
        summary.work
    }
}

fn add_work(total: Option<u64>, work: Option<u64>) -> (sum: Option<u64>)
    ensures
        sum == work_added(total, work),
{
    match (total, work) {
        (Some(total), Some(work)) => Some(total.saturating_add(work)),
        _ => None,
    }
}

fn chosen_access_work(candidates: &Vec<AccessCandidate>) -> (work: Option<u64>)
    ensures
        work == access_work(candidates@, 0),
{
    let mut i: usize = 0;
    while i < candidates.len()
        invariant
            i <= candidates.len(),
            access_work(candidates@, 0) == access_work(candidates@, i as nat),
        decreases candidates.len() - i,
    {
        if candidates[i].chosen {
            return candidates[i].row_operations;
        }
        i += 1;
    }
    None
}

fn chosen_join_work(candidates: &Vec<JoinCandidate>) -> (work: Option<u64>)
    ensures
        work == join_work(candidates@, 0),
{
    let mut i: usize = 0;
    while i < candidates.len()
        invariant
            i <= candidates.len(),
            join_work(candidates@, 0) == join_work(candidates@, i as nat),
        decreases candidates.len() - i,
    {
        if candidates[i].chosen {
            return candidates[i].row_operations;
        }
        i += 1;
    }
    None
}

fn append_access(target: &mut Vec<AccessCandidate>, candidates: &Vec<AccessCandidate>)
    ensures
        final(target)@ == old(target)@ + candidates@,
{
    let ghost before = target@;
    let mut i: usize = 0;
    assert(target@ =~= before + candidates@.take(0));
    while i < candidates.len()
        invariant
            i <= candidates.len(),
            target@ =~= before + candidates@.take(i as int),
        decreases candidates.len() - i,
    {
        target.push(candidates[i]);
        i += 1;
    }
    assert(candidates@.take(i as int) =~= candidates@);
}

fn append_joins(target: &mut Vec<JoinCandidate>, candidates: &Vec<JoinCandidate>)
    ensures
        final(target)@ == old(target)@ + candidates@,
{
    let ghost before = target@;
    let mut i: usize = 0;
    assert(target@ =~= before + candidates@.take(0));
    while i < candidates.len()
        invariant
            i <= candidates.len(),
            target@ =~= before + candidates@.take(i as int),
        decreases candidates.len() - i,
    {
        target.push(candidates[i]);
        i += 1;
    }
    assert(candidates@.take(i as int) =~= candidates@);
}

/// What a plan is expected to touch, with all that was considered.
pub fn cost_plan_summary(plan: &Plan) -> (summary: (
    Option<u64>,
    Vec<AccessCandidate>,
    Vec<JoinCandidate>,
))
    ensures
        summary.0 == plan_summary(plan@.nodes).work,
        summary.1@ == plan_summary(plan@.nodes).access,
        summary.2@ == plan_summary(plan@.nodes).joins,
{
    let ghost all = plan@.nodes;
    let mut total: Option<u64> = Some(0);
    let mut access: Vec<AccessCandidate> = Vec::new();
    let mut joins: Vec<JoinCandidate> = Vec::new();
    let mut i: usize = 0;
    assert(all.take(0) =~= Seq::empty());
    while i < plan.nodes.len()
        invariant
            i <= plan.nodes.len(),
            all == node_views(plan.nodes@),
            total == plan_summary(all.take(i as int)).work,
            access@ == plan_summary(all.take(i as int)).access,
            joins@ == plan_summary(all.take(i as int)).joins,
        decreases plan.nodes.len() - i,
    {
        proof {
            assert(all.take(i + 1).drop_last() =~= all.take(i as int));
            assert(all.take(i + 1).last() == plan.nodes@[i as int]@);
        }
        let node = &plan.nodes[i];
        if let Some(candidates) = &node.access {
            append_access(&mut access, candidates);
            total = add_work(total, chosen_access_work(candidates));
        }
        if let Some(candidates) = &node.join {
            append_joins(&mut joins, candidates);
            total = add_work(total, chosen_join_work(candidates));
        }
        i += 1;
    }
    assert(all.take(i as int) =~= all);
    (total, access, joins)
}

/// What a plan is expected to touch; nothing to decide is nothing to do.
pub fn predicted_row_work(plan: &Plan) -> (work: Option<u64>)
    ensures
        work == row_work(plan@.nodes),
{
    let (work, access, joins) = cost_plan_summary(plan);
    if access.len() == 0 && joins.len() == 0 {
        Some(0)
    } else {
        work
    }
}

// ---- the decisions of a planner ----

/// How the two plans of one statement compare.
#[derive(Debug, PartialEq)]
pub struct PlannerReplayDecision {
    pub statement: String,
    pub structural_plan: Fingerprint,
    pub cost_plan: Fingerprint,
    pub changed: bool,
    pub structural_row_work: Option<u64>,
    pub cost_row_work: Option<u64>,
    pub cost_candidates: Vec<AccessCandidate>,
    pub cost_join_candidates: Vec<JoinCandidate>,
    pub structural_memo: MemoReplaySummary,
    pub cost_memo: MemoReplaySummary,
}

/// The value of a [`PlannerReplayDecision`].
pub struct DecisionView {
    pub statement: Seq<char>,
    pub structural_plan: Fingerprint,
    pub cost_plan: Fingerprint,
    pub changed: bool,
    pub structural_row_work: Option<u64>,
    pub cost_row_work: Option<u64>,
    pub cost_candidates: Seq<AccessCandidate>,
    pub cost_join_candidates: Seq<JoinCandidate>,
    pub structural_memo: MemoSummaryView,
    pub cost_memo: MemoSummaryView,
}

impl View for PlannerReplayDecision {
    type V = DecisionView;

    open spec fn view(&self) -> DecisionView {
        DecisionView {
            statement: self.statement@,
            structural_plan: self.structural_plan,
            cost_plan: self.cost_plan,
            changed: self.changed,
            structural_row_work: self.structural_row_work,
            cost_row_work: self.cost_row_work,
            cost_candidates: self.cost_candidates@,
            cost_join_candidates: self.cost_join_candidates@,
            structural_memo: self.structural_memo@,
            cost_memo: self.cost_memo@,
        }
    }
}

pub open spec fn decision_views(decisions: Seq<PlannerReplayDecision>) -> Seq<DecisionView> {
    Seq::new(decisions.len(), |i: int| decisions[i]@)
}

/// How planning by cost compares with planning by structure.
#[derive(Debug, PartialEq)]
pub struct PlannerReplayScore {
    pub statements_compared: usize,
    pub structural_evidence_coverage: usize,
    pub cost_evidence_coverage: usize,
    pub plans_changed: usize,
    pub cost_dominance_decisions: usize,
    pub structural_fallback_decisions: usize,
    pub memo_expressions_changed: usize,
    pub memo_budget_stops: usize,
    pub equality_saturation_additional_alternatives: u64,
    pub structural_predicted_row_work: u64,
    pub cost_predicted_row_work: u64,
    pub structural_predicted_workload_regret: u64,
    pub cost_predicted_workload_regret: u64,
    pub decisions: Vec<PlannerReplayDecision>,
}

/// The value of a [`PlannerReplayScore`].
#[verifier::ext_equal]
pub struct PlannerScoreView {
    pub statements_compared: usize,
    pub structural_evidence_coverage: usize,
    pub cost_evidence_coverage: usize,
    pub plans_changed: usize,
    pub cost_dominance_decisions: usize,
    pub structural_fallback_decisions: usize,
    pub memo_expressions_changed: usize,
    pub memo_budget_stops: usize,
    pub equality_saturation_additional_alternatives: u64,
    pub structural_predicted_row_work: u64,
    pub cost_predicted_row_work: u64,
    pub structural_predicted_workload_regret: u64,
    pub cost_predicted_workload_regret: u64,
    pub decisions: Seq<DecisionView>,
}

impl View for PlannerReplayScore {
    type V = PlannerScoreView;

    open spec fn view(&self) -> PlannerScoreView {
        PlannerScoreView {
            statements_compared: self.statements_compared,
            structural_evidence_coverage: self.structural_evidence_coverage,
            cost_evidence_coverage: self.cost_evidence_coverage,
            plans_changed: self.plans_changed,
            cost_dominance_decisions: self.cost_dominance_decisions,
            structural_fallback_decisions: self.structural_fallback_decisions,
            memo_expressions_changed: self.memo_expressions_changed,
            memo_budget_stops: self.memo_budget_stops,
            equality_saturation_additional_alternatives:
                self.equality_saturation_additional_alternatives,
            structural_predicted_row_work: self.structural_predicted_row_work,
            cost_predicted_row_work: self.cost_predicted_row_work,
            structural_predicted_workload_regret: self.structural_predicted_workload_regret,
            cost_predicted_workload_regret: self.cost_predicted_workload_regret,
            decisions: decision_views(self.decisions@),
        }
    }
}

/// How many access paths were chosen by cost and how many by structure, counted
/// on from what was counted.
pub open spec fn access_decisions(
    counted: (usize, usize),
    candidates: Seq<AccessCandidate>,
) -> (usize, usize)
    decreases candidates.len(),
{
    if candidates.len() == 0 {
        counted
    } else {
        let (dominance, fallback) = access_decisions(counted, candidates.drop_last());
        let candidate = candidates.last();
        if !candidate.chosen {
            (dominance, fallback)
        } else {
            match candidate.decision_basis {
                Some(AccessDecisionBasis::CostDominance) => (dominance.saturating_add(1), fallback),
                Some(AccessDecisionBasis::Structure) => (dominance, fallback.saturating_add(1)),
                _ => (dominance, fallback),
            }
        }
    }
}

/// How many joins were chosen by cost and how many by structure, counted on from
/// what was counted. A bounded build counts as cost.
pub open spec fn join_decisions(
    counted: (usize, usize),
    candidates: Seq<JoinCandidate>,
) -> (usize, usize)
    decreases candidates.len(),
{
    if candidates.len() == 0 {
        counted
    } else {
        let (dominance, fallback) = join_decisions(counted, candidates.drop_last());
        let candidate = candidates.last();
        if !candidate.chosen {
            (dominance, fallback)
        } else {
            match candidate.decision_basis {
                Some(JoinDecisionBasis::CostDominance) => (dominance.saturating_add(1), fallback),
                Some(JoinDecisionBasis::BoundedBuild) => (dominance.saturating_add(1), fallback),
                Some(JoinDecisionBasis::Structure) => (dominance, fallback.saturating_add(1)),
                _ => (dominance, fallback),
            }
        }
    }
}

fn count_access(counted: (usize, usize), candidates: &Vec<AccessCandidate>) -> (counts: (
    usize,
    usize,
))
    ensures
        counts == access_decisions(counted, candidates@),
{
    let mut dominance: usize = counted.0;
    let mut fallback: usize = counted.1;
    let mut i: usize = 0;
    assert(candidates@.take(0) =~= Seq::empty());
    while i < candidates.len()
        invariant
            i <= candidates.len(),
            (dominance, fallback) == access_decisions(counted, candidates@.take(i as int)),
        decreases candidates.len() - i,
    {
        assert(candidates@.take(i + 1).drop_last() =~= candidates@.take(i as int));
        if candidates[i].chosen {
            match candidates[i].decision_basis {
                Some(AccessDecisionBasis::CostDominance) => {
                    dominance = dominance.saturating_add(1);
                },
                Some(AccessDecisionBasis::Structure) => {
                    fallback = fallback.saturating_add(1);
                },
                _ => {},
            }
        }
        i += 1;
    }
    assert(candidates@.take(i as int) =~= candidates@);
    (dominance, fallback)
}

fn count_joins(counted: (usize, usize), candidates: &Vec<JoinCandidate>) -> (counts: (
    usize,
    usize,
))
    ensures
        counts == join_decisions(counted, candidates@),
{
    let mut dominance: usize = counted.0;
    let mut fallback: usize = counted.1;
    let mut i: usize = 0;
    assert(candidates@.take(0) =~= Seq::empty());
    while i < candidates.len()
        invariant
            i <= candidates.len(),
            (dominance, fallback) == join_decisions(counted, candidates@.take(i as int)),
        decreases candidates.len() - i,
    {
        assert(candidates@.take(i + 1).drop_last() =~= candidates@.take(i as int));
        if candidates[i].chosen {
            match candidates[i].decision_basis {
                Some(JoinDecisionBasis::CostDominance) => {
                    dominance = dominance.saturating_add(1);
                },
                Some(JoinDecisionBasis::BoundedBuild) => {
                    dominance = dominance.saturating_add(1);
                },
                Some(JoinDecisionBasis::Structure) => {
                    fallback = fallback.saturating_add(1);
                },
                _ => {},
            }
        }
        i += 1;
    }
    assert(candidates@.take(i as int) =~= candidates@);
    (dominance, fallback)
}

/// One where it holds, and zero where it does not.
pub open spec fn one_if(holds: bool) -> usize {
    if holds {
        1
    } else {
        0
    }
}

/// The known amount; zero where none is known.
pub open spec fn known(work: Option<u64>) -> u64 {
    match work {
        Some(work) => work,
        None => 0,
    }
}

/// What a plan is expected to do over another, as often as its family runs;
/// nothing where one of the two is not known.
pub open spec fn weighted_regret(work: Option<u64>, other: Option<u64>, weight: u64) -> u64 {
    match (work, other) {
        (Some(work), Some(other)) => scoring::saturating_product(
            work.saturating_sub(histogram::smaller(work, other)),
            weight,
        ),
        _ => 0,
    }
}

/// How the two plans of one statement compare.
pub open spec fn decision_of(
    name: Seq<char>,
    statement: PreparedView,
    cost_statement: PreparedView,
) -> DecisionView {
    let summary = plan_summary(cost_statement.plan.nodes);
    DecisionView {
        statement: name,
        structural_plan: statement.plan.fingerprint,
        cost_plan: cost_statement.plan.fingerprint,
        changed: statement.plan.fingerprint != cost_statement.plan.fingerprint,
        structural_row_work: row_work(statement.plan.nodes),
        cost_row_work: summary.work,
        cost_candidates: summary.access,
        cost_join_candidates: summary.joins,
        structural_memo: memo_summary_of(statement.plan.memo),
        cost_memo: memo_summary_of(cost_statement.plan.memo),
    }
}

impl PlannerScoreView {
    /// Nothing compared.
    pub open spec fn empty() -> PlannerScoreView {
        PlannerScoreView {
            statements_compared: 0,
            structural_evidence_coverage: 0,
            cost_evidence_coverage: 0,
            plans_changed: 0,
            cost_dominance_decisions: 0,
            structural_fallback_decisions: 0,
            memo_expressions_changed: 0,
            memo_budget_stops: 0,
            equality_saturation_additional_alternatives: 0,
            structural_predicted_row_work: 0,
            cost_predicted_row_work: 0,
            structural_predicted_workload_regret: 0,
            cost_predicted_workload_regret: 0,
            decisions: Seq::empty(),
        }
    }

    /// With the two plans of one more statement, which runs as often as the
    /// weight says.
    pub open spec fn compared(self, decision: DecisionView, weight: u64) -> PlannerScoreView {
        let counts = join_decisions(
            access_decisions(
                (self.cost_dominance_decisions, self.structural_fallback_decisions),
                decision.cost_candidates,
            ),
            decision.cost_join_candidates,
        );
        PlannerScoreView {
            statements_compared: (self.decisions.len() + 1) as usize,
            structural_evidence_coverage: self.structural_evidence_coverage.saturating_add(
                one_if(decision.structural_row_work is Some),
            ),
            cost_evidence_coverage: self.cost_evidence_coverage.saturating_add(
                one_if(decision.cost_row_work is Some),
            ),
            plans_changed: self.plans_changed.saturating_add(one_if(decision.changed)),
            cost_dominance_decisions: counts.0,
            structural_fallback_decisions: counts.1,
            memo_expressions_changed: self.memo_expressions_changed.saturating_add(
                decision.cost_memo.changed_expressions,
            ),
            memo_budget_stops: self.memo_budget_stops.saturating_add(
                one_if(decision.cost_memo.stop_reason is Some),
            ),
            equality_saturation_additional_alternatives:
                self.equality_saturation_additional_alternatives.saturating_add(
                decision.cost_memo.additional_saturated_alternatives,
            ),
            structural_predicted_row_work: self.structural_predicted_row_work.saturating_add(
                known(decision.structural_row_work),
            ),
            cost_predicted_row_work: self.cost_predicted_row_work.saturating_add(
                known(decision.cost_row_work),
            ),
            structural_predicted_workload_regret:
                self.structural_predicted_workload_regret.saturating_add(
                weighted_regret(decision.structural_row_work, decision.cost_row_work, weight),
            ),
            cost_predicted_workload_regret: self.cost_predicted_workload_regret.saturating_add(
                weighted_regret(decision.cost_row_work, decision.structural_row_work, weight),
            ),
            decisions: self.decisions.push(decision),
        }
    }
}

fn count_if(holds: bool) -> (count: usize)
    ensures
        count == one_if(holds),
{
    if holds {
        1
    } else {
        0
    }
}

fn known_work(work: Option<u64>) -> (known_work: u64)
    ensures
        known_work == known(work),
{
    match work {
        Some(work) => work,
        None => 0,
    }
}

fn regret_of(work: Option<u64>, other: Option<u64>, weight: u64) -> (regret: u64)
    ensures
        regret == weighted_regret(work, other, weight),
{
    match (work, other) {
        (Some(work), Some(other)) => product(
            work.saturating_sub(min_of(work, other)),
            weight,
        ),
        _ => 0,
    }
}

/// How the two plans of one statement compare.
pub fn decide(
    name: &String,
    statement: &PreparedStatementEstimate,
    cost_statement: &PreparedStatementEstimate,
) -> (decision: PlannerReplayDecision)
    ensures
        decision@ == decision_of(name@, statement@, cost_statement@),
{
    let (cost_row_work, cost_candidates, cost_join_candidates) = cost_plan_summary(
        &cost_statement.plan,
    );
    PlannerReplayDecision {
        statement: name.as_str().to_owned(),
        structural_plan: statement.plan.fingerprint,
        cost_plan: cost_statement.plan.fingerprint,
        changed: !(statement.plan.fingerprint == cost_statement.plan.fingerprint),
        structural_row_work: predicted_row_work(&statement.plan),
        cost_row_work,
        cost_candidates,
        cost_join_candidates,
        structural_memo: memo_summary(&statement.plan),
        cost_memo: memo_summary(&cost_statement.plan),
    }
}

impl PlannerReplayScore {
    /// Nothing compared.
    pub fn empty() -> (score: PlannerReplayScore)
        ensures
            score@ == PlannerScoreView::empty(),
    {
        let score = PlannerReplayScore {
            statements_compared: 0,
            structural_evidence_coverage: 0,
            cost_evidence_coverage: 0,
            plans_changed: 0,
            cost_dominance_decisions: 0,
            structural_fallback_decisions: 0,
            memo_expressions_changed: 0,
            memo_budget_stops: 0,
            equality_saturation_additional_alternatives: 0,
            structural_predicted_row_work: 0,
            cost_predicted_row_work: 0,
            structural_predicted_workload_regret: 0,
            cost_predicted_workload_regret: 0,
            decisions: Vec::new(),
        };
        assert(score@.decisions =~= Seq::empty());
        score
    }

    /// Adds the two plans of one more statement.
    pub fn compare(&mut self, decision: PlannerReplayDecision, weight: u64)
        ensures
            final(self)@ == old(self)@.compared(decision@, weight),
    {
        self.structural_evidence_coverage = self.structural_evidence_coverage.saturating_add(
            count_if(decision.structural_row_work.is_some()),
        );
        self.cost_evidence_coverage = self.cost_evidence_coverage.saturating_add(
            count_if(decision.cost_row_work.is_some()),
        );
        self.plans_changed = self.plans_changed.saturating_add(count_if(decision.changed));
        self.memo_expressions_changed = self.memo_expressions_changed.saturating_add(
            decision.cost_memo.changed_expressions,
        );
        self.memo_budget_stops = self.memo_budget_stops.saturating_add(
            count_if(decision.cost_memo.stop_reason.is_some()),
        );
        self.equality_saturation_additional_alternatives =
        self.equality_saturation_additional_alternatives.saturating_add(
            decision.cost_memo.additional_saturated_alternatives,
        );
        let (dominance, fallback) = count_joins(
            count_access(
                (self.cost_dominance_decisions, self.structural_fallback_decisions),
                &decision.cost_candidates,
            ),
            &decision.cost_join_candidates,
        );
        self.cost_dominance_decisions = dominance;
        self.structural_fallback_decisions = fallback;
        self.structural_predicted_row_work = self.structural_predicted_row_work.saturating_add(
            known_work(decision.structural_row_work),
        );
        self.cost_predicted_row_work = self.cost_predicted_row_work.saturating_add(
            known_work(decision.cost_row_work),
        );
        self.structural_predicted_workload_regret =
        self.structural_predicted_workload_regret.saturating_add(
            regret_of(decision.structural_row_work, decision.cost_row_work, weight),
        );
        self.cost_predicted_workload_regret = self.cost_predicted_workload_regret.saturating_add(
            regret_of(decision.cost_row_work, decision.structural_row_work, weight),
        );
        self.decisions.push(decision);
        self.statements_compared = self.decisions.len();
        assert(self@.decisions =~= old(self)@.decisions.push(decision@));
        assert(self@ =~= old(self)@.compared(decision@, weight));
    }
}

} // verus!
