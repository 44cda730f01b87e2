//! Evaluation of estimators over a recorded workload.

use rad::scheduler::evidence::{DependencyStamp, KvResourceDistribution, KvResourceSample, PlanProfile};
use rad::scheduler::planner::{FeedbackModel, PlannerStats};
use rad::scheduler::plans::{
    cost_plan_summary, memo_summary, predicted_row_work, AccessCandidate, AccessDecisionBasis,
    JoinCandidate, JoinDecisionBasis, Memo, MemoRoot, MemoUsage, Plan, PlanNode, PreparedEntry,
    PreparedProgram, PreparedStatementEstimate,
};
use rad::scheduler::records::ProgramStatementOutcome;
use rad::scheduler::replay::{
    corpus_digest, prepares_at, replay, replay_limit, CandidateEstimator,
    FamilyFeedbackCandidate,
};
use rad::scheduler::scoring::{
    plan_profile_regret_x100, quantile, score, MIN_PLAN_PROFILE_EXECUTIONS,
};
use rad::scheduler::sketches::Fingerprint;
use rad::scheduler::storage::CorpusExecution;

fn fingerprint(seed: u8) -> Fingerprint {
    Fingerprint {
        canonicalization_version: 1,
        hash_algorithm: 1,
        digest: u128::from_be_bytes([seed; 16]),
    }
}

#[test]
fn exact_quantiles_use_nearest_ranks() {
    let errors = vec![100, 200, 300, 400, 500];
    let score = score("test", &errors);
    assert_eq!(score.q_error_p50_x100 as f64 / 100.0, 3.0);
    assert_eq!(score.q_error_p95_x100 as f64 / 100.0, 5.0);
    assert_eq!(score.q_error_max_x100 as f64 / 100.0, 5.0);
    assert_eq!(score.observations, 5);
    assert_eq!(score.estimator, "test");
}

#[test]
fn scores_do_not_depend_on_the_order() {
    let forward = score("test", &vec![5, 1, 4, 1, 3]);
    let backward = score("test", &vec![3, 1, 4, 1, 5]);
    assert_eq!(forward, backward);
    assert_eq!(forward.q_error_p50_x100, 3);
    assert_eq!(score("none", &Vec::new()).q_error_max_x100, 0);
    assert_eq!(quantile(&vec![10, 20, 30], 0), 10);
    assert_eq!(quantile(&vec![10, 20, 30], 100), 30);
}

#[test]
fn plan_regret_requires_comparable_plan_profiles() {
    let active_plan = fingerprint(1);
    let alternative_plan = fingerprint(2);
    let profile = |plan, access_stamp, rows, execute_micros, executions: u64| {
        let mut profile = PlanProfile::new(plan, access_stamp);
        for _ in 0..executions {
            profile.record(rows, execute_micros);
        }
        profile
    };
    let active = || profile(active_plan, 7, 10, 40, 3);

    assert_eq!(
        plan_profile_regret_x100(
            active_plan,
            7,
            &vec![active(), profile(alternative_plan, 8, 10, 10, 3)]
        ),
        None
    );
    assert_eq!(
        plan_profile_regret_x100(
            active_plan,
            7,
            &vec![active(), profile(alternative_plan, 7, 20, 10, 3)]
        ),
        None
    );
    assert_eq!(
        plan_profile_regret_x100(
            active_plan,
            7,
            &vec![active(), profile(alternative_plan, 7, 10, 10, 2)]
        ),
        None
    );
    assert_eq!(
        plan_profile_regret_x100(
            active_plan,
            7,
            &vec![active(), profile(alternative_plan, 7, 10, 10, 3)]
        ),
        Some(400)
    );
    // The best plan is no better than itself.
    assert_eq!(
        plan_profile_regret_x100(
            alternative_plan,
            7,
            &vec![active(), profile(alternative_plan, 7, 10, 10, 3)]
        ),
        Some(100)
    );
}

fn memo(changed: bool) -> Memo {
    Memo {
        usage: MemoUsage {
            groups: 1,
            alternatives: 2,
            rule_applications: 3,
            planning_effort: 4,
        },
        roots: vec![MemoRoot {
            directed_alternatives: 2,
            saturated_alternatives: 5,
            structural_expression: fingerprint(1),
            selected_expression: fingerprint(if changed { 2 } else { 1 }),
            selected_proof_edges: 1,
        }],
        stop_reason: None,
    }
}

fn plan(seed: u8, changed: bool, nodes: Vec<PlanNode>) -> Plan {
    Plan {
        fingerprint: fingerprint(seed),
        stamp: DependencyStamp {
            semantic: 3,
            access: 4,
        },
        nodes,
        memo: memo(changed),
    }
}

fn prepared(seed: u8, changed: bool) -> PreparedStatementEstimate {
    PreparedStatementEstimate {
        name: "read".into(),
        active: 1_000,
        family: fingerprint(9),
        family_feedback: Some(1),
        plan: plan(seed, changed, Vec::new()),
    }
}

fn execution(outcomes: Vec<ProgramStatementOutcome>) -> CorpusExecution {
    CorpusExecution {
        canonical: Vec::new(),
        content_hash: 77,
        at_unix_micros: 1,
        statements: 1,
        outcomes,
    }
}

fn outcome(name: &str, rows: u64) -> ProgramStatementOutcome {
    ProgramStatementOutcome {
        name: name.into(),
        rows,
    }
}

fn statistics() -> PlannerStats {
    let active_plan = fingerprint(1);
    let alternative_plan = fingerprint(2);
    let mut active_profile = PlanProfile::new(active_plan, 4);
    let mut alternative_profile = PlanProfile::new(alternative_plan, 4);
    for _ in 0..MIN_PLAN_PROFILE_EXECUTIONS {
        active_profile.record_with_resources(
            1,
            40,
            KvResourceSample {
                gets: 2,
                scans: 1,
                iterated: 3,
                bytes_read: 100,
                ..KvResourceSample::default()
            },
        );
        alternative_profile.record(1, 10);
    }
    let mut statistics = PlannerStats::empty();
    let model = FeedbackModel {
        family: fingerprint(9),
        retained_executions: 20,
        exact_variants: 1,
        last_seen: 0,
        rows_p50_upper_bound: 1,
        rows_p95_upper_bound: 1,
        rows_max: 1,
        execute_micros_p50_upper_bound: 0,
        execute_micros_p95_upper_bound: 0,
        duration_ewma_bits: 0,
        plans: Vec::new(),
        plan_profiles: vec![active_profile, alternative_profile],
        resources: KvResourceDistribution::default(),
        stamp: DependencyStamp {
            semantic: 3,
            access: 4,
        },
        executions_with_estimate: 0,
        q_error_p50_upper_bound_x100: 0,
        q_error_p95_upper_bound_x100: 0,
        q_error_max_x100: 0,
    };
    statistics.feedback_models.push(model.copy());
    statistics.statement_models.push(model);
    statistics
}

#[test]
fn replay_compares_a_candidate_with_recorded_actuals() {
    let report = replay(
        &statistics(),
        &vec![execution(vec![outcome("read", 1)])],
        &vec![PreparedEntry {
            content_hash: 77,
            program: Some(PreparedProgram {
                structural: vec![prepared(1, false)],
                cost: vec![prepared(1, true)],
            }),
        }],
        &FamilyFeedbackCandidate,
        7,
        "catalog-hash".into(),
    );

    assert_eq!(report.executions_scored, 1);
    assert_eq!(report.catalog_version, 7);
    assert_eq!(report.corpus_digest.len(), 64);
    assert_eq!(report.statements_scored, 1);
    assert_eq!(report.candidate_evidence, 1);
    assert_eq!(report.candidate_better, 1);
    assert_eq!(report.baseline.q_error_max_x100 as f64 / 100.0, 1_000.0);
    assert_eq!(report.candidate.q_error_max_x100 as f64 / 100.0, 1.0);
    assert_eq!(report.observed_plan_regret.statements_compared, 1);
    assert_eq!(report.observed_plan_regret.families_compared, 1);
    assert_eq!(
        report.observed_plan_regret.slowdown_p50_x100 as f64 / 100.0,
        4.0
    );
    assert_eq!(report.observed_resource_cost.plan_profiles_considered, 1);
    assert_eq!(report.observed_resource_cost.plan_profiles_with_cost, 1);
    assert_eq!(report.planner.structural_evidence_coverage, 1);
    assert_eq!(report.planner.cost_evidence_coverage, 1);
    assert_eq!(report.planner.memo_expressions_changed, 1);
    assert_eq!(report.planner.memo_budget_stops, 0);
    assert_eq!(report.planner.decisions[0].cost_memo.changed_expressions, 1);
    assert_eq!(
        report.planner.decisions[0].cost_memo.selected_proof_edges,
        1
    );
    assert_eq!(report.planner.structural_predicted_workload_regret, 0);
    assert_eq!(report.planner.cost_predicted_workload_regret, 0);
    let cost = report.observed_resource_cost.cost.expect("resource cost");
    assert_eq!(cost.observed_executions, 3);
    assert_eq!(cost.gets.maximum, 2);
    assert_eq!(cost.scans.maximum, 1);
    assert_eq!(cost.iterated.maximum, 3);
    assert_eq!(cost.bytes_read.maximum, 100);
    assert_eq!(
        report.candidate.estimator,
        "family_feedback_with_active_fallback"
    );
    assert_eq!(
        FamilyFeedbackCandidate.name(),
        "family_feedback_with_active_fallback"
    );
}

#[test]
fn what_cannot_be_held_against_an_outcome_is_counted_apart() {
    let entry = |program| PreparedEntry {
        content_hash: 77,
        program,
    };
    let executions = vec![
        execution(Vec::new()),
        execution(vec![outcome("read", 1), outcome("write", 2)]),
        execution(vec![outcome("write", 2)]),
    ];
    let report = replay(
        &PlannerStats::empty(),
        &executions,
        &vec![entry(Some(PreparedProgram {
            structural: vec![prepared(1, false)],
            cost: vec![prepared(2, false)],
        }))],
        &FamilyFeedbackCandidate,
        1,
        String::new(),
    );
    assert_eq!(report.executions_considered, 3);
    assert_eq!(report.executions_without_actuals, 1);
    assert_eq!(report.executions_scored, 1);
    assert_eq!(report.incompatible_executions, 1);
    assert_eq!(report.unmatched_statements, 2);
    assert_eq!(report.planner.plans_changed, 1);
    assert_eq!(report.observed_plan_regret.statements_without_comparison, 1);

    let incompatible = replay(
        &PlannerStats::empty(),
        &executions,
        &vec![entry(None)],
        &FamilyFeedbackCandidate,
        1,
        String::new(),
    );
    assert_eq!(incompatible.incompatible_executions, 2);
    assert_eq!(incompatible.statements_scored, 0);

    assert!(!prepares_at(&executions, 0));
    assert!(prepares_at(&executions, 1));
    assert!(!prepares_at(&executions, 2));
}

#[test]
fn plans_add_up_what_was_chosen() {
    let access = |chosen, basis, row_operations| AccessCandidate {
        chosen,
        decision_basis: basis,
        row_operations,
    };
    let nodes = vec![
        PlanNode {
            access: Some(vec![
                access(false, None, Some(9)),
                access(true, Some(AccessDecisionBasis::CostDominance), Some(4)),
            ]),
            join: None,
        },
        PlanNode {
            access: None,
            join: Some(vec![JoinCandidate {
                chosen: true,
                decision_basis: Some(JoinDecisionBasis::Structure),
                row_operations: Some(6),
            }]),
        },
    ];
    let known = plan(1, false, nodes);
    assert_eq!(predicted_row_work(&known), Some(10));
    let (work, candidates, joins) = cost_plan_summary(&known);
    assert_eq!(work, Some(10));
    assert_eq!(candidates.len(), 2);
    assert_eq!(joins.len(), 1);

    let unknown = plan(
        1,
        false,
        vec![PlanNode {
            access: Some(vec![access(false, None, Some(9))]),
            join: None,
        }],
    );
    assert_eq!(predicted_row_work(&unknown), None);
    assert_eq!(predicted_row_work(&plan(1, false, Vec::new())), Some(0));

    let summary = memo_summary(&plan(1, true, Vec::new()));
    assert_eq!(summary.changed_expressions, 1);
    assert_eq!(summary.additional_saturated_alternatives, 3);
    assert_eq!(summary.planning_effort, 4);
}

#[test]
fn a_corpus_digest_is_the_digest_of_its_bytes() {
    // SHA-256 of no bytes.
    assert_eq!(
        corpus_digest(&Vec::new()),
        "e3b0c44298fc1c149afbf4c8996fb92427ae41e4649b934ca495991b7852b855"
    );
    let first = corpus_digest(&vec![execution(vec![outcome("read", 1)])]);
    let second = corpus_digest(&vec![execution(vec![outcome("read", 2)])]);
    assert_ne!(first, second);
    assert_eq!(first.len(), 64);
}

#[test]
fn a_replay_is_limited() {
    assert_eq!(replay_limit(None), 1_000);
    assert_eq!(replay_limit(Some(5)), 5);
    assert_eq!(replay_limit(Some(10_000)), 10_000);
    assert_eq!(replay_limit(Some(20_000)), 10_000);
}

#[test]
fn without_evidence_both_estimators_score_alike() {
    let unknown = |seed: u8| PreparedStatementEstimate {
        family_feedback: None,
        ..prepared(seed, false)
    };
    let report = replay(
        &PlannerStats::empty(),
        &vec![
            execution(vec![outcome("read", 1)]),
            execution(vec![outcome("read", 10)]),
        ],
        &vec![PreparedEntry {
            content_hash: 77,
            program: Some(PreparedProgram {
                structural: vec![unknown(1)],
                cost: vec![unknown(2)],
            }),
        }],
        &FamilyFeedbackCandidate,
        1,
        String::new(),
    );
    assert_eq!(report.statements_scored, 2);
    assert_eq!(report.candidate_evidence, 0);
    assert_eq!(report.candidate_better, 0);
    assert_eq!(report.candidate_worse, 0);
    assert_eq!(report.candidate_equal, 2);
    assert_eq!(report.candidate.q_error_max_x100, 100_000);
    assert_eq!(report.baseline.q_error_max_x100, 100_000);
}
