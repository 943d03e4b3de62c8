use anchor_desktop::dataset::RecordingScenario;
use anchor_desktop::filtering::{
    check_single_session, common_limitations, dataset_evaluation_input, EstimatorError, GravityOnlyEstimator, InputKind,
};
use anchor_desktop::selection::{
    all_equivalent, apply_simplicity_priority, compare_objective, dominance_evidence, dominates,
    fixture_matches_event, gate, gravity_contamination_dominates, has_fixture,
    inconclusive_explanation, limitations, mark_dominated, objective_presence, pareto_front,
    policy_candidate_label, policy_candidate_of, safe_basename, scenario_order, simplicity_rank,
    validate_dataset_inputs, validate_policy_contract, EventMetricKind, FixtureEventKind,
    ObjectiveOrdering, ObjectivePresence, PhysicalDatasetSelectionInput, PolicyCandidate,
    SelectionMetricStatus, POLICY_SOURCE,
};

const ALL: [RecordingScenario; 9] = [
    RecordingScenario::Stationary,
    RecordingScenario::RollRight,
    RecordingScenario::RollLeft,
    RecordingScenario::PitchFrontDown,
    RecordingScenario::PitchFrontUp,
    RecordingScenario::YawClockwise,
    RecordingScenario::YawCounterclockwise,
    RecordingScenario::LinearForward,
    RecordingScenario::LinearBackward,
];

fn inputs(scenarios: &[RecordingScenario]) -> Vec<PhysicalDatasetSelectionInput> {
    scenarios
        .iter()
        .map(|scenario| PhysicalDatasetSelectionInput {
            scenario: *scenario,
            path: format!("{}.ndjson", scenario.as_str()),
        })
        .collect()
}

fn names(items: &[&str]) -> Vec<String> {
    items.iter().map(|item| (*item).to_owned()).collect()
}

#[test]
fn dominance_needs_a_gain_and_no_loss() {
    let objectives = names(&["synthetic angular RMSE", "sine lag"]);
    assert_eq!(
        dominance_evidence(
            &objectives,
            &vec![ObjectiveOrdering::Better, ObjectiveOrdering::Equivalent]
        ),
        Some(names(&["synthetic angular RMSE"]))
    );
    assert_eq!(
        dominance_evidence(
            &objectives,
            &vec![ObjectiveOrdering::Better, ObjectiveOrdering::Worse]
        ),
        None
    );
    assert_eq!(
        dominance_evidence(
            &objectives,
            &vec![ObjectiveOrdering::Better, ObjectiveOrdering::Incomparable]
        ),
        None
    );
    assert_eq!(
        dominance_evidence(
            &objectives,
            &vec![ObjectiveOrdering::Equivalent, ObjectiveOrdering::Equivalent]
        ),
        None
    );
}

#[test]
fn failed_and_unavailable_objectives_compare_by_status() {
    let failed = objective_presence(SelectionMetricStatus::Failed, false);
    let value = objective_presence(SelectionMetricStatus::Available, true);
    let unavailable = objective_presence(SelectionMetricStatus::Unavailable, false);
    assert_eq!(failed, ObjectivePresence::Failed);
    assert_eq!(
        compare_objective(value, failed, ObjectiveOrdering::Equivalent),
        ObjectiveOrdering::Better
    );
    assert_eq!(
        compare_objective(failed, value, ObjectiveOrdering::Equivalent),
        ObjectiveOrdering::Worse
    );
    assert_eq!(
        compare_objective(failed, failed, ObjectiveOrdering::Better),
        ObjectiveOrdering::Equivalent
    );
    assert_eq!(
        compare_objective(unavailable, unavailable, ObjectiveOrdering::Better),
        ObjectiveOrdering::Equivalent
    );
    assert_eq!(
        compare_objective(unavailable, value, ObjectiveOrdering::Better),
        ObjectiveOrdering::Incomparable
    );
    assert_eq!(
        compare_objective(value, value, ObjectiveOrdering::Worse),
        ObjectiveOrdering::Worse
    );
    assert_eq!(
        objective_presence(SelectionMetricStatus::Available, false),
        ObjectivePresence::Inconsistent
    );
}

#[test]
fn simplicity_keeps_the_simplest_family() {
    let mut candidates = names(&[
        "complementary_tau_ms_250",
        "low_pass_tau_ms_100",
        "low_pass_tau_ms_50",
    ]);
    apply_simplicity_priority(&mut candidates);
    assert_eq!(candidates, names(&["low_pass_tau_ms_100", "low_pass_tau_ms_50"]));

    let mut single = names(&["complementary_tau_ms_250"]);
    apply_simplicity_priority(&mut single);
    assert_eq!(single, names(&["complementary_tau_ms_250"]));
}

#[test]
fn candidates_are_named_and_ranked_by_family() {
    assert_eq!(simplicity_rank("gravity_no_additional_anchor_filter"), 0);
    assert_eq!(simplicity_rank("low_pass_tau_ms_25"), 1);
    assert_eq!(simplicity_rank("complementary_tau_ms_50"), 2);
    assert_eq!(simplicity_rank("kalman"), 3);
    assert_eq!(policy_candidate_label("low_pass_tau_ms_25"), "low_pass_gravity");
    assert_eq!(
        policy_candidate_label("complementary_tau_ms_50"),
        "complementary_gravity_gyro"
    );
    assert_eq!(policy_candidate_label("x"), "unknown");
    assert_eq!(
        policy_candidate_of("gravity_no_additional_anchor_filter"),
        Some(PolicyCandidate::GravityNoAdditionalAnchorFilter)
    );
    assert_eq!(policy_candidate_of("low_pass_tau_ms_"), Some(PolicyCandidate::LowPassGravity));
    assert_eq!(policy_candidate_of("low_pass"), None);
}

#[test]
fn dataset_inputs_need_each_scenario_once() {
    assert_eq!(validate_dataset_inputs(&inputs(&ALL)), Ok(()));
    assert_eq!(
        validate_dataset_inputs(&inputs(&ALL[..7])),
        Err("missing physical scenarios: linear_forward, linear_backward".to_owned())
    );
    let mut duplicated = ALL.to_vec();
    duplicated.insert(3, RecordingScenario::RollRight);
    assert_eq!(
        validate_dataset_inputs(&inputs(&duplicated)),
        Err("duplicate physical scenario: roll_right".to_owned())
    );
    assert_eq!(
        validate_dataset_inputs(&inputs(&[])),
        Err(format!(
            "missing physical scenarios: {}",
            ALL.iter().map(|s| s.as_str()).collect::<Vec<_>>().join(", ")
        ))
    );
}

#[test]
fn inconclusive_explanation_lists_the_front() {
    let explanation = inconclusive_explanation(&names(&["a", "b"]));
    assert_eq!(explanation.remaining_configurations, names(&["a", "b"]));
    assert_eq!(explanation.equivalent_or_conflicting_dimensions.len(), 2);
    assert_eq!(explanation.minimum_additional_evidence.len(), 1);
    assert!(inconclusive_explanation(&Vec::new())
        .remaining_configurations
        .is_empty());
}

#[test]
fn report_helpers_are_exact() {
    assert_eq!(safe_basename("/data/roll right?.ndjson"), "roll-right-.ndjson");
    assert_eq!(safe_basename("/"), "input");
    assert_eq!(safe_basename("a_b-c.json"), "a_b-c.json");
    let names_seen = names(&["irregular_dt", "mounting_bias_b2"]);
    assert!(has_fixture(&names_seen, "irregular_dt"));
    assert!(!has_fixture(&names_seen, "sine"));
    assert!(fixture_matches_event(Some(FixtureEventKind::Sine), EventMetricKind::Sine));
    assert!(!fixture_matches_event(Some(FixtureEventKind::Sine), EventMetricKind::Step));
    assert!(!fixture_matches_event(None, EventMetricKind::GravityContamination));
    let g = gate("yaw_unavailable", true, "kept");
    assert_eq!((g.gate.as_str(), g.passed, g.detail.as_str()), ("yaw_unavailable", true, "kept"));
    assert_eq!(limitations().len(), 4);
    assert_eq!(scenario_order(RecordingScenario::Stationary), 0);
    assert_eq!(scenario_order(RecordingScenario::LinearBackward), 8);
}

#[test]
fn evaluation_inputs_and_errors() {
    assert_eq!(
        EstimatorError::NonFiniteVector("gravityMps2").message(),
        "gravityMps2 must contain finite components"
    );
    assert_eq!(
        EstimatorError::InvalidDt.message(),
        "dtSeconds must be positive and finite"
    );
    assert_eq!(GravityOnlyEstimator::new(), GravityOnlyEstimator);
    let input = dataset_evaluation_input("/x/Run 1.ndjson", "p.json");
    assert_eq!(input.kind, InputKind::Dataset);
    assert_eq!(input.identifier, "Run-1.ndjson");
    assert_eq!(input.profile_identifier.as_deref(), Some("p.json"));
    assert_eq!(common_limitations(true).len(), 6);
    assert_eq!(common_limitations(false).len(), 7);
}

#[test]
fn pareto_marks_and_front() {
    let (better, equivalent, worse) = (ObjectiveOrdering::Better, ObjectiveOrdering::Equivalent, ObjectiveOrdering::Worse);
    let ids = names(&["a", "b", "c"]);
    let eligible = vec![true, true, false];
    let objectives = names(&["rmse", "lag"]);
    // orders[x][y]: x compared with y.
    let orders = vec![
        vec![vec![equivalent, equivalent], vec![better, equivalent], vec![better, better]],
        vec![vec![worse, equivalent], vec![equivalent, equivalent], vec![better, worse]],
        vec![vec![worse, worse], vec![worse, better], vec![equivalent, equivalent]],
    ];
    let marks = mark_dominated(&ids, &eligible, &objectives, &orders);
    assert_eq!(marks[0], (Vec::<String>::new(), Vec::<String>::new()));
    assert_eq!(marks[1], (names(&["a"]), names(&["a dominates on rmse"])));
    assert_eq!(marks[2], (Vec::<String>::new(), Vec::<String>::new()));
    let dominated_by: Vec<Vec<String>> = marks.into_iter().map(|m| m.0).collect();
    assert_eq!(pareto_front(&ids, &eligible, &dominated_by), names(&["a"]));
}

#[test]
fn gravity_priority_comparisons() {
    let (better, equivalent, incomparable) = (ObjectiveOrdering::Better, ObjectiveOrdering::Equivalent, ObjectiveOrdering::Incomparable);
    assert!(gravity_contamination_dominates(&vec![better, equivalent, equivalent]));
    assert!(!gravity_contamination_dominates(&vec![equivalent, equivalent, equivalent]));
    assert!(!gravity_contamination_dominates(&vec![better, incomparable, better]));
    assert!(all_equivalent(&vec![equivalent, equivalent, equivalent]));
    assert!(!all_equivalent(&vec![equivalent, better, equivalent]));
}

#[test]
fn policy_contract_rejects_invalid_values_and_yaw_contract() {
    let none: Vec<String> = Vec::new();
    assert_eq!(
        validate_policy_contract(1, false, POLICY_SOURCE, PolicyCandidate::GravityNoAdditionalAnchorFilter, &none),
        Ok(None)
    );
    assert_eq!(
        validate_policy_contract(1, false, POLICY_SOURCE, PolicyCandidate::LowPassGravity, &names(&["tauMs"])),
        Ok(Some("tauMs"))
    );
    assert_eq!(
        validate_policy_contract(2, false, POLICY_SOURCE, PolicyCandidate::LowPassGravity, &none),
        Err("unsupported policy version: 2".to_owned())
    );
    assert_eq!(
        validate_policy_contract(1, true, POLICY_SOURCE, PolicyCandidate::LowPassGravity, &none),
        Err("yawAvailable must remain false".to_owned())
    );
    assert_eq!(
        validate_policy_contract(1, false, "manual", PolicyCandidate::LowPassGravity, &none),
        Err("policy source must be b3b_offline_selection".to_owned())
    );
    assert_eq!(
        validate_policy_contract(
            1,
            false,
            POLICY_SOURCE,
            PolicyCandidate::ComplementaryGravityGyro,
            &names(&["tauMs"])
        ),
        Err("policy parameters must contain only correctionTauMs".to_owned())
    );
    assert_eq!(
        validate_policy_contract(
            1,
            false,
            POLICY_SOURCE,
            PolicyCandidate::GravityNoAdditionalAnchorFilter,
            &names(&["tauMs"])
        ),
        Err("gravity policy must not contain parameters".to_owned())
    );
    assert_eq!(
        validate_policy_contract(
            1,
            false,
            POLICY_SOURCE,
            PolicyCandidate::ComplementaryGravityGyro,
            &names(&["correctionTauMs"])
        ),
        Ok(Some("correctionTauMs"))
    );
    assert_eq!(
        validate_policy_contract(
            1,
            false,
            POLICY_SOURCE,
            PolicyCandidate::ComplementaryGravityGyro,
            &names(&["correctionTauMs", "extra"])
        ),
        Err("policy parameters must contain only correctionTauMs".to_owned())
    );
}

#[test]
fn physical_evaluation_needs_one_session() {
    assert!(check_single_session(1).is_ok());
    assert_eq!(
        check_single_session(2),
        Err("evaluation requires exactly one session, got 2".to_owned())
    );
    assert_eq!(
        check_single_session(0),
        Err("evaluation requires exactly one session, got 0".to_owned())
    );
}

#[test]
fn dominates_needs_a_gain_and_no_loss() {
    let names = vec!["lag".to_owned(), "drift".to_owned()];
    assert!(dominates(&names, &vec![ObjectiveOrdering::Better, ObjectiveOrdering::Equivalent]));
    assert!(!dominates(&names, &vec![ObjectiveOrdering::Better, ObjectiveOrdering::Worse]));
    assert!(!dominates(&names, &vec![ObjectiveOrdering::Equivalent, ObjectiveOrdering::Equivalent]));
    assert!(!dominates(&names, &vec![ObjectiveOrdering::Better, ObjectiveOrdering::Incomparable]));
}

/// The objectives a selection compares, in order.
fn selection_objectives() -> Vec<String> {
    names(&[
        "synthetic angular RMSE",
        "synthetic angular p95",
        "synthetic angular max",
        "roll RMSE",
        "pitch RMSE",
        "final drift",
        "step overshoot",
        "step settling",
        "sine lag",
        "gravity pulse angular RMSE",
        "gravity pulse angular max",
        "gravity pulse recovery",
        "gyro bias final drift",
        "irregular dt angular RMSE",
    ])
}

const SINE_LAG: usize = 8;
const RECOVERY: usize = 11;
const GYRO_DRIFT: usize = 12;

/// The comparison of two configurations whose objectives all hold equal
/// values, except at the given positions.
fn orders_with(changes: &[(usize, ObjectiveOrdering)]) -> Vec<ObjectiveOrdering> {
    let value = ObjectivePresence::Value;
    let mut orders = vec![compare_objective(value, value, ObjectiveOrdering::Equivalent); 14];
    for (index, order) in changes {
        orders[*index] = *order;
    }
    orders
}

#[test]
fn pareto_dominance_detects_dominated_and_incomparable_configs() {
    let objectives = selection_objectives();
    let value = ObjectivePresence::Value;
    // `better` holds 1.0 and `worse` 2.0 on every objective.
    let better_vs_worse = vec![compare_objective(value, value, ObjectiveOrdering::Better); 14];
    let worse_vs_better = vec![compare_objective(value, value, ObjectiveOrdering::Worse); 14];
    assert!(dominates(&objectives, &better_vs_worse));
    assert!(!dominates(&objectives, &worse_vs_better));

    // `a` has a sine lag of 2.0, `b` an angular RMSE of 2.0, the rest 1.0.
    let a_vs_b = orders_with(&[
        (0, compare_objective(value, value, ObjectiveOrdering::Better)),
        (SINE_LAG, compare_objective(value, value, ObjectiveOrdering::Worse)),
    ]);
    let b_vs_a = orders_with(&[
        (0, compare_objective(value, value, ObjectiveOrdering::Worse)),
        (SINE_LAG, compare_objective(value, value, ObjectiveOrdering::Better)),
    ]);
    assert!(!dominates(&objectives, &a_vs_b));
    assert!(!dominates(&objectives, &b_vs_a));
}

#[test]
fn pareto_handles_failed_incomparable_and_ineligible_candidates() {
    let objectives = selection_objectives();
    let (value, failed) = (ObjectivePresence::Value, ObjectivePresence::Failed);
    let equivalent = ObjectiveOrdering::Equivalent;
    // `failed` has no recovery time; everything else is 1.0 on both.
    let available_vs_failed = orders_with(&[(RECOVERY, compare_objective(value, failed, equivalent))]);
    let failed_vs_available = orders_with(&[(RECOVERY, compare_objective(failed, value, equivalent))]);
    assert!(dominates(&objectives, &available_vs_failed));
    assert!(!dominates(&objectives, &failed_vs_available));

    // `a` has a sine lag of 0.02, `b` a gyro-bias drift of 0.02, the rest 1.0.
    let a_vs_b = orders_with(&[
        (SINE_LAG, compare_objective(value, value, ObjectiveOrdering::Better)),
        (GYRO_DRIFT, compare_objective(value, value, ObjectiveOrdering::Worse)),
    ]);
    let b_vs_a = orders_with(&[
        (SINE_LAG, compare_objective(value, value, ObjectiveOrdering::Worse)),
        (GYRO_DRIFT, compare_objective(value, value, ObjectiveOrdering::Better)),
    ]);
    assert!(!dominates(&objectives, &a_vs_b));
    assert!(!dominates(&objectives, &b_vs_a));

    // `available` and an ineligible `failed`.
    let ids = names(&["available", "failed"]);
    let eligible = vec![true, false];
    let orders = vec![
        vec![orders_with(&[]), available_vs_failed.clone()],
        vec![failed_vs_available.clone(), orders_with(&[])],
    ];
    let marks = mark_dominated(&ids, &eligible, &objectives, &orders);
    let dominated_by: Vec<Vec<String>> = marks.into_iter().map(|m| m.0).collect();
    assert_eq!(pareto_front(&ids, &eligible, &dominated_by), names(&["available"]));
}
