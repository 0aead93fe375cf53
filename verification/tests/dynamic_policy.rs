//! Risk bands, task domains, and the fixed weights of risk.
use kirino::collections::{KeySet, Table};
use kirino::rbac::dynamic::anomaly::{
    AnomalyScore, COLD_SCORE_BITS, HIGH_DEVIATION_BITS, MODERATE_DEVIATION_BITS,
};
use kirino::rbac::dynamic::delegator::{Delegator, DelegatorType};
use kirino::rbac::dynamic::domain::{
    DomainMatch, DomainScope, TaskDomain, ADJACENT_DOMAIN_BITS, ADJACENT_RESOURCE_MISMATCH_BITS,
    DOMAIN_RESOURCE_MISMATCH_BITS, OUT_OF_DOMAIN_BITS,
};
use kirino::rbac::dynamic::metrics::{ActionCategory, ActionRequest, ActionSensitivity};
use kirino::rbac::dynamic::policy::{
    default_dynamic_policy, DynamicPolicy, PolicyDefect, LARGEST_WEIGHT_SUM_BITS, LEAST_WEIGHT_SUM_BITS,
};
use kirino::rbac::dynamic::verdict::{AutonomyLevel, Strategy};
use kirino::score::Score;

fn score(value: f64) -> Score {
    Score::from_bits(value.to_bits())
}

fn number(score: Score) -> f64 {
    f64::from_bits(score.bits)
}

/// The sum of the weights, in their order.
fn weight_sum(policy: &DynamicPolicy) -> Score {
    score(policy.dimension_weights.iter().map(|w| number(*w)).sum())
}

#[test]
fn test_default_policy_validates() {
    let policy = default_dynamic_policy();
    assert!(policy.validate(weight_sum(&policy)).is_ok());
}

#[test]
fn test_map_to_level_low_risk() {
    let policy = default_dynamic_policy();
    assert_eq!(policy.map_to_level(score(0.05)), AutonomyLevel::L4FullAutonomy);
}

#[test]
fn test_map_to_level_high_risk() {
    let policy = default_dynamic_policy();
    assert_eq!(policy.map_to_level(score(0.9)), AutonomyLevel::L0Frozen);
}

#[test]
fn test_map_to_level_mid() {
    let policy = default_dynamic_policy();
    assert_eq!(policy.map_to_level(score(0.4)), AutonomyLevel::L2SemiAutonomous);
}

#[test]
fn test_map_to_level_boundary() {
    let policy = default_dynamic_policy();
    assert_eq!(policy.map_to_level(score(0.15)), AutonomyLevel::L3Conditional);
}

#[test]
fn test_map_to_level_above_range() {
    let policy = default_dynamic_policy();
    assert_eq!(policy.map_to_level(score(1.5)), AutonomyLevel::L0Frozen);
}

#[test]
fn test_strategy_for() {
    let policy = default_dynamic_policy();
    let s = policy.strategy_for(AutonomyLevel::L4FullAutonomy);
    assert!(matches!(s, Strategy::Allow { auto_approve: true }));

    let s = policy.strategy_for(AutonomyLevel::L0Frozen);
    assert!(matches!(s, Strategy::Block { .. }));
}

#[test]
fn test_invalid_weights() {
    let mut policy = default_dynamic_policy();
    policy.dimension_weights = [score(0.5), score(0.5), score(0.5), score(0.5), score(0.5)];
    assert!(policy.validate(weight_sum(&policy)).is_err());
}

#[test]
fn the_built_in_weights_are_the_documented_ones() {
    let policy = default_dynamic_policy();
    let weights: Vec<f64> = policy.dimension_weights.iter().map(|w| number(*w)).collect();
    assert_eq!(weights, vec![0.10, 0.30, 0.25, 0.25, 0.10]);
    let bands = [
        (AutonomyLevel::L4FullAutonomy, 0.0, 0.15),
        (AutonomyLevel::L3Conditional, 0.15, 0.35),
        (AutonomyLevel::L2SemiAutonomous, 0.35, 0.60),
        (AutonomyLevel::L1Assisted, 0.60, 0.80),
        (AutonomyLevel::L0Frozen, 0.80, 1.01),
    ];
    for (level, low, high) in bands {
        let band = policy.autonomy_thresholds.get(&level).unwrap();
        assert_eq!((number(band.0), number(band.1)), (low, high), "{level:?}");
    }
}

#[test]
fn a_sum_of_weights_is_off_by_less_than_five_hundredths() {
    for sum in [0.95f64, 0.9500000001, 1.0, 1.0499999, 1.05, 0.9499999, 1.0500001] {
        let accepted = (sum - 1.0).abs() <= 0.05;
        let policy = default_dynamic_policy();
        assert_eq!(policy.validate(score(sum)).is_ok(), accepted, "{sum}");
    }
    assert!((f64::from_bits(LEAST_WEIGHT_SUM_BITS) - 1.0).abs() <= 0.05);
    assert!((f64::from_bits(LEAST_WEIGHT_SUM_BITS - 1) - 1.0).abs() > 0.05);
    assert!((f64::from_bits(LARGEST_WEIGHT_SUM_BITS) - 1.0).abs() <= 0.05);
    assert!((f64::from_bits(LARGEST_WEIGHT_SUM_BITS + 1) - 1.0).abs() > 0.05);
}

#[test]
fn each_defect_is_told_apart() {
    let one = score(1.0);
    let mut policy = default_dynamic_policy();
    assert_eq!(policy.validate(score(1.5)), Err(PolicyDefect::WeightSum(score(1.5))));

    policy.dimension_weights[2] = score(-0.1);
    assert_eq!(policy.validate(one), Err(PolicyDefect::Weight(score(-0.1))));
    policy.dimension_weights[2] = score(f64::NAN);
    assert!(matches!(policy.validate(score(f64::NAN)), Err(PolicyDefect::Weight(_))));

    let mut policy = default_dynamic_policy();
    policy.autonomy_thresholds.insert(AutonomyLevel::L3Conditional, (score(0.4), score(0.3)));
    assert!(matches!(policy.validate(one), Err(PolicyDefect::EmptyBand(..))));

    let mut policy = default_dynamic_policy();
    policy.autonomy_thresholds.insert(AutonomyLevel::L0Frozen, (score(0.8), score(2.0)));
    assert!(matches!(policy.validate(one), Err(PolicyDefect::BandRange(..))));

    let mut policy = default_dynamic_policy();
    policy.level_strategies = Table::new();
    assert!(matches!(policy.validate(one), Err(PolicyDefect::NoStrategy(..))));
}

#[test]
fn a_risk_in_no_band_is_frozen() {
    let mut policy = default_dynamic_policy();
    policy.autonomy_thresholds = Table::new();
    assert_eq!(policy.map_to_level(score(0.1)), AutonomyLevel::L0Frozen);
    assert_eq!(default_dynamic_policy().map_to_level(score(f64::NAN)), AutonomyLevel::L0Frozen);
}

#[test]
fn the_level_falls_as_the_risk_grows() {
    let policy = default_dynamic_policy();
    let mut last = AutonomyLevel::L4FullAutonomy;
    for step in 0..=100 {
        let level = policy.map_to_level(score(f64::from(step) / 100.0));
        assert!(level <= last);
        last = level;
    }
}

#[test]
fn levels_and_strategies_have_their_words() {
    assert_eq!(AutonomyLevel::L4FullAutonomy.as_str(), "L4-FullAutonomy");
    assert_eq!(AutonomyLevel::L0Frozen.as_str(), "L0-Frozen");
    assert!(AutonomyLevel::L3Conditional.is_allowing());
    assert!(!AutonomyLevel::L2SemiAutonomous.is_allowing());
    assert!(AutonomyLevel::L2SemiAutonomous.is_operational());
    assert!(!AutonomyLevel::L1Assisted.is_operational());
    let throttle = Strategy::Throttle { max_rate_per_min: 30 };
    assert_eq!(throttle.message(), "Throttle(max=30/min)");
    assert_eq!(throttle.duplicate().message(), throttle.message());
    assert_eq!(Strategy::Allow { auto_approve: false }.message(), "Allow(auto_approve=false)");
    assert_eq!(Strategy::Block { reason: "x".to_string() }.message(), "Block(x)");
}

fn make_domain() -> TaskDomain {
    TaskDomain::new(
        "process-control",
        categories(&[ActionCategory::ReadOnly, ActionCategory::StateWrite]),
        vec!["/tank/".to_string(), "/valve/".to_string()],
        score(0.5),
    )
}

fn categories(items: &[ActionCategory]) -> KeySet<ActionCategory> {
    KeySet::from_items(&items.to_vec())
}

fn monitoring() -> DomainScope {
    let adjacent = TaskDomain::new(
        "monitoring",
        categories(&[ActionCategory::ReadOnly]),
        vec!["/metrics/".to_string()],
        score(0.3),
    );
    DomainScope::with_adjacent(
        TaskDomain::new("core", categories(&[ActionCategory::StateWrite]), vec![], score(0.5)),
        vec![adjacent],
    )
}

#[test]
fn test_domain_resource_allowed() {
    let domain = make_domain();
    assert!(domain.is_resource_allowed("/tank/pressure"));
    assert!(domain.is_resource_allowed("/valve/open"));
    assert!(!domain.is_resource_allowed("/etc/passwd"));
}

#[test]
fn test_domain_empty_prefix_allows_all() {
    let domain = TaskDomain::new("open", categories(&[ActionCategory::ReadOnly]), vec![], score(0.0));
    assert!(domain.is_resource_allowed("/any/path"));
}

#[test]
fn test_domain_scope_in_domain() {
    let scope = DomainScope::single(make_domain());
    let m = scope.evaluate(&ActionCategory::ReadOnly, Some("/tank/pressure"));
    assert!(matches!(m, DomainMatch::InDomain));
}

#[test]
fn test_domain_scope_out_of_domain() {
    let scope = DomainScope::single(make_domain());
    let m = scope.evaluate(&ActionCategory::ProcessExec, Some("/bin/bash"));
    assert!(matches!(m, DomainMatch::OutOfDomain { .. }));
}

#[test]
fn test_domain_scope_adjacent() {
    let m = monitoring().evaluate(&ActionCategory::ReadOnly, None);
    assert!(matches!(m, DomainMatch::Adjacent { .. }));
}

#[test]
fn test_excess_weight() {
    let scope = DomainScope::single(make_domain());
    assert_eq!(
        number(scope.evaluate(&ActionCategory::ReadOnly, Some("/tank/x")).excess_weight()),
        0.0
    );
    assert_eq!(
        number(scope.evaluate(&ActionCategory::ProcessExec, None).excess_weight()),
        0.6
    );
}

#[test]
fn test_adjacent_domain_resource_mismatch() {
    let m = monitoring().evaluate(&ActionCategory::ReadOnly, Some("/etc/passwd"));
    assert!(
        matches!(m, DomainMatch::DomainResourceMismatch { .. }),
        "adjacent category but disallowed resource should be mismatch"
    );
    assert!(number(m.excess_weight()) > f64::from_bits(ADJACENT_DOMAIN_BITS));
}

#[test]
fn test_adjacent_domain_resource_allowed() {
    let m = monitoring().evaluate(&ActionCategory::ReadOnly, Some("/metrics/cpu"));
    assert!(matches!(m, DomainMatch::Adjacent { .. }));
}

#[test]
fn the_costs_of_leaving_a_domain_are_the_documented_ones() {
    assert_eq!(f64::from_bits(DOMAIN_RESOURCE_MISMATCH_BITS), 0.3);
    assert_eq!(f64::from_bits(ADJACENT_DOMAIN_BITS), 0.15);
    assert_eq!(f64::from_bits(ADJACENT_RESOURCE_MISMATCH_BITS), 0.45);
    assert_eq!(f64::from_bits(OUT_OF_DOMAIN_BITS), 0.6);
    let scope = DomainScope::single(make_domain());
    let m = scope.evaluate(&ActionCategory::ReadOnly, Some("/etc/passwd"));
    assert_eq!(number(m.excess_weight()), 0.3);
}

#[test]
fn a_path_that_climbs_out_is_no_longer_inside() {
    let domain = make_domain();
    assert!(!domain.is_resource_allowed("/tank/../etc/passwd"));
    assert!(domain.is_resource_allowed("/etc/../tank/x"));
    assert!(domain.is_resource_allowed("/tank/./x"));
    assert!(!domain.is_resource_allowed("/tanker/x"));
}

#[test]
fn a_trust_floor_is_kept_between_zero_and_one() {
    let floor = |value: f64| {
        number(TaskDomain::new("d", KeySet::new(), vec![], score(value)).trust_floor)
    };
    assert_eq!(floor(0.4), 0.4);
    assert_eq!(floor(-0.5), 0.0);
    assert_eq!(floor(2.0), 1.0);
}

#[test]
fn the_weights_of_delegators_and_categories_are_the_documented_ones() {
    let kinds = [
        (DelegatorType::Human, 0.0),
        (DelegatorType::Agent, 0.05),
        (DelegatorType::SubAgent, 0.15),
        (DelegatorType::ExternalSystem, 0.3),
        (DelegatorType::Scheduler, 0.02),
    ];
    for (kind, weight) in kinds {
        assert_eq!(number(kind.weight()), weight, "{kind:?}");
    }
    let all = [
        (ActionCategory::ReadOnly, 0.1),
        (ActionCategory::StateWrite, 0.3),
        (ActionCategory::FileWrite, 0.5),
        (ActionCategory::NetworkEgress, 0.7),
        (ActionCategory::ProcessExec, 0.8),
        (ActionCategory::ContainerLifecycle, 0.9),
        (ActionCategory::PrivilegedOp, 1.0),
    ];
    for (category, weight) in all {
        assert_eq!(number(category.base_weight()), weight, "{category:?}");
        assert_eq!(number(ActionSensitivity::new("a", category).base_weight), weight);
    }
}

#[test]
fn the_scores_of_behaviour_are_the_documented_ones() {
    assert_eq!(f64::from_bits(COLD_SCORE_BITS), 0.1);
    assert_eq!(f64::from_bits(MODERATE_DEVIATION_BITS), 0.4);
    assert_eq!(f64::from_bits(HIGH_DEVIATION_BITS), 0.7);
    assert_eq!(AnomalyScore::of_deviation(score(0.2)).reason, "normal");
    assert_eq!(AnomalyScore::of_deviation(score(0.5)).reason, "moderate-pattern-deviation");
    assert_eq!(AnomalyScore::of_deviation(score(0.9)).reason, "high-pattern-deviation");
}

#[test]
fn a_request_carries_what_it_is_given() {
    let mut params = Table::new();
    params.insert("path".to_string(), "\"/x\"".to_string());
    let request = ActionRequest::simple_at(
        Delegator::sub_agent("sub", "#b", "parent"),
        "file.write",
        ActionCategory::FileWrite,
        5,
    )
    .with_resource("/x")
    .with_parameters(params);
    assert_eq!(request.resource_path, Some("/x".to_string()));
    assert_eq!(request.timestamp, 5);
    assert_eq!(request.delegator.parent_id, Some("parent".to_string()));
    assert_eq!(request.parameters.len(), 1);
    let agent = Delegator::agent("a", "#b").with_parent("p");
    assert_eq!(agent.parent_id, Some("p".to_string()));
    assert_eq!(Delegator::human("h", "#b").delegator_type, DelegatorType::Human);
}
