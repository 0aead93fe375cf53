//! The arbiter, driven by a host that reads trust, does the arithmetic and writes trust back.
use kirino::collections::{KeySet, Table};
use kirino::error::KirinoError;
use kirino::rbac::dynamic::anomaly::{AnomalyDetector, BehaviorBaseline};
use kirino::rbac::dynamic::arbiter::{
    audit_entry_of, feedback, feedback_base, severity_of, AnomalyReading, Arithmetic, AuthorizationArbiter, Feedback,
    CAPACITY_SCORE_BITS,
};
use kirino::rbac::dynamic::delegator::Delegator;
use kirino::rbac::dynamic::domain::{DomainScope, TaskDomain};
use kirino::rbac::dynamic::metrics::{ActionCategory, ActionRequest};
use kirino::rbac::dynamic::policy::{default_dynamic_policy, DynamicPolicy, PolicyDefect};
use kirino::rbac::dynamic::trust::{InMemoryTrustScoreStore, TrustScore, TrustScoreStore};
use kirino::rbac::dynamic::verdict::{
    ActionOutcome, AuthorizationVerdict, AutonomyLevel, RiskScore, Strategy, SubScores,
};
use kirino::score::Score;
use kirino::time::utc_now;

fn score(value: f64) -> Score {
    Score::from_bits(value.to_bits())
}

fn number(score: Score) -> f64 {
    f64::from_bits(score.bits)
}

fn weighted(trust: &TrustScore) -> f64 {
    number(trust.value) * number(trust.confidence)
}

fn deviation(det: &AnomalyDetector) -> f64 {
    let Some(BehaviorBaseline::Learned { category_counts, total }) = det.baseline() else {
        return 0.0;
    };
    let n = *total as f64;
    let profile = det.category_profile();
    let seen: u64 = (0..profile.len()).map(|i| *profile.value_at(i)).sum();
    let mut sum = 0.0;
    let mut count = 0.0;
    for i in 0..profile.len() {
        let freq = *profile.value_at(i) as f64 / seen as f64;
        let learned = category_counts.get(profile.key_at(i)).map(|c| *c as f64 / n);
        let stdev = learned.map_or(0.1, |p| (p * (1.0 - p) * n / (n - 1.0)).sqrt().max(0.01));
        sum += ((freq - learned.unwrap_or(0.0)) / stdev).abs();
        count += 1.0;
    }
    for i in 0..category_counts.len() {
        if profile.get(category_counts.key_at(i)).is_none()
            && *category_counts.value_at(i) as f64 / n > 0.01
        {
            sum += 2.0;
            count += 1.0;
        }
    }
    if count == 0.0 {
        0.0
    } else {
        (sum / count / 3.0f64).min(1.0)
    }
}

struct Host {
    arbiter: AuthorizationArbiter,
    store: InMemoryTrustScoreStore,
}

fn trust_penalty(trust: TrustScore, floor: Option<Score>) -> Score {
    let trust = weighted(&trust);
    let penalty = (1.0 - trust).clamp(0.0, 1.0);
    match floor.map(number) {
        Some(floor) if trust < floor => score((penalty + (floor - trust).clamp(0.0, 1.0)).min(1.0)),
        _ => score(penalty),
    }
}

fn total(sub: SubScores, weights: [Score; 5]) -> Score {
    let w = weights.map(number);
    let raw = number(sub.delegator_weight) * w[0]
        + number(sub.trust_penalty) * w[1]
        + number(sub.sensitivity) * w[2]
        + number(sub.domain_mismatch) * w[3]
        + number(sub.anomaly) * w[4];
    score(raw.clamp(0.0, 1.0))
}

fn arithmetic() -> Arithmetic<
    impl Fn(&AnomalyDetector) -> Score,
    impl Fn(TrustScore, Option<Score>) -> Score,
    impl Fn(SubScores, [Score; 5]) -> Score,
    impl Fn(Score) -> String,
> {
    Arithmetic {
        deviation: |det: &AnomalyDetector| score(deviation(det)),
        trust_penalty,
        total,
        shown: |s: Score| format!("{:.3}", number(s)),
    }
}

fn learn(trust: TrustScore, said: Feedback) -> TrustScore {
    let value = match said {
        Feedback::Compliant(s) => (number(trust.value) + 0.01 * number(s)).min(1.0),
        Feedback::Violation(s) => {
            let severity = number(s);
            let penalty = 0.1 * severity + 0.2 * (severity - 0.8).max(0.0);
            (number(trust.value) - penalty).max(0.0)
        }
    };
    let n = (trust.evidence_count + 1) as f64;
    let confidence = (1.0 - 1.0 / (1.0 + n / 100.0)).min(0.99);
    trust.recorded(score(value), score(confidence), utc_now())
}

impl Host {
    fn risk_score(&mut self, request: &ActionRequest) -> RiskScore {
        self.arbiter.risk_score(&self.store, request, &arithmetic(), utc_now())
    }

    fn authorize(&mut self, request: &ActionRequest) -> AuthorizationVerdict {
        self.arbiter.authorize(&self.store, request, &arithmetic(), utc_now())
    }

    fn feedback(&mut self, request: &ActionRequest, outcome: ActionOutcome) {
        feedback(&mut self.store, request, &outcome, learn, utc_now()).unwrap();
    }

    fn lockdown(&mut self, id: &str) {
        let record = self.arbiter.lockdown(&id.to_string(), utc_now());
        self.store.set(id.to_string(), record).unwrap();
    }

    fn restore(&mut self, id: &str, target: AutonomyLevel) {
        let record = self.arbiter.restore(&id.to_string(), target, utc_now());
        self.store.set(id.to_string(), record).unwrap();
    }

    fn trust(&mut self, id: &str, value: f64, confidence: f64, evidence_count: u64) {
        let mut trust = TrustScore::new(score(value));
        trust.confidence = score(confidence);
        trust.evidence_count = evidence_count;
        self.store.set(id.to_string(), trust).unwrap();
    }
}

fn make_arbiter() -> Host {
    Host {
        arbiter: AuthorizationArbiter::new(default_dynamic_policy()),
        store: InMemoryTrustScoreStore::new(),
    }
}

fn human_request(category: ActionCategory) -> ActionRequest {
    ActionRequest::simple(Delegator::human("user-1", "#test"), "test.action", category)
}

fn agent_request(category: ActionCategory) -> ActionRequest {
    ActionRequest::simple(Delegator::agent("agent-1", "#test"), "test.action", category)
}

#[test]
fn test_human_read_low_risk() {
    let mut host = make_arbiter();
    host.trust("user-1", 0.95, 0.9, 500);

    let verdict = host.authorize(&human_request(ActionCategory::ReadOnly));
    assert!(verdict.allowed);
    assert!(number(verdict.risk_score) < 0.15);
}

#[test]
fn test_agent_privileged_high_risk() {
    let mut host = make_arbiter();
    let verdict = host.authorize(&agent_request(ActionCategory::PrivilegedOp));
    assert!(!verdict.allowed);
}

#[test]
fn test_risk_score_dimensions() {
    let mut host = make_arbiter();
    let risk = host.risk_score(&agent_request(ActionCategory::FileWrite));

    assert!((number(risk.sub_scores.delegator_weight) - 0.05).abs() < 1e-10);

    assert!(number(risk.sub_scores.trust_penalty) > 0.0);
    assert!((number(risk.sub_scores.sensitivity) - 0.5).abs() < 1e-10);
    assert!(number(risk.sub_scores.domain_mismatch).abs() < 1e-10);
}

#[test]
fn test_feedback_increases_trust() {
    let mut host = make_arbiter();
    let req = agent_request(ActionCategory::ReadOnly);

    for _ in 0..5 {
        host.feedback(&req, ActionOutcome::Success);
    }

    let risk_before = number(host.risk_score(&req).value);
    for _ in 0..50 {
        host.feedback(&req, ActionOutcome::Success);
    }
    let risk_after = number(host.risk_score(&req).value);

    assert!(risk_after < risk_before);
}

#[test]
fn test_feedback_violation_decreases_trust() {
    let mut host = make_arbiter();
    host.trust("agent-1", 0.9, 0.8, 0);

    let req = agent_request(ActionCategory::ReadOnly);
    let risk_before = number(host.risk_score(&req).value);

    host.feedback(&req, ActionOutcome::PolicyViolation { rule: "path-blacklist".to_string() });

    let risk_after = number(host.risk_score(&req).value);
    assert!(risk_after > risk_before);
}

#[test]
fn test_lockdown_freezes_agent() {
    let mut host = make_arbiter();
    host.trust("agent-1", 0.95, 0.9, 0);

    let req = agent_request(ActionCategory::ReadOnly);
    let v1 = host.authorize(&req);
    assert!(v1.allowed);

    host.lockdown("agent-1");

    let v2 = host.authorize(&req);
    assert!(!v2.allowed);
    assert_eq!(v2.autonomy_level, AutonomyLevel::L0Frozen);
}

#[test]
fn test_restore_revives_agent() {
    let mut host = make_arbiter();
    host.lockdown("agent-1");

    let req = agent_request(ActionCategory::ReadOnly);
    let v1 = host.authorize(&req);
    assert!(!v1.allowed);

    host.restore("agent-1", AutonomyLevel::L4FullAutonomy);

    let v2 = host.authorize(&req);
    assert!(v2.allowed);
}

fn restricted() -> DomainScope {
    DomainScope::single(TaskDomain::new(
        "restricted",
        KeySet::from_items(&vec![ActionCategory::ReadOnly]),
        vec!["/data/".to_string()],
        score(0.5),
    ))
}

#[test]
fn test_domain_scope_restriction() {
    let mut host = make_arbiter();
    host.arbiter.set_domain_scope(restricted());

    let mut req = agent_request(ActionCategory::ProcessExec);
    req.resource_path = Some("/bin/bash".to_string());
    let verdict = host.authorize(&req);
    assert!(!verdict.allowed);
    assert!(number(verdict.sub_scores.domain_mismatch) > 0.0);
}

#[test]
fn test_evidence_populated() {
    let mut host = make_arbiter();
    let verdict = host.authorize(&human_request(ActionCategory::ReadOnly));
    assert!(!verdict.evidence.is_empty());
    assert!(verdict.evidence[0].contains("risk="));
}

#[test]
fn test_audit_no_panic() {
    let mut host = make_arbiter();
    let verdict = host.authorize(&human_request(ActionCategory::ReadOnly));
    assert!(!verdict.evidence.is_empty(), "evidence should be populated after authorize");
    assert!(verdict.evidence[0].contains("risk="), "evidence should contain risk info");
    assert!(verdict.timestamp > 0, "timestamp should be set");
}

fn strict_policy() -> DynamicPolicy {
    let mut policy = default_dynamic_policy();
    policy.autonomy_thresholds = Table::new();
    policy.autonomy_thresholds.insert(AutonomyLevel::L0Frozen, (score(0.0), score(1.01)));
    policy.level_strategies = Table::new();
    policy
        .level_strategies
        .insert(AutonomyLevel::L0Frozen, Strategy::Block { reason: "lockdown".to_string() });
    policy
}

#[test]
fn test_dynamic_policy_update() {
    let mut host = make_arbiter();
    let req = human_request(ActionCategory::ReadOnly);

    let v1 = host.authorize(&req);
    assert!(v1.allowed);

    host.arbiter.set_policy(strict_policy(), score(1.0)).unwrap();

    let v2 = host.authorize(&req);
    assert!(!v2.allowed);
}

#[test]
fn a_refused_policy_leaves_the_old_one_in_force() {
    let mut host = make_arbiter();
    let refused = host.arbiter.set_policy(strict_policy(), score(3.0));
    assert!(matches!(refused, Err(PolicyDefect::WeightSum(_))));
    assert!(host.authorize(&human_request(ActionCategory::ReadOnly)).allowed);
}

#[test]
fn smoke_full_authorize_feedback_loop() {
    let mut host = make_arbiter();
    host.trust("agent-1", 0.5, 0.5, 10);

    let req = ActionRequest::simple(
        Delegator::agent("agent-1", "#smoke"),
        "file.write",
        ActionCategory::FileWrite,
    );

    for cycle in 0..20 {
        let verdict = host.authorize(&req);

        if verdict.allowed {
            host.feedback(&req, ActionOutcome::Success);
        } else {
            host.feedback(
                &req,
                ActionOutcome::Failure { error: format!("denied at cycle {}", cycle) },
            );
        }
    }

    let final_trust = host.store.get(&"agent-1".to_string()).unwrap().unwrap();
    assert!(final_trust.evidence_count >= 30);
}

#[test]
fn smoke_status_summary_returns_valid_json() {
    let mut host = make_arbiter();
    host.trust("agent-1", 0.7, 0.6, 50);

    let id = "agent-1".to_string();
    let summary = host.arbiter.status(&id, &host.store.get(&id), utc_now());
    assert!(!summary.frozen);
    assert!(summary.trust_store_ok);
    assert!(number(summary.trust.value) > 0.0);
    assert!(!summary.anomaly_baseline_ready);

    host.lockdown("agent-1");
    let frozen_summary = host.arbiter.status(&id, &host.store.get(&id), utc_now());
    assert!(frozen_summary.frozen);
}

#[test]
fn smoke_lockdown_restore_full_cycle() {
    let mut host = make_arbiter();
    host.trust("agent-1", 0.9, 0.9, 100);

    let req = ActionRequest::simple(
        Delegator::agent("agent-1", "#cycle"),
        "file.read",
        ActionCategory::ReadOnly,
    );

    let v_before = host.authorize(&req);
    assert!(v_before.allowed);

    host.lockdown("agent-1");

    let v_locked = host.authorize(&req);
    assert!(!v_locked.allowed);
    assert_eq!(v_locked.autonomy_level, AutonomyLevel::L0Frozen);

    host.restore("agent-1", AutonomyLevel::L4FullAutonomy);

    let v_restored = host.authorize(&req);
    assert!(v_restored.allowed, "after restore to L4, read-only should be allowed");
    assert_ne!(v_restored.autonomy_level, AutonomyLevel::L0Frozen);
}

#[test]
fn smoke_violation_cliff_drop() {
    let mut host = make_arbiter();
    host.trust("agent-1", 0.95, 0.9, 200);

    let req = ActionRequest::simple(
        Delegator::agent("agent-1", "#cliff"),
        "process.exec",
        ActionCategory::ProcessExec,
    );

    let risk_before = number(host.risk_score(&req).value);

    host.feedback(&req, ActionOutcome::PolicyViolation { rule: "exec-blacklist".to_string() });

    let trust_after = host.store.get(&"agent-1".to_string()).unwrap().unwrap();
    assert!(number(trust_after.value) < 0.95);

    let risk_after = number(host.risk_score(&req).value);
    assert!(risk_after > risk_before);
}

#[test]
fn smoke_unknown_delegator_defaults_to_moderate_risk() {
    let mut host = make_arbiter();
    let req = ActionRequest::simple(
        Delegator::agent("unknown-agent", "#test"),
        "file.read",
        ActionCategory::ReadOnly,
    );

    let verdict = host.authorize(&req);
    assert!(verdict.allowed, "read-only from unknown agent should pass default policy");
    assert!(number(verdict.risk_score) > 0.0, "should have some risk even for reads");
}

#[test]
fn smoke_multiple_agents_independent_trust() {
    let mut host = make_arbiter();
    host.trust("agent-a", 0.9, 0.8, 100);
    host.trust("agent-b", 0.2, 0.5, 5);

    let req_a = ActionRequest::simple(
        Delegator::agent("agent-a", "#multi"),
        "file.write",
        ActionCategory::FileWrite,
    );
    let req_b = ActionRequest::simple(
        Delegator::agent("agent-b", "#multi"),
        "file.write",
        ActionCategory::FileWrite,
    );

    let v_a = host.authorize(&req_a);
    let v_b = host.authorize(&req_b);

    assert!(number(v_a.risk_score) < number(v_b.risk_score));
}

#[test]
fn the_words_of_a_decision_are_fixed() {
    let mut host = make_arbiter();
    let verdict = host.authorize(&agent_request(ActionCategory::ReadOnly));
    // 0.05 * 0.1 + 1.0 * 0.3 + 0.1 * 0.25 + 0.0 * 0.25 + 0.1 * 0.1
    assert_eq!(verdict.evidence[0], "risk=0.340 level=L3-Conditional delegator_type=Agent");
    assert_eq!(
        verdict.evidence[1],
        "sub: delegator_w=0.050 trust_p=1.000 sens=0.100 domain=0.000 anomaly=0.100"
    );
    host.lockdown("agent-1");
    let refused = host.authorize(&agent_request(ActionCategory::ReadOnly));
    assert_eq!(refused.evidence, vec!["delegator 'agent-1' is frozen (lockdown active)"]);
    assert!(matches!(refused.mitigation, Some(Strategy::Block { .. })));
    assert_eq!(number(refused.risk_score), 1.0);
}

#[test]
fn trust_that_cannot_be_read_counts_for_nothing() {
    let mut host = make_arbiter();
    let req = agent_request(ActionCategory::ReadOnly);
    let failed = Err(KirinoError::Store("down".to_string()));
    let inputs = host.arbiter.weigh(&req, &failed, 5);
    assert_eq!(number(inputs.trust.value), 0.0);
    assert_eq!(number(inputs.trust.confidence), 1.0);
    let inputs = host.arbiter.weigh(&req, &Ok(None), 5);
    assert_eq!(weighted(&inputs.trust), 0.0);
    assert_eq!(weighted(&feedback_base(&failed, 5)), 0.0);
}

#[test]
fn a_domain_brings_its_floor_and_its_cost() {
    let mut host = make_arbiter();
    let inputs = host.arbiter.weigh(&agent_request(ActionCategory::FileWrite), &Ok(None), 0);
    assert_eq!(inputs.trust_floor, None);
    assert_eq!(number(inputs.domain_mismatch), 0.0);
    host.arbiter.set_domain_scope(restricted());
    let inputs = host.arbiter.weigh(&agent_request(ActionCategory::FileWrite), &Ok(None), 0);
    assert_eq!(inputs.trust_floor, Some(score(0.5)));
    assert_eq!(number(inputs.domain_mismatch), 0.6);
}

#[test]
fn without_room_behaviour_gets_a_fixed_score() {
    let mut arbiter = AuthorizationArbiter::new(default_dynamic_policy()).with_max_detectors(1);
    let first = arbiter.weigh(&agent_request(ActionCategory::ReadOnly), &Ok(None), 0);
    assert_eq!(first.anomaly, AnomalyReading::Fixed(score(0.1)));
    let second = arbiter.weigh(&human_request(ActionCategory::ReadOnly), &Ok(None), 0);
    assert_eq!(second.anomaly, AnomalyReading::Fixed(Score::from_bits(CAPACITY_SCORE_BITS)));
    assert_eq!(f64::from_bits(CAPACITY_SCORE_BITS), 0.15);
    assert!(arbiter.detector(&"user-1".to_string()).is_none());
    assert_eq!(arbiter.detector(&"agent-1".to_string()).unwrap().total_observed(), 1);
}

#[test]
fn behaviour_is_compared_once_enough_was_seen() {
    let mut host = make_arbiter();
    let req = agent_request(ActionCategory::ReadOnly);
    for _ in 0..99 {
        assert!(matches!(
            host.arbiter.weigh(&req, &Ok(None), 0).anomaly,
            AnomalyReading::Fixed(_)
        ));
    }
    let _ = host.arbiter.weigh(&req, &Ok(None), 0);
    assert_eq!(host.arbiter.weigh(&req, &Ok(None), 0).anomaly, AnomalyReading::Deviation);
    assert_eq!(number(host.risk_score(&req).sub_scores.anomaly), 0.0);
    host.restore("agent-1", AutonomyLevel::L3Conditional);
    assert!(host.arbiter.detector(&"agent-1".to_string()).is_none());
}

#[test]
fn outcomes_weigh_as_documented() {
    let sizes = [
        (ActionOutcome::Success, Feedback::Compliant(score(0.5))),
        (ActionOutcome::Failure { error: "e".to_string() }, Feedback::Violation(score(0.2))),
        (ActionOutcome::PolicyViolation { rule: "r".to_string() }, Feedback::Violation(score(0.8))),
        (ActionOutcome::Anomalous { deviation: score(0.33) }, Feedback::Violation(score(0.33))),
    ];
    for (outcome, expected) in sizes {
        assert_eq!(severity_of(&outcome), expected);
    }
}

#[test]
fn records_of_lockdown_and_restoration_are_as_documented() {
    let mut host = make_arbiter();
    let locked = host.arbiter.lockdown(&"a".to_string(), 3);
    assert_eq!((number(locked.value), number(locked.confidence)), (0.0, 1.0));
    assert_eq!((locked.evidence_count, locked.last_updated), (999, 3));
    let levels = [
        (AutonomyLevel::L4FullAutonomy, 0.95),
        (AutonomyLevel::L3Conditional, 0.8),
        (AutonomyLevel::L2SemiAutonomous, 0.6),
        (AutonomyLevel::L1Assisted, 0.4),
        (AutonomyLevel::L0Frozen, 0.1),
    ];
    for (level, value) in levels {
        let record = host.arbiter.restore(&"a".to_string(), level, 4);
        assert_eq!((number(record.value), number(record.confidence)), (value, 0.8), "{level:?}");
        assert_eq!(record.evidence_count, 10);
    }
}

#[test]
fn the_audit_entry_tells_the_decision() {
    let mut host = make_arbiter();
    let req = agent_request(ActionCategory::PrivilegedOp);
    let verdict = host.authorize(&req);
    let trust = score(1.0 - number(verdict.sub_scores.trust_penalty));
    let text = format!("{:.3}", number(verdict.risk_score));
    let entry = audit_entry_of(&verdict, &req, &text, trust);
    assert_eq!(entry.subject_id, "agent-1");
    assert_eq!(entry.permission, "test.action");
    assert_eq!(entry.endpoint, format!("dynamic:{}:risk={text}", verdict.autonomy_level.as_str()));
    assert!(!entry.granted);
    let recorded = entry.verdict.unwrap();
    assert_eq!(recorded.risk_score, verdict.risk_score);
    assert_eq!(recorded.evidence, verdict.evidence);
    assert_eq!(recorded.mitigation, verdict.mitigation.map(|m| m.message()));
}

#[test]
fn a_risk_is_the_weighted_sum_of_its_dimensions() {
    let mut host = make_arbiter();
    host.trust("agent-1", 0.8, 0.5, 10);
    let risk = host.risk_score(&agent_request(ActionCategory::FileWrite));
    assert_eq!(number(risk.sub_scores.trust_penalty), 0.6);
    assert_eq!(number(risk.sub_scores.anomaly), 0.1);
    let expected = 0.05 * 0.10 + 0.6 * 0.30 + 0.5 * 0.25 + 0.0 * 0.25 + 0.1 * 0.10;
    assert_eq!(number(risk.value), expected);
    let verdict = host.authorize(&agent_request(ActionCategory::FileWrite));
    assert_eq!(verdict.risk_score, risk.value);
    assert_eq!(verdict.autonomy_level, AutonomyLevel::L3Conditional);
    assert_eq!(verdict.evidence[0], "risk=0.320 level=L3-Conditional delegator_type=Agent");
}

#[test]
fn a_refusal_in_lockdown_observes_nothing() {
    let mut host = make_arbiter();
    host.lockdown("agent-1");
    let verdict = host.authorize(&agent_request(ActionCategory::ReadOnly));
    assert!(!verdict.allowed);
    assert!(host.arbiter.detector(&"agent-1".to_string()).is_none());
    host.restore("agent-1", AutonomyLevel::L4FullAutonomy);
    let _ = host.authorize(&agent_request(ActionCategory::ReadOnly));
    assert_eq!(host.arbiter.detector(&"agent-1".to_string()).unwrap().total_observed(), 1);
}

/// A store that is down.
struct Down;

impl TrustScoreStore for Down {
    fn get(&self, _delegator_id: &String) -> Result<Option<TrustScore>, KirinoError> {
        Err(KirinoError::Store("down".to_string()))
    }

    fn set(&mut self, _delegator_id: String, _score: TrustScore) -> Result<(), KirinoError> {
        Err(KirinoError::Store("down".to_string()))
    }

    fn delete(&mut self, _delegator_id: &String) -> Result<(), KirinoError> {
        Err(KirinoError::Store("down".to_string()))
    }

    fn sweep_stale(&mut self, _max_age: u128) -> Result<Vec<String>, KirinoError> {
        Err(KirinoError::Store("down".to_string()))
    }

    fn list_ids(&self) -> Result<Vec<String>, KirinoError> {
        Err(KirinoError::Store("down".to_string()))
    }
}

#[test]
fn a_store_that_is_down_only_raises_the_risk() {
    let mut arbiter = AuthorizationArbiter::new(default_dynamic_policy());
    let risk = arbiter.risk_score(&Down, &human_request(ActionCategory::ReadOnly), &arithmetic(), utc_now());
    assert_eq!(number(risk.sub_scores.trust_penalty), 1.0);
    let told = feedback(
        &mut Down,
        &human_request(ActionCategory::ReadOnly),
        &ActionOutcome::Success,
        learn,
        utc_now(),
    );
    assert!(matches!(told, Err(KirinoError::Store(why)) if why == "down"));
}
