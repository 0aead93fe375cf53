//! Audit entries, their sink, the rules over them and the analysis of them.
use kirino::collections::Table;
use kirino::rbac::audit::analyzer::DefaultAuditAnalyzer;
use kirino::rbac::audit::entry::{
    AuditAction, AuditCondition, AuditEntry, AuditSeverity, AuditSubScores, AuditVerdict, LogicalOp,
    HIGH_RISK_BITS,
};
use kirino::rbac::audit::logger::AuditLogger;
use kirino::rbac::audit::policy::{AuditAlert, AuditRule, InMemoryAuditPolicyEngine};
use kirino::rbac::audit::sink::{AuditFilter, AuditSink, InMemoryAuditSink};
use kirino::score::Score;
use kirino::time::utc_now;
use std::sync::atomic::{AtomicUsize, Ordering};

const SECOND: i128 = 1_000_000_000;

fn score(value: f64) -> Score {
    Score::from_bits(value.to_bits())
}

fn number(score: Score) -> f64 {
    f64::from_bits(score.bits)
}

fn entry_at(subject: &str, permission: &str, granted: bool, risk: f64, created_at: i128) -> AuditEntry {
    let trust_penalty = 1.0 - risk;
    AuditEntry {
        id: 0,
        subject_id: subject.to_string(),
        subject_type: "user".to_string(),
        permission: permission.to_string(),
        endpoint: "/api/test".to_string(),
        granted,
        created_at,
        verdict: Some(AuditVerdict {
            autonomy_level: if granted { "L4" } else { "L0" }.to_string(),
            risk_score: score(risk),
            sub_scores: AuditSubScores {
                delegator_weight: score(0.0),
                trust_penalty: score(trust_penalty),
                trust: score(1.0 - trust_penalty),
                sensitivity: score(0.5),
                domain_mismatch: score(0.0),
                anomaly: score(0.0),
            },
            evidence: vec![],
            mitigation: None,
        }),
    }
}

fn make_entry(subject: &str, permission: &str, granted: bool, risk: f64) -> AuditEntry {
    entry_at(subject, permission, granted, risk, utc_now())
}

fn alert(message: &str, severity: AuditSeverity) -> AuditAction {
    AuditAction::Alert { message: message.to_string(), severity }
}

fn rule(id: &str, condition: AuditCondition, cooldown_secs: u64) -> AuditRule {
    AuditRule {
        id: id.to_string(),
        name: "deny".to_string(),
        enabled: true,
        condition,
        action: alert("denied", AuditSeverity::Warning),
        cooldown_secs,
    }
}

fn no_history() -> InMemoryAuditSink {
    InMemoryAuditSink::new()
}

#[test]
fn test_sink_append_and_query() {
    let mut sink = InMemoryAuditSink::new();
    sink.append(make_entry("user1", "read", true, 0.1));
    sink.append(make_entry("user2", "write", false, 0.8));
    sink.append(make_entry("user1", "delete", false, 0.9));

    let all = sink.query(&AuditFilter::default());
    assert_eq!(all.len(), 3);

    let user1 = sink.query(&AuditFilter {
        subject_id: Some("user1".to_string()),
        ..Default::default()
    });
    assert_eq!(user1.len(), 2);

    let denied = sink.query(&AuditFilter { granted: Some(false), ..Default::default() });
    assert_eq!(denied.len(), 2);

    let high = sink.query(&AuditFilter { min_risk: Some(score(0.7)), ..Default::default() });
    assert_eq!(high.len(), 2);
}

#[test]
fn test_sink_count() {
    let mut sink = InMemoryAuditSink::new();
    sink.append(make_entry("u1", "read", true, 0.1));
    sink.append(make_entry("u2", "write", false, 0.8));

    let count = sink.count(&AuditFilter { granted: Some(false), ..Default::default() });
    assert_eq!(count, 1);
}

#[test]
fn test_filter_limit() {
    let mut sink = InMemoryAuditSink::new();
    for i in 0..10 {
        sink.append(make_entry(&format!("u{}", i), "read", true, 0.1));
    }
    let result = sink.query(&AuditFilter { limit: Some(3), ..Default::default() });
    assert_eq!(result.len(), 3);
}

#[test]
fn test_sink_max_entries_eviction() {
    let mut sink = InMemoryAuditSink::with_max_entries(5);
    for i in 0..10 {
        sink.append(make_entry(&format!("u{}", i), "read", true, 0.1));
    }
    let all = sink.query(&AuditFilter::default());
    assert_eq!(all.len(), 5);
    let mut subjects: Vec<String> = all.iter().map(|e| e.subject_id.clone()).collect();
    subjects.sort();
    assert_eq!(subjects, vec!["u5", "u6", "u7", "u8", "u9"]);
}

#[test]
fn test_policy_engine_rules() {
    let mut engine = InMemoryAuditPolicyEngine::new();
    engine.add_rule(rule("r1", AuditCondition::Denied, 0));

    let rules = engine.list_rules();
    assert_eq!(rules.len(), 1);

    let alerts = engine.evaluate(&make_entry("u1", "read", true, 0.1), &no_history());
    assert!(alerts.is_empty());

    let alerts = engine.evaluate(&make_entry("u1", "write", false, 0.8), &no_history());
    assert_eq!(alerts.len(), 1);
    assert_eq!(alerts[0].rule_id, "r1");
}

#[test]
fn test_policy_engine_cooldown() {
    let mut engine = InMemoryAuditPolicyEngine::new();
    engine.add_rule(rule("r1", AuditCondition::Denied, 3600));

    let a1 = engine.evaluate(&make_entry("u1", "write", false, 0.8), &no_history());
    assert_eq!(a1.len(), 1);

    let a2 = engine.evaluate(&make_entry("u1", "write", false, 0.9), &no_history());
    assert!(a2.is_empty());
}

#[test]
fn test_policy_engine_composite() {
    let mut engine = InMemoryAuditPolicyEngine::new();
    engine.add_rule(AuditRule {
        id: "r1".to_string(),
        name: "high-risk-denial".to_string(),
        enabled: true,
        condition: AuditCondition::Composite {
            conditions: vec![
                AuditCondition::Denied,
                AuditCondition::HighRisk { threshold: score(0.7) },
            ],
            operator: LogicalOp::All,
        },
        action: alert("critical", AuditSeverity::Critical),
        cooldown_secs: 0,
    });

    let alerts = engine.evaluate(&make_entry("u1", "read", true, 0.1), &no_history());
    assert!(alerts.is_empty());

    let alerts = engine.evaluate(&make_entry("u1", "write", false, 0.5), &no_history());
    assert!(alerts.is_empty());

    let alerts = engine.evaluate(&make_entry("u1", "write", false, 0.9), &no_history());
    assert_eq!(alerts.len(), 1);
}

#[test]
fn test_analyzer() {
    let analyzer = DefaultAuditAnalyzer::new();
    let entries = vec![
        make_entry("u1", "read", true, 0.1),
        make_entry("u1", "write", false, 0.8),
        make_entry("u2", "read", true, 0.2),
        make_entry("u2", "delete", false, 0.9),
        make_entry("u2", "write", false, 0.7),
    ];

    let result = analyzer.analyze(&entries);
    assert_eq!(result.total_entries, 5);
    assert_eq!(result.denied_count, 3);
    let denied_rate = result.denied_count as f64 / result.total_entries as f64;
    assert!((denied_rate - 0.6).abs() < 1e-10);
    assert_eq!(result.high_risk_count, 3);

    let u1 = result.by_subject.get(&"u1".to_string()).unwrap();
    assert_eq!(u1.total, 2);
    assert_eq!(u1.denied, 1);

    let u2 = result.by_subject.get(&"u2".to_string()).unwrap();
    assert_eq!(u2.total, 3);
    assert_eq!(u2.denied, 2);
    assert!((number(u2.max_risk) - 0.9).abs() < 1e-10);

    assert_eq!(result.top_risk_entries.len(), 5);
    let top_risk = number(result.top_risk_entries[0].verdict.as_ref().unwrap().risk_score);
    assert!((top_risk - 0.9).abs() < 1e-10);
}

#[test]
fn test_audit_logger_full_pipeline() {
    let mut logger = AuditLogger::new(InMemoryAuditSink::new())
        .with_policy_engine(InMemoryAuditPolicyEngine::new())
        .with_analyzer(DefaultAuditAnalyzer::new());

    let _ = logger.log(make_entry("u1", "read", true, 0.1));
    let _ = logger.log(make_entry("u1", "write", false, 0.8));
    let _ = logger.log(make_entry("u2", "delete", false, 0.9));

    let all = logger.query(&AuditFilter::default());
    assert_eq!(all.len(), 3);

    let result = logger.analyze_recent(&AuditFilter::default()).unwrap();
    assert_eq!(result.total_entries, 3);
    assert_eq!(result.denied_count, 2);
}

#[test]
fn test_audit_logger_with_alert_hook() {
    let counter = AtomicUsize::new(0);
    let hook = |_alert: &AuditAlert| {
        counter.fetch_add(1, Ordering::SeqCst);
    };

    let mut engine = InMemoryAuditPolicyEngine::new();
    engine.add_rule(rule("r1", AuditCondition::Denied, 0));

    let mut logger = AuditLogger::new(InMemoryAuditSink::new()).with_policy_engine(engine);

    logger.log(make_entry("u1", "read", true, 0.1)).iter().for_each(&hook);
    logger.log(make_entry("u1", "write", false, 0.8)).iter().for_each(&hook);

    assert_eq!(counter.load(Ordering::SeqCst), 1);
}

#[test]
fn a_logger_without_summaries_makes_none() {
    let mut logger = AuditLogger::new(InMemoryAuditSink::new());
    assert!(logger.log(make_entry("u1", "write", false, 0.8)).is_empty(), "no rules were given");
    assert_eq!(logger.count(&AuditFilter::default()), 1);
    assert!(logger.analyze_recent(&AuditFilter::default()).is_none());
}

#[test]
fn test_remove_rule() {
    let mut engine = InMemoryAuditPolicyEngine::new();
    engine.add_rule(rule("r1", AuditCondition::Denied, 0));

    assert_eq!(engine.list_rules().len(), 1);
    assert!(engine.remove_rule("r1").unwrap());
    assert!(engine.list_rules().is_empty());
    assert!(!engine.remove_rule("r1").unwrap());
}

#[test]
fn test_trust_below_condition() {
    let cond = AuditCondition::TrustBelow { threshold: score(0.5) };
    let entry_low_trust = make_entry("u1", "read", true, 0.1);
    assert!(cond.evaluate(&entry_low_trust));

    let entry_high_trust = make_entry("u1", "read", true, 0.9);
    assert!(!cond.evaluate(&entry_high_trust));
}

fn rapid(min_count: u32) -> AuditRule {
    AuditRule {
        id: "rapid".to_string(),
        name: "rapid-denials".to_string(),
        enabled: true,
        condition: AuditCondition::RapidDenials { window_secs: 60, min_count },
        action: alert("rapid denials detected", AuditSeverity::Critical),
        cooldown_secs: 0,
    }
}

#[test]
fn test_rapid_denials_with_sink() {
    let mut sink = InMemoryAuditSink::new();
    let mut engine = InMemoryAuditPolicyEngine::with_sink();
    engine.add_rule(rapid(3));

    let denied_entry = make_entry("u1", "write", false, 0.8);

    sink.append(make_entry("u1", "write", false, 0.8));
    sink.append(make_entry("u1", "write", false, 0.7));
    let alerts = engine.evaluate(&denied_entry, &sink);
    assert!(alerts.is_empty());

    sink.append(make_entry("u1", "write", false, 0.9));
    let alerts = engine.evaluate(&denied_entry, &sink);
    assert_eq!(alerts.len(), 1);
    assert_eq!(alerts[0].rule_id, "rapid");
}

#[test]
fn test_rapid_denials_without_sink() {
    let mut engine = InMemoryAuditPolicyEngine::new();
    engine.add_rule(rapid(1));

    let mut sink = InMemoryAuditSink::new();
    sink.append(make_entry("u1", "write", false, 0.8));
    let entry = make_entry("u1", "write", false, 0.8);
    let alerts = engine.evaluate(&entry, &sink);
    assert!(alerts.is_empty());
}

#[test]
fn test_category_sensitive_condition() {
    let cond = AuditCondition::CategorySensitive { min_weight: score(0.4) };
    let entry = make_entry("u1", "write", true, 0.3);
    assert!(cond.evaluate(&entry));

    let entry_low = {
        let mut e = make_entry("u1", "write", true, 0.3);
        if let Some(ref mut v) = e.verdict {
            v.sub_scores.sensitivity = score(0.1);
        }
        e
    };
    assert!(!cond.evaluate(&entry_low));
}

#[test]
fn test_domain_mismatch_condition() {
    let cond = AuditCondition::DomainMismatch { min_weight: score(0.3) };
    let entry = {
        let mut e = make_entry("u1", "write", true, 0.3);
        if let Some(ref mut v) = e.verdict {
            v.sub_scores.domain_mismatch = score(0.5);
        }
        e
    };
    assert!(cond.evaluate(&entry));

    let entry_low = make_entry("u1", "write", true, 0.3);
    assert!(!cond.evaluate(&entry_low));
}

#[test]
fn test_composite_any_operator() {
    let cond = AuditCondition::Composite {
        conditions: vec![
            AuditCondition::Denied,
            AuditCondition::HighRisk { threshold: score(0.9) },
        ],
        operator: LogicalOp::Any,
    };

    let denied_entry = make_entry("u1", "write", false, 0.1);
    assert!(cond.evaluate(&denied_entry));

    let high_risk_entry = make_entry("u1", "write", true, 0.95);
    assert!(cond.evaluate(&high_risk_entry));

    let normal_entry = make_entry("u1", "write", true, 0.1);
    assert!(!cond.evaluate(&normal_entry));
}

#[test]
fn test_disabled_rule_not_evaluated() {
    let mut engine = InMemoryAuditPolicyEngine::new();
    engine.add_rule(AuditRule {
        id: "disabled-rule".to_string(),
        name: "should-not-fire".to_string(),
        enabled: false,
        condition: AuditCondition::Denied,
        action: alert("should not fire", AuditSeverity::Warning),
        cooldown_secs: 0,
    });

    let entry = make_entry("u1", "write", false, 0.5);
    let alerts = engine.evaluate(&entry, &no_history());
    assert!(alerts.is_empty());
}

fn unscored() -> AuditEntry {
    AuditEntry {
        id: 1,
        subject_id: "u1".to_string(),
        subject_type: "user".to_string(),
        permission: "read".to_string(),
        endpoint: "/test".to_string(),
        granted: false,
        created_at: utc_now(),
        verdict: None,
    }
}

#[test]
fn test_entry_without_verdict() {
    let entry = unscored();

    let cond = AuditCondition::HighRisk { threshold: score(0.5) };
    assert!(!cond.evaluate(&entry));

    let cond = AuditCondition::CategorySensitive { min_weight: score(0.1) };
    assert!(!cond.evaluate(&entry));

    let cond = AuditCondition::DomainMismatch { min_weight: score(0.1) };
    assert!(!cond.evaluate(&entry));

    let cond = AuditCondition::TrustBelow { threshold: score(0.5) };
    assert!(!cond.evaluate(&entry));

    assert!(AuditCondition::Denied.evaluate(&entry));
}

#[test]
fn high_risk_starts_at_six_tenths() {
    assert_eq!(HIGH_RISK_BITS, 0.6f64.to_bits());
    assert!(make_entry("u", "p", true, 0.6).is_high_risk());
    assert!(!make_entry("u", "p", true, 0.59).is_high_risk());
    assert!(!unscored().is_high_risk());
    assert!(unscored().is_denied());
}

#[test]
fn identifiers_are_given_in_order_and_newest_come_first() {
    let mut sink = InMemoryAuditSink::new();
    for i in 0..4 {
        sink.append(entry_at("u", "p", true, 0.1, 100 + i));
    }
    let all = sink.query(&AuditFilter::default());
    let times: Vec<i128> = all.iter().map(|e| e.created_at).collect();
    assert_eq!(times, vec![103, 102, 101, 100]);
    let mut ids: Vec<i64> = all.iter().map(|e| e.id as i64).collect();
    ids.sort();
    ids.dedup();
    assert_eq!(ids.len(), 4);
}

#[test]
fn a_filter_can_bound_the_moment_and_the_names() {
    let mut sink = InMemoryAuditSink::default();
    sink.append(entry_at("u1", "read", true, 0.1, 10));
    sink.append(entry_at("u1", "write", true, 0.1, 20));
    sink.append(entry_at("u2", "read", true, 0.1, 30));
    let since = AuditFilter { since: Some(20), ..Default::default() };
    assert_eq!(sink.query(&since).len(), 2);
    assert_eq!(sink.count(&since), 2);
    let until = AuditFilter { until: Some(20), ..Default::default() };
    assert_eq!(sink.query(&until).len(), 2);
    let read = AuditFilter { permission: Some("read".to_string()), ..Default::default() };
    assert_eq!(sink.count(&read), 2);
}

#[test]
fn a_cooldown_ends() {
    let mut engine = InMemoryAuditPolicyEngine::default();
    engine.add_rule(rule("r1", AuditCondition::Denied, 10));
    let denied = entry_at("u", "p", false, 0.1, 0);
    assert_eq!(engine.evaluate_at(&denied, &no_history(), 0).len(), 1);
    assert_eq!(engine.evaluate_at(&denied, &no_history(), 9 * SECOND).len(), 0);
    assert_eq!(engine.evaluate_at(&denied, &no_history(), 10 * SECOND).len(), 1);
}

#[test]
fn an_old_denial_is_outside_the_window() {
    let mut engine = InMemoryAuditPolicyEngine::with_sink();
    engine.add_rule(rapid(2));
    let mut sink = InMemoryAuditSink::new();
    sink.append(entry_at("u1", "p", false, 0.1, 0));
    sink.append(entry_at("u1", "p", false, 0.1, 100 * SECOND));
    let denied = entry_at("u1", "p", false, 0.1, 100 * SECOND);
    assert_eq!(engine.evaluate_at(&denied, &sink, 100 * SECOND).len(), 0);
    assert_eq!(engine.evaluate_at(&denied, &sink, 60 * SECOND).len(), 1);
}

#[test]
fn a_countermeasure_keeps_its_parameters() {
    let mut params = Table::new();
    params.insert("minutes".to_string(), "5".to_string());
    let action = AuditAction::Countermeasure { action: "throttle".to_string(), params };
    match action.duplicate() {
        AuditAction::Countermeasure { action, params } => {
            assert_eq!(action, "throttle");
            assert_eq!(params.get(&"minutes".to_string()), Some(&"5".to_string()));
        }
        _ => panic!("another action"),
    }
}

#[test]
fn no_entries_give_an_empty_analysis() {
    let result = DefaultAuditAnalyzer::default().analyze(&vec![]);
    assert_eq!(result.total_entries, 0);
    assert_eq!(result.denied_count, 0);
    assert_eq!(result.by_subject.len(), 0);
    assert!(result.top_risk_entries.is_empty());
}

#[test]
fn the_riskiest_entries_lead_the_analysis() {
    let entries: Vec<AuditEntry> =
        (0..15).map(|i| make_entry("u", "p", true, f64::from(i) / 100.0)).collect();
    let result = DefaultAuditAnalyzer::new().analyze(&entries);
    let risks: Vec<f64> = result
        .top_risk_entries
        .iter()
        .map(|e| number(e.verdict.as_ref().unwrap().risk_score))
        .collect();
    assert_eq!(risks.len(), 10);
    assert_eq!(risks[0], 0.14);
    assert!(risks.windows(2).all(|w| w[0] >= w[1]));
    let stats = result.by_subject.get(&"u".to_string()).unwrap();
    assert_eq!(stats.risks.len(), 15);
    assert_eq!(result.by_permission.get(&"p".to_string()), Some(&15));
}

#[test]
fn an_alert_is_dated_by_the_clock() {
    let mut engine = InMemoryAuditPolicyEngine::new();
    engine.add_rule(rule("r1", AuditCondition::Denied, 0));
    let before = utc_now();
    let alerts = engine.evaluate(&make_entry("u1", "write", false, 0.8), &no_history());
    let after = utc_now();
    assert!(before <= alerts[0].created_at && alerts[0].created_at <= after);
}

#[test]
fn the_groups_of_a_summary_add_up() {
    let entries = vec![
        make_entry("u1", "read", true, 0.1),
        make_entry("u2", "read", false, 0.8),
        make_entry("u1", "write", false, 0.5),
        make_entry("u3", "delete", true, 0.2),
    ];
    let result = DefaultAuditAnalyzer::new().analyze(&entries);
    let subjects: u64 = (0..result.by_subject.len()).map(|i| result.by_subject.value_at(i).total).sum();
    let permissions: u64 = (0..result.by_permission.len()).map(|i| *result.by_permission.value_at(i)).sum();
    assert_eq!(subjects, 4);
    assert_eq!(permissions, 4);
    assert_eq!(result.total_entries, 4);
}

#[test]
fn the_count_is_that_of_a_query_without_a_limit() {
    let mut sink = InMemoryAuditSink::new();
    for i in 0..10 {
        sink.append(make_entry(&format!("u{}", i), "read", i % 3 == 0, 0.1));
    }
    let all = sink.query(&AuditFilter { granted: Some(true), ..Default::default() });
    let capped = AuditFilter { granted: Some(true), limit: Some(2), ..Default::default() };
    assert_eq!(sink.query(&capped).len(), 2);
    assert_eq!(sink.count(&capped) as usize, all.len());
    assert_eq!(all.len(), 4);
}
