//! Trust records and the observation of behaviour.
use kirino::collections::Table;
use kirino::error::KirinoError;
use kirino::rbac::dynamic::anomaly::{AnomalyDetector, BehaviorBaseline, BASELINE_MIN_SAMPLES};
use kirino::rbac::dynamic::delegator::Delegator;
use kirino::rbac::dynamic::metrics::{ActionCategory, ActionRequest};
use kirino::rbac::dynamic::trust::{
    decay_once, InMemoryTrustScoreStore, TrustScore, TrustScoreStore, DEGRADATION_RATE_BITS, SEED_CONFIDENCE_BITS,
};
use kirino::score::Score;
use kirino::time::utc_now;

const SECOND: i128 = 1_000_000_000;
const HOUR: i128 = 3_600 * SECOND;
const DAY_LONG: u128 = 24 * 3_600_000_000_000;

fn score(value: f64) -> Score {
    Score::from_bits(value.to_bits())
}

fn number(score: Score) -> f64 {
    f64::from_bits(score.bits)
}

fn id(text: &str) -> String {
    text.to_string()
}

#[test]
fn test_trust_score_default() {
    let ts = TrustScore::unknown(utc_now());
    assert!((number(ts.value) - 0.0).abs() < 1e-10);
    assert!((number(ts.confidence) - 0.0).abs() < 1e-10);
    assert_eq!(ts.evidence_count, 0);
}

#[test]
fn test_in_memory_store_crud() {
    let mut store = InMemoryTrustScoreStore::new();
    let id = id("agent-001");

    assert!(store.get(&id).unwrap().is_none());

    let score = TrustScore::new(score(0.8));
    store.set(id.clone(), score).unwrap();

    let got = store.get(&id).unwrap().unwrap();
    assert!((number(got.value) - 0.8).abs() < 1e-10);

    store.delete(&id).unwrap();
    assert!(store.get(&id).unwrap().is_none());
}

#[test]
fn test_sweep_stale() {
    let mut store = InMemoryTrustScoreStore::new();
    let mut old = TrustScore::new(score(0.5));
    old.last_updated = utc_now() - 48 * HOUR;
    store.set(id("old-agent"), old).unwrap();

    let mut recent = TrustScore::new(score(0.9));
    recent.last_updated = utc_now();
    store.set(id("recent-agent"), recent).unwrap();

    let swept = store.sweep_stale(DAY_LONG).unwrap();
    assert_eq!(swept, vec!["old-agent"]);
    assert!(store.get(&id("old-agent")).unwrap().is_none());
    assert!(store.get(&id("recent-agent")).unwrap().is_some());
}

#[test]
fn test_sweep_stale_none_expired() {
    let mut store = InMemoryTrustScoreStore::new();
    store.set(id("fresh-agent"), TrustScore::new(score(0.8))).unwrap();

    let swept = store.sweep_stale(DAY_LONG).unwrap();
    assert!(swept.is_empty());
    assert!(store.get(&id("fresh-agent")).unwrap().is_some());
}

#[test]
fn test_sweep_stale_all_expired() {
    let mut store = InMemoryTrustScoreStore::new();
    let mut s1 = TrustScore::new(score(0.5));
    s1.last_updated = utc_now() - 72 * HOUR;
    store.set(id("a1"), s1).unwrap();

    let mut s2 = TrustScore::new(score(0.3));
    s2.last_updated = utc_now() - 96 * HOUR;
    store.set(id("a2"), s2).unwrap();

    let mut swept = store.sweep_stale(DAY_LONG).unwrap();
    swept.sort();
    assert_eq!(swept, vec!["a1", "a2"]);
    assert!(store.list_ids().unwrap().is_empty());
}

#[test]
fn test_list_ids() {
    let mut store = InMemoryTrustScoreStore::default();
    store.set(id("a1"), TrustScore::new(score(0.5))).unwrap();
    store.set(id("a2"), TrustScore::new(score(0.8))).unwrap();
    store.set(id("a3"), TrustScore::new(score(0.3))).unwrap();

    let mut ids = store.list_ids().unwrap();
    ids.sort();
    assert_eq!(ids, vec!["a1", "a2", "a3"]);
}

#[test]
fn a_seed_counts_half_and_decays_by_a_hundredth_an_hour() {
    assert_eq!(f64::from_bits(SEED_CONFIDENCE_BITS), 0.5);
    assert_eq!(f64::from_bits(DEGRADATION_RATE_BITS), 0.01);
    let seeded = TrustScore::new_at(score(0.8), 7);
    assert_eq!(number(seeded.value), 0.8);
    assert_eq!(number(seeded.confidence), 0.5);
    assert_eq!(seeded.last_updated, 7);
    assert_eq!(number(TrustScore::new_at(score(3.0), 7).value), 1.0);
    assert_eq!(number(TrustScore::new_at(score(-3.0), 7).value), 0.0);
}

#[test]
fn an_observation_is_counted_and_a_decay_is_not() {
    let before = TrustScore::new_at(score(0.8), 7);
    let observed = before.recorded(score(0.81), score(0.6), 9);
    assert_eq!(observed.evidence_count, before.evidence_count + 1);
    assert_eq!((number(observed.value), number(observed.confidence)), (0.81, 0.6));
    assert_eq!(observed.last_updated, 9);
    let decayed = before.decayed(score(0.79), score(0.49), 9);
    assert_eq!(decayed.evidence_count, before.evidence_count);
    assert_eq!((number(decayed.value), number(decayed.confidence)), (0.79, 0.49));
}

#[test]
fn a_record_as_old_as_the_bound_is_kept() {
    let mut store = InMemoryTrustScoreStore::new();
    store.set(id("edge"), TrustScore::new_at(score(0.5), 0)).unwrap();
    assert!(store.sweep_stale_at(100, 100).is_empty());
    assert_eq!(store.sweep_stale_at(100, 101), vec!["edge"]);
}

fn make_request(category: ActionCategory) -> ActionRequest {
    ActionRequest::simple(Delegator::human("test-user", "#test"), "test-action", category)
}

/// What the deviation of the profile comes to, given how it is compared.
fn pattern_deviation(det: &AnomalyDetector) -> f64 {
    let (means, stdevs): (Vec<(ActionCategory, f64)>, Vec<(ActionCategory, f64)>) = match det.baseline() {
        None => return 0.0,
        Some(BehaviorBaseline::Given { category_means, category_stdevs }) => {
            (pairs(category_means), pairs(category_stdevs))
        }
        Some(BehaviorBaseline::Learned { category_counts, total }) => {
            let n = *total as f64;
            let mut means = Vec::new();
            let mut stdevs = Vec::new();
            for i in 0..category_counts.len() {
                let p = *category_counts.value_at(i) as f64 / n;
                means.push((*category_counts.key_at(i), p));
                stdevs.push((*category_counts.key_at(i), (p * (1.0 - p) * n / (n - 1.0)).sqrt().max(0.01)));
            }
            (means, stdevs)
        }
    };
    let profile = det.category_profile();
    let n: u64 = (0..profile.len()).map(|i| *profile.value_at(i)).sum();
    let find = |list: &Vec<(ActionCategory, f64)>, c: ActionCategory| {
        list.iter().find(|(k, _)| *k == c).map(|(_, v)| *v)
    };
    let mut total = 0.0;
    let mut count = 0.0;
    for i in 0..profile.len() {
        let freq = *profile.value_at(i) as f64 / n as f64;
        let category = *profile.key_at(i);
        let mean = find(&means, category).unwrap_or(0.0);
        let stdev = find(&stdevs, category).unwrap_or(0.1);
        total += ((freq - mean) / stdev).abs();
        count += 1.0;
    }
    for (category, mean) in &means {
        if profile.get(category).is_none() && *mean > 0.01 {
            total += 2.0;
            count += 1.0;
        }
    }
    if count == 0.0 {
        return 0.0;
    }
    (total / count / 3.0f64).min(1.0)
}

fn measured(det: &AnomalyDetector) -> Score {
    score(pattern_deviation(det))
}

fn pairs(table: &Table<ActionCategory, Score>) -> Vec<(ActionCategory, f64)> {
    (0..table.len()).map(|i| (*table.key_at(i), number(*table.value_at(i)))).collect()
}

#[test]
fn test_observe_insufficient_samples() {
    let mut det = AnomalyDetector::new(20);
    let score = det.observe(&make_request(ActionCategory::ReadOnly), measured);
    assert_eq!(number(score.value), 0.1);
    assert_eq!(score.reason, "insufficient-samples");
}

#[test]
fn test_baseline_not_ready_initially() {
    let det = AnomalyDetector::new(20);
    assert!(!det.is_baseline_ready());
}

#[test]
fn test_pattern_deviation_no_baseline() {
    let det = AnomalyDetector::new(20);
    assert_eq!(pattern_deviation(&det), 0.0);
}

fn mostly_reads() -> BehaviorBaseline {
    let mut category_means = Table::new();
    category_means.insert(ActionCategory::ReadOnly, score(0.9));
    let mut category_stdevs = Table::new();
    category_stdevs.insert(ActionCategory::ReadOnly, score(0.05));
    BehaviorBaseline::Given { category_means, category_stdevs }
}

#[test]
fn test_pattern_deviation_with_baseline() {
    let mut det = AnomalyDetector::new(50).with_baseline(mostly_reads());
    for _ in 0..20 {
        let _ = det.observe(&make_request(ActionCategory::ProcessExec), measured);
    }

    let dev = pattern_deviation(&det);
    assert!(dev > 0.0);
}

#[test]
fn test_window_sliding() {
    let mut det = AnomalyDetector::new(5);
    for _ in 0..10 {
        let _ = det.observe(&make_request(ActionCategory::ReadOnly), measured);
    }
    assert_eq!(det.recent_actions().len(), 5);
}

#[test]
fn test_build_baseline_from_history() {
    let mut det = AnomalyDetector::new(200);
    for i in 0..BASELINE_MIN_SAMPLES {
        if i < 75 {
            let _ = det.observe(&make_request(ActionCategory::ReadOnly), measured);
        } else {
            let _ = det.observe(&make_request(ActionCategory::FileWrite), measured);
        }
    }

    // The baseline was built at the 100th observation.
    match det.baseline() {
        Some(BehaviorBaseline::Learned { category_counts, total }) => {
            let share = |c: ActionCategory| {
                category_counts.get(&c).copied().unwrap_or(0) as f64 / *total as f64
            };
            let ro_mean = share(ActionCategory::ReadOnly);
            assert!((ro_mean - 0.75).abs() < 0.05);
            let fw_mean = share(ActionCategory::FileWrite);
            assert!((fw_mean - 0.25).abs() < 0.05);
            let n = *total as f64;
            let ro_stdev = (ro_mean * (1.0 - ro_mean) * n / (n - 1.0)).sqrt().max(0.01);
            assert!(ro_stdev > 0.0);
        }
        _ => panic!("no baseline was learned"),
    }
}

#[test]
fn test_baseline_auto_builds_after_min_samples() {
    let mut det = AnomalyDetector::new(100);
    assert!(det.baseline().is_none());

    for _ in 0..BASELINE_MIN_SAMPLES {
        let _ = det.observe(&make_request(ActionCategory::ReadOnly), measured);
    }

    assert!(det.baseline().is_some());
    assert!(det.is_baseline_ready());
}

#[test]
fn test_anomaly_detection_works_after_baseline_ready() {
    let mut det = AnomalyDetector::new(100);
    for _ in 0..BASELINE_MIN_SAMPLES {
        let _ = det.observe(&make_request(ActionCategory::ReadOnly), measured);
    }

    let score = det.observe(&make_request(ActionCategory::ProcessExec), measured);
    let value = number(score.value);
    assert_eq!(value, pattern_deviation(&det));
    assert_ne!(score.reason, "insufficient-samples");
    assert!(value > 0.0, "anomaly value should be >0 after baseline ready, got {value}");
}

#[test]
fn test_build_baseline_insufficient_samples() {
    let mut det = AnomalyDetector::new(20);
    for _ in 0..50 {
        let _ = det.observe(&make_request(ActionCategory::ReadOnly), measured);
    }
    assert!(!det.is_baseline_ready());
    det.build_baseline_from_history();
    assert!(det.baseline().is_none());
}

#[test]
fn a_window_of_nothing_stays_empty() {
    let mut det = AnomalyDetector::new(0);
    let _ = det.observe(&make_request(ActionCategory::ReadOnly), measured);
    assert_eq!(det.recent_actions().len(), 0);
    assert_eq!(det.total_observed(), 1);
}

#[test]
fn the_profile_counts_what_is_in_the_window() {
    let mut det = AnomalyDetector::new(3);
    for i in 0..4 {
        let category = if i < 2 { ActionCategory::ReadOnly } else { ActionCategory::FileWrite };
        let _ = det.observe(&make_request(category), measured);
    }
    assert_eq!(det.category_profile().get(&ActionCategory::ReadOnly), Some(&1));
    assert_eq!(det.category_profile().get(&ActionCategory::FileWrite), Some(&2));
    assert_eq!(det.category_profile().get(&ActionCategory::ProcessExec), None);
    assert_eq!(AnomalyDetector::default().recent_actions().len(), 0);
}

fn after_an_hour(trust: TrustScore) -> TrustScore {
    let decay = number(trust.degradation_rate);
    trust.decayed(
        score((number(trust.value) - decay).max(0.0)),
        score((number(trust.confidence) - decay * 0.5).max(0.0)),
        utc_now(),
    )
}

#[test]
fn test_decay_worker_run_once() {
    let mut store = InMemoryTrustScoreStore::new();
    store.set(id("a1"), TrustScore::new(score(0.8))).unwrap();
    store.set(id("a2"), TrustScore::new(score(0.5))).unwrap();

    let before_a1 = number(store.get(&id("a1")).unwrap().unwrap().value);
    let count = decay_once(&mut store, after_an_hour).unwrap();
    assert_eq!(count, 2);

    let after_a1 = number(store.get(&id("a1")).unwrap().unwrap().value);
    assert!(after_a1 < before_a1);
    assert_eq!(after_a1, 0.79);
    assert_eq!(number(store.get(&id("a2")).unwrap().unwrap().confidence), 0.495);
}

/// A store in which nothing can be written.
struct ReadOnly(InMemoryTrustScoreStore);

impl TrustScoreStore for ReadOnly {
    fn get(&self, delegator_id: &String) -> Result<Option<TrustScore>, KirinoError> {
        self.0.get(delegator_id)
    }

    fn set(&mut self, _delegator_id: String, _score: TrustScore) -> Result<(), KirinoError> {
        Err(KirinoError::Store("read only".to_string()))
    }

    fn delete(&mut self, _delegator_id: &String) -> Result<(), KirinoError> {
        Err(KirinoError::Store("read only".to_string()))
    }

    fn sweep_stale(&mut self, _max_age: u128) -> Result<Vec<String>, KirinoError> {
        Err(KirinoError::Store("read only".to_string()))
    }

    fn list_ids(&self) -> Result<Vec<String>, KirinoError> {
        self.0.list_ids()
    }
}

#[test]
fn a_failed_write_ends_the_cycle() {
    let mut inner = InMemoryTrustScoreStore::new();
    inner.set(id("a1"), TrustScore::new(score(0.8))).unwrap();
    let mut store = ReadOnly(inner);
    assert!(matches!(decay_once(&mut store, after_an_hour), Err(KirinoError::Store(why)) if why == "read only"));
    assert_eq!(number(store.get(&id("a1")).unwrap().unwrap().value), 0.8);
    assert_eq!(decay_once(&mut ReadOnly(InMemoryTrustScoreStore::new()), after_an_hour).unwrap(), 0);
}
