//! Separation of duty, cardinality, prerequisites and time windows.
use kirino::collections::KeySet;
use kirino::error::KirinoError;
use kirino::rbac::constraints::policies::{
    CardinalityConstraint, DsdPolicy, PrerequisiteConstraint, SsdPolicy, TemporalConstraint,
};
use kirino::rbac::constraints::store::{ConstraintStore, InMemoryConstraintStore};
use kirino::rbac::constraints::validator::ConstraintValidator;
use kirino::time::utc_now;

const HOUR: i128 = 3_600_000_000_000;

fn roles(items: &[&str]) -> KeySet<String> {
    KeySet::from_items(&texts(items))
}

fn texts(items: &[&str]) -> Vec<String> {
    items.iter().map(|s| s.to_string()).collect()
}

fn exclusive() -> SsdPolicy {
    SsdPolicy::new("admin_auditor_exclusive", roles(&["admin", "auditor"]), 2)
}

#[test]
fn test_ssd_policy_allows() {
    let policy = exclusive();
    assert!(policy.validate(&["admin".to_string()]));
    assert!(policy.validate(&["viewer".to_string()]));
}

#[test]
fn test_ssd_policy_rejects() {
    let policy = exclusive();
    assert!(!policy.validate(&["admin".to_string(), "auditor".to_string()]));
}

#[test]
fn test_dsd_policy() {
    let policy = DsdPolicy::new("ops_audit_session", roles(&["operator", "auditor"]), 2);
    assert!(policy.validate(&["operator".to_string()]));
    assert!(!policy.validate(&["operator".to_string(), "auditor".to_string()]));
}

#[test]
fn test_cardinality_constraint() {
    let c = CardinalityConstraint::new("admin", 2);
    assert!(c.validate(1));
    assert!(c.validate(0));
    assert!(!c.validate(2));
}

#[test]
fn test_prerequisite_constraint() {
    let c = PrerequisiteConstraint::new("admin", "operator");
    assert!(!c.validate(&["viewer".to_string()]));
    assert!(c.validate(&["operator".to_string(), "viewer".to_string()]));
}

#[test]
fn test_temporal_constraint() {
    let now = utc_now();
    let valid = TemporalConstraint::new("temp_role", now - HOUR, now + HOUR).unwrap();
    assert!(valid.is_valid());

    let expired = TemporalConstraint::new("temp_role", now - 2 * HOUR, now - HOUR).unwrap();
    assert!(!expired.is_valid());
}

#[test]
fn test_temporal_constraint_inverted_dates_rejected() {
    let now = utc_now();
    let result = TemporalConstraint::new("temp_role", now + HOUR, now - HOUR);
    assert!(result.is_err());
}

#[test]
fn a_window_holds_both_of_its_ends() {
    let c = TemporalConstraint::new("r", 10, 20).unwrap();
    assert!(!c.is_valid_at(9));
    assert!(c.is_valid_at(10));
    assert!(c.is_valid_at(20));
    assert!(!c.is_valid_at(21));
}

#[test]
fn test_ssd_crud() {
    let mut store = InMemoryConstraintStore::new();
    store.add_ssd_policy(SsdPolicy::new("test", roles(&["a", "b"]), 2)).unwrap();

    let policies = store.list_ssd_policies().unwrap();
    assert_eq!(policies.len(), 1);

    assert!(store.remove_ssd_policy("test").unwrap());
    assert!(store.list_ssd_policies().unwrap().is_empty());
}

#[test]
fn test_dsd_crud() {
    let mut store = InMemoryConstraintStore::new();
    store.add_dsd_policy(DsdPolicy::new("dsd1", roles(&["x", "y"]), 2)).unwrap();

    let policies = store.list_dsd_policies().unwrap();
    assert_eq!(policies.len(), 1);

    assert!(store.remove_dsd_policy("dsd1").unwrap());
}

#[test]
fn test_cardinality_crud() {
    let mut store = InMemoryConstraintStore::new();
    store.add_cardinality_constraint(CardinalityConstraint::new("admin", 3)).unwrap();

    let constraints = store.list_cardinality_constraints().unwrap();
    assert_eq!(constraints.len(), 1);
    assert_eq!(constraints[0].max_subjects, 3);

    assert!(store.remove_cardinality_constraint("admin").unwrap());
}

#[test]
fn test_prerequisite_crud() {
    let mut store = InMemoryConstraintStore::new();
    store.add_prerequisite_constraint(PrerequisiteConstraint::new("admin", "operator")).unwrap();

    let constraints = store.list_prerequisite_constraints().unwrap();
    assert_eq!(constraints.len(), 1);
}

#[test]
fn test_temporal_crud() {
    let mut store = InMemoryConstraintStore::new();
    let now = utc_now();
    store
        .add_temporal_constraint(TemporalConstraint::new("temp_role", now, now + HOUR).unwrap())
        .unwrap();

    let constraints = store.list_temporal_constraints().unwrap();
    assert_eq!(constraints.len(), 1);

    assert!(store.remove_temporal_constraint("temp_role").unwrap());
}

#[test]
fn test_prerequisite_remove() {
    let mut store = InMemoryConstraintStore::new();
    store.add_prerequisite_constraint(PrerequisiteConstraint::new("admin", "operator")).unwrap();
    store.add_prerequisite_constraint(PrerequisiteConstraint::new("superadmin", "admin")).unwrap();

    assert_eq!(store.list_prerequisite_constraints().unwrap().len(), 2);

    assert!(store.remove_prerequisite_constraint("admin").unwrap());
    assert_eq!(store.list_prerequisite_constraints().unwrap().len(), 1);
}

#[test]
fn test_remove_nonexistent_returns_false() {
    let mut store = InMemoryConstraintStore::new();
    assert!(!store.remove_ssd_policy("ghost").unwrap());
    assert!(!store.remove_dsd_policy("ghost").unwrap());
    assert!(!store.remove_cardinality_constraint("ghost").unwrap());
    assert!(!store.remove_prerequisite_constraint("ghost").unwrap());
    assert!(!store.remove_temporal_constraint("ghost").unwrap());
}

#[test]
fn test_duplicate_ssd_policy_names_rejected() {
    let mut store = InMemoryConstraintStore::new();
    store.add_ssd_policy(SsdPolicy::new("dup", roles(&["a"]), 1)).unwrap();
    assert!(store.add_ssd_policy(SsdPolicy::new("dup", roles(&["b"]), 1)).is_err());

    let policies = store.list_ssd_policies().unwrap();
    assert_eq!(policies.len(), 1);

    assert!(store.remove_ssd_policy("dup").unwrap());
    assert!(store.list_ssd_policies().unwrap().is_empty());
}

#[test]
fn test_duplicate_dsd_policy_names_rejected() {
    let mut store = InMemoryConstraintStore::new();
    store.add_dsd_policy(DsdPolicy::new("dup", roles(&["a"]), 1)).unwrap();
    assert!(store.add_dsd_policy(DsdPolicy::new("dup", roles(&["b"]), 1)).is_err());

    assert_eq!(store.list_dsd_policies().unwrap().len(), 1);
    assert!(store.remove_dsd_policy("dup").unwrap());
    assert!(store.list_dsd_policies().unwrap().is_empty());
}

#[test]
fn test_prerequisite_remove_specific() {
    let mut store = InMemoryConstraintStore::new();
    store.add_prerequisite_constraint(PrerequisiteConstraint::new("admin", "operator")).unwrap();
    store.add_prerequisite_constraint(PrerequisiteConstraint::new("admin", "viewer")).unwrap();

    assert_eq!(store.list_prerequisite_constraints().unwrap().len(), 2);

    assert!(store.remove_prerequisite_constraint_for("admin", "operator").unwrap());
    let remaining = store.list_prerequisite_constraints().unwrap();
    assert_eq!(remaining.len(), 1);
    assert_eq!(remaining[0].requires, "viewer");
}

#[test]
fn test_prerequisite_remove_specific_nonexistent() {
    let mut store = InMemoryConstraintStore::new();
    assert!(!store.remove_prerequisite_constraint_for("admin", "operator").unwrap());
}

#[test]
fn test_temporal_remove_specific() {
    let mut store = InMemoryConstraintStore::new();
    let now = utc_now();
    let t1_from = now;
    let t1_until = now + HOUR;
    let t2_from = now + 2 * HOUR;
    let t2_until = now + 3 * HOUR;

    store
        .add_temporal_constraint(TemporalConstraint::new("role", t1_from, t1_until).unwrap())
        .unwrap();
    store
        .add_temporal_constraint(TemporalConstraint::new("role", t2_from, t2_until).unwrap())
        .unwrap();

    assert_eq!(store.list_temporal_constraints().unwrap().len(), 2);

    assert!(store.remove_temporal_constraint_for("role", t1_from, t1_until).unwrap());
    let remaining = store.list_temporal_constraints().unwrap();
    assert_eq!(remaining.len(), 1);
    assert_eq!(remaining[0].valid_from, t2_from);
}

#[test]
fn test_temporal_remove_specific_nonexistent() {
    let mut store = InMemoryConstraintStore::new();
    let now = utc_now();
    assert!(!store.remove_temporal_constraint_for("ghost", now, now + HOUR).unwrap());
}

#[test]
fn test_multiple_constraint_types_coexist() {
    let mut store = InMemoryConstraintStore::new();

    store.add_ssd_policy(SsdPolicy::new("ssd1", roles(&["a"]), 1)).unwrap();
    store.add_dsd_policy(DsdPolicy::new("dsd1", roles(&["a"]), 1)).unwrap();
    store.add_cardinality_constraint(CardinalityConstraint::new("role1", 5)).unwrap();
    store.add_prerequisite_constraint(PrerequisiteConstraint::new("role1", "role0")).unwrap();
    let now = utc_now();
    store
        .add_temporal_constraint(TemporalConstraint::new("temp", now, now + HOUR).unwrap())
        .unwrap();

    assert_eq!(store.list_ssd_policies().unwrap().len(), 1);
    assert_eq!(store.list_dsd_policies().unwrap().len(), 1);
    assert_eq!(store.list_cardinality_constraints().unwrap().len(), 1);
    assert_eq!(store.list_prerequisite_constraints().unwrap().len(), 1);
    assert_eq!(store.list_temporal_constraints().unwrap().len(), 1);
}

fn with_ssd() -> ConstraintValidator<InMemoryConstraintStore> {
    let mut store = InMemoryConstraintStore::new();
    store.add_ssd_policy(SsdPolicy::new("exclusive", roles(&["admin", "auditor"]), 2)).unwrap();
    ConstraintValidator::new(store)
}

#[test]
fn test_validate_ssd_pass() {
    let validator = with_ssd();
    assert!(validator.validate_ssd(&["viewer".to_string()], "admin").is_ok());
}

#[test]
fn test_validate_ssd_fail() {
    let validator = with_ssd();
    assert!(validator.validate_ssd(&["admin".to_string()], "auditor").is_err());
}

#[test]
fn test_validate_dsd_pass() {
    let mut store = InMemoryConstraintStore::new();
    store.add_dsd_policy(DsdPolicy::new("exclusive", roles(&["admin", "auditor"]), 2)).unwrap();
    let validator = ConstraintValidator::new(store);
    assert!(validator.validate_dsd(&["viewer".to_string()], "admin").is_ok());
}

#[test]
fn test_validate_dsd_fail() {
    let mut store = InMemoryConstraintStore::new();
    store.add_dsd_policy(DsdPolicy::new("session_exclusive", roles(&["ops", "audit"]), 2)).unwrap();
    let validator = ConstraintValidator::new(store);
    assert!(validator.validate_dsd(&["ops".to_string()], "audit").is_err());
}

#[test]
fn test_validate_cardinality_fail() {
    let mut store = InMemoryConstraintStore::new();
    store.add_cardinality_constraint(CardinalityConstraint::new("admin", 1)).unwrap();
    let validator = ConstraintValidator::new(store);
    assert!(validator.validate_cardinality("admin", 1).is_err());
    assert!(validator.validate_cardinality("admin", 0).is_ok());
}

#[test]
fn test_validate_prerequisite_fail() {
    let mut store = InMemoryConstraintStore::new();
    store.add_prerequisite_constraint(PrerequisiteConstraint::new("admin", "operator")).unwrap();
    let validator = ConstraintValidator::new(store);
    assert!(validator.validate_prerequisite("admin", &["viewer".to_string()]).is_err());
    assert!(validator.validate_prerequisite("admin", &["operator".to_string()]).is_ok());
}

#[test]
fn test_validate_assignment_full() {
    let mut store = InMemoryConstraintStore::new();
    store.add_ssd_policy(SsdPolicy::new("exclusive", roles(&["admin", "auditor"]), 2)).unwrap();
    store.add_prerequisite_constraint(PrerequisiteConstraint::new("admin", "operator")).unwrap();
    let validator = ConstraintValidator::new(store);

    assert!(validator.validate_assignment(&["operator".to_string()], "admin", 0).is_ok());
    assert!(validator.validate_assignment(&["auditor".to_string()], "admin", 0).is_err());
    assert!(validator.validate_assignment(&["viewer".to_string()], "admin", 0).is_err());
}

#[test]
fn test_validate_temporal_pass() {
    let mut store = InMemoryConstraintStore::new();
    let now = utc_now();
    store
        .add_temporal_constraint(TemporalConstraint::new("seasonal", now - HOUR, now + HOUR).unwrap())
        .unwrap();
    let validator = ConstraintValidator::new(store);
    assert!(validator.validate_temporal("seasonal").is_ok());
}

#[test]
fn test_validate_temporal_fail() {
    let mut store = InMemoryConstraintStore::new();
    let now = utc_now();
    store
        .add_temporal_constraint(
            TemporalConstraint::new("expired_role", now - 2 * HOUR, now - HOUR).unwrap(),
        )
        .unwrap();
    let validator = ConstraintValidator::new(store);
    assert!(validator.validate_temporal("expired_role").is_err());
}

#[test]
fn test_validate_temporal_nonexistent_role() {
    let mut store = InMemoryConstraintStore::new();
    let now = utc_now();
    store
        .add_temporal_constraint(TemporalConstraint::new("seasonal", now - HOUR, now + HOUR).unwrap())
        .unwrap();
    let validator = ConstraintValidator::new(store);
    assert!(validator.validate_temporal("other").is_ok());
}

#[test]
fn test_validate_assignment_cardinality_fail() {
    let mut store = InMemoryConstraintStore::new();
    store.add_cardinality_constraint(CardinalityConstraint::new("admin", 1)).unwrap();
    let validator = ConstraintValidator::new(store);
    assert!(validator.validate_assignment(&[], "admin", 1).is_err());
    assert!(validator.validate_assignment(&[], "viewer", 1).is_ok());
}

#[test]
fn test_validate_assignment_temporal_fail() {
    let mut store = InMemoryConstraintStore::new();
    let now = utc_now();
    store
        .add_temporal_constraint(
            TemporalConstraint::new("expired_role", now - 2 * HOUR, now - HOUR).unwrap(),
        )
        .unwrap();
    let validator = ConstraintValidator::new(store);
    assert!(validator.validate_assignment(&[], "expired_role", 0).is_err());
}

#[test]
fn test_empty_store_pass_all() {
    let validator = ConstraintValidator::new(InMemoryConstraintStore::new());
    assert!(validator.validate_ssd(&[], "admin").is_ok());
    assert!(validator.validate_dsd(&[], "admin").is_ok());
    assert!(validator.validate_cardinality("admin", 100).is_ok());
    assert!(validator.validate_prerequisite("admin", &[]).is_ok());
    assert!(validator.validate_temporal("admin").is_ok());
    assert!(validator.validate_assignment(&[], "admin", 100).is_ok());
}

struct Unreadable;

impl ConstraintStore for Unreadable {
    fn list_ssd_policies(&self) -> Result<&Vec<SsdPolicy>, KirinoError> {
        Err(KirinoError::Store("down".to_string()))
    }

    fn list_dsd_policies(&self) -> Result<&Vec<DsdPolicy>, KirinoError> {
        Err(KirinoError::Store("down".to_string()))
    }

    fn list_cardinality_constraints(&self) -> Result<&Vec<CardinalityConstraint>, KirinoError> {
        Err(KirinoError::Store("down".to_string()))
    }

    fn list_prerequisite_constraints(&self) -> Result<&Vec<PrerequisiteConstraint>, KirinoError> {
        Err(KirinoError::Store("down".to_string()))
    }

    fn list_temporal_constraints(&self) -> Result<&Vec<TemporalConstraint>, KirinoError> {
        Err(KirinoError::Store("down".to_string()))
    }

    fn add_ssd_policy(&mut self, _: SsdPolicy) -> Result<(), KirinoError> {
        Err(KirinoError::Store("down".to_string()))
    }

    fn add_dsd_policy(&mut self, _: DsdPolicy) -> Result<(), KirinoError> {
        Err(KirinoError::Store("down".to_string()))
    }

    fn add_cardinality_constraint(&mut self, _: CardinalityConstraint) -> Result<(), KirinoError> {
        Err(KirinoError::Store("down".to_string()))
    }

    fn add_prerequisite_constraint(&mut self, _: PrerequisiteConstraint) -> Result<(), KirinoError> {
        Err(KirinoError::Store("down".to_string()))
    }

    fn add_temporal_constraint(&mut self, _: TemporalConstraint) -> Result<(), KirinoError> {
        Err(KirinoError::Store("down".to_string()))
    }

    fn remove_ssd_policy(&mut self, _: &str) -> Result<bool, KirinoError> {
        Err(KirinoError::Store("down".to_string()))
    }

    fn remove_dsd_policy(&mut self, _: &str) -> Result<bool, KirinoError> {
        Err(KirinoError::Store("down".to_string()))
    }

    fn remove_cardinality_constraint(&mut self, _: &str) -> Result<bool, KirinoError> {
        Err(KirinoError::Store("down".to_string()))
    }

    fn remove_prerequisite_constraint(&mut self, _: &str) -> Result<bool, KirinoError> {
        Err(KirinoError::Store("down".to_string()))
    }

    fn remove_prerequisite_constraint_for(&mut self, _: &str, _: &str) -> Result<bool, KirinoError> {
        Err(KirinoError::Store("down".to_string()))
    }

    fn remove_temporal_constraint(&mut self, _: &str) -> Result<bool, KirinoError> {
        Err(KirinoError::Store("down".to_string()))
    }

    fn remove_temporal_constraint_for(&mut self, _: &str, _: i128, _: i128) -> Result<bool, KirinoError> {
        Err(KirinoError::Store("down".to_string()))
    }
}

#[test]
fn an_unreadable_store_lets_nothing_pass() {
    let validator = ConstraintValidator::new(Unreadable);
    assert!(validator.validate_ssd(&[], "admin").is_err());
    assert!(validator.validate_dsd(&[], "admin").is_err());
    assert!(validator.validate_cardinality("admin", 0).is_err());
    assert!(validator.validate_prerequisite("admin", &[]).is_err());
    assert!(validator.validate_temporal("admin").is_err());
    assert!(validator.validate_assignment(&[], "admin", 0).is_err());
}

#[test]
fn every_window_of_a_role_has_to_hold() {
    let mut store = InMemoryConstraintStore::new();
    store.add_temporal_constraint(TemporalConstraint::new("r", 0, 20).unwrap()).unwrap();
    store.add_temporal_constraint(TemporalConstraint::new("r", 10, 30).unwrap()).unwrap();
    let validator = ConstraintValidator::new(store);
    assert!(validator.validate_temporal_at("r", 15).is_ok());
    assert!(validator.validate_temporal_at("r", 5).is_err());
    assert!(validator.validate_temporal_at("r", 25).is_err());
    match validator.validate_temporal_at("r", 5) {
        Err(KirinoError::ConstraintViolation(text)) => assert_eq!(
            text,
            "Temporal constraint: role 'r' is not available at the current time"
        ),
        _ => panic!("not a violation"),
    }
}

#[test]
fn a_window_must_start_before_it_ends() {
    match TemporalConstraint::new("r", 5, 5) {
        Err(KirinoError::Validation(text)) => assert!(text.contains("1970-01-01"), "{text}"),
        _ => panic!("an empty window was accepted"),
    }
}

#[test]
fn what_is_stored_is_not_added_twice() {
    let mut store = InMemoryConstraintStore::new();
    store.add_cardinality_constraint(CardinalityConstraint::new("admin", 3)).unwrap();
    assert!(store.add_cardinality_constraint(CardinalityConstraint::new("admin", 4)).is_err());
    assert_eq!(store.list_cardinality_constraints().unwrap()[0].max_subjects, 3);

    store.add_prerequisite_constraint(PrerequisiteConstraint::new("admin", "operator")).unwrap();
    assert!(store.add_prerequisite_constraint(PrerequisiteConstraint::new("admin", "operator")).is_err());
    store.add_prerequisite_constraint(PrerequisiteConstraint::new("admin", "auditor")).unwrap();
    assert_eq!(store.list_prerequisite_constraints().unwrap().len(), 2);

    store.add_temporal_constraint(TemporalConstraint::new("night", 0, HOUR).unwrap()).unwrap();
    assert!(store.add_temporal_constraint(TemporalConstraint::new("night", 0, HOUR).unwrap()).is_err());
    store.add_temporal_constraint(TemporalConstraint::new("night", 1, HOUR).unwrap()).unwrap();
    assert_eq!(store.list_temporal_constraints().unwrap().len(), 2);
    assert_eq!(store.list_cardinality_constraints().unwrap().len(), 1);
    assert_eq!(store.list_prerequisite_constraints().unwrap().len(), 2);
}
