//! Sessions held in memory.
use kirino::collections::{Key, KeySet};
use kirino::error::KirinoError;
use kirino::rbac::constraints::policies::DsdPolicy;
use kirino::rbac::constraints::store::{ConstraintStore, InMemoryConstraintStore};
use kirino::rbac::memory::InMemoryAssignmentStore;
use kirino::rbac::session::{validate_dsd_with_store, InMemorySessionManager};
use kirino::rbac::subject::StringSubject;
use kirino::rbac::traits::{AssignmentStore, Permission, Subject};
use kirino::time::utc_now;

#[derive(Debug, Clone, Copy, PartialEq, Eq)]
enum TestPerm {
    Read,
    Write,
    Delete,
    Admin,
}

impl Key for TestPerm {
    type Id = ();

    fn same(&self, other: &Self) -> bool {
        self == other
    }

    fn duplicate(&self) -> Self {
        *self
    }
}

impl Permission for TestPerm {
    fn name(&self) -> &str {
        match self {
            TestPerm::Read => "read",
            TestPerm::Write => "write",
            TestPerm::Delete => "delete",
            TestPerm::Admin => "admin",
        }
    }

    fn domain(&self) -> &str {
        ""
    }

    fn ancestry_names(&self) -> Vec<&str> {
        vec![self.name()]
    }

    fn is_branch(&self) -> bool {
        false
    }

    fn identity_fixes_texts(_: &Self, _: &Self) {}
}

type Store = InMemoryAssignmentStore<StringSubject, TestPerm>;
type Manager = InMemorySessionManager<StringSubject, TestPerm, Store, InMemoryConstraintStore>;

const MILLISECOND: i128 = 1_000_000;
const HOUR: i128 = 3_600_000_000_000;

fn make_mgr() -> Manager {
    InMemorySessionManager::new(InMemoryAssignmentStore::new())
}

fn roles(items: &[&str]) -> KeySet<String> {
    KeySet::from_items(&items.iter().map(|s| s.to_string()).collect())
}

fn has(set: &KeySet<String>, role: &str) -> bool {
    set.contains(&role.to_string())
}

fn fresh_id() -> u128 {
    uuid::Uuid::now_v7().as_u128()
}

#[test]
fn test_create_and_get_session() {
    let mut mgr = make_mgr();
    let subj = StringSubject::new("user1");
    mgr.assignment_store_mut().assign_role(&subj, "admin").unwrap();
    mgr.assignment_store_mut().assign_role(&subj, "viewer").unwrap();

    let session = mgr.create_session(&subj, roles(&["admin"]), HOUR).unwrap();

    assert!(!session.is_expired());
    assert!(has(&session.active_roles, "admin"));

    let got = mgr.get_session(session.id).unwrap();
    assert_eq!(got.id, session.id);
}

#[test]
fn test_create_session_filters_unassigned_roles() {
    let mut mgr = make_mgr();
    let subj = StringSubject::new("user1");
    mgr.assignment_store_mut().assign_role(&subj, "viewer").unwrap();

    let session = mgr.create_session(&subj, roles(&["admin", "viewer"]), HOUR).unwrap();

    assert!(has(&session.active_roles, "viewer"));
    assert!(!has(&session.active_roles, "admin"));
}

#[test]
fn test_activate_deactivate_role() {
    let mut mgr = make_mgr();
    let subj = StringSubject::new("user1");
    mgr.assignment_store_mut().assign_role(&subj, "admin").unwrap();
    mgr.assignment_store_mut().assign_role(&subj, "viewer").unwrap();

    let session = mgr.create_session(&subj, roles(&["admin"]), HOUR).unwrap();

    mgr.activate_role(session.id, "viewer").unwrap();
    let got = mgr.get_session(session.id).unwrap();
    assert!(has(&got.active_roles, "viewer"));

    mgr.deactivate_role(session.id, "admin").unwrap();
    let got = mgr.get_session(session.id).unwrap();
    assert!(!has(&got.active_roles, "admin"));
    assert!(has(&got.active_roles, "viewer"));
}

#[test]
fn test_activate_unassigned_role_fails() {
    let mut mgr = make_mgr();
    let subj = StringSubject::new("user1");
    mgr.assignment_store_mut().assign_role(&subj, "viewer").unwrap();

    let session = mgr.create_session(&subj, KeySet::new(), HOUR).unwrap();

    assert!(mgr.activate_role(session.id, "admin").is_err());
}

#[test]
fn test_destroy_session() {
    let mut mgr = make_mgr();
    let subj = StringSubject::new("user1");

    let session = mgr.create_session(&subj, KeySet::new(), HOUR).unwrap();

    mgr.destroy_session(session.id);
    assert!(mgr.get_session(session.id).is_none());
}

fn exclusive() -> InMemoryConstraintStore {
    let mut cs = InMemoryConstraintStore::new();
    cs.add_dsd_policy(DsdPolicy::new("exclusive", roles(&["admin", "auditor"]), 2)).unwrap();
    cs
}

#[test]
fn test_dsd_constraint_on_create() {
    let mut mgr = make_mgr().with_constraint_store(exclusive());
    let subj = StringSubject::new("user1");
    mgr.assignment_store_mut().assign_role(&subj, "admin").unwrap();
    mgr.assignment_store_mut().assign_role(&subj, "auditor").unwrap();

    let result = mgr.create_session(&subj, roles(&["admin", "auditor"]), HOUR);

    assert!(result.is_err());
}

#[test]
fn test_dsd_constraint_on_activate() {
    let mut mgr = make_mgr().with_constraint_store(exclusive());
    let subj = StringSubject::new("user1");
    mgr.assignment_store_mut().assign_role(&subj, "admin").unwrap();
    mgr.assignment_store_mut().assign_role(&subj, "auditor").unwrap();

    let session = mgr.create_session(&subj, roles(&["admin"]), HOUR).unwrap();

    assert!(mgr.activate_role(session.id, "auditor").is_err());
    let got = mgr.get_session(session.id).unwrap();
    assert!(has(&got.active_roles, "admin") && !has(&got.active_roles, "auditor"));
}

#[test]
fn test_shared_store_identity() {
    let mgr = make_mgr();
    let s1 = mgr.assignment_store();
    let s2 = mgr.assignment_store();
    assert!(std::ptr::eq(s1, s2));
}

#[test]
fn test_session_expiry() {
    let mut mgr = make_mgr();
    let subj = StringSubject::new("user1");
    let now = utc_now();
    let session = mgr
        .create_session_at(&subj, KeySet::new(), 10 * MILLISECOND, fresh_id(), now)
        .unwrap();
    assert!(!session.is_expired_at(now));
    assert!(session.is_expired_at(now + 20 * MILLISECOND));
}

#[test]
fn test_activate_on_expired_session_fails() {
    let mut mgr = make_mgr();
    let subj = StringSubject::new("user1");
    mgr.assignment_store_mut().assign_role(&subj, "admin").unwrap();

    let now = utc_now();
    let session = mgr
        .create_session_at(&subj, KeySet::new(), 10 * MILLISECOND, fresh_id(), now)
        .unwrap();
    assert!(matches!(
        mgr.activate_role_at(session.id, "admin", now + 20 * MILLISECOND),
        Err(KirinoError::SessionExpired)
    ));
}

#[test]
fn test_deactivate_on_expired_session_fails() {
    let mut mgr = make_mgr();
    let subj = StringSubject::new("user1");

    let now = utc_now();
    let session = mgr
        .create_session_at(&subj, roles(&["admin"]), 10 * MILLISECOND, fresh_id(), now)
        .unwrap();
    assert!(matches!(
        mgr.deactivate_role_at(session.id, "admin", now + 20 * MILLISECOND),
        Err(KirinoError::SessionExpired)
    ));
}

#[test]
fn test_activate_invalid_session_fails() {
    let mut mgr = make_mgr();
    assert!(matches!(mgr.activate_role(fresh_id(), "admin"), Err(KirinoError::SessionNotFound)));
}

#[test]
fn test_deactivate_invalid_session_fails() {
    let mut mgr = make_mgr();
    assert!(matches!(mgr.deactivate_role(fresh_id(), "admin"), Err(KirinoError::SessionNotFound)));
}

#[test]
fn test_deactivate_role_not_in_set_is_noop() {
    let mut mgr = make_mgr();
    let subj = StringSubject::new("user1");
    mgr.assignment_store_mut().assign_role(&subj, "admin").unwrap();

    let session = mgr.create_session(&subj, roles(&["admin"]), HOUR).unwrap();

    mgr.deactivate_role(session.id, "viewer").unwrap();
    let got = mgr.get_session(session.id).unwrap();
    assert!(has(&got.active_roles, "admin"));
}

#[test]
fn test_cleanup_expired() {
    let mut mgr = make_mgr();
    let subj = StringSubject::new("user1");

    let now = utc_now();
    let s1 = mgr
        .create_session_at(&subj, KeySet::new(), 10 * MILLISECOND, fresh_id(), now)
        .unwrap();
    let _s2 = mgr.create_session_at(&subj, KeySet::new(), HOUR, fresh_id(), now).unwrap();

    assert!(mgr.get_session(s1.id).is_some());

    let removed = mgr.cleanup_expired_at(now + 20 * MILLISECOND);
    assert_eq!(removed, 1);
    assert!(mgr.get_session(s1.id).is_none());
}

#[test]
fn test_cleanup_no_expired() {
    let mut mgr = make_mgr();
    let subj = StringSubject::new("user1");
    mgr.create_session(&subj, KeySet::new(), HOUR).unwrap();
    mgr.create_session(&subj, KeySet::new(), 2 * HOUR).unwrap();
    assert_eq!(mgr.cleanup_expired(), 0);
}

#[test]
fn test_destroy_invalid_session_is_ok() {
    let mut mgr = make_mgr();
    mgr.destroy_session(fresh_id());
    let keeper_subj = StringSubject::new("keeper");
    let keeper = mgr.create_session(&keeper_subj, KeySet::new(), HOUR).unwrap();
    mgr.destroy_session(fresh_id());
    assert!(
        mgr.get_session(keeper.id).is_some(),
        "destroying an unrelated session id must not evict other sessions"
    );
}

#[test]
fn the_end_of_a_session_still_belongs_to_it() {
    let mut mgr = make_mgr();
    let subj = StringSubject::new("user1");
    let session = mgr.create_session_at(&subj, KeySet::new(), 10, 1, 100).unwrap();
    assert_eq!(session.expires_at, 110);
    assert!(!session.is_expired_at(110));
    assert!(session.is_expired_at(111));
}

#[test]
fn a_bump_makes_older_sessions_stale() {
    let mut mgr = make_mgr();
    let subj = StringSubject::new("user1");
    let other = StringSubject::new("user2");
    let before = mgr.create_session_at(&subj, KeySet::new(), HOUR, 1, 0).unwrap();
    assert_eq!(before.version, mgr.current_version(&subj));
    let bumped = mgr.bump_version_for_subject(&subj);
    assert_eq!(bumped, before.version + 1);
    assert_eq!(mgr.current_version(&subj), bumped);
    assert_eq!(mgr.current_version(&other), before.version);
    let after = mgr.create_session_at(&subj, KeySet::new(), HOUR, 2, 0).unwrap();
    assert_eq!(after.version, bumped);
}

#[test]
fn revoking_a_subject_destroys_its_sessions_only() {
    let mut mgr = make_mgr();
    let subj = StringSubject::new("user1");
    let other = StringSubject::new("user2");
    mgr.create_session_at(&subj, KeySet::new(), HOUR, 1, 0).unwrap();
    mgr.create_session_at(&subj, KeySet::new(), HOUR, 2, 0).unwrap();
    mgr.create_session_at(&other, KeySet::new(), HOUR, 3, 0).unwrap();
    assert_eq!(mgr.revoke_all_for_subject(&subj), 2);
    assert!(mgr.get_session(1).is_none());
    assert!(mgr.get_session(2).is_none());
    assert!(mgr.get_session(3).is_some());
    assert_eq!(mgr.revoke_all_for_subject(&subj), 0);
}

#[test]
fn a_set_of_roles_is_checked_against_every_policy() {
    let store = exclusive();
    assert!(validate_dsd_with_store(&roles(&["admin", "viewer"]), &store).is_ok());
    assert!(matches!(
        validate_dsd_with_store(&roles(&["admin", "auditor"]), &store),
        Err(KirinoError::ConstraintViolation(_))
    ));
}

/// A store that cannot be read.
struct Down;

impl AssignmentStore<StringSubject, TestPerm> for Down {
    fn roles_of(&self, _: &StringSubject) -> Result<Vec<String>, KirinoError> {
        Err(KirinoError::Store("down".to_string()))
    }

    fn extra_permissions(&self, _: &StringSubject) -> Result<KeySet<TestPerm>, KirinoError> {
        Err(KirinoError::Store("down".to_string()))
    }

    fn denied_permissions(&self, _: &StringSubject) -> Result<KeySet<TestPerm>, KirinoError> {
        Err(KirinoError::Store("down".to_string()))
    }

    fn assign_role(&mut self, _: &StringSubject, _: &str) -> Result<(), KirinoError> {
        Err(KirinoError::Store("down".to_string()))
    }

    fn revoke_role(&mut self, _: &StringSubject, _: &str) -> Result<(), KirinoError> {
        Err(KirinoError::Store("down".to_string()))
    }

    fn subjects_with_role(&self, _: &str) -> Result<Vec<String>, KirinoError> {
        Err(KirinoError::Store("down".to_string()))
    }

    fn set_extra_permissions(&mut self, _: &StringSubject, _: KeySet<TestPerm>) -> Result<(), KirinoError> {
        Err(KirinoError::Store("down".to_string()))
    }

    fn set_denied_permissions(&mut self, _: &StringSubject, _: KeySet<TestPerm>) -> Result<(), KirinoError> {
        Err(KirinoError::Store("down".to_string()))
    }
}

#[test]
fn no_session_is_made_when_the_roles_cannot_be_read() {
    let mut mgr: InMemorySessionManager<StringSubject, TestPerm, Down, InMemoryConstraintStore> =
        InMemorySessionManager::new(Down);
    let subj = StringSubject::new("user1");
    assert!(matches!(
        mgr.create_session_at(&subj, roles(&["admin"]), HOUR, 1, 0),
        Err(KirinoError::Store(_))
    ));
    assert!(mgr.get_session(1).is_none());
}

#[test]
fn a_text_subject_is_its_text() {
    let subj = StringSubject::new("user1");
    assert_eq!(subj.subject_id(), "user1");
    assert_eq!(subj.subject_type(), "user");
    assert_eq!(subj.text(), "user1");
    assert!(StringSubject::from_subject_id("user1").same(&subj));
    assert!(!StringSubject::new("user2").same(&subj));
}

#[test]
fn a_session_that_ended_before_it_began_is_over_by_the_clock() {
    let mut mgr = make_mgr();
    let subj = StringSubject::new("user1");
    mgr.assignment_store_mut().assign_role(&subj, "admin").unwrap();
    mgr.assignment_store_mut().assign_role(&subj, "viewer").unwrap();
    let over = mgr.create_session(&subj, roles(&["admin"]), -HOUR).unwrap();
    let live = mgr.create_session(&subj, roles(&["admin"]), HOUR).unwrap();

    assert!(over.is_expired());
    assert!(!live.is_expired());
    assert!(matches!(mgr.activate_role(over.id, "viewer"), Err(KirinoError::SessionExpired)));
    assert!(matches!(mgr.deactivate_role(over.id, "admin"), Err(KirinoError::SessionExpired)));
    assert!(mgr.activate_role(live.id, "viewer").is_ok());
    assert!(mgr.deactivate_role(live.id, "admin").is_ok());

    assert_eq!(mgr.cleanup_expired(), 1);
    assert!(mgr.get_session(over.id).is_none());
    assert!(mgr.get_session(live.id).is_some());
    assert_eq!(mgr.cleanup_expired(), 0);
}

#[test]
fn a_session_is_dated_by_the_clock() {
    let mut mgr = make_mgr();
    let before = utc_now();
    let session = mgr.create_session(&StringSubject::new("user1"), roles(&[]), HOUR).unwrap();
    let after = utc_now();
    assert!(before <= session.created_at && session.created_at <= after);
    assert_eq!(session.expires_at, session.created_at + HOUR);
}
