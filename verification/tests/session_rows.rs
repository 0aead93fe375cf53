//! Sessions that are kept as rows, planned from what was read.
use kirino::collections::KeySet;
use kirino::error::KirinoError;
use kirino::rbac::constraints::policies::DsdPolicy;
use kirino::rbac::constraints::store::{ConstraintStore, InMemoryConstraintStore};
use kirino::rbac::memory::InMemoryAssignmentStore;
use kirino::rbac::session_db::{
    begin_activation, bumped_version, finish_activation, plan_deactivation, plan_session,
    recorded_version, row_subject, session_of_row, DbSessionManager, PersistentSessionStore, SessionRow,
};
use kirino::collections::Key;
use kirino::rbac::subject::StringSubject;
use kirino::rbac::traits::{AssignmentStore, Permission, Subject};
use std::cell::Cell;
use std::rc::Rc;

fn roles(items: &[&str]) -> KeySet<String> {
    KeySet::from_items(&texts(items))
}

fn texts(items: &[&str]) -> Vec<String> {
    items.iter().map(|s| s.to_string()).collect()
}

fn exclusive() -> Option<InMemoryConstraintStore> {
    let mut store = InMemoryConstraintStore::new();
    store.add_dsd_policy(DsdPolicy::new("exclusive", roles(&["admin", "auditor"]), 2)).unwrap();
    Some(store)
}

fn row(active: &[&str]) -> SessionRow {
    SessionRow {
        id: 9,
        subject_id: "user1".to_string(),
        active_roles: texts(active),
        context: None,
        version: 3,
        expires_at: 100,
        created_at: 0,
    }
}

#[test]
fn a_planned_session_and_its_row_agree() {
    let subject = StringSubject::new("user1");
    let (session, row) = plan_session(
        &subject,
        &roles(&["admin", "ghost"]),
        Ok(texts(&["admin", "viewer"])),
        &exclusive(),
        50,
        9,
        10,
    )
    .unwrap();
    assert_eq!(session.id, 9);
    assert_eq!((session.created_at, session.expires_at), (10, 60));
    assert_eq!(row.active_roles, texts(&["admin"]));
    assert_eq!(row.subject_id, "user1");
    assert_eq!(row.version, 0);
    let again = session_of_row(row, StringSubject::new("user1"));
    assert_eq!(again.active_roles.len(), session.active_roles.len());
    assert_eq!(again.expires_at, session.expires_at);
}

#[test]
fn a_plan_is_refused_by_the_policies_and_by_a_failed_read() {
    let subject = StringSubject::new("user1");
    let both = texts(&["admin", "auditor"]);
    assert!(matches!(
        plan_session(&subject, &roles(&["admin", "auditor"]), Ok(both), &exclusive(), 50, 9, 10),
        Err(KirinoError::ConstraintViolation(_))
    ));
    let down = Err(KirinoError::Store("down".to_string()));
    assert!(matches!(
        plan_session(&subject, &roles(&["admin"]), down, &exclusive(), 50, 9, 10),
        Err(KirinoError::Store(_))
    ));
}

#[test]
fn an_activation_goes_on_only_where_it_is_needed() {
    assert!(matches!(begin_activation(None, "admin", 0), Err(KirinoError::SessionNotFound)));
    let r = row(&["viewer"]);
    assert!(matches!(begin_activation(Some(&r), "admin", 101), Err(KirinoError::SessionExpired)));
    assert!(begin_activation(Some(&r), "admin", 100).unwrap());
    assert!(!begin_activation(Some(&r), "viewer", 100).unwrap());
}

#[test]
fn an_activation_needs_the_assignment_and_the_policies() {
    let r = row(&["admin"]);
    let assigned = || Ok(texts(&["admin", "auditor", "viewer"]));
    let list = finish_activation(&r, "viewer", assigned(), &exclusive()).unwrap();
    assert_eq!(list.len(), 2);
    assert!(matches!(
        finish_activation(&r, "auditor", assigned(), &exclusive()),
        Err(KirinoError::ConstraintViolation(_))
    ));
    match finish_activation(&r, "ghost", assigned(), &exclusive()) {
        Err(KirinoError::NotFound(text)) => assert_eq!(text, "role 'ghost' not assigned to subject"),
        _ => panic!("an unassigned role was activated"),
    }
}

#[test]
fn a_deactivation_takes_one_role_away() {
    let r = row(&["admin", "viewer"]);
    assert_eq!(plan_deactivation(Some(&r), "admin", 0).unwrap(), texts(&["viewer"]));
    assert_eq!(plan_deactivation(Some(&r), "ghost", 0).unwrap().len(), 2);
    assert!(matches!(plan_deactivation(Some(&r), "admin", 101), Err(KirinoError::SessionExpired)));
    assert!(matches!(plan_deactivation(None, "admin", 0), Err(KirinoError::SessionNotFound)));
}

#[test]
fn a_row_with_an_unreadable_subject_is_refused() {
    let r = row(&[]);
    let subject = StringSubject::try_from_subject_id("user1");
    assert_eq!(row_subject(&r, r.id, subject).unwrap().subject_id(), "user1");
    let failed: Result<StringSubject, KirinoError> = Err(KirinoError::SessionExpired);
    match row_subject(&r, 10, Err::<StringSubject, KirinoError>(KirinoError::SessionExpired)) {
        Err(KirinoError::Store(text)) => assert!(text.contains("in session 00000000-0000-0000-0000-00000000000a: ")),
        _ => panic!("an unreadable subject was accepted"),
    }
    match row_subject(&r, r.id, failed) {
        Err(KirinoError::Store(text)) => assert_eq!(
            text,
            "invalid subject_id 'user1' in session 00000000-0000-0000-0000-000000000009: session expired"
        ),
        _ => panic!("an unreadable subject was accepted"),
    }
}

#[test]
fn a_version_counts_on_and_starts_at_zero() {
    assert_eq!(recorded_version(None), 0);
    assert_eq!(recorded_version(Some(&row(&[]))), 3);
    assert_eq!(bumped_version(3), 4);
}

struct Any;

impl Key for Any {
    type Id = ();

    fn same(&self, _other: &Self) -> bool {
        true
    }

    fn duplicate(&self) -> Self {
        Any
    }
}

impl Permission for Any {
    fn identity_fixes_texts(_: &Self, _: &Self) {}

    fn name(&self) -> &str {
        "any"
    }

    fn domain(&self) -> &str {
        "any"
    }

    fn ancestry_names(&self) -> Vec<&str> {
        Vec::new()
    }

    fn is_branch(&self) -> bool {
        false
    }
}

fn copy(row: &SessionRow) -> SessionRow {
    SessionRow {
        id: row.id,
        subject_id: row.subject_id.clone(),
        active_roles: row.active_roles.clone(),
        context: row.context.clone(),
        version: row.version,
        expires_at: row.expires_at,
        created_at: row.created_at,
    }
}

struct Rows {
    rows: Vec<SessionRow>,
    versions: Vec<(String, u64)>,
    /// How many of the next writes fail.
    failing: usize,
    /// How many writes were asked for.
    asked: Rc<Cell<usize>>,
}

impl Rows {
    fn write(&mut self) -> Result<(), KirinoError> {
        self.asked.set(self.asked.get() + 1);
        if self.failing > 0 {
            self.failing -= 1;
            return Err(KirinoError::Store("busy".to_string()));
        }
        Ok(())
    }
}

impl PersistentSessionStore for Rows {
    fn save_session(&mut self, row: &SessionRow) -> Result<(), KirinoError> {
        self.write()?;
        self.rows.retain(|r| r.id != row.id);
        self.rows.push(copy(row));
        Ok(())
    }

    fn load_session(&self, id: u128) -> Result<Option<SessionRow>, KirinoError> {
        Ok(self.rows.iter().find(|r| r.id == id).map(copy))
    }

    fn delete_session(&mut self, id: u128) -> Result<(), KirinoError> {
        self.rows.retain(|r| r.id != id);
        Ok(())
    }

    fn update_roles(&mut self, id: u128, active_roles: &Vec<String>) -> Result<(), KirinoError> {
        for row in &mut self.rows {
            if row.id == id {
                row.active_roles = active_roles.clone();
            }
        }
        Ok(())
    }

    fn cleanup_expired(&mut self) -> Result<usize, KirinoError> {
        let before = self.rows.len();
        self.rows.retain(|r| r.expires_at >= 1_000);
        Ok(before - self.rows.len())
    }

    fn load_session_metadata(&self, subject_id: &str) -> Result<Option<SessionRow>, KirinoError> {
        Ok(self.versions.iter().find(|(id, _)| id == subject_id).map(|(id, version)| {
            let mut found = row(&[]);
            found.subject_id = id.clone();
            found.version = *version;
            found
        }))
    }

    fn bump_version(&mut self, subject_id: &str, version: u64) -> Result<(), KirinoError> {
        self.write()?;
        self.versions.retain(|(id, _)| id != subject_id);
        self.versions.push((subject_id.to_string(), version));
        Ok(())
    }
}

type Manager =
    DbSessionManager<StringSubject, Any, InMemoryAssignmentStore<StringSubject, Any>, InMemoryConstraintStore, Rows>;

fn manager(assigned: &[&str]) -> Manager {
    failing(assigned, 0).0
}

fn failing(assigned: &[&str], failing: usize) -> (Manager, Rc<Cell<usize>>) {
    let mut store = InMemoryAssignmentStore::new();
    for role in assigned {
        store.assign_role(&StringSubject::new("user1"), role).unwrap();
    }
    let asked = Rc::new(Cell::new(0));
    let rows = Rows { rows: Vec::new(), versions: Vec::new(), failing, asked: asked.clone() };
    (DbSessionManager::new(rows, store).with_constraint_store(exclusive().unwrap()), asked)
}

fn active(manager: &Manager, id: u128) -> Vec<String> {
    let mut names = manager.get_session(id).unwrap().unwrap().active_roles.to_items();
    names.sort();
    names
}

#[test]
fn a_session_in_the_database_is_found_with_its_roles() {
    let subject = StringSubject::new("user1");
    let mut sessions = manager(&["viewer", "editor"]);
    let made = sessions.create_session_at(&subject, roles(&["viewer", "ghost"]), 50, 7, 10).unwrap();
    assert_eq!((made.id, made.version, made.expires_at), (7, 0, 60));
    assert_eq!(active(&sessions, 7), texts(&["viewer"]));
    sessions.activate_role_at(7, "editor", 60).unwrap();
    assert_eq!(active(&sessions, 7), texts(&["editor", "viewer"]));
    sessions.deactivate_role_at(7, "viewer", 60).unwrap();
    assert_eq!(active(&sessions, 7), texts(&["editor"]));
    assert!(matches!(sessions.activate_role_at(7, "viewer", 61), Err(KirinoError::SessionExpired)));
    assert!(matches!(sessions.deactivate_role_at(7, "editor", 61), Err(KirinoError::SessionExpired)));
    assert!(matches!(sessions.activate_role_at(8, "viewer", 0), Err(KirinoError::SessionNotFound)));
    assert!(matches!(sessions.activate_role_at(7, "ghost", 0), Err(KirinoError::NotFound(_))));
    sessions.destroy_session(7).unwrap();
    assert!(sessions.get_session(7).unwrap().is_none());
    sessions.destroy_session(7).unwrap();
}

#[test]
fn the_database_keeps_exclusive_roles_apart() {
    let subject = StringSubject::new("user1");
    let mut sessions = manager(&["admin", "auditor"]);
    let refused = sessions.create_session_at(&subject, roles(&["admin", "auditor"]), 50, 7, 10);
    assert!(matches!(refused, Err(KirinoError::ConstraintViolation(_))));
    assert!(sessions.get_session(7).unwrap().is_none());
    sessions.create_session_at(&subject, roles(&["admin"]), 50, 7, 10).unwrap();
    assert!(matches!(sessions.activate_role_at(7, "auditor", 20), Err(KirinoError::ConstraintViolation(_))));
    assert_eq!(active(&sessions, 7), texts(&["admin"]));
}

#[test]
fn revoking_everything_takes_the_roles_and_leaves_the_sessions() {
    let subject = StringSubject::new("user1");
    let mut sessions = manager(&["viewer", "editor"]);
    sessions.create_session_at(&subject, roles(&["viewer"]), 50, 7, 10).unwrap();
    assert_eq!(sessions.revoke_all_for_subject(&subject).unwrap(), 2);
    assert!(sessions.assignment_store().roles_of(&subject).unwrap().is_empty());
    assert_eq!(active(&sessions, 7), texts(&["viewer"]));
    assert!(matches!(sessions.activate_role_at(7, "editor", 20), Err(KirinoError::NotFound(_))));
    assert_eq!(sessions.revoke_all_for_subject(&subject).unwrap(), 0);
}

#[test]
fn versions_in_the_database_count_up_from_zero() {
    let subject = StringSubject::new("user1");
    let mut sessions = manager(&[]);
    assert_eq!(sessions.current_version(&subject).unwrap(), 0);
    assert_eq!(sessions.bump_version_for_subject(&subject).unwrap(), 1);
    assert_eq!(sessions.bump_version_for_subject(&subject).unwrap(), 2);
    assert_eq!(sessions.current_version(&subject).unwrap(), 2);
    assert_eq!(sessions.current_version(&StringSubject::new("user2")).unwrap(), 0);
}

#[test]
fn ended_rows_are_cleaned_up_and_counted() {
    let subject = StringSubject::new("user1");
    let mut sessions = manager(&[]);
    sessions.create_session_at(&subject, roles(&[]), 50, 7, 10).unwrap();
    sessions.create_session_at(&subject, roles(&[]), 5_000, 8, 10).unwrap();
    assert_eq!(sessions.cleanup_expired().unwrap(), 1);
    assert!(sessions.get_session(7).unwrap().is_none());
    assert!(sessions.get_session(8).unwrap().is_some());
    let fresh = sessions.create_session(&subject, roles(&[]), 1_000_000_000).unwrap();
    assert_eq!(fresh.expires_at - fresh.created_at, 1_000_000_000);
    sessions.activate_role(fresh.id, "viewer").unwrap_err();
    sessions.deactivate_role(fresh.id, "viewer").unwrap();
}

#[test]
fn a_session_in_the_database_is_over_by_the_clock() {
    let mut mgr = manager(&["admin", "viewer"]);
    let subject = StringSubject::new("user1");
    let over = mgr.create_session(&subject, roles(&["admin"]), -3_600_000_000_000).unwrap();
    assert!(over.is_expired());
    assert!(matches!(mgr.activate_role(over.id, "viewer"), Err(KirinoError::SessionExpired)));
    assert!(matches!(mgr.deactivate_role(over.id, "admin"), Err(KirinoError::SessionExpired)));
    let live = mgr.create_session(&subject, roles(&["admin"]), 3_600_000_000_000).unwrap();
    assert!(mgr.deactivate_role(live.id, "admin").is_ok());
}

#[test]
fn a_row_that_is_not_saved_is_no_session_and_is_not_tried_again() {
    let subject = StringSubject::new("user1");
    let (mut sessions, asked) = failing(&["viewer"], 1);
    let refused = sessions.create_session_at(&subject, roles(&["viewer"]), 50, 7, 10);
    assert!(matches!(refused, Err(KirinoError::Store(why)) if why == "busy"));
    assert_eq!(asked.get(), 1);
    assert!(sessions.get_session(7).unwrap().is_none());
    sessions.create_session_at(&subject, roles(&["viewer"]), 50, 7, 10).unwrap();
    assert_eq!(asked.get(), 2);
    assert_eq!(active(&sessions, 7), texts(&["viewer"]));
}

#[test]
fn a_version_that_is_not_recorded_is_not_tried_again() {
    let subject = StringSubject::new("user1");
    let (mut sessions, asked) = failing(&[], 1);
    assert!(matches!(sessions.bump_version_for_subject(&subject), Err(KirinoError::Store(why)) if why == "busy"));
    assert_eq!(asked.get(), 1);
    assert_eq!(sessions.current_version(&subject).unwrap(), 0);
    assert_eq!(sessions.bump_version_for_subject(&subject).unwrap(), 1);
    assert_eq!(asked.get(), 2);
}
