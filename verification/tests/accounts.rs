//! Accounts from registration to removal, on a store in memory.
use kirino::collections::Key;
use kirino::error::KirinoError;
use kirino::rbac::constraints::store::InMemoryConstraintStore;
use kirino::rbac::memory::InMemoryAssignmentStore;
use kirino::rbac::session::{InMemorySessionManager, SessionManager};
use kirino::rbac::subject::StringSubject;
use kirino::rbac::traits::{AssignmentStore, Permission};
use kirino::service::login::accounts::{SignedIn, UserDatabase, DUMMY_HASH};
use kirino::service::login::auth::AuthService;
use kirino::service::login::default_engine::{build_default_engine, DefaultEngine};
use kirino::service::login::users::{LoginResult, PasswordHash, UserInfo, UserRecord};
use std::cell::RefCell;
use uuid::Uuid;

#[derive(Clone, Copy)]
struct Perm(&'static str);

impl Key for Perm {
    type Id = ();

    fn same(&self, other: &Self) -> bool {
        self.0 == other.0
    }

    fn duplicate(&self) -> Self {
        *self
    }
}

impl Permission for Perm {
    fn identity_fixes_texts(_: &Self, _: &Self) {}

    fn name(&self) -> &str {
        self.0
    }

    fn domain(&self) -> &str {
        self.0.split('.').next().unwrap_or("")
    }

    fn ancestry_names(&self) -> Vec<&str> {
        Vec::new()
    }

    fn is_branch(&self) -> bool {
        false
    }
}

fn copy(user: &UserRecord) -> UserRecord {
    UserRecord {
        id: user.id,
        username: user.username.clone(),
        password_hash: PasswordHash::new(user.password_hash.as_str().to_string()),
        display_name: user.display_name.clone(),
        is_active: user.is_active,
        identity: user.identity,
        created_at: user.created_at,
        updated_at: user.updated_at,
    }
}

struct Users {
    rows: Vec<UserRecord>,
    down: bool,
    /// How many of the next accounts cannot be added.
    failing: usize,
    /// How many accounts were to be added.
    asked: usize,
}

impl Users {
    fn up(&self) -> Result<(), KirinoError> {
        if self.down {
            Err(KirinoError::Store("down".to_string()))
        } else {
            Ok(())
        }
    }
}

impl UserDatabase for Users {
    fn create_user(&mut self, user: &UserRecord) -> Result<(), KirinoError> {
        self.up()?;
        self.asked += 1;
        if self.failing > 0 {
            self.failing -= 1;
            return Err(KirinoError::Store("busy".to_string()));
        }
        self.rows.push(copy(user));
        Ok(())
    }

    fn find_by_username(&self, username: &str) -> Result<Option<UserRecord>, KirinoError> {
        self.up()?;
        Ok(self.rows.iter().find(|u| u.username == username).map(copy))
    }

    fn find_by_id(&self, id: u128) -> Result<Option<UserRecord>, KirinoError> {
        self.up()?;
        Ok(self.rows.iter().find(|u| u.id == id).map(copy))
    }

    fn update_password(&mut self, id: u128, new_hash: &str) -> Result<(), KirinoError> {
        self.up()?;
        for user in &mut self.rows {
            if user.id == id {
                user.password_hash = PasswordHash::new(new_hash.to_string());
            }
        }
        Ok(())
    }

    fn delete_user(&mut self, id: u128) -> Result<bool, KirinoError> {
        self.up()?;
        let before = self.rows.len();
        self.rows.retain(|u| u.id != id);
        Ok(self.rows.len() < before)
    }

    fn list_users(&self) -> Result<Vec<UserRecord>, KirinoError> {
        self.up()?;
        Ok(self.rows.iter().map(copy).collect())
    }

    fn count_users(&self) -> Result<u64, KirinoError> {
        self.up()?;
        Ok(self.rows.len() as u64)
    }
}

fn hash(password: &str) -> Result<String, KirinoError> {
    Ok(format!("hash of {password}"))
}

fn verify(password: &str, hash: &str) -> Result<bool, KirinoError> {
    Ok(hash == format!("hash of {password}"))
}

fn issue(who: &SignedIn) -> Result<String, KirinoError> {
    Ok(format!("{}:{}:{}", who.user.username, who.roles.join(","), who.permissions.len()))
}

struct Service {
    auth: AuthService,
    db: Users,
    engine: DefaultEngine<Perm>,
    revoked: RefCell<Vec<String>>,
}

impl Service {
    fn new() -> Self {
        let all = vec![Perm("system.write"), Perm("agent.list"), Perm("agent.use")];
        Service {
            auth: AuthService::new("admin", "viewer").with_auto_admin_first_user(true),
            db: Users { rows: Vec::new(), down: false, failing: 0, asked: 0 },
            engine: build_default_engine(&all),
            revoked: RefCell::new(Vec::new()),
        }
    }

    fn register(&mut self, username: &str, password: &str, display: Option<&str>) -> Result<UserInfo, KirinoError> {
        self.auth.register(&mut self.db, &mut self.engine, username, password, display, hash, 0)
    }

    fn login(&mut self, username: &str, password: &str) -> Result<LoginResult, KirinoError> {
        self.auth.login(&self.db, &self.engine, username, password, verify, issue, 0)
    }

    fn change_password(&mut self, user_id: &str, old: &str, new: &str) -> Result<(), KirinoError> {
        let revoked = &self.revoked;
        let revoke = |id: &str| revoked.borrow_mut().push(id.to_string());
        self.auth.change_password(&mut self.db, user_id, old, new, verify, hash, revoke)
    }

    fn delete_user(&mut self, user_id: &str) -> Result<bool, KirinoError> {
        let revoked = &self.revoked;
        let revoke = |id: &str| revoked.borrow_mut().push(id.to_string());
        self.auth.delete_user(&mut self.db, user_id, revoke)
    }

    fn can(&mut self, user_id: u128, permission: &'static str) -> bool {
        self.auth.check_permission(&mut self.engine, &text(user_id), &Perm(permission), 0)
    }
}

fn text(id: u128) -> String {
    Uuid::from_u128(id).to_string()
}

#[test]
fn test_weak_password() {
    let mut service = Service::new();
    assert!(service.register("alice", "short", None).is_err());
    assert!(service.register("", "password123", None).is_err());
    assert!(service.db.rows.is_empty());
}

#[test]
fn whoever_registers_can_log_in() {
    let mut service = Service::new();
    let user = service.register(" alice ", "Password123", Some("Alice")).unwrap();
    assert_eq!(user.username, "alice");
    assert_eq!(user.display_name, Some("Alice".to_string()));
    let result = service.login("alice", "Password123").unwrap();
    assert_eq!(result.username, "alice");
    assert_eq!(result.user_id, text(user.id));
    assert_eq!(result.token, "alice:admin:3");
    assert_eq!(result.session_id, None);
}

#[test]
fn the_first_user_is_admin_and_the_second_is_not() {
    let mut service = Service::new();
    let first = service.register("admin", "Password123", None).unwrap();
    let second = service.register("viewer", "Password123", None).unwrap();
    let roles = |service: &Service, id: u128| {
        service.engine.assignment_store().roles_of(&StringSubject::new(&text(id))).unwrap()
    };
    assert_eq!(roles(&service, first.id), vec!["admin".to_string()]);
    assert_eq!(roles(&service, second.id), vec!["viewer".to_string()]);
    assert!(service.can(first.id, "system.write"));
    assert!(service.can(second.id, "agent.list"));
    assert!(!service.can(second.id, "system.write"));
}

#[test]
fn a_wrong_password_and_an_unknown_name_are_refused_alike() {
    let mut service = Service::new();
    service.register("alice", "Password123", None).unwrap();
    assert!(matches!(service.login("alice", "wrong"), Err(KirinoError::AuthenticationFailed)));
    assert!(matches!(service.login("ghost", "wrong"), Err(KirinoError::AuthenticationFailed)));
    service.db.rows[0].is_active = false;
    assert!(matches!(service.login("alice", "Password123"), Err(KirinoError::AuthenticationFailed)));
}

#[test]
fn every_login_pays_for_one_check() {
    let mut service = Service::new();
    service.register("alice", "Password123", None).unwrap();
    let seen: RefCell<Vec<String>> = RefCell::new(Vec::new());
    let counting = |password: &str, hash: &str| {
        seen.borrow_mut().push(hash.to_string());
        verify(password, hash)
    };
    let _ = service.auth.login(&service.db, &service.engine, "ghost", "x", counting, issue, 0);
    let _ = service.auth.login(&service.db, &service.engine, "alice", "x", counting, issue, 0);
    service.db.rows[0].is_active = false;
    let _ = service.auth.login(&service.db, &service.engine, "alice", "x", counting, issue, 0);
    assert_eq!(*seen.borrow(), vec![DUMMY_HASH.to_string(), hash("Password123").unwrap(), hash("Password123").unwrap()]);
}

#[test]
fn a_changed_password_replaces_the_old_one() {
    let mut service = Service::new();
    let id = text(service.register("alice", "Old_password1", None).unwrap().id);
    assert!(matches!(service.change_password("nobody", "Old_password1", "New_password1"), Err(KirinoError::Validation(_))));
    assert!(matches!(
        service.change_password(&text(1), "Old_password1", "New_password1"),
        Err(KirinoError::NotFound(_))
    ));
    assert!(matches!(
        service.change_password(&id, "wrong", "New_password1"),
        Err(KirinoError::AuthenticationFailed)
    ));
    assert!(matches!(service.change_password(&id, "Old_password1", "short"), Err(KirinoError::Validation(_))));
    assert!(service.revoked.borrow().is_empty());
    service.change_password(&id, "Old_password1", "New_password1").unwrap();
    assert_eq!(*service.revoked.borrow(), vec![id]);
    assert!(service.login("alice", "Old_password1").is_err());
    assert!(service.login("alice", "New_password1").is_ok());
}

#[test]
fn a_removed_account_cannot_log_in() {
    let mut service = Service::new();
    let user = service.register("alice", "Password123", None).unwrap();
    let id = text(user.id);
    assert!(matches!(service.delete_user("nobody"), Err(KirinoError::Validation(_))));
    assert!(service.revoked.borrow().is_empty());
    assert!(service.delete_user(&id).unwrap());
    assert_eq!(*service.revoked.borrow(), vec![id.clone()]);
    assert!(!service.delete_user(&id).unwrap());
    assert!(service.login("alice", "Password123").is_err());
}

#[test]
fn a_name_is_taken_once() {
    let mut service = Service::new();
    service.register("alice", "Password123", None).unwrap();
    let again = service.register("alice", "Password456", None);
    assert!(matches!(again, Err(KirinoError::Validation(text)) if text == "username already exists"));
    assert_eq!(service.db.rows.len(), 1);
    service.register("bob", "Password123", None).unwrap();
    let names: Vec<String> = service.auth.list_users(&service.db).unwrap().into_iter().map(|u| u.username).collect();
    assert_eq!(names, vec!["alice".to_string(), "bob".to_string()]);
}

#[test]
fn failures_count_against_a_name_until_one_succeeds() {
    let mut service = Service::new();
    service.register("alice", "Password123", None).unwrap();
    for _ in 0..4 {
        assert!(service.login("alice", "wrong").is_err());
    }
    assert!(service.login(" alice", "Password123").is_ok());
    for _ in 0..5 {
        assert!(matches!(service.login("alice", "wrong"), Err(KirinoError::AuthenticationFailed)));
    }
    assert!(matches!(service.login("alice", "Password123"), Err(KirinoError::Validation(_))));
}

#[test]
fn the_failure_of_a_store_is_handed_on() {
    let mut service = Service::new();
    service.register("alice", "Password123", None).unwrap();
    service.db.down = true;
    assert!(matches!(service.login("alice", "Password123"), Err(KirinoError::Store(why)) if why == "down"));
    assert!(matches!(service.register("bob", "Password123", None), Err(KirinoError::Store(why)) if why == "down"));
    assert!(matches!(service.auth.list_users(&service.db), Err(KirinoError::Store(why)) if why == "down"));
    service.db.down = false;
    let refused = service.auth.login(
        &service.db,
        &service.engine,
        "alice",
        "Password123",
        verify,
        |_: &SignedIn| Err(KirinoError::Store("no tokens".to_string())),
        0,
    );
    assert!(matches!(refused, Err(KirinoError::Store(why)) if why == "no tokens"));
}

type Sessions =
    InMemorySessionManager<StringSubject, Perm, InMemoryAssignmentStore<StringSubject, Perm>, InMemoryConstraintStore>;

const HOUR: i128 = 3_600_000_000_000;

fn issue_in(who: &SignedIn, session: &str) -> Result<String, KirinoError> {
    Ok(format!("{}@{session}", who.user.username))
}

#[test]
fn a_login_with_a_session_has_every_role_and_ends_with_a_logout() {
    let mut service = Service::new();
    let user = service.register("alice", "Password123", None).unwrap();
    let mut sessions: Sessions = InMemorySessionManager::new(InMemoryAssignmentStore::new());
    let subject = StringSubject::new(&text(user.id));
    sessions.assignment_store_mut().assign_role(&subject, "admin").unwrap();
    let Service { auth, db, engine, .. } = &mut service;

    let refused =
        auth.login_with_session(&*db, &*engine, "alice", "wrong", &mut sessions, HOUR, verify, issue_in, 0);
    assert!(matches!(refused, Err(KirinoError::AuthenticationFailed)));

    let (given, session) = auth
        .login_with_session(&*db, &*engine, " alice", "Password123", &mut sessions, HOUR, verify, issue_in, 0)
        .unwrap();
    assert_eq!(given.session_id, Some(session.id));
    assert_eq!(given.token, format!("alice@{}", text(session.id)));
    assert_eq!(given.roles, vec!["admin".to_string()]);
    assert!(session.active_roles.contains(&"admin".to_string()));
    assert_eq!(session.expires_at - session.created_at, HOUR);

    let kept = SessionManager::get_session(&sessions, session.id).unwrap().unwrap();
    assert_eq!(kept.version, session.version);
    assert!(kept.active_roles.contains(&"admin".to_string()));

    let revoked: RefCell<Vec<String>> = RefCell::new(Vec::new());
    let revoke = |id: &str| revoked.borrow_mut().push(id.to_string());
    auth.logout(&text(user.id), session.id, &mut sessions, revoke).unwrap();
    assert_eq!(*revoked.borrow(), vec![text(session.id)]);
    assert!(SessionManager::get_session(&sessions, session.id).unwrap().is_none());
    auth.logout(&text(user.id), session.id, &mut sessions, revoke).unwrap();
}

#[test]
fn a_session_without_a_token_is_no_login() {
    let mut service = Service::new();
    service.register("alice", "Password123", None).unwrap();
    let mut sessions: Sessions = InMemorySessionManager::new(InMemoryAssignmentStore::new());
    let Service { auth, db, engine, .. } = &mut service;
    let none = |_: &SignedIn, _: &str| Err(KirinoError::Store("no tokens".to_string()));
    let refused =
        auth.login_with_session(&*db, &*engine, "alice", "Password123", &mut sessions, HOUR, verify, none, 0);
    assert!(matches!(refused, Err(KirinoError::Store(why)) if why == "no tokens"));
}

#[test]
fn the_role_of_the_first_user_is_given_once() {
    let mut service = Service::new();
    let first = service.register("first", "Password123", None).unwrap();
    assert!(service.delete_user(&text(first.id)).unwrap());
    assert!(service.db.rows.is_empty());
    let next = service.register("next", "Password123", None).unwrap();
    let roles = service.engine.assignment_store().roles_of(&StringSubject::new(&text(next.id))).unwrap();
    assert_eq!(roles, vec!["viewer".to_string()]);
}

#[test]
fn an_account_that_is_not_written_is_not_tried_again() {
    let mut service = Service::new();
    service.db.failing = 1;
    let refused = service.register("alice", "Password123", None);
    assert!(matches!(refused, Err(KirinoError::Store(why)) if why == "busy"));
    assert_eq!(service.db.asked, 1);
    assert!(service.db.rows.is_empty());
    let user = service.register("alice", "Password123", None).unwrap();
    assert_eq!(service.db.asked, 2);
    let roles = service.engine.assignment_store().roles_of(&StringSubject::new(&text(user.id))).unwrap();
    assert_eq!(roles, vec!["viewer".to_string()]);
}

#[test]
fn a_registration_leaves_the_roles_of_others_alone() {
    let mut service = Service::new();
    let first = service.register("first", "Password123", None).unwrap();
    service.register("second", "Password123", None).unwrap();
    let roles = service.engine.assignment_store().roles_of(&StringSubject::new(&text(first.id))).unwrap();
    assert_eq!(roles, vec!["admin".to_string()]);
}
