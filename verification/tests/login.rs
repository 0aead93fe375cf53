//! Registration, login, and what stands around them.
use kirino::collections::{Key, KeySet};
use kirino::error::KirinoError;
use kirino::rbac::dynamic::anomaly::AnomalyDetector;
use kirino::rbac::dynamic::arbiter::{Arithmetic, AuthorizationArbiter};
use kirino::rbac::dynamic::delegator::Delegator;
use kirino::rbac::dynamic::metrics::{ActionCategory, ActionRequest};
use kirino::rbac::dynamic::policy::default_dynamic_policy;
use kirino::rbac::dynamic::trust::{InMemoryTrustScoreStore, TrustScore};
use kirino::rbac::dynamic::verdict::SubScores;
use kirino::rbac::identity_subject::Identity;
use kirino::rbac::memory::InMemoryAssignmentStore;
use kirino::rbac::subject::StringSubject;
use kirino::rbac::traits::{AssignmentStore, Permission, RoleRegistry};
use kirino::score::Score;
use kirino::service::login::auth::{fetch_user_roles_and_perms, parse_user_id, AuthService};
use kirino::service::login::default_engine::{build_default_engine, DefaultEngine};
use kirino::service::login::rate_limiter::LoginRateLimiter;
use kirino::service::login::users::{list_public, login_result, PasswordHash, UserRecord};
use kirino::time::utc_now;
use uuid::Uuid;

const SECOND: u64 = 1_000_000_000;

#[test]
fn test_rate_limiter_allows_under_max() {
    let mut limiter = LoginRateLimiter::new(3, 300, 900);
    assert!(limiter.check_and_record_failure("user", 0).is_ok());
    assert!(limiter.check_and_record_failure("user", 0).is_ok());
    assert!(limiter.check_and_record_failure("user", 0).is_ok());
}

#[test]
fn test_rate_limiter_blocks_at_max() {
    let mut limiter = LoginRateLimiter::new(3, 300, 900);
    limiter.check_and_record_failure("user", 0).unwrap();
    limiter.check_and_record_failure("user", 0).unwrap();
    limiter.check_and_record_failure("user", 0).unwrap();
    assert!(limiter.check_and_record_failure("user", 0).is_err());
}

#[test]
fn test_rate_limiter_independent_keys() {
    let mut limiter = LoginRateLimiter::new(2, 300, 900);
    limiter.check_and_record_failure("user-a", 0).unwrap();
    limiter.check_and_record_failure("user-a", 0).unwrap();
    assert!(limiter.check_and_record_failure("user-a", 0).is_err());
    assert!(limiter.check_and_record_failure("user-b", 0).is_ok());
}

#[test]
fn test_rate_limiter_reset() {
    let mut limiter = LoginRateLimiter::new(2, 300, 900);
    limiter.check_and_record_failure("user", 0).unwrap();
    limiter.check_and_record_failure("user", 0).unwrap();
    limiter.reset("user");
    assert!(limiter.check_and_record_failure("user", 0).is_ok());
    assert!(limiter.check_and_record_failure("user", 0).is_ok());
    assert!(limiter.check_and_record_failure("user", 0).is_err());
}

#[test]
fn test_rate_limiter_reset_nonexistent_key() {
    let mut limiter = LoginRateLimiter::new(2, 300, 900);
    limiter.reset("nonexistent");
    assert!(limiter.check_and_record_failure("nonexistent", 0).is_ok());
}

#[test]
fn test_rate_limiter_window_reset_below_max() {
    let mut limiter = LoginRateLimiter::new(5, 1, 60);
    limiter.check_and_record_failure("user", 0).unwrap();
    limiter.check_and_record_failure("user", 0).unwrap();
    assert!(limiter.check_and_record_failure("user", 2 * SECOND).is_ok());
}

#[test]
fn test_rate_limiter_lockout_persists_during_window() {
    let mut limiter = LoginRateLimiter::new(2, 60, 60);
    limiter.check_and_record_failure("user", 0).unwrap();
    limiter.check_and_record_failure("user", 0).unwrap();
    assert!(limiter.check_and_record_failure("user", 0).is_err());
}

#[test]
fn a_lockout_lasts_through_the_window_and_behind_it() {
    let mut limiter = LoginRateLimiter::new(2, 10, 20);
    limiter.check_and_record_failure("user", 0).unwrap();
    limiter.check_and_record_failure("user", 0).unwrap();
    assert!(limiter.check_and_record_failure("user", 29 * SECOND).is_err());
    assert!(limiter.check_and_record_failure("user", 31 * SECOND).is_ok());
}

#[derive(Debug, Clone, Copy, PartialEq, Eq)]
struct Perm(&'static str);

impl Key for Perm {
    type Id = ();

    fn same(&self, other: &Self) -> bool {
        self == other
    }

    fn duplicate(&self) -> Self {
        *self
    }
}

impl Permission for Perm {
    fn name(&self) -> &str {
        self.0
    }

    fn domain(&self) -> &str {
        self.0.split('.').next().unwrap_or("")
    }

    fn ancestry_names(&self) -> Vec<&str> {
        vec![self.0]
    }

    fn is_branch(&self) -> bool {
        false
    }

    fn identity_fixes_texts(_: &Self, _: &Self) {}
}

fn catalogue() -> Vec<Perm> {
    [
        "agent.list", "agent.read", "agent.create", "agent.delete", "config.read", "config.write",
        "system.read", "system.write", "deploy.read", "deploy.execute", "user.list", "user.manage",
        "audit.read", "log.list",
    ]
    .into_iter()
    .map(Perm)
    .collect()
}

fn default_engine() -> DefaultEngine<Perm> {
    build_default_engine(&catalogue())
}

#[test]
fn test_build_default_engine_roles() {
    let engine = default_engine();
    let reg = engine.role_registry();
    assert!(reg.get_role_permissions("admin").is_some());
    assert!(reg.get_role_permissions("operator").is_some());
    assert!(reg.get_role_permissions("viewer").is_some());
    assert!(reg.get_role_permissions("member").is_some());
    assert!(reg.get_role_permissions("nonexistent").is_none());
}

#[test]
fn test_build_default_engine_admin_has_all_perms() {
    let engine = default_engine();
    let admin = engine.role_registry().get_role_permissions("admin").unwrap();
    assert_eq!(admin.len(), catalogue().len());
}

#[test]
fn test_build_default_engine_viewer_is_list_read_only() {
    let engine = default_engine();
    let viewer = engine.role_registry().get_role_permissions("viewer").unwrap();
    for perm in &viewer.to_items() {
        let n = perm.name();
        assert!(
            n.ends_with(".list") || n == "deploy.read",
            "viewer should only have .list or deploy.read, got {}",
            n
        );
    }
    assert_eq!(viewer.len(), 4);
}

#[test]
fn test_user_record_to_public() {
    let id = Uuid::now_v7().as_u128();
    let now = utc_now();
    let record = UserRecord {
        id,
        username: "alice".to_string(),
        password_hash: PasswordHash::new("hash".to_string()),
        display_name: Some("Alice".to_string()),
        is_active: true,
        identity: Identity::Basic { id, created_at: now },
        created_at: now,
        updated_at: now,
    };
    let info = record.to_public();
    assert_eq!(info.id, id);
    assert_eq!(info.username, "alice");
    assert_eq!(info.display_name, Some("Alice".to_string()));
    assert!(info.is_active);
    assert_eq!(list_public(&vec![record]).len(), 1);
}

fn account(active: bool) -> UserRecord {
    let mut user = UserRecord::registered(7, "alice", "hash".to_string(), Some("Alice"), 100);
    user.is_active = active;
    user
}

#[test]
fn a_new_account_is_active_and_a_persons() {
    let user = account(true);
    assert_eq!(user.username, "alice");
    assert_eq!(user.password_hash.as_str(), "hash");
    assert_eq!(user.identity, Identity::Basic { id: 7, created_at: 100 });
    assert_eq!((user.created_at, user.updated_at), (100, 100));
}

#[test]
fn a_login_tells_who_logged_in() {
    let id = Uuid::now_v7();
    let user = UserRecord::registered(id.as_u128(), "alice", "hash".to_string(), None, 0);
    let result = login_result(&user, vec!["admin".to_string()], "token".to_string(), Some(3));
    assert_eq!(result.user_id, id.to_string());
    assert_eq!(result.username, "alice");
    assert_eq!(result.roles, vec!["admin".to_string()]);
    assert_eq!(result.token, "token");
    assert_eq!(result.session_id, Some(3));
}

fn service() -> AuthService {
    AuthService::new("admin", "member").with_auto_admin_first_user(true)
}

#[test]
fn a_registration_needs_a_good_name_and_a_good_password() {
    let mut auth = service();
    assert_eq!(auth.begin_registration("  alice ", "Password1!", 0).unwrap(), "alice");
    assert!(matches!(
        auth.begin_registration("a", "Password1!", 0),
        Err(KirinoError::Validation(_))
    ));
    assert!(matches!(
        auth.begin_registration("alice", "password", 0),
        Err(KirinoError::Validation(_))
    ));
    assert!(auth.check_free(false).is_ok());
    assert!(matches!(auth.check_free(true), Err(KirinoError::Validation(text)) if text == "username already exists"));
}

#[test]
fn the_first_role_is_given_once() {
    let mut auth = service();
    let first = auth.claim_first_user();
    assert!(first);
    assert_eq!(auth.role_for(first, 0), "admin");
    let second = auth.claim_first_user();
    assert!(!second);
    assert_eq!(auth.role_for(second, 1), "member");
}

#[test]
fn without_the_switch_nobody_is_first() {
    let mut auth = AuthService::new("admin", "member").with_auto_admin_first_user(false);
    let claimed = auth.claim_first_user();
    assert_eq!(auth.role_for(claimed, 0), "member");
}

#[test]
fn failed_logins_look_alike() {
    let mut auth = service();
    let unknown = auth.end_login("ghost", None, Ok(false));
    let inactive = auth.end_login("alice", Some(account(false)), Ok(true));
    let wrong = auth.end_login("alice", Some(account(true)), Ok(false));
    assert!(matches!(unknown, Err(KirinoError::AuthenticationFailed)));
    assert!(matches!(inactive, Err(KirinoError::AuthenticationFailed)));
    assert!(matches!(wrong, Err(KirinoError::AuthenticationFailed)));
    assert!(auth.end_login("alice", Some(account(true)), Ok(true)).is_ok());
}

#[test]
fn too_many_attempts_are_refused_until_one_succeeds() {
    let mut auth = service().with_rate_limiter(LoginRateLimiter::new(2, 300, 900));
    assert_eq!(auth.begin_login(" alice ", 0).unwrap(), "alice");
    assert!(auth.begin_login("alice", 0).is_ok());
    assert!(auth.begin_login("alice", 0).is_err());
    assert!(auth.begin_login("bob", 0).is_ok());
    assert!(auth.end_login("alice", Some(account(true)), Ok(true)).is_ok());
    assert!(auth.begin_login("alice", 0).is_ok());
}

#[test]
fn a_password_change_needs_the_account_the_old_password_and_a_good_new_one() {
    let auth = service();
    assert!(matches!(
        auth.check_password_change(false, Ok(true), "Password1!"),
        Err(KirinoError::NotFound(_))
    ));
    assert!(matches!(
        auth.check_password_change(true, Ok(false), "Password1!"),
        Err(KirinoError::AuthenticationFailed)
    ));
    assert!(matches!(
        auth.check_password_change(true, Ok(true), "short"),
        Err(KirinoError::Validation(_))
    ));
    assert!(auth.check_password_change(true, Ok(true), "Password1!").is_ok());
}

#[test]
fn a_user_id_is_a_uuid() {
    let id = Uuid::now_v7();
    assert_eq!(parse_user_id(&id.to_string()).unwrap(), id.as_u128());
    assert!(matches!(parse_user_id("not-a-uuid"), Err(KirinoError::Validation(_))));
}

#[test]
fn roles_and_permissions_are_those_of_the_store() {
    let mut engine = default_engine();
    let id = Uuid::now_v7();
    let subject = StringSubject::new(&id.to_string());
    engine.assignment_store_mut().assign_role(&subject, "viewer").unwrap();
    let (roles, permissions) = fetch_user_roles_and_perms(&engine, &id.to_string()).unwrap();
    assert_eq!(roles, vec!["viewer".to_string()]);
    assert_eq!(permissions.len(), 4);
    let auth = AuthService::new("admin", "viewer");
    assert!(auth.check_permission(&mut engine, &id.to_string(), &Perm("agent.list"), 0));
    assert!(!auth.check_permission(&mut engine, &id.to_string(), &Perm("agent.delete"), 0));
}

fn rating(risk: f64) -> Arithmetic<
    impl Fn(&AnomalyDetector) -> Score,
    impl Fn(TrustScore, Option<Score>) -> Score,
    impl Fn(SubScores, [Score; 5]) -> Score,
    impl Fn(Score) -> String,
> {
    Arithmetic {
        deviation: |_: &AnomalyDetector| Score::from_bits(0),
        trust_penalty: |_: TrustScore, _: Option<Score>| Score::from_bits(0),
        total: move |_: SubScores, _: [Score; 5]| Score::from_bits(risk.to_bits()),
        shown: |s: Score| format!("{:.3}", f64::from_bits(s.bits)),
    }
}

#[test]
fn both_decisions_have_to_allow() {
    let mut engine = default_engine();
    let id = Uuid::now_v7().to_string();
    engine.assignment_store_mut().assign_role(&StringSubject::new(&id), "viewer").unwrap();
    let auth = AuthService::new("admin", "viewer");
    let request = ActionRequest::simple(Delegator::agent("bot", "badge"), "list", ActionCategory::ReadOnly);
    let trust = InMemoryTrustScoreStore::new();
    let mut arbiter = AuthorizationArbiter::new(default_dynamic_policy());
    let mut check = |permission: &'static str, arbiter: Option<&mut AuthorizationArbiter>, risk: f64| {
        let asked = arbiter.map(|a| (a, &trust));
        auth.check_static_and_dynamic(&mut engine, &id, &Perm(permission), &request, asked, &rating(risk), 0, 0)
    };
    assert!(matches!(check("agent.list", None, 0.0), (true, None)));
    assert!(matches!(check("agent.delete", None, 0.0), (false, None)));

    assert!(matches!(check("agent.delete", Some(&mut arbiter), 0.0), (false, None)));
    assert!(arbiter.detector(&"bot".to_string()).is_none());

    let (allowed, verdict) = check("agent.list", Some(&mut arbiter), 0.05);
    assert!(allowed && verdict.unwrap().allowed);
    assert_eq!(arbiter.detector(&"bot".to_string()).unwrap().total_observed(), 1);

    let (allowed, verdict) = check("agent.list", Some(&mut arbiter), 0.95);
    assert!(!allowed && !verdict.unwrap().allowed);
}

#[test]
fn without_allowed_failures_one_attempt_passes_after_the_lockout() {
    let mut limiter = LoginRateLimiter::new(0, 300, 900);
    assert!(limiter.check_and_record_failure("user", 0).is_err());
    assert!(limiter.check_and_record_failure("user", 1_199 * SECOND).is_err());
    assert!(limiter.check_and_record_failure("user", 1_201 * SECOND).is_ok());
    assert!(limiter.check_and_record_failure("user", 1_202 * SECOND).is_err());
}

#[test]
fn an_empty_catalogue_has_empty_roles() {
    let engine: DefaultEngine<Perm> = build_default_engine(&vec![]);
    let admin: KeySet<Perm> = engine.role_registry().get_role_permissions("admin").unwrap();
    assert!(admin.is_empty());
    let _: &InMemoryAssignmentStore<StringSubject, Perm> = engine.assignment_store();
}
