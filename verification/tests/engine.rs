//! The decision engine.
use kirino::collections::{Key, KeySet};
use kirino::error::KirinoError;
use kirino::rbac::cache::{PermissionCache, TtlPermissionCache};
use kirino::rbac::engine::RbacEngine;
use kirino::rbac::hierarchy::HierarchyNode;
use kirino::rbac::memory::InMemoryAssignmentStore;
use kirino::rbac::registry::{SimpleRole, StaticPermissionRegistry, StaticRoleRegistry};
use kirino::rbac::traits::{
    AssignmentStore, GrantResolver, GrantSource, Permission, PermissionContext, PermissionDecision,
    PermissionRegistry, RoleRegistry, Subject, SystemRole,
};
use std::sync::{Arc, Mutex};

#[derive(Debug, Clone, Copy, PartialEq, Eq)]
enum TestPerm {
    Read,
    Write,
    Delete,
    Admin,
}

impl Key for TestPerm {
    type Id = ();

    fn same(&self, other: &Self) -> bool {
        self == other
    }

    fn duplicate(&self) -> Self {
        *self
    }
}

impl Permission for TestPerm {
    fn name(&self) -> &str {
        match self {
            TestPerm::Read => "read",
            TestPerm::Write => "write",
            TestPerm::Delete => "delete",
            TestPerm::Admin => "admin",
        }
    }

    fn domain(&self) -> &str {
        ""
    }

    fn ancestry_names(&self) -> Vec<&str> {
        vec![self.name()]
    }

    fn is_branch(&self) -> bool {
        false
    }

    fn identity_fixes_texts(_: &Self, _: &Self) {}
}

fn perms(items: &[TestPerm]) -> KeySet<TestPerm> {
    KeySet::from_items(&items.to_vec())
}

#[derive(Debug, Clone, PartialEq, Eq)]
struct TestSubject(String);

impl Key for TestSubject {
    type Id = ();

    fn same(&self, other: &Self) -> bool {
        self.0 == other.0
    }

    fn duplicate(&self) -> Self {
        self.clone()
    }
}

impl Subject for TestSubject {
    fn subject_id(&self) -> &str {
        &self.0
    }

    fn subject_type(&self) -> &'static str {
        "user"
    }

    fn from_subject_id(id: &str) -> Self {
        TestSubject(id.to_string())
    }

    fn try_from_subject_id(id: &str) -> Result<Self, KirinoError> {
        Ok(TestSubject(id.to_string()))
    }
}

type Store = InMemoryAssignmentStore<TestSubject, TestPerm>;
type Roles = StaticRoleRegistry<SimpleRole<TestPerm>, TestPerm>;
type Catalogue = StaticPermissionRegistry<TestPerm>;
type Engine<A> = RbacEngine<TestSubject, TestPerm, A, Roles, Catalogue>;

const EVERYTHING: [TestPerm; 4] =
    [TestPerm::Read, TestPerm::Write, TestPerm::Delete, TestPerm::Admin];

fn subject(id: &str) -> TestSubject {
    TestSubject(id.to_string())
}

fn build_roles() -> Roles {
    let mut role_reg = StaticRoleRegistry::new();
    role_reg.register(SimpleRole::new("admin", perms(&EVERYTHING)));
    role_reg.register(SimpleRole::new("viewer", perms(&[TestPerm::Read])));
    role_reg.register(SimpleRole::new("editor", perms(&[TestPerm::Read, TestPerm::Write])));
    role_reg
}

fn build_engine() -> Engine<Store> {
    let perm_reg = StaticPermissionRegistry::new(perms(&EVERYTHING));
    RbacEngine::new(build_roles(), perm_reg, InMemoryAssignmentStore::new())
}

#[test]
fn test_check_admin_role() {
    let mut engine = build_engine();
    let admin = subject("admin-user");
    engine.assignment_store_mut().assign_role(&admin, "admin").unwrap();

    assert!(engine.check(&admin, &TestPerm::Read, 0));
    assert!(engine.check(&admin, &TestPerm::Write, 0));
    assert!(engine.check(&admin, &TestPerm::Delete, 0));
    assert!(engine.check(&admin, &TestPerm::Admin, 0));
}

#[test]
fn test_check_viewer_role() {
    let mut engine = build_engine();
    let viewer = subject("viewer-user");
    engine.assignment_store_mut().assign_role(&viewer, "viewer").unwrap();

    assert!(engine.check(&viewer, &TestPerm::Read, 0));
    assert!(!engine.check(&viewer, &TestPerm::Write, 0));
    assert!(!engine.check(&viewer, &TestPerm::Delete, 0));
}

#[test]
fn test_check_no_roles() {
    let mut engine = build_engine();
    let anon = subject("anon");

    assert!(!engine.check(&anon, &TestPerm::Read, 0));
}

#[test]
fn test_deny_override() {
    let mut engine = build_engine();
    let user = subject("denied-user");
    engine.assignment_store_mut().assign_role(&user, "admin").unwrap();
    engine.assignment_store_mut().set_denied_permissions(&user, perms(&[TestPerm::Admin])).unwrap();

    assert!(engine.check(&user, &TestPerm::Read, 0));
    assert!(!engine.check(&user, &TestPerm::Admin, 0));
}

#[test]
fn test_deny_overrides_extra() {
    let mut engine = build_engine();
    let user = subject("deny-extra-user");
    engine.assignment_store_mut().set_extra_permissions(&user, perms(&[TestPerm::Write])).unwrap();
    engine.assignment_store_mut().set_denied_permissions(&user, perms(&[TestPerm::Write])).unwrap();

    assert!(!engine.check(&user, &TestPerm::Write, 0));
}

#[test]
fn test_extra_permissions() {
    let mut engine = build_engine();
    let user = subject("extra-user");
    engine.assignment_store_mut().assign_role(&user, "viewer").unwrap();
    engine.assignment_store_mut().set_extra_permissions(&user, perms(&[TestPerm::Write])).unwrap();

    assert!(engine.check(&user, &TestPerm::Read, 0));
    assert!(engine.check(&user, &TestPerm::Write, 0));
    assert!(!engine.check(&user, &TestPerm::Delete, 0));
}

#[test]
fn test_check_batch() {
    let mut engine = build_engine();
    let editor = subject("editor-user");
    engine.assignment_store_mut().assign_role(&editor, "editor").unwrap();

    let results = engine.check_batch(
        &editor,
        &perms(&[TestPerm::Read, TestPerm::Write, TestPerm::Delete]),
        0,
    );

    assert_eq!(results.get(&TestPerm::Read), Some(&true));
    assert_eq!(results.get(&TestPerm::Write), Some(&true));
    assert_eq!(results.get(&TestPerm::Delete), Some(&false));
}

#[test]
fn test_check_batch_empty() {
    let mut engine = build_engine();
    let user = subject("batch-empty");
    let results = engine.check_batch(&user, &KeySet::new(), 0);
    assert_eq!(results.len(), 0);
}

#[test]
fn test_effective_permissions() {
    let mut engine = build_engine();
    let user = subject("ep-user");
    engine.assignment_store_mut().assign_role(&user, "editor").unwrap();
    engine.assignment_store_mut().set_extra_permissions(&user, perms(&[TestPerm::Delete])).unwrap();

    let eff = engine.effective_permissions(&user).unwrap();
    assert!(eff.contains(&TestPerm::Read));
    assert!(eff.contains(&TestPerm::Write));
    assert!(eff.contains(&TestPerm::Delete));
    assert!(!eff.contains(&TestPerm::Admin));
}

#[test]
fn test_effective_permissions_with_deny() {
    let mut engine = build_engine();
    let user = subject("ep-deny-user");
    engine.assignment_store_mut().assign_role(&user, "admin").unwrap();
    engine
        .assignment_store_mut()
        .set_denied_permissions(&user, perms(&[TestPerm::Admin, TestPerm::Delete]))
        .unwrap();

    let eff = engine.effective_permissions(&user).unwrap();
    assert!(eff.contains(&TestPerm::Read));
    assert!(eff.contains(&TestPerm::Write));
    assert!(!eff.contains(&TestPerm::Admin));
    assert!(!eff.contains(&TestPerm::Delete));
}

#[test]
fn test_effective_permissions_no_roles() {
    let engine = build_engine();
    let anon = subject("ep-anon");
    let eff = engine.effective_permissions(&anon).unwrap();
    assert!(eff.is_empty());
}

#[test]
fn test_engine_copy_shared_access() {
    let mut engine = build_engine();
    let store = engine.assignment_store();
    let store2 = engine.assignment_store();
    assert!(std::ptr::eq(store, store2));

    let user = subject("copy-user");
    engine.assignment_store_mut().assign_role(&user, "admin").unwrap();
    assert!(engine.check(&user, &TestPerm::Admin, 0));
}

#[test]
fn test_engine_multiple_independent_stores() {
    let mut role_reg = StaticRoleRegistry::new();
    role_reg.register(SimpleRole::new("admin", perms(&[TestPerm::Read, TestPerm::Write])));

    let mut engine1: Engine<Store> = RbacEngine::new(
        StaticRoleRegistry::new(),
        StaticPermissionRegistry::new(perms(&[TestPerm::Read, TestPerm::Write])),
        InMemoryAssignmentStore::new(),
    );
    let mut engine2: Engine<Store> = RbacEngine::new(
        role_reg,
        StaticPermissionRegistry::new(perms(&[TestPerm::Read, TestPerm::Write])),
        InMemoryAssignmentStore::new(),
    );

    let user1 = subject("u1");
    let user2 = subject("u2");
    engine1.assignment_store_mut().assign_role(&user1, "admin").unwrap();
    engine2.assignment_store_mut().assign_role(&user2, "admin").unwrap();

    assert!(!engine1.check(&user1, &TestPerm::Read, 0));
    assert!(engine2.check(&user2, &TestPerm::Read, 0));
}

#[test]
fn test_role_registry_accessor() {
    let engine = build_engine();
    let reg = engine.role_registry();
    assert!(reg.get_role_permissions("admin").is_some());
    assert!(reg.get_role_permissions("nonexistent").is_none());
}

#[test]
fn test_permission_registry_accessor() {
    let engine = build_engine();
    let reg = engine.permission_registry();
    assert!(reg.get_permission("read").is_some());
    assert!(reg.get_permission("nonexistent").is_none());
    assert_eq!(reg.all_permissions().len(), 4);
}

#[test]
fn test_cache_invalidation() {
    let mut engine = build_engine();
    let user = subject("cache-user");
    engine.assignment_store_mut().assign_role(&user, "admin").unwrap();

    assert!(engine.check(&user, &TestPerm::Admin, 0));

    engine.invalidate_subject_cache(&user);
    engine.assignment_store_mut().revoke_role(&user, "admin").unwrap();

    assert!(!engine.check(&user, &TestPerm::Admin, 0));
}

#[test]
fn engine_test_cache_invalidate_all() {
    let mut engine = build_engine();
    let user1 = subject("cache-u1");
    let user2 = subject("cache-u2");
    engine.assignment_store_mut().assign_role(&user1, "viewer").unwrap();
    engine.assignment_store_mut().assign_role(&user2, "viewer").unwrap();

    assert!(engine.check(&user1, &TestPerm::Read, 0));
    assert!(engine.check(&user2, &TestPerm::Read, 0));

    engine.invalidate_all_cache();
    engine.assignment_store_mut().revoke_role(&user1, "viewer").unwrap();

    assert!(!engine.check(&user1, &TestPerm::Read, 0));
    assert!(engine.check(&user2, &TestPerm::Read, 0));
}

#[test]
fn test_multiple_roles() {
    let mut engine = build_engine();
    let user = subject("multi-role");
    engine.assignment_store_mut().assign_role(&user, "viewer").unwrap();
    engine.assignment_store_mut().assign_role(&user, "editor").unwrap();

    assert!(engine.check(&user, &TestPerm::Read, 0));
    assert!(engine.check(&user, &TestPerm::Write, 0));
    assert!(!engine.check(&user, &TestPerm::Admin, 0));
}

#[test]
fn test_assign_duplicate_role() {
    let mut engine = build_engine();
    let user = subject("dup-role");
    engine.assignment_store_mut().assign_role(&user, "viewer").unwrap();
    engine.assignment_store_mut().assign_role(&user, "viewer").unwrap();

    let roles = engine.assignment_store().roles_of(&user).unwrap();
    assert_eq!(roles.len(), 1);
}

#[test]
fn test_concurrent_checks() {
    let engine = Arc::new(Mutex::new(build_engine()));
    let user = subject("user1");
    engine.lock().unwrap().assignment_store_mut().assign_role(&user, "admin").unwrap();

    let runtime = tokio::runtime::Builder::new_multi_thread().build().unwrap();
    runtime.block_on(async {
        let handles: Vec<_> = (0..20)
            .map(|_| {
                let engine = engine.clone();
                let user = user.clone();
                tokio::spawn(async move { engine.lock().unwrap().check(&user, &TestPerm::Read, 0) })
            })
            .collect();

        for h in handles {
            assert!(h.await.unwrap());
        }
    });
}

#[test]
fn test_check_nonexistent_role_in_registry() {
    let mut engine = build_engine();
    let user = subject("user1");
    engine.assignment_store_mut().assign_role(&user, "nonexistent-role").unwrap();

    assert!(!engine.check(&user, &TestPerm::Write, 0));
}

/// A store whose reads fail as chosen.
struct PartlyFailingStore {
    inner: Store,
    roles_fail: bool,
    extra_fail: bool,
    denied_fail: bool,
}

fn failing(roles_fail: bool, extra_fail: bool, denied_fail: bool) -> PartlyFailingStore {
    PartlyFailingStore { inner: InMemoryAssignmentStore::new(), roles_fail, extra_fail, denied_fail }
}

impl AssignmentStore<TestSubject, TestPerm> for PartlyFailingStore {
    fn roles_of(&self, subject: &TestSubject) -> Result<Vec<String>, KirinoError> {
        if self.roles_fail {
            return Err(KirinoError::Store("store error".to_string()));
        }
        self.inner.roles_of(subject)
    }

    fn extra_permissions(&self, subject: &TestSubject) -> Result<KeySet<TestPerm>, KirinoError> {
        if self.extra_fail {
            return Err(KirinoError::Store("extra store error".to_string()));
        }
        self.inner.extra_permissions(subject)
    }

    fn denied_permissions(&self, subject: &TestSubject) -> Result<KeySet<TestPerm>, KirinoError> {
        if self.denied_fail {
            return Err(KirinoError::Store("denied store error".to_string()));
        }
        self.inner.denied_permissions(subject)
    }

    fn assign_role(&mut self, subject: &TestSubject, role_name: &str) -> Result<(), KirinoError> {
        self.inner.assign_role(subject, role_name)
    }

    fn revoke_role(&mut self, subject: &TestSubject, role_name: &str) -> Result<(), KirinoError> {
        self.inner.revoke_role(subject, role_name)
    }

    fn subjects_with_role(&self, role_name: &str) -> Result<Vec<String>, KirinoError> {
        self.inner.subjects_with_role(role_name)
    }

    fn set_extra_permissions(
        &mut self,
        subject: &TestSubject,
        perms: KeySet<TestPerm>,
    ) -> Result<(), KirinoError> {
        self.inner.set_extra_permissions(subject, perms)
    }

    fn set_denied_permissions(
        &mut self,
        subject: &TestSubject,
        perms: KeySet<TestPerm>,
    ) -> Result<(), KirinoError> {
        self.inner.set_denied_permissions(subject, perms)
    }
}

#[test]
fn test_deny_on_denied_permissions_store_error() {
    let mut engine: Engine<PartlyFailingStore> = RbacEngine::new(
        StaticRoleRegistry::new(),
        StaticPermissionRegistry::new(KeySet::new()),
        failing(true, true, true),
    );
    let user = subject("user");
    assert!(!engine.check(&user, &TestPerm::Read, 0));
}

#[test]
fn test_deny_on_extra_permissions_store_error() {
    let mut role_reg = StaticRoleRegistry::new();
    role_reg.register(SimpleRole::new("viewer", perms(&[TestPerm::Read])));
    let mut engine: Engine<PartlyFailingStore> = RbacEngine::new(
        role_reg,
        StaticPermissionRegistry::new(perms(&[TestPerm::Read])),
        failing(false, true, false),
    );

    let user = subject("user");
    engine.assignment_store_mut().assign_role(&user, "viewer").unwrap();

    assert!(!engine.check(&user, &TestPerm::Read, 0));
}

#[test]
fn test_deny_on_denied_permissions_store_error_with_role() {
    let mut role_reg = StaticRoleRegistry::new();
    role_reg.register(SimpleRole::new("admin", perms(&[TestPerm::Read, TestPerm::Write])));
    let mut engine: Engine<PartlyFailingStore> = RbacEngine::new(
        role_reg,
        StaticPermissionRegistry::new(perms(&[TestPerm::Read, TestPerm::Write])),
        failing(false, false, true),
    );
    let user = subject("user");
    engine.assignment_store_mut().assign_role(&user, "admin").unwrap();

    assert!(!engine.check(&user, &TestPerm::Read, 0));
    assert!(!engine.check(&user, &TestPerm::Write, 0));
}

#[test]
fn a_failed_read_is_not_remembered() {
    let mut engine: Engine<PartlyFailingStore> = RbacEngine::new(
        build_roles(),
        StaticPermissionRegistry::new(perms(&EVERYTHING)),
        failing(true, false, false),
    );
    let user = subject("user");
    engine.assignment_store_mut().assign_role(&user, "admin").unwrap();
    assert!(!engine.check(&user, &TestPerm::Read, 0));
    assert_eq!(engine.cache().get(&user, &TestPerm::Read, 0), None);
    assert!(engine.effective_permissions(&user).is_err());

    engine.assignment_store_mut().roles_fail = false;
    assert!(engine.check(&user, &TestPerm::Read, 0));
    assert_eq!(engine.cache().get(&user, &TestPerm::Read, 0), Some(true));
}

#[test]
fn an_answer_outlives_a_revocation_until_its_time_to_live_ends() {
    let mut engine = build_engine().with_cache(TtlPermissionCache::new(100));
    let user = subject("user");
    engine.assignment_store_mut().assign_role(&user, "viewer").unwrap();
    assert!(engine.check(&user, &TestPerm::Read, 0));
    engine.assignment_store_mut().revoke_role(&user, "viewer").unwrap();
    assert!(engine.check(&user, &TestPerm::Read, 99));
    assert!(!engine.check(&user, &TestPerm::Read, 100));
}

#[test]
fn a_check_agrees_with_the_listing() {
    let mut engine = build_engine();
    let user = subject("user");
    engine.assignment_store_mut().assign_role(&user, "editor").unwrap();
    engine.assignment_store_mut().set_extra_permissions(&user, perms(&[TestPerm::Admin])).unwrap();
    engine.assignment_store_mut().set_denied_permissions(&user, perms(&[TestPerm::Write])).unwrap();
    let listed = engine.effective_permissions(&user).unwrap();
    for p in EVERYTHING {
        assert_eq!(engine.check(&user, &p, 0), listed.contains(&p));
    }
}

#[test]
fn inheritance_only_adds() {
    let mut roles = StaticRoleRegistry::new();
    roles.register_hierarchical(
        HierarchyNode::new("lead", perms(&[TestPerm::Write])).with_parents(vec!["base".to_string()]),
    );
    roles.register(HierarchyNode::new("base", perms(&[TestPerm::Read])));
    let mut engine = RbacEngine::new(
        roles,
        StaticPermissionRegistry::new(perms(&EVERYTHING)),
        InMemoryAssignmentStore::<TestSubject, TestPerm>::new(),
    );
    let user = subject("user");
    engine.assignment_store_mut().assign_role(&user, "lead").unwrap();

    assert!(!engine.check(&user, &TestPerm::Read, 0));
    assert_eq!(engine.effective_permissions(&user).unwrap().len(), 1);
    assert_eq!(engine.effective_permissions_hierarchical(&user).unwrap().len(), 2);
    engine.invalidate_all_cache();
    assert!(engine.check_hierarchical(&user, &TestPerm::Read, 0));
    assert!(engine.check_hierarchical(&user, &TestPerm::Write, 0));
    assert!(!engine.check_hierarchical(&user, &TestPerm::Delete, 0));
}

/// A resolver that grants by name.
struct GrantsReads;

impl GrantResolver<TestPerm> for GrantsReads {
    fn resolve(
        &self,
        _: &PermissionContext,
        permission: &TestPerm,
        _: Option<&str>,
    ) -> Result<PermissionDecision, KirinoError> {
        match permission {
            TestPerm::Read => Ok(PermissionDecision::Granted {
                reason: "by name".to_string(),
                source: GrantSource::GlobalGrant,
            }),
            TestPerm::Delete => Err(KirinoError::Store("down".to_string())),
            _ => Ok(PermissionDecision::Denied { reason: "by name".to_string(), source: None }),
        }
    }
}

fn context(session_version: u64, current_user_version: u64) -> PermissionContext {
    PermissionContext {
        user_id: 7,
        system_role: SystemRole::Member,
        group_ids: vec![],
        workspace_id: None,
        workspace_role: None,
        session_version,
        current_user_version,
    }
}

#[test]
fn a_stale_session_is_denied_before_the_resolver_is_asked() {
    let engine = build_engine();
    let fresh = engine.check_permission(&context(2, 2), &TestPerm::Read, None, &GrantsReads);
    assert!(matches!(
        fresh,
        Ok(PermissionDecision::Granted { source: GrantSource::GlobalGrant, .. })
    ));
    let stale = engine.check_permission(&context(1, 2), &TestPerm::Read, None, &GrantsReads);
    assert!(matches!(stale, Ok(PermissionDecision::Denied { .. })));
    assert!(engine
        .check_permission(&context(2, 2), &TestPerm::Delete, None, &GrantsReads)
        .is_err());
}

#[test]
fn what_is_granted_among_candidates_is_what_the_resolver_grants() {
    let engine = build_engine();
    let got = engine.granted_among(&context(1, 1), &GrantsReads, &EVERYTHING.to_vec());
    assert_eq!(got, vec![TestPerm::Read]);
    let all = engine.resolve_effective_permissions(&context(1, 1), &GrantsReads);
    assert!(all.is_empty(), "the type names no leaf permissions");
}

/// A cache that remembers nothing.
struct Forgetful;

impl PermissionCache<TestSubject, TestPerm> for Forgetful {
    fn get(&self, _: &TestSubject, _: &TestPerm, _: u64) -> Option<bool> {
        None
    }

    fn set(&mut self, _: &TestSubject, _: &TestPerm, _: bool, _: u64) {}

    fn invalidate_subject(&mut self, _: &TestSubject) {}

    fn invalidate_all(&mut self) {}
}

#[test]
fn another_cache_can_be_supplied() {
    let mut engine = build_engine().with_cache(Forgetful);
    let user = subject("user");
    engine.assignment_store_mut().assign_role(&user, "viewer").unwrap();
    assert!(engine.check(&user, &TestPerm::Read, 0));
    engine.assignment_store_mut().revoke_role(&user, "viewer").unwrap();
    assert!(!engine.check(&user, &TestPerm::Read, 0));
}
