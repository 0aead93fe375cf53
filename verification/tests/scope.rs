//! Scoped grants and their resolution.
use kirino::collections::{Key, KeySet};
use kirino::error::KirinoError;
use kirino::rbac::scope::{
    grant_matches, GrantScope, MemoryScopedGrantStore, ScopedGrant, ScopedGrantResolver,
    ScopedGrantStore,
};
use kirino::rbac::traits::{
    GrantResolver, GrantSource, Permission, PermissionContext, PermissionDecision, RoleRegistry,
    SystemRole, WorkspaceRole,
};

#[derive(Debug, Clone, Copy, PartialEq, Eq)]
struct Perm(&'static str);

impl Key for Perm {
    type Id = ();

    fn same(&self, other: &Self) -> bool {
        self == other
    }

    fn duplicate(&self) -> Self {
        *self
    }
}

impl Permission for Perm {
    fn name(&self) -> &str {
        self.0
    }

    fn domain(&self) -> &str {
        self.0.split('.').next().unwrap_or("")
    }

    fn ancestry_names(&self) -> Vec<&str> {
        let mut names = vec![self.0];
        if self.0.contains('.') {
            names.push(self.domain());
        }
        names
    }

    fn is_branch(&self) -> bool {
        !self.0.contains('.')
    }

    fn identity_fixes_texts(_: &Self, _: &Self) {}
}

fn perm(path: &'static str) -> Perm {
    Perm(path)
}

fn new_id() -> u128 {
    uuid::Uuid::new_v4().as_u128()
}

fn ctx(user: u128, role: SystemRole) -> PermissionContext {
    PermissionContext {
        user_id: user,
        system_role: role,
        group_ids: vec![],
        workspace_id: None,
        workspace_role: None,
        session_version: 1,
        current_user_version: 1,
    }
}

struct StaticRegistry;

impl RoleRegistry<Perm> for StaticRegistry {
    fn get_role_permissions(&self, _role_name: &str) -> Option<KeySet<Perm>> {
        None
    }

    fn role_parents(&self, _role_name: &str) -> Vec<String> {
        vec![]
    }

    fn list_role_names(&self) -> Vec<String> {
        vec![]
    }
}

fn decide(
    store: MemoryScopedGrantStore<Perm>,
    ctx: &PermissionContext,
    permission: &Perm,
) -> PermissionDecision {
    let resolver = ScopedGrantResolver::new(store, StaticRegistry);
    resolver.resolve(ctx, permission, None).unwrap()
}

fn granted(d: PermissionDecision) -> Option<GrantSource> {
    match d {
        PermissionDecision::Granted { source, .. } => Some(source),
        PermissionDecision::Denied { .. } => None,
    }
}

#[test]
fn empty_store_denies_member() {
    let d = decide(
        MemoryScopedGrantStore::new(),
        &ctx(new_id(), SystemRole::Member),
        &perm("config.read"),
    );
    assert!(matches!(d, PermissionDecision::Denied { .. }));
}

#[test]
fn admin_bypasses_without_grants() {
    let d = decide(
        MemoryScopedGrantStore::new(),
        &ctx(new_id(), SystemRole::Admin),
        &perm("system.write"),
    );
    assert!(matches!(granted(d), Some(GrantSource::AdminBypass)));
}

#[test]
fn deny_beats_grant_but_not_admin() {
    let u = new_id();
    let p = perm("config.read");
    let build = || {
        let mut store = MemoryScopedGrantStore::new();
        store.grant_user(u, ScopedGrant::new(p, GrantScope::Global)).deny(u, p);
        store
    };
    let d = decide(build(), &ctx(u, SystemRole::Member), &p);
    assert!(matches!(d, PermissionDecision::Denied { .. }));

    // The deny set is delegated control and must never lock out the admin.
    let d = decide(build(), &ctx(u, SystemRole::Admin), &p);
    assert!(matches!(granted(d), Some(GrantSource::AdminBypass)));
}

#[test]
fn workspace_grant_applies_only_inside_its_workspace() {
    let u = new_id();
    let ws_a = new_id();
    let ws_b = new_id();
    let p = perm("device.connect");
    let build = || {
        let mut store = MemoryScopedGrantStore::new();
        store.grant_user(u, ScopedGrant::new(p, GrantScope::Workspace(ws_a)));
        store
    };

    let mut in_a = ctx(u, SystemRole::Member);
    in_a.workspace_id = Some(ws_a);
    let mut in_b = ctx(u, SystemRole::Member);
    in_b.workspace_id = Some(ws_b);

    assert!(matches!(
        decide(build(), &in_a, &p),
        PermissionDecision::Granted { source: GrantSource::WorkspaceGrant, .. }
    ));
    assert!(matches!(decide(build(), &in_b, &p), PermissionDecision::Denied { .. }));
}

#[test]
fn group_grant_requires_membership_and_labels_source() {
    let u = new_id();
    let g = new_id();
    let p = perm("deploy.execute");
    let build = || {
        let mut store = MemoryScopedGrantStore::new();
        store.grant_group(g, ScopedGrant::new(p, GrantScope::Global));
        store
    };

    let outsider = ctx(u, SystemRole::Member);
    let mut member = ctx(u, SystemRole::Member);
    member.group_ids = vec![g];

    assert!(matches!(decide(build(), &outsider, &p), PermissionDecision::Denied { .. }));
    assert!(matches!(granted(decide(build(), &member, &p)), Some(GrantSource::GroupGrant)));
}

#[test]
fn most_specific_match_labels_the_decision() {
    let u = new_id();
    let g = new_id();
    let ws = new_id();
    let p = perm("channel.use");
    let mut store = MemoryScopedGrantStore::new();
    store
        .grant_user(u, ScopedGrant::new(p, GrantScope::Global))
        .grant_user(u, ScopedGrant::new(p, GrantScope::Workspace(ws)));
    let mut c = ctx(u, SystemRole::Member);
    c.group_ids = vec![g];
    c.workspace_id = Some(ws);
    // Both the global and the workspace grant apply; the more specific
    // workspace one must label the decision.
    assert!(matches!(granted(decide(store, &c, &p)), Some(GrantSource::WorkspaceGrant)));
}

struct WithDefault;

impl RoleRegistry<Perm> for WithDefault {
    fn get_role_permissions(&self, _role: &str) -> Option<KeySet<Perm>> {
        let mut set = KeySet::new();
        set.insert(perm("knowledge.read"));
        Some(set)
    }

    fn role_parents(&self, _role_name: &str) -> Vec<String> {
        vec![]
    }

    fn list_role_names(&self) -> Vec<String> {
        vec!["member".into()]
    }
}

#[test]
fn role_default_grants_without_any_store_rows() {
    let u = new_id();
    let p = perm("knowledge.read");
    let resolver = ScopedGrantResolver::new(MemoryScopedGrantStore::new(), WithDefault);
    let d = resolver.resolve(&ctx(u, SystemRole::Member), &p, None).unwrap();
    assert!(matches!(granted(d), Some(GrantSource::RoleDefault)));
}

#[test]
fn stale_session_denies_even_admin() {
    let mut c = ctx(new_id(), SystemRole::Admin);
    c.session_version = 0;
    c.current_user_version = 2;
    let d = decide(MemoryScopedGrantStore::new(), &c, &perm("system.read"));
    assert!(matches!(d, PermissionDecision::Denied { .. }));
}

#[test]
fn equal_specificity_tie_labels_user_before_group() {
    // Same permission granted globally by both the user attachment and a
    // group attachment: equal scope specificity, and the user-attached grant
    // labels the decision.
    let u = new_id();
    let g = new_id();
    let p = perm("yolo.use");
    let mut store = MemoryScopedGrantStore::new();
    store
        .grant_user(u, ScopedGrant::new(p, GrantScope::Global))
        .grant_group(g, ScopedGrant::new(p, GrantScope::Global));
    let mut c = ctx(u, SystemRole::Member);
    c.group_ids = vec![g];
    assert!(matches!(granted(decide(store, &c, &p)), Some(GrantSource::UserGrant)));
}

#[test]
fn a_branch_covers_its_descendants() {
    assert!(grant_matches(&perm("config"), &perm("config.read")));
    assert!(grant_matches(&perm("config.read"), &perm("config.read")));
    assert!(!grant_matches(&perm("config.read"), &perm("config")));
    assert!(!grant_matches(&perm("system"), &perm("config.read")));
}

#[test]
fn a_denied_branch_denies_what_lies_below() {
    let u = 7;
    let mut store = MemoryScopedGrantStore::new();
    store
        .grant_user(u, ScopedGrant::new(perm("config.read"), GrantScope::Global))
        .deny(u, perm("config"));
    let d = decide(store, &ctx(u, SystemRole::Member), &perm("config.read"));
    assert!(matches!(d, PermissionDecision::Denied { .. }));
}

#[test]
fn a_group_scope_needs_the_group() {
    let u = 7;
    let p = perm("config.read");
    let build = || {
        let mut store = MemoryScopedGrantStore::default();
        store.grant_user(u, ScopedGrant::new(p, GrantScope::Group(9)));
        store
    };
    assert!(granted(decide(build(), &ctx(u, SystemRole::Member), &p)).is_none());
    let mut member = ctx(u, SystemRole::Member);
    member.group_ids = vec![9];
    assert!(granted(decide(build(), &member, &p)).is_some());
    assert!(GrantScope::Group(9).applies_to(&member));
    assert!(!GrantScope::Group(8).applies_to(&member));
    assert!(!GrantScope::Workspace(9).applies_to(&member));
    assert!(GrantScope::Global.applies_to(&member));
}

#[test]
fn a_store_hands_back_what_was_granted() {
    let mut store = MemoryScopedGrantStore::new();
    store.grant_user(1, ScopedGrant::new(perm("a.b"), GrantScope::Global));
    store.grant_group(2, ScopedGrant::new(perm("c.d"), GrantScope::Workspace(3)));
    store.deny(1, perm("e.f"));
    assert_eq!(store.user_grants(1).unwrap().len(), 1);
    assert_eq!(store.group_grants(2).unwrap()[0].scope, GrantScope::Workspace(3));
    assert!(store.user_grants(2).unwrap().is_empty());
    assert!(store.denied(1).unwrap().contains(&perm("e.f")));
    assert!(store.denied(2).unwrap().is_empty());
}

/// Grants that cannot be read.
struct Down;

impl ScopedGrantStore<Perm> for Down {
    fn user_grants(&self, _: u128) -> Result<Vec<ScopedGrant<Perm>>, KirinoError> {
        Err(KirinoError::Store("down".to_string()))
    }

    fn group_grants(&self, _: u128) -> Result<Vec<ScopedGrant<Perm>>, KirinoError> {
        Err(KirinoError::Store("down".to_string()))
    }

    fn denied(&self, _: u128) -> Result<KeySet<Perm>, KirinoError> {
        Err(KirinoError::Store("down".to_string()))
    }
}

#[test]
fn a_failed_read_fails_the_decision() {
    let resolver = ScopedGrantResolver::new(Down, StaticRegistry);
    assert!(resolver.resolve(&ctx(1, SystemRole::Member), &perm("a.b"), None).is_err());
    // An administrator is decided before any read.
    assert!(resolver.resolve(&ctx(1, SystemRole::Admin), &perm("a.b"), None).is_ok());
}

#[test]
fn role_names_are_read_back() {
    for role in [SystemRole::Admin, SystemRole::Operator, SystemRole::Member, SystemRole::Viewer] {
        assert_eq!(SystemRole::from_str_lossy(role.as_str()), Some(role));
    }
    for role in [WorkspaceRole::Owner, WorkspaceRole::Operator, WorkspaceRole::Viewer] {
        assert_eq!(WorkspaceRole::from_str_lossy(role.as_str()), Some(role));
    }
    assert_eq!(SystemRole::from_str_lossy("nobody"), None);
    assert_eq!(WorkspaceRole::from_str_lossy("nobody"), None);
}

#[test]
fn scopes_are_ordered_by_specificity() {
    let w = GrantScope::Workspace(new_id()).specificity();
    let g = GrantScope::Group(new_id()).specificity();
    let global = GrantScope::Global.specificity();
    assert!(w > g && g > global);
}
