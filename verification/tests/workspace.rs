//! Roles inside workspaces.
use kirino::error::KirinoError;
use kirino::rbac::workspace_guard::{
    role_can, InMemoryWorkspaceStore, ScopedPermission, WorkspaceGuard, WorkspaceRole, WorkspaceStore,
};

#[derive(Debug, Clone, Copy, PartialEq, Eq)]
enum TestPerm {
    AgentList,
    AgentCreate,
    WorkspaceManage,
}

impl ScopedPermission for TestPerm {
    fn name(&self) -> &str {
        match self {
            TestPerm::AgentList => "agent.list",
            TestPerm::AgentCreate => "agent.create",
            TestPerm::WorkspaceManage => "workspace.manage",
        }
    }
}

type Store = InMemoryWorkspaceStore<String, String>;

fn text(s: &str) -> String {
    s.to_string()
}

#[test]
fn workspace_role_ordering() {
    assert!(WorkspaceRole::Owner > WorkspaceRole::Operator);
    assert!(WorkspaceRole::Operator > WorkspaceRole::Viewer);
}

#[test]
fn owner_can_manage() {
    assert!(role_can(WorkspaceRole::Owner, &TestPerm::WorkspaceManage));
}

#[test]
fn operator_cannot_manage() {
    assert!(!role_can(WorkspaceRole::Operator, &TestPerm::WorkspaceManage));
}

#[test]
fn viewer_can_list() {
    assert!(role_can(WorkspaceRole::Viewer, &TestPerm::AgentList));
}

#[test]
fn viewer_cannot_create() {
    assert!(!role_can(WorkspaceRole::Viewer, &TestPerm::AgentCreate));
}

#[test]
fn direct_membership_grants_access() {
    let mut store = Store::new();
    store.add_member(text("alice"), text("ws-1"), WorkspaceRole::Owner);

    let guard = WorkspaceGuard::new(store);
    let has_access = guard
        .check(&text("alice"), &TestPerm::AgentCreate, &text("ws-1"), &["agent.create".into()])
        .unwrap();
    assert!(has_access);
}

#[test]
fn no_membership_denies() {
    let guard = WorkspaceGuard::new(Store::new());
    let has_access = guard
        .check(&text("bob"), &TestPerm::AgentList, &text("ws-1"), &["agent.list".into()])
        .unwrap();
    assert!(!has_access);
}

#[test]
fn missing_global_perm_denies_even_as_owner() {
    let mut store = Store::new();
    store.add_member(text("alice"), text("ws-1"), WorkspaceRole::Owner);

    let guard = WorkspaceGuard::new(store);
    let has_access =
        guard.check(&text("alice"), &TestPerm::AgentCreate, &text("ws-1"), &[]).unwrap();
    assert!(!has_access);
}

#[test]
fn group_grant_grants_access() {
    let mut store = Store::new();
    store.add_group_grant(text("admin-group"), text("ws-1"), WorkspaceRole::Owner);

    let guard = WorkspaceGuard::new(store);
    let has_access = guard
        .check(&text("admin-group"), &TestPerm::AgentCreate, &text("ws-1"), &["agent.create".into()])
        .unwrap();
    assert!(has_access);
}

#[test]
fn direct_membership_overrides_group_grant() {
    let mut store = Store::new();
    store.add_member(text("alice"), text("ws-1"), WorkspaceRole::Owner);
    store.add_group_grant(text("group-x"), text("ws-1"), WorkspaceRole::Viewer);

    let guard = WorkspaceGuard::new(store);
    let role = guard.resolve_workspace_role(&text("alice"), &text("ws-1")).unwrap();
    assert_eq!(role, Some(WorkspaceRole::Owner));
}

#[test]
fn accessible_workspaces_filters_correctly() {
    let mut store = Store::new();
    store.add_member(text("alice"), text("ws-1"), WorkspaceRole::Owner);
    store.add_member(text("bob"), text("ws-2"), WorkspaceRole::Viewer);

    let guard = WorkspaceGuard::new(store);
    let ws = guard.accessible_workspaces(&text("alice")).unwrap();
    assert_eq!(ws, vec!["ws-1"]);
    let ws = guard.accessible_workspaces(&text("bob")).unwrap();
    assert_eq!(ws, vec!["ws-2"]);
}

#[test]
fn viewer_denied_create_even_with_global_perm() {
    let mut store = Store::new();
    store.add_member(text("bob"), text("ws-1"), WorkspaceRole::Viewer);

    let guard = WorkspaceGuard::new(store);
    let has_access = guard
        .check(&text("bob"), &TestPerm::AgentCreate, &text("ws-1"), &["agent.create".into()])
        .unwrap();
    assert!(!has_access);
}

#[test]
fn a_membership_beats_a_stronger_group_grant() {
    let mut store = Store::default();
    store.add_member(text("eve"), text("ws-1"), WorkspaceRole::Viewer);
    store.add_group_grant(text("eve"), text("ws-1"), WorkspaceRole::Owner);
    let guard = WorkspaceGuard::new(store);
    assert_eq!(
        guard.resolve_workspace_role(&text("eve"), &text("ws-1")).unwrap(),
        Some(WorkspaceRole::Viewer)
    );
    assert_eq!(guard.resolve_workspace_role(&text("eve"), &text("ws-2")).unwrap(), None);
}

#[test]
fn an_owner_may_do_what_the_others_may() {
    for p in [TestPerm::AgentList, TestPerm::AgentCreate, TestPerm::WorkspaceManage] {
        for role in [WorkspaceRole::Viewer, WorkspaceRole::Operator] {
            if role_can(role, &p) {
                assert!(role_can(WorkspaceRole::Owner, &p));
            }
        }
        assert!(!p.requires_workspace());
    }
}

#[test]
fn a_workspace_role_name_is_read_back() {
    for role in [WorkspaceRole::Viewer, WorkspaceRole::Operator, WorkspaceRole::Owner] {
        assert_eq!(WorkspaceRole::from_str_lossy(role.as_str()), Some(role));
    }
    assert_eq!(WorkspaceRole::from_str_lossy("guest"), None);
}

/// Memberships that cannot be read.
struct Down;

impl WorkspaceStore<String, String> for Down {
    fn direct_membership(&self, _: &String, _: &String) -> Result<Option<WorkspaceRole>, KirinoError> {
        Err(KirinoError::Store("down".to_string()))
    }

    fn group_grants(&self, _: &String, _: &String) -> Result<Option<WorkspaceRole>, KirinoError> {
        Err(KirinoError::Store("down".to_string()))
    }

    fn accessible_workspaces(&self, _: &String) -> Result<Vec<String>, KirinoError> {
        Err(KirinoError::Store("down".to_string()))
    }
}

#[test]
fn a_failed_membership_read_is_a_failure() {
    let guard = WorkspaceGuard::new(Down);
    assert!(guard
        .check(&text("a"), &TestPerm::AgentList, &text("w"), &["agent.list".into()])
        .is_err());
    assert!(guard.resolve_workspace_role(&text("a"), &text("w")).is_err());
    assert!(guard.accessible_workspaces(&text("a")).is_err());
}
