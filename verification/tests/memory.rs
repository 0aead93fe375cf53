//! Assignments and roles held in memory.
use kirino::collections::{Key, KeySet};
use kirino::error::KirinoError;
use kirino::rbac::memory::{InMemoryAssignmentStore, InMemoryRoleStore};
use kirino::rbac::traits::{AssignmentStore, Permission, RoleStore, Subject};
use std::sync::{Arc, Mutex};

#[derive(Debug, Clone, Copy, PartialEq, Eq)]
struct TestPerm(&'static str);

impl Key for TestPerm {
    type Id = ();

    fn same(&self, other: &Self) -> bool {
        self == other
    }

    fn duplicate(&self) -> Self {
        *self
    }
}

impl Permission for TestPerm {
    fn name(&self) -> &str {
        self.0
    }

    fn domain(&self) -> &str {
        ""
    }

    fn ancestry_names(&self) -> Vec<&str> {
        vec![self.0]
    }

    fn is_branch(&self) -> bool {
        false
    }

    fn identity_fixes_texts(_: &Self, _: &Self) {}
}

#[derive(Debug, Clone, PartialEq, Eq)]
struct TestSubject(String);

impl Key for TestSubject {
    type Id = ();

    fn same(&self, other: &Self) -> bool {
        self.0 == other.0
    }

    fn duplicate(&self) -> Self {
        self.clone()
    }
}

impl Subject for TestSubject {
    fn subject_id(&self) -> &str {
        &self.0
    }

    fn subject_type(&self) -> &'static str {
        "user"
    }

    fn from_subject_id(id: &str) -> Self {
        TestSubject(id.to_string())
    }

    fn try_from_subject_id(id: &str) -> Result<Self, KirinoError> {
        Ok(TestSubject(id.to_string()))
    }
}

type Store = InMemoryAssignmentStore<TestSubject, TestPerm>;

fn subject(id: &str) -> TestSubject {
    TestSubject(id.to_string())
}

fn perms(names: &[&'static str]) -> KeySet<TestPerm> {
    KeySet::from_items(&names.iter().map(|n| TestPerm(n)).collect())
}

#[test]
fn test_assign_and_revoke_role() {
    let mut store = Store::new();
    let subj = subject("user1");

    store.assign_role(&subj, "admin").unwrap();
    let roles = store.roles_of(&subj).unwrap();
    assert_eq!(roles, vec!["admin".to_string()]);

    store.assign_role(&subj, "admin").unwrap();
    let roles = store.roles_of(&subj).unwrap();
    assert_eq!(roles, vec!["admin".to_string()]);

    store.revoke_role(&subj, "admin").unwrap();
    let roles = store.roles_of(&subj).unwrap();
    assert!(roles.is_empty());
}

#[test]
fn test_extra_and_denied_permissions() {
    let mut store = Store::new();
    let subj = subject("user1");

    store.set_extra_permissions(&subj, perms(&["deploy"])).unwrap();
    let got = store.extra_permissions(&subj).unwrap();
    assert!(got.contains(&TestPerm("deploy")));

    store.set_denied_permissions(&subj, perms(&["system_write"])).unwrap();
    let got = store.denied_permissions(&subj).unwrap();
    assert!(got.contains(&TestPerm("system_write")));
}

#[test]
fn test_subjects_with_role() {
    let mut store = Store::new();
    store.assign_role(&subject("user1"), "admin").unwrap();
    store.assign_role(&subject("user2"), "admin").unwrap();
    store.assign_role(&subject("user3"), "viewer").unwrap();

    let admins = store.subjects_with_role("admin").unwrap();
    assert_eq!(admins.len(), 2);
    assert!(admins.contains(&"user1".to_string()));
    assert!(admins.contains(&"user2".to_string()));
}

#[test]
fn test_in_memory_role_store() {
    let mut store = InMemoryRoleStore::<TestPerm>::new();

    store.create_role("editor", perms(&["read", "write"])).unwrap();
    let got = store.get_role_permissions("editor").unwrap().unwrap();
    assert_eq!(got.len(), 2);

    let roles = store.list_roles().unwrap();
    assert_eq!(roles, vec!["editor".to_string()]);

    assert!(store.delete_role("editor").unwrap());
    assert!(store.get_role_permissions("editor").unwrap().is_none());
}

#[test]
fn test_revoke_nonexistent_role_noop() {
    let mut store = Store::new();
    let subj = subject("user1");
    store.revoke_role(&subj, "nonexistent").unwrap();
    assert!(store.roles_of(&subj).unwrap().is_empty());
}

#[test]
fn test_revoke_nonexistent_subject_noop() {
    let mut store = Store::new();
    let subj = subject("ghost");
    store.revoke_role(&subj, "admin").unwrap();
    store.revoke_role(&subj, "admin").unwrap();
    assert!(
        store.roles_of(&subj).unwrap().is_empty(),
        "revoking from a never-assigned subject must leave an empty role set"
    );
    let admins = store.subjects_with_role("admin").unwrap();
    assert!(
        !admins.iter().any(|s| s == "ghost"),
        "revoking a nonexistent subject must not register that subject under any role"
    );
}

#[test]
fn test_roles_of_nonexistent_subject() {
    let store = Store::new();
    let roles = store.roles_of(&subject("ghost")).unwrap();
    assert!(roles.is_empty());
}

#[test]
fn test_extra_perms_nonexistent_subject() {
    let store = Store::new();
    let perms = store.extra_permissions(&subject("ghost")).unwrap();
    assert!(perms.is_empty());
}

#[test]
fn test_denied_perms_nonexistent_subject() {
    let store = Store::new();
    let perms = store.denied_permissions(&subject("ghost")).unwrap();
    assert!(perms.is_empty());
}

#[test]
fn test_subjects_with_role_nonexistent() {
    let store = Store::new();
    assert!(store.subjects_with_role("nonexistent").unwrap().is_empty());
}

#[test]
fn test_extra_perms_overwrite() {
    let mut store = Store::new();
    let subj = subject("user1");

    store.set_extra_permissions(&subj, perms(&["read"])).unwrap();
    store.set_extra_permissions(&subj, perms(&["write"])).unwrap();

    let got = store.extra_permissions(&subj).unwrap();
    assert!(!got.contains(&TestPerm("read")));
    assert!(got.contains(&TestPerm("write")));
}

#[test]
fn test_role_store_list_roles_empty() {
    let store = InMemoryRoleStore::<TestPerm>::new();
    assert!(store.list_roles().unwrap().is_empty());
}

#[test]
fn test_role_store_delete_nonexistent() {
    let mut store = InMemoryRoleStore::<TestPerm>::new();
    assert!(!store.delete_role("ghost").unwrap());
}

#[test]
fn test_role_store_duplicate_create_overwrites() {
    let mut store = InMemoryRoleStore::<TestPerm>::new();
    store.create_role("role", perms(&["read"])).unwrap();
    store.create_role("role", perms(&["write"])).unwrap();

    let got = store.get_role_permissions("role").unwrap().unwrap();
    assert_eq!(got.len(), 1);
    assert!(got.contains(&TestPerm("write")));
}

#[test]
fn test_concurrent_assign_and_read() {
    let runtime = tokio::runtime::Builder::new_multi_thread().build().unwrap();
    let store = Arc::new(Mutex::new(Store::new()));
    runtime.block_on(async {
        let store_w = store.clone();
        let writer = tokio::spawn(async move {
            let subj = subject("user1");
            for i in 0..100 {
                store_w.lock().unwrap().assign_role(&subj, &format!("role{i}")).unwrap();
            }
        });

        let store_r = store.clone();
        let reader = tokio::spawn(async move {
            let subj = subject("user1");
            for _ in 0..100 {
                let _ = store_r.lock().unwrap().roles_of(&subj);
            }
        });

        writer.await.unwrap();
        reader.await.unwrap();
    });

    let roles = store.lock().unwrap().roles_of(&subject("user1")).unwrap();
    assert!(!roles.is_empty());
}

#[test]
fn default_stores_are_empty() {
    let store = Store::default();
    assert!(store.roles_of(&subject("user1")).unwrap().is_empty());
    assert!(InMemoryRoleStore::<TestPerm>::default().list_roles().unwrap().is_empty());
}

#[test]
fn changing_one_subject_leaves_the_others_alone() {
    let mut store = Store::new();
    store.assign_role(&subject("a"), "admin").unwrap();
    store.set_denied_permissions(&subject("a"), perms(&["x"])).unwrap();
    store.assign_role(&subject("b"), "viewer").unwrap();
    store.revoke_role(&subject("b"), "viewer").unwrap();
    assert_eq!(store.roles_of(&subject("a")).unwrap(), vec!["admin".to_string()]);
    assert!(store.denied_permissions(&subject("b")).unwrap().is_empty());
    assert!(store.denied_permissions(&subject("a")).unwrap().contains(&TestPerm("x")));
}

#[test]
fn changing_one_role_leaves_the_others_alone() {
    let mut store = InMemoryRoleStore::<TestPerm>::new();
    store.create_role("editor", perms(&["write"])).unwrap();
    store.create_role("viewer", perms(&["read"])).unwrap();
    store.create_role("viewer", perms(&["list"])).unwrap();
    assert!(store.get_role_permissions("editor").unwrap().unwrap().contains(&TestPerm("write")));
    store.delete_role("viewer").unwrap();
    assert!(store.get_role_permissions("viewer").unwrap().is_none());
    assert!(store.get_role_permissions("editor").unwrap().unwrap().contains(&TestPerm("write")));
}
