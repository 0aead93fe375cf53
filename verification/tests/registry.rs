//! Role and permission registries.
use kirino::collections::{Key, KeySet};
use kirino::rbac::registry::{SimpleRole, StaticPermissionRegistry, StaticRoleRegistry};
use kirino::rbac::traits::{Permission, PermissionRegistry, Role, RoleRegistry};

#[derive(Debug, Clone, Copy, PartialEq, Eq)]
enum TestPerm {
    Read,
    Write,
    Delete,
    Admin,
}

impl Key for TestPerm {
    type Id = ();

    fn same(&self, other: &Self) -> bool {
        self == other
    }

    fn duplicate(&self) -> Self {
        *self
    }
}

impl Permission for TestPerm {
    fn name(&self) -> &str {
        match self {
            TestPerm::Read => "read",
            TestPerm::Write => "write",
            TestPerm::Delete => "delete",
            TestPerm::Admin => "admin",
        }
    }

    fn domain(&self) -> &str {
        ""
    }

    fn ancestry_names(&self) -> Vec<&str> {
        vec![self.name()]
    }

    fn is_branch(&self) -> bool {
        false
    }

    fn identity_fixes_texts(_: &Self, _: &Self) {}
}

fn perms(items: &[TestPerm]) -> KeySet<TestPerm> {
    KeySet::from_items(&items.to_vec())
}

#[test]
fn test_simple_role() {
    let role: SimpleRole<TestPerm> =
        SimpleRole::new("editor", perms(&[TestPerm::Read, TestPerm::Write]));
    assert_eq!(role.role_name(), "editor");
    assert!(role.permissions().contains(&TestPerm::Read));
    assert!(role.permissions().contains(&TestPerm::Write));
    assert!(!role.permissions().contains(&TestPerm::Delete));
}

#[test]
fn test_static_permission_registry() {
    let reg = StaticPermissionRegistry::new(perms(&[TestPerm::Read, TestPerm::Write]));

    let all = reg.all_permissions();
    assert_eq!(all.len(), 2);

    assert!(reg.get_permission("read").is_some());
    assert!(reg.get_permission("write").is_some());
    assert!(reg.get_permission("delete").is_none());
}

#[test]
fn test_static_role_registry() {
    let mut reg: StaticRoleRegistry<SimpleRole<TestPerm>, TestPerm> = StaticRoleRegistry::new();
    reg.register(SimpleRole::new("viewer", perms(&[TestPerm::Read])));
    reg.register(SimpleRole::new(
        "admin",
        perms(&[TestPerm::Read, TestPerm::Write, TestPerm::Delete]),
    ));

    assert!(reg.get_role_permissions("viewer").is_some());
    assert!(reg.get_role_permissions("admin").is_some());
    assert!(reg.get_role_permissions("unknown").is_none());

    let names = reg.list_role_names();
    assert_eq!(names.len(), 2);

    let admin = reg.get_role_permissions("admin").unwrap();
    assert_eq!(admin.len(), 3);
}

#[test]
fn test_static_role_registry_overwrite() {
    let mut reg: StaticRoleRegistry<SimpleRole<TestPerm>, TestPerm> = StaticRoleRegistry::new();
    reg.register(SimpleRole::new("role", perms(&[TestPerm::Read])));
    reg.register(SimpleRole::new("role", perms(&[TestPerm::Read, TestPerm::Write])));

    let perms = reg.get_role_permissions("role").unwrap();
    assert_eq!(perms.len(), 2);
}

#[test]
fn roles_without_parents_have_an_empty_list() {
    let mut reg: StaticRoleRegistry<SimpleRole<TestPerm>, TestPerm> = StaticRoleRegistry::default();
    reg.register(SimpleRole::new("viewer", perms(&[TestPerm::Read])));
    assert!(reg.role_parents("viewer").is_empty());
    assert!(reg.role_parents("unknown").is_empty());
    reg.set_parents("viewer", vec!["base".to_string(), "other".to_string()]);
    assert_eq!(reg.role_parents("viewer"), vec!["base".to_string(), "other".to_string()]);
}

#[test]
fn a_permission_is_found_under_its_name_only() {
    let reg = StaticPermissionRegistry::new(perms(&[TestPerm::Admin]));
    assert_eq!(reg.get_permission("admin"), Some(TestPerm::Admin));
    assert_eq!(reg.get_permission("Admin"), None);
    assert!(TestPerm::Admin.matches_pattern("admin"));
    assert!(!TestPerm::Admin.matches_pattern("*"));
    assert!(TestPerm::Admin.is_leaf());
    assert!(TestPerm::Admin.path_segments().is_empty());
    assert!(TestPerm::all().is_empty());
    assert!(TestPerm::all_domains().is_empty());
    assert_eq!(TestPerm::from_path("admin"), None);
    assert!(TestPerm::expand_domain("").is_empty());
}
